use seekr::digest::hash_str;
use seekr::parser::ast_records;
use seekr::parser::chunk_by_lines;
use seekr::parser::chunk_kinds_for;
use seekr::parser::clean_name;
use seekr::parser::extract_chunks_and_symbols;
use seekr::parser::extract_symbols;
use seekr::parser::map_symbol_kind;
use seekr::parser::name_from_signature;
use seekr::parser::ts_language_for;
use seekr::parser::walk_nodes;
use seekr::grammar::SyntaxNode;
use seekr::grammar::TreeNode;
use seekr::parser::walk_order;

#[test]
fn ast_extracts_rust_function() {
    let src = "pub fn hello(name: &str) -> String { format!(\"hi {}\", name) }";
    let (_chunks, symbols, ast_used) = extract_chunks_and_symbols("a.rs", "rust", src);
    assert!(ast_used);
    assert!(symbols.iter().any(|s| s.name == "hello"));
}

#[test]
fn ast_extracts_cpp_function() {
    let src = "int add(int a, int b) { return a + b; }";
    let (_chunks, symbols, ast_used) = extract_chunks_and_symbols("x.cpp", "cpp", src);
    assert!(ast_used);
    assert!(symbols.iter().any(|s| s.name == "add"));
}

#[test]
fn ast_chunk_carries_node_text_and_lines() {
    let src = "fn first() {}\n\nfn second() {\n    let x = 1;\n}\n";
    let (chunks, symbols, ast_used) = extract_chunks_and_symbols("m.rs", "rust", src);
    assert!(ast_used);
    assert_eq!(chunks.len(), 2);
    assert!(chunks.iter().all(|c| c.kind == "ast:function_item"));
    let second = chunks.iter().find(|c| c.text.starts_with("fn second")).unwrap();
    assert_eq!(second.start_line, 3);
    assert_eq!(second.end_line, 5);
    let names: Vec<&str> = symbols.iter().map(|s| s.name.as_str()).collect();
    assert!(names.contains(&"first"));
    assert!(names.contains(&"second"));
    let sym = symbols.iter().find(|s| s.name == "second").unwrap();
    assert_eq!(sym.signature.as_deref(), Some("fn second() {"));
    assert_eq!(sym.kind, "function");
}

#[test]
fn line_windows_overlap_by_the_given_lines() {
    let chunks = chunk_by_lines("a.txt", "l1\nl2\nl3", 2, 1);
    assert_eq!(chunks.len(), 2);
    assert_eq!(chunks[0].text, "l1\nl2");
    assert_eq!(chunks[0].start_line, 1);
    assert_eq!(chunks[0].end_line, 2);
    assert_eq!(
        chunks[0].chunk_id,
        "chunk_74728e001b36928a3b38fa06dab84be539162077aa356372dd7e2936c8cb34c9"
    );
    assert_eq!(
        chunks[0].text_hash,
        "a1451c7bdb76a5c4a018b3ef3e7aa98b1d3f7bb79ba0a18cd3974322d76579cc"
    );
    assert_eq!(chunks[0].kind, "line_window");
    assert_eq!(chunks[1].text, "l2\nl3");
    assert_eq!(chunks[1].start_line, 2);
    assert_eq!(chunks[1].end_line, 3);
    assert_eq!(
        chunks[1].chunk_id,
        "chunk_7e9e8b880c0464e1abc44e530cafc9cfe2f28052a478047c19eb3e4126ebbe5a"
    );
}

#[test]
fn line_windows_without_overlap_end_at_last_line() {
    let chunks = chunk_by_lines("a.txt", "l1\nl2\nl3", 2, 0);
    assert_eq!(chunks.len(), 2);
    assert_eq!(chunks[1].text, "l3");
    assert_eq!(chunks[1].start_line, 3);
    assert_eq!(chunks[1].end_line, 3);
    assert_eq!(
        chunks[1].chunk_id,
        "chunk_4bd4ab07348ba0c1c1bcb6a9bd1027fabe4ebbd75d1ac779998a2c7088b0cd87"
    );
    assert_eq!(
        chunks[1].text_hash,
        "10dacdccfe877dc064d57442e6fa7a4e3085dc94e11a29819c2290fc3d788724"
    );
}

#[test]
fn overlap_not_below_size_still_advances_one_line() {
    let chunks = chunk_by_lines("a.txt", "a\nb\nc", 2, 5);
    let starts: Vec<i64> = chunks.iter().map(|c| c.start_line).collect();
    assert_eq!(starts, vec![1, 2]);
}

#[test]
fn empty_content_has_no_line_chunks() {
    assert!(chunk_by_lines("e.txt", "", 120, 20).is_empty());
}

#[test]
fn every_line_lies_in_some_chunk() {
    let content = "1\n2\n3\n4\n5\n6\n7";
    for (size, overlap) in [(1usize, 0usize), (2, 0), (3, 1), (3, 2), (4, 9)] {
        let chunks = chunk_by_lines("c.txt", content, size, overlap);
        for line in 1..=7i64 {
            assert!(chunks.iter().any(|c| c.start_line <= line && line <= c.end_line));
        }
        for c in &chunks {
            assert!(1 <= c.start_line && c.start_line <= c.end_line && c.end_line <= 7);
        }
    }
}

#[test]
fn content_always_yields_a_chunk() {
    let (chunks, _symbols, _ast) = extract_chunks_and_symbols("n.txt", "notes", "\n");
    assert_eq!(chunks.len(), 1);
    assert_eq!(chunks[0].text, "");
}

#[test]
fn language_without_grammar_uses_line_path() {
    let (chunks, symbols, ast_used) = extract_chunks_and_symbols("k.kt", "kotlin", "fun x()\nval y = 1\n");
    assert!(!ast_used);
    assert_eq!(chunks.len(), 1);
    assert_eq!(chunks[0].kind, "line_window");
    assert_eq!(chunks[0].text, "fun x()\nval y = 1");
    assert!(symbols.is_empty());
}

#[test]
fn rust_line_symbol_has_exact_fields() {
    let symbols = extract_symbols("a.rs", "rust", "fn main() {\n}\npub fn skipped() {}");
    assert_eq!(symbols.len(), 1);
    let s = &symbols[0];
    assert_eq!(s.name, "main");
    assert_eq!(s.qualified_name, "main");
    assert_eq!(s.kind, "function");
    assert_eq!(s.signature.as_deref(), Some("fn main() {"));
    assert_eq!(s.start_line, 1);
    assert_eq!(s.end_line, 1);
    assert_eq!(s.container_symbol_id, None);
    assert_eq!(s.visibility, None);
    assert!(!s.lsp_backed);
    assert_eq!(
        s.symbol_id,
        "sym_14776fb2aa271cdb5e846a9d6de77f2304c5e464aa0685713e956efb63b0b64a"
    );
}

#[test]
fn python_def_on_indented_line() {
    let symbols = extract_symbols("x.py", "python", "class A:\n    def run(self):\n        pass");
    assert_eq!(symbols.len(), 1);
    assert_eq!(symbols[0].name, "run");
    assert_eq!(symbols[0].start_line, 2);
    assert_eq!(
        symbols[0].symbol_id,
        "sym_83740994ba8e95a917b18f5f9f91a73b79126632e3894dd69785af37e65537b5"
    );
}

#[test]
fn line_patterns_for_other_languages() {
    let js = extract_symbols("a.js", "javascript", "function go(a) {\nclass Box extends Base {");
    assert_eq!(js.len(), 2);
    assert_eq!((js[0].kind.as_str(), js[0].name.as_str()), ("function", "go"));
    assert_eq!((js[1].kind.as_str(), js[1].name.as_str()), ("class", "Box"));

    let go = extract_symbols("a.go", "go", "func Serve(w Writer) {");
    assert_eq!(go[0].name, "Serve");

    let java = extract_symbols("J.java", "java", "public class Foo {");
    assert_eq!(java.len(), 1);
    assert_eq!(java[0].kind, "class");
    assert_eq!(java[0].name, "Foo");
    assert_eq!(
        java[0].symbol_id,
        "sym_89fedd9fd5d884cc15e4394c41170fd69eb4775628e0bd977aabb02a04f72f38"
    );

    let cpp = extract_symbols("b.cpp", "cpp", "class Bar : public Base {");
    assert_eq!(cpp.len(), 1);
    assert_eq!(cpp[0].name, "Bar");

    let c = extract_symbols("m.c", "c", "int main(void) {\nreturn 0;");
    assert_eq!(c.len(), 1);
    assert_eq!(c[0].kind, "function");
    assert_eq!(c[0].name, "main");
    assert_eq!(
        c[0].symbol_id,
        "sym_4935b76c05e07fce61cb816ef2359a35ac08f809cfbd1eb951dd4572d601aec3"
    );

    let none = extract_symbols("t.txt", "markdown", "fn x() {}\ndef y():");
    assert!(none.is_empty());
}

#[test]
fn empty_names_are_skipped() {
    let symbols = extract_symbols("a.rs", "rust", "fn (x) {}");
    assert!(symbols.is_empty());
}

#[test]
fn clean_name_keeps_last_path_segment() {
    assert_eq!(clean_name("&self::Foo::bar,"), "bar");
    assert_eq!(clean_name("  (name)  "), "name");
    assert_eq!(clean_name("***"), "");
}

#[test]
fn name_from_signature_takes_word_before_paren() {
    assert_eq!(name_from_signature("int add(int a, int b) {"), Some("add".to_string()));
    assert_eq!(name_from_signature("static void *ns::make(void)"), Some("make".to_string()));
    assert_eq!(name_from_signature("(x)"), None);
    assert_eq!(name_from_signature("   "), None);
}

#[test]
fn chunk_kinds_per_language() {
    assert_eq!(chunk_kinds_for("python"), vec!["function_definition", "class_definition"]);
    assert_eq!(
        chunk_kinds_for("rust"),
        vec!["function_item", "impl_item", "struct_item", "enum_item", "trait_item", "mod_item"]
    );
    assert_eq!(chunk_kinds_for("c-header"), vec!["function_definition", "struct_specifier", "enum_specifier"]);
    assert!(chunk_kinds_for("kotlin").is_empty());
}

#[test]
fn symbol_kinds_by_node_kind() {
    assert_eq!(map_symbol_kind("function_item"), Some("function"));
    assert_eq!(map_symbol_kind("method_declaration"), Some("method"));
    assert_eq!(map_symbol_kind("constructor_declaration"), Some("constructor"));
    assert_eq!(map_symbol_kind("class_specifier"), Some("class"));
    assert_eq!(map_symbol_kind("trait_item"), Some("trait"));
    assert_eq!(map_symbol_kind("namespace_definition"), Some("module"));
    assert_eq!(map_symbol_kind("type_declaration"), Some("type_alias"));
    assert_eq!(map_symbol_kind("impl_item"), None);
}

#[test]
fn grammars_exist_for_parsed_languages() {
    for l in ["rust", "javascript", "jsx", "typescript", "tsx", "python", "go", "java", "c", "c-header", "cpp", "cpp-header"] {
        assert!(ts_language_for(l).is_some(), "{l}");
    }
    assert!(ts_language_for("kotlin").is_none());
}

fn node(kind: &str, start_byte: usize, end_byte: usize, name_span: Option<(usize, usize)>) -> SyntaxNode {
    SyntaxNode {
        kind: kind.to_string(),
        start_byte,
        end_byte,
        start_row: 0,
        end_row: 0,
        name_span,
    }
}

#[test]
fn walk_keeps_wanted_nodes_in_order() {
    let nodes = vec![
        node("source_file", 0, 9, None),
        node("function_item", 0, 9, Some((3, 4))),
        node("identifier", 3, 4, None),
        node("struct_item", 0, 9, None),
    ];
    assert_eq!(walk_nodes(&nodes, &vec!["function_item", "struct_item"]), vec![1, 3]);
    assert!(walk_nodes(&nodes, &vec!["enum_item"]).is_empty());
}

#[test]
fn ast_records_from_given_nodes() {
    let nodes = vec![node("source_file", 0, 9, None), node("function_item", 0, 9, Some((3, 4)))];
    let (chunks, symbols) = ast_records("a.rs", "rust", "fn a() {}", &nodes).unwrap();
    assert_eq!(chunks.len(), 1);
    assert_eq!(chunks[0].kind, "ast:function_item");
    assert_eq!(chunks[0].text, "fn a() {}");
    assert_eq!(chunks[0].start_line, 1);
    assert_eq!(chunks[0].end_line, 1);
    assert_eq!(
        chunks[0].chunk_id,
        "chunk_720b448f177bea50bd2d7a87ca5dd8cd3a9c07cf4c6094d8fe3c67905b126f13"
    );
    assert_eq!(
        chunks[0].text_hash,
        "fe05b5eef8cd0aed7d77c57cc9424b7f6434143972fca7ca02df69ebf3122c38"
    );
    assert_eq!(symbols.len(), 1);
    assert_eq!(symbols[0].name, "a");
    assert_eq!(symbols[0].kind, "function");
    assert_eq!(symbols[0].signature.as_deref(), Some("fn a() {}"));
    assert_eq!(
        symbols[0].symbol_id,
        "sym_66d8667ecfde457476d388972b08b0595e94ed699e4dd588ff6c26bbbcc169a9"
    );
    assert!(ast_records("a.rs", "rust", "fn a() {}", &vec![node("source_file", 0, 9, None)]).is_none());
}

#[test]
fn chunks_carry_the_digest_of_their_text() {
    let src = "struct A;\nfn b() {\n    1\n}\n";
    for lang in ["rust", "kotlin"] {
        let (chunks, _symbols, _ast) = extract_chunks_and_symbols("h.rs", lang, src);
        assert!(!chunks.is_empty());
        for c in &chunks {
            assert_eq!(c.text_hash, hash_str(&c.text));
        }
    }
}

#[test]
fn line_symbols_point_at_their_lines() {
    let content = "x = 1\n  def a(q):\n\n\tdef b():\nclass C:";
    let lines: Vec<&str> = content.lines().collect();
    let symbols = extract_symbols("s.py", "python", content);
    assert_eq!(symbols.len(), 2);
    for s in &symbols {
        assert!(1 <= s.start_line && s.start_line == s.end_line && s.start_line as usize <= lines.len());
        assert!(!s.name.is_empty());
        assert_eq!(s.signature.as_deref(), Some(lines[s.start_line as usize - 1].trim()));
    }
    assert_eq!(symbols[1].name, "b");
    assert_eq!(symbols[1].start_line, 4);
}

#[test]
fn each_grammar_parses_its_language() {
    let cases = [
        ("p.py", "python", "def fetch(url):\n    return url\n", "fetch"),
        ("j.js", "javascript", "function render(a) { return a; }\n", "render"),
        ("x.jsx", "jsx", "function View() { return 1; }\n", "View"),
        ("t.ts", "typescript", "function total(a: number): number { return a; }\n", "total"),
        ("t.tsx", "tsx", "function Panel(): number { return 2; }\n", "Panel"),
        ("g.go", "go", "package p\n\nfunc Serve() {}\n", "Serve"),
        ("A.java", "java", "class Account { void close() {} }\n", "close"),
        ("m.c", "c", "int main(void) { return 0; }\n", "main"),
        ("h.h", "c-header", "struct point { int x; };\n", "point"),
        ("k.hpp", "cpp-header", "namespace geo { int area(int w) { return w; } }\n", "geo"),
    ];
    for (key, lang, src, name) in cases {
        let (chunks, symbols, ast_used) = extract_chunks_and_symbols(key, lang, src);
        assert!(ast_used, "{lang}");
        assert!(chunks.iter().all(|c| c.kind.starts_with("ast:")), "{lang}");
        assert!(symbols.iter().any(|s| s.name == name), "{lang}: {:?}", symbols.iter().map(|s| &s.name).collect::<Vec<_>>());
    }
}

#[test]
fn symbols_move_down_under_a_leading_comment_line() {
    let content = "fn a() {}\nstruct S;\n  fn b(x: u8) {\n}";
    for lang in ["rust", "python", "cpp", "java"] {
        let before = extract_symbols("f", lang, content);
        let after = extract_symbols("f", lang, &format!("//\n{content}"));
        assert_eq!(before.len(), after.len());
        for (x, y) in before.iter().zip(after.iter()) {
            assert_eq!((&x.name, &x.kind, &x.signature), (&y.name, &y.kind, &y.signature));
            assert_eq!(y.start_line, x.start_line + 1);
            assert_eq!(y.end_line, x.end_line + 1);
        }
    }
}

#[test]
fn ast_records_have_their_shape() {
    let src = "mod m {\n    fn inner() {}\n}\nimpl T for U {}\n";
    let (chunks, symbols, ast_used) = extract_chunks_and_symbols("s.rs", "rust", src);
    assert!(ast_used);
    assert!(!chunks.is_empty());
    let kinds = chunk_kinds_for("rust");
    for c in &chunks {
        assert!(kinds.iter().any(|k| c.kind == format!("ast:{k}")));
        assert!(1 <= c.start_line && c.start_line <= c.end_line);
        assert!(!c.text.is_empty());
    }
    for s in &symbols {
        assert!(!s.name.is_empty());
        assert_eq!(s.name, s.qualified_name);
        assert!(kinds.iter().any(|k| map_symbol_kind(k) == Some(s.kind.as_str())));
        assert!(1 <= s.start_line && s.start_line <= s.end_line);
    }
}

#[test]
fn stack_walk_meets_last_child_first() {
    let tree = vec![
        TreeNode::new("root", 0..9, 0, 2, None, 1..3),
        TreeNode::new("a", 0..4, 0, 0, Some((1, 2)), 3..5),
        TreeNode::new("b", 5..9, 1, 2, None, 5..5),
        TreeNode::new("a1", 0..1, 0, 0, None, 0..0),
        TreeNode::new("a2", 2..4, 0, 0, None, 0..0),
    ];
    assert_eq!(tree[0].children, vec![1, 2]);
    assert_eq!(tree[1].node.name_span, Some((1, 2)));
    assert_eq!(walk_order(&tree), vec![0, 2, 1, 4, 3]);
    assert!(walk_order(&vec![]).is_empty());
}
