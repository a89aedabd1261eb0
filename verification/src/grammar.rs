//! Tree-sitter at the library's edge: the grammars, each paired with the tree-sitter
//! language that implements it, and the nodes of a parsed syntax tree as plain values.
use vstd::prelude::*;
use vstd::utf8::encode_utf8;
use std::ops::Range;
use tree_sitter::Parser;

verus! {

/// The tree-sitter grammars the parser knows.
#[derive(Clone, Copy, PartialEq, Eq, Structural)]
pub enum Grammar {
    Rust,
    JavaScript,
    TypeScript,
    Tsx,
    Python,
    Go,
    Java,
    C,
    Cpp,
}

#[verifier::external_type_specification]
#[verifier::external_body]
pub struct ExLanguage(tree_sitter::Language);

/// A grammar together with the tree-sitter language that implements it; only the grammar
/// constructors below build one, each pairing one tag with its language.
pub struct TsGrammar {
    grammar: Grammar,
    language: tree_sitter::Language,
}

impl TsGrammar {
    /// Which grammar this is.
    pub closed spec fn grammar(&self) -> Grammar {
        self.grammar
    }
}

/// The `Rust` grammar paired with `tree_sitter_rust::LANGUAGE`, the tree-sitter language that implements it.
#[verifier::external_body]
pub(crate) fn rust_grammar() -> (r: TsGrammar)
    ensures
        r.grammar() == Grammar::Rust,
{
    TsGrammar { grammar: Grammar::Rust, language: tree_sitter_rust::LANGUAGE.into() }
}

/// The `JavaScript` grammar paired with `tree_sitter_javascript::LANGUAGE`, the tree-sitter language that implements it.
#[verifier::external_body]
pub(crate) fn javascript_grammar() -> (r: TsGrammar)
    ensures
        r.grammar() == Grammar::JavaScript,
{
    TsGrammar { grammar: Grammar::JavaScript, language: tree_sitter_javascript::LANGUAGE.into() }
}

/// The `TypeScript` grammar paired with `tree_sitter_typescript::LANGUAGE_TYPESCRIPT`, the tree-sitter language that implements it.
#[verifier::external_body]
pub(crate) fn typescript_grammar() -> (r: TsGrammar)
    ensures
        r.grammar() == Grammar::TypeScript,
{
    TsGrammar { grammar: Grammar::TypeScript, language: tree_sitter_typescript::LANGUAGE_TYPESCRIPT.into() }
}

/// The `Tsx` grammar paired with `tree_sitter_typescript::LANGUAGE_TSX`, the tree-sitter language that implements it.
#[verifier::external_body]
pub(crate) fn tsx_grammar() -> (r: TsGrammar)
    ensures
        r.grammar() == Grammar::Tsx,
{
    TsGrammar { grammar: Grammar::Tsx, language: tree_sitter_typescript::LANGUAGE_TSX.into() }
}

/// The `Python` grammar paired with `tree_sitter_python::LANGUAGE`, the tree-sitter language that implements it.
#[verifier::external_body]
pub(crate) fn python_grammar() -> (r: TsGrammar)
    ensures
        r.grammar() == Grammar::Python,
{
    TsGrammar { grammar: Grammar::Python, language: tree_sitter_python::LANGUAGE.into() }
}

/// The `Go` grammar paired with `tree_sitter_go::LANGUAGE`, the tree-sitter language that implements it.
#[verifier::external_body]
pub(crate) fn go_grammar() -> (r: TsGrammar)
    ensures
        r.grammar() == Grammar::Go,
{
    TsGrammar { grammar: Grammar::Go, language: tree_sitter_go::LANGUAGE.into() }
}

/// The `Java` grammar paired with `tree_sitter_java::LANGUAGE`, the tree-sitter language that implements it.
#[verifier::external_body]
pub(crate) fn java_grammar() -> (r: TsGrammar)
    ensures
        r.grammar() == Grammar::Java,
{
    TsGrammar { grammar: Grammar::Java, language: tree_sitter_java::LANGUAGE.into() }
}

/// The `C` grammar paired with `tree_sitter_c::LANGUAGE`, the tree-sitter language that implements it.
#[verifier::external_body]
pub(crate) fn c_grammar() -> (r: TsGrammar)
    ensures
        r.grammar() == Grammar::C,
{
    TsGrammar { grammar: Grammar::C, language: tree_sitter_c::LANGUAGE.into() }
}

/// The `Cpp` grammar paired with `tree_sitter_cpp::LANGUAGE`, the tree-sitter language that implements it.
#[verifier::external_body]
pub(crate) fn cpp_grammar() -> (r: TsGrammar)
    ensures
        r.grammar() == Grammar::Cpp,
{
    TsGrammar { grammar: Grammar::Cpp, language: tree_sitter_cpp::LANGUAGE.into() }
}

/// A node of a syntax tree, as plain values: its kind, its byte range, the rows it starts
/// and ends on (counted from zero), and the byte range of its `name` child, if any.
pub struct SyntaxNode {
    pub kind: String,
    pub start_byte: usize,
    pub end_byte: usize,
    pub start_row: usize,
    pub end_row: usize,
    pub name_span: Option<(usize, usize)>,
}

/// The contents of a [`SyntaxNode`].
pub struct SyntaxNodeView {
    pub kind: Seq<char>,
    pub start_byte: usize,
    pub end_byte: usize,
    pub start_row: usize,
    pub end_row: usize,
    pub name_span: Option<(usize, usize)>,
}

impl View for SyntaxNode {
    type V = SyntaxNodeView;

    open spec fn view(&self) -> SyntaxNodeView {
        SyntaxNodeView {
            kind: self.kind@,
            start_byte: self.start_byte,
            end_byte: self.end_byte,
            start_row: self.start_row,
            end_row: self.end_row,
            name_span: self.name_span,
        }
    }
}

/// The contents of a sequence of nodes.
pub open spec fn node_views(v: Seq<SyntaxNode>) -> Seq<SyntaxNodeView> {
    v.map_values(|n: SyntaxNode| n@)
}

/// Every node, and its name, lies within the first `len` bytes, no row exceeds `len`, and
/// no node ends on a row before the one it starts on.
pub open spec fn nodes_in_range(nodes: Seq<SyntaxNodeView>, len: nat) -> bool {
    forall|i: int|
        0 <= i < nodes.len() ==> {
            let n = #[trigger] nodes[i];
            &&& n.start_byte <= n.end_byte <= len
            &&& n.start_row <= len
            &&& n.end_row <= len
            &&& n.start_row <= n.end_row
            &&& (n.name_span matches Some(sp) ==> sp.0 <= sp.1 <= len)
        }
}

/// A node of a syntax tree with the positions, in the same list, of its children in order.
pub struct TreeNode {
    pub node: SyntaxNode,
    pub children: Vec<usize>,
}

/// The contents of a [`TreeNode`].
pub struct TreeNodeView {
    pub node: SyntaxNodeView,
    pub children: Seq<usize>,
}

impl TreeNode {
    /// The node of kind `kind` over bytes `bytes` and rows `start_row..=end_row`, with the
    /// byte range `name_span` of its `name` child, whose children sit at `children`.
    pub fn new(
        kind: &str,
        bytes: Range<usize>,
        start_row: usize,
        end_row: usize,
        name_span: Option<(usize, usize)>,
        children: Range<usize>,
    ) -> (r: TreeNode)
        ensures
            r.node@ == (SyntaxNodeView {
                kind: kind@,
                start_byte: bytes.start,
                end_byte: bytes.end,
                start_row,
                end_row,
                name_span,
            }),
            r.children@.len() == if children.start <= children.end {
                children.end - children.start
            } else {
                0
            },
            forall|k: int| 0 <= k < r.children@.len() ==> #[trigger] r.children@[k] == children.start + k,
    {
        let mut ids: Vec<usize> = Vec::new();
        let mut i = children.start;
        while i < children.end
            invariant
                children.start <= i,
                i <= children.end || i == children.start,
                ids@.len() == i - children.start,
                forall|k: int| 0 <= k < ids@.len() ==> #[trigger] ids@[k] == children.start + k,
            decreases children.end - i,
        {
            ids.push(i);
            i += 1;
        }
        TreeNode {
            node: SyntaxNode {
                kind: kind.to_owned(),
                start_byte: bytes.start,
                end_byte: bytes.end,
                start_row,
                end_row,
                name_span,
            },
            children: ids,
        }
    }
}

impl View for TreeNode {
    type V = TreeNodeView;

    open spec fn view(&self) -> TreeNodeView {
        TreeNodeView { node: self.node@, children: self.children@ }
    }
}

/// The contents of a list of tree nodes.
pub open spec fn tree_views(v: Seq<TreeNode>) -> Seq<TreeNodeView> {
    v.map_values(|n: TreeNode| n@)
}

/// Whether `t` lists a tree over text of `len` bytes: every node lies within the text (as
/// [`nodes_in_range`] says), and every child comes after its parent in the list.
pub open spec fn tree_well_formed(t: Seq<TreeNodeView>, len: nat) -> bool {
    &&& nodes_in_range(t.map_values(|n: TreeNodeView| n.node), len)
    &&& forall|i: int, k: int|
        0 <= i < t.len() && 0 <= k < t[i].children.len() ==> i < #[trigger] t[i].children[k] < t.len()
}

/// The syntax tree that tree-sitter builds for `content` with `grammar`: its nodes listed
/// breadth-first from the root (position 0), each with the positions of its children in
/// order.
pub uninterp spec fn spec_syntax_tree(grammar: Grammar, content: Seq<char>) -> Option<Seq<TreeNodeView>>;

/// Parses `content` with tree-sitter (`Parser::new`, `Parser::set_language`,
/// `Parser::parse`) and lists the nodes of the tree (`Tree::root_node`, `Node::children`,
/// `Node::kind`, byte ranges, positions, `Node::child_by_field_name("name")`) breadth-first,
/// each with the positions of its children. `None` when the language cannot be set or no
/// tree comes back. Every node lies within `content`, no row number exceeds its length in
/// bytes, each node starts at or before the point where it ends, and children are listed
/// after their parent.
#[verifier::external_body]
pub(crate) fn syntax_tree(grammar: &TsGrammar, content: &str) -> (r: Option<Vec<TreeNode>>)
    ensures
        r matches Some(v) ==> spec_syntax_tree(grammar.grammar(), content@) == Some(tree_views(v@))
            && tree_well_formed(tree_views(v@), encode_utf8(content@).len()),
        r is None ==> spec_syntax_tree(grammar.grammar(), content@) is None,
{
    let mut parser = Parser::new();
    parser.set_language(&grammar.language).ok()?;
    let tree = parser.parse(content, None)?;
    let (mut raw, mut out) = (vec![tree.root_node()], Vec::new());
    while let Some(&n) = raw.get(out.len()) {
        let first = raw.len();
        raw.extend(n.children(&mut n.walk()));
        let name = n.child_by_field_name("name").map(|m| (m.start_byte(), m.end_byte()));
        out.push(TreeNode::new(n.kind(), n.byte_range(), n.start_position().row, n.end_position().row, name, first..raw.len()));
    }
    Some(out)
}

} // verus!
