//! Splitting source files into chunks and extracting the symbols they declare,
//! from a tree-sitter syntax tree where a grammar is available and from line
//! patterns otherwise.
use vstd::prelude::*;
use vstd::utf8::decode_utf8;
use vstd::utf8::encode_utf8;
use vstd::utf8::is_char_boundary;
use crate::digest::hash_str;
use crate::digest::spec_hash_hex;
use crate::digest::spec_stable_id;
use crate::digest::stable_id;
use crate::text::before_char;
use crate::text::chars_of;
use crate::text::contains_chars;
use crate::text::contains_seq;
use crate::text::decimal;
use crate::text::ends_with_char;
use crate::text::filter_some;
use crate::text::find_char;
use crate::text::is_lit;
use crate::text::last_segment;
use crate::text::last_segment_at;
use crate::text::lines;
use crate::text::lines_of;
use crate::text::push_all;
use crate::text::push_decimal;
use crate::text::slice_chars;
use crate::text::starts_with;
use crate::text::starts_with_at;
use crate::text::string_of;
use crate::text::trim;
use crate::text::trim_bounds;
use crate::text::trim_by;
use crate::text::trim_chars;
use crate::text::trim_start_matches;
use crate::text::trim_start_matches_at;
use crate::text::views;
use crate::text::words;
use crate::text::words_of;
use crate::text::CharClass;
use crate::grammar::c_grammar;
use crate::grammar::cpp_grammar;
use crate::grammar::go_grammar;
use crate::grammar::java_grammar;
use crate::grammar::javascript_grammar;
use crate::grammar::node_views;
use crate::grammar::nodes_in_range;
use crate::grammar::python_grammar;
use crate::grammar::rust_grammar;
use crate::grammar::spec_syntax_tree;
use crate::grammar::syntax_tree;
use crate::grammar::tree_views;
use crate::grammar::tree_well_formed;
use crate::grammar::TreeNode;
use crate::grammar::TreeNodeView;
use crate::grammar::tsx_grammar;
use crate::grammar::typescript_grammar;
use crate::grammar::Grammar;
use crate::grammar::SyntaxNode;
use crate::grammar::SyntaxNodeView;
use crate::grammar::TsGrammar;

verus! {

/// A piece of a file that is indexed on its own.
#[derive(Debug, Clone)]
pub struct ChunkRecord {
    pub chunk_id: String,
    pub kind: String,
    pub start_line: i64,
    pub end_line: i64,
    pub text: String,
    pub text_hash: String,
}

/// A declaration found in a file.
#[derive(Debug, Clone)]
pub struct SymbolRecord {
    pub symbol_id: String,
    pub name: String,
    pub qualified_name: String,
    pub kind: String,
    pub signature: Option<String>,
    pub container_symbol_id: Option<String>,
    pub start_line: i64,
    pub end_line: i64,
    pub visibility: Option<String>,
    pub lsp_backed: bool,
}

/// The contents of a [`ChunkRecord`].
pub struct ChunkView {
    pub chunk_id: Seq<char>,
    pub kind: Seq<char>,
    pub start_line: int,
    pub end_line: int,
    pub text: Seq<char>,
    pub text_hash: Seq<char>,
}

/// The contents of a [`SymbolRecord`].
pub struct SymbolView {
    pub symbol_id: Seq<char>,
    pub name: Seq<char>,
    pub qualified_name: Seq<char>,
    pub kind: Seq<char>,
    pub signature: Option<Seq<char>>,
    pub container_symbol_id: Option<Seq<char>>,
    pub start_line: int,
    pub end_line: int,
    pub visibility: Option<Seq<char>>,
    pub lsp_backed: bool,
}

/// The characters of an optional string.
pub open spec fn opt_view(o: Option<String>) -> Option<Seq<char>> {
    match o {
        Some(s) => Some(s@),
        None => None,
    }
}

impl View for ChunkRecord {
    type V = ChunkView;

    open spec fn view(&self) -> ChunkView {
        ChunkView {
            chunk_id: self.chunk_id@,
            kind: self.kind@,
            start_line: self.start_line as int,
            end_line: self.end_line as int,
            text: self.text@,
            text_hash: self.text_hash@,
        }
    }
}

impl View for SymbolRecord {
    type V = SymbolView;

    open spec fn view(&self) -> SymbolView {
        SymbolView {
            symbol_id: self.symbol_id@,
            name: self.name@,
            qualified_name: self.qualified_name@,
            kind: self.kind@,
            signature: opt_view(self.signature),
            container_symbol_id: opt_view(self.container_symbol_id),
            start_line: self.start_line as int,
            end_line: self.end_line as int,
            visibility: opt_view(self.visibility),
            lsp_backed: self.lsp_backed,
        }
    }
}

/// The contents of a sequence of chunks.
pub open spec fn chunk_views(v: Seq<ChunkRecord>) -> Seq<ChunkView> {
    v.map_values(|c: ChunkRecord| c@)
}

/// The contents of a sequence of symbols.
pub open spec fn symbol_views(v: Seq<SymbolRecord>) -> Seq<SymbolView> {
    v.map_values(|s: SymbolRecord| s@)
}

/// Lines joined with `\n`, as `[&str]::join("\n")` joins them.
pub open spec fn join_lines(ls: Seq<Seq<char>>) -> Seq<char>
    decreases ls.len(),
{
    if ls.len() == 0 {
        seq![]
    } else if ls.len() == 1 {
        ls[0]
    } else {
        join_lines(ls.drop_last()) + seq!['\n'] + ls.last()
    }
}

/// `file_key:start:end`.
pub open spec fn window_seed(file_key: Seq<char>, start: nat, end: nat) -> Seq<char> {
    file_key + seq![':'] + decimal(start) + seq![':'] + decimal(end)
}

/// The chunk holding lines `start..end` (counted from zero) of `ls`.
pub open spec fn window_chunk(file_key: Seq<char>, ls: Seq<Seq<char>>, start: int, end: int) -> ChunkView {
    let text = join_lines(ls.subrange(start, end));
    ChunkView {
        chunk_id: spec_stable_id("chunk"@, window_seed(file_key, start as nat, end as nat)),
        kind: "line_window"@,
        start_line: start + 1,
        end_line: end,
        text: text,
        text_hash: spec_hash_hex(text),
    }
}

/// How far each window starts after the one before it.
pub open spec fn window_step(size: int, overlap: int) -> int {
    if size > overlap {
        size - overlap
    } else {
        1
    }
}

/// Where the window starting at `start` ends: `size` lines later, or at the last line.
pub open spec fn window_end(n: int, size: int, start: int) -> int {
    if start + size < n {
        start + size
    } else {
        n
    }
}

/// The windows from `start` on, each `step` after the last, until one reaches the end.
pub open spec fn line_windows(
    file_key: Seq<char>,
    ls: Seq<Seq<char>>,
    size: int,
    step: int,
    start: int,
) -> Seq<ChunkView>
    decreases (if start < ls.len() {
        ls.len() - start
    } else {
        0
    }),
{
    if start < 0 || start >= ls.len() || step < 1 {
        seq![]
    } else {
        let end = window_end(ls.len() as int, size, start);
        seq![window_chunk(file_key, ls, start, end)] + if end == ls.len() {
            seq![]
        } else {
            line_windows(file_key, ls, size, step, start + step)
        }
    }
}

/// The line-window chunks of `content`.
pub open spec fn spec_chunk_by_lines(
    file_key: Seq<char>,
    content: Seq<char>,
    chunk_size: nat,
    overlap: nat,
) -> Seq<ChunkView> {
    line_windows(
        file_key,
        lines(content),
        chunk_size as int,
        window_step(chunk_size as int, overlap as int),
        0,
    )
}

/// Whether window `c` holds line `j` (counted from zero).
pub open spec fn window_holds(c: ChunkView, j: int) -> bool {
    c.start_line <= j + 1 <= c.end_line
}

/// Whether one of `chunks` holds line `j` (counted from zero).
pub open spec fn line_covered(chunks: Seq<ChunkView>, j: int) -> bool {
    exists|k: int| 0 <= k < chunks.len() && window_holds(#[trigger] chunks[k], j)
}

proof fn lemma_windows_bounded(
    file_key: Seq<char>,
    ls: Seq<Seq<char>>,
    size: int,
    step: int,
    start: int,
)
    requires
        size >= 1,
        0 <= start,
    ensures
        forall|k: int|
            0 <= k < line_windows(file_key, ls, size, step, start).len() ==> {
                let c = #[trigger] line_windows(file_key, ls, size, step, start)[k];
                start + 1 <= c.start_line <= c.end_line <= ls.len()
            },
    decreases (if start < ls.len() {
        ls.len() - start
    } else {
        0
    }),
{
    let w = line_windows(file_key, ls, size, step, start);
    if !(start < 0 || start >= ls.len() || step < 1) {
        let end = window_end(ls.len() as int, size, start);
        if end != ls.len() {
            lemma_windows_bounded(file_key, ls, size, step, start + step);
            let t = line_windows(file_key, ls, size, step, start + step);
            assert forall|k: int| 0 <= k < w.len() implies {
                let c = #[trigger] w[k];
                start + 1 <= c.start_line <= c.end_line <= ls.len()
            } by {
                if k > 0 {
                    assert(w[k] == t[k - 1]);
                }
            }
        }
    }
}

proof fn lemma_windows_cover(
    file_key: Seq<char>,
    ls: Seq<Seq<char>>,
    size: int,
    step: int,
    start: int,
    j: int,
)
    requires
        1 <= step <= size,
        0 <= start <= j < ls.len(),
    ensures
        line_covered(line_windows(file_key, ls, size, step, start), j),
    decreases ls.len() - start,
{
    let w = line_windows(file_key, ls, size, step, start);
    let end = window_end(ls.len() as int, size, start);
    if j < end {
        assert(window_holds(w[0], j));
    } else {
        lemma_windows_cover(file_key, ls, size, step, start + step, j);
        let t = line_windows(file_key, ls, size, step, start + step);
        let k = choose|k: int| 0 <= k < t.len() && window_holds(#[trigger] t[k], j);
        assert(w[k + 1] == t[k]);
        assert(window_holds(w[k + 1], j));
    }
}

/// Line chunking loses no line: with windows of at least one line, every line of the
/// content lies in some chunk, and every chunk spans one or more lines of the content.
pub proof fn lemma_line_chunks_cover(
    file_key: Seq<char>,
    content: Seq<char>,
    chunk_size: nat,
    overlap: nat,
)
    requires
        chunk_size >= 1,
    ensures
        forall|j: int|
            0 <= j < lines(content).len() ==> #[trigger] line_covered(
                spec_chunk_by_lines(file_key, content, chunk_size, overlap),
                j,
            ),
        forall|k: int|
            0 <= k < spec_chunk_by_lines(file_key, content, chunk_size, overlap).len() ==> {
                let c = #[trigger] spec_chunk_by_lines(file_key, content, chunk_size, overlap)[k];
                1 <= c.start_line <= c.end_line <= lines(content).len()
            },
{
    let ls = lines(content);
    let step = window_step(chunk_size as int, overlap as int);
    lemma_windows_bounded(file_key, ls, chunk_size as int, step, 0);
    assert forall|j: int| 0 <= j < ls.len() implies #[trigger] line_covered(
        spec_chunk_by_lines(file_key, content, chunk_size, overlap),
        j,
    ) by {
        lemma_windows_cover(file_key, ls, chunk_size as int, step, 0, j);
    }
}

/// Lines `lo..hi` of `ls`, joined with `\n`.
pub(crate) fn join_range(ls: &Vec<Vec<char>>, lo: usize, hi: usize) -> (r: Vec<char>)
    requires
        lo <= hi <= ls@.len(),
    ensures
        r@ == join_lines(views(ls@).subrange(lo as int, hi as int)),
{
    let mut out: Vec<char> = Vec::new();
    let mut i = lo;
    while i < hi
        invariant
            lo <= i <= hi <= ls@.len(),
            out@ == join_lines(views(ls@).subrange(lo as int, i as int)),
        decreases hi - i,
    {
        let ghost prev = views(ls@).subrange(lo as int, i as int);
        let ghost next = views(ls@).subrange(lo as int, i + 1);
        assert(next.drop_last() =~= prev);
        assert(next.last() == ls@[i as int]@);
        if i > lo {
            out.push('\n');
        }
        push_all(&mut out, ls[i].as_slice());
        i += 1;
    }
    out
}

/// `content` cut into windows of `chunk_size` lines, each starting `chunk_size - overlap`
/// lines (at least one) after the one before it, the last ending at the last line.
pub fn chunk_by_lines(file_key: &str, content: &str, chunk_size: usize, overlap: usize) -> (r: Vec<
    ChunkRecord,
>)
    requires
        content@.len() < i64::MAX,
    ensures
        chunk_views(r@) == spec_chunk_by_lines(
            file_key@,
            content@,
            chunk_size as nat,
            overlap as nat,
        ),
{
    let cv = chars_of(content);
    let ls = lines_of(cv.as_slice());
    proof {
        crate::text::lemma_lines_len(content@);
    }
    let ghost gl = views(ls@);
    let n = ls.len();
    let mut out: Vec<ChunkRecord> = Vec::new();
    let step = if chunk_size > overlap {
        chunk_size - overlap
    } else {
        1
    };
    let fkc = chars_of(file_key);
    let mut start: usize = 0;
    while start < n
        invariant
            start <= n == gl.len() < i64::MAX,
            gl == views(ls@),
            gl == lines(content@),
            fkc@ == file_key@,
            step == window_step(chunk_size as int, overlap as int),
            chunk_views(out@) + line_windows(file_key@, gl, chunk_size as int, step as int, start as int)
                == line_windows(file_key@, gl, chunk_size as int, step as int, 0),
        decreases n - start,
    {
        let end = if chunk_size < n - start {
            start + chunk_size
        } else {
            n
        };
        let text = join_range(&ls, start, end);
        let mut seed = slice_chars(fkc.as_slice(), 0, fkc.len());
        seed.push(':');
        push_decimal(&mut seed, start as u64);
        seed.push(':');
        push_decimal(&mut seed, end as u64);
        let seed_s = string_of(seed.as_slice());
        let text_s = string_of(text.as_slice());
        let rec = ChunkRecord {
            chunk_id: stable_id("chunk", seed_s.as_str()),
            kind: "line_window".to_owned(),
            start_line: (start + 1) as i64,
            end_line: end as i64,
            text_hash: hash_str(text_s.as_str()),
            text: text_s,
        };
        let ghost prev = out@;
        proof {
            assert(fkc@.subrange(0, fkc@.len() as int) =~= fkc@);
            assert(seed@ =~= window_seed(file_key@, start as nat, end as nat));
            assert(rec@ == window_chunk(file_key@, gl, start as int, end as int));
        }
        out.push(rec);
        assert(chunk_views(out@) =~= chunk_views(prev).push(rec@));
        if end == n {
            assert(chunk_views(out@) + line_windows(file_key@, gl, chunk_size as int, step as int, n as int)
                =~= chunk_views(prev) + line_windows(file_key@, gl, chunk_size as int, step as int, start as int));
            start = n;
        } else {
            assert(chunk_views(out@) + line_windows(file_key@, gl, chunk_size as int, step as int, start + step)
                =~= chunk_views(prev) + line_windows(file_key@, gl, chunk_size as int, step as int, start as int));
            start = start + step;
        }
    }
    out
}

/// `clean_name`: `raw` stripped at both ends of characters that cannot be part of an
/// identifier, cut to its last `::`-separated piece, and trimmed of whitespace.
pub open spec fn spec_clean_name(raw: Seq<char>) -> Seq<char> {
    trim(last_segment(trim_by(raw, CharClass::NotNameChar)))
}

/// The name a signature declares: the last word before its first `(`, cleaned; `None`
/// when there is no word or the cleaned name is empty.
pub open spec fn spec_name_from_signature(signature: Seq<char>) -> Option<Seq<char>> {
    let ws = words(trim(before_char(signature, '(')));
    if ws.len() == 0 {
        None
    } else {
        let name = spec_clean_name(ws.last());
        if name.len() == 0 {
            None
        } else {
            Some(name)
        }
    }
}

fn clean_name_chars(raw: &[char]) -> (r: Vec<char>)
    ensures
        r@ == spec_clean_name(raw@),
{
    assert(raw@.subrange(0, raw@.len() as int) =~= raw@);
    let (a, b) = trim_bounds(raw, 0, raw.len(), CharClass::NotNameChar);
    let (c, _) = last_segment_at(raw, a, b);
    trim_chars(raw, c, b)
}

/// `raw` reduced to a bare identifier: outer non-identifier characters removed, only the
/// part after the last `::` kept, surrounding whitespace removed.
pub fn clean_name(raw: &str) -> (r: String)
    ensures
        r@ == spec_clean_name(raw@),
{
    let v = chars_of(raw);
    let c = clean_name_chars(v.as_slice());
    string_of(c.as_slice())
}

fn name_from_signature_chars(sig: &[char]) -> (r: Option<Vec<char>>)
    ensures
        r matches Some(v) ==> spec_name_from_signature(sig@) == Some(v@),
        r is None ==> spec_name_from_signature(sig@) is None,
{
    assert(sig@.subrange(0, sig@.len() as int) =~= sig@);
    let p = find_char(sig, 0, sig.len(), '(');
    assert(before_char(sig@, '(') =~= sig@.subrange(0, p as int));
    let (a, b) = trim_bounds(sig, 0, p, CharClass::Whitespace);
    let ws = words_of(sig, a, b);
    if ws.len() == 0 {
        return None;
    }
    assert(views(ws@).last() == ws@[ws@.len() - 1]@);
    let name = clean_name_chars(ws[ws.len() - 1].as_slice());
    if name.len() == 0 {
        None
    } else {
        Some(name)
    }
}

/// The name declared by `signature`: the cleaned last word before its first `(`.
pub fn name_from_signature(signature: &str) -> (r: Option<String>)
    ensures
        r matches Some(s) ==> spec_name_from_signature(signature@) == Some(s@),
        r is None ==> spec_name_from_signature(signature@) is None,
{
    let v = chars_of(signature);
    match name_from_signature_chars(v.as_slice()) {
        Some(n) => Some(string_of(n.as_slice())),
        None => None,
    }
}

/// The languages whose line patterns follow JavaScript.
pub open spec fn is_js_like(language: Seq<char>) -> bool {
    language == "typescript"@ || language == "tsx"@ || language == "javascript"@ || language
        == "jsx"@
}

/// The C++ languages.
pub open spec fn is_cpp_like(language: Seq<char>) -> bool {
    language == "cpp"@ || language == "cpp-header"@
}

/// The C and C++ languages.
pub open spec fn is_c_like(language: Seq<char>) -> bool {
    language == "c"@ || language == "c-header"@ || is_cpp_like(language)
}

/// The name after a declaring keyword: `t` without leading copies of `keyword`, cut at its
/// first `(`, trimmed.
pub open spec fn keyword_name(t: Seq<char>, keyword: Seq<char>) -> Seq<char> {
    trim(before_char(trim_start_matches(t, keyword), '('))
}

/// The first word of `s`, or the empty string.
pub open spec fn first_word(s: Seq<char>) -> Seq<char> {
    if words(s).len() > 0 {
        words(s)[0]
    } else {
        seq![]
    }
}

/// The word after the first word `class` that has a successor.
pub open spec fn word_after_class(ws: Seq<Seq<char>>) -> Option<Seq<char>>
    decreases ws.len(),
{
    if ws.len() < 2 {
        None
    } else if ws[0] == "class"@ {
        Some(ws[1])
    } else {
        word_after_class(ws.drop_first())
    }
}

/// The kind and name that a trimmed line declares in `language`, by its leading keyword.
pub open spec fn line_candidate(language: Seq<char>, t: Seq<char>) -> Option<(Seq<char>, Seq<char>)> {
    if language == "rust"@ && starts_with(t, "fn "@) {
        Some(("function"@, keyword_name(t, "fn "@)))
    } else if is_js_like(language) && starts_with(t, "function "@) {
        Some(("function"@, keyword_name(t, "function "@)))
    } else if language == "python"@ && starts_with(t, "def "@) {
        Some(("function"@, keyword_name(t, "def "@)))
    } else if language == "go"@ && starts_with(t, "func "@) {
        Some(("function"@, keyword_name(t, "func "@)))
    } else if is_js_like(language) && starts_with(t, "class "@) {
        Some(("class"@, trim(first_word(trim_start_matches(t, "class "@)))))
    } else if language == "java"@ && contains_seq(t, " class "@) {
        match word_after_class(words(t)) {
            Some(n) => Some(("class"@, n)),
            None => None,
        }
    } else if is_cpp_like(language) && contains_seq(t, "class "@) {
        match word_after_class(words(t)) {
            Some(n) => Some(("class"@, n)),
            None => None,
        }
    } else if is_c_like(language) && t.contains('(') && t.len() > 0 && t.last() == '{' {
        match spec_name_from_signature(t) {
            Some(n) => Some(("function"@, n)),
            None => None,
        }
    } else {
        None
    }
}

/// `file_key:kind:name:line`.
pub open spec fn symbol_seed(file_key: Seq<char>, kind: Seq<char>, name: Seq<char>, line: nat) -> Seq<char> {
    file_key + seq![':'] + kind + seq![':'] + name + seq![':'] + decimal(line)
}

/// The symbol that line `idx` (counted from zero) declares, if any.
pub open spec fn line_symbol(file_key: Seq<char>, language: Seq<char>, line: Seq<char>, idx: int) -> Option<SymbolView> {
    let t = trim(line);
    match line_candidate(language, t) {
        Some((kind, name)) => if name.len() == 0 {
            None
        } else {
            Some(
                SymbolView {
                    symbol_id: spec_stable_id("sym"@, symbol_seed(file_key, kind, name, (idx + 1) as nat)),
                    name: name,
                    qualified_name: name,
                    kind: kind,
                    signature: Some(t),
                    container_symbol_id: None,
                    start_line: idx + 1,
                    end_line: idx + 1,
                    visibility: None,
                    lsp_backed: false,
                },
            )
        },
        None => None,
    }
}

/// The symbols of the first `k` lines of `ls`, in line order.
pub open spec fn line_symbols(file_key: Seq<char>, language: Seq<char>, ls: Seq<Seq<char>>, k: int) -> Seq<SymbolView> {
    filter_some(Seq::new(k as nat, |i: int| line_symbol(file_key, language, ls[i], i)))
}

/// The symbols that the lines of `content` declare, in line order.
pub open spec fn spec_extract_symbols(file_key: Seq<char>, language: Seq<char>, content: Seq<char>) -> Seq<SymbolView> {
    line_symbols(file_key, language, lines(content), lines(content).len() as int)
}

/// Line-pattern symbols point at real lines: each covers exactly one line of the content,
/// has a non-empty name, and carries that line, trimmed, as its signature.
pub proof fn lemma_line_symbols_on_lines(file_key: Seq<char>, language: Seq<char>, content: Seq<char>)
    ensures
        forall|m: int|
            0 <= m < spec_extract_symbols(file_key, language, content).len() ==> {
                let s = #[trigger] spec_extract_symbols(file_key, language, content)[m];
                &&& 1 <= s.start_line == s.end_line <= lines(content).len()
                &&& s.name.len() > 0
                &&& s.signature == Some(trim(lines(content)[s.start_line - 1]))
            },
{
    let ls = lines(content);
    let n = ls.len();
    let all = Seq::new(n as nat, |i: int| line_symbol(file_key, language, ls[i], i));
    crate::text::lemma_filter_some_elements(all);
    let syms = spec_extract_symbols(file_key, language, content);
    assert(syms == filter_some(all));
    assert forall|m: int| 0 <= m < syms.len() implies {
        let s = #[trigger] syms[m];
        &&& 1 <= s.start_line == s.end_line <= lines(content).len()
        &&& s.name.len() > 0
        &&& s.signature == Some(trim(lines(content)[s.start_line - 1]))
    } by {
        let j = choose|j: int| 0 <= j < all.len() && all[j] == Some(#[trigger] filter_some(all)[m]);
        assert(all[j] == line_symbol(file_key, language, ls[j], j));
    }
}

/// Whether `b` is `a` moved one line down: the same name, kind and signature, one line later.
pub open spec fn moved_down(a: SymbolView, b: SymbolView) -> bool {
    &&& b.name == a.name
    &&& b.qualified_name == a.qualified_name
    &&& b.kind == a.kind
    &&& b.signature == a.signature
    &&& b.start_line == a.start_line + 1
    &&& b.end_line == a.end_line + 1
}

proof fn lemma_comment_line_declares_nothing(file_key: Seq<char>, language: Seq<char>, idx: int)
    ensures
        line_symbol(file_key, language, seq!['/', '/'], idx) is None,
{
    let t = seq!['/', '/'];
    assert(!crate::text::spec_is_whitespace('/'));
    assert(crate::text::lead(t, CharClass::Whitespace) == 0);
    assert(t.skip(0) =~= t);
    assert(crate::text::trail(t, CharClass::Whitespace) == 0);
    assert(t.take(2) =~= t);
    assert(trim(t) == t);
    reveal_strlit("fn ");
    reveal_strlit("function ");
    reveal_strlit("def ");
    reveal_strlit("func ");
    reveal_strlit("class ");
    reveal_strlit(" class ");
    assert(!starts_with(t, "fn "@));
    assert(!starts_with(t, "function "@));
    assert(!starts_with(t, "def "@));
    assert(!starts_with(t, "func "@));
    assert(!starts_with(t, "class "@));
    assert(!contains_seq(t, " class "@));
    assert(!contains_seq(t, "class "@));
    assert(!t.contains('('));
    assert(line_candidate(language, t) is None);
}

/// The lines of `//` and a line feed before `content` are `//` and the lines of `content`.
proof fn lemma_lines_after_comment(content: Seq<char>)
    ensures
        lines(seq!['/', '/', '\n'] + content) == seq![seq!['/', '/']] + lines(content),
{
    let s = seq!['/', '/', '\n'] + content;
    assert(s.drop_first() =~= seq!['/', '\n'] + content);
    assert(s.drop_first().drop_first() =~= seq!['\n'] + content);
    assert(crate::text::lead(s.drop_first().drop_first(), CharClass::Except('\n')) == 0);
    assert(crate::text::lead(s.drop_first(), CharClass::Except('\n')) == 1);
    assert(crate::text::lead(s, CharClass::Except('\n')) == 2);
    assert(s.take(2) =~= seq!['/', '/']);
    assert(crate::text::strip_cr(seq!['/', '/']) == seq!['/', '/']);
    assert(s.skip(3) =~= content);
}

/// Line-pattern symbols do not depend on where the content starts: putting a `//` line
/// before the content yields the same symbols, in the same order, each one line further down.
pub proof fn lemma_symbols_shift_down(file_key: Seq<char>, language: Seq<char>, content: Seq<char>)
    ensures
        spec_extract_symbols(file_key, language, seq!['/', '/', '\n'] + content).len()
            == spec_extract_symbols(file_key, language, content).len(),
        forall|i: int|
            0 <= i < spec_extract_symbols(file_key, language, content).len() ==> moved_down(
                #[trigger] spec_extract_symbols(file_key, language, content)[i],
                spec_extract_symbols(file_key, language, seq!['/', '/', '\n'] + content)[i],
            ),
{
    let ls = lines(content);
    let n = ls.len();
    lemma_lines_after_comment(content);
    let ls2 = lines(seq!['/', '/', '\n'] + content);
    let a = Seq::new(n as nat, |i: int| line_symbol(file_key, language, ls[i], i));
    let b = Seq::new((n + 1) as nat, |i: int| line_symbol(file_key, language, ls2[i], i));
    let bt = Seq::new(n as nat, |i: int| line_symbol(file_key, language, ls[i], i + 1));
    lemma_comment_line_declares_nothing(file_key, language, 0);
    assert(b =~= seq![None] + bt) by {
        assert forall|i: int| 0 <= i < b.len() implies b[i] == (seq![None] + bt)[i] by {
            if i > 0 {
                assert(ls2[i] == ls[i - 1]);
            }
        }
    }
    crate::text::lemma_filter_some_skip_none(bt);
    let rel = |x: SymbolView, y: SymbolView| moved_down(x, y);
    assert forall|i: int| 0 <= i < a.len() implies (#[trigger] a[i] is Some <==> bt[i] is Some) by {}
    assert forall|i: int| 0 <= i < a.len() && #[trigger] a[i] is Some implies rel(a[i]->0, bt[i]->0) by {}
    crate::text::lemma_filter_some_related(a, bt, rel);
    assert(spec_extract_symbols(file_key, language, content) == filter_some(a));
    assert(spec_extract_symbols(file_key, language, seq!['/', '/', '\n'] + content) == filter_some(b));
}

fn word_after_class_exec(ws: &Vec<Vec<char>>) -> (r: Option<Vec<char>>)
    ensures
        r matches Some(v) ==> word_after_class(views(ws@)) == Some(v@),
        r is None ==> word_after_class(views(ws@)) is None,
{
    let ghost all = views(ws@);
    let mut i: usize = 0;
    assert(all.skip(0) =~= all);
    while i < ws.len() && i + 1 < ws.len()
        invariant
            i <= ws@.len(),
            all == views(ws@),
            word_after_class(all) == word_after_class(all.skip(i as int)),
        decreases ws@.len() - i,
    {
        let ghost s = all.skip(i as int);
        assert(s[0] == ws@[i as int]@);
        assert(s[1] == ws@[i + 1]@);
        if is_lit(ws[i].as_slice(), "class") {
            return Some(slice_chars(ws[i + 1].as_slice(), 0, ws[i + 1].len()));
        }
        assert(s.drop_first() =~= all.skip(i + 1));
        i += 1;
    }
    None
}

fn keyword_name_exec(t: &[char], keyword: &str) -> (r: Vec<char>)
    ensures
        r@ == keyword_name(t@, keyword@),
{
    let k = chars_of(keyword);
    assert(t@.subrange(0, t@.len() as int) =~= t@);
    let a = trim_start_matches_at(t, 0, t.len(), k.as_slice());
    let p = find_char(t, a, t.len(), '(');
    assert(before_char(t@.subrange(a as int, t@.len() as int), '(') =~= t@.subrange(a as int, p as int));
    trim_chars(t, a, p)
}

fn line_candidate_exec(language: &[char], t: &[char]) -> (r: Option<(Vec<char>, Vec<char>)>)
    ensures
        r matches Some(p) ==> line_candidate(language@, t@) == Some((p.0@, p.1@)),
        r is None ==> line_candidate(language@, t@) is None,
{
    let js = is_lit(language, "typescript") || is_lit(language, "tsx") || is_lit(language, "javascript")
        || is_lit(language, "jsx");
    let cpp = is_lit(language, "cpp") || is_lit(language, "cpp-header");
    let c_like = is_lit(language, "c") || is_lit(language, "c-header") || cpp;
    let fn_kw = chars_of("fn ");
    let function_kw = chars_of("function ");
    let def_kw = chars_of("def ");
    let func_kw = chars_of("func ");
    let class_kw = chars_of("class ");
    let spaced_class = chars_of(" class ");
    assert(t@.subrange(0, t@.len() as int) =~= t@);
    if is_lit(language, "rust") && starts_with_at(t, 0, t.len(), fn_kw.as_slice()) {
        Some((chars_of("function"), keyword_name_exec(t, "fn ")))
    } else if js && starts_with_at(t, 0, t.len(), function_kw.as_slice()) {
        Some((chars_of("function"), keyword_name_exec(t, "function ")))
    } else if is_lit(language, "python") && starts_with_at(t, 0, t.len(), def_kw.as_slice()) {
        Some((chars_of("function"), keyword_name_exec(t, "def ")))
    } else if is_lit(language, "go") && starts_with_at(t, 0, t.len(), func_kw.as_slice()) {
        Some((chars_of("function"), keyword_name_exec(t, "func ")))
    } else if js && starts_with_at(t, 0, t.len(), class_kw.as_slice()) {
        let a = trim_start_matches_at(t, 0, t.len(), class_kw.as_slice());
        let ws = words_of(t, a, t.len());
        let name = if ws.len() > 0 {
            assert(views(ws@)[0] == ws@[0]@);
            trim_chars(ws[0].as_slice(), 0, ws[0].len())
        } else {
            Vec::new()
        };
        proof {
            if ws@.len() > 0 {
                assert(ws@[0]@.subrange(0, ws@[0]@.len() as int) =~= ws@[0]@);
            }
            assert(trim(Seq::<char>::empty()) =~= Seq::<char>::empty());
        }
        Some((chars_of("class"), name))
    } else if is_lit(language, "java") && contains_chars(t, spaced_class.as_slice()) {
        let ws = words_of(t, 0, t.len());
        match word_after_class_exec(&ws) {
            Some(n) => Some((chars_of("class"), n)),
            None => None,
        }
    } else if cpp && contains_chars(t, class_kw.as_slice()) {
        let ws = words_of(t, 0, t.len());
        match word_after_class_exec(&ws) {
            Some(n) => Some((chars_of("class"), n)),
            None => None,
        }
    } else if c_like && crate::text::contains_char(t, '(') && ends_with_char(t, '{') {
        match name_from_signature_chars(t) {
            Some(n) => Some((chars_of("function"), n)),
            None => None,
        }
    } else {
        None
    }
}

fn line_symbol_exec(file_key: &[char], language: &[char], line: &[char], idx: usize) -> (r: Option<
    SymbolRecord,
>)
    requires
        idx + 1 < i64::MAX,
    ensures
        r matches Some(s) ==> line_symbol(file_key@, language@, line@, idx as int) == Some(s@),
        r is None ==> line_symbol(file_key@, language@, line@, idx as int) is None,
{
    assert(line@.subrange(0, line@.len() as int) =~= line@);
    let t = trim_chars(line, 0, line.len());
    match line_candidate_exec(language, t.as_slice()) {
        Some((kind, name)) => {
            if name.len() == 0 {
                return None;
            }
            let mut seed = slice_chars(file_key, 0, file_key.len());
            seed.push(':');
            push_all(&mut seed, kind.as_slice());
            seed.push(':');
            push_all(&mut seed, name.as_slice());
            seed.push(':');
            let line_no: u64 = idx as u64 + 1;
            push_decimal(&mut seed, line_no);
            proof {
                assert(file_key@.subrange(0, file_key@.len() as int) =~= file_key@);
                assert(seed@ =~= symbol_seed(file_key@, kind@, name@, (idx + 1) as nat));
            }
            let seed_s = string_of(seed.as_slice());
            let name_s = string_of(name.as_slice());
            let rec = SymbolRecord {
                symbol_id: stable_id("sym", seed_s.as_str()),
                name: string_of(name.as_slice()),
                qualified_name: name_s,
                kind: string_of(kind.as_slice()),
                signature: Some(string_of(t.as_slice())),
                container_symbol_id: None,
                start_line: line_no as i64,
                end_line: line_no as i64,
                visibility: None,
                lsp_backed: false,
            };
            Some(rec)
        },
        None => None,
    }
}

/// The symbols declared by the lines of `content`, found by line patterns of `language`:
/// for each line that, trimmed, starts with a declaring keyword (or, in C and C++, holds
/// `(` and ends with `{`) and names something, one symbol spanning that line.
pub fn extract_symbols(file_key: &str, language: &str, content: &str) -> (r: Vec<SymbolRecord>)
    requires
        content@.len() < i64::MAX,
    ensures
        symbol_views(r@) == spec_extract_symbols(file_key@, language@, content@),
{
    let fk = chars_of(file_key);
    let lang = chars_of(language);
    let cv = chars_of(content);
    let ls = lines_of(cv.as_slice());
    proof {
        crate::text::lemma_lines_len(content@);
    }
    let ghost gl = views(ls@);
    let mut out: Vec<SymbolRecord> = Vec::new();
    let mut i: usize = 0;
    while i < ls.len()
        invariant
            i <= ls@.len() == gl.len() < i64::MAX,
            gl == views(ls@),
            gl == lines(content@),
            fk@ == file_key@,
            lang@ == language@,
            symbol_views(out@) == line_symbols(file_key@, language@, gl, i as int),
        decreases ls@.len() - i,
    {
        let ghost prev = out@;
        let ghost f = |j: int| line_symbol(file_key@, language@, gl[j], j);
        assert(Seq::new((i + 1) as nat, f).drop_last() =~= Seq::new(i as nat, f));
        assert(gl[i as int] == ls@[i as int]@);
        match line_symbol_exec(fk.as_slice(), lang.as_slice(), ls[i].as_slice(), i) {
            Some(s) => {
                out.push(s);
                assert(symbol_views(out@) =~= symbol_views(prev).push(s@));
            },
            None => {},
        }
        assert(symbol_views(out@) =~= line_symbols(file_key@, language@, gl, i + 1));
        i += 1;
    }
    out
}

/// The grammar that parses `language`.
pub open spec fn grammar_for(language: Seq<char>) -> Option<Grammar> {
    if language == "rust"@ {
        Some(Grammar::Rust)
    } else if language == "javascript"@ || language == "jsx"@ {
        Some(Grammar::JavaScript)
    } else if language == "typescript"@ {
        Some(Grammar::TypeScript)
    } else if language == "tsx"@ {
        Some(Grammar::Tsx)
    } else if language == "python"@ {
        Some(Grammar::Python)
    } else if language == "go"@ {
        Some(Grammar::Go)
    } else if language == "java"@ {
        Some(Grammar::Java)
    } else if language == "c"@ || language == "c-header"@ {
        Some(Grammar::C)
    } else if language == "cpp"@ || language == "cpp-header"@ {
        Some(Grammar::Cpp)
    } else {
        None
    }
}

/// The tree-sitter grammar for `language`, if there is one.
pub fn ts_language_for(language: &str) -> (r: Option<TsGrammar>)
    ensures
        r matches Some(g) ==> grammar_for(language@) == Some(g.grammar()),
        r is None ==> grammar_for(language@) is None,
{
    let l = chars_of(language);
    let l = l.as_slice();
    if is_lit(l, "rust") {
        Some(rust_grammar())
    } else if is_lit(l, "javascript") || is_lit(l, "jsx") {
        Some(javascript_grammar())
    } else if is_lit(l, "typescript") {
        Some(typescript_grammar())
    } else if is_lit(l, "tsx") {
        Some(tsx_grammar())
    } else if is_lit(l, "python") {
        Some(python_grammar())
    } else if is_lit(l, "go") {
        Some(go_grammar())
    } else if is_lit(l, "java") {
        Some(java_grammar())
    } else if is_lit(l, "c") || is_lit(l, "c-header") {
        Some(c_grammar())
    } else if is_lit(l, "cpp") || is_lit(l, "cpp-header") {
        Some(cpp_grammar())
    } else {
        None
    }
}

/// The nodes met by a stack walk of `t` from node `i`: the node itself, then the walks from
/// its children, last child first (pop a node, push its children from first to last).
pub open spec fn walk(t: Seq<TreeNodeView>, i: int) -> Seq<int>
    decreases t.len() - i, t[i].children.len() + 1,
{
    if 0 <= i < t.len() {
        seq![i] + kids_walk(t, i, t[i].children.len() as int)
    } else {
        seq![]
    }
}

/// The walks from the first `k` children of node `i`, `k`-th child first.
pub open spec fn kids_walk(t: Seq<TreeNodeView>, i: int, k: int) -> Seq<int>
    decreases t.len() - i, k,
{
    if 0 <= i < t.len() && 0 < k <= t[i].children.len() {
        let c = t[i].children[k - 1] as int;
        (if i < c < t.len() {
            walk(t, c)
        } else {
            seq![]
        }) + kids_walk(t, i, k - 1)
    } else {
        seq![]
    }
}

/// What remains to be met from a stack of nodes: the walks from its entries, top first.
pub open spec fn stack_rest(t: Seq<TreeNodeView>, stack: Seq<usize>) -> Seq<int>
    decreases stack.len(),
{
    if stack.len() == 0 {
        seq![]
    } else {
        walk(t, stack.last() as int) + stack_rest(t, stack.drop_last())
    }
}

/// The positions in `v`, as integers.
pub open spec fn positions(v: Seq<usize>) -> Seq<int> {
    v.map_values(|i: usize| i as int)
}

/// The order in which a stack walk from the root of `tree` meets its nodes.
pub fn walk_order(tree: &Vec<TreeNode>) -> (r: Vec<usize>)
    ensures
        positions(r@) == walk(tree_views(tree@), 0),
        forall|k: int| 0 <= k < r@.len() ==> #[trigger] r@[k] < tree@.len(),
{
    let ghost t = tree_views(tree@);
    let mut out: Vec<usize> = Vec::new();
    let mut stack: Vec<usize> = Vec::new();
    if tree.len() > 0 {
        stack.push(0);
        assert(stack@.drop_last() =~= Seq::<usize>::empty());
        assert(stack_rest(t, stack@.drop_last()) =~= Seq::<int>::empty());
        assert(stack_rest(t, stack@) =~= walk(t, 0));
    } else {
        assert(walk(t, 0) =~= Seq::<int>::empty());
    }
    assert(positions(out@) =~= Seq::<int>::empty());
    assert(positions(out@) + stack_rest(t, stack@) =~= walk(t, 0));
    while stack.len() > 0
        invariant
            t == tree_views(tree@),
            forall|k: int| 0 <= k < stack@.len() ==> #[trigger] stack@[k] < tree@.len(),
            forall|k: int| 0 <= k < out@.len() ==> #[trigger] out@[k] < tree@.len(),
            positions(out@) + stack_rest(t, stack@) == walk(t, 0),
        decreases stack_rest(t, stack@).len(),
    {
        let ghost before = stack_rest(t, stack@);
        let ghost prev_out = out@;
        let s = stack.pop().unwrap();
        let ghost base = stack@;
        assert(before == walk(t, s as int) + stack_rest(t, base));
        assert(t[s as int].children == tree@[s as int].children@);
        out.push(s);
        let kids = &tree[s].children;
        let mut j: usize = 0;
        assert(stack@ =~= base);
        while j < kids.len()
            invariant
                t == tree_views(tree@),
                s < tree@.len(),
                *kids == tree@[s as int].children,
                j <= kids@.len(),
                forall|k: int| 0 <= k < stack@.len() ==> #[trigger] stack@[k] < tree@.len(),
                stack_rest(t, stack@) == kids_walk(t, s as int, j as int) + stack_rest(t, base),
            decreases kids@.len() - j,
        {
            let c = kids[j];
            let ghost prev = stack@;
            if s < c && c < tree.len() {
                stack.push(c);
                assert(stack@.drop_last() =~= prev);
            }
            assert(kids_walk(t, s as int, j + 1) =~= (if (s as int) < (c as int) && (c as int) < t.len() {
                walk(t, c as int)
            } else {
                seq![]
            }) + kids_walk(t, s as int, j as int));
            j += 1;
        }
        assert(walk(t, s as int) == seq![s as int] + kids_walk(t, s as int, kids@.len() as int));
        assert(positions(out@) =~= positions(prev_out).push(s as int));
        assert(positions(out@) + stack_rest(t, stack@) =~= positions(prev_out) + before);
    }
    assert(stack@ =~= Seq::<usize>::empty());
    assert(positions(out@) =~= positions(out@) + stack_rest(t, stack@));
    out
}

fn copy_node(n: &SyntaxNode) -> (r: SyntaxNode)
    ensures
        r@ == n@,
{
    SyntaxNode {
        kind: n.kind.clone(),
        start_byte: n.start_byte,
        end_byte: n.end_byte,
        start_row: n.start_row,
        end_row: n.end_row,
        name_span: n.name_span,
    }
}

/// The nodes of the syntax tree that tree-sitter builds for `content` with `grammar`, in
/// the order in which a stack walk from the root meets them.
pub open spec fn spec_syntax_nodes(grammar: Grammar, content: Seq<char>) -> Option<Seq<SyntaxNodeView>> {
    match spec_syntax_tree(grammar, content) {
        Some(t) => Some(walk(t, 0).map_values(|i: int| t[i].node)),
        None => None,
    }
}

/// The nodes of the syntax tree of `content`, in stack-walk order; `None` when tree-sitter
/// gives no tree.
fn syntax_nodes(grammar: &TsGrammar, content: &str) -> (r: Option<Vec<SyntaxNode>>)
    ensures
        r matches Some(v) ==> spec_syntax_nodes(grammar.grammar(), content@) == Some(node_views(v@))
            && nodes_in_range(node_views(v@), encode_utf8(content@).len()),
        r is None ==> spec_syntax_nodes(grammar.grammar(), content@) is None,
{
    let tree = match syntax_tree(grammar, content) {
        Some(t) => t,
        None => {
            return None;
        },
    };
    let ghost t = tree_views(tree@);
    let ghost len = encode_utf8(content@).len();
    let order = walk_order(&tree);
    let mut out: Vec<SyntaxNode> = Vec::new();
    let mut k: usize = 0;
    while k < order.len()
        invariant
            t == tree_views(tree@),
            tree_well_formed(t, len),
            positions(order@) == walk(t, 0),
            forall|m: int| 0 <= m < order@.len() ==> #[trigger] order@[m] < tree@.len(),
            k <= order@.len(),
            node_views(out@) == walk(t, 0).take(k as int).map_values(|i: int| t[i].node),
            nodes_in_range(node_views(out@), len),
        decreases order@.len() - k,
    {
        let i = order[k];
        let ghost prev = out@;
        out.push(copy_node(&tree[i].node));
        assert(positions(order@)[k as int] == i as int);
        assert(node_views(out@) =~= node_views(prev).push(t[i as int].node));
        assert(walk(t, 0).take(k + 1) =~= walk(t, 0).take(k as int).push(i as int));
        assert(t.map_values(|n: TreeNodeView| n.node)[i as int] == t[i as int].node);
        assert(node_views(out@) =~= walk(t, 0).take(k + 1).map_values(|i: int| t[i].node));
        k += 1;
    }
    assert(walk(t, 0).take(order@.len() as int) =~= walk(t, 0));
    Some(out)
}

/// The text of bytes `a..b` of `content`, when both ends fall on character boundaries.
pub open spec fn node_text(content: Seq<char>, a: int, b: int) -> Option<Seq<char>> {
    let bytes = encode_utf8(content);
    if is_char_boundary(bytes, a) && is_char_boundary(bytes, b) {
        Some(decode_utf8(bytes.subrange(a, b)))
    } else {
        None
    }
}

/// Each character takes at least one byte.
pub proof fn lemma_utf8_len(s: Seq<char>)
    ensures
        s.len() <= encode_utf8(s).len(),
    decreases s.len(),
{
    if s.len() > 0 {
        lemma_utf8_len(s.drop_first());
    }
}

/// `Node::utf8_text`: the text of bytes `a..b` of `content`, if they form whole characters.
fn node_text_exec(content: &str, a: usize, b: usize) -> (r: Option<Vec<char>>)
    requires
        a <= b <= encode_utf8(content@).len(),
    ensures
        r matches Some(v) ==> node_text(content@, a as int, b as int) == Some(v@),
        r is None ==> node_text(content@, a as int, b as int) is None,
{
    if !(content.is_char_boundary(a) && content.is_char_boundary(b)) {
        return None;
    }
    let ghost bytes = encode_utf8(content@);
    let (head, _tail) = content.split_at(b);
    let ghost hb = bytes.subrange(0, b as int);
    proof {
        vstd::utf8::encode_utf8_valid_utf8(content@);
        vstd::utf8::valid_utf8_split(bytes, b as int);
        assert(encode_utf8(head@) == hb);
        if a < b {
            vstd::utf8::is_char_boundary_iff_not_is_continuation_byte(bytes, a as int);
            vstd::utf8::is_char_boundary_iff_not_is_continuation_byte(hb, a as int);
        } else {
            vstd::utf8::is_char_boundary_start_end_of_seq(hb);
        }
    }
    let (_before, mid) = head.split_at(a);
    let v = chars_of(mid);
    proof {
        assert(hb.subrange(a as int, hb.len() as int) =~= bytes.subrange(a as int, b as int));
        vstd::utf8::encode_utf8_decode_utf8(mid@);
    }
    Some(v)
}

/// The name of a node by its `name` field: the field's text, cleaned, if not empty.
pub open spec fn name_by_field(content: Seq<char>, n: SyntaxNodeView) -> Option<Seq<char>> {
    match n.name_span {
        Some(sp) => match node_text(content, sp.0 as int, sp.1 as int) {
            Some(t) => if spec_clean_name(t).len() > 0 {
                Some(spec_clean_name(t))
            } else {
                None
            },
            None => None,
        },
        None => None,
    }
}

/// The name of a node: by its `name` field, or else from its text read as a signature.
pub open spec fn spec_name_from_node(content: Seq<char>, n: SyntaxNodeView) -> Option<Seq<char>> {
    match name_by_field(content, n) {
        Some(x) => Some(x),
        None => match node_text(content, n.start_byte as int, n.end_byte as int) {
            Some(raw) => spec_name_from_signature(raw),
            None => None,
        },
    }
}

fn name_from_node(n: &SyntaxNode, content: &str) -> (r: Option<Vec<char>>)
    requires
        n.start_byte <= n.end_byte <= encode_utf8(content@).len(),
        n.name_span matches Some(sp) ==> sp.0 <= sp.1 <= encode_utf8(content@).len(),
    ensures
        r matches Some(v) ==> spec_name_from_node(content@, n@) == Some(v@),
        r is None ==> spec_name_from_node(content@, n@) is None,
{
    if let Some((a, b)) = n.name_span {
        if let Some(t) = node_text_exec(content, a, b) {
            let name = clean_name_chars(t.as_slice());
            if name.len() > 0 {
                return Some(name);
            }
        }
    }
    match node_text_exec(content, n.start_byte, n.end_byte) {
        Some(raw) => name_from_signature_chars(raw.as_slice()),
        None => None,
    }
}

/// The text of a sequence of static strings.
pub open spec fn str_views(v: Seq<&str>) -> Seq<Seq<char>> {
    v.map_values(|s: &str| s@)
}

/// The node kinds that become chunks in `language`.
pub open spec fn spec_chunk_kinds(language: Seq<char>) -> Seq<Seq<char>> {
    if language == "rust"@ {
        seq![
            "function_item"@,
            "impl_item"@,
            "struct_item"@,
            "enum_item"@,
            "trait_item"@,
            "mod_item"@,
        ]
    } else if is_js_like(language) {
        seq![
            "function_declaration"@,
            "method_definition"@,
            "class_declaration"@,
            "interface_declaration"@,
            "type_alias_declaration"@,
        ]
    } else if language == "python"@ {
        seq!["function_definition"@, "class_definition"@]
    } else if language == "go"@ {
        seq!["function_declaration"@, "method_declaration"@, "type_declaration"@]
    } else if language == "java"@ {
        seq![
            "class_declaration"@,
            "interface_declaration"@,
            "method_declaration"@,
            "constructor_declaration"@,
            "enum_declaration"@,
        ]
    } else if language == "c"@ || language == "c-header"@ {
        seq!["function_definition"@, "struct_specifier"@, "enum_specifier"@]
    } else if is_cpp_like(language) {
        seq![
            "function_definition"@,
            "class_specifier"@,
            "struct_specifier"@,
            "namespace_definition"@,
            "enum_specifier"@,
        ]
    } else {
        seq![]
    }
}

/// The node kinds that become chunks in `language`.
pub fn chunk_kinds_for(language: &str) -> (r: Vec<&'static str>)
    ensures
        str_views(r@) == spec_chunk_kinds(language@),
{
    let l = chars_of(language);
    let l = l.as_slice();
    let mut v: Vec<&'static str> = Vec::new();
    if is_lit(l, "rust") {
        v.push("function_item");
        v.push("impl_item");
        v.push("struct_item");
        v.push("enum_item");
        v.push("trait_item");
        v.push("mod_item");
    } else if is_lit(l, "javascript") || is_lit(l, "jsx") || is_lit(l, "typescript") || is_lit(
        l,
        "tsx",
    ) {
        v.push("function_declaration");
        v.push("method_definition");
        v.push("class_declaration");
        v.push("interface_declaration");
        v.push("type_alias_declaration");
    } else if is_lit(l, "python") {
        v.push("function_definition");
        v.push("class_definition");
    } else if is_lit(l, "go") {
        v.push("function_declaration");
        v.push("method_declaration");
        v.push("type_declaration");
    } else if is_lit(l, "java") {
        v.push("class_declaration");
        v.push("interface_declaration");
        v.push("method_declaration");
        v.push("constructor_declaration");
        v.push("enum_declaration");
    } else if is_lit(l, "c") || is_lit(l, "c-header") {
        v.push("function_definition");
        v.push("struct_specifier");
        v.push("enum_specifier");
    } else if is_lit(l, "cpp") || is_lit(l, "cpp-header") {
        v.push("function_definition");
        v.push("class_specifier");
        v.push("struct_specifier");
        v.push("namespace_definition");
        v.push("enum_specifier");
    }
    assert(str_views(v@) =~= spec_chunk_kinds(language@));
    v
}

/// The symbol kind that a node kind declares.
pub open spec fn spec_symbol_kind(k: Seq<char>) -> Option<Seq<char>> {
    if k == "function_item"@ || k == "function_definition"@ || k == "function_declaration"@ {
        Some("function"@)
    } else if k == "method_definition"@ || k == "method_declaration"@ {
        Some("method"@)
    } else if k == "constructor_declaration"@ {
        Some("constructor"@)
    } else if k == "class_declaration"@ || k == "class_definition"@ || k == "class_specifier"@ {
        Some("class"@)
    } else if k == "struct_item"@ || k == "struct_specifier"@ {
        Some("struct"@)
    } else if k == "enum_item"@ || k == "enum_declaration"@ || k == "enum_specifier"@ {
        Some("enum"@)
    } else if k == "interface_declaration"@ {
        Some("interface"@)
    } else if k == "trait_item"@ {
        Some("trait"@)
    } else if k == "mod_item"@ || k == "namespace_definition"@ {
        Some("module"@)
    } else if k == "type_alias_declaration"@ || k == "type_declaration"@ {
        Some("type_alias"@)
    } else {
        None
    }
}

fn symbol_kind_chars(k: &[char]) -> (r: Option<&'static str>)
    ensures
        r matches Some(s) ==> spec_symbol_kind(k@) == Some(s@),
        r is None ==> spec_symbol_kind(k@) is None,
{
    if is_lit(k, "function_item") || is_lit(k, "function_definition") || is_lit(
        k,
        "function_declaration",
    ) {
        Some("function")
    } else if is_lit(k, "method_definition") || is_lit(k, "method_declaration") {
        Some("method")
    } else if is_lit(k, "constructor_declaration") {
        Some("constructor")
    } else if is_lit(k, "class_declaration") || is_lit(k, "class_definition") || is_lit(
        k,
        "class_specifier",
    ) {
        Some("class")
    } else if is_lit(k, "struct_item") || is_lit(k, "struct_specifier") {
        Some("struct")
    } else if is_lit(k, "enum_item") || is_lit(k, "enum_declaration") || is_lit(
        k,
        "enum_specifier",
    ) {
        Some("enum")
    } else if is_lit(k, "interface_declaration") {
        Some("interface")
    } else if is_lit(k, "trait_item") {
        Some("trait")
    } else if is_lit(k, "mod_item") || is_lit(k, "namespace_definition") {
        Some("module")
    } else if is_lit(k, "type_alias_declaration") || is_lit(k, "type_declaration") {
        Some("type_alias")
    } else {
        None
    }
}

/// The symbol kind that a syntax node kind declares.
pub fn map_symbol_kind(node_kind: &str) -> (r: Option<&'static str>)
    ensures
        r matches Some(s) ==> spec_symbol_kind(node_kind@) == Some(s@),
        r is None ==> spec_symbol_kind(node_kind@) is None,
{
    let k = chars_of(node_kind);
    symbol_kind_chars(k.as_slice())
}

/// `n`, if its kind is one of `wanted`.
pub open spec fn pick_wanted(wanted: Seq<Seq<char>>, n: SyntaxNodeView) -> Option<SyntaxNodeView> {
    if wanted.contains(n.kind) {
        Some(n)
    } else {
        None
    }
}

/// The nodes whose kind is one of `wanted`, in their order.
pub open spec fn selected(nodes: Seq<SyntaxNodeView>, wanted: Seq<Seq<char>>) -> Seq<SyntaxNodeView> {
    filter_some(nodes.map_values(|n: SyntaxNodeView| pick_wanted(wanted, n)))
}

/// The nodes of `nodes` at the positions `idx`.
pub open spec fn at_indices(nodes: Seq<SyntaxNode>, idx: Seq<usize>) -> Seq<SyntaxNodeView> {
    Seq::new(idx.len(), |i: int| nodes[idx[i] as int]@)
}

fn kind_wanted(kind: &[char], wanted: &Vec<&'static str>) -> (r: bool)
    ensures
        r == str_views(wanted@).contains(kind@),
{
    let mut j: usize = 0;
    while j < wanted.len()
        invariant
            j <= wanted@.len(),
            forall|i: int| 0 <= i < j ==> wanted@[i]@ != kind@,
        decreases wanted@.len() - j,
    {
        if is_lit(kind, wanted[j]) {
            assert(str_views(wanted@)[j as int] == kind@);
            return true;
        }
        j += 1;
    }
    assert forall|i: int| 0 <= i < str_views(wanted@).len() implies str_views(wanted@)[i] != kind@ by {
        assert(str_views(wanted@)[i] == wanted@[i]@);
    }
    false
}

/// The positions of the nodes whose kind is one of `wanted`, in order.
pub fn walk_nodes(nodes: &Vec<SyntaxNode>, wanted: &Vec<&'static str>) -> (r: Vec<usize>)
    ensures
        forall|i: int| 0 <= i < r@.len() ==> #[trigger] r@[i] < nodes@.len(),
        at_indices(nodes@, r@) == selected(node_views(nodes@), str_views(wanted@)),
{
    let ghost f = |n: SyntaxNodeView| pick_wanted(str_views(wanted@), n);
    let mut out: Vec<usize> = Vec::new();
    let mut i: usize = 0;
    while i < nodes.len()
        invariant
            i <= nodes@.len(),
            forall|k: int| 0 <= k < out@.len() ==> #[trigger] out@[k] < i,
            forall|n: SyntaxNodeView| #[trigger] f(n) == pick_wanted(str_views(wanted@), n),
            at_indices(nodes@, out@) == filter_some(node_views(nodes@).take(i as int).map_values(f)),
        decreases nodes@.len() - i,
    {
        let ghost prev = out@;
        let ghost s = node_views(nodes@).take(i + 1).map_values(f);
        assert(s.drop_last() =~= node_views(nodes@).take(i as int).map_values(f));
        assert(s.last() == f(nodes@[i as int]@));
        let kc = chars_of(nodes[i].kind.as_str());
        assert(kc@ == nodes@[i as int]@.kind);
        assert(f(nodes@[i as int]@) == pick_wanted(str_views(wanted@), nodes@[i as int]@));
        if kind_wanted(kc.as_slice(), wanted) {
            out.push(i);
            assert(s.last() == Some(nodes@[i as int]@));
            assert(filter_some(s) == filter_some(s.drop_last()) + seq![nodes@[i as int]@]);
            assert(at_indices(nodes@, out@) =~= at_indices(nodes@, prev).push(nodes@[i as int]@));
        } else {
            assert(s.last() is None);
            assert(filter_some(s) == filter_some(s.drop_last()) + Seq::<SyntaxNodeView>::empty());
            assert(at_indices(nodes@, out@) =~= at_indices(nodes@, prev));
        }
        i += 1;
    }
    assert(node_views(nodes@).take(nodes@.len() as int) =~= node_views(nodes@));
    assert(node_views(nodes@).map_values(f) =~= node_views(nodes@).map_values(
        |n: SyntaxNodeView| pick_wanted(str_views(wanted@), n),
    ));
    out
}

/// The chunk kind of a syntax node: `ast:` and the node kind.
pub open spec fn ast_kind(n: SyntaxNodeView) -> Seq<char> {
    "ast:"@ + n.kind
}

/// The chunk for a syntax node: its text, trimmed, if that is not empty; lines counted
/// from one.
pub open spec fn node_chunk(file_key: Seq<char>, content: Seq<char>, n: SyntaxNodeView) -> Option<ChunkView> {
    match node_text(content, n.start_byte as int, n.end_byte as int) {
        None => None,
        Some(raw) => {
            let text = trim(raw);
            let sl = n.start_row + 1;
            let el = n.end_row + 1;
            if text.len() == 0 {
                None
            } else {
                Some(
                    ChunkView {
                        chunk_id: spec_stable_id(
                            "chunk"@,
                            file_key + seq![':'] + ast_kind(n) + seq![':'] + decimal(sl as nat) + seq![':']
                                + decimal(el as nat),
                        ),
                        kind: ast_kind(n),
                        start_line: sl,
                        end_line: el,
                        text: text,
                        text_hash: spec_hash_hex(text),
                    },
                )
            }
        },
    }
}

/// The first line of `text`, or the empty string.
pub open spec fn first_line(text: Seq<char>) -> Seq<char> {
    if lines(text).len() > 0 {
        lines(text)[0]
    } else {
        seq![]
    }
}

/// The symbol for a syntax node that has a chunk, a symbol kind and a name; its signature
/// is the first line of the chunk's text, trimmed, unless that is empty.
pub open spec fn node_symbol(file_key: Seq<char>, content: Seq<char>, n: SyntaxNodeView) -> Option<SymbolView> {
    match node_chunk(file_key, content, n) {
        None => None,
        Some(c) => match spec_symbol_kind(n.kind) {
            None => None,
            Some(mk) => match spec_name_from_node(content, n) {
                None => None,
                Some(name) => {
                    let sig = trim(first_line(c.text));
                    Some(
                        SymbolView {
                            symbol_id: spec_stable_id("sym"@, symbol_seed(file_key, mk, name, c.start_line as nat)),
                            name: name,
                            qualified_name: name,
                            kind: mk,
                            signature: if sig.len() == 0 {
                                None
                            } else {
                                Some(sig)
                            },
                            container_symbol_id: None,
                            start_line: c.start_line,
                            end_line: c.end_line,
                            visibility: None,
                            lsp_backed: false,
                        },
                    )
                },
            },
        },
    }
}

/// The chunks of the first `k` nodes of `sel`.
pub open spec fn ast_chunks(file_key: Seq<char>, content: Seq<char>, sel: Seq<SyntaxNodeView>, k: int) -> Seq<ChunkView>
    decreases k,
{
    if k <= 0 {
        seq![]
    } else {
        ast_chunks(file_key, content, sel, k - 1) + match node_chunk(file_key, content, sel[k - 1]) {
            Some(c) => seq![c],
            None => seq![],
        }
    }
}

/// The symbols of the first `k` nodes of `sel`.
pub open spec fn ast_symbols(file_key: Seq<char>, content: Seq<char>, sel: Seq<SyntaxNodeView>, k: int) -> Seq<SymbolView>
    decreases k,
{
    if k <= 0 {
        seq![]
    } else {
        ast_symbols(file_key, content, sel, k - 1) + match node_symbol(file_key, content, sel[k - 1]) {
            Some(s) => seq![s],
            None => seq![],
        }
    }
}

/// Chunks and symbols from the syntax nodes of `content` whose kind `language` indexes:
/// `None` when there is no such node or none of them has non-blank text.
pub open spec fn spec_ast_records(
    file_key: Seq<char>,
    language: Seq<char>,
    content: Seq<char>,
    nodes: Seq<SyntaxNodeView>,
) -> Option<(Seq<ChunkView>, Seq<SymbolView>)> {
    let sel = selected(nodes, spec_chunk_kinds(language));
    let chunks = ast_chunks(file_key, content, sel, sel.len() as int);
    if sel.len() == 0 || chunks.len() == 0 {
        None
    } else {
        Some((chunks, ast_symbols(file_key, content, sel, sel.len() as int)))
    }
}

fn node_records(file_key: &[char], content: &str, n: &SyntaxNode) -> (r: (
    Option<ChunkRecord>,
    Option<SymbolRecord>,
))
    requires
        n.start_byte <= n.end_byte <= encode_utf8(content@).len() < i64::MAX,
        n.start_row <= encode_utf8(content@).len(),
        n.end_row <= encode_utf8(content@).len(),
        n.name_span matches Some(sp) ==> sp.0 <= sp.1 <= encode_utf8(content@).len(),
    ensures
        r.0 matches Some(c) ==> node_chunk(file_key@, content@, n@) == Some(c@),
        r.0 is None ==> node_chunk(file_key@, content@, n@) is None,
        r.1 matches Some(s) ==> node_symbol(file_key@, content@, n@) == Some(s@),
        r.1 is None ==> node_symbol(file_key@, content@, n@) is None,
{
    let raw = match node_text_exec(content, n.start_byte, n.end_byte) {
        Some(v) => v,
        None => {
            return (None, None);
        },
    };
    assert(raw@.subrange(0, raw@.len() as int) =~= raw@);
    let text = trim_chars(raw.as_slice(), 0, raw.len());
    if text.len() == 0 {
        return (None, None);
    }
    let sl: u64 = n.start_row as u64 + 1;
    let el: u64 = n.end_row as u64 + 1;
    let kc = chars_of(n.kind.as_str());
    let mut kind = chars_of("ast:");
    push_all(&mut kind, kc.as_slice());
    let mut seed = slice_chars(file_key, 0, file_key.len());
    seed.push(':');
    push_all(&mut seed, kind.as_slice());
    seed.push(':');
    push_decimal(&mut seed, sl);
    seed.push(':');
    push_decimal(&mut seed, el);
    proof {
        assert(file_key@.subrange(0, file_key@.len() as int) =~= file_key@);
        assert(seed@ =~= file_key@ + seq![':'] + ast_kind(n@) + seq![':'] + decimal(sl as nat)
            + seq![':'] + decimal(el as nat));
    }
    let seed_s = string_of(seed.as_slice());
    let text_s = string_of(text.as_slice());
    let chunk = ChunkRecord {
        chunk_id: stable_id("chunk", seed_s.as_str()),
        kind: string_of(kind.as_slice()),
        start_line: sl as i64,
        end_line: el as i64,
        text_hash: hash_str(text_s.as_str()),
        text: text_s,
    };
    let sym = match symbol_kind_chars(kc.as_slice()) {
        None => None,
        Some(mk) => match name_from_node(n, content) {
            None => None,
            Some(name) => {
                let tl = lines_of(text.as_slice());
                let first = if tl.len() > 0 {
                    assert(views(tl@)[0] == tl@[0]@);
                    slice_chars(tl[0].as_slice(), 0, tl[0].len())
                } else {
                    Vec::new()
                };
                proof {
                    if tl@.len() > 0 {
                        assert(tl@[0]@.subrange(0, tl@[0]@.len() as int) =~= tl@[0]@);
                    }
                    assert(first@ == first_line(text@));
                    assert(first@.subrange(0, first@.len() as int) =~= first@);
                }
                let sig = trim_chars(first.as_slice(), 0, first.len());
                let mkc = chars_of(mk);
                let mut seed2 = slice_chars(file_key, 0, file_key.len());
                seed2.push(':');
                push_all(&mut seed2, mkc.as_slice());
                seed2.push(':');
                push_all(&mut seed2, name.as_slice());
                seed2.push(':');
                push_decimal(&mut seed2, sl);
                proof {
                    assert(seed2@ =~= symbol_seed(file_key@, mk@, name@, sl as nat));
                }
                let seed2_s = string_of(seed2.as_slice());
                Some(
                    SymbolRecord {
                        symbol_id: stable_id("sym", seed2_s.as_str()),
                        name: string_of(name.as_slice()),
                        qualified_name: string_of(name.as_slice()),
                        kind: mk.to_owned(),
                        signature: if sig.len() == 0 {
                            None
                        } else {
                            Some(string_of(sig.as_slice()))
                        },
                        container_symbol_id: None,
                        start_line: sl as i64,
                        end_line: el as i64,
                        visibility: None,
                        lsp_backed: false,
                    },
                )
            },
        },
    };
    (Some(chunk), sym)
}

/// The chunks and symbols of the syntax nodes `nodes` of `content` whose kind `language`
/// indexes, in node order; `None` when no such node has non-blank text.
pub fn ast_records(file_key: &str, language: &str, content: &str, nodes: &Vec<SyntaxNode>) -> (r:
    Option<(Vec<ChunkRecord>, Vec<SymbolRecord>)>)
    requires
        encode_utf8(content@).len() < i64::MAX,
        nodes_in_range(node_views(nodes@), encode_utf8(content@).len()),
    ensures
        r matches Some(p) ==> spec_ast_records(file_key@, language@, content@, node_views(nodes@))
            == Some((chunk_views(p.0@), symbol_views(p.1@))),
        r is None ==> spec_ast_records(file_key@, language@, content@, node_views(nodes@)) is None,
{
    let wanted = chunk_kinds_for(language);
    let idx = walk_nodes(nodes, &wanted);
    let ghost sel = selected(node_views(nodes@), spec_chunk_kinds(language@));
    if idx.len() == 0 {
        return None;
    }
    let fk = chars_of(file_key);
    let mut chunks: Vec<ChunkRecord> = Vec::new();
    let mut symbols: Vec<SymbolRecord> = Vec::new();
    let mut i: usize = 0;
    while i < idx.len()
        invariant
            i <= idx@.len() == sel.len(),
            sel == at_indices(nodes@, idx@),
            forall|k: int| 0 <= k < idx@.len() ==> #[trigger] idx@[k] < nodes@.len(),
            fk@ == file_key@,
            encode_utf8(content@).len() < i64::MAX,
            nodes_in_range(node_views(nodes@), encode_utf8(content@).len()),
            chunk_views(chunks@) == ast_chunks(file_key@, content@, sel, i as int),
            symbol_views(symbols@) == ast_symbols(file_key@, content@, sel, i as int),
        decreases idx@.len() - i,
    {
        let j = idx[i];
        assert(node_views(nodes@)[j as int] == nodes@[j as int]@);
        assert(sel[i as int] == nodes@[j as int]@);
        let ghost pc = chunks@;
        let ghost ps = symbols@;
        let (c, s) = node_records(fk.as_slice(), content, &nodes[j]);
        match c {
            Some(c) => {
                chunks.push(c);
                assert(chunk_views(chunks@) =~= chunk_views(pc).push(c@));
            },
            None => {},
        }
        match s {
            Some(s) => {
                symbols.push(s);
                assert(symbol_views(symbols@) =~= symbol_views(ps).push(s@));
            },
            None => {},
        }
        assert(chunk_views(chunks@) =~= ast_chunks(file_key@, content@, sel, i + 1));
        assert(symbol_views(symbols@) =~= ast_symbols(file_key@, content@, sel, i + 1));
        i += 1;
    }
    if chunks.len() == 0 {
        None
    } else {
        Some((chunks, symbols))
    }
}

/// Whether `c` has the shape of an AST chunk for one of the `wanted` node kinds: kind `ast:`
/// and the node kind, lines in order counted from one, non-empty text, and the digest of
/// that text.
pub open spec fn ast_chunk_shape(c: ChunkView, wanted: Seq<Seq<char>>) -> bool {
    &&& exists|k: Seq<char>| #[trigger] wanted.contains(k) && c.kind == "ast:"@ + k
    &&& 1 <= c.start_line <= c.end_line
    &&& c.text.len() > 0
    &&& hash_matches(c)
}

/// Whether `s` has the shape of an AST symbol for one of the `wanted` node kinds: a
/// non-empty name that is also its qualified name, the symbol kind of its node's kind, and
/// lines in order counted from one.
pub open spec fn ast_symbol_shape(s: SymbolView, wanted: Seq<Seq<char>>) -> bool {
    &&& exists|k: Seq<char>| #[trigger] wanted.contains(k) && spec_symbol_kind(k) == Some(s.kind)
    &&& s.name.len() > 0
    &&& s.qualified_name == s.name
    &&& 1 <= s.start_line <= s.end_line
}

proof fn lemma_selected_wanted(nodes: Seq<SyntaxNodeView>, wanted: Seq<Seq<char>>)
    requires
        forall|i: int| 0 <= i < nodes.len() ==> (#[trigger] nodes[i]).start_row <= nodes[i].end_row,
    ensures
        forall|j: int|
            0 <= j < selected(nodes, wanted).len() ==> wanted.contains(
                (#[trigger] selected(nodes, wanted)[j]).kind,
            ) && selected(nodes, wanted)[j].start_row <= selected(nodes, wanted)[j].end_row,
{
    let m = nodes.map_values(|n: SyntaxNodeView| pick_wanted(wanted, n));
    crate::text::lemma_filter_some_elements(m);
    let sel = selected(nodes, wanted);
    assert forall|j: int| 0 <= j < sel.len() implies wanted.contains((#[trigger] sel[j]).kind)
        && sel[j].start_row <= sel[j].end_row by {
        let i = choose|i: int| 0 <= i < m.len() && m[i] == Some(#[trigger] filter_some(m)[j]);
        assert(m[i] == pick_wanted(wanted, nodes[i]));
    }
}

proof fn lemma_ast_chunks_from(file_key: Seq<char>, content: Seq<char>, sel: Seq<SyntaxNodeView>, k: int)
    ensures
        forall|m: int|
            0 <= m < ast_chunks(file_key, content, sel, k).len() ==> exists|j: int|
                0 <= j < k && node_chunk(file_key, content, sel[j]) == Some(
                    #[trigger] ast_chunks(file_key, content, sel, k)[m],
                ),
    decreases k,
{
    if k > 0 {
        lemma_ast_chunks_from(file_key, content, sel, k - 1);
        let p = ast_chunks(file_key, content, sel, k - 1);
        let q = ast_chunks(file_key, content, sel, k);
        assert forall|m: int| 0 <= m < q.len() implies exists|j: int|
            0 <= j < k && node_chunk(file_key, content, sel[j]) == Some(#[trigger] q[m]) by {
            if m < p.len() {
                assert(q[m] == p[m]);
                let j = choose|j: int|
                    0 <= j < k - 1 && node_chunk(file_key, content, sel[j]) == Some(#[trigger] p[m]);
                assert(node_chunk(file_key, content, sel[j]) == Some(q[m]));
            } else {
                assert(node_chunk(file_key, content, sel[k - 1]) == Some(q[m]));
            }
        }
    }
}

proof fn lemma_ast_symbols_from(file_key: Seq<char>, content: Seq<char>, sel: Seq<SyntaxNodeView>, k: int)
    ensures
        forall|m: int|
            0 <= m < ast_symbols(file_key, content, sel, k).len() ==> exists|j: int|
                0 <= j < k && node_symbol(file_key, content, sel[j]) == Some(
                    #[trigger] ast_symbols(file_key, content, sel, k)[m],
                ),
    decreases k,
{
    if k > 0 {
        lemma_ast_symbols_from(file_key, content, sel, k - 1);
        let p = ast_symbols(file_key, content, sel, k - 1);
        let q = ast_symbols(file_key, content, sel, k);
        assert forall|m: int| 0 <= m < q.len() implies exists|j: int|
            0 <= j < k && node_symbol(file_key, content, sel[j]) == Some(#[trigger] q[m]) by {
            if m < p.len() {
                assert(q[m] == p[m]);
                let j = choose|j: int|
                    0 <= j < k - 1 && node_symbol(file_key, content, sel[j]) == Some(#[trigger] p[m]);
                assert(node_symbol(file_key, content, sel[j]) == Some(q[m]));
            } else {
                assert(node_symbol(file_key, content, sel[k - 1]) == Some(q[m]));
            }
        }
    }
}

/// AST records have their shape: when the nodes of a syntax tree yield records, there is at
/// least one chunk, each chunk is an `ast:` chunk of a kind chunked for the language with
/// its lines in order, non-empty text and its digest, and each symbol has a non-empty name,
/// the symbol kind of a chunked node kind, and its lines in order.
pub proof fn lemma_ast_records_shape(
    file_key: Seq<char>,
    language: Seq<char>,
    content: Seq<char>,
    nodes: Seq<SyntaxNodeView>,
)
    requires
        forall|i: int| 0 <= i < nodes.len() ==> (#[trigger] nodes[i]).start_row <= nodes[i].end_row,
    ensures
        spec_ast_records(file_key, language, content, nodes) is Some ==> {
            let c = spec_ast_records(file_key, language, content, nodes).unwrap().0;
            let s = spec_ast_records(file_key, language, content, nodes).unwrap().1;
            &&& c.len() > 0
            &&& forall|m: int| 0 <= m < c.len() ==> ast_chunk_shape(#[trigger] c[m], spec_chunk_kinds(language))
            &&& forall|m: int| 0 <= m < s.len() ==> ast_symbol_shape(#[trigger] s[m], spec_chunk_kinds(language))
        },
{
    let wanted = spec_chunk_kinds(language);
    let sel = selected(nodes, wanted);
    lemma_selected_wanted(nodes, wanted);
    lemma_ast_chunks_from(file_key, content, sel, sel.len() as int);
    lemma_ast_symbols_from(file_key, content, sel, sel.len() as int);
    lemma_ast_chunk_hashes(file_key, content, sel, sel.len() as int);
    let c = ast_chunks(file_key, content, sel, sel.len() as int);
    let s = ast_symbols(file_key, content, sel, sel.len() as int);
    assert forall|m: int| 0 <= m < c.len() implies ast_chunk_shape(#[trigger] c[m], wanted) by {
        let j = choose|j: int| 0 <= j < sel.len() && node_chunk(file_key, content, sel[j]) == Some(#[trigger] c[m]);
        let n = sel[j];
        assert(wanted.contains(n.kind));
        assert(c[m].kind == "ast:"@ + n.kind);
        assert(hash_matches(c[m]));
    }
    assert forall|m: int| 0 <= m < s.len() implies ast_symbol_shape(#[trigger] s[m], wanted) by {
        let j = choose|j: int| 0 <= j < sel.len() && node_symbol(file_key, content, sel[j]) == Some(#[trigger] s[m]);
        let n = sel[j];
        assert(wanted.contains(n.kind));
        assert(spec_symbol_kind(n.kind) == Some(s[m].kind));
    }
}

/// What AST extraction yields for `content` in `language`: nothing without a grammar or a
/// syntax tree, else the records of the tree's nodes.
pub open spec fn spec_try_ast(file_key: Seq<char>, language: Seq<char>, content: Seq<char>) -> Option<
    (Seq<ChunkView>, Seq<SymbolView>),
> {
    match grammar_for(language) {
        None => None,
        Some(g) => match spec_syntax_nodes(g, content) {
            None => None,
            Some(nodes) => spec_ast_records(file_key, language, content, nodes),
        },
    }
}

fn try_ast_extract(file_key: &str, language: &str, content: &str) -> (r: Option<
    (Vec<ChunkRecord>, Vec<SymbolRecord>),
>)
    requires
        encode_utf8(content@).len() < i64::MAX,
    ensures
        r matches Some(p) ==> spec_try_ast(file_key@, language@, content@) == Some(
            (chunk_views(p.0@), symbol_views(p.1@)),
        ),
        r is None ==> spec_try_ast(file_key@, language@, content@) is None,
        r matches Some(p) ==> {
            &&& p.0@.len() > 0
            &&& forall|m: int|
                0 <= m < p.0@.len() ==> ast_chunk_shape(
                    #[trigger] chunk_views(p.0@)[m],
                    spec_chunk_kinds(language@),
                )
            &&& forall|m: int|
                0 <= m < p.1@.len() ==> ast_symbol_shape(
                    #[trigger] symbol_views(p.1@)[m],
                    spec_chunk_kinds(language@),
                )
        },
{
    let g = match ts_language_for(language) {
        Some(g) => g,
        None => {
            return None;
        },
    };
    let wanted = chunk_kinds_for(language);
    if wanted.len() == 0 {
        assert(spec_chunk_kinds(language@).len() > 0);
        return None;
    }
    let nodes = match syntax_nodes(&g, content) {
        Some(v) => v,
        None => {
            return None;
        },
    };
    proof {
        let nv = node_views(nodes@);
        assert forall|i: int| 0 <= i < nv.len() implies (#[trigger] nv[i]).start_row <= nv[i].end_row by {}
        lemma_ast_records_shape(file_key@, language@, content@, nv);
    }
    let r = ast_records(file_key, language, content, &nodes);
    if let Some(p) = &r {
        let ghost c = chunk_views(p.0@);
        let ghost sy = symbol_views(p.1@);
        assert(c.len() == p.0@.len());
        assert forall|m: int| 0 <= m < sy.len() implies ast_symbol_shape(
            #[trigger] sy[m],
            spec_chunk_kinds(language@),
        ) by {
            let t = spec_ast_records(file_key@, language@, content@, node_views(nodes@)).unwrap().1;
            assert(t == sy);
            assert(ast_symbol_shape(t[m], spec_chunk_kinds(language@)));
        }
    }
    r
}

/// What [`extract_chunks_and_symbols`] returns: the AST records and `true` when AST
/// extraction yields any, else 120-line windows overlapping by 20, line-pattern symbols
/// and `false`.
pub open spec fn spec_extract_chunks_and_symbols(
    file_key: Seq<char>,
    language: Seq<char>,
    content: Seq<char>,
) -> (Seq<ChunkView>, Seq<SymbolView>, bool) {
    match spec_try_ast(file_key, language, content) {
        Some((c, s)) => (c, s, true),
        None => (
            spec_chunk_by_lines(file_key, content, 120, 20),
            spec_extract_symbols(file_key, language, content),
            false,
        ),
    }
}

/// Chunks and symbols of a file: from its syntax tree where a grammar parses it and
/// yields chunks (flag `true`), else from line windows and line patterns (flag `false`).
pub fn extract_chunks_and_symbols(file_key: &str, language: &str, content: &str) -> (r: (
    Vec<ChunkRecord>,
    Vec<SymbolRecord>,
    bool,
))
    requires
        encode_utf8(content@).len() < i64::MAX,
    ensures
        (chunk_views(r.0@), symbol_views(r.1@), r.2) == spec_extract_chunks_and_symbols(
            file_key@,
            language@,
            content@,
        ),
        !r.2 ==> chunk_views(r.0@) == spec_chunk_by_lines(file_key@, content@, 120, 20)
            && symbol_views(r.1@) == spec_extract_symbols(file_key@, language@, content@),
        grammar_for(language@) is None ==> !r.2,
        r.2 ==> {
            &&& r.0@.len() > 0
            &&& forall|m: int|
                0 <= m < r.0@.len() ==> ast_chunk_shape(
                    #[trigger] chunk_views(r.0@)[m],
                    spec_chunk_kinds(language@),
                )
            &&& forall|m: int|
                0 <= m < r.1@.len() ==> ast_symbol_shape(
                    #[trigger] symbol_views(r.1@)[m],
                    spec_chunk_kinds(language@),
                )
        },
{
    if let Some((chunks, symbols)) = try_ast_extract(file_key, language, content) {
        return (chunks, symbols, true);
    }
    proof {
        lemma_utf8_len(content@);
    }
    let chunks = chunk_by_lines(file_key, content, 120, 20);
    let symbols = extract_symbols(file_key, language, content);
    (chunks, symbols, false)
}

/// A language without a grammar always takes the line path: 120-line windows overlapping
/// by 20, line-pattern symbols, and the flag `false`.
pub proof fn lemma_no_grammar_line_path(file_key: Seq<char>, language: Seq<char>, content: Seq<char>)
    requires
        grammar_for(language) is None,
    ensures
        spec_extract_chunks_and_symbols(file_key, language, content) == (
            spec_chunk_by_lines(file_key, content, 120, 20),
            spec_extract_symbols(file_key, language, content),
            false,
        ),
{
}

/// No file with content goes unindexed: whichever path it takes, it yields at least one chunk.
pub proof fn lemma_content_yields_chunks(file_key: Seq<char>, language: Seq<char>, content: Seq<char>)
    requires
        content.len() > 0,
    ensures
        spec_extract_chunks_and_symbols(file_key, language, content).0.len() > 0,
{
    if spec_try_ast(file_key, language, content) is None {
        let ls = lines(content);
        assert(ls.len() > 0);
        let w = line_windows(file_key, ls, 120, window_step(120, 20), 0);
        assert(w.len() > 0);
    }
}

/// Whether chunk `c` records the digest of its own text.
pub open spec fn hash_matches(c: ChunkView) -> bool {
    c.text_hash == spec_hash_hex(c.text)
}

proof fn lemma_window_hashes(file_key: Seq<char>, ls: Seq<Seq<char>>, size: int, step: int, start: int)
    ensures
        forall|k: int|
            0 <= k < line_windows(file_key, ls, size, step, start).len() ==> hash_matches(
                #[trigger] line_windows(file_key, ls, size, step, start)[k],
            ),
    decreases (if start < ls.len() {
        ls.len() - start
    } else {
        0
    }),
{
    let w = line_windows(file_key, ls, size, step, start);
    if !(start < 0 || start >= ls.len() || step < 1) {
        let end = window_end(ls.len() as int, size, start);
        if end != ls.len() {
            lemma_window_hashes(file_key, ls, size, step, start + step);
            let t = line_windows(file_key, ls, size, step, start + step);
            assert forall|k: int| 0 <= k < w.len() implies hash_matches(#[trigger] w[k]) by {
                if k > 0 {
                    assert(w[k] == t[k - 1]);
                }
            }
        }
    }
}

proof fn lemma_ast_chunk_hashes(file_key: Seq<char>, content: Seq<char>, sel: Seq<SyntaxNodeView>, k: int)
    ensures
        forall|m: int|
            0 <= m < ast_chunks(file_key, content, sel, k).len() ==> hash_matches(
                #[trigger] ast_chunks(file_key, content, sel, k)[m],
            ),
    decreases k,
{
    if k > 0 {
        lemma_ast_chunk_hashes(file_key, content, sel, k - 1);
        let p = ast_chunks(file_key, content, sel, k - 1);
        let q = ast_chunks(file_key, content, sel, k);
        assert forall|m: int| 0 <= m < q.len() implies hash_matches(#[trigger] q[m]) by {
            if m < p.len() {
                assert(q[m] == p[m]);
            }
        }
    }
}

/// Every chunk records the digest of its own text, whichever path made it.
pub proof fn lemma_chunks_carry_text_hash(file_key: Seq<char>, language: Seq<char>, content: Seq<char>)
    ensures
        forall|m: int|
            0 <= m < spec_extract_chunks_and_symbols(file_key, language, content).0.len() ==> hash_matches(
                #[trigger] spec_extract_chunks_and_symbols(file_key, language, content).0[m],
            ),
{
    match grammar_for(language) {
        Some(g) => match spec_syntax_nodes(g, content) {
            Some(nodes) => {
                let sel = selected(nodes, spec_chunk_kinds(language));
                lemma_ast_chunk_hashes(file_key, content, sel, sel.len() as int);
            },
            None => {},
        },
        None => {},
    }
    lemma_window_hashes(file_key, lines(content), 120, window_step(120, 20), 0);
}

/// The lengths and first characters of the language and node-kind names that the laws below
/// tell apart.
proof fn lemma_name_literals()
    ensures
        "typescript"@.len() == 10,
        "typescript"@[0] == 't',
        "javascript"@.len() == 10,
        "javascript"@[0] == 'j',
        "tsx"@.len() == 3,
        "tsx"@[0] == 't',
        "jsx"@.len() == 3,
        "jsx"@[0] == 'j',
        "rust"@.len() == 4,
        "rust"@[0] == 'r',
        "python"@.len() == 6,
        "python"@[0] == 'p',
        "go"@.len() == 2,
        "go"@[0] == 'g',
        "java"@.len() == 4,
        "java"@[0] == 'j',
        "cpp"@.len() == 3,
        "cpp"@[0] == 'c',
        "cpp-header"@.len() == 10,
        "cpp-header"@[0] == 'c',
        "c"@.len() == 1,
        "c"@[0] == 'c',
        "c-header"@.len() == 8,
        "c-header"@[0] == 'c',
        "function"@.len() == 8,
        "function"@[0] == 'f',
        "class"@.len() == 5,
        "class"@[0] == 'c',
        "function_item"@.len() == 13,
        "function_item"@[0] == 'f',
        "function_definition"@.len() == 19,
        "function_definition"@[0] == 'f',
        "function_declaration"@.len() == 20,
        "function_declaration"@[0] == 'f',
        "class_declaration"@.len() == 17,
        "class_declaration"@[0] == 'c',
        "class_specifier"@.len() == 15,
        "class_specifier"@[0] == 'c',
        "method_definition"@.len() == 17,
        "method_definition"@[0] == 'm',
        "method_declaration"@.len() == 18,
        "method_declaration"@[0] == 'm',
        "constructor_declaration"@.len() == 23,
        "constructor_declaration"@[0] == 'c',
        "class_definition"@.len() == 16,
        "class_definition"@[0] == 'c',
        "typescript"@[1] == 'y',
        "javascript"@[1] == 'a',
        "cpp-header"@[1] == 'p',
        "function_declaration"@[9] == 'd',
        "method_definition"@[7] == 'd',
{
    reveal_strlit("typescript");
    reveal_strlit("javascript");
    reveal_strlit("tsx");
    reveal_strlit("jsx");
    reveal_strlit("rust");
    reveal_strlit("python");
    reveal_strlit("go");
    reveal_strlit("java");
    reveal_strlit("cpp");
    reveal_strlit("cpp-header");
    reveal_strlit("c");
    reveal_strlit("c-header");
    reveal_strlit("function");
    reveal_strlit("class");
    reveal_strlit("function_item");
    reveal_strlit("function_definition");
    reveal_strlit("function_declaration");
    reveal_strlit("class_declaration");
    reveal_strlit("class_specifier");
    reveal_strlit("method_definition");
    reveal_strlit("method_declaration");
    reveal_strlit("constructor_declaration");
    reveal_strlit("class_definition");
}

/// The name read from a signature depends only on the text before its first `(`: whatever
/// follows that parenthesis (parameters, a body, calls in the body) leaves the name alone.
pub proof fn lemma_signature_name_before_first_paren(sig: Seq<char>, rest: Seq<char>)
    requires
        !sig.contains('('),
    ensures
        spec_name_from_signature(sig + seq!['('] + rest) == spec_name_from_signature(sig),
{
    let full = sig + seq!['('] + rest;
    assert forall|i: int| 0 <= i < sig.len() implies crate::text::in_class(
        #[trigger] full[i],
        CharClass::Except('('),
    ) by {
        assert(full[i] == sig[i]);
    }
    assert(full[sig.len() as int] == '(');
    crate::text::lemma_lead_is(full, CharClass::Except('('), sig.len() as int);
    assert forall|i: int| 0 <= i < sig.len() implies crate::text::in_class(
        #[trigger] sig[i],
        CharClass::Except('('),
    ) by {}
    crate::text::lemma_lead_is(sig, CharClass::Except('('), sig.len() as int);
    assert(before_char(full, '(') =~= sig);
    assert(before_char(sig, '(') =~= sig);
}

/// Line patterns are the same for every JavaScript-like language: TypeScript, TSX and JSX
/// lines yield exactly what the same JavaScript line yields.
pub proof fn lemma_js_like_line_patterns_agree(t: Seq<char>)
    ensures
        line_candidate("typescript"@, t) == line_candidate("javascript"@, t),
        line_candidate("tsx"@, t) == line_candidate("javascript"@, t),
        line_candidate("jsx"@, t) == line_candidate("javascript"@, t),
{
    lemma_name_literals();
    assert(is_js_like("typescript"@) && is_js_like("tsx"@) && is_js_like("jsx"@) && is_js_like("javascript"@));
    assert("typescript"@ != "rust"@ && "tsx"@ != "rust"@ && "jsx"@ != "rust"@ && "javascript"@ != "rust"@);
    assert("typescript"@ != "python"@ && "tsx"@ != "python"@ && "jsx"@ != "python"@ && "javascript"@ != "python"@);
    assert("typescript"@ != "go"@ && "tsx"@ != "go"@ && "jsx"@ != "go"@ && "javascript"@ != "go"@);
    assert("typescript"@ != "java"@ && "tsx"@ != "java"@ && "jsx"@ != "java"@ && "javascript"@ != "java"@);
    assert(!is_cpp_like("typescript"@) && !is_cpp_like("tsx"@) && !is_cpp_like("jsx"@) && !is_cpp_like("javascript"@));
    assert(!is_c_like("typescript"@) && !is_c_like("tsx"@) && !is_c_like("jsx"@) && !is_c_like("javascript"@));
}

/// Whatever kind of symbol the line patterns find in a language with a grammar, the syntax
/// tree path chunks a node kind of that symbol kind too: a function or class that the line
/// patterns see is also seen when the file is parsed.
pub proof fn lemma_line_kinds_are_chunked(language: Seq<char>, t: Seq<char>)
    requires
        grammar_for(language) is Some,
        line_candidate(language, t) is Some,
    ensures
        exists|k: Seq<char>|
            #[trigger] spec_chunk_kinds(language).contains(k) && spec_symbol_kind(k) == Some(
                line_candidate(language, t).unwrap().0,
            ),
{
    lemma_name_literals();
    let kind = line_candidate(language, t).unwrap().0;
    let ks = spec_chunk_kinds(language);
    if language == "rust"@ {
        assert(kind == "function"@);
        assert(ks[0] == "function_item"@);
        assert(spec_symbol_kind("function_item"@) == Some(kind));
        assert(ks.contains("function_item"@));
    } else if is_js_like(language) {
        if kind == "function"@ {
            assert(ks[0] == "function_declaration"@);
            assert(spec_symbol_kind("function_declaration"@) == Some(kind));
            assert(ks.contains("function_declaration"@));
        } else {
            assert(kind == "class"@);
            assert(ks[2] == "class_declaration"@);
            assert(spec_symbol_kind("class_declaration"@) == Some(kind));
            assert(ks.contains("class_declaration"@));
        }
    } else if language == "python"@ {
        assert(kind == "function"@);
        assert(ks[0] == "function_definition"@);
        assert(spec_symbol_kind("function_definition"@) == Some(kind));
        assert(ks.contains("function_definition"@));
    } else if language == "go"@ {
        assert(kind == "function"@);
        assert(ks[0] == "function_declaration"@);
        assert(spec_symbol_kind("function_declaration"@) == Some(kind));
        assert(ks.contains("function_declaration"@));
    } else if language == "java"@ {
        assert(kind == "class"@);
        assert(ks[0] == "class_declaration"@);
        assert(spec_symbol_kind("class_declaration"@) == Some(kind));
        assert(ks.contains("class_declaration"@));
    } else if is_cpp_like(language) {
        if kind == "function"@ {
            assert(ks[0] == "function_definition"@);
            assert(spec_symbol_kind("function_definition"@) == Some(kind));
            assert(ks.contains("function_definition"@));
        } else {
            assert(kind == "class"@);
            assert(ks[1] == "class_specifier"@);
            assert(spec_symbol_kind("class_specifier"@) == Some(kind));
            assert(ks.contains("class_specifier"@));
        }
    } else {
        assert(language == "c"@ || language == "c-header"@);
        assert(kind == "function"@);
        assert(ks[0] == "function_definition"@);
        assert(spec_symbol_kind("function_definition"@) == Some(kind));
        assert(ks.contains("function_definition"@));
    }
}

} // verus!
