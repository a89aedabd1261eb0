//! Answers to lookups: search hits, symbol and chunk lookups, file excerpts.
use vstd::prelude::*;
use crate::parser::join_lines;
use crate::parser::join_range;
use crate::text::chars_of;
use crate::text::lines;
use crate::text::lines_of;
use crate::text::string_of;
use crate::text::trim;
use crate::text_index::docs_cuttable;
use crate::text_index::spec_hits;
use crate::text_index::SearchHit;
use crate::text_index::StoredDoc;

verus! {

/// Where a symbol is defined.
#[derive(Debug, Clone)]
pub struct SymbolLookupHit {
    pub symbol_id: String,
    pub file_id: String,
    pub path: String,
    pub language: String,
    pub name: String,
    pub qualified_name: String,
    pub kind: String,
    pub signature: Option<String>,
    pub start_line: i64,
    pub end_line: i64,
}

/// A stored chunk with the file it belongs to.
#[derive(Debug, Clone)]
pub struct ChunkLookupHit {
    pub chunk_id: String,
    pub file_id: String,
    pub path: String,
    pub language: String,
    pub kind: String,
    pub start_line: i64,
    pub end_line: i64,
    pub text: String,
}

/// A range of lines of a stored file.
#[derive(Debug, Clone)]
pub struct FileExcerptHit {
    pub file_id: String,
    pub path: String,
    pub language: String,
    pub start_line: i64,
    pub end_line: i64,
    pub excerpt: String,
}

/// An error met while indexing.
#[derive(Debug, Clone)]
pub struct IndexErrorHit {
    pub path: Option<String>,
    pub message: String,
    pub created_at: i64,
}

/// The file and chunk hits for `query` in `workspace_id` among `docs`.
pub fn search_text(workspace_id: &str, query: &str, docs: &Vec<StoredDoc>) -> (r: Vec<SearchHit>)
    requires
        trim(query@).len() > 0 ==> docs_cuttable(docs@, workspace_id@, seq!["file"@, "chunk"@]),
    ensures
        spec_hits(query@, workspace_id@, seq!["file"@, "chunk"@], docs@, r@),
{
    crate::text_index::search_text(workspace_id, query, docs)
}

/// The symbol hits for `query` in `workspace_id` among `docs`.
pub fn search_symbols(workspace_id: &str, query: &str, docs: &Vec<StoredDoc>) -> (r: Vec<SearchHit>)
    requires
        trim(query@).len() > 0 ==> docs_cuttable(docs@, workspace_id@, seq!["symbol"@]),
    ensures
        spec_hits(query@, workspace_id@, seq!["symbol"@], docs@, r@),
{
    crate::text_index::search_symbols(workspace_id, query, docs)
}

/// The zero-based line range `[lo, hi)` that lines `start_line..=end_line` (counted from
/// one; `start_line` raised to one, `end_line` to `start_line`) cover among `n` lines.
pub open spec fn excerpt_bounds(n: int, start_line: int, end_line: int) -> (int, int) {
    let s = if start_line > 1 {
        start_line
    } else {
        1
    };
    let e0 = if end_line > start_line {
        end_line
    } else {
        start_line
    };
    let e = if e0 > 1 {
        e0
    } else {
        1
    };
    (
        if s - 1 < n {
            s - 1
        } else {
            n
        },
        if e < n {
            e
        } else {
            n
        },
    )
}

/// Lines `start_line..=end_line` of `content`, joined with `\n`.
pub open spec fn spec_excerpt_lines(content: Seq<char>, start_line: int, end_line: int) -> Seq<char> {
    let ls = lines(content);
    let b = excerpt_bounds(ls.len() as int, start_line, end_line);
    join_lines(ls.subrange(b.0, b.1))
}

/// Lines `start_line..=end_line` (counted from one) of `content`, joined with `\n`; a start
/// below one counts as one and an end below the start as the start.
pub fn excerpt_lines(content: &str, start_line: i64, end_line: i64) -> (r: String)
    ensures
        r@ == spec_excerpt_lines(content@, start_line as int, end_line as int),
{
    let cv = chars_of(content);
    let ls = lines_of(cv.as_slice());
    let n = ls.len();
    let s: i64 = if start_line > 1 {
        start_line
    } else {
        1
    };
    let e0: i64 = if end_line > start_line {
        end_line
    } else {
        start_line
    };
    let e: i64 = if e0 > 1 {
        e0
    } else {
        1
    };
    let lo: usize = if ((s - 1) as u64) < (n as u64) {
        (s - 1) as usize
    } else {
        n
    };
    let hi: usize = if (e as u64) < (n as u64) {
        e as usize
    } else {
        n
    };
    let v = join_range(&ls, lo, hi);
    string_of(v.as_slice())
}

/// The excerpt of a stored file between two lines.
pub fn file_excerpt_hit(
    file_id: String,
    path: String,
    language: String,
    content: &str,
    start_line: i64,
    end_line: i64,
) -> (r: FileExcerptHit)
    ensures
        r.file_id == file_id,
        r.path == path,
        r.language == language,
        r.start_line == start_line,
        r.end_line == end_line,
        r.excerpt@ == spec_excerpt_lines(content@, start_line as int, end_line as int),
{
    FileExcerptHit {
        file_id,
        path,
        language,
        start_line,
        end_line,
        excerpt: excerpt_lines(content, start_line, end_line),
    }
}

} // verus!
