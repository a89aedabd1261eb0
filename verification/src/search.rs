//! Searching the indexed documents table.
use vstd::prelude::*;
use crate::text::chars_of;
use crate::text::string_of;
use crate::text::trim;
use crate::text::trim_chars;

verus! {

/// A row of the document search.
#[derive(Debug, Clone)]
pub struct SearchRow {
    pub title: String,
    pub path: String,
    pub snippet: String,
    pub file_type: String,
    pub modified_ts: i64,
}

/// The full-text query for `query`: its trimmed text, or `None` when that is empty (a
/// blank query matches nothing).
pub fn fts_query(query: &str) -> (r: Option<String>)
    ensures
        r matches Some(q) ==> q@ == trim(query@) && q@.len() > 0,
        r is None ==> trim(query@).len() == 0,
{
    let v = chars_of(query);
    assert(v@.subrange(0, v@.len() as int) =~= v@);
    let t = trim_chars(v.as_slice(), 0, v.len());
    if t.len() == 0 {
        None
    } else {
        Some(string_of(t.as_slice()))
    }
}

} // verus!
