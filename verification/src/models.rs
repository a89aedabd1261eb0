//! The values the application hands to its front end.
use vstd::prelude::*;
use crate::ingest::SnapshotReport;
use crate::text_index::SearchHit;

verus! {

/// Whether the backend is up, and where its database lives.
#[derive(Debug, Clone)]
pub struct HealthStatus {
    pub ok: bool,
    pub db_path: String,
}

/// What a full reindex of every root did.
#[derive(Debug, Clone)]
pub struct ReindexStatus {
    pub indexed: usize,
    pub removed: usize,
    pub failed: usize,
}

/// A search result as the front end shows it.
#[derive(Debug, Clone)]
pub struct SearchResult {
    pub title: String,
    pub path: String,
    pub snippet: String,
    pub file_type: String,
    pub modified_ts: i64,
}

/// The result shown for a hit: titled by its symbol name, or by its path when it has none.
pub fn search_result_from_hit(hit: SearchHit) -> (r: SearchResult)
    ensures
        r.title@ == (if hit.symbol_name@.len() == 0 {
            hit.path@
        } else {
            hit.symbol_name@
        }),
        r.path == hit.path,
        r.snippet == hit.content_excerpt,
        r.file_type == hit.language,
        r.modified_ts == 0,
{
    let title = if hit.symbol_name.as_str().is_empty() {
        hit.path.clone()
    } else {
        hit.symbol_name.clone()
    };
    SearchResult {
        title,
        path: hit.path,
        snippet: hit.content_excerpt,
        file_type: hit.language,
        modified_ts: 0,
    }
}

/// Whether `r` is the result shown for `hit`.
pub open spec fn result_of(hit: SearchHit, r: SearchResult) -> bool {
    &&& r.title@ == (if hit.symbol_name@.len() == 0 {
        hit.path@
    } else {
        hit.symbol_name@
    })
    &&& r.path == hit.path
    &&& r.snippet == hit.content_excerpt
    &&& r.file_type == hit.language
    &&& r.modified_ts == 0
}

/// The results shown for `found`, one for each hit and in the same order.
pub fn search_results(found: Vec<SearchHit>) -> (r: Vec<SearchResult>)
    ensures
        r@.len() == found@.len(),
        forall|i: int| 0 <= i < found@.len() ==> result_of(found@[i], #[trigger] r@[i]),
{
    let ghost hits = found@;
    let mut out: Vec<SearchResult> = Vec::new();
    for hit in it: found.into_iter()
        invariant
            it.seq() == hits,
            out@.len() == it.index(),
            forall|i: int| 0 <= i < out@.len() ==> result_of(hits[i], #[trigger] out@[i]),
    {
        out.push(search_result_from_hit(hit));
    }
    out
}

/// What a search of the index shows: nothing when no root is configured (`None`), else the
/// result for each hit of the first root's workspace, in order.
pub fn index_results(found: Option<Vec<SearchHit>>) -> (r: Vec<SearchResult>)
    ensures
        found is None ==> r@.len() == 0,
        found matches Some(hits) ==> {
            &&& r@.len() == hits@.len()
            &&& forall|i: int| 0 <= i < hits@.len() ==> result_of(hits@[i], #[trigger] r@[i])
        },
{
    match found {
        Some(hits) => search_results(hits),
        None => Vec::new(),
    }
}

/// The totals over the first `k` root outcomes: files indexed, files removed, and failures
/// (a root whose snapshot failed counts as one failure).
pub open spec fn reindex_totals(outcomes: Seq<Option<SnapshotReport>>, k: int) -> (int, int, int)
    decreases k,
{
    if k <= 0 {
        (0, 0, 0)
    } else {
        let t = reindex_totals(outcomes, k - 1);
        match outcomes[k - 1] {
            Some(r) => (
                t.0 + r.files_indexed,
                t.1 + r.removed,
                t.2 + r.files_failed,
            ),
            None => (t.0, t.1, t.2 + 1),
        }
    }
}

/// The totals only grow from one root outcome to the next.
pub proof fn lemma_totals_monotone(outcomes: Seq<Option<SnapshotReport>>, j: int, k: int)
    requires
        0 <= j <= k <= outcomes.len(),
    ensures
        0 <= reindex_totals(outcomes, j).0 <= reindex_totals(outcomes, k).0,
        0 <= reindex_totals(outcomes, j).1 <= reindex_totals(outcomes, k).1,
        0 <= reindex_totals(outcomes, j).2 <= reindex_totals(outcomes, k).2,
    decreases k,
{
    if k > 0 {
        if j < k {
            lemma_totals_monotone(outcomes, j, k - 1);
        } else {
            lemma_totals_monotone(outcomes, k - 1, k - 1);
        }
    }
}

/// The reindex status for the outcomes of snapshotting each root (`None` for a failed one).
pub fn reindex_status(outcomes: &Vec<Option<SnapshotReport>>) -> (r: ReindexStatus)
    requires
        reindex_totals(outcomes@, outcomes@.len() as int).0 <= usize::MAX,
        reindex_totals(outcomes@, outcomes@.len() as int).1 <= usize::MAX,
        reindex_totals(outcomes@, outcomes@.len() as int).2 <= usize::MAX,
    ensures
        r.indexed == reindex_totals(outcomes@, outcomes@.len() as int).0,
        r.removed == reindex_totals(outcomes@, outcomes@.len() as int).1,
        r.failed == reindex_totals(outcomes@, outcomes@.len() as int).2,
{
    let mut indexed: usize = 0;
    let mut removed: usize = 0;
    let mut failed: usize = 0;
    let mut i: usize = 0;
    while i < outcomes.len()
        invariant
            i <= outcomes@.len(),
            reindex_totals(outcomes@, outcomes@.len() as int).0 <= usize::MAX,
            reindex_totals(outcomes@, outcomes@.len() as int).1 <= usize::MAX,
            reindex_totals(outcomes@, outcomes@.len() as int).2 <= usize::MAX,
            indexed == reindex_totals(outcomes@, i as int).0,
            removed == reindex_totals(outcomes@, i as int).1,
            failed == reindex_totals(outcomes@, i as int).2,
        decreases outcomes@.len() - i,
    {
        proof {
            lemma_totals_monotone(outcomes@, i + 1, outcomes@.len() as int);
        }
        match &outcomes[i] {
            Some(rep) => {
                indexed = indexed + rep.files_indexed;
                removed = removed + rep.removed;
                failed = failed + rep.files_failed;
            },
            None => {
                failed = failed + 1;
            },
        }
        i += 1;
    }
    ReindexStatus { indexed, removed, failed }
}

/// The reindex status for the outcomes of snapshotting each root, or `None` when one of the
/// totals does not fit a `usize`.
pub fn reindex_status_checked(outcomes: &Vec<Option<SnapshotReport>>) -> (r: Option<ReindexStatus>)
    ensures
        r is Some <==> {
            &&& reindex_totals(outcomes@, outcomes@.len() as int).0 <= usize::MAX
            &&& reindex_totals(outcomes@, outcomes@.len() as int).1 <= usize::MAX
            &&& reindex_totals(outcomes@, outcomes@.len() as int).2 <= usize::MAX
        },
        r matches Some(st) ==> {
            &&& st.indexed == reindex_totals(outcomes@, outcomes@.len() as int).0
            &&& st.removed == reindex_totals(outcomes@, outcomes@.len() as int).1
            &&& st.failed == reindex_totals(outcomes@, outcomes@.len() as int).2
        },
{
    let ghost n = outcomes@.len() as int;
    let mut indexed: usize = 0;
    let mut removed: usize = 0;
    let mut failed: usize = 0;
    let mut i: usize = 0;
    while i < outcomes.len()
        invariant
            i <= outcomes@.len(),
            n == outcomes@.len(),
            indexed == reindex_totals(outcomes@, i as int).0,
            removed == reindex_totals(outcomes@, i as int).1,
            failed == reindex_totals(outcomes@, i as int).2,
        decreases outcomes@.len() - i,
    {
        proof {
            lemma_totals_monotone(outcomes@, i + 1, n);
        }
        let (di, dr, df) = match &outcomes[i] {
            Some(rep) => (rep.files_indexed, rep.removed, rep.files_failed),
            None => (0, 0, 1),
        };
        indexed = match indexed.checked_add(di) {
            Some(v) => v,
            None => {
                return None;
            },
        };
        removed = match removed.checked_add(dr) {
            Some(v) => v,
            None => {
                return None;
            },
        };
        failed = match failed.checked_add(df) {
            Some(v) => v,
            None => {
                return None;
            },
        };
        i += 1;
    }
    Some(ReindexStatus { indexed, removed, failed })
}

} // verus!
