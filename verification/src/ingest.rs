//! Indexing a workspace: file identifiers, the documents a file contributes to the
//! full-text index, and the status reported for a workspace.
use vstd::prelude::*;
use vstd::utf8::encode_utf8;
use crate::digest::hash_hex;
use crate::digest::spec_hex;
use crate::digest::spec_sha256;
use crate::parser::chunk_by_lines;
use crate::parser::chunk_views;
use crate::parser::extract_symbols;
use crate::parser::spec_chunk_by_lines;
use crate::parser::spec_extract_symbols;
use crate::parser::symbol_views;
use crate::parser::ChunkRecord;
use crate::parser::SymbolRecord;
use crate::scanner::FileCandidate;
use crate::text::chars_of;
use crate::text::lines;
use crate::text::lines_of;
use crate::text::push_all;
use crate::text::string_of;
use crate::text_index::IndexedDoc;
use crate::workspace::workspace_id_for_root;
use crate::workspace::WorkspaceRecord;

verus! {

/// What a snapshot of a workspace did.
#[derive(Debug, Clone)]
pub struct SnapshotReport {
    pub workspace_id: String,
    pub snapshot_id: String,
    pub files_seen: usize,
    pub files_indexed: usize,
    pub files_failed: usize,
    pub removed: usize,
}

/// The state of a workspace as reported to callers.
#[derive(Debug, Clone)]
pub struct WorkspaceStatus {
    pub workspace_id: String,
    pub root_path: String,
    pub repo_type: String,
    pub head_ref: Option<String>,
    pub head_commit: Option<String>,
    pub index_state: String,
    pub last_snapshot_at: Option<i64>,
    pub last_incremental_at: Option<i64>,
}

/// `file_` and the hex SHA-256 digest of the workspace identifier's bytes followed by the
/// relative path's bytes.
pub open spec fn spec_file_id(workspace_id: Seq<char>, rel_path: Seq<char>) -> Seq<char> {
    "file_"@ + spec_hex(spec_sha256(encode_utf8(workspace_id) + encode_utf8(rel_path)))
}

/// The identifier of the file at `rel_path` in a workspace.
pub fn file_id(workspace_id: &str, rel_path: &str) -> (r: String)
    ensures
        r@ == spec_file_id(workspace_id@, rel_path@),
{
    let a = workspace_id.as_bytes();
    let b = rel_path.as_bytes();
    let mut bytes: Vec<u8> = Vec::new();
    let mut i: usize = 0;
    while i < a.len()
        invariant
            i <= a@.len(),
            bytes@ == a@.take(i as int),
        decreases a@.len() - i,
    {
        bytes.push(a[i]);
        assert(a@.take(i + 1) =~= a@.take(i as int).push(a@[i as int]));
        i += 1;
    }
    assert(a@.take(a@.len() as int) =~= a@);
    let mut j: usize = 0;
    while j < b.len()
        invariant
            j <= b@.len(),
            bytes@ == a@ + b@.take(j as int),
        decreases b@.len() - j,
    {
        bytes.push(b[j]);
        assert(b@.take(j + 1) =~= b@.take(j as int).push(b@[j as int]));
        j += 1;
    }
    assert(b@.take(b@.len() as int) =~= b@);
    let h = hash_hex(bytes.as_slice());
    let mut out = chars_of("file_");
    let hc = chars_of(h.as_str());
    push_all(&mut out, hc.as_slice());
    string_of(out.as_slice())
}

/// The status reported for a stored workspace: its fields, without the schema version.
pub open spec fn status_of(rec: WorkspaceRecord, s: WorkspaceStatus) -> bool {
    &&& s.workspace_id == rec.workspace_id
    &&& s.root_path == rec.root_path
    &&& s.repo_type == rec.repo_type
    &&& s.head_ref == rec.head_ref
    &&& s.head_commit == rec.head_commit
    &&& s.index_state == rec.index_state
    &&& s.last_snapshot_at == rec.last_snapshot_at
    &&& s.last_incremental_at == rec.last_incremental_at
}

/// The status reported for a stored workspace.
pub fn status_from_record(rec: WorkspaceRecord) -> (r: WorkspaceStatus)
    ensures
        status_of(rec, r),
{
    WorkspaceStatus {
        workspace_id: rec.workspace_id,
        root_path: rec.root_path,
        repo_type: rec.repo_type,
        head_ref: rec.head_ref,
        head_commit: rec.head_commit,
        index_state: rec.index_state,
        last_snapshot_at: rec.last_snapshot_at,
        last_incremental_at: rec.last_incremental_at,
    }
}

/// The status of the workspace rooted at `root_path`, given what the store holds for it:
/// an error naming the root when it holds nothing.
pub fn workspace_status(found: Option<WorkspaceRecord>, root_path: &str) -> (r: Result<
    WorkspaceStatus,
    String,
>)
    ensures
        found matches Some(rec) ==> (r matches Ok(s) && status_of(rec, s)),
        found is None ==> (r matches Err(m) && m@ == "workspace not found: "@ + root_path@),
{
    match found {
        Some(rec) => Ok(status_from_record(rec)),
        None => {
            let mut m = chars_of("workspace not found: ");
            let rc = chars_of(root_path);
            push_all(&mut m, rc.as_slice());
            Err(string_of(m.as_slice()))
        },
    }
}

/// The identifier of the workspace rooted at `root_path`: the stored one if the store
/// holds the workspace, else the one derived from the path.
pub fn resolve_workspace_id(stored: Option<WorkspaceRecord>, root_path: &str) -> (r: String)
    ensures
        stored matches Some(rec) ==> r == rec.workspace_id,
        stored is None ==> r@ == crate::digest::spec_hash_hex(root_path@),
{
    match stored {
        Some(rec) => rec.workspace_id,
        None => workspace_id_for_root(root_path),
    }
}

/// `d` is the document with these fields.
pub open spec fn doc_is(
    d: IndexedDoc,
    workspace_id: Seq<char>,
    kind: Seq<char>,
    path: Seq<char>,
    language: Seq<char>,
    entity_id: Seq<char>,
    symbol_name: Seq<char>,
    content: Seq<char>,
    start_line: int,
    end_line: int,
) -> bool {
    &&& d.workspace_id@ == workspace_id
    &&& d.kind@ == kind
    &&& d.path@ == path
    &&& d.language@ == language
    &&& d.entity_id@ == entity_id
    &&& d.symbol_name@ == symbol_name
    &&& d.content@ == content
    &&& d.start_line == start_line
    &&& d.end_line == end_line
}

/// The documents that an indexed file contributes: one for the whole file (lines one to
/// its line count), then one per chunk, then one per symbol (its signature as content).
pub open spec fn file_docs_are(
    docs: Seq<IndexedDoc>,
    workspace_id: Seq<char>,
    file_id: Seq<char>,
    cand: FileCandidate,
    chunks: Seq<ChunkRecord>,
    symbols: Seq<SymbolRecord>,
) -> bool {
    &&& docs.len() == 1 + chunks.len() + symbols.len()
    &&& doc_is(
        docs[0],
        workspace_id,
        "file"@,
        cand.rel_path@,
        cand.language@,
        file_id,
        seq![],
        cand.content@,
        1,
        lines(cand.content@).len() as int,
    )
    &&& forall|i: int|
        0 <= i < chunks.len() ==> doc_is(
            #[trigger] docs[1 + i],
            workspace_id,
            "chunk"@,
            cand.rel_path@,
            cand.language@,
            chunks[i].chunk_id@,
            seq![],
            chunks[i].text@,
            chunks[i].start_line as int,
            chunks[i].end_line as int,
        )
    &&& forall|j: int|
        0 <= j < symbols.len() ==> doc_is(
            #[trigger] docs[1 + chunks.len() + j],
            workspace_id,
            "symbol"@,
            cand.rel_path@,
            cand.language@,
            symbols[j].symbol_id@,
            symbols[j].name@,
            crate::text_index::text_or_empty(symbols[j].signature),
            symbols[j].start_line as int,
            symbols[j].end_line as int,
        )
}

/// The documents that an indexed file contributes to the full-text index.
pub fn file_docs(
    workspace_id: &str,
    file_id: &str,
    cand: &FileCandidate,
    chunks: &Vec<ChunkRecord>,
    symbols: &Vec<SymbolRecord>,
) -> (r: Vec<IndexedDoc>)
    requires
        cand.content@.len() < i64::MAX,
    ensures
        file_docs_are(r@, workspace_id@, file_id@, *cand, chunks@, symbols@),
{
    let cv = chars_of(cand.content.as_str());
    let ls = lines_of(cv.as_slice());
    proof {
        crate::text::lemma_lines_len(cand.content@);
    }
    let mut out: Vec<IndexedDoc> = Vec::new();
    out.push(
        IndexedDoc {
            workspace_id: workspace_id.to_owned(),
            kind: "file".to_owned(),
            path: cand.rel_path.clone(),
            language: cand.language.clone(),
            entity_id: file_id.to_owned(),
            symbol_name: String::new(),
            content: cand.content.clone(),
            start_line: 1,
            end_line: ls.len() as i64,
        },
    );
    let mut i: usize = 0;
    while i < chunks.len()
        invariant
            i <= chunks@.len(),
            out@.len() == 1 + i,
            doc_is(
                out@[0],
                workspace_id@,
                "file"@,
                cand.rel_path@,
                cand.language@,
                file_id@,
                seq![],
                cand.content@,
                1,
                lines(cand.content@).len() as int,
            ),
            forall|k: int|
                0 <= k < i ==> doc_is(
                    #[trigger] out@[1 + k],
                    workspace_id@,
                    "chunk"@,
                    cand.rel_path@,
                    cand.language@,
                    chunks@[k].chunk_id@,
                    seq![],
                    chunks@[k].text@,
                    chunks@[k].start_line as int,
                    chunks@[k].end_line as int,
                ),
        decreases chunks@.len() - i,
    {
        let c = &chunks[i];
        out.push(
            IndexedDoc {
                workspace_id: workspace_id.to_owned(),
                kind: "chunk".to_owned(),
                path: cand.rel_path.clone(),
                language: cand.language.clone(),
                entity_id: c.chunk_id.clone(),
                symbol_name: String::new(),
                content: c.text.clone(),
                start_line: c.start_line,
                end_line: c.end_line,
            },
        );
        i += 1;
    }
    let mut j: usize = 0;
    while j < symbols.len()
        invariant
            j <= symbols@.len(),
            out@.len() == 1 + chunks@.len() + j,
            doc_is(
                out@[0],
                workspace_id@,
                "file"@,
                cand.rel_path@,
                cand.language@,
                file_id@,
                seq![],
                cand.content@,
                1,
                lines(cand.content@).len() as int,
            ),
            forall|k: int|
                0 <= k < chunks@.len() ==> doc_is(
                    #[trigger] out@[1 + k],
                    workspace_id@,
                    "chunk"@,
                    cand.rel_path@,
                    cand.language@,
                    chunks@[k].chunk_id@,
                    seq![],
                    chunks@[k].text@,
                    chunks@[k].start_line as int,
                    chunks@[k].end_line as int,
                ),
            forall|k: int|
                0 <= k < j ==> doc_is(
                    #[trigger] out@[1 + chunks@.len() + k],
                    workspace_id@,
                    "symbol"@,
                    cand.rel_path@,
                    cand.language@,
                    symbols@[k].symbol_id@,
                    symbols@[k].name@,
                    crate::text_index::text_or_empty(symbols@[k].signature),
                    symbols@[k].start_line as int,
                    symbols@[k].end_line as int,
                ),
        decreases symbols@.len() - j,
    {
        let s = &symbols[j];
        let content = match &s.signature {
            Some(sig) => sig.clone(),
            None => String::new(),
        };
        out.push(
            IndexedDoc {
                workspace_id: workspace_id.to_owned(),
                kind: "symbol".to_owned(),
                path: cand.rel_path.clone(),
                language: cand.language.clone(),
                entity_id: s.symbol_id.clone(),
                symbol_name: s.name.clone(),
                content,
                start_line: s.start_line,
                end_line: s.end_line,
            },
        );
        j += 1;
    }
    out
}

/// The chunks and symbols that a snapshot stores for a file: 120-line windows overlapping by
/// 20 and line-pattern symbols, both keyed by the file's relative path.
pub fn line_records(cand: &FileCandidate) -> (r: (Vec<ChunkRecord>, Vec<SymbolRecord>))
    requires
        cand.content@.len() < i64::MAX,
    ensures
        chunk_views(r.0@) == spec_chunk_by_lines(cand.rel_path@, cand.content@, 120, 20),
        symbol_views(r.1@) == spec_extract_symbols(cand.rel_path@, cand.language@, cand.content@),
{
    let chunks = chunk_by_lines(cand.rel_path.as_str(), cand.content.as_str(), 120, 20);
    let symbols = extract_symbols(cand.rel_path.as_str(), cand.language.as_str(), cand.content.as_str());
    (chunks, symbols)
}

/// The running account of a snapshot of one workspace: the relative paths of the files met,
/// the documents gathered for the full-text index, and how many files were indexed and
/// how many failed.
pub struct SnapshotTally {
    pub workspace_id: String,
    pub keep_paths: Vec<String>,
    pub docs: Vec<IndexedDoc>,
    pub indexed: usize,
    pub failed: usize,
}

impl SnapshotTally {
    /// Every file met has been settled once, as indexed or as failed.
    pub open spec fn wf(&self) -> bool {
        self.keep_paths@.len() == self.indexed + self.failed
    }

    /// The account of a snapshot that has met no file yet.
    pub fn new(workspace_id: String) -> (r: Self)
        ensures
            r.wf(),
            r.workspace_id == workspace_id,
            r.keep_paths@.len() == 0,
            r.docs@.len() == 0,
            r.indexed == 0,
            r.failed == 0,
    {
        SnapshotTally { workspace_id, keep_paths: Vec::new(), docs: Vec::new(), indexed: 0, failed: 0 }
    }

    /// The id under which this snapshot stores the file `cand`.
    pub fn file_id_for(&self, cand: &FileCandidate) -> (id: String)
        ensures
            id@ == spec_file_id(self.workspace_id@, cand.rel_path@),
    {
        file_id(self.workspace_id.as_str(), cand.rel_path.as_str())
    }

    /// Settles a file met by the snapshot: its relative path is kept whatever became of it.
    /// If the file, its chunks and its symbols were all stored (`stored` holds those chunks
    /// and symbols), its documents join the batch for the full-text index and it counts as
    /// indexed; if storing any of them failed (`None`), it counts as failed.
    pub fn settle(
        &mut self,
        file_id: &str,
        cand: &FileCandidate,
        stored: Option<(Vec<ChunkRecord>, Vec<SymbolRecord>)>,
    )
        requires
            old(self).wf(),
            cand.content@.len() < i64::MAX,
        ensures
            final(self).wf(),
            final(self).workspace_id == old(self).workspace_id,
            final(self).keep_paths@ == old(self).keep_paths@.push(cand.rel_path),
            stored is None ==> {
                &&& final(self).failed == old(self).failed + 1
                &&& final(self).indexed == old(self).indexed
                &&& final(self).docs@ == old(self).docs@
            },
            stored matches Some((chunks, symbols)) ==> {
                &&& final(self).indexed == old(self).indexed + 1
                &&& final(self).failed == old(self).failed
                &&& final(self).docs@.len() >= old(self).docs@.len()
                &&& final(self).docs@.subrange(0, old(self).docs@.len() as int) == old(self).docs@
                &&& file_docs_are(
                    final(self).docs@.subrange(
                        old(self).docs@.len() as int,
                        final(self).docs@.len() as int,
                    ),
                    old(self).workspace_id@,
                    file_id@,
                    *cand,
                    chunks@,
                    symbols@,
                )
            },
    {
        self.keep_paths.push(cand.rel_path.clone());
        let met = self.keep_paths.len();
        assert(met == old(self).indexed + old(self).failed + 1);
        match stored {
            Some((chunks, symbols)) => {
                let ghost before = self.docs@;
                let mut fresh = file_docs(self.workspace_id.as_str(), file_id, cand, &chunks, &symbols);
                let ghost added = fresh@;
                self.docs.append(&mut fresh);
                assert(self.docs@.subrange(0, before.len() as int) =~= before);
                assert(self.docs@.subrange(before.len() as int, self.docs@.len() as int) =~= added);
                self.indexed = self.indexed + 1;
            },
            None => {
                self.failed = self.failed + 1;
            },
        }
    }

    /// The report of the finished snapshot, with `removed` files pruned: every file met is
    /// counted once, as indexed or as failed.
    pub fn report(&self, snapshot_id: String, removed: usize) -> (r: SnapshotReport)
        requires
            self.wf(),
        ensures
            r.workspace_id == self.workspace_id,
            r.snapshot_id == snapshot_id,
            r.files_seen == self.keep_paths@.len(),
            r.files_indexed == self.indexed,
            r.files_failed == self.failed,
            r.files_indexed + r.files_failed == r.files_seen,
            r.removed == removed,
    {
        SnapshotReport {
            workspace_id: self.workspace_id.clone(),
            snapshot_id,
            files_seen: self.keep_paths.len(),
            files_indexed: self.indexed,
            files_failed: self.failed,
            removed,
        }
    }
}

/// The stored files (`(file_id, path)` pairs) that a snapshot prunes: those whose path it did
/// not meet, in stored order.
pub open spec fn spec_pruned(stored: Seq<(String, String)>, keep_paths: Seq<Seq<char>>, k: int) -> Seq<Seq<char>>
    decreases k,
{
    if k <= 0 {
        seq![]
    } else {
        spec_pruned(stored, keep_paths, k - 1) + if keep_paths.contains(stored[k - 1].1@) {
            seq![]
        } else {
            seq![stored[k - 1].0@]
        }
    }
}

/// The identifiers of the stored files whose paths the snapshot did not meet.
pub fn pruned_files(stored: &Vec<(String, String)>, keep_paths: &Vec<String>) -> (r: Vec<String>)
    ensures
        r@.map_values(|s: String| s@) == spec_pruned(
            stored@,
            keep_paths@.map_values(|s: String| s@),
            stored@.len() as int,
        ),
{
    let ghost kv = keep_paths@.map_values(|s: String| s@);
    let mut out: Vec<String> = Vec::new();
    let mut i: usize = 0;
    while i < stored.len()
        invariant
            i <= stored@.len(),
            kv == keep_paths@.map_values(|s: String| s@),
            out@.map_values(|s: String| s@) == spec_pruned(stored@, kv, i as int),
        decreases stored@.len() - i,
    {
        let path = &stored[i].1;
        let mut kept = false;
        let mut j: usize = 0;
        while j < keep_paths.len()
            invariant
                i < stored@.len(),
                j <= keep_paths@.len(),
                kv == keep_paths@.map_values(|s: String| s@),
                *path == stored@[i as int].1,
                kept == exists|m: int| 0 <= m < j && kv[m] == path@,
            decreases keep_paths@.len() - j,
        {
            if keep_paths[j] == *path {
                assert(kv[j as int] == path@);
                kept = true;
            }
            j += 1;
        }
        let ghost prev = out@;
        if !kept {
            out.push(stored[i].0.clone());
            assert(out@.map_values(|s: String| s@) =~= prev.map_values(|s: String| s@).push(
                stored@[i as int].0@,
            ));
        } else {
            assert(kv.contains(path@));
        }
        proof {
            if !kept {
                assert forall|m: int| 0 <= m < kv.len() implies kv[m] != path@ by {}
                assert(!kv.contains(stored@[i as int].1@));
            }
        }
        i += 1;
    }
    out
}

/// Pruning spares every file the snapshot met: each pruned identifier is that of a stored
/// file whose path was not met, and no more files are pruned than are stored.
pub proof fn lemma_pruned_unmet(stored: Seq<(String, String)>, keep_paths: Seq<Seq<char>>, k: int)
    requires
        0 <= k <= stored.len(),
    ensures
        spec_pruned(stored, keep_paths, k).len() <= k,
        forall|m: int|
            0 <= m < spec_pruned(stored, keep_paths, k).len() ==> exists|i: int|
                0 <= i < k && #[trigger] spec_pruned(stored, keep_paths, k)[m] == stored[i].0@
                    && !keep_paths.contains(stored[i].1@),
    decreases k,
{
    if k > 0 {
        lemma_pruned_unmet(stored, keep_paths, k - 1);
        let p = spec_pruned(stored, keep_paths, k - 1);
        let q = spec_pruned(stored, keep_paths, k);
        assert forall|m: int| 0 <= m < q.len() implies exists|i: int|
            0 <= i < k && #[trigger] q[m] == stored[i].0@ && !keep_paths.contains(stored[i].1@) by {
            if m < p.len() {
                assert(q[m] == p[m]);
                let i = choose|i: int|
                    0 <= i < k - 1 && #[trigger] p[m] == stored[i].0@ && !keep_paths.contains(stored[i].1@);
                assert(0 <= i < k && q[m] == stored[i].0@ && !keep_paths.contains(stored[i].1@));
            } else {
                assert(q[m] == stored[k - 1].0@);
            }
        }
    }
}

} // verus!
