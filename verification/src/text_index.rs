//! Full-text search results: which stored documents answer a query in a workspace, and
//! how each is shown.
use vstd::prelude::*;
use vstd::utf8::decode_utf8;
use vstd::utf8::encode_utf8;
use vstd::utf8::is_char_boundary;
use crate::text::chars_of;
use crate::text::is_lit;
use crate::text::push_all;
use crate::text::string_of;
use crate::text::trim;
use crate::text::trim_bounds;
use crate::text::CharClass;

verus! {

/// A document handed to the full-text index.
#[derive(Debug, Clone)]
pub struct IndexedDoc {
    pub workspace_id: String,
    pub kind: String,
    pub path: String,
    pub language: String,
    pub entity_id: String,
    pub symbol_name: String,
    pub content: String,
    pub start_line: i64,
    pub end_line: i64,
}

/// A document as the full-text index returns it for a query, with the bits of its `f32`
/// score; a field the document lacks is `None`.
#[derive(Debug, Clone)]
pub struct StoredDoc {
    pub score_bits: u32,
    pub workspace_id: Option<String>,
    pub kind: Option<String>,
    pub path: Option<String>,
    pub language: Option<String>,
    pub entity_id: Option<String>,
    pub symbol_name: Option<String>,
    pub content: Option<String>,
    pub start_line: Option<i64>,
    pub end_line: Option<i64>,
}

/// A search result, with the bits of its `f32` score.
#[derive(Debug, Clone)]
pub struct SearchHit {
    pub workspace_id: String,
    pub kind: String,
    pub path: String,
    pub language: String,
    pub entity_id: String,
    pub symbol_name: String,
    pub content_excerpt: String,
    pub start_line: i64,
    pub end_line: i64,
    pub score_bits: u32,
}

/// The characters of an optional string, or the empty string.
pub open spec fn text_or_empty(o: Option<String>) -> Seq<char> {
    match o {
        Some(s) => s@,
        None => seq![],
    }
}

/// The excerpt shown for `content`: its first 400 bytes and `...` when it is longer than
/// 400 bytes, else all of it.
pub open spec fn spec_excerpt(content: Seq<char>) -> Seq<char> {
    let b = encode_utf8(content);
    if b.len() > 400 {
        decode_utf8(b.subrange(0, 400)) + "..."@
    } else {
        content
    }
}

/// Whether the excerpt of `content` can be cut: it is at most 400 bytes long or byte 400
/// starts a character.
pub open spec fn excerpt_cuttable(content: Seq<char>) -> bool {
    let b = encode_utf8(content);
    b.len() <= 400 || is_char_boundary(b, 400)
}

/// UTF-8 encodes a concatenation piece by piece.
pub proof fn lemma_encode_concat(a: Seq<char>, b: Seq<char>)
    ensures
        encode_utf8(a + b) == encode_utf8(a) + encode_utf8(b),
    decreases a.len(),
{
    if a.len() > 0 {
        lemma_encode_concat(a.drop_first(), b);
        assert((a + b).drop_first() =~= a.drop_first() + b);
        assert((a + b)[0] == a[0]);
    } else {
        assert(a + b =~= b);
    }
}

/// The excerpt shown for `content`; it never takes more than 403 bytes, the 400 kept and
/// the three dots.
pub fn excerpt(content: &str) -> (r: String)
    requires
        excerpt_cuttable(content@),
    ensures
        r@ == spec_excerpt(content@),
        encode_utf8(r@).len() <= 403,
{
    if content.as_bytes().len() > 400 {
        let (head, _rest) = content.split_at(400);
        let mut v = chars_of(head);
        let dots = chars_of("...");
        push_all(&mut v, dots.as_slice());
        proof {
            let b = encode_utf8(content@);
            assert(encode_utf8(head@) =~= b.subrange(0, 400));
            vstd::utf8::encode_utf8_decode_utf8(head@);
            assert(decode_utf8(b.subrange(0, 400)) == head@);
            assert(v@ == head@ + "..."@);
            lemma_encode_concat(head@, "..."@);
            reveal_strlit("...");
            assert("..."@ =~= seq!['.', '.', '.']);
            reveal_with_fuel(encode_utf8, 4);
            assert(encode_utf8(seq!['.', '.', '.']).len() == 3);
        }
        string_of(v.as_slice())
    } else {
        content.to_owned()
    }
}

/// Whether `query` holds only whitespace.
pub fn is_blank(query: &str) -> (r: bool)
    ensures
        r == (trim(query@).len() == 0),
{
    let v = chars_of(query);
    assert(v@.subrange(0, v@.len() as int) =~= v@);
    let (a, b) = trim_bounds(v.as_slice(), 0, v.len(), CharClass::Whitespace);
    a == b
}

/// Whether a stored document belongs to `workspace_id` and is of one of `kinds`.
pub open spec fn doc_matches(d: StoredDoc, workspace_id: Seq<char>, kinds: Seq<Seq<char>>) -> bool {
    text_or_empty(d.workspace_id) == workspace_id && kinds.contains(text_or_empty(d.kind))
}

/// Whether every document that a query in `workspace_id` over `kinds` keeps can be
/// excerpted.
pub open spec fn docs_cuttable(docs: Seq<StoredDoc>, workspace_id: Seq<char>, kinds: Seq<Seq<char>>) -> bool {
    forall|i: int|
        0 <= i < docs.len() && doc_matches(#[trigger] docs[i], workspace_id, kinds)
            ==> excerpt_cuttable(text_or_empty(docs[i].content))
}

/// The hit shown for a stored document: missing text fields empty, missing lines zero,
/// content cut to its excerpt.
pub open spec fn hit_of(d: StoredDoc, h: SearchHit) -> bool {
    &&& h.workspace_id@ == text_or_empty(d.workspace_id)
    &&& h.kind@ == text_or_empty(d.kind)
    &&& h.path@ == text_or_empty(d.path)
    &&& h.language@ == text_or_empty(d.language)
    &&& h.entity_id@ == text_or_empty(d.entity_id)
    &&& h.symbol_name@ == text_or_empty(d.symbol_name)
    &&& h.content_excerpt@ == spec_excerpt(text_or_empty(d.content))
    &&& h.start_line == (match d.start_line {
        Some(l) => l,
        None => 0,
    })
    &&& h.end_line == (match d.end_line {
        Some(l) => l,
        None => 0,
    })
    &&& h.score_bits == d.score_bits
}

/// The positions, among the first `k` documents, of those that a query keeps.
pub open spec fn kept(docs: Seq<StoredDoc>, workspace_id: Seq<char>, kinds: Seq<Seq<char>>, k: int) -> Seq<int>
    decreases k,
{
    if k <= 0 {
        seq![]
    } else {
        kept(docs, workspace_id, kinds, k - 1) + if doc_matches(docs[k - 1], workspace_id, kinds) {
            seq![k - 1]
        } else {
            seq![]
        }
    }
}

/// The hits for a query over `docs`: none for a blank query; else, in order, one for each
/// document of `workspace_id` whose kind is one of `kinds`.
pub open spec fn spec_hits(
    query: Seq<char>,
    workspace_id: Seq<char>,
    kinds: Seq<Seq<char>>,
    docs: Seq<StoredDoc>,
    hits: Seq<SearchHit>,
) -> bool {
    if trim(query).len() == 0 {
        hits.len() == 0
    } else {
        let ks = kept(docs, workspace_id, kinds, docs.len() as int);
        &&& hits.len() == ks.len()
        &&& forall|i: int| 0 <= i < hits.len() ==> hit_of(docs[#[trigger] ks[i]], hits[i])
    }
}

fn text_of(o: &Option<String>) -> (r: String)
    ensures
        r@ == text_or_empty(*o),
{
    match o {
        Some(s) => s.clone(),
        None => String::new(),
    }
}

fn kind_in(kind: &[char], kinds: &Vec<&'static str>) -> (r: bool)
    ensures
        r == kinds@.map_values(|s: &str| s@).contains(kind@),
{
    let ghost kv = kinds@.map_values(|s: &str| s@);
    let mut j: usize = 0;
    while j < kinds.len()
        invariant
            j <= kinds@.len(),
            kv == kinds@.map_values(|s: &str| s@),
            forall|m: int| 0 <= m < j ==> kv[m] != kind@,
        decreases kinds@.len() - j,
    {
        if is_lit(kind, kinds[j]) {
            assert(kv[j as int] == kind@);
            return true;
        }
        j += 1;
    }
    false
}

/// The hits for `query` in `workspace_id` among `docs`, keeping the documents whose kind is
/// one of `kinds`.
pub fn collect_hits(workspace_id: &str, query: &str, kinds: &Vec<&'static str>, docs: &Vec<StoredDoc>) -> (r: Vec<
    SearchHit,
>)
    requires
        trim(query@).len() > 0 ==> docs_cuttable(docs@, workspace_id@, kinds@.map_values(|s: &str| s@)),
    ensures
        spec_hits(query@, workspace_id@, kinds@.map_values(|s: &str| s@), docs@, r@),
{
    let ghost kv = kinds@.map_values(|s: &str| s@);
    let mut out: Vec<SearchHit> = Vec::new();
    if is_blank(query) {
        return out;
    }
    assert(docs_cuttable(docs@, workspace_id@, kv));
    let ws = chars_of(workspace_id);
    let mut i: usize = 0;
    while i < docs.len()
        invariant
            i <= docs@.len(),
            ws@ == workspace_id@,
            kv == kinds@.map_values(|s: &str| s@),
            docs_cuttable(docs@, workspace_id@, kv),
            out@.len() == kept(docs@, workspace_id@, kv, i as int).len(),
            forall|k: int|
                0 <= k < out@.len() ==> hit_of(
                    docs@[#[trigger] kept(docs@, workspace_id@, kv, i as int)[k]],
                    out@[k],
                ),
        decreases docs@.len() - i,
    {
        let d = &docs[i];
        let dws = text_of(&d.workspace_id);
        let dkind = text_of(&d.kind);
        let dwsc = chars_of(dws.as_str());
        let dkc = chars_of(dkind.as_str());
        let ghost prev = out@;
        let ghost pk = kept(docs@, workspace_id@, kv, i as int);
        if crate::text::chars_eq(dwsc.as_slice(), ws.as_slice()) && kind_in(dkc.as_slice(), kinds) {
            assert(doc_matches(docs@[i as int], workspace_id@, kv));
            let content = text_of(&d.content);
            let h = SearchHit {
                workspace_id: dws,
                kind: dkind,
                path: text_of(&d.path),
                language: text_of(&d.language),
                entity_id: text_of(&d.entity_id),
                symbol_name: text_of(&d.symbol_name),
                content_excerpt: excerpt(content.as_str()),
                start_line: match d.start_line {
                    Some(l) => l,
                    None => 0,
                },
                end_line: match d.end_line {
                    Some(l) => l,
                    None => 0,
                },
                score_bits: d.score_bits,
            };
            out.push(h);
            assert(kept(docs@, workspace_id@, kv, i + 1) == pk.push(i as int));
            assert forall|k: int| 0 <= k < out@.len() implies hit_of(
                docs@[#[trigger] kept(docs@, workspace_id@, kv, i + 1)[k]],
                out@[k],
            ) by {
                if k < prev.len() {
                    assert(out@[k] == prev[k]);
                    assert(kept(docs@, workspace_id@, kv, i + 1)[k] == pk[k]);
                }
            }
        } else {
            assert(!doc_matches(docs@[i as int], workspace_id@, kv));
            assert(kept(docs@, workspace_id@, kv, i + 1) =~= pk);
        }
        i += 1;
    }
    out
}

/// The text kinds: whole files and chunks.
pub fn text_kinds() -> (r: Vec<&'static str>)
    ensures
        r@.map_values(|s: &str| s@) == seq!["file"@, "chunk"@],
{
    let mut v: Vec<&'static str> = Vec::new();
    v.push("file");
    v.push("chunk");
    assert(v@.map_values(|s: &str| s@) =~= seq!["file"@, "chunk"@]);
    v
}

/// The symbol kind.
pub fn symbol_kinds() -> (r: Vec<&'static str>)
    ensures
        r@.map_values(|s: &str| s@) == seq!["symbol"@],
{
    let mut v: Vec<&'static str> = Vec::new();
    v.push("symbol");
    assert(v@.map_values(|s: &str| s@) =~= seq!["symbol"@]);
    v
}

/// The file and chunk hits for `query` in `workspace_id` among `docs`.
pub fn search_text(workspace_id: &str, query: &str, docs: &Vec<StoredDoc>) -> (r: Vec<SearchHit>)
    requires
        trim(query@).len() > 0 ==> docs_cuttable(docs@, workspace_id@, seq!["file"@, "chunk"@]),
    ensures
        spec_hits(query@, workspace_id@, seq!["file"@, "chunk"@], docs@, r@),
{
    let kinds = text_kinds();
    collect_hits(workspace_id, query, &kinds, docs)
}

/// The symbol hits for `query` in `workspace_id` among `docs`.
pub fn search_symbols(workspace_id: &str, query: &str, docs: &Vec<StoredDoc>) -> (r: Vec<SearchHit>)
    requires
        trim(query@).len() > 0 ==> docs_cuttable(docs@, workspace_id@, seq!["symbol"@]),
    ensures
        spec_hits(query@, workspace_id@, seq!["symbol"@], docs@, r@),
{
    let kinds = symbol_kinds();
    collect_hits(workspace_id, query, &kinds, docs)
}

proof fn lemma_kept_matches(docs: Seq<StoredDoc>, workspace_id: Seq<char>, kinds: Seq<Seq<char>>, k: int)
    requires
        k <= docs.len(),
    ensures
        forall|m: int|
            0 <= m < kept(docs, workspace_id, kinds, k).len() ==> {
                let i = #[trigger] kept(docs, workspace_id, kinds, k)[m];
                0 <= i < k && doc_matches(docs[i], workspace_id, kinds)
            },
    decreases k,
{
    if k > 0 {
        lemma_kept_matches(docs, workspace_id, kinds, k - 1);
        let p = kept(docs, workspace_id, kinds, k - 1);
        let q = kept(docs, workspace_id, kinds, k);
        assert forall|m: int| 0 <= m < q.len() implies {
            let i = #[trigger] q[m];
            0 <= i < k && doc_matches(docs[i], workspace_id, kinds)
        } by {
            if m < p.len() {
                assert(q[m] == p[m]);
            }
        }
    }
}

/// A blank query finds nothing.
pub proof fn lemma_blank_query_no_hits(
    query: Seq<char>,
    workspace_id: Seq<char>,
    kinds: Seq<Seq<char>>,
    docs: Seq<StoredDoc>,
    hits: Seq<SearchHit>,
)
    requires
        trim(query).len() == 0,
        spec_hits(query, workspace_id, kinds, docs, hits),
    ensures
        hits.len() == 0,
{
}

/// A search stays in scope: every hit is of the workspace searched and of one of the kinds
/// asked for, and there are no more hits than documents.
pub proof fn lemma_hits_in_scope(
    query: Seq<char>,
    workspace_id: Seq<char>,
    kinds: Seq<Seq<char>>,
    docs: Seq<StoredDoc>,
    hits: Seq<SearchHit>,
)
    requires
        spec_hits(query, workspace_id, kinds, docs, hits),
    ensures
        hits.len() <= docs.len(),
        forall|i: int|
            0 <= i < hits.len() ==> (#[trigger] hits[i]).workspace_id@ == workspace_id
                && kinds.contains(hits[i].kind@),
{
    if trim(query).len() != 0 {
        let ks = kept(docs, workspace_id, kinds, docs.len() as int);
        lemma_kept_matches(docs, workspace_id, kinds, docs.len() as int);
        lemma_kept_len(docs, workspace_id, kinds, docs.len() as int);
        assert forall|i: int| 0 <= i < hits.len() implies (#[trigger] hits[i]).workspace_id@
            == workspace_id && kinds.contains(hits[i].kind@) by {
            assert(hit_of(docs[ks[i]], hits[i]));
            assert(doc_matches(docs[ks[i]], workspace_id, kinds));
        }
    }
}

proof fn lemma_kept_len(docs: Seq<StoredDoc>, workspace_id: Seq<char>, kinds: Seq<Seq<char>>, k: int)
    requires
        0 <= k,
    ensures
        kept(docs, workspace_id, kinds, k).len() <= k,
    decreases k,
{
    if k > 0 {
        lemma_kept_len(docs, workspace_id, kinds, k - 1);
    }
}

} // verus!
