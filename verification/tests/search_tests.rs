use seekr::models::reindex_status;
use seekr::models::reindex_status_checked;
use seekr::models::search_result_from_hit;
use seekr::models::search_results;
use seekr::ingest::SnapshotReport;
use seekr::query::excerpt_lines;
use seekr::query::file_excerpt_hit;
use seekr::query::search_symbols;
use seekr::query::search_text;
use seekr::search::fts_query;
use seekr::text_index::excerpt;
use seekr::text_index::is_blank;
use seekr::text_index::SearchHit;
use seekr::text_index::StoredDoc;

fn doc(ws: &str, kind: &str, path: &str, content: &str) -> StoredDoc {
    StoredDoc {
        score_bits: 1.5f32.to_bits(),
        workspace_id: Some(ws.to_string()),
        kind: Some(kind.to_string()),
        path: Some(path.to_string()),
        language: Some("rust".to_string()),
        entity_id: Some(format!("id_{path}")),
        symbol_name: None,
        content: Some(content.to_string()),
        start_line: Some(3),
        end_line: None,
    }
}

#[test]
fn excerpt_cuts_long_content_at_four_hundred_bytes() {
    let short = "a".repeat(400);
    assert_eq!(excerpt(&short), short);
    let long = "b".repeat(401);
    assert_eq!(excerpt(&long), format!("{}...", "b".repeat(400)));
    let multi = format!("{}é{}", "c".repeat(398), "d".repeat(10));
    assert_eq!(excerpt(&multi), format!("{}é...", "c".repeat(398)));
    let wide = "é".repeat(300);
    assert_eq!(excerpt(&wide), format!("{}...", "é".repeat(200)));
    assert!(excerpt(&wide).len() <= 403);
}

#[test]
fn blank_queries() {
    assert!(is_blank(""));
    assert!(is_blank(" \t\n"));
    assert!(!is_blank(" x "));
}

#[test]
fn text_search_keeps_workspace_files_and_chunks_in_order() {
    let docs = vec![
        doc("w1", "file", "a.rs", "alpha"),
        doc("w2", "file", "b.rs", "beta"),
        doc("w1", "symbol", "c.rs", "gamma"),
        doc("w1", "chunk", "d.rs", "delta"),
    ];
    let hits = search_text("w1", "anything", &docs);
    assert_eq!(hits.len(), 2);
    assert_eq!(hits[0].path, "a.rs");
    assert_eq!(hits[0].kind, "file");
    assert_eq!(hits[0].workspace_id, "w1");
    assert_eq!(hits[0].content_excerpt, "alpha");
    assert_eq!(hits[0].entity_id, "id_a.rs");
    assert_eq!(hits[0].symbol_name, "");
    assert_eq!(hits[0].start_line, 3);
    assert_eq!(hits[0].end_line, 0);
    assert_eq!(f32::from_bits(hits[0].score_bits), 1.5);
    assert_eq!(hits[1].path, "d.rs");
    assert_eq!(hits[1].kind, "chunk");
}

#[test]
fn symbol_search_keeps_only_symbols() {
    let docs = vec![doc("w1", "file", "a.rs", "alpha"), doc("w1", "symbol", "c.rs", "fn gamma()")];
    let hits = search_symbols("w1", "gamma", &docs);
    assert_eq!(hits.len(), 1);
    assert_eq!(hits[0].path, "c.rs");
    assert_eq!(hits[0].kind, "symbol");
}

#[test]
fn blank_query_finds_nothing() {
    let docs = vec![doc("w1", "file", "a.rs", "alpha")];
    assert!(search_text("w1", "   ", &docs).is_empty());
    assert!(search_symbols("w1", "", &docs).is_empty());
    let uncuttable = vec![doc("w1", "file", "u.rs", &format!("a{}", "é".repeat(200)))];
    assert!(search_text("w1", " ", &uncuttable).is_empty());
}

#[test]
fn docs_missing_fields_read_as_empty() {
    let d = StoredDoc {
        score_bits: 0,
        workspace_id: Some("w".to_string()),
        kind: Some("file".to_string()),
        path: None,
        language: None,
        entity_id: None,
        symbol_name: None,
        content: None,
        start_line: None,
        end_line: None,
    };
    let hits = search_text("w", "q", &vec![d.clone()]);
    assert_eq!(hits.len(), 1);
    assert_eq!(hits[0].path, "");
    assert_eq!(hits[0].content_excerpt, "");
    assert_eq!(hits[0].start_line, 0);
    let no_kind = StoredDoc { kind: None, ..d };
    assert!(search_text("w", "q", &vec![no_kind]).is_empty());
}

#[test]
fn file_excerpt_lines_are_clamped() {
    let content = "one\ntwo\nthree\nfour";
    assert_eq!(excerpt_lines(content, 2, 3), "two\nthree");
    assert_eq!(excerpt_lines(content, 0, 1), "one");
    assert_eq!(excerpt_lines(content, -5, -9), "one");
    assert_eq!(excerpt_lines(content, 3, 1), "three");
    assert_eq!(excerpt_lines(content, 3, 99), "three\nfour");
    assert_eq!(excerpt_lines(content, 9, 12), "");
    let hit = file_excerpt_hit("f1".to_string(), "p.rs".to_string(), "rust".to_string(), content, 4, 4);
    assert_eq!(hit.file_id, "f1");
    assert_eq!(hit.path, "p.rs");
    assert_eq!(hit.language, "rust");
    assert_eq!(hit.start_line, 4);
    assert_eq!(hit.end_line, 4);
    assert_eq!(hit.excerpt, "four");
}

#[test]
fn fts_query_trims_and_refuses_blank() {
    assert_eq!(fts_query("  hello world \n"), Some("hello world".to_string()));
    assert_eq!(fts_query(" \t "), None);
}

fn hit(path: &str, symbol: &str) -> SearchHit {
    SearchHit {
        workspace_id: "w".to_string(),
        kind: "chunk".to_string(),
        path: path.to_string(),
        language: "go".to_string(),
        entity_id: "e".to_string(),
        symbol_name: symbol.to_string(),
        content_excerpt: "text".to_string(),
        start_line: 1,
        end_line: 2,
        score_bits: 0,
    }
}

#[test]
fn results_are_titled_by_symbol_or_path() {
    let r = search_result_from_hit(hit("a.go", ""));
    assert_eq!(r.title, "a.go");
    assert_eq!(r.path, "a.go");
    assert_eq!(r.snippet, "text");
    assert_eq!(r.file_type, "go");
    assert_eq!(r.modified_ts, 0);
    let all = search_results(vec![hit("a.go", "Serve"), hit("b.go", "")]);
    assert_eq!(all.len(), 2);
    assert_eq!(all[0].title, "Serve");
    assert_eq!(all[1].title, "b.go");
}

fn report(indexed: usize, removed: usize, failed: usize) -> SnapshotReport {
    SnapshotReport {
        workspace_id: "w".to_string(),
        snapshot_id: "s".to_string(),
        files_seen: indexed + failed,
        files_indexed: indexed,
        files_failed: failed,
        removed,
    }
}

#[test]
fn reindex_sums_reports_and_counts_failed_roots() {
    let s = reindex_status(&vec![Some(report(3, 1, 2)), None, Some(report(4, 0, 1))]);
    assert_eq!((s.indexed, s.removed, s.failed), (7, 1, 4));
    let empty = reindex_status(&vec![]);
    assert_eq!((empty.indexed, empty.removed, empty.failed), (0, 0, 0));
}

#[test]
fn checked_reindex_refuses_totals_past_usize() {
    let s = reindex_status_checked(&vec![Some(report(3, 1, 2)), None]).unwrap();
    assert_eq!((s.indexed, s.removed, s.failed), (3, 1, 3));
    let e = reindex_status_checked(&vec![]).unwrap();
    assert_eq!((e.indexed, e.removed, e.failed), (0, 0, 0));
    assert!(reindex_status_checked(&vec![Some(report(usize::MAX, 0, 0)), Some(report(1, 0, 0))]).is_none());
    assert!(reindex_status_checked(&vec![Some(report(0, 0, usize::MAX)), None]).is_none());
}
