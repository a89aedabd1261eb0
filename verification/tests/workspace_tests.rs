use seekr::cli::parse_usize;
use seekr::models::index_results;
use seekr::text_index::SearchHit;
use seekr::ingest::line_records;
use seekr::ingest::SnapshotTally;
use seekr::ingest::pruned_files;
use seekr::crawler::crawl_labels;
use seekr::paths::file_name_of;
use seekr::scanner::size_accepted;
use seekr::cli::arg_value;
use seekr::cli::join_path;
use seekr::cli::parse_limit;
use seekr::cli::resolve_paths;
use seekr::cli::usage;
use seekr::crawler::is_excluded;
use seekr::crawler::is_supported_text_file;
use seekr::crawler::ts_from_secs;
use seekr::digest::hash_hex;
use seekr::digest::hash_str;
use seekr::digest::stable_id;
use seekr::ingest::file_docs;
use seekr::ingest::file_id;
use seekr::ingest::resolve_workspace_id;
use seekr::ingest::status_from_record;
use seekr::ingest::workspace_status;
use seekr::lsp::default_capabilities;
use seekr::parser::chunk_by_lines;
use seekr::parser::extract_symbols;
use seekr::scanner::file_candidate;
use seekr::watcher::has_excluded_segment;
use seekr::workspace::detect_repo_meta;
use seekr::workspace::git_output_text;
use seekr::workspace::snapshot_id_at;
use seekr::workspace::workspace_id_for_root;
use seekr::workspace::WorkspaceRecord;

fn args(v: &[&str]) -> Vec<String> {
    v.iter().map(|s| s.to_string()).collect()
}

#[test]
fn usage_lists_the_commands() {
    assert_eq!(
        usage(),
        "seekr-cli commands:\n  snapshot --root <path> [--db <path>] [--index-dir <path>]\n  search-text --root <path> --query <text> [--limit <n>] [--db <path>] [--index-dir <path>]\n  search-symbols --root <path> --query <text> [--limit <n>] [--db <path>] [--index-dir <path>]"
    );
}

#[test]
fn flag_values_follow_their_flag() {
    let a = args(&["seekr-cli", "search-text", "--root", "/w", "--query", "fn main"]);
    assert_eq!(arg_value(&a, "--root"), Some("/w".to_string()));
    assert_eq!(arg_value(&a, "--query"), Some("fn main".to_string()));
    assert_eq!(arg_value(&a, "--db"), None);
    let trailing = args(&["x", "--root"]);
    assert_eq!(arg_value(&trailing, "--root"), None);
    let twice = args(&["--root", "a", "--root", "b"]);
    assert_eq!(arg_value(&twice, "--root"), Some("a".to_string()));
    assert_eq!(arg_value(&args(&[]), "--root"), None);
}

#[test]
fn limit_defaults_to_fifty() {
    assert_eq!(parse_limit(&args(&["x", "--limit", "7"])), 7);
    assert_eq!(parse_limit(&args(&["x", "--limit", "+12"])), 12);
    assert_eq!(parse_limit(&args(&["x", "--limit", "007"])), 7);
    assert_eq!(parse_limit(&args(&["x", "--limit", "-3"])), 50);
    assert_eq!(parse_limit(&args(&["x", "--limit", "ten"])), 50);
    assert_eq!(parse_limit(&args(&["x", "--limit", ""])), 50);
    assert_eq!(parse_limit(&args(&["x", "--limit", "99999999999999999999999"])), 50);
    assert_eq!(parse_limit(&args(&["x"])), 50);
}

#[test]
fn paths_default_under_dot_seekr() {
    let (db, idx) = resolve_paths(&args(&["x", "snapshot", "--root", "/w"]), "/w");
    assert_eq!(db, "/w/.seekr/seekr.db");
    assert_eq!(idx, "/w/.seekr/seekr-index");
    let (db, idx) = resolve_paths(&args(&["--db", "/tmp/d.db", "--index-dir", "/tmp/i"]), "/w");
    assert_eq!(db, "/tmp/d.db");
    assert_eq!(idx, "/tmp/i");
    let (db, _) = resolve_paths(&args(&[]), "/w/");
    assert_eq!(db, "/w/.seekr/seekr.db");
    let (db, _) = resolve_paths(&args(&[]), "");
    assert_eq!(db, ".seekr/seekr.db");
    assert_eq!(join_path("a", "b"), "a/b");
}

#[test]
fn digests_are_lowercase_sha256_hex() {
    assert_eq!(
        hash_str("abc"),
        "ba7816bf8f01cfea414140de5dae2223b00361a396177a9cb410ff61f20015ad"
    );
    assert_eq!(
        hash_hex(&[]),
        "e3b0c44298fc1c149afbf4c8996fb92427ae41e4649b934ca495991b7852b855"
    );
    assert_eq!(
        stable_id("chunk", "a.txt:0:2"),
        "chunk_74728e001b36928a3b38fa06dab84be539162077aa356372dd7e2936c8cb34c9"
    );
    let d = hash_str("anything at all");
    assert_eq!(d.len(), 64);
    assert!(d.chars().all(|c| c.is_ascii_digit() || ('a'..='f').contains(&c)));
}

#[test]
fn workspace_ids_hash_the_root_path() {
    assert_eq!(
        workspace_id_for_root("/w"),
        "d1bb8ca354673cd575d31d952490058c9943aef39d5a9553fb4a21ab7a59a19d"
    );
    assert_eq!(
        file_id("ws1", "src/a.rs"),
        "file_962bd63e6c63450878b0806bdde74e6a47b2e059feb579525a1064b0c0026473"
    );
}

#[test]
fn snapshot_ids_name_workspace_and_time() {
    assert_eq!(snapshot_id_at("w1", 1700000000), "snap_w1_1700000000");
    assert_eq!(snapshot_id_at("w1", 0), "snap_w1_0");
    assert_eq!(snapshot_id_at("w1", -42), "snap_w1_-42");
    assert_eq!(snapshot_id_at("w", i64::MIN), format!("snap_w_{}", i64::MIN));
}

#[test]
fn repo_meta_for_plain_and_git_roots() {
    assert_eq!(detect_repo_meta(false, Some("main".into()), None), ("filesystem".to_string(), None, None));
    assert_eq!(
        detect_repo_meta(true, Some("main".into()), Some("abc".into())),
        ("git".to_string(), Some("main".to_string()), Some("abc".to_string()))
    );
    assert_eq!(git_output_text(true, b"  main\n".to_vec()), Some("main".to_string()));
    assert_eq!(git_output_text(true, b" \n".to_vec()), None);
    assert_eq!(git_output_text(false, b"main".to_vec()), None);
    assert_eq!(git_output_text(true, vec![0xff]), None);
}

fn record(id: &str, root: &str) -> WorkspaceRecord {
    WorkspaceRecord {
        workspace_id: id.to_string(),
        root_path: root.to_string(),
        repo_type: "git".to_string(),
        head_ref: Some("main".to_string()),
        head_commit: None,
        index_state: "ready".to_string(),
        last_snapshot_at: Some(5),
        last_incremental_at: None,
        schema_version: 1,
    }
}

#[test]
fn workspace_status_reports_record_or_missing_root() {
    let s = workspace_status(Some(record("id1", "/w")), "/w").unwrap();
    assert_eq!(s.workspace_id, "id1");
    assert_eq!(s.root_path, "/w");
    assert_eq!(s.repo_type, "git");
    assert_eq!(s.head_ref, Some("main".to_string()));
    assert_eq!(s.index_state, "ready");
    assert_eq!(s.last_snapshot_at, Some(5));
    assert_eq!(workspace_status(None, "/nowhere").unwrap_err(), "workspace not found: /nowhere");
    assert_eq!(status_from_record(record("id2", "/v")).workspace_id, "id2");
}

#[test]
fn workspace_id_prefers_stored_one() {
    assert_eq!(resolve_workspace_id(Some(record("stored", "/w")), "/w"), "stored");
    assert_eq!(resolve_workspace_id(None, "/w"), workspace_id_for_root("/w"));
}

#[test]
fn file_contributes_file_chunk_and_symbol_docs() {
    let cand = file_candidate("/w/a.rs".into(), "a.rs".into(), "rust", 20, 0, b"fn main() {\n}\n".to_vec()).unwrap();
    let chunks = chunk_by_lines("k", &cand.content, 120, 20);
    let symbols = extract_symbols("k", "rust", &cand.content);
    let docs = file_docs("ws", "file_x", &cand, &chunks, &symbols);
    assert_eq!(docs.len(), 3);
    assert_eq!(docs[0].kind, "file");
    assert_eq!(docs[0].entity_id, "file_x");
    assert_eq!(docs[0].content, "fn main() {\n}\n");
    assert_eq!((docs[0].start_line, docs[0].end_line), (1, 2));
    assert_eq!(docs[1].kind, "chunk");
    assert_eq!(docs[1].entity_id, chunks[0].chunk_id);
    assert_eq!(docs[1].content, "fn main() {\n}");
    assert_eq!(docs[2].kind, "symbol");
    assert_eq!(docs[2].symbol_name, "main");
    assert_eq!(docs[2].content, "fn main() {");
    assert!(docs.iter().all(|d| d.workspace_id == "ws" && d.path == "a.rs" && d.language == "rust"));
}

#[test]
fn crawl_and_watch_exclusions() {
    assert!(is_excluded(true, "node_modules"));
    assert!(!is_excluded(false, "node_modules"));
    assert!(!is_excluded(true, "src"));
    assert!(has_excluded_segment("/home/u/p/target/debug/x.txt"));
    assert!(has_excluded_segment("__pycache__/m.md"));
    assert!(!has_excluded_segment("/home/u/p/targets/x.txt"));
    assert!(is_supported_text_file("/a/b/README.MD"));
    assert!(is_supported_text_file("notes.txt"));
    assert!(!is_supported_text_file("main.rs"));
    assert!(!is_supported_text_file("txt"));
}

#[test]
fn timestamps_from_seconds() {
    assert_eq!(ts_from_secs(Some(1_700_000_000)), 1_700_000_000);
    assert_eq!(ts_from_secs(None), 0);
    assert_eq!(ts_from_secs(Some(u64::MAX)), -1);
}

#[test]
fn default_capabilities_are_idle() {
    let caps = default_capabilities();
    assert_eq!(caps.len(), 2);
    assert_eq!(caps[0].language, "rust");
    assert_eq!(caps[1].language, "typescript");
    assert!(caps.iter().all(|c| !c.available && !c.configured && !c.active && !c.failed));
}

#[test]
fn snapshot_tally_counts_and_gathers_docs() {
    let a = file_candidate("/w/a.py".into(), "a.py".into(), "python", 9, 0, b"def f():\n".to_vec()).unwrap();
    let b = file_candidate("/w/b.py".into(), "b.py".into(), "python", 1, 0, b"x".to_vec()).unwrap();
    let mut tally = SnapshotTally::new("ws1".to_string());
    let id_a = tally.file_id_for(&a);
    assert_eq!(id_a, file_id("ws1", "a.py"));
    let (chunks, symbols) = line_records(&a);
    assert_eq!(chunks.len(), 1);
    assert_eq!(symbols.len(), 1);
    assert_eq!(symbols[0].name, "f");
    tally.settle(&id_a, &a, Some((chunks, symbols)));
    let id_b = tally.file_id_for(&b);
    tally.settle(&id_b, &b, None);
    assert_eq!(tally.keep_paths, vec!["a.py".to_string(), "b.py".to_string()]);
    assert_eq!(tally.docs.len(), 3);
    assert_eq!(tally.docs[0].kind, "file");
    assert_eq!(tally.docs[0].entity_id, id_a);
    assert_eq!(tally.docs[2].kind, "symbol");
    let report = tally.report("snap_ws1_1".to_string(), 4);
    assert_eq!(report.workspace_id, "ws1");
    assert_eq!(report.snapshot_id, "snap_ws1_1");
    assert_eq!(report.files_seen, 2);
    assert_eq!(report.files_indexed, 1);
    assert_eq!(report.files_failed, 1);
    assert_eq!(report.removed, 4);
}

#[test]
fn pruning_spares_met_paths() {
    let stored = vec![
        ("f1".to_string(), "a.rs".to_string()),
        ("f2".to_string(), "gone.rs".to_string()),
        ("f3".to_string(), "b.rs".to_string()),
        ("f4".to_string(), "old/c.rs".to_string()),
    ];
    let keep = vec!["b.rs".to_string(), "a.rs".to_string()];
    assert_eq!(pruned_files(&stored, &keep), vec!["f2".to_string(), "f4".to_string()]);
    assert!(pruned_files(&stored, &vec!["a.rs".into(), "gone.rs".into(), "b.rs".into(), "old/c.rs".into()]).is_empty());
    assert_eq!(pruned_files(&stored, &vec![]).len(), 4);
}

#[test]
fn crawl_labels_fall_back() {
    assert_eq!(crawl_labels("/home/u/Notes.TXT"), ("Notes.TXT".to_string(), "TXT".to_string()));
    assert_eq!(crawl_labels("/home/u/README"), ("README".to_string(), "txt".to_string()));
    assert_eq!(crawl_labels("/"), ("unknown".to_string(), "txt".to_string()));
}

#[test]
fn file_names_follow_path_rules() {
    assert_eq!(file_name_of("a/b.rs"), Some(vec!['b', '.', 'r', 's']));
    assert_eq!(file_name_of("a/b/"), Some(vec!['b']));
    assert_eq!(file_name_of("a/.."), None);
    assert_eq!(file_name_of("/"), None);
}

#[test]
fn size_limit_is_two_mebibytes() {
    assert!(size_accepted(2 * 1024 * 1024));
    assert!(!size_accepted(2 * 1024 * 1024 + 1));
    assert!(size_accepted(0));
}

#[test]
fn usize_parsing_follows_std() {
    for text in ["0", "42", "+7", "007", "", "+", "-1", "-0", " 1", "1 ", "1_000", "١", "18446744073709551615", "18446744073709551616", "99999999999999999999999"] {
        assert_eq!(parse_usize(text), text.parse::<usize>().ok(), "{text:?}");
    }
}

fn hit_at(path: &str, symbol: &str) -> SearchHit {
    SearchHit {
        workspace_id: "w".to_string(),
        kind: "file".to_string(),
        path: path.to_string(),
        language: "md".to_string(),
        entity_id: "e".to_string(),
        symbol_name: symbol.to_string(),
        content_excerpt: "x".to_string(),
        start_line: 1,
        end_line: 1,
        score_bits: 0,
    }
}

#[test]
fn index_results_are_empty_without_roots() {
    assert!(index_results(None).is_empty());
    let r = index_results(Some(vec![hit_at("a.md", ""), hit_at("b.md", "Top")]));
    assert_eq!(r.len(), 2);
    assert_eq!(r[0].title, "a.md");
    assert_eq!(r[1].title, "Top");
    assert_eq!(r[1].path, "b.md");
}
