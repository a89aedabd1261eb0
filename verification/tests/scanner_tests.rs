use seekr::paths::extension_of;
use seekr::scanner::default_excludes_list;
use seekr::scanner::extension_to_language;
use seekr::scanner::file_candidate;
use seekr::scanner::has_nul;
use seekr::scanner::hash_content;
use seekr::scanner::lowercase_extension;
use seekr::scanner::scan_language;
use seekr::scanner::MAX_FILE_BYTES;

#[test]
fn supports_c_cpp_and_headers() {
    assert_eq!(extension_to_language("main.c"), Some("c"));
    assert_eq!(extension_to_language("main.cpp"), Some("cpp"));
    assert_eq!(extension_to_language("main.cc"), Some("cpp"));
    assert_eq!(extension_to_language("main.cxx"), Some("cpp"));
    assert_eq!(extension_to_language("main.h"), Some("c-header"));
    assert_eq!(extension_to_language("main.hpp"), Some("cpp-header"));
    assert_eq!(extension_to_language("main.hh"), Some("cpp-header"));
    assert_eq!(extension_to_language("main.hxx"), Some("cpp-header"));
}

#[test]
fn extension_case_does_not_matter() {
    assert_eq!(extension_to_language("src/LIB.RS"), Some("rust"));
    assert_eq!(extension_to_language("a/b/App.TSX"), Some("tsx"));
    assert_eq!(extension_to_language("notes.Md"), Some("markdown"));
    assert_eq!(extension_to_language("conf.YML"), Some("yaml"));
}

#[test]
fn other_extensions_and_no_extension() {
    assert_eq!(extension_to_language("x.py"), Some("python"));
    assert_eq!(extension_to_language("x.kt"), Some("kotlin"));
    assert_eq!(extension_to_language("x.json"), Some("json"));
    assert_eq!(extension_to_language("Cargo.toml"), Some("toml"));
    assert_eq!(extension_to_language("Makefile"), None);
    assert_eq!(extension_to_language(".bashrc"), None);
    assert_eq!(extension_to_language("archive.tar.gz"), None);
    assert_eq!(extension_to_language("dir.rs/file"), None);
}

#[test]
fn extension_follows_path_rules() {
    assert_eq!(extension_of("a/b.c"), Some(vec!['c']));
    assert_eq!(extension_of("a/b.tar.gz"), Some(vec!['g', 'z']));
    assert_eq!(extension_of("a/b."), Some(vec![]));
    assert_eq!(extension_of("a/.hidden"), None);
    assert_eq!(extension_of("a/b.rs/"), Some(vec!['r', 's']));
    assert_eq!(extension_of("a/b.rs/."), Some(vec!['r', 's']));
    assert_eq!(extension_of(".."), None);
    assert_eq!(extension_of(""), None);
    assert_eq!(lowercase_extension("X.CPP"), Some(vec!['c', 'p', 'p']));
}

#[test]
fn scan_skips_excluded_directories() {
    assert_eq!(scan_language("repo/src/main.rs"), Some("rust"));
    assert_eq!(scan_language("repo/node_modules/pkg/index.js"), None);
    assert_eq!(scan_language("repo/.git/hooks/x.py"), None);
    assert_eq!(scan_language("repo/build/gen.c"), None);
    assert_eq!(scan_language("repo/builder/gen.c"), Some("c"));
    assert_eq!(scan_language("repo/readme.txt"), None);
    assert_eq!(default_excludes_list().len(), 11);
}

#[test]
fn nul_bytes_are_found() {
    assert!(has_nul(&[1, 2, 0, 3]));
    assert!(!has_nul(&[1, 2, 3]));
    assert!(!has_nul(&[]));
}

#[test]
fn content_hash_is_sha256_hex() {
    assert_eq!(
        hash_content("abc"),
        "ba7816bf8f01cfea414140de5dae2223b00361a396177a9cb410ff61f20015ad"
    );
    assert_eq!(
        hash_content(""),
        "e3b0c44298fc1c149afbf4c8996fb92427ae41e4649b934ca495991b7852b855"
    );
}

#[test]
fn candidate_keeps_text_files() {
    let c = file_candidate(
        "/w/src/a.rs".to_string(),
        "src/a.rs".to_string(),
        "rust",
        3,
        42,
        b"abc".to_vec(),
    )
    .unwrap();
    assert_eq!(c.path, "/w/src/a.rs");
    assert_eq!(c.rel_path, "src/a.rs");
    assert_eq!(c.language, "rust");
    assert_eq!(c.size_bytes, 3);
    assert_eq!(c.mtime_ns, 42);
    assert_eq!(c.content, "abc");
    assert_eq!(
        c.content_hash,
        "ba7816bf8f01cfea414140de5dae2223b00361a396177a9cb410ff61f20015ad"
    );
}

#[test]
fn candidate_refuses_large_binary_or_non_utf8_files() {
    let p = || "/w/a.rs".to_string();
    let r = || "a.rs".to_string();
    assert!(file_candidate(p(), r(), "rust", MAX_FILE_BYTES + 1, 0, b"x".to_vec()).is_none());
    assert!(file_candidate(p(), r(), "rust", MAX_FILE_BYTES, 0, b"x".to_vec()).is_some());
    assert!(file_candidate(p(), r(), "rust", 2, 0, vec![b'a', 0]).is_none());
    assert!(file_candidate(p(), r(), "rust", 2, 0, vec![0xff, 0xfe]).is_none());
    assert_eq!(MAX_FILE_BYTES, 2 * 1024 * 1024);
}
