//! Deciding which files of a workspace are indexed, in which language, and with what
//! content.
use vstd::prelude::*;
use vstd::utf8::decode_utf8;
use vstd::utf8::valid_utf8;
use crate::digest::hash_str;
use crate::digest::spec_hash_hex;
use crate::paths::extension_of;
use crate::paths::has_segment;
use crate::paths::has_segment_in;
use crate::paths::path_extension;
use crate::parser::grammar_for;
use crate::text::all_ascii;
use crate::text::ascii_lower;
use crate::text::is_lit;
use crate::text::spec_to_lowercase;
use crate::text::string_of;
use crate::text::to_lowercase;
use crate::text::utf8_string;

verus! {

/// A file chosen for indexing, with its text.
#[derive(Debug, Clone)]
pub struct FileCandidate {
    pub path: String,
    pub rel_path: String,
    pub language: String,
    pub size_bytes: i64,
    pub mtime_ns: i64,
    pub content_hash: String,
    pub content: String,
}

/// Files larger than this many bytes are not indexed.
pub const MAX_FILE_BYTES: u64 = 2097152;

/// The directory names that a scan never enters.
pub open spec fn default_excludes() -> Seq<Seq<char>> {
    seq![
        ".git"@,
        "node_modules"@,
        "dist"@,
        "build"@,
        "target"@,
        ".next"@,
        "coverage"@,
        ".venv"@,
        "venv"@,
        "__pycache__"@,
        ".idea"@,
    ]
}

/// The directory names that a scan never enters.
pub fn default_excludes_list() -> (r: Vec<&'static str>)
    ensures
        r@.map_values(|s: &str| s@) == default_excludes(),
{
    let mut v: Vec<&'static str> = Vec::new();
    v.push(".git");
    v.push("node_modules");
    v.push("dist");
    v.push("build");
    v.push("target");
    v.push(".next");
    v.push("coverage");
    v.push(".venv");
    v.push("venv");
    v.push("__pycache__");
    v.push(".idea");
    assert(v@.map_values(|s: &str| s@) =~= default_excludes());
    v
}

/// The language indexed for a lowercase file extension.
pub open spec fn language_of_extension(ext: Seq<char>) -> Option<Seq<char>> {
    if ext == "c"@ {
        Some("c"@)
    } else if ext == "h"@ {
        Some("c-header"@)
    } else if ext == "cpp"@ || ext == "cc"@ || ext == "cxx"@ {
        Some("cpp"@)
    } else if ext == "hpp"@ || ext == "hh"@ || ext == "hxx"@ {
        Some("cpp-header"@)
    } else if ext == "rs"@ {
        Some("rust"@)
    } else if ext == "ts"@ {
        Some("typescript"@)
    } else if ext == "tsx"@ {
        Some("tsx"@)
    } else if ext == "js"@ {
        Some("javascript"@)
    } else if ext == "jsx"@ {
        Some("jsx"@)
    } else if ext == "py"@ {
        Some("python"@)
    } else if ext == "go"@ {
        Some("go"@)
    } else if ext == "java"@ {
        Some("java"@)
    } else if ext == "kt"@ {
        Some("kotlin"@)
    } else if ext == "json"@ {
        Some("json"@)
    } else if ext == "yaml"@ || ext == "yml"@ {
        Some("yaml"@)
    } else if ext == "toml"@ {
        Some("toml"@)
    } else if ext == "md"@ {
        Some("markdown"@)
    } else {
        None
    }
}

/// The language of a file, by its extension, lowercased.
pub open spec fn spec_extension_language(path: Seq<char>) -> Option<Seq<char>> {
    match path_extension(path) {
        Some(e) => language_of_extension(spec_to_lowercase(e)),
        None => None,
    }
}

fn language_for_extension(e: &[char]) -> (r: Option<&'static str>)
    ensures
        r matches Some(s) ==> language_of_extension(e@) == Some(s@),
        r is None ==> language_of_extension(e@) is None,
{
    if is_lit(e, "c") {
        Some("c")
    } else if is_lit(e, "h") {
        Some("c-header")
    } else if is_lit(e, "cpp") || is_lit(e, "cc") || is_lit(e, "cxx") {
        Some("cpp")
    } else if is_lit(e, "hpp") || is_lit(e, "hh") || is_lit(e, "hxx") {
        Some("cpp-header")
    } else if is_lit(e, "rs") {
        Some("rust")
    } else if is_lit(e, "ts") {
        Some("typescript")
    } else if is_lit(e, "tsx") {
        Some("tsx")
    } else if is_lit(e, "js") {
        Some("javascript")
    } else if is_lit(e, "jsx") {
        Some("jsx")
    } else if is_lit(e, "py") {
        Some("python")
    } else if is_lit(e, "go") {
        Some("go")
    } else if is_lit(e, "java") {
        Some("java")
    } else if is_lit(e, "kt") {
        Some("kotlin")
    } else if is_lit(e, "json") {
        Some("json")
    } else if is_lit(e, "yaml") || is_lit(e, "yml") {
        Some("yaml")
    } else if is_lit(e, "toml") {
        Some("toml")
    } else if is_lit(e, "md") {
        Some("markdown")
    } else {
        None
    }
}

/// The lowercased extension of `path`, if it has one.
pub fn lowercase_extension(path: &str) -> (r: Option<Vec<char>>)
    ensures
        r matches Some(e) ==> path_extension(path@) matches Some(x) && e@ == spec_to_lowercase(x)
            && (all_ascii(x) ==> e@ == ascii_lower(x)),
        r is None ==> path_extension(path@) is None,
{
    match extension_of(path) {
        Some(e) => {
            let es = string_of(e.as_slice());
            let lower = to_lowercase(es.as_str());
            Some(crate::text::chars_of(lower.as_str()))
        },
        None => None,
    }
}

/// The language indexed for `path`, decided by its extension regardless of case.
pub fn extension_to_language(path: &str) -> (r: Option<&'static str>)
    ensures
        r matches Some(s) ==> spec_extension_language(path@) == Some(s@),
        r is None ==> spec_extension_language(path@) is None,
        path_extension(path@) matches Some(x) ==> (all_ascii(x) ==> match r {
            Some(s) => language_of_extension(ascii_lower(x)) == Some(s@),
            None => language_of_extension(ascii_lower(x)) is None,
        }),
{
    match lowercase_extension(path) {
        Some(e) => language_for_extension(e.as_slice()),
        None => None,
    }
}

/// Whether some byte of `bytes` is zero.
pub fn has_nul(bytes: &[u8]) -> (r: bool)
    ensures
        r == bytes@.contains(0u8),
{
    let mut i: usize = 0;
    while i < bytes.len()
        invariant
            i <= bytes@.len(),
            forall|j: int| 0 <= j < i ==> bytes@[j] != 0u8,
        decreases bytes@.len() - i,
    {
        if bytes[i] == 0 {
            assert(bytes@[i as int] == 0u8);
            return true;
        }
        i += 1;
    }
    false
}

/// The hex SHA-256 digest of the UTF-8 encoding of `text`.
pub fn hash_content(text: &str) -> (r: String)
    ensures
        r@ == spec_hash_hex(text@),
{
    hash_str(text)
}

/// The language under which a walked file at `path` is indexed: none when a segment of
/// the path is an excluded directory name or the extension has no language.
pub open spec fn spec_scan_language(path: Seq<char>) -> Option<Seq<char>> {
    if has_segment_in(path, default_excludes()) {
        None
    } else {
        spec_extension_language(path)
    }
}

/// The language under which a walked file at `path` is indexed, if any.
pub fn scan_language(path: &str) -> (r: Option<&'static str>)
    ensures
        r matches Some(s) ==> spec_scan_language(path@) == Some(s@),
        r is None ==> spec_scan_language(path@) is None,
{
    let ex = default_excludes_list();
    if has_segment(path, &ex) {
        return None;
    }
    extension_to_language(path)
}

/// Whether a file of `size_bytes` bytes holding `bytes` is indexed: it is no larger than
/// [`MAX_FILE_BYTES`], holds no zero byte, and is valid UTF-8.
pub open spec fn spec_accepts(size_bytes: u64, bytes: Seq<u8>) -> bool {
    size_bytes <= MAX_FILE_BYTES && !bytes.contains(0u8) && valid_utf8(bytes)
}

/// Whether a file of `size_bytes` bytes is small enough to index.
pub fn size_accepted(size_bytes: u64) -> (r: bool)
    ensures
        r == (size_bytes <= MAX_FILE_BYTES),
{
    size_bytes <= MAX_FILE_BYTES
}

/// The candidate for a file whose language is known, from its size, modification time and
/// bytes; `None` when the file is too large, holds a zero byte, or is not UTF-8.
pub fn file_candidate(
    path: String,
    rel_path: String,
    language: &str,
    size_bytes: u64,
    mtime_ns: i64,
    bytes: Vec<u8>,
) -> (r: Option<FileCandidate>)
    ensures
        r is Some <==> spec_accepts(size_bytes, bytes@),
        r matches Some(c) ==> {
            &&& c.path@ == path@
            &&& c.rel_path@ == rel_path@
            &&& c.language@ == language@
            &&& c.size_bytes == size_bytes as int
            &&& c.mtime_ns == mtime_ns
            &&& c.content@ == decode_utf8(bytes@)
            &&& c.content_hash@ == spec_hash_hex(c.content@)
        },
{
    if !size_accepted(size_bytes) {
        return None;
    }
    if has_nul(bytes.as_slice()) {
        return None;
    }
    let ghost b = bytes@;
    let content = match utf8_string(bytes) {
        Some(s) => s,
        None => {
            return None;
        },
    };
    proof {
        vstd::utf8::encode_utf8_decode_utf8(content@);
    }
    let content_hash = hash_content(content.as_str());
    Some(
        FileCandidate {
            path,
            rel_path,
            language: language.to_owned(),
            size_bytes: size_bytes as i64,
            mtime_ns,
            content_hash,
            content,
        },
    )
}

/// The lengths and first characters of the extensions in the language table.
proof fn lemma_extension_literals()
    ensures
        "c"@.len() == 1,
        "c"@[0] == 'c',
        "h"@.len() == 1,
        "h"@[0] == 'h',
        "cpp"@.len() == 3,
        "cpp"@[0] == 'c',
        "cpp"@[1] == 'p',
        "cc"@.len() == 2,
        "cc"@[0] == 'c',
        "cc"@[1] == 'c',
        "cxx"@.len() == 3,
        "cxx"@[0] == 'c',
        "cxx"@[1] == 'x',
        "hpp"@.len() == 3,
        "hpp"@[0] == 'h',
        "hpp"@[1] == 'p',
        "hh"@.len() == 2,
        "hh"@[0] == 'h',
        "hh"@[1] == 'h',
        "hxx"@.len() == 3,
        "hxx"@[0] == 'h',
        "hxx"@[1] == 'x',
        "rs"@.len() == 2,
        "rs"@[0] == 'r',
        "rs"@[1] == 's',
        "ts"@.len() == 2,
        "ts"@[0] == 't',
        "ts"@[1] == 's',
        "tsx"@.len() == 3,
        "tsx"@[0] == 't',
        "tsx"@[1] == 's',
        "js"@.len() == 2,
        "js"@[0] == 'j',
        "js"@[1] == 's',
        "jsx"@.len() == 3,
        "jsx"@[0] == 'j',
        "jsx"@[1] == 's',
        "py"@.len() == 2,
        "py"@[0] == 'p',
        "py"@[1] == 'y',
        "go"@.len() == 2,
        "go"@[0] == 'g',
        "go"@[1] == 'o',
        "java"@.len() == 4,
        "java"@[0] == 'j',
        "java"@[1] == 'a',
        "kt"@.len() == 2,
        "kt"@[0] == 'k',
        "kt"@[1] == 't',
        "json"@.len() == 4,
        "json"@[0] == 'j',
        "json"@[1] == 's',
        "yaml"@.len() == 4,
        "yaml"@[0] == 'y',
        "yaml"@[1] == 'a',
        "yml"@.len() == 3,
        "yml"@[0] == 'y',
        "yml"@[1] == 'm',
        "toml"@.len() == 4,
        "toml"@[0] == 't',
        "toml"@[1] == 'o',
        "md"@.len() == 2,
        "md"@[0] == 'm',
        "md"@[1] == 'd',
{
    reveal_strlit("c");
    reveal_strlit("h");
    reveal_strlit("cpp");
    reveal_strlit("cc");
    reveal_strlit("cxx");
    reveal_strlit("hpp");
    reveal_strlit("hh");
    reveal_strlit("hxx");
    reveal_strlit("rs");
    reveal_strlit("ts");
    reveal_strlit("tsx");
    reveal_strlit("js");
    reveal_strlit("jsx");
    reveal_strlit("py");
    reveal_strlit("go");
    reveal_strlit("java");
    reveal_strlit("kt");
    reveal_strlit("json");
    reveal_strlit("yaml");
    reveal_strlit("yml");
    reveal_strlit("toml");
    reveal_strlit("md");
}

/// Every language that has a grammar is reached from some file extension, so the files of
/// every parsed language are scanned.
pub proof fn lemma_grammar_languages_have_extensions(language: Seq<char>)
    requires
        grammar_for(language) is Some,
    ensures
        exists|e: Seq<char>| #[trigger] language_of_extension(e) == Some(language),
{
    lemma_extension_literals();
    if language == "rust"@ {
        assert(language_of_extension("rs"@) == Some(language));
    } else if language == "javascript"@ {
        assert(language_of_extension("js"@) == Some(language));
    } else if language == "jsx"@ {
        assert(language_of_extension("jsx"@) == Some(language));
    } else if language == "typescript"@ {
        assert(language_of_extension("ts"@) == Some(language));
    } else if language == "tsx"@ {
        assert(language_of_extension("tsx"@) == Some(language));
    } else if language == "python"@ {
        assert(language_of_extension("py"@) == Some(language));
    } else if language == "go"@ {
        assert(language_of_extension("go"@) == Some(language));
    } else if language == "java"@ {
        assert(language_of_extension("java"@) == Some(language));
    } else if language == "c"@ {
        assert(language_of_extension("c"@) == Some(language));
    } else if language == "c-header"@ {
        assert(language_of_extension("h"@) == Some(language));
    } else if language == "cpp"@ {
        assert(language_of_extension("cpp"@) == Some(language));
    } else if language == "cpp-header"@ {
        assert(language_of_extension("hpp"@) == Some(language));
    }
}

} // verus!
