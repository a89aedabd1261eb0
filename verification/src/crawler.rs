//! Which entries a plain-text crawl visits and indexes.
use vstd::prelude::*;
use crate::paths::extension_of;
use crate::paths::file_name;
use crate::paths::file_name_of;
use crate::paths::path_extension;
use crate::scanner::default_excludes;
use crate::scanner::lowercase_extension;
use crate::text::is_lit;
use crate::text::string_of;
use crate::text::spec_to_lowercase;

verus! {

/// What a crawl did.
#[derive(Debug, Clone)]
pub struct IndexStats {
    pub indexed: usize,
    pub removed: usize,
    pub failed: usize,
}

/// The directory names that a crawl does not descend into.
pub open spec fn excluded_dirs() -> Seq<Seq<char>> {
    seq![".git"@, "node_modules"@, "dist"@, "target"@, "venv"@, "__pycache__"@]
}

/// The directory names that a crawl does not descend into.
pub fn excluded_dirs_list() -> (r: Vec<&'static str>)
    ensures
        r@.map_values(|s: &str| s@) == excluded_dirs(),
{
    let mut v: Vec<&'static str> = Vec::new();
    v.push(".git");
    v.push("node_modules");
    v.push("dist");
    v.push("target");
    v.push("venv");
    v.push("__pycache__");
    assert(v@.map_values(|s: &str| s@) =~= excluded_dirs());
    v
}

/// Whether a walked entry is skipped with everything under it: it is a directory with one
/// of the excluded names.
pub fn is_excluded(is_dir: bool, name: &str) -> (r: bool)
    ensures
        r == (is_dir && excluded_dirs().contains(name@)),
{
    if !is_dir {
        return false;
    }
    let ex = excluded_dirs_list();
    let ghost ev = ex@.map_values(|s: &str| s@);
    let nc = crate::text::chars_of(name);
    let mut j: usize = 0;
    while j < ex.len()
        invariant
            is_dir,
            j <= ex@.len(),
            ev == ex@.map_values(|s: &str| s@),
            ev == excluded_dirs(),
            nc@ == name@,
            forall|m: int| 0 <= m < j ==> ev[m] != name@,
        decreases ex@.len() - j,
    {
        if is_lit(nc.as_slice(), ex[j]) {
            assert(ev[j as int] == name@);
            assert(ev.contains(name@));
            return true;
        }
        j += 1;
    }
    false
}

/// Whether a file is indexed as plain text: its extension, lowercased, is `txt` or `md`.
pub open spec fn spec_is_text_file(path: Seq<char>) -> bool {
    match path_extension(path) {
        Some(e) => spec_to_lowercase(e) == "txt"@ || spec_to_lowercase(e) == "md"@,
        None => false,
    }
}

/// Whether the file at `path` is indexed as plain text.
pub fn is_supported_text_file(path: &str) -> (r: bool)
    ensures
        r == spec_is_text_file(path@),
{
    match lowercase_extension(path) {
        Some(e) => is_lit(e.as_slice(), "txt") || is_lit(e.as_slice(), "md"),
        None => false,
    }
}

/// A timestamp from the whole seconds elapsed since the Unix epoch, as the crawl records it:
/// the seconds taken as an `i64` (wrapping as `as` does), or 0 when the time lies before the
/// epoch (`None`).
pub fn ts_from_secs(secs: Option<u64>) -> (r: i64)
    ensures
        r == match secs {
            Some(s) => s as i64,
            None => 0i64,
        },
{
    match secs {
        Some(s) => s as i64,
        None => 0,
    }
}

/// The title and the extension under which a crawled file is stored: its file name, else
/// `unknown`; its extension as written, else `txt`.
pub open spec fn spec_crawl_labels(path: Seq<char>) -> (Seq<char>, Seq<char>) {
    (
        match file_name(path) {
            Some(n) => n,
            None => "unknown"@,
        },
        match path_extension(path) {
            Some(e) => e,
            None => "txt"@,
        },
    )
}

/// The title and the extension under which the crawled file at `path` is stored.
pub fn crawl_labels(path: &str) -> (r: (String, String))
    ensures
        (r.0@, r.1@) == spec_crawl_labels(path@),
{
    let title = match file_name_of(path) {
        Some(n) => string_of(n.as_slice()),
        None => "unknown".to_owned(),
    };
    let ext = match extension_of(path) {
        Some(e) => string_of(e.as_slice()),
        None => "txt".to_owned(),
    };
    (title, ext)
}

/// The directory names that the workspace scan skips but a plain-text crawl enters: build
/// outputs and tool state (`build`, `.next`, `coverage`, `.venv`, `.idea`).
pub open spec fn scan_only_excludes() -> Seq<Seq<char>> {
    seq!["build"@, ".next"@, "coverage"@, ".venv"@, ".idea"@]
}

/// A crawl skips exactly the directories that the workspace scan skips, apart from the
/// build outputs and tool state that only the scan leaves out: version control, dependency
/// and cache directories (`.git`, `node_modules`, `__pycache__`, ...) are never crawled.
pub proof fn lemma_crawl_excludes_agree_with_scan(name: Seq<char>)
    ensures
        excluded_dirs().contains(name) <==> (default_excludes().contains(name)
            && !scan_only_excludes().contains(name)),
{
    let c = excluded_dirs();
    let d = default_excludes();
    let o = scan_only_excludes();
    reveal_strlit(".git");
    reveal_strlit("node_modules");
    reveal_strlit("dist");
    reveal_strlit("build");
    reveal_strlit("target");
    reveal_strlit(".next");
    reveal_strlit("coverage");
    reveal_strlit(".venv");
    reveal_strlit("venv");
    reveal_strlit("__pycache__");
    reveal_strlit(".idea");
    if c.contains(name) {
        let i = choose|i: int| 0 <= i < c.len() && c[i] == name;
        if i == 0 {
            assert(d[0] == name);
        } else if i == 1 {
            assert(d[1] == name);
        } else if i == 2 {
            assert(d[2] == name);
        } else if i == 3 {
            assert(d[4] == name);
        } else if i == 4 {
            assert(d[8] == name);
        } else {
            assert(d[9] == name);
        }
        assert forall|j: int| 0 <= j < o.len() implies o[j] != name by {
            assert(o[j].len() != name.len() || o[j][0] != name[0] || o[j][1] != name[1]);
        }
    }
    if d.contains(name) && !o.contains(name) {
        let i = choose|i: int| 0 <= i < d.len() && d[i] == name;
        if i == 0 {
            assert(c[0] == name);
        } else if i == 1 {
            assert(c[1] == name);
        } else if i == 2 {
            assert(c[2] == name);
        } else if i == 3 {
            assert(o[0] == name);
        } else if i == 4 {
            assert(c[3] == name);
        } else if i == 5 {
            assert(o[1] == name);
        } else if i == 6 {
            assert(o[2] == name);
        } else if i == 7 {
            assert(o[3] == name);
        } else if i == 8 {
            assert(c[4] == name);
        } else if i == 9 {
            assert(c[5] == name);
        } else {
            assert(o[4] == name);
        }
    }
}

} // verus!
