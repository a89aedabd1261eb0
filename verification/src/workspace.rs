//! Workspaces: their identifiers and what is known of their repositories.
use vstd::prelude::*;
use crate::digest::hash_str;
use crate::digest::spec_hash_hex;
use crate::text::chars_of;
use crate::text::decimal;
use crate::text::push_all;
use crate::text::push_decimal;
use crate::text::string_of;
use crate::text::trim;
use crate::text::trim_chars;
use crate::text::utf8_string;

verus! {

/// The configuration of a workspace.
#[derive(Debug, Clone)]
pub struct WorkspaceConfig {
    pub root_path: String,
}

/// A workspace as it is stored.
#[derive(Debug, Clone)]
pub struct WorkspaceRecord {
    pub workspace_id: String,
    pub root_path: String,
    pub repo_type: String,
    pub head_ref: Option<String>,
    pub head_commit: Option<String>,
    pub index_state: String,
    pub last_snapshot_at: Option<i64>,
    pub last_incremental_at: Option<i64>,
    pub schema_version: i64,
}

/// The identifier of the workspace rooted at `root_path`: the hex SHA-256 digest of the
/// path's UTF-8 bytes.
pub fn workspace_id_for_root(root_path: &str) -> (r: String)
    ensures
        r@ == spec_hash_hex(root_path@),
        crate::digest::is_digest(r@),
{
    hash_str(root_path)
}

/// What a git command printed, trimmed: `None` when it failed, printed something that
/// is not UTF-8, or printed only whitespace.
pub open spec fn spec_git_output(success: bool, stdout: Seq<u8>) -> Option<Seq<char>> {
    if !success || !vstd::utf8::valid_utf8(stdout) {
        None
    } else {
        let t = trim(vstd::utf8::decode_utf8(stdout));
        if t.len() == 0 {
            None
        } else {
            Some(t)
        }
    }
}

/// The trimmed text of a git command's standard output, if it succeeded with some.
pub fn git_output_text(success: bool, stdout: Vec<u8>) -> (r: Option<String>)
    ensures
        r matches Some(s) ==> spec_git_output(success, stdout@) == Some(s@),
        r is None ==> spec_git_output(success, stdout@) is None,
{
    if !success {
        return None;
    }
    let ghost b = stdout@;
    let text = match utf8_string(stdout) {
        Some(t) => t,
        None => {
            return None;
        },
    };
    proof {
        vstd::utf8::encode_utf8_decode_utf8(text@);
    }
    let v = chars_of(text.as_str());
    assert(v@.subrange(0, v@.len() as int) =~= v@);
    let t = trim_chars(v.as_slice(), 0, v.len());
    if t.len() == 0 {
        None
    } else {
        Some(string_of(t.as_slice()))
    }
}

/// The repository kind and git head of a workspace: a workspace without a `.git` entry is a
/// plain `filesystem` one; otherwise it is `git`, with the head reference and commit that
/// git reported.
pub fn detect_repo_meta(git_dir_exists: bool, head_ref: Option<String>, head_commit: Option<String>) -> (r: (
    String,
    Option<String>,
    Option<String>,
))
    ensures
        !git_dir_exists ==> r.0@ == "filesystem"@ && r.1 is None && r.2 is None,
        git_dir_exists ==> r.0@ == "git"@ && r.1 == head_ref && r.2 == head_commit,
{
    if !git_dir_exists {
        return ("filesystem".to_owned(), None, None);
    }
    ("git".to_owned(), head_ref, head_commit)
}

/// The decimal notation of a signed integer, with a leading `-` when it is negative.
pub open spec fn signed_decimal(n: int) -> Seq<char> {
    if n < 0 {
        seq!['-'] + decimal((-n) as nat)
    } else {
        decimal(n as nat)
    }
}

/// The identifier of a snapshot of `workspace_id` begun at time `ts`: `snap_<workspace>_<ts>`.
pub open spec fn spec_snapshot_id(workspace_id: Seq<char>, ts: int) -> Seq<char> {
    "snap_"@ + workspace_id + seq!['_'] + signed_decimal(ts)
}

/// The identifier of a snapshot of `workspace_id` begun at time `ts`.
pub fn snapshot_id_at(workspace_id: &str, ts: i64) -> (r: String)
    ensures
        r@ == spec_snapshot_id(workspace_id@, ts as int),
{
    let mut v = chars_of("snap_");
    let w = chars_of(workspace_id);
    push_all(&mut v, w.as_slice());
    v.push('_');
    if ts < 0 {
        v.push('-');
        let m: u64 = ((-(ts + 1)) as u64) + 1;
        assert(m as int == -(ts as int));
        push_decimal(&mut v, m);
    } else {
        push_decimal(&mut v, ts as u64);
    }
    string_of(v.as_slice())
}

} // verus!
