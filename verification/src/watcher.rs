//! Which file-system events the watcher acts on.
use vstd::prelude::*;
use crate::crawler::excluded_dirs;
use crate::crawler::excluded_dirs_list;
use crate::paths::has_segment;
use crate::paths::has_segment_in;

verus! {

/// Whether some segment of `path` is an excluded directory name; events under such
/// directories are ignored.
pub fn has_excluded_segment(path: &str) -> (r: bool)
    ensures
        r == has_segment_in(path@, excluded_dirs()),
{
    let ex = excluded_dirs_list();
    has_segment(path, &ex)
}

} // verus!
