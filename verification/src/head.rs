//! `HEAD`: the list of the top-level entries of the repository.

use vstd::prelude::*;
use vstd::string::*;
use crate::paths::{join_path, nextsync};

verus! {

/// The file `HEAD` of the repository at `root`.
pub fn path(root: &str) -> (r: String)
    ensures
        r@ == crate::paths::join_paths(crate::paths::join_paths(root@, ".nextsync"@), "HEAD"@),
{
    let n = nextsync(root);
    join_path(n.as_str(), "HEAD")
}

/// The lines of `HEAD` once `line` is removed (see `text::remove_line`).
pub fn rm_line(lines: &Vec<String>, line: &str) -> (r: Vec<String>)
    ensures
        crate::paths::views(r@) == crate::text::without_line(crate::paths::views(lines@), line@),
{
    crate::text::remove_line(lines, line)
}

} // verus!
