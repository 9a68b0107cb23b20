//! The index: the paths staged for the next push, one per line.

use vstd::prelude::*;
use vstd::string::*;
use crate::paths::{join_path, nextsync};
use crate::text::str_eq;

verus! {

/// The index file of the repository at `root`.
pub fn path(root: &str) -> (r: String)
    ensures
        r@ == crate::paths::join_paths(crate::paths::join_paths(root@, ".nextsync"@), "index"@),
{
    let n = nextsync(root);
    join_path(n.as_str(), "index")
}

/// The lines of the index once `line` is removed (see `text::remove_line`).
pub fn rm_line(lines: &Vec<String>, line: &str) -> (r: Vec<String>)
    ensures
        crate::paths::views(r@) == crate::text::without_line(crate::paths::views(lines@), line@),
{
    crate::text::remove_line(lines, line)
}

/// Whether `file` is already staged: some line of the index (when it could be
/// read) is exactly `file`.
pub fn alread_added(lines: &Option<Vec<String>>, file: String) -> (r: bool)
    ensures
        r == (lines matches Some(ls) && crate::paths::views(ls@).contains(file@)),
{
    match lines {
        None => false,
        Some(ls) => {
            let mut k: usize = 0;
            while k < ls.len()
                invariant
                    *lines == Some(*ls),
                    k <= ls@.len(),
                    forall|j: int| 0 <= j < k ==> ls@[j]@ != file@,
                decreases ls@.len() - k,
            {
                if str_eq(ls[k].as_str(), file.as_str()) {
                    assert(crate::paths::views(ls@)[k as int] == file@);
                    assert(crate::paths::views(ls@).contains(file@));
                    return true;
                }
                k = k + 1;
            }
            assert forall|j: int| 0 <= j < crate::paths::views(ls@).len() implies crate::paths::views(ls@)[j] != file@ by {
                assert(crate::paths::views(ls@)[j] == ls@[j]@);
            }
            false
        },
    }
}

/// Once a path is removed from the index, it is no longer staged.
pub proof fn lemma_removed_not_added(lines: Seq<Seq<char>>, file: Seq<char>)
    ensures
        !crate::text::without_line(lines, file).contains(file),
{
    crate::text::lemma_removed_line_is_gone(lines, file);
    if crate::text::without_line(lines, file).contains(file) {
        let i = choose|i: int|
            0 <= i < crate::text::without_line(lines, file).len() && crate::text::without_line(
                lines,
                file,
            )[i] == file;
        assert(crate::text::trim(crate::text::without_line(lines, file)[i]) != crate::text::trim(file));
    }
}

} // verus!
