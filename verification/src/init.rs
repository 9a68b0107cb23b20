//! Creating a repository: where its files go, and when a directory cannot
//! take one.

use vstd::prelude::*;
use crate::paths::join_paths;

verus! {

/// The places a new repository creates in its directory: the folder
/// `.nextsync`, its `objects` folder, its `HEAD` and `index` files, and the
/// file `.nextsyncignore`.
pub struct InitLayout {
    pub nextsync: String,
    pub objects: String,
    pub head: String,
    pub index: String,
    pub ignore: String,
}

/// Why a directory cannot take a repository: it is not empty, or it cannot be read.
pub enum InitRefusal {
    NotEmpty,
    CannotOpen,
}

/// The places of a repository in `dir` (see `InitLayout`), when `entries`
/// (the entries of `dir`, `None` when it cannot be read) allow one: the
/// directory must be readable and empty.
pub fn init(dir: &str, entries: Option<Vec<String>>) -> (r: Result<InitLayout, InitRefusal>)
    ensures
        entries is None ==> r matches Err(InitRefusal::CannotOpen),
        entries matches Some(en) && en@.len() != 0 ==> r matches Err(InitRefusal::NotEmpty),
        entries matches Some(en) && en@.len() == 0 ==> (r matches Ok(l) && {
            &&& l.nextsync@ == join_paths(dir@, ".nextsync"@)
            &&& l.objects@ == join_paths(join_paths(dir@, ".nextsync"@), "objects"@)
            &&& l.head@ == join_paths(join_paths(dir@, ".nextsync"@), "HEAD"@)
            &&& l.index@ == join_paths(join_paths(dir@, ".nextsync"@), "index"@)
            &&& l.ignore@ == join_paths(dir@, ".nextsyncignore"@)
        }),
{
    match entries {
        None => Err(InitRefusal::CannotOpen),
        Some(en) => {
            if en.len() != 0 {
                return Err(InitRefusal::NotEmpty);
            }
            let n = crate::paths::nextsync(dir);
            Ok(InitLayout {
                objects: crate::paths::join_path(n.as_str(), "objects"),
                head: crate::paths::join_path(n.as_str(), "HEAD"),
                index: crate::paths::join_path(n.as_str(), "index"),
                nextsync: n,
                ignore: crate::paths::nextsyncignore(dir),
            })
        },
    }
}

} // verus!
