//! Adding paths to the index: which of the paths given are taken, which are
//! ignored, and what is written.

use vstd::prelude::*;
use crate::status::LocalObj;

verus! {

/// The paths given, whether ignore rules are overridden, and whether every
/// change is added.
pub struct AddArgs {
    pub files: Option<Vec<String>>,
    pub force: bool,
    pub all: bool,
}

/// What becomes of a path given to add: it cannot be located (with the
/// reason), it is ignored, or it is the path relative to the root.
pub enum AddTarget {
    Invalid(String),
    Ignored,
    Found(String),
}

/// Locates the path `file` given to add (relative to `current`, see
/// `normalize_relative`) and checks it against the ignore rules `rules` unless
/// `force`; an ignored path is noted in `ignored`. `None`, with nothing noted,
/// when the rules cannot be applied to it (a rule is not a valid pattern).
pub fn add_target(
    file: &str,
    current: Option<String>,
    root: &str,
    rules: &Vec<String>,
    force: bool,
    ignored: &mut Vec<String>,
) -> (r: Option<AddTarget>)
    ensures
        ({
            let loc = match current {
                None => None,
                Some(c) => crate::paths::strip_path_prefix(
                    crate::paths::normalize(crate::paths::join_paths(c@, file@)),
                    root@,
                ),
            };
            match loc {
                None => (r matches Some(AddTarget::Invalid(e)) && (current is None ==> e@
                    == crate::paths::no_current_msg()) && (current is Some ==> e@
                    == crate::paths::outside_repo_msg())) && final(ignored)@ == old(ignored)@,
                Some(f) => if force {
                    (r matches Some(AddTarget::Found(p)) && p@ == f) && final(ignored)@ == old(ignored)@
                } else {
                    match crate::ignore::ignore_verdict(f, crate::paths::views(rules@)) {
                        None => r is None && final(ignored)@ == old(ignored)@,
                        Some(true) => (r matches Some(AddTarget::Ignored)) && final(ignored)@.len()
                            == old(ignored)@.len() + 1 && final(ignored)@.drop_last() == old(ignored)@
                            && final(ignored)@.last()@ == f,
                        Some(false) => (r matches Some(AddTarget::Found(p)) && p@ == f)
                            && final(ignored)@ == old(ignored)@,
                    }
                },
            }
        }),
{
    let f = match crate::paths::normalize_relative(current, root, file) {
        Ok(f) => f,
        Err(e) => {
            return Some(AddTarget::Invalid(e));
        },
    };
    if force {
        return Some(AddTarget::Found(f));
    }
    match crate::ignore::try_ignore_file(&f, rules) {
        None => None,
        Some(true) => {
            let ghost before = ignored@;
            ignored.push(f);
            assert(ignored@.drop_last() =~= before);
            Some(AddTarget::Ignored)
        },
        Some(false) => Some(AddTarget::Found(f)),
    }
}

/// The paths added for the path `f` found: when it exists, the contents of a
/// folder (`content`) and then `f` itself; when it does not exist but is
/// known to the repository, `f`; otherwise nothing can be added (`None`).
pub fn added_paths(f: String, exists: bool, is_dir: bool, content: Vec<String>, known: bool) -> (r: Option<
    Vec<String>,
>)
    ensures
        exists && is_dir ==> (r matches Some(v) && v@ == content@.push(f)),
        exists && !is_dir ==> (r matches Some(v) && v@ == seq![f]),
        !exists && known ==> (r matches Some(v) && v@ == seq![f]),
        !exists && !known ==> r is None,
{
    if exists {
        if is_dir {
            let mut out = content;
            out.push(f);
            Some(out)
        } else {
            let out = vec![f];
            assert(out@ =~= seq![f]);
            Some(out)
        }
    } else if known {
        let out = vec![f];
        assert(out@ =~= seq![f]);
        Some(out)
    } else {
        None
    }
}

/// The walk of the contents of a folder: the folders still to read and the
/// paths found.
pub struct FolderWalk {
    pub folders: Vec<String>,
    pub added: Vec<String>,
}

impl FolderWalk {
    /// Starts with the folder `path` to read.
    pub fn new(path: String) -> (r: FolderWalk)
        ensures
            r.folders@ == seq![path],
            r.added@.len() == 0,
    {
        let folders = vec![path];
        assert(folders@ =~= seq![path]);
        FolderWalk { folders, added: Vec::new() }
    }

    /// Takes the next folder to read (the last one added).
    pub fn next_folder(&mut self) -> (r: Option<String>)
        ensures
            old(self).folders@.len() == 0 ==> r is None && final(self).folders@ == old(self).folders@,
            old(self).folders@.len() > 0 ==> r == Some(old(self).folders@.last())
                && final(self).folders@ == old(self).folders@.drop_last(),
            final(self).added == old(self).added,
    {
        self.folders.pop()
    }

    /// Takes the entries of the folder read (with whether each is a folder):
    /// each is found, and each folder is to read.
    pub fn take_entries(&mut self, entries: Vec<String>, is_dir: &Vec<bool>)
        requires
            is_dir@.len() == entries@.len(),
        ensures
            final(self).added@ == old(self).added@ + entries@,
            final(self).folders@ == old(self).folders@ + dirs_of(entries@, is_dir@),
    {
        let mut i: usize = 0;
        let ghost a0 = self.added@;
        let ghost f0 = self.folders@;
        while i < entries.len()
            invariant
                i <= entries@.len(),
                is_dir@.len() == entries@.len(),
                self.added@ == a0 + entries@.subrange(0, i as int),
                self.folders@ == f0 + dirs_of(entries@.subrange(0, i as int), is_dir@),
            decreases entries@.len() - i,
        {
            assert(entries@.subrange(0, i + 1).drop_last() =~= entries@.subrange(0, i as int));
            assert(entries@.subrange(0, i + 1).last() == entries@[i as int]);
            if is_dir[i] {
                self.folders.push(entries[i].clone());
            }
            self.added.push(entries[i].clone());
            assert(self.added@ =~= a0 + entries@.subrange(0, i + 1));
            assert(self.folders@ =~= f0 + dirs_of(entries@.subrange(0, i + 1), is_dir@));
            i = i + 1;
        }
        assert(entries@.subrange(0, entries@.len() as int) =~= entries@);
    }
}

/// The entries that are folders, in order.
pub open spec fn dirs_of(entries: Seq<String>, is_dir: Seq<bool>) -> Seq<String>
    decreases entries.len(),
{
    if entries.len() == 0 {
        Seq::empty()
    } else if is_dir[entries.len() - 1] {
        dirs_of(entries.drop_last(), is_dir).push(entries.last())
    } else {
        dirs_of(entries.drop_last(), is_dir)
    }
}

/// The lines written to the index to add every change: the path of each
/// object, in order.
pub fn index_lines(objs: &Vec<LocalObj>) -> (r: Vec<String>)
    ensures
        r@.len() == objs@.len(),
        forall|i: int| 0 <= i < objs@.len() ==> (#[trigger] r@[i]) == objs@[i].path,
{
    let mut out: Vec<String> = Vec::new();
    let mut i: usize = 0;
    while i < objs.len()
        invariant
            i <= objs@.len(),
            out@.len() == i,
            forall|k: int| 0 <= k < i ==> (#[trigger] out@[k]) == objs@[k].path,
        decreases objs@.len() - i,
    {
        out.push(objs[i].path.clone());
        i = i + 1;
    }
    out
}

} // verus!
