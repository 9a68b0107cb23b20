//! The state of the working tree against the last synchronisation: objects
//! keyed by the SHA-1 of their path, compared, and reported.

use vstd::prelude::*;
use vstd::string::*;
use crate::text::str_eq;
use crate::hash::sha1_str;

verus! {

/// How `status` reports.
pub struct StatusArgs {
    pub nostyle: bool,
}

/// Which side `remove_duplicate` removes a path found on both from.
#[derive(PartialEq, Eq, Structural, Clone, Copy)]
pub enum RemoveSide {
    Left,
    Both,
    Right,
}

/// The state of an object of the working tree.
#[derive(PartialEq, Eq, Structural, Clone, Copy)]
pub enum State {
    Default,
    New,
    Moved,
    Copied,
    Modified,
    Deleted,
}

/// An object of the working tree: its type (`blob` or `tree`), name, path
/// relative to the root, origin path (when moved or copied) and state.
pub struct LocalObj {
    pub otype: String,
    pub name: String,
    pub path: String,
    pub path_from: Option<String>,
    pub state: State,
}

impl LocalObj {
    /// A copy of the object.
    pub fn duplicate(&self) -> (r: LocalObj)
        ensures
            r == *self,
    {
        LocalObj {
            otype: self.otype.clone(),
            name: self.name.clone(),
            path: self.path.clone(),
            path_from: match &self.path_from {
                Some(p) => Some(p.clone()),
                None => None,
            },
            state: self.state,
        }
    }
}

/// Objects keyed by the SHA-1 of their path (the entries of a hash map).
pub type ObjMap = Vec<(String, LocalObj)>;

/// Whether some entry has the key `k`.
pub open spec fn has_key(m: Seq<(String, LocalObj)>, k: Seq<char>) -> bool {
    exists|i: int| 0 <= i < m.len() && (#[trigger] m[i]).0@ == k
}

/// The entries whose key is not `k`, in order.
pub open spec fn remove_key(m: Seq<(String, LocalObj)>, k: Seq<char>) -> Seq<(String, LocalObj)>
    decreases m.len(),
{
    if m.len() == 0 {
        Seq::empty()
    } else if m.last().0@ == k {
        remove_key(m.drop_last(), k)
    } else {
        remove_key(m.drop_last(), k).push(m.last())
    }
}

/// Whether no two entries share a key.
pub open spec fn keys_distinct(m: Seq<(String, LocalObj)>) -> bool {
    forall|i: int, j: int| 0 <= i < j < m.len() ==> (#[trigger] m[i]).0@ != (#[trigger] m[j]).0@
}

/// The state after one path of `remove_duplicate`: remaining entries, paths
/// kept, paths found among the keys.
pub type DupState = (Seq<(String, LocalObj)>, Seq<String>, Seq<String>);

/// One path read by `remove_duplicate`: when the SHA-1 of the path is a key,
/// the path is reported, its entry removed unless `side` is `Right`, and the
/// path kept only when `side` is `Left`; otherwise the path is kept.
pub open spec fn dup_step(st: DupState, obj: String, side: RemoveSide) -> DupState {
    let h = crate::hash::sha1_hex(obj@);
    if has_key(st.0, h) {
        (
            if side != RemoveSide::Right {
                remove_key(st.0, h)
            } else {
                st.0
            },
            if side == RemoveSide::Left {
                st.1.push(obj)
            } else {
                st.1
            },
            st.2.push(obj),
        )
    } else {
        (st.0, st.1.push(obj), st.2)
    }
}

/// `remove_duplicate` over the paths `objs`, in order.
pub open spec fn dup_fold(m: Seq<(String, LocalObj)>, objs: Seq<String>, side: RemoveSide) -> DupState
    decreases objs.len(),
{
    if objs.len() == 0 {
        (m, Seq::empty(), Seq::empty())
    } else {
        dup_step(dup_fold(m, objs.drop_last(), side), objs.last(), side)
    }
}

/// The object of the first entry with key `k`.
pub open spec fn find_value(m: Seq<(String, LocalObj)>, k: Seq<char>) -> LocalObj
    decreases m.len(),
{
    if m.len() == 0 {
        arbitrary()
    } else if m[0].0@ == k {
        m[0].1
    } else {
        find_value(m.drop_first(), k)
    }
}

/// Whether some entry has the key `k`.
pub fn contains_key(m: &ObjMap, k: &String) -> (r: bool)
    ensures
        r == has_key(m@, k@),
{
    let mut i: usize = 0;
    while i < m.len()
        invariant
            i <= m@.len(),
            forall|j: int| 0 <= j < i ==> m@[j].0@ != k@,
        decreases m@.len() - i,
    {
        if str_eq(m[i].0.as_str(), k.as_str()) {
            assert(m@[i as int].0@ == k@);
            return true;
        }
        i = i + 1;
    }
    false
}

/// The object of the entry with key `k`, when there is one (the first such).
pub fn get_key(m: &ObjMap, k: &String) -> (r: Option<LocalObj>)
    ensures
        r is Some <==> has_key(m@, k@),
        r matches Some(o) ==> o == find_value(m@, k@),
{
    assert(m@.subrange(0, m@.len() as int) =~= m@);
    let mut i: usize = 0;
    while i < m.len()
        invariant
            i <= m@.len(),
            forall|j: int| 0 <= j < i ==> m@[j].0@ != k@,
            find_value(m@, k@) == find_value(m@.subrange(i as int, m@.len() as int), k@),
        decreases m@.len() - i,
    {
        assert(m@.subrange(i as int, m@.len() as int).drop_first() =~= m@.subrange(
            i + 1,
            m@.len() as int,
        ));
        if str_eq(m[i].0.as_str(), k.as_str()) {
            assert(m@[i as int].0@ == k@);
            return Some(m[i].1.duplicate());
        }
        i = i + 1;
    }
    None
}

/// Removes every entry with key `k`.
pub fn remove_entry(m: &mut ObjMap, k: &String)
    ensures
        final(m)@ == remove_key(old(m)@, k@),
        !has_key(final(m)@, k@),
        keys_distinct(old(m)@) ==> keys_distinct(final(m)@),
{
    proof {
        lemma_remove_key_drops(m@, k@);
        if keys_distinct(m@) {
            lemma_remove_key_keeps_keys_distinct(m@, k@);
        }
    }
    let mut out: ObjMap = Vec::new();
    let mut i: usize = 0;
    while i < m.len()
        invariant
            i <= m@.len(),
            out@ == remove_key(m@.subrange(0, i as int), k@),
        decreases m@.len() - i,
    {
        assert(m@.subrange(0, i + 1).drop_last() =~= m@.subrange(0, i as int));
        assert(m@.subrange(0, i + 1).last() == m@[i as int]);
        if !str_eq(m[i].0.as_str(), k.as_str()) {
            let e = (m[i].0.clone(), m[i].1.duplicate());
            out.push(e);
        }
        i = i + 1;
    }
    assert(m@.subrange(0, m@.len() as int) =~= m@);
    *m = out;
}

/// Compares the paths `objects` with the keys of `hashes` (the SHA-1 of a path
/// is its key): the paths found are returned in order, and removed from
/// `hashes` and from `objects` as `remove_option` says (see `dup_step`).
pub fn remove_duplicate(hashes: &mut ObjMap, objects: &mut Vec<String>, remove_option: RemoveSide) -> (r: Vec<String>)
    ensures
        final(hashes)@ == dup_fold(old(hashes)@, old(objects)@, remove_option).0,
        final(objects)@ == dup_fold(old(hashes)@, old(objects)@, remove_option).1,
        r@ == dup_fold(old(hashes)@, old(objects)@, remove_option).2,
        keys_distinct(old(hashes)@) ==> keys_distinct(final(hashes)@),
{
    proof {
        if keys_distinct(hashes@) {
            lemma_dup_fold_keeps_keys_distinct(hashes@, objects@, remove_option);
        }
    }
    let ghost m0 = hashes@;
    let mut kept: Vec<String> = Vec::new();
    let mut duplicate: Vec<String> = Vec::new();
    let mut i: usize = 0;
    while i < objects.len()
        invariant
            i <= objects@.len(),
            dup_fold(m0, objects@.subrange(0, i as int), remove_option) == (
                hashes@,
                kept@,
                duplicate@,
            ),
        decreases objects@.len() - i,
    {
        let obj = objects[i].clone();
        assert(objects@.subrange(0, i + 1).drop_last() =~= objects@.subrange(0, i as int));
        assert(objects@.subrange(0, i + 1).last() == obj);
        let hash = sha1_str(obj.as_str());
        if contains_key(hashes, &hash) {
            duplicate.push(obj.clone());
            if remove_option == RemoveSide::Left || remove_option == RemoveSide::Both {
                remove_entry(hashes, &hash);
            }
            if remove_option == RemoveSide::Left {
                kept.push(obj);
            }
        } else {
            kept.push(obj);
        }
        i = i + 1;
    }
    assert(objects@.subrange(0, objects@.len() as int) =~= objects@);
    *objects = kept;
    duplicate
}

/// With `Both`, every path ends up either kept or reported, never both.
pub proof fn lemma_remove_duplicate_partition(m: Seq<(String, LocalObj)>, objs: Seq<String>)
    ensures
        dup_fold(m, objs, RemoveSide::Both).1.len() + dup_fold(m, objs, RemoveSide::Both).2.len()
            == objs.len(),
    decreases objs.len(),
{
    if objs.len() > 0 {
        lemma_remove_duplicate_partition(m, objs.drop_last());
    }
}

proof fn lemma_remove_key_drops(m: Seq<(String, LocalObj)>, k: Seq<char>)
    ensures
        !has_key(remove_key(m, k), k),
        forall|j: Seq<char>| j != k ==> (has_key(remove_key(m, k), j) <==> has_key(m, j)),
    decreases m.len(),
{
    if m.len() > 0 {
        let d = m.drop_last();
        lemma_remove_key_drops(d, k);
        let r = remove_key(d, k);
        assert forall|j: Seq<char>| j != k implies (has_key(remove_key(m, k), j) <==> has_key(
            m,
            j,
        )) by {
            if has_key(m, j) {
                let i = choose|i: int| 0 <= i < m.len() && (#[trigger] m[i]).0@ == j;
                if i < m.len() - 1 {
                    assert(d[i] == m[i]);
                    assert(has_key(d, j));
                    assert(has_key(r, j) <==> has_key(d, j));
                    let i2 = choose|i2: int| 0 <= i2 < r.len() && (#[trigger] r[i2]).0@ == j;
                    assert(remove_key(m, k)[i2] == r[i2]);
                } else {
                    assert(remove_key(m, k).last() == m.last());
                }
            }
            if has_key(remove_key(m, k), j) {
                let i = choose|i: int|
                    0 <= i < remove_key(m, k).len() && (#[trigger] remove_key(m, k)[i]).0@ == j;
                if i < r.len() {
                    assert(r[i] == remove_key(m, k)[i]);
                    assert(has_key(r, j));
                    assert(has_key(r, j) <==> has_key(d, j));
                    assert(has_key(d, j));
                    let i2 = choose|i2: int| 0 <= i2 < d.len() && (#[trigger] d[i2]).0@ == j;
                    assert(m[i2] == d[i2]);
                } else {
                    assert(remove_key(m, k)[i] == m.last());
                    assert(m[m.len() - 1].0@ == j);
                }
            }
        }
        if has_key(remove_key(m, k), k) {
            let i = choose|i: int|
                0 <= i < remove_key(m, k).len() && (#[trigger] remove_key(m, k)[i]).0@ == k;
            if i < r.len() {
                assert(r[i] == remove_key(m, k)[i]);
            }
        }
    }
}

/// With `Both`, a reported path's key is gone from the map afterwards.
pub proof fn lemma_reported_keys_removed(m: Seq<(String, LocalObj)>, objs: Seq<String>)
    ensures
        forall|i: int|
            0 <= i < dup_fold(m, objs, RemoveSide::Both).2.len() ==> !has_key(
                dup_fold(m, objs, RemoveSide::Both).0,
                crate::hash::sha1_hex((#[trigger] dup_fold(m, objs, RemoveSide::Both).2[i])@),
            ),
    decreases objs.len(),
{
    if objs.len() > 0 {
        let d = objs.drop_last();
        lemma_reported_keys_removed(m, d);
        let st = dup_fold(m, d, RemoveSide::Both);
        let h = crate::hash::sha1_hex(objs.last()@);
        lemma_remove_key_drops(st.0, h);
        let now = dup_fold(m, objs, RemoveSide::Both);
        assert forall|i: int| 0 <= i < now.2.len() implies !has_key(
            now.0,
            crate::hash::sha1_hex((#[trigger] now.2[i])@),
        ) by {
            if has_key(st.0, h) {
                if i < st.2.len() {
                    assert(now.2[i] == st.2[i]);
                    let hi = crate::hash::sha1_hex(st.2[i]@);
                    assert(!has_key(st.0, hi));
                    if hi != h {
                        assert(has_key(remove_key(st.0, h), hi) == has_key(st.0, hi));
                    }
                }
            } else {
                assert(now.2[i] == st.2[i]);
            }
        }
    }
}


/// An entry inserted as a hash map does is found afterwards, and the keys
/// stay distinct.
pub proof fn lemma_insert_keeps_keys_distinct(m: Seq<(String, LocalObj)>, e: (String, LocalObj))
    requires
        keys_distinct(m),
    ensures
        keys_distinct(insert_entry(m, e)),
        has_key(insert_entry(m, e), e.0@),
{
    let r = insert_entry(m, e);
    if has_key(m, e.0@) {
        assert forall|i: int, j: int| 0 <= i < j < r.len() implies (#[trigger] r[i]).0@ != (#[trigger] r[j]).0@ by {
            assert(r[i].0 == m[i].0);
            assert(r[j].0 == m[j].0);
        }
        let i = choose|i: int| 0 <= i < m.len() && (#[trigger] m[i]).0@ == e.0@;
        assert(r[i].0@ == e.0@);
    } else {
        assert forall|i: int, j: int| 0 <= i < j < r.len() implies (#[trigger] r[i]).0@ != (#[trigger] r[j]).0@ by {
            assert(r[i] == m[i]);
            if j < m.len() {
                assert(r[j] == m[j]);
            }
        }
        assert(r[m.len() as int].0@ == e.0@);
    }
}

/// Entries merged in as a hash map does keep the keys distinct.
pub proof fn lemma_extend_keeps_keys_distinct(m: Seq<(String, LocalObj)>, n: Seq<(String, LocalObj)>)
    requires
        keys_distinct(m),
    ensures
        keys_distinct(extend(m, n)),
    decreases n.len(),
{
    if n.len() > 0 {
        lemma_extend_keeps_keys_distinct(m, n.drop_last());
        lemma_insert_keeps_keys_distinct(extend(m, n.drop_last()), n.last());
    }
}

/// Removing a key leaves it nowhere, and keeps the other keys distinct.
pub proof fn lemma_remove_key_keeps_keys_distinct(m: Seq<(String, LocalObj)>, k: Seq<char>)
    requires
        keys_distinct(m),
    ensures
        keys_distinct(remove_key(m, k)),
        !has_key(remove_key(m, k), k),
    decreases m.len(),
{
    lemma_remove_key_drops(m, k);
    if m.len() > 0 {
        let d = m.drop_last();
        assert forall|i: int, j: int| 0 <= i < j < d.len() implies (#[trigger] d[i]).0@ != (#[trigger] d[j]).0@ by {
            assert(d[i] == m[i]);
            assert(d[j] == m[j]);
        }
        lemma_remove_key_keeps_keys_distinct(d, k);
        let x = m.last().0@;
        if x != k {
            lemma_remove_key_drops(d, k);
            let r = remove_key(d, k);
            assert(!has_key(d, x)) by {
                if has_key(d, x) {
                    let i = choose|i: int| 0 <= i < d.len() && (#[trigger] d[i]).0@ == x;
                    assert(m[i] == d[i]);
                    assert(m[m.len() - 1].0@ == x);
                }
            }
            assert(!has_key(r, x));
            let r2 = r.push(m.last());
            assert(remove_key(m, k) == r2);
            assert forall|i: int, j: int| 0 <= i < j < r2.len() implies (#[trigger] r2[i]).0@ != (#[trigger] r2[j]).0@ by {
                assert(r2[i] == r[i]);
                if j < r.len() {
                    assert(r2[j] == r[j]);
                }
            }
        }
    }
}

/// Comparing paths with the keys of a map (`remove_duplicate`) keeps its keys
/// distinct.
pub proof fn lemma_dup_fold_keeps_keys_distinct(m: Seq<(String, LocalObj)>, objs: Seq<String>, side: RemoveSide)
    requires
        keys_distinct(m),
    ensures
        keys_distinct(dup_fold(m, objs, side).0),
    decreases objs.len(),
{
    if objs.len() > 0 {
        lemma_dup_fold_keeps_keys_distinct(m, objs.drop_last(), side);
        let st = dup_fold(m, objs.drop_last(), side);
        lemma_remove_key_keeps_keys_distinct(st.0, crate::hash::sha1_hex(objs.last()@));
    }
}

/// Marking every object deleted keeps the keys distinct.
pub proof fn lemma_all_deleted_keeps_keys_distinct(m: Seq<(String, LocalObj)>)
    requires
        keys_distinct(m),
    ensures
        keys_distinct(all_deleted(m)),
{
    let r = all_deleted(m);
    assert forall|i: int, j: int| 0 <= i < j < r.len() implies (#[trigger] r[i]).0@ != (#[trigger] r[j]).0@ by {
        assert(r[i].0 == m[i].0);
        assert(r[j].0 == m[j].0);
    }
}

/// What the filesystem tells of a path: whether it exists, whether it is a directory.
#[derive(Clone, Copy)]
pub struct PathFacts {
    pub exists: bool,
    pub is_dir: bool,
}

/// `tree` for a directory, `blob` otherwise.
pub open spec fn otype_of(is_dir: bool) -> Seq<char> {
    if is_dir {
        "tree"@
    } else {
        "blob"@
    }
}

/// The type of an object: `tree` for a directory, `blob` otherwise.
pub fn get_otype(is_dir: bool) -> (r: String)
    ensures
        r@ == otype_of(is_dir),
{
    if is_dir {
        String::from_str("tree")
    } else {
        String::from_str("blob")
    }
}

/// The object staged for `line` when nothing is known of it: new when the
/// path exists, deleted otherwise.
pub open spec fn staged_obj(line: String, facts: PathFacts) -> LocalObj {
    LocalObj {
        otype: arbitrary(),
        name: line,
        path: line,
        path_from: None,
        state: if facts.exists {
            State::New
        } else {
            State::Deleted
        },
    }
}

/// Whether `o` is the object staged for `line` when nothing is known of it.
pub open spec fn is_staged_obj(o: LocalObj, line: String, facts: PathFacts) -> bool {
    &&& o.otype@ == otype_of(facts.is_dir)
    &&& o.name == line
    &&& o.path == line
    &&& o.path_from is None
    &&& o.state == (if facts.exists {
        State::New
    } else {
        State::Deleted
    })
}

/// The lines of the index read in order against the known changes `m`: a line
/// whose SHA-1 is a key gives that change (and the key is removed); any other
/// line gives a new or deleted object.
pub open spec fn staged_matches(
    m: Seq<(String, LocalObj)>,
    lines: Seq<String>,
    facts: Seq<PathFacts>,
    objs: Seq<LocalObj>,
    rest: Seq<(String, LocalObj)>,
) -> bool
    decreases lines.len(),
{
    if lines.len() == 0 {
        objs.len() == 0 && rest == m
    } else {
        let h = crate::hash::sha1_hex(lines.last()@);
        objs.len() > 0 && exists|prev: Seq<(String, LocalObj)>|
            staged_matches(m, lines.drop_last(), facts, objs.drop_last(), prev) && if has_key(
                prev,
                h,
            ) {
                objs.last() == find_value(prev, h) && rest == remove_key(prev, h)
            } else {
                is_staged_obj(objs.last(), lines.last(), facts[lines.len() - 1]) && rest == prev
            }
    }
}

/// Each line of the index gives exactly one staged object.
pub proof fn lemma_one_staged_per_line(
    m: Seq<(String, LocalObj)>,
    lines: Seq<String>,
    facts: Seq<PathFacts>,
    objs: Seq<LocalObj>,
    rest: Seq<(String, LocalObj)>,
)
    requires
        staged_matches(m, lines, facts, objs, rest),
    ensures
        objs.len() == lines.len(),
    decreases lines.len(),
{
    if lines.len() > 0 {
        let h = crate::hash::sha1_hex(lines.last()@);
        let prev = choose|prev: Seq<(String, LocalObj)>|
            staged_matches(m, lines.drop_last(), facts, objs.drop_last(), prev) && if has_key(prev, h) {
                objs.last() == find_value(prev, h) && rest == remove_key(prev, h)
            } else {
                is_staged_obj(objs.last(), lines.last(), facts[lines.len() - 1]) && rest == prev
            };
        lemma_one_staged_per_line(m, lines.drop_last(), facts, objs.drop_last(), prev);
    }
}

fn new_staged_obj(line: &String, facts: &PathFacts) -> (r: LocalObj)
    ensures
        is_staged_obj(r, *line, *facts),
{
    LocalObj {
        otype: get_otype(facts.is_dir),
        name: line.clone(),
        path: line.clone(),
        path_from: None,
        state: if facts.exists {
            State::New
        } else {
            State::Deleted
        },
    }
}

/// The staged objects: each line of the index, in order, is the known change
/// whose key is the SHA-1 of the line (taken out of `hashes`), or else a new
/// object (when the path exists, as `facts` tells) or a deleted one.
pub fn get_staged(lines: &Vec<String>, hashes: &mut ObjMap, facts: &Vec<PathFacts>) -> (r: Vec<LocalObj>)
    requires
        facts@.len() == lines@.len(),
    ensures
        staged_matches(old(hashes)@, lines@, facts@, r@, final(hashes)@),
        keys_distinct(old(hashes)@) ==> keys_distinct(final(hashes)@),
{
    let ghost m0 = hashes@;
    let mut staged: Vec<LocalObj> = Vec::new();
    let mut i: usize = 0;
    assert(lines@.subrange(0, 0).len() == 0);
    assert(staged_matches(m0, lines@.subrange(0, 0), facts@, staged@, hashes@));
    while i < lines.len()
        invariant
            facts@.len() == lines@.len(),
            i <= lines@.len(),
            staged_matches(m0, lines@.subrange(0, i as int), facts@, staged@, hashes@),
            keys_distinct(m0) ==> keys_distinct(hashes@),
            m0 == old(hashes)@,
        decreases lines@.len() - i,
    {
        let line = &lines[i];
        let hash = sha1_str(line.as_str());
        let ghost prev = hashes@;
        let ghost prev_staged = staged@;
        let ghost ls = lines@.subrange(0, i + 1);
        assert(ls.drop_last() =~= lines@.subrange(0, i as int));
        assert(ls.last() == *line);
        match get_key(hashes, &hash) {
            Some(o) => {
                staged.push(o);
                remove_entry(hashes, &hash);
            },
            None => {
                staged.push(new_staged_obj(line, &facts[i]));
            },
        }
        assert(staged@.drop_last() =~= prev_staged);
        assert(staged_matches(m0, ls, facts@, staged@, hashes@));
        i = i + 1;
    }
    assert(lines@.subrange(0, lines@.len() as int) =~= lines@);
    staged
}

/// The objects staged in the index when no change is known: each line, in
/// order, as a new object (its path exists) or a deleted one.
pub fn get_all_staged(lines: &Vec<String>, facts: &Vec<PathFacts>) -> (r: Vec<LocalObj>)
    requires
        facts@.len() == lines@.len(),
    ensures
        r@.len() == lines@.len(),
        forall|i: int| 0 <= i < lines@.len() ==> is_staged_obj(#[trigger] r@[i], lines@[i], facts@[i]),
{
    let mut staged: Vec<LocalObj> = Vec::new();
    let mut i: usize = 0;
    while i < lines.len()
        invariant
            facts@.len() == lines@.len(),
            i <= lines@.len(),
            staged@.len() == i,
            forall|j: int| 0 <= j < i ==> is_staged_obj(#[trigger] staged@[j], lines@[j], facts@[j]),
        decreases lines@.len() - i,
    {
        staged.push(new_staged_obj(&lines[i], &facts[i]));
        i = i + 1;
    }
    staged
}

/// `m` with the entry `e` inserted as a hash map does: the object of an entry
/// with the same key is replaced, otherwise the entry is appended.
pub open spec fn insert_entry(m: Seq<(String, LocalObj)>, e: (String, LocalObj)) -> Seq<(String, LocalObj)> {
    if has_key(m, e.0@) {
        m.map_values(|x: (String, LocalObj)| if x.0@ == e.0@ { (x.0, e.1) } else { x })
    } else {
        m.push(e)
    }
}

/// `m` extended by the entries of `n`, in order.
pub open spec fn extend(m: Seq<(String, LocalObj)>, n: Seq<(String, LocalObj)>) -> Seq<(String, LocalObj)>
    decreases n.len(),
{
    if n.len() == 0 {
        m
    } else {
        insert_entry(extend(m, n.drop_last()), n.last())
    }
}

fn insert_entry_exec(m: &mut ObjMap, e: (String, LocalObj))
    ensures
        final(m)@ == insert_entry(old(m)@, e),
{
    if contains_key(m, &e.0) {
        let mut out: ObjMap = Vec::new();
        let mut i: usize = 0;
        while i < m.len()
            invariant
                i <= m@.len(),
                out@ == m@.subrange(0, i as int).map_values(
                    |x: (String, LocalObj)| if x.0@ == e.0@ {
                        (x.0, e.1)
                    } else {
                        x
                    },
                ),
            decreases m@.len() - i,
        {
            let k = m[i].0.clone();
            if str_eq(k.as_str(), e.0.as_str()) {
                out.push((k, e.1.duplicate()));
            } else {
                out.push((k, m[i].1.duplicate()));
            }
            assert(out@ =~= m@.subrange(0, i + 1).map_values(
                |x: (String, LocalObj)| if x.0@ == e.0@ {
                    (x.0, e.1)
                } else {
                    x
                },
            ));
            i = i + 1;
        }
        assert(m@.subrange(0, m@.len() as int) =~= m@);
        *m = out;
    } else {
        m.push(e);
    }
}

fn extend_exec(m: &mut ObjMap, n: ObjMap)
    ensures
        final(m)@ == extend(old(m)@, n@),
{
    let ghost m0 = m@;
    let mut i: usize = 0;
    while i < n.len()
        invariant
            i <= n@.len(),
            m@ == extend(m0, n@.subrange(0, i as int)),
        decreases n@.len() - i,
    {
        assert(n@.subrange(0, i + 1).drop_last() =~= n@.subrange(0, i as int));
        let e = (n[i].0.clone(), n[i].1.duplicate());
        insert_entry_exec(m, e);
        i = i + 1;
    }
    assert(n@.subrange(0, n@.len() as int) =~= n@);
}

/// All changes of the working tree keyed by the SHA-1 of their path: moved
/// and copied objects, then deleted, new and modified ones merged in that order
/// (a later entry replaces the object of an earlier one with the same key).
pub fn get_all_objs_hashes(move_copy: ObjMap, deleted: ObjMap, new: ObjMap, modified: ObjMap) -> (r: ObjMap)
    ensures
        r@ == extend(extend(extend(extend(Seq::empty(), move_copy@), deleted@), new@), modified@),
        keys_distinct(r@),
{
    proof {
        let e0 = Seq::<(String, LocalObj)>::empty();
        lemma_extend_keeps_keys_distinct(e0, move_copy@);
        lemma_extend_keeps_keys_distinct(extend(e0, move_copy@), deleted@);
        lemma_extend_keeps_keys_distinct(extend(extend(e0, move_copy@), deleted@), new@);
        lemma_extend_keeps_keys_distinct(extend(extend(extend(e0, move_copy@), deleted@), new@), modified@);
    }
    let mut all: ObjMap = Vec::new();
    extend_exec(&mut all, move_copy);
    extend_exec(&mut all, deleted);
    extend_exec(&mut all, new);
    extend_exec(&mut all, modified);
    all
}

/// All changes of the working tree (see `get_all_objs_hashes`), as a list of objects.
pub fn get_all_objs(move_copy: ObjMap, deleted: ObjMap, new: ObjMap, modified: ObjMap) -> (r: Vec<LocalObj>)
    ensures
        r@ == extend(extend(extend(extend(Seq::empty(), move_copy@), deleted@), new@), modified@).map_values(
            |x: (String, LocalObj)| x.1,
        ),
{
    let all = get_all_objs_hashes(move_copy, deleted, new, modified);
    let mut out: Vec<LocalObj> = Vec::new();
    let mut i: usize = 0;
    while i < all.len()
        invariant
            i <= all@.len(),
            out@ == all@.subrange(0, i as int).map_values(|x: (String, LocalObj)| x.1),
        decreases all@.len() - i,
    {
        out.push(all[i].1.duplicate());
        assert(out@ =~= all@.subrange(0, i + 1).map_values(|x: (String, LocalObj)| x.1));
        i = i + 1;
    }
    assert(all@.subrange(0, all@.len() as int) =~= all@);
    out
}

/// Whether `m` holds, in order, the paths `paths` as objects in the state
/// `state`, keyed by the SHA-1 of their path, of the type that `facts` tells.
pub open spec fn keyed_objs(m: Seq<(String, LocalObj)>, paths: Seq<String>, facts: Seq<PathFacts>, state: State) -> bool {
    &&& m.len() == paths.len()
    &&& forall|i: int|
        0 <= i < paths.len() ==> {
            &&& (#[trigger] m[i]).0@ == crate::hash::sha1_hex(paths[i]@)
            &&& m[i].1.otype@ == otype_of(facts[i].is_dir)
            &&& m[i].1.name == paths[i]
            &&& m[i].1.path == paths[i]
            &&& m[i].1.path_from is None
            &&& m[i].1.state == state
        }
}

/// The modified files keyed by the SHA-1 of their path.
pub fn modified_objs(paths: &Vec<String>, facts: &Vec<PathFacts>) -> (r: ObjMap)
    requires
        facts@.len() == paths@.len(),
    ensures
        keyed_objs(r@, paths@, facts@, State::Modified),
{
    keyed_objs_exec(paths, facts, State::Modified)
}

/// The new objects (found in the working tree, unknown to the last
/// synchronisation) keyed by the SHA-1 of their path.
pub fn new_objs(paths: &Vec<String>, facts: &Vec<PathFacts>) -> (r: ObjMap)
    requires
        facts@.len() == paths@.len(),
    ensures
        keyed_objs(r@, paths@, facts@, State::New),
{
    keyed_objs_exec(paths, facts, State::New)
}

fn keyed_objs_exec(paths: &Vec<String>, facts: &Vec<PathFacts>, state: State) -> (r: ObjMap)
    requires
        facts@.len() == paths@.len(),
    ensures
        r@.len() == paths@.len(),
        forall|i: int|
            0 <= i < paths@.len() ==> {
                &&& (#[trigger] r@[i]).0@ == crate::hash::sha1_hex(paths@[i]@)
                &&& r@[i].1.otype@ == otype_of(facts@[i].is_dir)
                &&& r@[i].1.name == paths@[i]
                &&& r@[i].1.path == paths@[i]
                &&& r@[i].1.path_from is None
                &&& r@[i].1.state == state
            },
{
    let mut out: ObjMap = Vec::new();
    let mut i: usize = 0;
    while i < paths.len()
        invariant
            facts@.len() == paths@.len(),
            i <= paths@.len(),
            out@.len() == i,
            forall|j: int|
                0 <= j < i ==> {
                    &&& (#[trigger] out@[j]).0@ == crate::hash::sha1_hex(paths@[j]@)
                    &&& out@[j].1.otype@ == otype_of(facts@[j].is_dir)
                    &&& out@[j].1.name == paths@[j]
                    &&& out@[j].1.path == paths@[j]
                    &&& out@[j].1.path_from is None
                    &&& out@[j].1.state == state
                },
        decreases paths@.len() - i,
    {
        let p = &paths[i];
        let obj = LocalObj {
            otype: get_otype(facts[i].is_dir),
            name: p.clone(),
            path: p.clone(),
            path_from: None,
            state: state,
        };
        out.push((sha1_str(p.as_str()), obj));
        i = i + 1;
    }
    out
}


/// Whether a line of a tree file is long enough to name an object: its
/// length in bytes, as `str::len` gives it, is more than five.
pub open spec fn long_line(line: Seq<char>) -> bool {
    (vstd::utf8::encode_utf8(line).len() as usize) > 5
}

/// Whether every long line of `lines` is made of three fields.
pub open spec fn lines_valid(lines: Seq<String>) -> bool {
    forall|i: int|
        0 <= i < lines.len() && long_line(#[trigger] lines[i]@) ==> crate::tree::line_fields(
            lines[i]@,
        ) is Some
}

/// Whether `e` is the entry that the line `type hash name` gives under the
/// folder `path`: keyed by the hash, an object of that type and name at
/// `path` joined with the name, in the default state.
pub open spec fn is_line_entry(e: (String, LocalObj), line: Seq<char>, path: Seq<char>) -> bool {
    let f = crate::tree::line_fields(line).unwrap();
    &&& e.0@ == f.1
    &&& e.1.otype@ == f.0
    &&& e.1.name@ == f.2
    &&& e.1.path@ == crate::paths::join_paths(path, f.2)
    &&& e.1.path_from is None
    &&& e.1.state == State::Default
}

/// Whether `es` are the entries that the long lines of `lines` give, in order.
pub open spec fn entries_for(es: Seq<(String, LocalObj)>, lines: Seq<String>, path: Seq<char>) -> bool
    decreases lines.len(),
{
    if lines.len() == 0 {
        es.len() == 0
    } else if long_line(lines.last()@) {
        &&& es.len() > 0
        &&& is_line_entry(es.last(), lines.last()@, path)
        &&& entries_for(es.drop_last(), lines.drop_last(), path)
    } else {
        entries_for(es, lines.drop_last(), path)
    }
}

fn line_entry(line: &String, path: &String) -> (r: Option<(String, LocalObj)>)
    ensures
        crate::tree::line_fields(line@) is Some <==> r is Some,
        r matches Some(e) ==> is_line_entry(e, line@, path@),
{
    match crate::tree::parse_line(line.clone()) {
        Some((ftype, hash, name)) => {
            let p = crate::paths::join_path(path.as_str(), name.as_str());
            Some(
                (
                    hash,
                    LocalObj {
                        otype: ftype,
                        name: name,
                        path: p,
                        path_from: None,
                        state: State::Default,
                    },
                ),
            )
        },
        None => None,
    }
}

/// Adds to `hashes` the objects that the lines of a tree file (or of the
/// head) list under the folder `path`: each line of more than five bytes is
/// `type hash name` and gives an entry keyed by the hash (see `is_line_entry`),
/// inserted as a hash map does. Returns `false`, and leaves `hashes` as it
/// was, when a long line is not made of three fields (an invalid object).
pub fn add_to_hashmap(lines: &Vec<String>, hashes: &mut ObjMap, path: &String) -> (r: bool)
    ensures
        r == lines_valid(lines@),
        !r ==> final(hashes)@ == old(hashes)@,
        r ==> exists|es: Seq<(String, LocalObj)>|
            entries_for(es, lines@, path@) && final(hashes)@ == extend(old(hashes)@, es),
        keys_distinct(old(hashes)@) ==> keys_distinct(final(hashes)@),
{
    let ghost h0 = hashes@;
    let mut entries: ObjMap = Vec::new();
    let mut i: usize = 0;
    while i < lines.len()
        invariant
            i <= lines@.len(),
            entries_for(entries@, lines@.subrange(0, i as int), path@),
            lines_valid(lines@.subrange(0, i as int)),
        decreases lines@.len() - i,
    {
        let line = &lines[i];
        let ghost ls = lines@.subrange(0, i + 1);
        assert(ls.drop_last() =~= lines@.subrange(0, i as int));
        assert(ls.last() == *line);
        let ls_str = line.as_str();
        let long = ls_str.len() > 5;
        assert(long == long_line(line@));
        if long {
            match line_entry(line, path) {
                Some(e) => {
                    let ghost before = entries@;
                    entries.push(e);
                    assert(entries@.drop_last() =~= before);
                },
                None => {
                    assert(!lines_valid(lines@)) by {
                        assert(long_line(lines@[i as int]@));
                    }
                    return false;
                },
            }
        }
        assert(lines_valid(ls)) by {
            assert forall|j: int| 0 <= j < ls.len() && long_line(#[trigger] ls[j]@) implies crate::tree::line_fields(ls[j]@) is Some by {
                if j < i {
                    assert(ls[j] == lines@.subrange(0, i as int)[j]);
                }
            }
        }
        i = i + 1;
    }
    assert(lines@.subrange(0, lines@.len() as int) =~= lines@);
    let ghost es = entries@;
    extend_exec(hashes, entries);
    proof {
        if keys_distinct(h0) {
            lemma_extend_keeps_keys_distinct(h0, es);
        }
    }
    true
}

/// Whether `p` is the repository's own folder (named `.nextsync`).
pub open spec fn is_config_path(p: Seq<char>) -> bool {
    crate::tree::file_name(p) == Some(".nextsync"@)
}

/// Whether `p` is the repository's own folder (named `.nextsync`).
pub fn is_nextsync_config(p: &String) -> (r: bool)
    ensures
        r == is_config_path(p@),
{
    match crate::tree::path_file_name(p.as_str()) {
        Some(n) => {
            let r = str_eq(n.as_str(), ".nextsync");
            proof {
                reveal_strlit(".nextsync");
            }
            r
        },
        None => false,
    }
}

/// The paths relative to `root` of the entries that are not the repository's
/// own folder, in order.
pub open spec fn listed_objects(entries: Seq<String>, root: Seq<char>) -> Seq<Seq<char>>
    decreases entries.len(),
{
    if entries.len() == 0 {
        Seq::empty()
    } else if is_config_path(entries.last()@) {
        listed_objects(entries.drop_last(), root)
    } else {
        listed_objects(entries.drop_last(), root).push(
            crate::paths::strip_path_prefix(entries.last()@, root).unwrap(),
        )
    }
}

/// Whether every entry but the repository's own folder lies under `root`.
pub open spec fn entries_under(entries: Seq<String>, root: Seq<char>) -> bool {
    forall|i: int|
        0 <= i < entries.len() && !is_config_path(#[trigger] entries[i]@)
            ==> crate::paths::strip_path_prefix(entries[i]@, root) is Some
}

/// Appends to `objects` the paths, relative to `root`, of the entries of a
/// folder that are not the repository's own folder.
pub fn add_to_vec(entries: &Vec<String>, objects: &mut Vec<String>, root: &String)
    requires
        entries_under(entries@, root@),
    ensures
        crate::paths::views(final(objects)@) == crate::paths::views(old(objects)@) + listed_objects(entries@, root@),
{
    let ghost o0 = crate::paths::views(objects@);
    let mut i: usize = 0;
    while i < entries.len()
        invariant
            i <= entries@.len(),
            entries_under(entries@, root@),
            crate::paths::views(objects@) == o0 + listed_objects(entries@.subrange(0, i as int), root@),
        decreases entries@.len() - i,
    {
        let e = &entries[i];
        let ghost es = entries@.subrange(0, i + 1);
        assert(es.drop_last() =~= entries@.subrange(0, i as int));
        assert(es.last() == *e);
        if !is_nextsync_config(e) {
            assert(crate::paths::strip_path_prefix(entries@[i as int]@, root@) is Some);
            match crate::paths::strip_prefix_path(e.as_str(), root.as_str()) {
                Some(rel) => {
                    let ghost before = objects@;
                    objects.push(rel);
                    assert(crate::paths::views(objects@) =~= crate::paths::views(before).push(objects@.last()@));
                },
                None => {},
            }
        }
        i = i + 1;
    }
    assert(entries@.subrange(0, entries@.len() as int) =~= entries@);
}

/// Every object of `m` marked deleted.
pub open spec fn all_deleted(m: Seq<(String, LocalObj)>) -> Seq<(String, LocalObj)> {
    m.map_values(
        |x: (String, LocalObj)|
            (
                x.0,
                LocalObj {
                    otype: x.1.otype,
                    name: x.1.name,
                    path: x.1.path,
                    path_from: x.1.path_from,
                    state: State::Deleted,
                },
            ),
    )
}

/// Marks every object of `hashes` deleted (what was known and is no longer
/// found).
pub fn mark_deleted(hashes: &mut ObjMap)
    ensures
        final(hashes)@ == all_deleted(old(hashes)@),
        keys_distinct(old(hashes)@) ==> keys_distinct(final(hashes)@),
{
    proof {
        if keys_distinct(hashes@) {
            lemma_all_deleted_keeps_keys_distinct(hashes@);
        }
    }
    let mut out: ObjMap = Vec::new();
    let mut i: usize = 0;
    while i < hashes.len()
        invariant
            i <= hashes@.len(),
            out@ == all_deleted(hashes@.subrange(0, i as int)),
        decreases hashes@.len() - i,
    {
        let mut o = hashes[i].1.duplicate();
        o.state = State::Deleted;
        out.push((hashes[i].0.clone(), o));
        assert(out@ =~= all_deleted(hashes@.subrange(0, i + 1)));
        i = i + 1;
    }
    assert(hashes@.subrange(0, hashes@.len() as int) =~= hashes@);
    *hashes = out;
}

/// What the working tree and the references tell of a new object: whether it
/// is a directory, the paths of the blobs with the same content (see
/// `Blob::get_all_identical_blobs`), and whether the first of those exists
/// under the root.
pub struct RetainFacts {
    pub is_dir: bool,
    pub identical: Vec<String>,
    pub first_exists: bool,
}

/// Whether `i` is the first of the paths `ids` whose SHA-1 is a key of `del`.
pub open spec fn is_first_deleted(del: Seq<(String, LocalObj)>, ids: Seq<String>, i: int) -> bool {
    &&& 0 <= i < ids.len()
    &&& has_key(del, crate::hash::sha1_hex(ids[i]@))
    &&& forall|k: int| 0 <= k < i ==> !has_key(del, crate::hash::sha1_hex((#[trigger] ids[k])@))
}

/// Whether the SHA-1 of one of the paths `ids` is a key of `del`.
pub open spec fn some_deleted(del: Seq<(String, LocalObj)>, ids: Seq<String>) -> bool {
    exists|i: int| 0 <= i < ids.len() && has_key(del, crate::hash::sha1_hex((#[trigger] ids[i])@))
}

/// `o` coming from `from`, in the state `state`.
pub open spec fn with_origin(o: LocalObj, from: String, state: State) -> LocalObj {
    LocalObj { otype: o.otype, name: o.name, path: o.path, path_from: Some(from), state }
}

/// What becomes of the new object `obj` (keyed `key`), given the moved and
/// copied objects `mc` and the deleted ones `del`: a directory stays new; a
/// file with the same content as a deleted one is moved from it (which is no
/// longer deleted); else a file with the same content as an existing one is
/// copied from it; else it stays new. Gives whether it stays new, and the
/// moved and copied objects and the deleted ones after.
pub open spec fn retain_outcome(
    key: String,
    obj: LocalObj,
    f: RetainFacts,
    mc: Seq<(String, LocalObj)>,
    del: Seq<(String, LocalObj)>,
) -> (bool, Seq<(String, LocalObj)>, Seq<(String, LocalObj)>) {
    let ids = f.identical@;
    if f.is_dir {
        (true, mc, del)
    } else if some_deleted(del, ids) {
        let i = choose|i: int| is_first_deleted(del, ids, i);
        let h = crate::hash::sha1_hex(ids[i]@);
        (
            false,
            insert_entry(mc, (key, with_origin(obj, find_value(del, h).path, State::Moved))),
            remove_key(del, h),
        )
    } else if ids.len() > 0 && f.first_exists {
        (false, insert_entry(mc, (key, with_origin(obj, ids[0], State::Copied))), del)
    } else {
        (true, mc, del)
    }
}

fn should_retain(
    key: &String,
    obj: &LocalObj,
    f: &RetainFacts,
    mc: &mut ObjMap,
    del: &mut ObjMap,
) -> (r: bool)
    ensures
        (r, final(mc)@, final(del)@) == retain_outcome(*key, *obj, *f, old(mc)@, old(del)@),
{
    if f.is_dir {
        return true;
    }
    let ghost ids = f.identical@;
    let mut j: usize = 0;
    while j < f.identical.len()
        invariant
            j <= ids.len(),
            ids == f.identical@,
            mc@ == old(mc)@,
            del@ == old(del)@,
            !f.is_dir,
            forall|k: int| 0 <= k < j ==> !has_key(del@, crate::hash::sha1_hex((#[trigger] ids[k])@)),
        decreases ids.len() - j,
    {
        let h = sha1_str(f.identical[j].as_str());
        match get_key(del, &h) {
            Some(d) => {
                proof {
                    assert(is_first_deleted(del@, ids, j as int));
                    assert(some_deleted(del@, ids));
                    let c = choose|i: int| is_first_deleted(del@, ids, i);
                    assert(is_first_deleted(del@, ids, c));
                    if c < j {
                        assert(!has_key(del@, crate::hash::sha1_hex(ids[c]@)));
                    } else if c > j {
                        assert(!has_key(del@, crate::hash::sha1_hex(ids[j as int]@)));
                    }
                    assert(c == j);
                }
                let moved = LocalObj {
                    otype: obj.otype.clone(),
                    name: obj.name.clone(),
                    path: obj.path.clone(),
                    path_from: Some(d.path),
                    state: State::Moved,
                };
                remove_entry(del, &h);
                insert_entry_exec(mc, (key.clone(), moved));
                return false;
            },
            None => {},
        }
        j = j + 1;
    }
    assert(!some_deleted(del@, ids));
    if f.identical.len() > 0 && f.first_exists {
        let copied = LocalObj {
            otype: obj.otype.clone(),
            name: obj.name.clone(),
            path: obj.path.clone(),
            path_from: Some(f.identical[0].clone()),
            state: State::Copied,
        };
        insert_entry_exec(mc, (key.clone(), copied));
        return false;
    }
    true
}

/// `get_move_copy_objs` over the new objects `entries` (with their facts), in
/// order: the new objects that stay new, the moved and copied objects, and
/// the deleted ones left.
pub open spec fn move_copy_fold(
    entries: Seq<(String, LocalObj)>,
    facts: Seq<RetainFacts>,
    del: Seq<(String, LocalObj)>,
) -> (Seq<(String, LocalObj)>, Seq<(String, LocalObj)>, Seq<(String, LocalObj)>)
    decreases entries.len(),
{
    if entries.len() == 0 {
        (Seq::empty(), Seq::empty(), del)
    } else {
        let prev = move_copy_fold(entries.drop_last(), facts, del);
        let e = entries.last();
        let o = retain_outcome(e.0, e.1, facts[entries.len() - 1], prev.1, prev.2);
        (
            if o.0 {
                prev.0.push(e)
            } else {
                prev.0
            },
            o.1,
            o.2,
        )
    }
}

/// Finding moved and copied objects gives them distinct keys, and keeps the
/// keys of the deleted objects distinct.
pub proof fn lemma_move_copy_keeps_keys_distinct(
    entries: Seq<(String, LocalObj)>,
    facts: Seq<RetainFacts>,
    del: Seq<(String, LocalObj)>,
)
    requires
        keys_distinct(del),
    ensures
        keys_distinct(move_copy_fold(entries, facts, del).1),
        keys_distinct(move_copy_fold(entries, facts, del).2),
    decreases entries.len(),
{
    if entries.len() == 0 {
        let r = move_copy_fold(entries, facts, del).1;
        assert(r.len() == 0);
    } else {
        lemma_move_copy_keeps_keys_distinct(entries.drop_last(), facts, del);
        let prev = move_copy_fold(entries.drop_last(), facts, del);
        let e = entries.last();
        let f = facts[entries.len() - 1];
        let ids = f.identical@;
        if f.is_dir {
        } else if some_deleted(prev.2, ids) {
            let i = choose|i: int| is_first_deleted(prev.2, ids, i);
            let h = crate::hash::sha1_hex(ids[i]@);
            lemma_insert_keeps_keys_distinct(
                prev.1,
                (e.0, with_origin(e.1, find_value(prev.2, h).path, State::Moved)),
            );
            lemma_remove_key_keeps_keys_distinct(prev.2, h);
        } else if ids.len() > 0 && f.first_exists {
            lemma_insert_keeps_keys_distinct(prev.1, (e.0, with_origin(e.1, ids[0], State::Copied)));
        }
    }
}

/// Finds, among the new objects, those moved from a deleted object or copied
/// from an existing one (see `retain_outcome`), takes them out of `new_objs`
/// (and the deleted objects they were moved from out of `del_objs`), and
/// returns them.
pub fn get_move_copy_objs(new_objs: &mut ObjMap, del_objs: &mut ObjMap, facts: &Vec<RetainFacts>) -> (r: ObjMap)
    requires
        facts@.len() == old(new_objs)@.len(),
    ensures
        final(new_objs)@ == move_copy_fold(old(new_objs)@, facts@, old(del_objs)@).0,
        r@ == move_copy_fold(old(new_objs)@, facts@, old(del_objs)@).1,
        final(del_objs)@ == move_copy_fold(old(new_objs)@, facts@, old(del_objs)@).2,
        keys_distinct(old(del_objs)@) ==> keys_distinct(r@) && keys_distinct(final(del_objs)@),
{
    proof {
        if keys_distinct(del_objs@) {
            lemma_move_copy_keeps_keys_distinct(new_objs@, facts@, del_objs@);
        }
    }
    let ghost d0 = del_objs@;
    let mut kept: ObjMap = Vec::new();
    let mut mc: ObjMap = Vec::new();
    let mut i: usize = 0;
    while i < new_objs.len()
        invariant
            i <= new_objs@.len(),
            facts@.len() == new_objs@.len(),
            move_copy_fold(new_objs@.subrange(0, i as int), facts@, d0) == (kept@, mc@, del_objs@),
        decreases new_objs@.len() - i,
    {
        let ghost es = new_objs@.subrange(0, i + 1);
        assert(es.drop_last() =~= new_objs@.subrange(0, i as int));
        assert(es.last() == new_objs@[i as int]);
        let keep = should_retain(&new_objs[i].0, &new_objs[i].1, &facts[i], &mut mc, del_objs);
        if keep {
            kept.push((new_objs[i].0.clone(), new_objs[i].1.duplicate()));
        }
        i = i + 1;
    }
    assert(new_objs@.subrange(0, new_objs@.len() as int) =~= new_objs@);
    *new_objs = kept;
    mc
}

/// The colour in which a piece of a status line is shown.
#[derive(PartialEq, Eq, Structural, Clone, Copy)]
pub enum Tint {
    Plain,
    Red,
    Green,
}

/// A piece of a status line and its colour.
pub struct Segment {
    pub text: String,
    pub tint: Tint,
}

/// A status line, as its pieces of text and their colours.
pub open spec fn line_view(l: Seq<Segment>) -> Seq<(Seq<char>, Tint)> {
    l.map_values(|g: Segment| (g.text@, g.tint))
}

/// The lines of a status report.
pub open spec fn report_view(r: Seq<Vec<Segment>>) -> Seq<Seq<(Seq<char>, Tint)>> {
    r.map_values(|l: Vec<Segment>| line_view(l@))
}

/// A line of one plain piece.
pub open spec fn plain_line(t: Seq<char>) -> Seq<(Seq<char>, Tint)> {
    seq![(t, Tint::Plain)]
}

/// The line that shows the object `o` in the colour `c` (none for an
/// unchanged object). Of a copied object, a staged one shows its label plain
/// and an unstaged one its origin plain.
pub open spec fn styled_lines(o: LocalObj, c: Tint) -> Seq<Seq<(Seq<char>, Tint)>> {
    let ind = ("      "@, Tint::Plain);
    match o.state {
        State::Deleted => seq![seq![ind, ("deleted:"@, c), ("    "@, Tint::Plain), (o.name@, c)]],
        State::New => seq![seq![ind, ("new:"@, c), ("        "@, Tint::Plain), (o.name@, c)]],
        State::Modified => seq![seq![ind, ("modified:"@, c), ("   "@, Tint::Plain), (o.name@, c)]],
        State::Moved => seq![
            seq![
                ind,
                ("moved:"@, c),
                ("      "@, Tint::Plain),
                (o.path_from.unwrap()@, c),
                (" => "@, Tint::Plain),
                (o.path@, c),
            ],
        ],
        State::Copied => seq![
            seq![
                ind,
                ("copied:"@, if c == Tint::Green { Tint::Plain } else { c }),
                ("     "@, Tint::Plain),
                (o.path_from.unwrap()@, if c == Tint::Red { Tint::Plain } else { c }),
                (" => "@, Tint::Plain),
                (o.path@, c),
            ],
        ],
        State::Default => Seq::empty(),
    }
}

/// The lines that show the objects `objs` in the colour `c`, in order.
pub open spec fn styled_list(objs: Seq<LocalObj>, c: Tint) -> Seq<Seq<(Seq<char>, Tint)>>
    decreases objs.len(),
{
    if objs.len() == 0 {
        Seq::empty()
    } else {
        styled_list(objs.drop_last(), c) + styled_lines(objs.last(), c)
    }
}

/// The line that shows the object `o` without style (none for an unchanged
/// object).
pub open spec fn plain_lines(o: LocalObj) -> Seq<Seq<(Seq<char>, Tint)>> {
    match o.state {
        State::Deleted => seq![plain_line("deleted: "@ + o.name@)],
        State::New => seq![plain_line("new: "@ + o.name@)],
        State::Modified => seq![plain_line("modified: "@ + o.name@)],
        State::Moved => seq![plain_line("moved: "@ + o.path_from.unwrap()@ + " => "@ + o.path@)],
        State::Copied => seq![plain_line("copied: "@ + o.path_from.unwrap()@ + " => "@ + o.path@)],
        State::Default => Seq::empty(),
    }
}

/// The lines that show the objects `objs` without style, in order.
pub open spec fn plain_list(objs: Seq<LocalObj>) -> Seq<Seq<(Seq<char>, Tint)>>
    decreases objs.len(),
{
    if objs.len() == 0 {
        Seq::empty()
    } else {
        plain_list(objs.drop_last()) + plain_lines(objs.last())
    }
}

/// The status report: without style, the staged changes alone, one per line;
/// otherwise a clean tree is said so, and each of the staged changes (in
/// green) and the changes not staged (in red) comes under its heading.
pub open spec fn status_report(nostyle: bool, staged: Seq<LocalObj>, objs: Seq<LocalObj>) -> Seq<
    Seq<(Seq<char>, Tint)>,
> {
    if nostyle {
        plain_list(staged)
    } else if staged.len() == 0 && objs.len() == 0 {
        seq![plain_line("Nothing to push, working tree clean"@)]
    } else {
        (if staged.len() != 0 {
            seq![
                plain_line("Changes to be pushed:"@),
                plain_line("  (Use \"nextsync reset\" to unstage)"@),
            ] + styled_list(staged, Tint::Green)
        } else {
            Seq::empty()
        }) + (if objs.len() != 0 {
            seq![
                plain_line("Changes not staged for push:"@),
                plain_line("  (Use\"nextsync add <file>...\" to update what will be pushed)"@),
            ] + styled_list(objs, Tint::Red)
        } else {
            Seq::empty()
        })
    }
}

/// The line of a changed object names its state: objects in two different
/// states are shown with different labels, whatever the colours.
pub proof fn lemma_label_names_state(o1: LocalObj, o2: LocalObj, c1: Tint, c2: Tint)
    requires
        o1.state != State::Default,
        o2.state != State::Default,
        o1.state != o2.state,
    ensures
        styled_lines(o1, c1).len() == 1,
        styled_lines(o2, c2).len() == 1,
        styled_lines(o1, c1)[0].len() >= 2,
        styled_lines(o2, c2)[0].len() >= 2,
        styled_lines(o1, c1)[0][1].0 != styled_lines(o2, c2)[0][1].0,
{
    reveal_strlit("deleted:");
    reveal_strlit("new:");
    reveal_strlit("modified:");
    reveal_strlit("moved:");
    reveal_strlit("copied:");
    let l1 = styled_lines(o1, c1)[0][1].0;
    let l2 = styled_lines(o2, c2)[0][1].0;
    assert(l1.len() != l2.len());
}

/// A modified object not staged is shown, under the heading of the changes
/// not staged, on a line labelled `modified:` in red with its name; without
/// style, a staged modified object is shown as `modified: ` and its name.
pub proof fn lemma_modified_shown_as_modified(o: LocalObj)
    requires
        o.state == State::Modified,
    ensures
        status_report(false, Seq::empty(), seq![o]).len() == 3,
        status_report(false, Seq::empty(), seq![o])[0] == plain_line("Changes not staged for push:"@),
        status_report(false, Seq::empty(), seq![o])[2].len() == 4,
        status_report(false, Seq::empty(), seq![o])[2][1] == ("modified:"@, Tint::Red),
        status_report(false, Seq::empty(), seq![o])[2][3] == (o.name@, Tint::Red),
        status_report(true, seq![o], Seq::empty()) == seq![plain_line("modified: "@ + o.name@)],
{
    let one = seq![o];
    assert(one.drop_last() =~= Seq::<LocalObj>::empty());
    assert(one.last() == o);
    assert(one.len() == 1);
    assert(styled_list(one.drop_last(), Tint::Red) == Seq::<Seq<(Seq<char>, Tint)>>::empty());
    assert(plain_list(one.drop_last()) == Seq::<Seq<(Seq<char>, Tint)>>::empty());
    assert(styled_list(one, Tint::Red) == styled_list(one.drop_last(), Tint::Red) + styled_lines(o, Tint::Red));
    assert(styled_list(one, Tint::Red) =~= styled_lines(o, Tint::Red));
    assert(plain_list(one) == plain_list(one.drop_last()) + plain_lines(o));
    assert(plain_list(one) =~= plain_lines(o));
}

/// Whether every moved or copied object of `objs` tells where it comes from.
pub open spec fn origins_known(objs: Seq<LocalObj>) -> bool {
    forall|i: int|
        0 <= i < objs.len() && ((#[trigger] objs[i]).state == State::Moved || objs[i].state
            == State::Copied) ==> objs[i].path_from is Some
}

fn piece(text: &str, tint: Tint) -> (r: Segment)
    ensures
        r.text@ == text@,
        r.tint == tint,
{
    Segment { text: String::from_str(text), tint }
}

fn owned_piece(text: &String, tint: Tint) -> (r: Segment)
    ensures
        r.text@ == text@,
        r.tint == tint,
{
    Segment { text: text.clone(), tint }
}

fn one_line(text: &str) -> (r: Vec<Segment>)
    ensures
        line_view(r@) == plain_line(text@),
{
    let v = vec![piece(text, Tint::Plain)];
    assert(line_view(v@) =~= plain_line(text@));
    v
}

fn push_lines(out: &mut Vec<Vec<Segment>>, more: Vec<Vec<Segment>>)
    ensures
        report_view(final(out)@) == report_view(old(out)@) + report_view(more@),
{
    let mut more = more;
    let ghost m0 = more@;
    let ghost o0 = out@;
    out.append(&mut more);
    assert(report_view(out@) =~= report_view(o0) + report_view(m0));
}

fn styled_object(o: &LocalObj, c: Tint) -> (r: Vec<Vec<Segment>>)
    requires
        o.state == State::Moved || o.state == State::Copied ==> o.path_from is Some,
    ensures
        report_view(r@) == styled_lines(*o, c),
{
    let mut l: Vec<Segment> = Vec::new();
    l.push(piece("      ", Tint::Plain));
    match o.state {
        State::Deleted => {
            l.push(piece("deleted:", c));
            l.push(piece("    ", Tint::Plain));
            l.push(owned_piece(&o.name, c));
        },
        State::New => {
            l.push(piece("new:", c));
            l.push(piece("        ", Tint::Plain));
            l.push(owned_piece(&o.name, c));
        },
        State::Modified => {
            l.push(piece("modified:", c));
            l.push(piece("   ", Tint::Plain));
            l.push(owned_piece(&o.name, c));
        },
        State::Moved => {
            let from = match &o.path_from {
                Some(p) => p,
                None => { return Vec::new(); },
            };
            l.push(piece("moved:", c));
            l.push(piece("      ", Tint::Plain));
            l.push(owned_piece(from, c));
            l.push(piece(" => ", Tint::Plain));
            l.push(owned_piece(&o.path, c));
        },
        State::Copied => {
            let from = match &o.path_from {
                Some(p) => p,
                None => { return Vec::new(); },
            };
            let label_tint = if c == Tint::Green { Tint::Plain } else { c };
            let from_tint = if c == Tint::Red { Tint::Plain } else { c };
            l.push(piece("copied:", label_tint));
            l.push(piece("     ", Tint::Plain));
            l.push(owned_piece(from, from_tint));
            l.push(piece(" => ", Tint::Plain));
            l.push(owned_piece(&o.path, c));
        },
        State::Default => {
            let r: Vec<Vec<Segment>> = Vec::new();
            assert(report_view(r@) =~= styled_lines(*o, c));
            return r;
        },
    }
    let r = vec![l];
    assert(line_view(r@[0]@) =~= styled_lines(*o, c)[0]);
    assert(report_view(r@) =~= styled_lines(*o, c));
    r
}

fn plain_object(o: &LocalObj) -> (r: Vec<Vec<Segment>>)
    requires
        o.state == State::Moved || o.state == State::Copied ==> o.path_from is Some,
    ensures
        report_view(r@) == plain_lines(*o),
{
    let mut text = match o.state {
        State::Deleted => String::from_str("deleted: "),
        State::New => String::from_str("new: "),
        State::Modified => String::from_str("modified: "),
        State::Moved => String::from_str("moved: "),
        State::Copied => String::from_str("copied: "),
        State::Default => {
            let r: Vec<Vec<Segment>> = Vec::new();
            assert(report_view(r@) =~= plain_lines(*o));
            return r;
        },
    };
    match o.state {
        State::Moved | State::Copied => {
            match &o.path_from {
                Some(p) => text.append(p.as_str()),
                None => {},
            }
            text.append(" => ");
            text.append(o.path.as_str());
        },
        _ => {
            text.append(o.name.as_str());
        },
    }
    let r = vec![vec![Segment { text, tint: Tint::Plain }]];
    assert(line_view(r@[0]@) =~= plain_lines(*o)[0]);
    assert(report_view(r@) =~= plain_lines(*o));
    r
}

fn object_list(objs: &Vec<LocalObj>, nostyle: bool, c: Tint) -> (r: Vec<Vec<Segment>>)
    requires
        origins_known(objs@),
    ensures
        report_view(r@) == (if nostyle {
            plain_list(objs@)
        } else {
            styled_list(objs@, c)
        }),
{
    let mut out: Vec<Vec<Segment>> = Vec::new();
    let mut i: usize = 0;
    while i < objs.len()
        invariant
            i <= objs@.len(),
            origins_known(objs@),
            report_view(out@) == (if nostyle {
                plain_list(objs@.subrange(0, i as int))
            } else {
                styled_list(objs@.subrange(0, i as int), c)
            }),
        decreases objs@.len() - i,
    {
        let ghost os = objs@.subrange(0, i + 1);
        assert(os.drop_last() =~= objs@.subrange(0, i as int));
        assert(os.last() == objs@[i as int]);
        assert(objs@[i as int].state == State::Moved || objs@[i as int].state == State::Copied
            ==> objs@[i as int].path_from is Some);
        let more = if nostyle {
            plain_object(&objs[i])
        } else {
            styled_object(&objs[i], c)
        };
        push_lines(&mut out, more);
        i = i + 1;
    }
    assert(objs@.subrange(0, objs@.len() as int) =~= objs@);
    out
}

/// The status report of the staged changes `staged_objs` and the changes not
/// staged `objs` (see `status_report`), line by line.
pub fn status(args: StatusArgs, staged_objs: Vec<LocalObj>, objs: Vec<LocalObj>) -> (r: Vec<
    Vec<Segment>,
>)
    requires
        origins_known(staged_objs@),
        !args.nostyle ==> origins_known(objs@),
    ensures
        report_view(r@) == status_report(args.nostyle, staged_objs@, objs@),
{
    if args.nostyle {
        return object_list(&staged_objs, true, Tint::Plain);
    }
    let mut out: Vec<Vec<Segment>> = Vec::new();
    if staged_objs.len() == 0 && objs.len() == 0 {
        out.push(one_line("Nothing to push, working tree clean"));
        assert(report_view(out@) =~= status_report(args.nostyle, staged_objs@, objs@));
        return out;
    }
    let ghost first: Seq<Seq<(Seq<char>, Tint)>> = Seq::empty();
    if staged_objs.len() != 0 {
        out.push(one_line("Changes to be pushed:"));
        out.push(one_line("  (Use \"nextsync reset\" to unstage)"));
        let more = object_list(&staged_objs, false, Tint::Green);
        push_lines(&mut out, more);
    }
    let ghost head = report_view(out@);
    assert(head =~= (if staged_objs@.len() != 0 {
        seq![
            plain_line("Changes to be pushed:"@),
            plain_line("  (Use \"nextsync reset\" to unstage)"@),
        ] + styled_list(staged_objs@, Tint::Green)
    } else {
        Seq::empty()
    }));
    if objs.len() != 0 {
        out.push(one_line("Changes not staged for push:"));
        out.push(one_line("  (Use\"nextsync add <file>...\" to update what will be pushed)"));
        let more = object_list(&objs, false, Tint::Red);
        push_lines(&mut out, more);
    }
    assert(report_view(out@) =~= status_report(args.nostyle, staged_objs@, objs@));
    out
}

/// The walk of the working tree against what the last synchronisation knew:
/// the known objects not found yet (keyed by the SHA-1 of their path), the
/// paths found and not known, the paths found and known whose folders or
/// contents are still to look at, and the files found modified.
pub struct DiffWalk {
    pub hashes: ObjMap,
    pub objs: Vec<String>,
    pub to_analyse: Vec<String>,
    pub modified: Vec<String>,
}

/// Whether `hashes`, `objs` and `found` are what reading the tree lines
/// `lines` (when there are some) under `path` into `m`, listing the folder
/// entries `entries` (when there are some) after `o`, and comparing the two
/// (`remove_duplicate`, on both sides) give.
pub open spec fn after_visit(
    m: Seq<(String, LocalObj)>,
    o: Seq<String>,
    lines: Option<Vec<String>>,
    path: Seq<char>,
    entries: Option<Vec<String>>,
    root: Seq<char>,
    hashes: Seq<(String, LocalObj)>,
    objs: Seq<String>,
    found: Seq<String>,
) -> bool {
    exists|es: Seq<(String, LocalObj)>, os: Seq<String>|
        {
            &&& match lines {
                Some(ls) => entries_for(es, ls@, path),
                None => es.len() == 0,
            }
            &&& crate::paths::views(os) == crate::paths::views(o) + match entries {
                Some(en) => listed_objects(en@, root),
                None => Seq::empty(),
            }
            &&& (hashes, objs, found) == dup_fold(extend(m, es), os, RemoveSide::Both)
        }
}

/// Whether every line given is valid and every entry given lies under `root`.
pub open spec fn visit_ready(lines: Option<Vec<String>>, entries: Option<Vec<String>>, root: Seq<char>) -> bool {
    &&& lines matches Some(ls) ==> lines_valid(ls@)
    &&& entries matches Some(en) ==> entries_under(en@, root)
}

fn visit(
    hashes: &mut ObjMap,
    objs: &mut Vec<String>,
    lines: Option<Vec<String>>,
    path: &String,
    entries: Option<Vec<String>>,
    root: &String,
) -> (r: Vec<String>)
    requires
        visit_ready(lines, entries, root@),
    ensures
        after_visit(old(hashes)@, old(objs)@, lines, path@, entries, root@, final(hashes)@, final(objs)@, r@),
        keys_distinct(old(hashes)@) ==> keys_distinct(final(hashes)@),
{
    let ghost m0 = hashes@;
    let ghost o0 = objs@;
    let ghost mut es: Seq<(String, LocalObj)> = Seq::empty();
    match &lines {
        Some(ls) => {
            add_to_hashmap(ls, hashes, path);
            proof {
                es = choose|e: Seq<(String, LocalObj)>| entries_for(e, ls@, path@) && hashes@ == extend(m0, e);
            }
        },
        None => {
            assert(extend(m0, es) == m0);
        },
    }
    let ghost m1 = hashes@;
    match &entries {
        Some(en) => {
            add_to_vec(en, objs, root);
        },
        None => {
            assert(crate::paths::views(objs@) =~= crate::paths::views(o0) + Seq::<Seq<char>>::empty());
        },
    }
    let ghost os = objs@;
    let found = remove_duplicate(hashes, objs, RemoveSide::Both);
    assert(m1 == extend(m0, es));
    found
}

impl DiffWalk {
    /// Starts the walk: the objects that the head lists (`head_lines`, when it
    /// could be read) under `dist`, the entries of the root (`entries`, when
    /// they could be read), compared. `None` when a line of the head is not a
    /// valid object.
    pub fn new(head_lines: Option<Vec<String>>, dist: &String, entries: Option<Vec<String>>, root: &String) -> (r: Option<DiffWalk>)
        requires
            entries matches Some(en) ==> entries_under(en@, root@),
        ensures
            r is None <==> (head_lines matches Some(ls) && !lines_valid(ls@)),
            r matches Some(w) ==> after_visit(Seq::empty(), Seq::empty(), head_lines, dist@, entries, root@, w.hashes@, w.objs@, w.to_analyse@),
            r matches Some(w) ==> w.modified@.len() == 0,
            r matches Some(w) ==> keys_distinct(w.hashes@),
    {
        match &head_lines {
            Some(ls) => {
                let mut probe: ObjMap = Vec::new();
                if !add_to_hashmap(ls, &mut probe, dist) {
                    return None;
                }
            },
            None => {},
        }
        let mut hashes: ObjMap = Vec::new();
        let mut objs: Vec<String> = Vec::new();
        let found = visit(&mut hashes, &mut objs, head_lines, dist, entries, root);
        Some(DiffWalk { hashes, objs, to_analyse: found, modified: Vec::new() })
    }

    /// Takes the next path to look at (the last one added); `None` when none is left.
    pub fn next(&mut self) -> (r: Option<String>)
        ensures
            old(self).to_analyse@.len() == 0 ==> r is None && final(self).to_analyse@ == old(self).to_analyse@,
            old(self).to_analyse@.len() > 0 ==> r == Some(old(self).to_analyse@.last())
                && final(self).to_analyse@ == old(self).to_analyse@.drop_last(),
            final(self).hashes == old(self).hashes,
            final(self).objs == old(self).objs,
            final(self).modified == old(self).modified,
    {
        self.to_analyse.pop()
    }

    /// Looks into the folder `cur`: the objects its tree lists (`lines`, when
    /// it could be read) join the known ones, its entries (`entries`, when they
    /// could be read) the paths found, and the paths on both sides are to look
    /// at next. Returns `false`, with nothing changed, when a line of the tree
    /// is not a valid object.
    pub fn visit_dir(&mut self, cur: &String, lines: Option<Vec<String>>, entries: Option<Vec<String>>, root: &String) -> (ok: bool)
        requires
            entries matches Some(en) ==> entries_under(en@, root@),
        ensures
            ok <==> !(lines matches Some(ls) && !lines_valid(ls@)),
            !ok ==> *final(self) == *old(self),
            ok ==> exists|found: Seq<String>|
                after_visit(old(self).hashes@, old(self).objs@, lines, cur@, entries, root@, final(self).hashes@, final(self).objs@, found)
                && final(self).to_analyse@ == old(self).to_analyse@ + found,
            final(self).modified == old(self).modified,
            keys_distinct(old(self).hashes@) ==> keys_distinct(final(self).hashes@),
    {
        match &lines {
            Some(ls) => {
                let mut probe: ObjMap = Vec::new();
                if !add_to_hashmap(ls, &mut probe, cur) {
                    return false;
                }
            },
            None => {},
        }
        let mut found = visit(&mut self.hashes, &mut self.objs, lines, cur, entries, root);
        let ghost f = found@;
        self.to_analyse.append(&mut found);
        true
    }

    /// Looks at the file `cur`: noted modified when `changed` (see `Blob::has_change`).
    pub fn visit_file(&mut self, cur: String, changed: bool)
        ensures
            final(self).modified@ == if changed {
                old(self).modified@.push(cur)
            } else {
                old(self).modified@
            },
            final(self).hashes == old(self).hashes,
            final(self).objs == old(self).objs,
            final(self).to_analyse == old(self).to_analyse,
    {
        if changed {
            self.modified.push(cur);
        }
    }

    /// Ends the walk: the known objects not found (marked deleted), the paths
    /// found and not known, and the files modified.
    pub fn finish(self) -> (r: (ObjMap, Vec<String>, Vec<String>))
        ensures
            r.0@ == all_deleted(self.hashes@),
            r.1 == self.objs,
            r.2 == self.modified,
            keys_distinct(self.hashes@) ==> keys_distinct(r.0@),
    {
        let mut hashes = self.hashes;
        mark_deleted(&mut hashes);
        (hashes, self.objs, self.modified)
    }
}
} // verus!
