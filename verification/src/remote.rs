//! Walking the remote tree: sorting each listing of the server into files and
//! folders, deciding which folders to list next, and noting, for each folder
//! kept, which children the server has.

use vstd::prelude::*;
use vstd::string::*;
use crate::props::{ObjProps, PropsView};
use crate::paths::{split_str, full_path_components, render_full_path, views};
use crate::text::{chars_of, substring, str_eq};

verus! {

/// How to walk: the depth of each listing (`None` for 0) and the folder to start from.
pub struct EnumerateOptions {
    pub depth: Option<String>,
    pub relative_s: Option<String>,
}

/// The number of pieces of `s` between slashes.
pub open spec fn depth_of(s: Seq<char>) -> nat {
    crate::paths::split_on(s, '/').len()
}

/// The depth of a path: its number of pieces between slashes, as a `u16`
/// (kept modulo 65536).
pub fn calc_depth_string(s: String) -> (r: u16)
    ensures
        r as int == depth_of(s@) as int % 65536,
{
    let pieces = split_str(s.as_str(), '/');
    (pieces.len() % 65536) as u16
}

/// The relative path of a remote object (empty when unknown).
pub open spec fn rel_of(o: PropsView) -> Seq<char> {
    match o.relative_s {
        Some(r) => r,
        None => Seq::empty(),
    }
}

/// The depth of a remote object.
pub open spec fn obj_depth(o: PropsView) -> int {
    depth_of(rel_of(o)) as int % 65536
}

fn calc_depth(obj: &ObjProps) -> (r: u16)
    ensures
        r as int == obj_depth(obj@),
{
    match &obj.relative_s {
        Some(r) => calc_depth_string(r.clone()),
        None => calc_depth_string(String::new()),
    }
}

/// Whether a remote object is a directory (its address ends with `/`).
pub open spec fn is_dir_view(o: PropsView) -> bool {
    o.href matches Some(h) && crate::text::ends_with(h, seq!['/'])
}

/// What a walk has gathered: files, folders to list next, folders kept, the
/// children seen of each kept folder, the depth below which objects are skipped
/// (0 for none), and whether it met an object it cannot handle.
pub struct WalkState {
    pub files: Seq<PropsView>,
    pub folders: Seq<PropsView>,
    pub all_folders: Seq<PropsView>,
    pub children: Seq<(Seq<char>, Seq<Seq<char>>)>,
    pub skip_depth: int,
    pub failed: bool,
}

/// The folder a path lies in (`PathBuf::pop`; a path with no component stays).
pub open spec fn parent_str(p: Seq<char>) -> Seq<char> {
    if crate::paths::full_components(p).len() == 0 {
        p
    } else {
        crate::tree::parent_of(p)
    }
}

/// Whether some folder noted is `k`.
pub open spec fn has_folder(m: Seq<(Seq<char>, Seq<Seq<char>>)>, k: Seq<char>) -> bool {
    exists|i: int| 0 <= i < m.len() && (#[trigger] m[i]).0 == k
}

/// `c` added to the children of the folder `k` (the first entry for it).
pub open spec fn add_child(m: Seq<(Seq<char>, Seq<Seq<char>>)>, k: Seq<char>, c: Seq<char>) -> Seq<
    (Seq<char>, Seq<Seq<char>>),
>
    decreases m.len(),
{
    if m.len() == 0 {
        m
    } else if m[0].0 == k {
        seq![(m[0].0, m[0].1.push(c))] + m.drop_first()
    } else {
        seq![m[0]] + add_child(m.drop_first(), k, c)
    }
}

/// Every entry for the folder `k` emptied of its children.
pub open spec fn empty_folder(m: Seq<(Seq<char>, Seq<Seq<char>>)>, k: Seq<char>) -> Seq<
    (Seq<char>, Seq<Seq<char>>),
>
    decreases m.len(),
{
    if m.len() == 0 {
        m
    } else if m.last().0 == k {
        empty_folder(m.drop_last(), k).push((k, Seq::empty()))
    } else {
        empty_folder(m.drop_last(), k).push(m.last())
    }
}

/// The folder `k` noted with no child yet (replacing what was noted of it).
pub open spec fn reset_folder(m: Seq<(Seq<char>, Seq<Seq<char>>)>, k: Seq<char>) -> Seq<
    (Seq<char>, Seq<Seq<char>>),
> {
    if has_folder(m, k) {
        empty_folder(m, k)
    } else {
        m.push((k, Seq::empty()))
    }
}

/// `s` without its last character (unchanged when empty).
pub open spec fn drop_last_char(s: Seq<char>) -> Seq<char> {
    if s.len() == 0 {
        s
    } else {
        s.drop_last()
    }
}

/// One object of a listing, walked with skipping: the object is noted among
/// the children of its folder; objects below a skipped folder are passed over;
/// a folder not skipped is kept (and noted, with no child yet) and, when it
/// lies `d` levels below the listed folder, listed next; a file not skipped is
/// kept. An object without relative path, or a folder above the listed one,
/// cannot be handled.
pub open spec fn skip_step(st: WalkState, o: PropsView, skip: bool, dd: int, d: int) -> WalkState {
    if st.failed {
        st
    } else if o.relative_s is None {
        WalkState { failed: true, ..st }
    } else {
        let cur = obj_depth(o);
        let r = rel_of(o);
        let par = parent_str(r);
        let m1 = if has_folder(st.children, par) {
            add_child(st.children, par, r)
        } else {
            st.children
        };
        if st.skip_depth != 0 && st.skip_depth < cur {
            WalkState { children: m1, ..st }
        } else if is_dir_view(o) {
            if cur < dd {
                WalkState { failed: true, children: m1, ..st }
            } else {
                let listed = cur - dd == d && !skip;
                WalkState {
                    children: if skip {
                        m1
                    } else {
                        reset_folder(m1, drop_last_char(r))
                    },
                    skip_depth: if skip {
                        cur
                    } else {
                        0
                    },
                    all_folders: if skip {
                        st.all_folders
                    } else {
                        st.all_folders.push(o)
                    },
                    folders: if listed {
                        st.folders.push(o)
                    } else {
                        st.folders
                    },
                    ..st
                }
            }
        } else if !skip {
            WalkState { children: m1, skip_depth: 0, files: st.files.push(o), ..st }
        } else {
            WalkState { children: m1, ..st }
        }
    }
}

/// The objects `objs` (with their skip flags) walked in order.
pub open spec fn skip_walk(st: WalkState, objs: Seq<PropsView>, skips: Seq<bool>, dd: int, d: int) -> WalkState
    decreases objs.len(),
{
    if objs.len() == 0 {
        st
    } else {
        skip_step(skip_walk(st, objs.drop_last(), skips, dd, d), objs.last(), skips[objs.len() - 1], dd, d)
    }
}

/// One object of a listing, walked without skipping: a folder is kept, and
/// listed next when it lies `d` levels below the listed folder; a file is kept.
pub open spec fn plain_step(st: WalkState, o: PropsView, dd: int, d: int) -> WalkState {
    if st.failed {
        st
    } else if is_dir_view(o) {
        let cur = obj_depth(o);
        if cur < dd {
            WalkState { failed: true, ..st }
        } else {
            WalkState {
                folders: if cur - dd == d {
                    st.folders.push(o)
                } else {
                    st.folders
                },
                all_folders: st.all_folders.push(o),
                ..st
            }
        }
    } else {
        WalkState { files: st.files.push(o), ..st }
    }
}

/// The objects walked in order without skipping.
pub open spec fn plain_walk(st: WalkState, objs: Seq<PropsView>, dd: int, d: int) -> WalkState
    decreases objs.len(),
{
    if objs.len() == 0 {
        st
    } else {
        plain_step(plain_walk(st, objs.drop_last(), dd, d), objs.last(), dd, d)
    }
}

/// The children noted, by characters.
pub open spec fn children_view(m: Seq<(String, Vec<String>)>) -> Seq<(Seq<char>, Seq<Seq<char>>)> {
    m.map_values(|e: (String, Vec<String>)| (e.0@, views(e.1@)))
}

/// A walk state made of the lists of a caller.
pub open spec fn state_of(
    files: Seq<ObjProps>,
    folders: Seq<ObjProps>,
    all_folders: Seq<ObjProps>,
    children: Seq<(String, Vec<String>)>,
    skip_depth: int,
) -> WalkState {
    WalkState {
        files: crate::props::props_views(files),
        folders: crate::props::props_views(folders),
        all_folders: crate::props::props_views(all_folders),
        children: children_view(children),
        skip_depth,
        failed: false,
    }
}

/// Sorts a listing (its first object being the listed folder itself) into
/// files, folders to list next and folders kept, without skipping (see
/// `plain_step`). Returns `false` when the listing holds a folder above the
/// listed one (the walk fails), in which case the lists are left unspecified.
pub fn iter_without_skip_fct(
    objs: Vec<ObjProps>,
    d: u16,
    files: &mut Vec<ObjProps>,
    folders: &mut Vec<ObjProps>,
    all_folders: &mut Vec<ObjProps>,
) -> (ok: bool)
    requires
        objs@.len() > 0,
    ensures
        ok == !plain_walk(
            state_of(old(files)@, old(folders)@, old(all_folders)@, Seq::empty(), 0),
            crate::props::props_views(objs@).drop_first(),
            obj_depth(objs@[0]@),
            d as int,
        ).failed,
        ok ==> plain_walk(
            state_of(old(files)@, old(folders)@, old(all_folders)@, Seq::empty(), 0),
            crate::props::props_views(objs@).drop_first(),
            obj_depth(objs@[0]@),
            d as int,
        ) == state_of(final(files)@, final(folders)@, final(all_folders)@, Seq::empty(), 0),
{
    let ghost s0 = state_of(files@, folders@, all_folders@, Seq::empty(), 0);
    let ghost rest = crate::props::props_views(objs@).drop_first();
    let default_depth = calc_depth(&objs[0]);
    let mut i: usize = 1;
    assert(rest.subrange(0, 0) =~= Seq::<PropsView>::empty());
    while i < objs.len()
        invariant
            objs@.len() > 0,
            1 <= i <= objs@.len(),
            rest == crate::props::props_views(objs@).drop_first(),
            s0 == state_of(old(files)@, old(folders)@, old(all_folders)@, Seq::empty(), 0),
            default_depth as int == obj_depth(objs@[0]@),
            plain_walk(s0, rest.subrange(0, i - 1), default_depth as int, d as int) == state_of(
                files@,
                folders@,
                all_folders@,
                Seq::empty(),
                0,
            ),
        decreases objs@.len() - i,
    {
        let object = &objs[i];
        let ghost pre = rest.subrange(0, i - 1);
        assert(rest.subrange(0, i as int).drop_last() =~= pre);
        assert(rest.subrange(0, i as int).last() == object@);
        if object.is_dir() {
            let current_depth = calc_depth(object);
            if current_depth < default_depth {
                proof {
                    if !plain_walk(s0, rest, default_depth as int, d as int).failed {
                        lemma_plain_walk_failed_sticks(s0, rest, i as int, default_depth as int, d as int);
                    }
                }
                return false;
            }
            if current_depth - default_depth == d {
                let ghost before = folders@;
                folders.push(object.duplicate());
                assert(crate::props::props_views(folders@) =~= crate::props::props_views(before).push(object@));
            }
            let ghost before = all_folders@;
            all_folders.push(object.duplicate());
            assert(crate::props::props_views(all_folders@) =~= crate::props::props_views(before).push(object@));
        } else {
            let ghost before = files@;
            files.push(object.duplicate());
            assert(crate::props::props_views(files@) =~= crate::props::props_views(before).push(object@));
        }
        i = i + 1;
    }
    assert(rest.subrange(0, objs@.len() - 1) =~= rest);
    true
}

proof fn lemma_plain_walk_failed_sticks(st: WalkState, objs: Seq<PropsView>, k: int, dd: int, d: int)
    requires
        0 <= k <= objs.len(),
        !plain_walk(st, objs, dd, d).failed,
    ensures
        !plain_walk(st, objs.subrange(0, k), dd, d).failed,
    decreases objs.len() - k,
{
    if k < objs.len() {
        lemma_plain_walk_failed_sticks(st, objs, k + 1, dd, d);
        assert(objs.subrange(0, k + 1).drop_last() =~= objs.subrange(0, k));
    } else {
        assert(objs.subrange(0, k) =~= objs);
    }
}


fn has_folder_exec(m: &Vec<(String, Vec<String>)>, k: &String) -> (r: bool)
    ensures
        r == has_folder(children_view(m@), k@),
{
    let mut i: usize = 0;
    while i < m.len()
        invariant
            i <= m@.len(),
            forall|j: int| 0 <= j < i ==> m@[j].0@ != k@,
        decreases m@.len() - i,
    {
        if str_eq(m[i].0.as_str(), k.as_str()) {
            assert(children_view(m@)[i as int].0 == k@);
            return true;
        }
        i = i + 1;
    }
    assert forall|j: int| 0 <= j < children_view(m@).len() implies (#[trigger] children_view(m@)[j]).0 != k@ by {
        assert(children_view(m@)[j].0 == m@[j].0@);
    }
    false
}

fn clone_children(v: &Vec<String>) -> (r: Vec<String>)
    ensures
        r@ == v@,
{
    let mut out: Vec<String> = Vec::new();
    let mut i: usize = 0;
    while i < v.len()
        invariant
            i <= v@.len(),
            out@ == v@.subrange(0, i as int),
        decreases v@.len() - i,
    {
        out.push(v[i].clone());
        assert(out@ =~= v@.subrange(0, i + 1));
        i = i + 1;
    }
    assert(v@.subrange(0, v@.len() as int) =~= v@);
    out
}

proof fn lemma_add_child_prefix(m: Seq<(Seq<char>, Seq<Seq<char>>)>, k: Seq<char>, c: Seq<char>, i: int)
    requires
        0 <= i <= m.len(),
        forall|j: int| 0 <= j < i ==> m[j].0 != k,
    ensures
        add_child(m, k, c) == m.subrange(0, i) + add_child(m.subrange(i, m.len() as int), k, c),
    decreases i,
{
    if i > 0 {
        lemma_add_child_prefix(m.drop_first(), k, c, i - 1);
        assert(m.drop_first().subrange(0, i - 1) =~= m.subrange(1, i));
        assert(m.drop_first().subrange(i - 1, m.len() - 1) =~= m.subrange(i, m.len() as int));
        assert(seq![m[0]] + m.subrange(1, i) =~= m.subrange(0, i));
        assert(m.subrange(0, i) + add_child(m.subrange(i, m.len() as int), k, c) =~= seq![m[0]] + (
        m.subrange(1, i) + add_child(m.subrange(i, m.len() as int), k, c)));
    } else {
        assert(m.subrange(0, 0) + add_child(m.subrange(0, m.len() as int), k, c) =~= add_child(m, k, c)) by {
            assert(m.subrange(0, m.len() as int) =~= m);
        }
    }
}

fn clone_entry(e: &(String, Vec<String>)) -> (r: (String, Vec<String>))
    ensures
        r.0@ == e.0@,
        r.1@ == e.1@,
{
    (e.0.clone(), clone_children(&e.1))
}

fn add_child_exec(m: &mut Vec<(String, Vec<String>)>, k: &String, c: &String)
    ensures
        children_view(final(m)@) == add_child(children_view(old(m)@), k@, c@),
{
    let ghost mv = children_view(m@);
    let mut i: usize = 0;
    while i < m.len()
        invariant
            i <= m@.len(),
            mv == children_view(m@),
            mv == children_view(old(m)@),
            forall|j: int| 0 <= j < i ==> mv[j].0 != k@,
        decreases m@.len() - i,
    {
        assert(mv[i as int].0 == m@[i as int].0@);
        if str_eq(m[i].0.as_str(), k.as_str()) {
            let ghost target = mv.update(i as int, (mv[i as int].0, mv[i as int].1.push(c@)));
            proof {
                lemma_add_child_prefix(mv, k@, c@, i as int);
                let tail = mv.subrange(i as int, mv.len() as int);
                assert(tail[0] == mv[i as int]);
                assert(tail.drop_first() =~= mv.subrange(i + 1, mv.len() as int));
                assert(add_child(mv, k@, c@) =~= target);
            }
            let mut kids = clone_children(&m[i].1);
            kids.push(c.clone());
            let mut out: Vec<(String, Vec<String>)> = Vec::new();
            let mut j: usize = 0;
            while j < m.len()
                invariant
                    j <= m@.len(),
                    i < m@.len(),
                    views(kids@) == mv[i as int].1.push(c@),
                    mv == children_view(m@),
                    target == mv.update(i as int, (mv[i as int].0, mv[i as int].1.push(c@))),
                    add_child(mv, k@, c@) == target,
                    mv == children_view(old(m)@),
                    children_view(out@) == target.subrange(0, j as int),
                decreases m@.len() - j,
            {
                let ghost before = out@;
                if j == i {
                    out.push((m[i].0.clone(), clone_children(&kids)));
                } else {
                    out.push(clone_entry(&m[j]));
                }
                assert(children_view(out@) =~= target.subrange(0, j + 1)) by {
                    assert(children_view(out@) =~= children_view(before).push(children_view(out@).last()));
                }
                j = j + 1;
            }
            assert(target.subrange(0, m@.len() as int) =~= target);
            assert(children_view(out@) =~= add_child(mv, k@, c@));
            *m = out;
            return;
        }
        i = i + 1;
    }
    proof {
        lemma_add_child_prefix(mv, k@, c@, mv.len() as int);
        assert(mv.subrange(0, mv.len() as int) =~= mv);
    }
}

fn reset_folder_exec(m: &mut Vec<(String, Vec<String>)>, k: String)
    ensures
        children_view(final(m)@) == reset_folder(children_view(old(m)@), k@),
{
    let ghost mv = children_view(m@);
    if has_folder_exec(m, &k) {
        let mut out: Vec<(String, Vec<String>)> = Vec::new();
        let mut j: usize = 0;
        while j < m.len()
            invariant
                j <= m@.len(),
                mv == children_view(m@),
                children_view(out@) == empty_folder(mv.subrange(0, j as int), k@),
            decreases m@.len() - j,
        {
            let ghost before = out@;
            assert(mv[j as int].0 == m@[j as int].0@);
            assert(mv.subrange(0, j + 1).drop_last() =~= mv.subrange(0, j as int));
            if str_eq(m[j].0.as_str(), k.as_str()) {
                let empty: Vec<String> = Vec::new();
                assert(views(empty@) =~= Seq::<Seq<char>>::empty());
                out.push((m[j].0.clone(), empty));
            } else {
                out.push(clone_entry(&m[j]));
            }
            assert(children_view(out@) =~= empty_folder(mv.subrange(0, j + 1), k@)) by {
                assert(children_view(out@) =~= children_view(before).push(children_view(out@).last()));
            }
            j = j + 1;
        }
        assert(mv.subrange(0, mv.len() as int) =~= mv);
        *m = out;
    } else {
        let ghost before = m@;
        let empty: Vec<String> = Vec::new();
        assert(views(empty@) =~= Seq::<Seq<char>>::empty());
        m.push((k, empty));
        assert(children_view(m@) =~= children_view(before).push((k@, Seq::<Seq<char>>::empty())));
    }
}

/// The folder a path lies in (see `parent_str`).
fn parent_string(p: &String) -> (r: String)
    ensures
        r@ == parent_str(p@),
{
    let fc = full_path_components(p.as_str());
    if fc.len() == 0 {
        p.clone()
    } else {
        crate::tree::parent_path(p.as_str())
    }
}

fn drop_last_char_exec(s: &String) -> (r: String)
    ensures
        r@ == drop_last_char(s@),
{
    let n = s.as_str().unicode_len();
    if n == 0 {
        s.clone()
    } else {
        substring(s.as_str(), 0, n - 1)
    }
}

/// Sorts a listing (its first object being the listed folder itself) into
/// files, folders to list next and folders kept, skipping what `skips` tells
/// to skip and noting the children of each folder kept (see `skip_step`).
/// Only the flags of the objects that need one are read (see `needs_flag` and
/// `lemma_unread_flags_do_not_matter`); `RemoteWalk` asks for them one at a
/// time. Returns `false` when the listing holds an object without relative path or a
/// folder above the listed one (the walk fails), in which case the lists are
/// left unspecified.
pub fn iter_with_skip_fct(
    objs: Vec<ObjProps>,
    d: u16,
    files: &mut Vec<ObjProps>,
    folders: &mut Vec<ObjProps>,
    skips: &Vec<bool>,
    objs_hashmap: &mut Vec<(String, Vec<String>)>,
    all_folders: &mut Vec<ObjProps>,
) -> (ok: bool)
    requires
        objs@.len() > 0,
        skips@.len() == objs@.len(),
    ensures
        ok == !skip_walk(
            state_of(old(files)@, old(folders)@, old(all_folders)@, old(objs_hashmap)@, 0),
            crate::props::props_views(objs@).drop_first(),
            skips@.drop_first(),
            obj_depth(objs@[0]@),
            d as int,
        ).failed,
        ok ==> ({
            let w = skip_walk(
                state_of(old(files)@, old(folders)@, old(all_folders)@, old(objs_hashmap)@, 0),
                crate::props::props_views(objs@).drop_first(),
                skips@.drop_first(),
                obj_depth(objs@[0]@),
                d as int,
            );
            &&& w.files == crate::props::props_views(final(files)@)
            &&& w.folders == crate::props::props_views(final(folders)@)
            &&& w.all_folders == crate::props::props_views(final(all_folders)@)
            &&& w.children == children_view(final(objs_hashmap)@)
        }),
{
    let ghost s0 = state_of(files@, folders@, all_folders@, objs_hashmap@, 0);
    let ghost rest = crate::props::props_views(objs@).drop_first();
    let ghost sk = skips@.drop_first();
    let default_depth = calc_depth(&objs[0]);
    let mut skip_depth: u16 = 0;
    let mut i: usize = 1;
    assert(rest.subrange(0, 0) =~= Seq::<PropsView>::empty());
    while i < objs.len()
        invariant
            objs@.len() > 0,
            skips@.len() == objs@.len(),
            1 <= i <= objs@.len(),
            rest == crate::props::props_views(objs@).drop_first(),
            sk == skips@.drop_first(),
            default_depth as int == obj_depth(objs@[0]@),
            s0 == state_of(old(files)@, old(folders)@, old(all_folders)@, old(objs_hashmap)@, 0),
            skip_walk(s0, rest.subrange(0, i - 1), sk, default_depth as int, d as int) == state_of(
                files@,
                folders@,
                all_folders@,
                objs_hashmap@,
                skip_depth as int,
            ),
        decreases objs@.len() - i,
    {
        let object = &objs[i];
        let skip = skips[i];
        let ghost pre = rest.subrange(0, i - 1);
        assert(rest.subrange(0, i as int).drop_last() =~= pre);
        assert(rest.subrange(0, i as int).last() == object@);
        assert(sk[i - 1] == skip);
        let r = match &object.relative_s {
            Some(r) => r.clone(),
            None => {
                proof {
                    if !skip_walk(s0, rest, sk, default_depth as int, d as int).failed {
                        lemma_skip_walk_failed_sticks(s0, rest, sk, i as int, default_depth as int, d as int);
                    }
                }
                return false;
            },
        };
        let current_depth = calc_depth(object);
        let par = parent_string(&r);
        if has_folder_exec(objs_hashmap, &par) {
            add_child_exec(objs_hashmap, &par, &r);
        }
        if skip_depth != 0 && skip_depth < current_depth {
            i = i + 1;
            continue;
        }
        if object.is_dir() {
            if current_depth < default_depth {
                proof {
                    if !skip_walk(s0, rest, sk, default_depth as int, d as int).failed {
                        lemma_skip_walk_failed_sticks(s0, rest, sk, i as int, default_depth as int, d as int);
                    }
                }
                return false;
            }
            if skip {
                skip_depth = current_depth;
            } else {
                let key = drop_last_char_exec(&r);
                reset_folder_exec(objs_hashmap, key);
                skip_depth = 0;
                let ghost before = all_folders@;
                all_folders.push(object.duplicate());
                assert(crate::props::props_views(all_folders@) =~= crate::props::props_views(before).push(object@));
            }
            if current_depth - default_depth == d && !skip {
                let ghost before = folders@;
                folders.push(object.duplicate());
                assert(crate::props::props_views(folders@) =~= crate::props::props_views(before).push(object@));
            }
        } else {
            if !skip {
                skip_depth = 0;
                let ghost before = files@;
                files.push(object.duplicate());
                assert(crate::props::props_views(files@) =~= crate::props::props_views(before).push(object@));
            }
        }
        i = i + 1;
    }
    assert(rest.subrange(0, objs@.len() - 1) =~= rest);
    true
}

proof fn lemma_skip_walk_failed_sticks(
    st: WalkState,
    objs: Seq<PropsView>,
    skips: Seq<bool>,
    k: int,
    dd: int,
    d: int,
)
    requires
        0 <= k <= objs.len(),
        !skip_walk(st, objs, skips, dd, d).failed,
    ensures
        !skip_walk(st, objs.subrange(0, k), skips, dd, d).failed,
    decreases objs.len() - k,
{
    if k < objs.len() {
        lemma_skip_walk_failed_sticks(st, objs, skips, k + 1, dd, d);
        assert(objs.subrange(0, k + 1).drop_last() =~= objs.subrange(0, k));
    } else {
        assert(objs.subrange(0, k) =~= objs);
    }
}


/// The children noted, without the folders that have some (those were checked
/// against the local tree).
pub open spec fn pruned(m: Seq<(Seq<char>, Seq<Seq<char>>)>) -> Seq<(Seq<char>, Seq<Seq<char>>)>
    decreases m.len(),
{
    if m.len() == 0 {
        m
    } else if m.last().1.len() == 0 {
        pruned(m.drop_last()).push(m.last())
    } else {
        pruned(m.drop_last())
    }
}

/// The folders noted that have children, with them, in order.
pub open spec fn checked(m: Seq<(Seq<char>, Seq<Seq<char>>)>) -> Seq<(Seq<char>, Seq<Seq<char>>)>
    decreases m.len(),
{
    if m.len() == 0 {
        m
    } else if m.last().1.len() == 0 {
        checked(m.drop_last())
    } else {
        checked(m.drop_last()).push(m.last())
    }
}

fn prune_children(m: &mut Vec<(String, Vec<String>)>) -> (r: Vec<(String, Vec<String>)>)
    ensures
        children_view(final(m)@) == pruned(children_view(old(m)@)),
        children_view(r@) == checked(children_view(old(m)@)),
{
    let ghost mv = children_view(m@);
    let mut out: Vec<(String, Vec<String>)> = Vec::new();
    let mut gone: Vec<(String, Vec<String>)> = Vec::new();
    let mut i: usize = 0;
    while i < m.len()
        invariant
            i <= m@.len(),
            mv == children_view(m@),
            children_view(out@) == pruned(mv.subrange(0, i as int)),
            children_view(gone@) == checked(mv.subrange(0, i as int)),
        decreases m@.len() - i,
    {
        assert(mv.subrange(0, i + 1).drop_last() =~= mv.subrange(0, i as int));
        assert(mv.subrange(0, i + 1).last() == mv[i as int]);
        if m[i].1.len() == 0 {
            let ghost before = out@;
            out.push(clone_entry(&m[i]));
            assert(children_view(out@) =~= children_view(before).push(mv[i as int]));
        } else {
            let ghost before = gone@;
            gone.push(clone_entry(&m[i]));
            assert(children_view(gone@) =~= children_view(before).push(mv[i as int]));
        }
        i = i + 1;
    }
    assert(mv.subrange(0, mv.len() as int) =~= mv);
    *m = out;
    gone
}

/// The walk of the remote tree, one listing at a time: the folders still to
/// list, the folders and files kept, the children noted of each folder kept,
/// the depth of each listing, the folder started from, and whether objects are
/// skipped.
pub struct RemoteWalk {
    pub folders: Vec<ObjProps>,
    pub all_folders: Vec<ObjProps>,
    pub files: Vec<ObjProps>,
    pub objs_hashmap: Vec<(String, Vec<String>)>,
    pub depth: u16,
    pub relative_s: Option<String>,
    pub with_skip: bool,
    /// the listing being walked with skipping, its next object, and its depth
    pub listing: Vec<ObjProps>,
    pub cursor: usize,
    pub listing_depth: u16,
    /// the depth below which objects are passed over (0 for none)
    pub skip_depth: u16,
    /// the listing met an object it cannot handle
    pub failed: bool,
}

/// The state of a walk with skipping, by views.
pub open spec fn walk_state(w: RemoteWalk) -> WalkState {
    WalkState {
        files: crate::props::props_views(w.files@),
        folders: crate::props::props_views(w.folders@),
        all_folders: crate::props::props_views(w.all_folders@),
        children: children_view(w.objs_hashmap@),
        skip_depth: w.skip_depth as int,
        failed: w.failed,
    }
}

/// Whether the walk needs to be told if `o` is skipped: the walk goes on, `o`
/// has a relative path, does not lie below a skipped folder, and is not a
/// folder above the listed one. For any other object the flag is never read
/// (see `lemma_unconsulted_flag_unread`).
pub open spec fn needs_flag(st: WalkState, o: PropsView, dd: int) -> bool {
    &&& !st.failed
    &&& o.relative_s is Some
    &&& !(st.skip_depth != 0 && st.skip_depth < obj_depth(o))
    &&& !(is_dir_view(o) && obj_depth(o) < dd)
}

/// The walk carried from the `k`-th object of `objs` over the objects that
/// need no flag, up to the first that needs one (or the end, or a failure):
/// the state reached and the index where it stopped.
pub open spec fn advance(st: WalkState, objs: Seq<PropsView>, k: int, dd: int, d: int) -> (WalkState, int)
    decreases objs.len() - k,
{
    if k < 0 || k >= objs.len() || st.failed || needs_flag(st, objs[k], dd) {
        (st, k)
    } else {
        advance(skip_step(st, objs[k], false, dd, d), objs, k + 1, dd, d)
    }
}

/// The skip flag of an object the walk does not consult is never read: the
/// step is the same whatever the flag.
pub proof fn lemma_unconsulted_flag_unread(st: WalkState, o: PropsView, dd: int, d: int)
    requires
        !needs_flag(st, o, dd),
    ensures
        skip_step(st, o, true, dd, d) == skip_step(st, o, false, dd, d),
{
}

/// A walk with skipping reads only the flags of the objects that need one:
/// two lists of flags that agree on those objects give the same walk.
pub proof fn lemma_unread_flags_do_not_matter(
    st: WalkState,
    objs: Seq<PropsView>,
    s1: Seq<bool>,
    s2: Seq<bool>,
    dd: int,
    d: int,
)
    requires
        s1.len() >= objs.len(),
        s2.len() >= objs.len(),
        forall|k: int|
            0 <= k < objs.len() && needs_flag(skip_walk(st, objs.subrange(0, k), s1, dd, d), #[trigger] objs[k], dd)
                ==> s1[k] == s2[k],
    ensures
        skip_walk(st, objs, s1, dd, d) == skip_walk(st, objs, s2, dd, d),
    decreases objs.len(),
{
    if objs.len() > 0 {
        let pre = objs.drop_last();
        assert forall|k: int|
            0 <= k < pre.len() && needs_flag(skip_walk(st, pre.subrange(0, k), s1, dd, d), #[trigger] pre[k], dd)
                implies s1[k] == s2[k] by {
            assert(pre.subrange(0, k) =~= objs.subrange(0, k));
            assert(pre[k] == objs[k]);
        }
        lemma_unread_flags_do_not_matter(st, pre, s1, s2, dd, d);
        let k = objs.len() - 1;
        assert(objs.subrange(0, k) =~= pre);
        let w = skip_walk(st, pre, s1, dd, d);
        if !needs_flag(w, objs[k], dd) {
            lemma_unconsulted_flag_unread(w, objs[k], dd, d);
        }
    }
}

/// Once a folder is skipped, nothing below it is asked about or kept: the
/// folder itself is kept in no list, and an object deeper than it needs no
/// flag and is passed over, leaving the lists and the skip depth as they were.
pub proof fn lemma_skipped_folder_hides_below(
    st: WalkState,
    o: PropsView,
    q: PropsView,
    skip_q: bool,
    dd: int,
    d: int,
)
    requires
        needs_flag(st, o, dd),
        is_dir_view(o),
        obj_depth(o) != 0,
        q.relative_s is Some,
        obj_depth(q) > obj_depth(o),
    ensures
        ({
            let s1 = skip_step(st, o, true, dd, d);
            let s2 = skip_step(s1, q, skip_q, dd, d);
            &&& s1.files == st.files
            &&& s1.folders == st.folders
            &&& s1.all_folders == st.all_folders
            &&& s1.skip_depth == obj_depth(o)
            &&& !needs_flag(s1, q, dd)
            &&& s2.files == s1.files
            &&& s2.folders == s1.folders
            &&& s2.all_folders == s1.all_folders
            &&& s2.skip_depth == s1.skip_depth
            &&& !s2.failed
        }),
{
}

/// The depth written in the options (`0` when none).
pub open spec fn depth_text(options: EnumerateOptions) -> Seq<char> {
    match options.depth {
        Some(d) => d@,
        None => "0"@,
    }
}

/// The folder started from, by characters (empty when none).
pub open spec fn start_of(relative_s: Option<String>) -> Seq<char> {
    match relative_s {
        Some(r) => r@,
        None => Seq::empty(),
    }
}

impl RemoteWalk {
    /// Starts a walk from the folder of `options` (the one folder to list, as
    /// an object with nothing known; noted with no child yet). `None` when the
    /// depth of `options` is not a `u16`.
    pub fn new(options: EnumerateOptions, with_skip: bool) -> (r: Option<RemoteWalk>)
        ensures
            r is None <==> crate::text::parse_u16_spec(depth_text(options)) is None,
            r matches Some(w) ==> {
                &&& Some(w.depth) == crate::text::parse_u16_spec(depth_text(options))
                &&& crate::props::props_views(w.folders@) == seq![crate::props::empty_view()]
                &&& w.all_folders@.len() == 0
                &&& w.files@.len() == 0
                &&& children_view(w.objs_hashmap@) == seq![(start_of(options.relative_s), Seq::<Seq<char>>::empty())]
                &&& w.relative_s == options.relative_s
                &&& w.with_skip == with_skip
            },
    {
        let dtext = match &options.depth {
            Some(d) => d.clone(),
            None => String::from_str("0"),
        };
        let depth = match crate::text::parse_u16(dtext.as_str()) {
            Some(d) => d,
            None => return None,
        };
        let start = match &options.relative_s {
            Some(r) => r.clone(),
            None => String::new(),
        };
        let folders = vec![ObjProps::new()];
        let children: Vec<String> = Vec::new();
        let hm = vec![(start, children)];
        assert(crate::props::props_views(folders@) =~= seq![crate::props::empty_view()]);
        assert(views(hm@[0].1@) =~= Seq::<Seq<char>>::empty());
        assert(children_view(hm@) =~= seq![(start_of(options.relative_s), Seq::<Seq<char>>::empty())]);
        Some(RemoteWalk {
            folders,
            all_folders: Vec::new(),
            files: Vec::new(),
            objs_hashmap: hm,
            depth,
            relative_s: options.relative_s,
            with_skip,
            listing: Vec::new(),
            cursor: 0,
            listing_depth: 0,
            skip_depth: 0,
            failed: false,
        })
    }

    /// Takes the next folder to list (the last one added) and gives the path
    /// to request for it: its relative path, or else the folder started from
    /// (empty when none). `None`, with nothing changed, when no folder is left.
    pub fn next_folder(&mut self) -> (r: Option<String>)
        ensures
            old(self).folders@.len() == 0 ==> r is None && *final(self) == *old(self),
            old(self).folders@.len() > 0 ==> {
                &&& final(self).folders@ == old(self).folders@.drop_last()
                &&& r matches Some(p) && p@ == match old(self).folders@.last().relative_s {
                    Some(rs) => rs@,
                    None => start_of(old(self).relative_s),
                }
                &&& final(self).all_folders == old(self).all_folders
                &&& final(self).files == old(self).files
                &&& final(self).objs_hashmap == old(self).objs_hashmap
                &&& final(self).depth == old(self).depth
                &&& final(self).relative_s == old(self).relative_s
                &&& final(self).with_skip == old(self).with_skip
            },
    {
        if self.folders.len() == 0 {
            return None;
        }
        match self.folders.pop() {
            None => None,
            Some(folder) => match folder.relative_s {
                Some(rs) => Some(rs),
                None => match &self.relative_s {
                    Some(r) => Some(r.clone()),
                    None => Some(String::new()),
                },
            },
        }
    }

    /// Sorts the listing `objs` of the folder just requested (its first object
    /// being that folder) without skipping, as `iter_without_skip_fct` does.
    /// Returns `false` when the listing is empty or cannot be walked.
    pub fn take_listing(&mut self, objs: Vec<ObjProps>) -> (ok: bool)
        ensures
            objs@.len() == 0 ==> !ok,
            final(self).depth == old(self).depth,
            final(self).relative_s == old(self).relative_s,
            final(self).with_skip == old(self).with_skip,
            final(self).objs_hashmap == old(self).objs_hashmap,
            objs@.len() > 0 ==> ({
                let w = plain_walk(
                    state_of(old(self).files@, old(self).folders@, old(self).all_folders@, Seq::empty(), 0),
                    crate::props::props_views(objs@).drop_first(),
                    obj_depth(objs@[0]@),
                    old(self).depth as int,
                );
                &&& ok == !w.failed
                &&& ok ==> w == state_of(final(self).files@, final(self).folders@, final(self).all_folders@, Seq::empty(), 0)
            }),
    {
        if objs.len() == 0 {
            return false;
        }
        iter_without_skip_fct(objs, self.depth, &mut self.files, &mut self.folders, &mut self.all_folders)
    }

    /// Starts walking the listing `objs` of the folder just requested (its
    /// first object being that folder) with skipping, from its second object,
    /// nothing skipped yet. Returns `false`, with nothing changed, when the
    /// listing is empty.
    pub fn begin_listing(&mut self, objs: Vec<ObjProps>) -> (ok: bool)
        ensures
            ok == (objs@.len() > 0),
            !ok ==> *final(self) == *old(self),
            ok ==> {
                &&& final(self).listing == objs
                &&& final(self).cursor == 1
                &&& final(self).listing_depth as int == obj_depth(objs@[0]@)
                &&& final(self).skip_depth == 0
                &&& !final(self).failed
                &&& final(self).files == old(self).files
                &&& final(self).folders == old(self).folders
                &&& final(self).all_folders == old(self).all_folders
                &&& final(self).objs_hashmap == old(self).objs_hashmap
                &&& final(self).depth == old(self).depth
                &&& final(self).relative_s == old(self).relative_s
                &&& final(self).with_skip == old(self).with_skip
            },
    {
        if objs.len() == 0 {
            return false;
        }
        self.listing_depth = calc_depth(&objs[0]);
        self.listing = objs;
        self.cursor = 1;
        self.skip_depth = 0;
        self.failed = false;
        true
    }

    /// Walks the next object of the listing with the skip flag `skip` (see `skip_step`).
    fn step(&mut self, skip: bool)
        requires
            old(self).cursor < old(self).listing@.len(),
        ensures
            walk_state(*final(self)) == skip_step(
                walk_state(*old(self)),
                old(self).listing@[old(self).cursor as int]@,
                skip,
                old(self).listing_depth as int,
                old(self).depth as int,
            ),
            final(self).cursor == old(self).cursor + 1,
            final(self).listing == old(self).listing,
            final(self).listing_depth == old(self).listing_depth,
            final(self).depth == old(self).depth,
            final(self).relative_s == old(self).relative_s,
            final(self).with_skip == old(self).with_skip,
    {
        let i = self.cursor;
        let n = self.listing.len();
        assert(i < n);
        self.cursor = i + 1;
        if self.failed {
            return;
        }
        let r = match &self.listing[i].relative_s {
            Some(r) => r.clone(),
            None => {
                self.failed = true;
                return;
            },
        };
        let current_depth = calc_depth(&self.listing[i]);
        let par = parent_string(&r);
        if has_folder_exec(&self.objs_hashmap, &par) {
            add_child_exec(&mut self.objs_hashmap, &par, &r);
        }
        if self.skip_depth != 0 && self.skip_depth < current_depth {
            return;
        }
        let default_depth = self.listing_depth;
        let d = self.depth;
        if self.listing[i].is_dir() {
            if current_depth < default_depth {
                self.failed = true;
                return;
            }
            let o = self.listing[i].duplicate();
            if skip {
                self.skip_depth = current_depth;
            } else {
                let key = drop_last_char_exec(&r);
                reset_folder_exec(&mut self.objs_hashmap, key);
                self.skip_depth = 0;
                let ghost before = self.all_folders@;
                self.all_folders.push(o.duplicate());
                assert(crate::props::props_views(self.all_folders@) =~= crate::props::props_views(before).push(o@));
            }
            if current_depth - default_depth == d && !skip {
                let ghost before = self.folders@;
                self.folders.push(o);
                assert(crate::props::props_views(self.folders@) =~= crate::props::props_views(before).push(o@));
            }
        } else {
            if !skip {
                self.skip_depth = 0;
                let ghost before = self.files@;
                self.files.push(self.listing[i].duplicate());
                assert(crate::props::props_views(self.files@) =~= crate::props::props_views(before).push(
                    self.listing@[i as int]@,
                ));
            }
        }
    }

    /// Walks on over the objects of the listing whose skip flag is never read
    /// (see `needs_flag`), as `advance` says, and gives the index of the next
    /// object whose flag is needed; `None` when the listing is done or cannot
    /// be walked (`failed`).
    pub fn next_query(&mut self) -> (r: Option<usize>)
        ensures
            (walk_state(*final(self)), final(self).cursor as int) == advance(
                walk_state(*old(self)),
                crate::props::props_views(old(self).listing@),
                old(self).cursor as int,
                old(self).listing_depth as int,
                old(self).depth as int,
            ),
            r is Some <==> (final(self).cursor < final(self).listing@.len() && !final(self).failed),
            r matches Some(k) ==> k == final(self).cursor && needs_flag(
                walk_state(*final(self)),
                final(self).listing@[k as int]@,
                final(self).listing_depth as int,
            ),
            final(self).listing == old(self).listing,
            final(self).listing_depth == old(self).listing_depth,
            final(self).depth == old(self).depth,
            final(self).relative_s == old(self).relative_s,
            final(self).with_skip == old(self).with_skip,
    {
        let ghost lv = crate::props::props_views(self.listing@);
        let ghost dd = self.listing_depth as int;
        let ghost d = self.depth as int;
        let ghost target = advance(walk_state(*self), lv, self.cursor as int, dd, d);
        while self.cursor < self.listing.len() && !self.failed
            invariant
                lv == crate::props::props_views(self.listing@),
                dd == self.listing_depth as int,
                d == self.depth as int,
                advance(walk_state(*self), lv, self.cursor as int, dd, d) == target,
                target == advance(
                    walk_state(*old(self)),
                    crate::props::props_views(old(self).listing@),
                    old(self).cursor as int,
                    old(self).listing_depth as int,
                    old(self).depth as int,
                ),
                self.listing == old(self).listing,
                self.listing_depth == old(self).listing_depth,
                self.depth == old(self).depth,
                self.relative_s == old(self).relative_s,
                self.with_skip == old(self).with_skip,
            decreases self.listing@.len() - self.cursor,
        {
            let i = self.cursor;
            let o = &self.listing[i];
            assert(lv[i as int] == o@);
            let passed_over = self.skip_depth != 0 && self.skip_depth < calc_depth(o);
            let needs = o.relative_s.is_some() && !passed_over && !(o.is_dir() && calc_depth(o)
                < self.listing_depth);
            assert(needs == needs_flag(walk_state(*self), lv[i as int], dd));
            if needs {
                assert(lv.len() == self.listing@.len());
                assert(advance(walk_state(*self), lv, i as int, dd, d) == (walk_state(*self), i as int));
                return Some(i);
            }
            self.step(false);
        }
        None
    }

    /// Walks the object whose flag was asked for (see `next_query`) with the
    /// answer `skip`; nothing is done when the listing is done.
    pub fn answer(&mut self, skip: bool)
        ensures
            old(self).cursor < old(self).listing@.len() ==> walk_state(*final(self)) == skip_step(
                walk_state(*old(self)),
                old(self).listing@[old(self).cursor as int]@,
                skip,
                old(self).listing_depth as int,
                old(self).depth as int,
            ) && final(self).cursor == old(self).cursor + 1,
            old(self).cursor >= old(self).listing@.len() ==> *final(self) == *old(self),
            final(self).listing == old(self).listing,
            final(self).listing_depth == old(self).listing_depth,
            final(self).depth == old(self).depth,
            final(self).relative_s == old(self).relative_s,
            final(self).with_skip == old(self).with_skip,
    {
        if self.cursor < self.listing.len() {
            self.step(skip);
        }
    }

    /// Takes out of `objs_hashmap` the folders whose children were noted (their
    /// content is now known, to compare with the local tree), and returns them.
    pub fn take_checked(&mut self) -> (r: Vec<(String, Vec<String>)>)
        ensures
            children_view(final(self).objs_hashmap@) == pruned(children_view(old(self).objs_hashmap@)),
            children_view(r@) == checked(children_view(old(self).objs_hashmap@)),
            final(self).folders == old(self).folders,
            final(self).all_folders == old(self).all_folders,
            final(self).files == old(self).files,
            final(self).depth == old(self).depth,
            final(self).relative_s == old(self).relative_s,
            final(self).with_skip == old(self).with_skip,
    {
        prune_children(&mut self.objs_hashmap)
    }

    /// The folders and the files kept.
    pub fn finish(self) -> (r: (Vec<ObjProps>, Vec<ObjProps>))
        ensures
            r.0 == self.all_folders,
            r.1 == self.files,
    {
        (self.all_folders, self.files)
    }
}

/// A child noted of a remote folder, without the `/` that ends a folder's path.
pub open spec fn child_key(c: Seq<char>) -> Seq<char> {
    if crate::text::ends_with(c, seq!['/']) {
        c.drop_last()
    } else {
        c
    }
}

/// Whether `local` is one of the children noted.
pub open spec fn among_children(local: Seq<char>, children: Seq<Seq<char>>) -> bool {
    exists|i: int| 0 <= i < children.len() && child_key(#[trigger] children[i]) == local
}

/// The local entries of a folder (paths relative to the root) that the
/// server no longer lists: those that are not new and are not among the
/// children noted, in order.
pub open spec fn deleted_locals(locals: Seq<Seq<char>>, is_new: Seq<bool>, children: Seq<Seq<char>>) -> Seq<Seq<char>>
    decreases locals.len(),
{
    if locals.len() == 0 {
        Seq::empty()
    } else {
        let prev = deleted_locals(locals.drop_last(), is_new, children);
        if !is_new[locals.len() - 1] && !among_children(locals.last(), children) {
            prev.push(locals.last())
        } else {
            prev
        }
    }
}

fn child_key_exec(c: &String) -> (r: String)
    ensures
        r@ == child_key(c@),
{
    let cs = chars_of(c.as_str());
    let n = cs.len();
    if n > 0 && cs[n - 1] == '/' {
        proof {
            assert(c@.subrange(n - 1, n as int) =~= seq!['/']);
        }
        let r = substring(c.as_str(), 0, n - 1);
        assert(r@ =~= c@.drop_last());
        r
    } else {
        proof {
            if n > 0 {
                assert(c@.subrange(n - 1, n as int)[0] != '/');
            }
        }
        c.clone()
    }
}

/// The local entries of a folder that the server no longer lists (see
/// `deleted_locals`): `locals` are the entries, relative to the root, and
/// `is_new` tells which were never synchronised.
pub fn get_deleted(locals: &Vec<String>, is_new: &Vec<bool>, children: &Vec<String>) -> (r: Vec<String>)
    requires
        is_new@.len() == locals@.len(),
    ensures
        views(r@) == deleted_locals(views(locals@), is_new@, views(children@)),
{
    let ghost lv = views(locals@);
    let ghost cv = views(children@);
    let mut out: Vec<String> = Vec::new();
    let mut i: usize = 0;
    while i < locals.len()
        invariant
            i <= locals@.len(),
            is_new@.len() == locals@.len(),
            lv == views(locals@),
            cv == views(children@),
            views(out@) == deleted_locals(lv.subrange(0, i as int), is_new@, cv),
        decreases locals@.len() - i,
    {
        assert(lv.subrange(0, i + 1).drop_last() =~= lv.subrange(0, i as int));
        assert(lv.subrange(0, i + 1).last() == locals@[i as int]@);
        let mut found = false;
        let mut j: usize = 0;
        while j < children.len()
            invariant
                j <= children@.len(),
                i < locals@.len(),
                cv == views(children@),
                found <==> exists|k: int| 0 <= k < j && child_key(#[trigger] cv[k]) == locals@[i as int]@,
            decreases children@.len() - j,
        {
            let key = child_key_exec(&children[j]);
            assert(cv[j as int] == children@[j as int]@);
            if str_eq(key.as_str(), locals[i].as_str()) {
                found = true;
            }
            j = j + 1;
        }
        if !is_new[i] && !found {
            let ghost before = out@;
            out.push(locals[i].clone());
            assert(views(out@) =~= views(before).push(locals@[i as int]@));
        }
        i = i + 1;
    }
    assert(lv.subrange(0, lv.len() as int) =~= lv);
    out
}

/// Whether every object of `objs` has a relative path.
pub open spec fn all_located(objs: Seq<ObjProps>) -> bool {
    forall|i: int| 0 <= i < objs.len() ==> (#[trigger] objs[i]).relative_s is Some
}

/// The line that tells an object to pull.
pub open spec fn pull_line(o: ObjProps) -> Seq<char> {
    "should pull "@ + o.relative_s->Some_0@
}

/// The report of the differences with the server: one line per folder, then
/// per file, telling its relative path is to pull.
pub fn remote_diff(folders: &Vec<ObjProps>, files: &Vec<ObjProps>) -> (r: Vec<String>)
    requires
        all_located(folders@),
        all_located(files@),
    ensures
        r@.len() == folders@.len() + files@.len(),
        forall|i: int| 0 <= i < folders@.len() ==> (#[trigger] r@[i])@ == pull_line(folders@[i]),
        forall|i: int| 0 <= i < files@.len() ==> (#[trigger] r@[folders@.len() + i])@ == pull_line(files@[i]),
{
    let mut out: Vec<String> = Vec::new();
    let mut i: usize = 0;
    while i < folders.len()
        invariant
            i <= folders@.len(),
            all_located(folders@),
            out@.len() == i,
            forall|k: int| 0 <= k < i ==> (#[trigger] out@[k])@ == pull_line(folders@[k]),
        decreases folders@.len() - i,
    {
        let mut line = String::from_str("should pull ");
        match &folders[i].relative_s {
            Some(r) => line.append(r.as_str()),
            None => {},
        }
        out.push(line);
        i = i + 1;
    }
    let mut j: usize = 0;
    while j < files.len()
        invariant
            j <= files@.len(),
            all_located(files@),
            out@.len() == folders@.len() + j,
            forall|k: int| 0 <= k < folders@.len() ==> (#[trigger] out@[k])@ == pull_line(folders@[k]),
            forall|k: int| 0 <= k < j ==> (#[trigger] out@[folders@.len() + k])@ == pull_line(files@[k]),
        decreases files@.len() - j,
    {
        let mut line = String::from_str("should pull ");
        match &files[j].relative_s {
            Some(r) => line.append(r.as_str()),
            None => {},
        }
        out.push(line);
        j = j + 1;
    }
    out
}

/// Whether a remote object can be passed over when pulling: it is known
/// locally (`exists`) and its local record (`local`, milliseconds since the
/// epoch) is not older than the server's date `remote`.
pub fn should_skip(exists: bool, local: Option<i64>, remote: i64) -> (r: bool)
    ensures
        r == (exists && (local matches Some(l) && l >= remote)),
{
    if !exists {
        return false;
    }
    match local {
        Some(l) => l >= remote,
        None => false,
    }
}
} // verus!
