//! Paths as the repository sees them: split into components, normalized,
//! joined and compared component by component, with `/` as the separator.

use vstd::prelude::*;
use vstd::string::*;
use crate::text::{chars_of, substring, str_eq};

verus! {

/// The views of a sequence of strings.
pub open spec fn views(v: Seq<String>) -> Seq<Seq<char>> {
    v.map_values(|x: String| x@)
}

/// The pieces of `s` between the occurrences of `sep` (what `str::split` yields).
pub open spec fn split_on(s: Seq<char>, sep: char) -> Seq<Seq<char>>
    decreases s.len(),
{
    if s.len() == 0 {
        seq![Seq::empty()]
    } else {
        let r = split_on(s.drop_last(), sep);
        if s.last() == sep {
            r.push(Seq::empty())
        } else {
            r.update(r.len() - 1, r.last().push(s.last()))
        }
    }
}

pub proof fn lemma_split_on_nonempty(s: Seq<char>, sep: char)
    ensures
        split_on(s, sep).len() >= 1,
    decreases s.len(),
{
    if s.len() > 0 {
        lemma_split_on_nonempty(s.drop_last(), sep);
    }
}

/// Splits `s` at every `sep`.
pub fn split_str(s: &str, sep: char) -> (r: Vec<String>)
    ensures
        views(r@) == split_on(s@, sep),
{
    let cs = chars_of(s);
    let n = cs.len();
    let mut done: Vec<String> = Vec::new();
    let mut start: usize = 0;
    let mut i: usize = 0;
    assert(s@.subrange(0, 0) =~= Seq::<char>::empty());
    assert(views(done@).push(s@.subrange(0, 0)) =~= seq![Seq::<char>::empty()]);
    while i < n
        invariant
            cs@ == s@,
            n == s@.len(),
            start <= i <= n,
            split_on(s@.subrange(0, i as int), sep) == views(done@).push(
                s@.subrange(start as int, i as int),
            ),
        decreases n - i,
    {
        let ghost prev = s@.subrange(0, i as int);
        assert(s@.subrange(0, i + 1).drop_last() =~= prev);
        assert(s@.subrange(0, i + 1).last() == cs@[i as int]);
        if cs[i] == sep {
            let piece = substring(s, start, i);
            let ghost before = done@;
            done.push(piece);
            assert(views(done@) =~= views(before).push(piece@));
            start = i + 1;
            assert(s@.subrange(start as int, i + 1) =~= Seq::<char>::empty());
        } else {
            assert(s@.subrange(start as int, i + 1) =~= s@.subrange(start as int, i as int).push(
                cs@[i as int],
            ));
        }
        i = i + 1;
        assert(views(done@).push(s@.subrange(start as int, i as int)) =~= split_on(
            s@.subrange(0, i as int),
            sep,
        ));
    }
    let last = substring(s, start, n);
    done.push(last);
    assert(s@.subrange(0, n as int) =~= s@);
    assert(views(done@) =~= split_on(s@, sep));
    done
}


/// The component `.`.
pub open spec fn dot() -> Seq<char> {
    seq!['.']
}

/// The component `..`.
pub open spec fn dotdot() -> Seq<char> {
    seq!['.', '.']
}

/// Whether `p` is absolute (starts with the separator).
pub open spec fn has_root(p: Seq<char>) -> bool {
    p.len() > 0 && p[0] == '/'
}

/// Whether the `j`-th piece between separators is a component of the path:
/// empty pieces never are, and `.` only as the first piece of a relative path.
pub open spec fn keeps_piece(piece: Seq<char>, j: int, root: bool) -> bool {
    piece.len() > 0 && (piece != dot() || (j == 0 && !root))
}

/// The components kept among the first `k` pieces.
pub open spec fn kept_pieces(pieces: Seq<Seq<char>>, k: int, root: bool) -> Seq<Seq<char>>
    decreases k,
{
    if k <= 0 {
        Seq::empty()
    } else {
        let before = kept_pieces(pieces, k - 1, root);
        if keeps_piece(pieces[k - 1], k - 1, root) {
            before.push(pieces[k - 1])
        } else {
            before
        }
    }
}

/// The components of `p` after its root, as `Path::components` yields them
/// (the root itself is told by `has_root`).
pub open spec fn components(p: Seq<char>) -> Seq<Seq<char>> {
    let pieces = split_on(p, '/');
    kept_pieces(pieces, pieces.len() as int, has_root(p))
}

/// One step of normalization: `..` removes the last component kept so far,
/// or stays when there is none; any other component is appended.
pub open spec fn norm_step(st: Seq<Seq<char>>, c: Seq<char>) -> Seq<Seq<char>> {
    if c == dotdot() {
        if st.len() > 0 {
            st.drop_last()
        } else {
            st.push(c)
        }
    } else {
        st.push(c)
    }
}

/// Components folded left to right by `norm_step`.
pub open spec fn norm_comps(cs: Seq<Seq<char>>) -> Seq<Seq<char>>
    decreases cs.len(),
{
    if cs.len() == 0 {
        Seq::empty()
    } else {
        norm_step(norm_comps(cs.drop_last()), cs.last())
    }
}

/// The components joined by the separator.
pub open spec fn join(cs: Seq<Seq<char>>) -> Seq<char>
    decreases cs.len(),
{
    if cs.len() == 0 {
        Seq::empty()
    } else if cs.len() == 1 {
        cs[0]
    } else {
        join(cs.drop_last()) + seq!['/'] + cs.last()
    }
}

/// A path written from a root flag and its components.
pub open spec fn render(root: bool, cs: Seq<Seq<char>>) -> Seq<char> {
    if root {
        seq!['/'] + join(cs)
    } else {
        join(cs)
    }
}

/// The normalized form of `p`: `a/b/../c` becomes `a/c`, `.` and empty
/// components are dropped, and a trailing separator is kept (a relative path
/// of which nothing is left becomes `./`).
pub open spec fn normalize(p: Seq<char>) -> Seq<char> {
    let st = norm_comps(components(p));
    if crate::text::ends_with(p, seq!['/']) {
        if st.len() > 0 {
            render(has_root(p), st) + seq!['/']
        } else if has_root(p) {
            render(true, st)
        } else {
            seq!['.', '/']
        }
    } else {
        render(has_root(p), st)
    }
}

/// Whether `s` holds the characters `..`.
fn is_dotdot(s: &String) -> (b: bool)
    ensures
        b == (s@ == dotdot()),
{
    let cs = chars_of(s.as_str());
    cs.len() == 2 && cs[0] == '.' && cs[1] == '.' && {
        assert(cs@ =~= dotdot());
        true
    }
}

/// Whether `s` holds the characters `.`.
fn is_dot(s: &String) -> (b: bool)
    ensures
        b == (s@ == dot()),
{
    let cs = chars_of(s.as_str());
    cs.len() == 1 && cs[0] == '.' && {
        assert(cs@ =~= dot());
        true
    }
}

/// The components of `p`.
pub fn path_components(p: &str) -> (r: Vec<String>)
    ensures
        views(r@) == components(p@),
{
    let pieces = split_str(p, '/');
    let cs = chars_of(p);
    let root = cs.len() > 0 && cs[0] == '/';
    let mut out: Vec<String> = Vec::new();
    let mut j: usize = 0;
    while j < pieces.len()
        invariant
            views(pieces@) == split_on(p@, '/'),
            root == has_root(p@),
            j <= pieces@.len(),
            views(out@) == kept_pieces(views(pieces@), j as int, root),
        decreases pieces@.len() - j,
    {
        let piece = &pieces[j];
        let nonempty = piece.as_str().unicode_len() > 0;
        let keep = nonempty && (!is_dot(piece) || (j == 0 && !root));
        assert(views(pieces@)[j as int] == piece@);
        let ghost before = out@;
        if keep {
            out.push(piece.clone());
            assert(views(out@) =~= views(before).push(piece@));
        }
        j = j + 1;
    }
    out
}

/// Folds `cs` by `norm_step`.
fn normalize_components(cs: &Vec<String>) -> (r: Vec<String>)
    ensures
        views(r@) == norm_comps(views(cs@)),
{
    let mut st: Vec<String> = Vec::new();
    let mut k: usize = 0;
    while k < cs.len()
        invariant
            k <= cs@.len(),
            views(st@) == norm_comps(views(cs@).subrange(0, k as int)),
        decreases cs@.len() - k,
    {
        let c = &cs[k];
        assert(views(cs@).subrange(0, k + 1).drop_last() =~= views(cs@).subrange(0, k as int));
        assert(views(cs@).subrange(0, k + 1).last() == c@);
        let ghost before = st@;
        if is_dotdot(c) {
            if st.len() > 0 {
                st.pop();
                assert(views(st@) =~= views(before).drop_last());
            } else {
                st.push(c.clone());
                assert(views(st@) =~= views(before).push(c@));
            }
        } else {
            st.push(c.clone());
            assert(views(st@) =~= views(before).push(c@));
        }
        k = k + 1;
    }
    assert(views(cs@).subrange(0, cs@.len() as int) =~= views(cs@));
    st
}

/// Writes the components `cs`, after a root when `root` holds.
pub fn render_path(root: bool, cs: &Vec<String>) -> (r: String)
    ensures
        r@ == render(root, views(cs@)),
{
    let mut out = String::new();
    if root {
        out.append("/");
        proof {
            reveal_strlit("/");
        }
    }
    let ghost head: Seq<char> = out@;
    assert(head == (if root { seq!['/'] } else { Seq::<char>::empty() }));
    let mut k: usize = 0;
    while k < cs.len()
        invariant
            k <= cs@.len(),
            head == (if root { seq!['/'] } else { Seq::<char>::empty() }),
            out@ == head + join(views(cs@).subrange(0, k as int)),
        decreases cs@.len() - k,
    {
        proof {
            reveal_strlit("/");
        }
        if k > 0 {
            out.append("/");
        }
        out.append(cs[k].as_str());
        proof {
            let t = views(cs@).subrange(0, k + 1);
            assert(t.drop_last() =~= views(cs@).subrange(0, k as int));
            if k == 0 {
                assert(join(views(cs@).subrange(0, 0)) =~= Seq::<char>::empty());
                assert(out@ =~= head + join(t));
            } else {
                assert(out@ =~= head + join(t));
            }
        }
        k = k + 1;
    }
    assert(views(cs@).subrange(0, cs@.len() as int) =~= views(cs@));
    out
}

/// Normalizes `path` lexically: `..` removes the component before it (or stays
/// when there is none), `.` and repeated separators vanish, and a path that ends
/// with `/` still ends with `/` afterwards (`./` when nothing else remains).
pub fn normalize_path(path: &str) -> (r: String)
    ensures
        r@ == normalize(path@),
{
    let cs = chars_of(path);
    let root = cs.len() > 0 && cs[0] == '/';
    let trailing = cs.len() > 0 && cs[cs.len() - 1] == '/';
    proof {
        if cs@.len() > 0 {
            let t = path@.subrange(path@.len() - 1, path@.len() as int);
            assert(t =~= seq![cs@.last()]);
            if !trailing {
                assert(t[0] != seq!['/'][0]);
            }
        }
    }
    assert(trailing == crate::text::ends_with(path@, seq!['/']));
    let comps = path_components(path);
    let st = normalize_components(&comps);
    let mut out = render_path(root, &st);
    if trailing {
        if st.len() > 0 {
            out.append("/");
            proof {
                reveal_strlit("/");
            }
        } else if !root {
            out = String::from_str("./");
            proof {
                reveal_strlit("./");
                assert("./"@ =~= seq!['.', '/']);
            }
        }
    }
    out
}


/// Whether `s` holds no separator.
pub open spec fn no_sep(s: Seq<char>) -> bool {
    forall|i: int| 0 <= i < s.len() ==> s[i] != '/'
}

/// The shape of a normalized list of components: each is non-empty and holds
/// no separator; only the first may be `.` (and only without a root) or `..`.
pub open spec fn normal_form(root: bool, st: Seq<Seq<char>>) -> bool {
    forall|i: int|
        0 <= i < st.len() ==> {
            &&& (#[trigger] st[i]).len() > 0
            &&& no_sep(st[i])
            &&& (i > 0 ==> st[i] != dot() && st[i] != dotdot())
            &&& (st[i] == dot() ==> !root)
        }
}

proof fn lemma_split_concat(a: Seq<char>, b: Seq<char>)
    ensures
        split_on(a + seq!['/'] + b, '/') == split_on(a, '/') + split_on(b, '/'),
    decreases b.len(),
{
    let ab = a + seq!['/'] + b;
    if b.len() == 0 {
        assert(ab.drop_last() =~= a);
        assert(split_on(a, '/') + split_on(b, '/') =~= split_on(a, '/').push(Seq::empty()));
    } else {
        let b1 = b.drop_last();
        lemma_split_concat(a, b1);
        assert(ab.drop_last() =~= a + seq!['/'] + b1);
        assert(ab.last() == b.last());
        lemma_split_on_nonempty(b1, '/');
        lemma_split_on_nonempty(a, '/');
        let r = split_on(a, '/') + split_on(b1, '/');
        if b.last() == '/' {
            assert(split_on(a, '/') + split_on(b, '/') =~= r.push(Seq::empty()));
        } else {
            assert(split_on(a, '/') + split_on(b, '/') =~= r.update(
                r.len() - 1,
                r.last().push(b.last()),
            ));
        }
    }
}

/// Splitting at `sep` a text joined with `sep` splits each part.
pub proof fn lemma_split_on_concat(a: Seq<char>, b: Seq<char>, sep: char)
    ensures
        split_on(a + seq![sep] + b, sep) == split_on(a, sep) + split_on(b, sep),
    decreases b.len(),
{
    let ab = a + seq![sep] + b;
    if b.len() == 0 {
        assert(ab.drop_last() =~= a);
        assert(split_on(a, sep) + split_on(b, sep) =~= split_on(a, sep).push(Seq::empty()));
    } else {
        let b1 = b.drop_last();
        lemma_split_on_concat(a, b1, sep);
        assert(ab.drop_last() =~= a + seq![sep] + b1);
        assert(ab.last() == b.last());
        lemma_split_on_nonempty(b1, sep);
        lemma_split_on_nonempty(a, sep);
        let r = split_on(a, sep) + split_on(b1, sep);
        if b.last() == sep {
            assert(split_on(a, sep) + split_on(b, sep) =~= r.push(Seq::empty()));
        } else {
            assert(split_on(a, sep) + split_on(b, sep) =~= r.update(r.len() - 1, r.last().push(b.last())));
        }
    }
}

/// A text without `sep` is one piece.
pub proof fn lemma_split_on_single(s: Seq<char>, sep: char)
    requires
        forall|i: int| 0 <= i < s.len() ==> s[i] != sep,
    ensures
        split_on(s, sep) == seq![s],
    decreases s.len(),
{
    if s.len() == 0 {
        assert(s =~= Seq::<char>::empty());
    } else {
        lemma_split_on_single(s.drop_last(), sep);
        assert(s.drop_last().push(s.last()) =~= s);
        assert(seq![s.drop_last()].update(0, s) =~= seq![s]);
    }
}

proof fn lemma_split_no_sep(s: Seq<char>)
    requires
        no_sep(s),
    ensures
        split_on(s, '/') == seq![s],
    decreases s.len(),
{
    if s.len() == 0 {
        assert(s =~= Seq::<char>::empty());
    } else {
        lemma_split_no_sep(s.drop_last());
        assert(s.last() != '/');
        assert(s.drop_last().push(s.last()) =~= s);
        assert(seq![s.drop_last()].update(0, s.drop_last().push(s.last())) =~= seq![s]);
    }
}

proof fn lemma_split_join(st: Seq<Seq<char>>)
    requires
        st.len() > 0,
        forall|i: int| 0 <= i < st.len() ==> no_sep(#[trigger] st[i]),
    ensures
        split_on(join(st), '/') == st,
    decreases st.len(),
{
    if st.len() == 1 {
        lemma_split_no_sep(st[0]);
        assert(seq![st[0]] =~= st);
    } else {
        let d = st.drop_last();
        assert forall|i: int| 0 <= i < d.len() implies no_sep(#[trigger] d[i]) by {
            assert(d[i] == st[i]);
        }
        lemma_split_join(d);
        lemma_split_concat(join(d), st.last());
        lemma_split_no_sep(st.last());
        assert(d + seq![st.last()] =~= st);
    }
}

proof fn lemma_join_ends(st: Seq<Seq<char>>)
    requires
        st.len() > 0,
        st.last().len() > 0,
    ensures
        join(st).len() > 0,
        join(st).last() == st.last().last(),
    decreases st.len(),
{
    if st.len() > 1 {
        let d = st.drop_last();
        assert(join(st) == join(d) + seq!['/'] + st.last());
    }
}

proof fn lemma_join_starts(st: Seq<Seq<char>>)
    requires
        st.len() > 0,
        forall|i: int| 0 <= i < st.len() ==> (#[trigger] st[i]).len() > 0,
    ensures
        join(st).len() > 0,
        join(st)[0] == st[0][0],
    decreases st.len(),
{
    if st.len() > 1 {
        let d = st.drop_last();
        assert(d[0] == st[0]);
        assert forall|i: int| 0 <= i < d.len() implies (#[trigger] d[i]).len() > 0 by {
            assert(d[i] == st[i]);
        }
        lemma_join_starts(d);
        assert(join(st) == join(d) + seq!['/'] + st.last());
    }
}

/// `kept_pieces` keeps exactly the pieces whose indices lie in `lo..hi`.
proof fn lemma_kept_range(pieces: Seq<Seq<char>>, k: int, root: bool, lo: int, hi: int)
    requires
        0 <= lo <= hi <= pieces.len(),
        0 <= k <= pieces.len(),
        forall|j: int|
            0 <= j < pieces.len() ==> (keeps_piece(#[trigger] pieces[j], j, root) <==> lo <= j
                < hi),
    ensures
        kept_pieces(pieces, k, root) == pieces.subrange(
            if k < lo {
                lo
            } else {
                lo
            },
            if k < lo {
                lo
            } else if k < hi {
                k
            } else {
                hi
            },
        ),
    decreases k,
{
    if k > 0 {
        lemma_kept_range(pieces, k - 1, root, lo, hi);
        assert(keeps_piece(pieces[k - 1], k - 1, root) <==> lo <= k - 1 < hi);
        if lo <= k - 1 && k - 1 < hi {
            assert(pieces.subrange(lo, k - 1).push(pieces[k - 1]) =~= pieces.subrange(lo, k));
        }
    }
}

/// Rendering a normal form and reading its components back gives it again.
proof fn lemma_components_render(root: bool, st: Seq<Seq<char>>, trailing: bool)
    requires
        normal_form(root, st),
    ensures
        ({
            let q = if trailing && st.len() > 0 {
                render(root, st) + seq!['/']
            } else {
                render(root, st)
            };
            &&& components(q) == st
            &&& has_root(q) == root
            &&& (crate::text::ends_with(q, seq!['/']) <==> ((trailing && st.len() > 0) || (root
                && st.len() == 0)))
        }),
{
    let q = if trailing && st.len() > 0 {
        render(root, st) + seq!['/']
    } else {
        render(root, st)
    };
    let tail: Seq<Seq<char>> = if trailing && st.len() > 0 {
        seq![Seq::<char>::empty()]
    } else {
        Seq::empty()
    };
    // the pieces of q between separators
    let pieces: Seq<Seq<char>>;
    if st.len() == 0 {
        if root {
            assert(q =~= Seq::<char>::empty() + seq!['/'] + Seq::<char>::empty());
            lemma_split_concat(Seq::<char>::empty(), Seq::<char>::empty());
            pieces = seq![Seq::<char>::empty(), Seq::<char>::empty()];
            assert(split_on(q, '/') =~= pieces);
            lemma_kept_range(pieces, 2, root, 0, 0);
        } else {
            assert(q =~= Seq::<char>::empty());
            pieces = seq![Seq::<char>::empty()];
            lemma_kept_range(pieces, 1, root, 0, 0);
        }
        assert(components(q) =~= st);
    } else {
        assert forall|i: int| 0 <= i < st.len() implies no_sep(#[trigger] st[i]) by {}
        lemma_split_join(st);
        let body: Seq<Seq<char>> = st + tail;
        if trailing {
            lemma_split_concat(join(st), Seq::<char>::empty());
            assert(join(st) + seq!['/'] =~= join(st) + seq!['/'] + Seq::<char>::empty());
        }
        assert(split_on(if trailing {
            join(st) + seq!['/']
        } else {
            join(st)
        }, '/') =~= body);
        if root {
            assert(q =~= Seq::<char>::empty() + seq!['/'] + (if trailing {
                join(st) + seq!['/']
            } else {
                join(st)
            }));
            lemma_split_concat(
                Seq::<char>::empty(),
                if trailing {
                    join(st) + seq!['/']
                } else {
                    join(st)
                },
            );
            pieces = seq![Seq::<char>::empty()] + body;
            assert(split_on(q, '/') =~= pieces);
            assert forall|j: int| 0 <= j < pieces.len() implies (keeps_piece(
                #[trigger] pieces[j],
                j,
                root,
            ) <==> 1 <= j < 1 + st.len()) by {
                if 1 <= j < 1 + st.len() {
                    assert(pieces[j] == st[j - 1]);
                } else if j == 0 {
                    assert(pieces[j] =~= Seq::<char>::empty());
                } else {
                    assert(pieces[j] == tail[j - 1 - st.len()]);
                }
            }
            lemma_kept_range(pieces, pieces.len() as int, root, 1, (1 + st.len()) as int);
            assert(pieces.subrange(1, (1 + st.len()) as int) =~= st);
        } else {
            pieces = body;
            assert forall|j: int| 0 <= j < pieces.len() implies (keeps_piece(
                #[trigger] pieces[j],
                j,
                root,
            ) <==> 0 <= j < st.len()) by {
                if j < st.len() {
                    assert(pieces[j] == st[j]);
                } else {
                    assert(pieces[j] == tail[j - st.len()]);
                }
            }
            lemma_kept_range(pieces, pieces.len() as int, root, 0, st.len() as int);
            assert(pieces.subrange(0, st.len() as int) =~= st);
        }
    }
    // root and trailing separator of q
    if st.len() > 0 {
        lemma_join_ends(st);
        lemma_join_starts(st);
        let last_c = st.last().last();
        assert(no_sep(st.last()));
        assert(last_c != '/');
    }
    if root {
        assert(q[0] == '/');
    } else if st.len() > 0 {
        assert(q[0] == join(st)[0]);
        assert(no_sep(st[0]));
    }
    if trailing && st.len() > 0 {
        assert(q.subrange(q.len() - 1, q.len() as int) =~= seq!['/']);
    } else if st.len() > 0 {
        assert(q.last() != '/');
        assert(q.subrange(q.len() - 1, q.len() as int)[0] != seq!['/'][0]);
    } else if root {
        assert(q =~= seq!['/']);
        assert(q.subrange(q.len() - 1, q.len() as int) =~= seq!['/']);
    } else {
        assert(q.len() == 0);
    }
}

/// Every piece of a split holds no separator.
proof fn lemma_split_pieces_no_sep(s: Seq<char>)
    ensures
        forall|i: int|
            0 <= i < split_on(s, '/').len() ==> no_sep(#[trigger] split_on(s, '/')[i]),
    decreases s.len(),
{
    if s.len() > 0 {
        lemma_split_pieces_no_sep(s.drop_last());
        lemma_split_on_nonempty(s.drop_last(), '/');
        let r = split_on(s.drop_last(), '/');
        if s.last() != '/' {
            assert forall|i: int| 0 <= i < split_on(s, '/').len() implies no_sep(
                #[trigger] split_on(s, '/')[i],
            ) by {
                if i == r.len() - 1 {
                    let p = r.last().push(s.last());
                    assert(split_on(s, '/')[i] == p);
                    assert forall|k: int| 0 <= k < p.len() implies p[k] != '/' by {
                        if k < p.len() - 1 {
                            assert(p[k] == r.last()[k]);
                        }
                    }
                } else {
                    assert(split_on(s, '/')[i] == r[i]);
                }
            }
        } else {
            assert forall|i: int| 0 <= i < split_on(s, '/').len() implies no_sep(
                #[trigger] split_on(s, '/')[i],
            ) by {
                if i < r.len() {
                    assert(split_on(s, '/')[i] == r[i]);
                }
            }
        }
    }
}

/// What the kept components look like: non-empty, free of separators, and
/// `.` only first and only without a root.
proof fn lemma_kept_shape(pieces: Seq<Seq<char>>, k: int, root: bool)
    requires
        0 <= k <= pieces.len(),
        forall|i: int| 0 <= i < pieces.len() ==> no_sep(#[trigger] pieces[i]),
    ensures
        forall|i: int|
            0 <= i < kept_pieces(pieces, k, root).len() ==> {
                &&& (#[trigger] kept_pieces(pieces, k, root)[i]).len() > 0
                &&& no_sep(kept_pieces(pieces, k, root)[i])
                &&& (kept_pieces(pieces, k, root)[i] == dot() ==> i == 0 && !root)
            },
    decreases k,
{
    if k > 0 {
        lemma_kept_shape(pieces, k - 1, root);
        let before = kept_pieces(pieces, k - 1, root);
        if keeps_piece(pieces[k - 1], k - 1, root) {
            assert(no_sep(pieces[k - 1]));
            if pieces[k - 1] == dot() {
                // only the first piece may be `.`; nothing was kept before it
                assert(k - 1 == 0);
                assert(before.len() == 0);
            }
        }
    }
}

/// Normalizing components leaves them in normal form: in particular a `..`
/// can only come first, so no name is ever followed by `..`.
pub proof fn lemma_norm_normal_form(root: bool, cs: Seq<Seq<char>>)
    requires
        forall|i: int|
            0 <= i < cs.len() ==> {
                &&& (#[trigger] cs[i]).len() > 0
                &&& no_sep(cs[i])
                &&& (cs[i] == dot() ==> i == 0 && !root)
            },
    ensures
        normal_form(root, norm_comps(cs)),
    decreases cs.len(),
{
    if cs.len() > 0 {
        let d = cs.drop_last();
        assert forall|i: int| 0 <= i < d.len() implies {
            &&& (#[trigger] d[i]).len() > 0
            &&& no_sep(d[i])
            &&& (d[i] == dot() ==> i == 0 && !root)
        } by {
            assert(d[i] == cs[i]);
        }
        lemma_norm_normal_form(root, d);
        let st = norm_comps(d);
        let c = cs.last();
        if c == dot() {
            assert(cs.len() == 1);
            assert(st.len() == 0);
        }
        if c == dotdot() {
            if st.len() > 0 {
                assert forall|i: int| 0 <= i < st.drop_last().len() implies #[trigger] st.drop_last()[i] == st[i] by {}
            }
        }
    }
}

proof fn lemma_norm_identity(root: bool, st: Seq<Seq<char>>)
    requires
        normal_form(root, st),
    ensures
        norm_comps(st) == st,
    decreases st.len(),
{
    if st.len() > 0 {
        let d = st.drop_last();
        assert forall|i: int| 0 <= i < d.len() implies {
            &&& (#[trigger] d[i]).len() > 0
            &&& no_sep(d[i])
            &&& (i > 0 ==> d[i] != dot() && d[i] != dotdot())
            &&& (d[i] == dot() ==> !root)
        } by {
            assert(d[i] == st[i]);
        }
        lemma_norm_identity(root, d);
        if st.last() == dotdot() {
            assert(st.len() == 1);
            assert(d.push(st.last()) =~= st);
        } else {
            assert(d.push(st.last()) =~= st);
        }
    }
}

/// Normalizing twice gives what normalizing once gives.
pub proof fn lemma_normalize_idempotent(p: Seq<char>)
    ensures
        normalize(normalize(p)) == normalize(p),
{
    let root = has_root(p);
    let pieces = split_on(p, '/');
    lemma_split_pieces_no_sep(p);
    lemma_kept_shape(pieces, pieces.len() as int, root);
    let cs = components(p);
    lemma_norm_normal_form(root, cs);
    let st = norm_comps(cs);
    let trailing = crate::text::ends_with(p, seq!['/']);
    if trailing && st.len() == 0 && !root {
        lemma_dot_slash_normal();
    } else {
        lemma_components_render(root, st, trailing);
        lemma_norm_identity(root, st);
    }
}

/// `./` is already normalized.
proof fn lemma_dot_slash_normal()
    ensures
        normalize(seq!['.', '/']) == seq!['.', '/'],
        components(seq!['.', '/']) == seq![seq!['.']],
{
    let q = seq!['.', '/'];
    assert(q =~= seq!['.'] + seq!['/'] + Seq::<char>::empty());
    lemma_split_on_concat(seq!['.'], Seq::<char>::empty(), '/');
    lemma_split_on_single(seq!['.'], '/');
    lemma_split_on_single(Seq::<char>::empty(), '/');
    let pieces = split_on(q, '/');
    assert(pieces =~= seq![seq!['.'], Seq::<char>::empty()]);
    assert(!has_root(q));
    assert(seq!['.'] == dot());
    assert(kept_pieces(pieces, 0, false) =~= Seq::<Seq<char>>::empty());
    assert(keeps_piece(pieces[0], 0, false));
    assert(kept_pieces(pieces, 1, false) =~= seq![seq!['.']]);
    assert(!keeps_piece(pieces[1], 1, false));
    assert(kept_pieces(pieces, 2, false) =~= seq![seq!['.']]);
    assert(components(q) =~= seq![seq!['.']]);
    let cs = seq![seq!['.']];
    assert(cs.drop_last() =~= Seq::<Seq<char>>::empty());
    assert(norm_comps(cs.drop_last()) =~= Seq::<Seq<char>>::empty());
    assert(seq!['.'] != dotdot()) by {
        assert(seq!['.'].len() != dotdot().len());
    }
    assert(cs.last() == seq!['.']);
    assert(norm_comps(cs) =~= Seq::<Seq<char>>::empty().push(seq!['.']));
    assert(norm_comps(cs) =~= seq![seq!['.']]);
    assert(crate::text::ends_with(q, seq!['/'])) by {
        assert(q.subrange(1, 2) =~= seq!['/']);
    }
    assert(join(seq![seq!['.']]) == seq!['.']);
    assert(render(false, seq![seq!['.']]) + seq!['/'] =~= q);
}


/// In a normalized path each `..` has cancelled the name before it: a `..`
/// can only be its first component, so no name is directly followed by `..`.
pub proof fn lemma_normalize_normal_form(p: Seq<char>)
    ensures
        forall|i: int|
            0 < i < components(normalize(p)).len() ==> #[trigger] components(normalize(p))[i] != dotdot(),
{
    let root = has_root(p);
    let pieces = split_on(p, '/');
    lemma_split_pieces_no_sep(p);
    lemma_kept_shape(pieces, pieces.len() as int, root);
    let cs = components(p);
    lemma_norm_normal_form(root, cs);
    let st = norm_comps(cs);
    let trailing = crate::text::ends_with(p, seq!['/']);
    if trailing && st.len() == 0 && !root {
        lemma_dot_slash_normal();
    } else {
        lemma_components_render(root, st, trailing);
        assert forall|i: int| 0 < i < st.len() implies #[trigger] st[i] != dotdot() by {
            assert(normal_form(root, st));
        }
    }
}

/// A path that ends with `/` still ends with `/` once normalized.
pub proof fn lemma_normalize_keeps_trailing_slash(p: Seq<char>)
    requires
        crate::text::ends_with(p, seq!['/']),
    ensures
        crate::text::ends_with(normalize(p), seq!['/']),
{
    let st = norm_comps(components(p));
    let n = normalize(p);
    if st.len() > 0 {
        assert(n.subrange(n.len() - 1, n.len() as int) =~= seq!['/']);
    } else {
        assert(join(st) =~= Seq::<char>::empty());
        if has_root(p) {
            assert(n =~= seq!['/']);
            assert(n.subrange(0, 1) =~= seq!['/']);
        } else {
            assert(n.subrange(1, 2) =~= seq!['/']);
        }
    }
}

/// The component standing for the root.
pub open spec fn root_marker() -> Seq<char> {
    seq!['/']
}

/// All components of `p`, the root first (as `root_marker`) when `p` is absolute;
/// what `Path::components` yields.
pub open spec fn full_components(p: Seq<char>) -> Seq<Seq<char>> {
    if has_root(p) {
        seq![root_marker()] + components(p)
    } else {
        components(p)
    }
}

/// A path written back from a list of components that may begin with the root.
pub open spec fn render_full(fc: Seq<Seq<char>>) -> Seq<char> {
    if fc.len() > 0 && fc[0] == root_marker() {
        render(true, fc.drop_first())
    } else {
        render(false, fc)
    }
}

/// `a.join(b)`: `b` when it is absolute, else `a` and `b` with one separator between.
pub open spec fn join_paths(a: Seq<char>, b: Seq<char>) -> Seq<char> {
    if has_root(b) {
        b
    } else if a.len() > 0 && a.last() != '/' {
        a + seq!['/'] + b
    } else {
        a + b
    }
}

/// Joins `b` onto `a` as `Path::join` does.
pub fn join_path(a: &str, b: &str) -> (r: String)
    ensures
        r@ == join_paths(a@, b@),
{
    let ac = chars_of(a);
    let bc = chars_of(b);
    if bc.len() > 0 && bc[0] == '/' {
        return String::from_str(b);
    }
    let mut out = String::from_str(a);
    if ac.len() > 0 && ac[ac.len() - 1] != '/' {
        out.append("/");
        proof {
            reveal_strlit("/");
        }
    }
    out.append(b);
    out
}

/// The full components of `p`, the root written as `/`.
pub fn full_path_components(p: &str) -> (r: Vec<String>)
    ensures
        views(r@) == full_components(p@),
{
    let cs = chars_of(p);
    let comps = path_components(p);
    if cs.len() > 0 && cs[0] == '/' {
        let mut out: Vec<String> = Vec::new();
        out.push(String::from_str("/"));
        proof {
            reveal_strlit("/");
            assert("/"@ =~= root_marker());
        }
        assert(views(out@) =~= seq![root_marker()] + views(comps@).subrange(0, 0));
        let mut k: usize = 0;
        while k < comps.len()
            invariant
                k <= comps@.len(),
                views(out@) == seq![root_marker()] + views(comps@).subrange(0, k as int),
            decreases comps@.len() - k,
        {
            let ghost before = out@;
            out.push(comps[k].clone());
            assert(views(out@) =~= seq![root_marker()] + views(comps@).subrange(0, k + 1)) by {
                assert(views(out@) =~= views(before).push(comps@[k as int]@));
            }
            k = k + 1;
        }
        assert(views(comps@).subrange(0, comps@.len() as int) =~= views(comps@));
        out
    } else {
        comps
    }
}

/// Writes a list of components that may begin with the root.
pub fn render_full_path(fc: &Vec<String>) -> (r: String)
    ensures
        r@ == render_full(views(fc@)),
{
    proof {
        reveal_strlit("/");
        assert("/"@ =~= root_marker());
        if fc@.len() > 0 {
            assert(views(fc@)[0] == fc@[0]@);
        }
    }
    if fc.len() > 0 && str_eq(fc[0].as_str(), "/") {
        let mut rest: Vec<String> = Vec::new();
        let mut k: usize = 1;
        while k < fc.len()
            invariant
                1 <= k <= fc@.len(),
                views(rest@) == views(fc@).subrange(1, k as int),
            decreases fc@.len() - k,
        {
            let ghost before = rest@;
            rest.push(fc[k].clone());
            assert(views(rest@) =~= views(fc@).subrange(1, k + 1)) by {
                assert(views(rest@) =~= views(before).push(fc@[k as int]@));
            }
            k = k + 1;
        }
        assert(views(fc@).drop_first() =~= views(fc@).subrange(1, fc@.len() as int));
        render_path(true, &rest)
    } else {
        proof {
            reveal_strlit("/");
        }
        render_path(false, fc)
    }
}

/// Whether the strings of `a` are, in order, the first strings of `b`.
fn is_prefix_list(a: &Vec<String>, b: &Vec<String>) -> (r: bool)
    ensures
        r == views(a@).is_prefix_of(views(b@)),
{
    if a.len() > b.len() {
        return false;
    }
    let mut i: usize = 0;
    while i < a.len()
        invariant
            a@.len() <= b@.len(),
            i <= a@.len(),
            forall|j: int| 0 <= j < i ==> a@[j]@ == b@[j]@,
        decreases a@.len() - i,
    {
        if !str_eq(a[i].as_str(), b[i].as_str()) {
            assert(views(a@)[i as int] != views(b@)[i as int]);
            return false;
        }
        i = i + 1;
    }
    assert(views(a@) =~= views(b@).subrange(0, a@.len() as int));
    true
}

/// `p.starts_with(base)` for paths: the components of `base` begin those of `p`.
pub open spec fn path_starts_with(p: Seq<char>, base: Seq<char>) -> bool {
    full_components(base).is_prefix_of(full_components(p))
}

/// Whether `p` starts, component by component, with `base`.
pub fn starts_with_path(p: &str, base: &str) -> (r: bool)
    ensures
        r == path_starts_with(p@, base@),
{
    let pc = full_path_components(p);
    let bc = full_path_components(base);
    is_prefix_list(&bc, &pc)
}

/// `p.strip_prefix(base)`: the rest of `p` after the components of `base`,
/// or `None` when `base` does not begin `p`.
pub open spec fn strip_path_prefix(p: Seq<char>, base: Seq<char>) -> Option<Seq<char>> {
    if path_starts_with(p, base) {
        let fb = full_components(base);
        let fp = full_components(p);
        Some(render_full(fp.subrange(fb.len() as int, fp.len() as int)))
    } else {
        None
    }
}

/// Removes the components of `base` from the front of `p`.
pub fn strip_prefix_path(p: &str, base: &str) -> (r: Option<String>)
    ensures
        r matches Some(s) ==> strip_path_prefix(p@, base@) == Some(s@),
        r is None ==> strip_path_prefix(p@, base@) is None,
{
    let pc = full_path_components(p);
    let bc = full_path_components(base);
    if !is_prefix_list(&bc, &pc) {
        return None;
    }
    let mut rest: Vec<String> = Vec::new();
    let mut k: usize = bc.len();
    while k < pc.len()
        invariant
            bc@.len() <= k <= pc@.len(),
            views(rest@) == views(pc@).subrange(bc@.len() as int, k as int),
        decreases pc@.len() - k,
    {
        let ghost before = rest@;
        rest.push(pc[k].clone());
        assert(views(rest@) =~= views(pc@).subrange(bc@.len() as int, k + 1)) by {
            assert(views(rest@) =~= views(before).push(pc@[k as int]@));
        }
        k = k + 1;
    }
    Some(render_full_path(&rest))
}

/// The message when the current location is unknown.
pub open spec fn no_current_msg() -> Seq<char> {
    "cannot find current location"@
}

/// The message when a file lies outside the repository.
pub open spec fn outside_repo_msg() -> Seq<char> {
    "is not in a nextsync repo or doesn't exist"@
}

/// `file`, taken from the directory `current`, as a path relative to the repository
/// `root`: joined onto `current`, normalized, then stripped of `root`.
/// Fails when the current location is unknown or the file lies outside `root`.
pub fn normalize_relative(current: Option<String>, root: &str, file: &str) -> (r: Result<
    String,
    String,
>)
    ensures
        current is None ==> (r matches Err(e) && e@ == no_current_msg()),
        current matches Some(c) ==> match strip_path_prefix(
            normalize(join_paths(c@, file@)),
            root@,
        ) {
            Some(rel) => (r matches Ok(s) && s@ == rel),
            None => (r matches Err(e) && e@ == outside_repo_msg()),
        },
{
    let c = match current {
        Some(c) => c,
        None => {
            return Err(String::from_str("cannot find current location"));
        },
    };
    let joined = join_path(c.as_str(), file);
    let p = normalize_path(joined.as_str());
    match strip_prefix_path(p.as_str(), root) {
        Some(rel) => Ok(rel),
        None => Err(String::from_str("is not in a nextsync repo or doesn't exist")),
    }
}

/// The directory of the repository's own files under the repository root.
pub fn nextsync(root: &str) -> (r: String)
    ensures
        r@ == join_paths(root@, ".nextsync"@),
{
    join_path(root, ".nextsync")
}

/// The directory of the stored objects.
pub fn objects(root: &str) -> (r: String)
    ensures
        r@ == join_paths(join_paths(root@, ".nextsync"@), "objects"@),
{
    let n = nextsync(root);
    join_path(n.as_str(), "objects")
}

/// The directory of the content references.
pub fn refs(root: &str) -> (r: String)
    ensures
        r@ == join_paths(join_paths(root@, ".nextsync"@), "refs"@),
{
    let n = nextsync(root);
    join_path(n.as_str(), "refs")
}

/// The ignore file of the repository (the caller tests that it exists).
pub fn nextsyncignore(root: &str) -> (r: String)
    ensures
        r@ == join_paths(root@, ".nextsyncignore"@),
{
    join_path(root, ".nextsyncignore")
}

/// The directories tested for a `.nextsync` directory, from `current` up: `current`
/// itself, then each parent, stopping before the filesystem root (which is only
/// tested when `current` is the root itself).
pub open spec fn root_candidates(current: Seq<char>) -> Seq<Seq<char>> {
    let fc = full_components(current);
    let n = fc.len() - 1;
    if n <= 0 {
        seq![render_full(fc)]
    } else {
        Seq::new(n as nat, |i: int| render_full(fc.subrange(0, fc.len() - i)))
    }
}

/// The directories to test for a `.nextsync` directory, in the order they are tested.
pub fn repo_root_candidates(current: &str) -> (r: Vec<String>)
    requires
        has_root(current@),
    ensures
        views(r@) == root_candidates(current@),
{
    let fc = full_path_components(current);
    let n = fc.len() - 1;
    let mut out: Vec<String> = Vec::new();
    if n == 0 {
        out.push(render_full_path(&fc));
        assert(views(out@) =~= root_candidates(current@));
        return out;
    }
    let mut i: usize = 0;
    while i < n
        invariant
            fc@.len() == n + 1,
            views(fc@) == full_components(current@),
            n > 0,
            i <= n,
            views(out@) == Seq::new(
                i as nat,
                |j: int| render_full(views(fc@).subrange(0, fc@.len() - j)),
            ),
        decreases n - i,
    {
        let mut prefix: Vec<String> = Vec::new();
        let upto = fc.len() - i;
        let mut k: usize = 0;
        while k < upto
            invariant
                upto <= fc@.len(),
                k <= upto,
                views(prefix@) == views(fc@).subrange(0, k as int),
            decreases upto - k,
        {
            let ghost before = prefix@;
            prefix.push(fc[k].clone());
            assert(views(prefix@) =~= views(fc@).subrange(0, k + 1)) by {
                assert(views(prefix@) =~= views(before).push(fc@[k as int]@));
            }
            k = k + 1;
        }
        let cand = render_full_path(&prefix);
        let ghost before = out@;
        out.push(cand);
        assert(views(out@) =~= Seq::new(
            (i + 1) as nat,
            |j: int| render_full(views(fc@).subrange(0, fc@.len() - j)),
        )) by {
            assert(views(out@) =~= views(before).push(cand@));
        }
        i = i + 1;
    }
    out
}

/// The root of the repository that holds `current`: the first candidate
/// (see `root_candidates`) for which `has_marker` tells that it holds a
/// `.nextsync` directory, or `None` when none does.
pub fn repo_root_without_err(current: &str, has_marker: &Vec<bool>) -> (r: Option<String>)
    requires
        has_root(current@),
        has_marker@.len() == root_candidates(current@).len(),
    ensures
        r matches Some(s) ==> exists|i: int|
            0 <= i < has_marker@.len() && has_marker@[i] && (forall|j: int|
                0 <= j < i ==> !has_marker@[j]) && s@ == root_candidates(current@)[i],
        r is None ==> forall|i: int| 0 <= i < has_marker@.len() ==> !has_marker@[i],
{
    let cands = repo_root_candidates(current);
    let mut i: usize = 0;
    while i < cands.len()
        invariant
            views(cands@) == root_candidates(current@),
            has_marker@.len() == cands@.len(),
            i <= cands@.len(),
            forall|j: int| 0 <= j < i ==> !has_marker@[j],
        decreases cands@.len() - i,
    {
        if has_marker[i] {
            let found = cands[i].clone();
            assert(views(cands@)[i as int] == found@);
            return Some(found);
        }
        i = i + 1;
    }
    None
}

} // verus!
