//! Tree objects. A directory is recorded by a line `tree <hash> <name>` in its
//! parent (or in `HEAD` at the top) and by an object, named after the SHA-1 of
//! its path, whose first line is `<name> <date>`.

use vstd::prelude::*;
use vstd::string::*;
use crate::text::{chars_of, str_eq};
use crate::paths::{split_str, full_path_components, render_full_path, views};
use crate::hash::sha1_str;

verus! {

/// The three fields of an object line `<type> <hash> <name>`, or `None` when
/// the line is not made of exactly three fields separated by spaces.
pub open spec fn line_fields(line: Seq<char>) -> Option<(Seq<char>, Seq<char>, Seq<char>)> {
    let f = crate::paths::split_on(line, ' ');
    if f.len() == 3 {
        Some((f[0], f[1], f[2]))
    } else {
        None
    }
}

/// Splits an object line into type, hash and name; `None` for a line that is
/// not three fields (an invalid object).
pub fn parse_line(line: String) -> (r: Option<(String, String, String)>)
    ensures
        match line_fields(line@) {
            None => r is None,
            Some(f) => r matches Some(t) && t.0@ == f.0 && t.1@ == f.1 && t.2@ == f.2,
        },
{
    let f = split_str(line.as_str(), ' ');
    if f.len() != 3 {
        return None;
    }
    assert(views(f@)[0] == f@[0]@ && views(f@)[1] == f@[1]@ && views(f@)[2] == f@[2]@);
    Some((f[0].clone(), f[1].clone(), f[2].clone()))
}

/// The last component of `p` when it names a file or directory (what
/// `Path::file_name` gives).
pub open spec fn file_name(p: Seq<char>) -> Option<Seq<char>> {
    let fc = crate::paths::full_components(p);
    if fc.len() == 0 || fc.last() == crate::paths::root_marker() || fc.last()
        == crate::paths::dotdot() || fc.last() == crate::paths::dot() {
        None
    } else {
        Some(fc.last())
    }
}

/// The last component of `p`, when it names something.
pub fn path_file_name(p: &str) -> (r: Option<String>)
    ensures
        match file_name(p@) {
            None => r is None,
            Some(n) => r matches Some(s) && s@ == n,
        },
{
    proof {
        reveal_strlit("/");
        reveal_strlit("..");
        reveal_strlit(".");
        assert("/"@ =~= crate::paths::root_marker());
        assert(".."@ =~= crate::paths::dotdot());
        assert("."@ =~= crate::paths::dot());
    }
    let fc = full_path_components(p);
    if fc.len() == 0 {
        return None;
    }
    let last = &fc[fc.len() - 1];
    assert(views(fc@).last() == last@);
    if str_eq(last.as_str(), "/") || str_eq(last.as_str(), "..") || str_eq(last.as_str(), ".") {
        None
    } else {
        Some(last.clone())
    }
}

/// The line that records `path` in its parent: `blob`/`tree`, the SHA-1 of the
/// path, and the file name.
pub open spec fn object_line(kind: Seq<char>, hash: Seq<char>, name: Seq<char>) -> Seq<char> {
    kind + seq![' '] + hash + seq![' '] + name
}

/// `"blob"` or `"tree"`.
pub open spec fn kind_name(is_blob: bool) -> Seq<char> {
    if is_blob {
        "blob"@
    } else {
        "tree"@
    }
}

/// Writes an object line.
pub fn make_object_line(kind: &str, hash: &str, name: &str) -> (r: String)
    ensures
        r@ == object_line(kind@, hash@, name@),
{
    proof {
        reveal_strlit(" ");
    }
    let mut line = String::from_str(kind);
    line.append(" ");
    line.append(hash);
    line.append(" ");
    line.append(name);
    assert(" "@ =~= seq![' ']);
    line
}

/// Line, hash and name of `path`: `("tree <sha1(path)> <name>", sha1(path), name)`
/// (`blob` in place of `tree` for a file).
pub fn parse_path(path: &str, is_blob: bool) -> (r: (String, String, String))
    requires
        file_name(path@) is Some,
    ensures
        r.1@ == crate::hash::sha1_hex(path@),
        r.2@ == file_name(path@)->Some_0,
        r.0@ == object_line(kind_name(is_blob), r.1@, r.2@),
        crate::hash::is_lower_hex(r.1@),
{
    proof {
        reveal_strlit("blob");
        reveal_strlit("tree");
    }
    let name = match path_file_name(path) {
        Some(n) => n,
        None => {
            return (String::new(), String::new(), String::new());
        },
    };
    let hash = sha1_str(path);
    let kind = if is_blob {
        "blob"
    } else {
        "tree"
    };
    let line = make_object_line(kind, hash.as_str(), name.as_str());
    (line, hash, name)
}

/// The line that records an object (see `parse_path`) reads back
/// (`parse_line`) as its type, its hash and its name, for a hash written in
/// hexadecimal and a name without spaces.
pub proof fn lemma_object_line_read_back(is_blob: bool, hash: Seq<char>, name: Seq<char>)
    requires
        crate::hash::is_lower_hex(hash),
        forall|i: int| 0 <= i < name.len() ==> name[i] != ' ',
    ensures
        line_fields(object_line(kind_name(is_blob), hash, name)) == Some((kind_name(is_blob), hash, name)),
{
    reveal_strlit("blob");
    reveal_strlit("tree");
    let kind = kind_name(is_blob);
    assert forall|i: int| 0 <= i < kind.len() implies kind[i] != ' ' by {
        if is_blob {
            assert(kind =~= seq!['b', 'l', 'o', 'b']);
        } else {
            assert(kind =~= seq!['t', 'r', 'e', 'e']);
        }
    }
    assert forall|i: int| 0 <= i < hash.len() implies hash[i] != ' ' by {
        assert('0' <= hash[i] <= '9' || 'a' <= hash[i] <= 'f');
    }
    crate::paths::lemma_split_on_single(kind, ' ');
    crate::paths::lemma_split_on_single(hash, ' ');
    crate::paths::lemma_split_on_single(name, ' ');
    let kh = kind + seq![' '] + hash;
    crate::paths::lemma_split_on_concat(kind, hash, ' ');
    crate::paths::lemma_split_on_concat(kh, name, ' ');
    assert(object_line(kind, hash, name) =~= kh + seq![' '] + name);
    assert(crate::paths::split_on(kh + seq![' '] + name, ' ') =~= seq![kind, hash, name]);
}

/// The parent directory of `p` (what `Path::parent` gives for a path with
/// several components).
pub open spec fn parent_of(p: Seq<char>) -> Seq<char> {
    crate::paths::render_full(crate::paths::full_components(p).drop_last())
}

/// The parent of `p`.
pub fn parent_path(p: &str) -> (r: String)
    requires
        crate::paths::full_components(p@).len() > 0,
    ensures
        r@ == parent_of(p@),
{
    let fc = full_path_components(p);
    let mut d: Vec<String> = Vec::new();
    let mut k: usize = 0;
    while k < fc.len() - 1
        invariant
            fc@.len() > 0,
            k + 1 <= fc@.len(),
            views(d@) == views(fc@).subrange(0, k as int),
        decreases fc@.len() - k,
    {
        let ghost before = d@;
        d.push(fc[k].clone());
        assert(views(d@) =~= views(fc@).subrange(0, k + 1)) by {
            assert(views(d@) =~= views(before).push(fc@[k as int]@));
        }
        k = k + 1;
    }
    assert(views(fc@).drop_last() =~= views(fc@).subrange(0, k as int));
    render_full_path(&d)
}

/// The directories whose date follows a change of `p`: each parent in turn, as
/// `PathBuf::pop` gives them, up to the empty path (or the root).
pub open spec fn ancestors(p: Seq<char>) -> Seq<Seq<char>> {
    let fc = crate::paths::full_components(p);
    let low: int = if crate::paths::has_root(p) {
        1
    } else {
        0
    };
    let n: int = fc.len() - 1 - low + 1;
    if fc.len() == 0 || n <= 0 {
        Seq::empty()
    } else {
        Seq::new(n as nat, |i: int| crate::paths::render_full(fc.subrange(0, fc.len() - 1 - i)))
    }
}

/// The directories whose date is updated after a change of `path`, nearest first.
pub fn update_dates(path: &str) -> (r: Vec<String>)
    ensures
        views(r@) == ancestors(path@),
{
    let fc = full_path_components(path);
    let cs = chars_of(path);
    let low: usize = if cs.len() > 0 && cs[0] == '/' {
        1
    } else {
        0
    };
    let mut out: Vec<String> = Vec::new();
    if fc.len() == 0 || fc.len() - 1 < low {
        assert(views(out@) =~= ancestors(path@));
        return out;
    }
    let n = fc.len() - 1 - low + 1;
    let mut i: usize = 0;
    while i < n
        invariant
            views(fc@) == crate::paths::full_components(path@),
            fc@.len() > 0,
            n == fc@.len() - 1 - low + 1,
            low <= 1,
            i <= n,
            views(out@) == Seq::new(
                i as nat,
                |j: int| crate::paths::render_full(views(fc@).subrange(0, fc@.len() - 1 - j)),
            ),
        decreases n - i,
    {
        let upto = fc.len() - 1 - i;
        let mut prefix: Vec<String> = Vec::new();
        let mut k: usize = 0;
        while k < upto
            invariant
                upto <= fc@.len(),
                k <= upto,
                views(prefix@) == views(fc@).subrange(0, k as int),
            decreases upto - k,
        {
            let ghost before = prefix@;
            prefix.push(fc[k].clone());
            assert(views(prefix@) =~= views(fc@).subrange(0, k + 1)) by {
                assert(views(prefix@) =~= views(before).push(fc@[k as int]@));
            }
            k = k + 1;
        }
        let cand = render_full_path(&prefix);
        let ghost before = out@;
        out.push(cand);
        assert(views(out@) =~= Seq::new(
            (i + 1) as nat,
            |j: int| crate::paths::render_full(views(fc@).subrange(0, fc@.len() - 1 - j)),
        )) by {
            assert(views(out@) =~= views(before).push(cand@));
        }
        i = i + 1;
    }
    assert(views(out@) =~= ancestors(path@));
    out
}

/// What adding a directory or file writes: the line recorded in the parent
/// (`parent` is `None` for `HEAD`, else the parent's path), the digest naming
/// the new object, its first line, and the directories whose date to update.
pub struct ObjectAdd {
    pub parent: Option<String>,
    pub line: String,
    pub object: String,
    pub content: String,
    pub dates: Vec<String>,
}

/// Where the reference line of `p` goes: `HEAD` for a top-level path, else its parent.
pub open spec fn parent_ref(p: Seq<char>) -> Option<Seq<char>> {
    if crate::paths::full_components(p).len() == 1 {
        None
    } else {
        Some(parent_of(p))
    }
}

pub(crate) fn parent_ref_exec(p: &str) -> (r: Option<String>)
    requires
        crate::paths::full_components(p@).len() > 0,
    ensures
        match parent_ref(p@) {
            None => r is None,
            Some(q) => r matches Some(s) && s@ == q,
        },
{
    let fc = full_path_components(p);
    if fc.len() == 1 {
        None
    } else {
        Some(parent_path(p))
    }
}

/// Records the directory `path`, last changed on the server at `date`: its line
/// goes to its parent, its object holds `<name> <date>`, and the dates of its
/// parents follow when `up_parent` holds.
pub fn add(path: &str, date: &str, up_parent: bool) -> (r: ObjectAdd)
    requires
        file_name(path@) is Some,
    ensures
        r.object@ == crate::hash::sha1_hex(path@),
        r.line@ == object_line("tree"@, r.object@, file_name(path@)->Some_0),
        r.content@ == file_name(path@)->Some_0 + seq![' '] + date@,
        match parent_ref(path@) {
            None => r.parent is None,
            Some(q) => r.parent matches Some(s) && s@ == q,
        },
        views(r.dates@) == (if up_parent {
            ancestors(path@)
        } else {
            Seq::empty()
        }),
{
    proof {
        reveal_strlit("tree");
        reveal_strlit(" ");
        assert(" "@ =~= seq![' ']);
    }
    let (line, hash, name) = parse_path(path, false);
    let mut content = name;
    content.append(" ");
    content.append(date);
    let dates = if up_parent {
        update_dates(path)
    } else {
        let v: Vec<String> = Vec::new();
        assert(views(v@) =~= Seq::<Seq<char>>::empty());
        v
    };
    ObjectAdd { parent: parent_ref_exec(path), line, object: hash, content, dates }
}

/// Records the directory `path` with no date: its line goes to its parent and
/// its object holds its name.
pub fn add_tree(path: &str) -> (r: ObjectAdd)
    requires
        file_name(path@) is Some,
    ensures
        r.object@ == crate::hash::sha1_hex(path@),
        r.line@ == object_line("tree"@, r.object@, file_name(path@)->Some_0),
        r.content@ == file_name(path@)->Some_0,
        match parent_ref(path@) {
            None => r.parent is None,
            Some(q) => r.parent matches Some(s) && s@ == q,
        },
        r.dates@.len() == 0,
{
    let (line, hash, name) = parse_path(path, false);
    ObjectAdd { parent: parent_ref_exec(path), line, object: hash, content: name, dates: Vec::new() }
}

/// The hashes named in the lines of a tree, blobs and trees apart, in order.
pub open spec fn split_kinds(lines: Seq<Seq<char>>) -> Option<(Seq<Seq<char>>, Seq<Seq<char>>)>
    decreases lines.len(),
{
    if lines.len() == 0 {
        Some((Seq::empty(), Seq::empty()))
    } else {
        match split_kinds(lines.drop_last()) {
            None => None,
            Some(acc) => match line_fields(lines.last()) {
                None => None,
                Some(f) => if f.0 == "blob"@ {
                    Some((acc.0.push(f.1), acc.1))
                } else {
                    Some((acc.0, acc.1.push(f.1)))
                },
            },
        }
    }
}

/// What removing a tree removes, read from the lines of its object after the
/// first: the objects of its blobs, and the trees to remove in turn. `None`
/// when a line is not a valid object line.
pub fn rm(lines: &Vec<String>) -> (r: Option<(Vec<String>, Vec<String>)>)
    ensures
        match split_kinds(views(lines@)) {
            None => r is None,
            Some(p) => r matches Some(q) && views(q.0@) == p.0 && views(q.1@) == p.1,
        },
{
    proof {
        reveal_strlit("blob");
    }
    let mut blobs: Vec<String> = Vec::new();
    let mut trees: Vec<String> = Vec::new();
    let mut k: usize = 0;
    while k < lines.len()
        invariant
            k <= lines@.len(),
            split_kinds(views(lines@).subrange(0, k as int)) == Some(
                (views(blobs@), views(trees@)),
            ),
        decreases lines@.len() - k,
    {
        let ghost ls = views(lines@);
        assert(ls.subrange(0, k + 1).drop_last() =~= ls.subrange(0, k as int));
        assert(ls.subrange(0, k + 1).last() == lines@[k as int]@);
        match parse_line(lines[k].clone()) {
            None => {
                proof {
                    lemma_split_kinds_none(ls, k + 1);
                }
                return None;
            },
            Some((ftype, hash, _name)) => {
                if str_eq(ftype.as_str(), "blob") {
                    let ghost before = blobs@;
                    blobs.push(hash);
                    assert(views(blobs@) =~= views(before).push(hash@));
                } else {
                    let ghost before = trees@;
                    trees.push(hash);
                    assert(views(trees@) =~= views(before).push(hash@));
                }
            },
        }
        k = k + 1;
    }
    assert(views(lines@).subrange(0, lines@.len() as int) =~= views(lines@));
    Some((blobs, trees))
}

proof fn lemma_split_kinds_none(lines: Seq<Seq<char>>, k: int)
    requires
        0 <= k <= lines.len(),
        split_kinds(lines.subrange(0, k)) is None,
    ensures
        split_kinds(lines) is None,
    decreases lines.len() - k,
{
    if k < lines.len() {
        assert(lines.subrange(0, k + 1).drop_last() =~= lines.subrange(0, k));
        lemma_split_kinds_none(lines, k + 1);
    } else {
        assert(lines.subrange(0, k) =~= lines);
    }
}

/// The content of an object after its date is rewritten: the bytes up to and
/// including the first space stay, the date's bytes overwrite those after it
/// (lengthening the content when needed), and the rest stays.
pub open spec fn redated(content: Seq<u8>, date: Seq<u8>) -> Seq<u8> {
    let p = match first_space(content, 0) {
        Some(i) => i + 1,
        None => content.len() as int,
    };
    if p + date.len() < content.len() {
        content.subrange(0, p) + date + content.subrange(p + date.len(), content.len() as int)
    } else {
        content.subrange(0, p) + date
    }
}

/// The index of the first space at or after `from`.
pub open spec fn first_space(s: Seq<u8>, from: int) -> Option<int>
    decreases s.len() - from,
{
    if from < 0 || from >= s.len() {
        None
    } else if s[from] == 32u8 {
        Some(from)
    } else {
        first_space(s, from + 1)
    }
}

/// Rewrites the date of an object (see `redated`).
pub fn update_date(content: &Vec<u8>, date: &str) -> (r: Vec<u8>)
    ensures
        r@ == redated(content@, date.spec_bytes()),
{
    let db = date.as_bytes();
    let n = content.len();
    let mut i: usize = 0;
    while i < n && content[i] != 32u8
        invariant
            n == content@.len(),
            i <= n,
            first_space(content@, 0) == first_space(content@, i as int),
        decreases n - i,
    {
        i = i + 1;
    }
    let p = if i < n {
        i + 1
    } else {
        n
    };
    let mut out: Vec<u8> = Vec::new();
    let mut k: usize = 0;
    while k < p
        invariant
            p <= n,
            n == content@.len(),
            k <= p,
            out@ == content@.subrange(0, k as int),
        decreases p - k,
    {
        out.push(content[k]);
        assert(out@ =~= content@.subrange(0, k + 1));
        k = k + 1;
    }
    let mut j: usize = 0;
    while j < db.len()
        invariant
            out@ == content@.subrange(0, p as int) + db@.subrange(0, j as int),
            j <= db@.len(),
        decreases db@.len() - j,
    {
        out.push(db[j]);
        assert(out@ =~= content@.subrange(0, p as int) + db@.subrange(0, j + 1));
        j = j + 1;
    }
    assert(db@.subrange(0, db@.len() as int) =~= db@);
    if db.len() < n - p {
        let mut m = p + db.len();
        let ghost head = out@;
        while m < n
            invariant
                p + db@.len() <= m <= n,
                n == content@.len(),
                out@ == head + content@.subrange(p + db@.len(), m as int),
            decreases n - m,
        {
            out.push(content[m]);
            assert(out@ =~= head + content@.subrange(p + db@.len(), m + 1));
            m = m + 1;
        }
    }
    out
}


/// The date written in the first line of an object. A blob's line ends with a
/// space after its five fields (name, server date, size, local date, digest):
/// its date is the server's, the fifth field counted back from the end. A
/// tree's line ends with its date: the text after its last space. A line
/// without space has no date.
pub open spec fn stamp_text(line: Seq<char>) -> Option<Seq<char>> {
    let f = crate::paths::split_on(line, ' ');
    if f.len() >= 6 && f.last().len() == 0 {
        Some(f[f.len() - 5])
    } else if f.len() >= 2 {
        Some(f.last())
    } else {
        None
    }
}

/// Whether the date of an object, when its first line has one, is a number.
pub open spec fn stamp_readable(first_line: Option<Seq<char>>) -> bool {
    match first_line {
        None => true,
        Some(l) => match stamp_text(l) {
            None => true,
            Some(t) => crate::text::parse_i64_spec(t) is Some,
        },
    }
}

fn stamp_text_exec(line: &String) -> (r: Option<String>)
    ensures
        match stamp_text(line@) {
            None => r is None,
            Some(t) => r matches Some(s) && s@ == t,
        },
{
    let f = crate::paths::split_str(line.as_str(), ' ');
    let n = f.len();
    if n >= 6 && f[n - 1].as_str().unicode_len() == 0 {
        assert(crate::paths::views(f@).last() == f@.last()@);
        assert(crate::paths::views(f@)[n - 5] == f@[n - 5]@);
        Some(f[n - 5].clone())
    } else if n >= 2 {
        assert(crate::paths::views(f@).last() == f@.last()@);
        Some(f[n - 1].clone())
    } else {
        None
    }
}

/// Whether the date of an object can be read (see `stamp_readable`).
pub fn timestamp_readable(first_line: &Option<String>) -> (r: bool)
    ensures
        r == stamp_readable(crate::props::opt_view(*first_line)),
{
    match first_line {
        None => true,
        Some(l) => match stamp_text_exec(l) {
            None => true,
            Some(t) => crate::text::parse_i64(t.as_str()).is_some(),
        },
    }
}

/// The date of an object, from its first line (`None` when the object could
/// not be read or its line has no date).
pub fn get_timestamp(first_line: Option<String>) -> (r: Option<i64>)
    requires
        stamp_readable(crate::props::opt_view(first_line)),
    ensures
        match first_line {
            None => r is None,
            Some(l) => match stamp_text(l@) {
                None => r is None,
                Some(t) => r == crate::text::parse_i64_spec(t),
            },
        },
{
    match first_line {
        None => None,
        Some(l) => match stamp_text_exec(&l) {
            None => None,
            Some(t) => crate::text::parse_i64(t.as_str()),
        },
    }
}

proof fn lemma_split_last(a: Seq<char>, b: Seq<char>, sep: char)
    requires
        forall|i: int| 0 <= i < b.len() ==> b[i] != sep,
    ensures
        crate::paths::split_on(a + seq![sep] + b, sep).len() >= 2,
        crate::paths::split_on(a + seq![sep] + b, sep).last() == b,
    decreases b.len(),
{
    let ab = a + seq![sep] + b;
    if b.len() == 0 {
        assert(ab.drop_last() =~= a);
        crate::paths::lemma_split_on_nonempty(a, sep);
        assert(b =~= Seq::<char>::empty());
    } else {
        let b1 = b.drop_last();
        lemma_split_last(a, b1, sep);
        assert(ab.drop_last() =~= a + seq![sep] + b1);
        assert(ab.last() == b.last());
        assert(b1.push(b.last()) =~= b);
    }
}

/// The date that `add` writes after the name of a tree is the one that
/// `get_timestamp` reads back from it.
pub proof fn lemma_date_round_trip(name: Seq<char>, n: i64)
    ensures
        stamp_text(name + seq![' '] + crate::text::signed_decimal(n as int)) == Some(
            crate::text::signed_decimal(n as int),
        ),
        stamp_readable(Some(name + seq![' '] + crate::text::signed_decimal(n as int))),
        crate::text::parse_i64_spec(crate::text::signed_decimal(n as int)) == Some(n),
{
    let d = crate::text::signed_decimal(n as int);
    crate::text::lemma_signed_decimal_round_trip(n);
    if n < 0 {
        crate::text::lemma_decimal_digits((-n) as nat);
        assert forall|i: int| 0 <= i < d.len() implies d[i] != ' ' by {
            if i > 0 {
                assert(d[i] == crate::text::decimal((-n) as nat)[i - 1]);
                assert(crate::text::is_digit(crate::text::decimal((-n) as nat)[i - 1]));
            }
        }
    } else {
        crate::text::lemma_decimal_digits(n as nat);
        assert forall|i: int| 0 <= i < d.len() implies d[i] != ' ' by {
            assert(crate::text::is_digit(d[i]));
        }
    }
    lemma_split_last(name, d, ' ');
    assert(d.len() > 0);
}

/// Removes the line `node` from the object of the folder `path`: the object's
/// file (under `objects`) and its lines once `node` is removed (see
/// `text::remove_line`); `lines` are its lines before.
pub fn rm_node(objects: &str, path: &str, lines: &Vec<String>, node: &str) -> (r: (String, Vec<String>))
    ensures
        r.0@ == crate::hash::object_file(objects@, crate::hash::sha1_hex(path@)),
        views(r.1@) == crate::text::without_line(views(lines@), node@),
{
    (crate::hash::_object_path(objects, path), crate::text::remove_line(lines, node))
}
} // verus!
