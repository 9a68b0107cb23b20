//! Rules of the ignore file: each rule is turned into a regular expression,
//! and the rules, read in order, decide whether a path is ignored.

use vstd::prelude::*;
use vstd::string::*;
use crate::text::{chars_of, substring};

verus! {

/// `s` with every `c` replaced by `rep`.
pub open spec fn replace_char(s: Seq<char>, c: char, rep: Seq<char>) -> Seq<char>
    decreases s.len(),
{
    if s.len() == 0 {
        Seq::empty()
    } else if s.last() == c {
        replace_char(s.drop_last(), c, rep) + rep
    } else {
        replace_char(s.drop_last(), c, rep).push(s.last())
    }
}

/// Replaces every `c` of `s` by `rep`.
pub fn replace_all_char(s: &str, c: char, rep: &str) -> (r: String)
    ensures
        r@ == replace_char(s@, c, rep@),
{
    let cs = chars_of(s);
    let n = cs.len();
    let mut out = String::new();
    let mut start: usize = 0;
    let mut i: usize = 0;
    assert(s@.subrange(0, 0) =~= Seq::<char>::empty());
    while i < n
        invariant
            cs@ == s@,
            n == s@.len(),
            start <= i <= n,
            out@ + s@.subrange(start as int, i as int) == replace_char(
                s@.subrange(0, i as int),
                c,
                rep@,
            ),
        decreases n - i,
    {
        assert(s@.subrange(0, i + 1).drop_last() =~= s@.subrange(0, i as int));
        assert(s@.subrange(0, i + 1).last() == cs@[i as int]);
        if cs[i] == c {
            let piece = substring(s, start, i);
            out.append(piece.as_str());
            out.append(rep);
            start = i + 1;
            assert(s@.subrange(start as int, i + 1) =~= Seq::<char>::empty());
            assert(out@ + s@.subrange(start as int, i + 1) =~= replace_char(
                s@.subrange(0, i + 1),
                c,
                rep@,
            ));
        } else {
            assert(s@.subrange(start as int, i + 1) =~= s@.subrange(start as int, i as int).push(
                cs@[i as int],
            ));
            assert(out@ + s@.subrange(start as int, i + 1) =~= replace_char(
                s@.subrange(0, i + 1),
                c,
                rep@,
            ));
        }
        i = i + 1;
    }
    let piece = substring(s, start, n);
    out.append(piece.as_str());
    assert(s@.subrange(0, n as int) =~= s@);
    out
}

/// A rule anchored at the root: a leading `/` (or `!/`) becomes `^` (or `!^`).
pub open spec fn anchor_root(l: Seq<char>) -> Seq<char> {
    if crate::text::starts_with(l, seq!['!', '/']) {
        seq!['!', '^'] + l.subrange(2, l.len() as int)
    } else if crate::text::starts_with(l, seq!['/']) {
        seq!['^'] + l.subrange(1, l.len() as int)
    } else {
        l
    }
}

/// A rule ending with `/` also matches everything below that directory.
pub open spec fn open_directory(l: Seq<char>) -> Seq<char> {
    if crate::text::ends_with(l, seq!['/']) {
        l.drop_last() + seq!['(', '/', '.', '*', ')', '?']
    } else {
        l
    }
}

/// The regular expression a rule of the ignore file stands for: the root
/// anchored, dots escaped, `*` made to match anything, and a trailing `/`
/// widened to the directory's contents.
pub open spec fn rule_regex(l: Seq<char>) -> Seq<char> {
    open_directory(
        replace_char(replace_char(anchor_root(l), '.', seq!['\\', '.']), '*', seq!['.', '*']),
    )
}

/// Turns a rule of the ignore file into the regular expression it stands for.
pub fn normalize_rule(l: String) -> (r: String)
    ensures
        r@ == rule_regex(l@),
{
    proof {
        reveal_strlit("!^");
        reveal_strlit("^");
        reveal_strlit("\\.");
        reveal_strlit(".*");
        reveal_strlit("(/.*)?");
    }
    let cs = chars_of(l.as_str());
    let n = cs.len();
    // anchor the root
    let anchored: String = if n >= 2 && cs[0] == '!' && cs[1] == '/' {
        assert(l@.subrange(0, 2) =~= seq!['!', '/']);
        let mut a = String::from_str("!^");
        let rest = substring(l.as_str(), 2, n);
        a.append(rest.as_str());
        assert(a@ =~= seq!['!', '^'] + l@.subrange(2, l@.len() as int));
        a
    } else if n >= 1 && cs[0] == '/' {
        assert(l@.subrange(0, 1) =~= seq!['/']);
        proof {
            if n >= 2 {
                assert(l@.subrange(0, 2)[0] != '!');
            }
        }
        let mut a = String::from_str("^");
        let rest = substring(l.as_str(), 1, n);
        a.append(rest.as_str());
        assert(a@ =~= seq!['^'] + l@.subrange(1, l@.len() as int));
        a
    } else {
        proof {
            if n >= 2 {
                assert(l@.subrange(0, 2)[1] != '/' || l@.subrange(0, 2)[0] != '!');
            }
            if n >= 1 {
                assert(l@.subrange(0, 1)[0] != '/');
            }
        }
        l.clone()
    };
    assert(anchored@ == anchor_root(l@));
    let escaped = replace_all_char(anchored.as_str(), '.', "\\.");
    assert("\\."@ =~= seq!['\\', '.']);
    let starred = replace_all_char(escaped.as_str(), '*', ".*");
    assert(".*"@ =~= seq!['.', '*']);
    let sc = chars_of(starred.as_str());
    let m = sc.len();
    if m >= 1 && sc[m - 1] == '/' {
        assert(starred@.subrange(m - 1, m as int) =~= seq!['/']);
        let mut out = substring(starred.as_str(), 0, m - 1);
        out.append("(/.*)?");
        assert(starred@.subrange(0, m - 1) =~= starred@.drop_last());
        assert("(/.*)?"@ =~= seq!['(', '/', '.', '*', ')', '?']);
        out
    } else {
        proof {
            if m >= 1 {
                assert(starred@.subrange(m - 1, m as int)[0] != '/');
            }
        }
        starred
    }
}

/// Whether `pattern` is accepted as a regular expression by the `regex` crate.
pub uninterp spec fn regex_valid(pattern: Seq<char>) -> bool;

/// Whether the regular expression `pattern` matches somewhere in `text`.
pub uninterp spec fn regex_matches(pattern: Seq<char>, text: Seq<char>) -> bool;

/// Compiles `pattern` with `regex::Regex::new` and, when that succeeds, tells
/// whether `Regex::is_match` finds it in `text`. The contract claims only that
/// the result is `None` exactly when the pattern does not compile, and that it
/// is otherwise the (named) answer of `is_match` on these two arguments.
#[verifier::external_body]
fn regex_is_match(pattern: &str, text: &str) -> (r: Option<bool>)
    ensures
        r is Some <==> regex_valid(pattern@),
        r matches Some(b) ==> b == regex_matches(pattern@, text@),
{
    regex::Regex::new(pattern).ok().map(|re| re.is_match(text))
}

/// Whether a rule negates (starts with `!`).
pub open spec fn is_negation(l: Seq<char>) -> bool {
    l.len() > 0 && l[0] == '!'
}

/// One rule read with `ignored` the verdict so far. A negation is read only
/// while the path is ignored and un-ignores it when its pattern (after the
/// `!`) matches; any other rule is read only while the path is not ignored and
/// ignores it when it matches. `None` when a rule that is read is not a valid
/// regular expression.
pub open spec fn ignore_step(path: Seq<char>, ignored: bool, l: Seq<char>) -> Option<bool> {
    if is_negation(l) {
        if !ignored {
            Some(false)
        } else {
            let p = l.drop_first();
            if !regex_valid(p) {
                None
            } else {
                Some(!regex_matches(p, path))
            }
        }
    } else if !ignored {
        if !regex_valid(l) {
            None
        } else {
            Some(regex_matches(l, path))
        }
    } else {
        Some(true)
    }
}

/// The verdict after reading the rules `lines` in order, starting from "not ignored".
pub open spec fn ignore_verdict(path: Seq<char>, lines: Seq<Seq<char>>) -> Option<bool>
    decreases lines.len(),
{
    if lines.len() == 0 {
        Some(false)
    } else {
        match ignore_verdict(path, lines.drop_last()) {
            None => None,
            Some(ign) => ignore_step(path, ign, lines.last()),
        }
    }
}

/// Once a prefix of the rules has no verdict, neither has any longer list.
proof fn lemma_verdict_none_sticks(path: Seq<char>, lines: Seq<Seq<char>>, k: int)
    requires
        0 <= k <= lines.len(),
        ignore_verdict(path, lines.subrange(0, k)) is None,
    ensures
        ignore_verdict(path, lines) is None,
    decreases lines.len() - k,
{
    if k < lines.len() {
        assert(lines.subrange(0, k + 1).drop_last() =~= lines.subrange(0, k));
        lemma_verdict_none_sticks(path, lines, k + 1);
    } else {
        assert(lines.subrange(0, k) =~= lines);
    }
}

/// Reads the rules in order and tells whether `path` is ignored; `None` when a
/// rule that had to be read is not a valid regular expression.
pub fn try_ignore_file(path: &String, lines: &Vec<String>) -> (r: Option<bool>)
    ensures
        r == ignore_verdict(path@, crate::paths::views(lines@)),
{
    let mut ignored = false;
    let mut k: usize = 0;
    while k < lines.len()
        invariant
            k <= lines@.len(),
            ignore_verdict(path@, crate::paths::views(lines@).subrange(0, k as int)) == Some(
                ignored,
            ),
        decreases lines@.len() - k,
    {
        let line = &lines[k];
        let ghost ls = crate::paths::views(lines@);
        assert(ls.subrange(0, k + 1).drop_last() =~= ls.subrange(0, k as int));
        assert(ls.subrange(0, k + 1).last() == line@);
        let lc = chars_of(line.as_str());
        if lc.len() > 0 && lc[0] == '!' {
            if ignored {
                let stripped = substring(line.as_str(), 1, lc.len());
                assert(stripped@ =~= line@.drop_first());
                match regex_is_match(stripped.as_str(), path.as_str()) {
                    None => {
                        proof {
                            lemma_verdict_none_sticks(path@, ls, k + 1);
                        }
                        return None;
                    },
                    Some(m) => {
                        if m {
                            ignored = false;
                        }
                    },
                }
            }
        } else if !ignored {
            match regex_is_match(line.as_str(), path.as_str()) {
                None => {
                    proof {
                        lemma_verdict_none_sticks(path@, ls, k + 1);
                    }
                    return None;
                },
                Some(m) => {
                    if m {
                        ignored = true;
                    }
                },
            }
        }
        k = k + 1;
    }
    assert(crate::paths::views(lines@).subrange(0, lines@.len() as int) =~= crate::paths::views(
        lines@,
    ));
    Some(ignored)
}

/// Whether `path` is ignored by the rules `lines` (already turned into regular
/// expressions); an ignored path is appended to `ignored_f`.
pub fn ignore_file(path: &String, lines: Vec<String>, ignored_f: &mut Vec<String>) -> (r: bool)
    requires
        ignore_verdict(path@, crate::paths::views(lines@)) is Some,
    ensures
        Some(r) == ignore_verdict(path@, crate::paths::views(lines@)),
        final(ignored_f)@ == (if r {
            old(ignored_f)@.push(*path)
        } else {
            old(ignored_f)@
        }),
{
    let v = try_ignore_file(path, &lines);
    let ignored = match v {
        Some(b) => b,
        None => false,
    };
    if ignored {
        ignored_f.push(path.clone());
    }
    ignored
}


/// Whether every path of `files` has a verdict under `rules`.
pub open spec fn all_have_verdict(files: Seq<String>, rules: Seq<Seq<char>>) -> bool {
    forall|i: int| 0 <= i < files.len() ==> (#[trigger] ignore_verdict(files[i]@, rules)) is Some
}

/// The paths of `files` that `rules` do not ignore, in order.
pub open spec fn kept_files(files: Seq<String>, rules: Seq<Seq<char>>) -> Seq<String>
    decreases files.len(),
{
    if files.len() == 0 {
        Seq::empty()
    } else if ignore_verdict(files.last()@, rules) == Some(true) {
        kept_files(files.drop_last(), rules)
    } else {
        kept_files(files.drop_last(), rules).push(files.last())
    }
}

/// The paths of `files` that `rules` ignore, in order.
pub open spec fn ignored_files(files: Seq<String>, rules: Seq<Seq<char>>) -> Seq<String>
    decreases files.len(),
{
    if files.len() == 0 {
        Seq::empty()
    } else if ignore_verdict(files.last()@, rules) == Some(true) {
        ignored_files(files.drop_last(), rules).push(files.last())
    } else {
        ignored_files(files.drop_last(), rules)
    }
}

/// Removes from `files` the paths that the rules ignore (when there are rules)
/// and returns whether any was removed, with the removed paths in order.
pub fn _ignore_files(files: &mut Vec<String>, rules: Option<Vec<String>>) -> (r: (
    bool,
    Vec<String>,
))
    requires
        rules matches Some(rs) ==> all_have_verdict(old(files)@, crate::paths::views(rs@)),
    ensures
        match rules {
            Some(rs) => {
                &&& final(files)@ == kept_files(old(files)@, crate::paths::views(rs@))
                &&& r.1@ == ignored_files(old(files)@, crate::paths::views(rs@))
            },
            None => final(files)@ == old(files)@ && r.1@.len() == 0,
        },
        r.0 == (r.1@.len() > 0),
{
    let mut ignored_f: Vec<String> = Vec::new();
    match rules {
        None => {
            return (false, ignored_f);
        },
        Some(lines) => {
            let ghost rs = crate::paths::views(lines@);
            let mut kept: Vec<String> = Vec::new();
            let mut k: usize = 0;
            while k < files.len()
                invariant
                    rs == crate::paths::views(lines@),
                    all_have_verdict(files@, rs),
                    k <= files@.len(),
                    kept@ == kept_files(files@.subrange(0, k as int), rs),
                    ignored_f@ == ignored_files(files@.subrange(0, k as int), rs),
                decreases files@.len() - k,
            {
                let f = &files[k];
                let ghost pre = files@.subrange(0, k as int);
                assert(files@.subrange(0, k + 1).drop_last() =~= pre);
                assert(files@.subrange(0, k + 1).last() == *f);
                assert(ignore_verdict(files@[k as int]@, rs) is Some);
                let ign = ignore_file(f, lines.clone(), &mut ignored_f);
                if !ign {
                    kept.push(f.clone());
                }
                k = k + 1;
            }
            assert(files@.subrange(0, files@.len() as int) =~= files@);
            *files = kept;
            let any = ignored_f.len() > 0;
            (any, ignored_f)
        },
    }
}

/// `_ignore_files` for any rules: `None`, with `files` untouched, when a rule
/// that has to be read for some path is not a valid regular expression.
pub fn try_ignore_files(files: &mut Vec<String>, rules: Option<Vec<String>>) -> (r: Option<
    (bool, Vec<String>),
>)
    ensures
        match rules {
            Some(rs) => if all_have_verdict(old(files)@, crate::paths::views(rs@)) {
                &&& r matches Some(p)
                &&& final(files)@ == kept_files(old(files)@, crate::paths::views(rs@))
                &&& p.1@ == ignored_files(old(files)@, crate::paths::views(rs@))
                &&& p.0 == (p.1@.len() > 0)
            } else {
                r is None && final(files)@ == old(files)@
            },
            None => (r matches Some(p) && p.1@.len() == 0 && !p.0) && final(files)@ == old(
                files,
            )@,
        },
{
    if let Some(lines) = &rules {
        let mut k: usize = 0;
        while k < files.len()
            invariant
                k <= files@.len(),
                forall|i: int|
                    0 <= i < k ==> (#[trigger] ignore_verdict(
                        files@[i]@,
                        crate::paths::views(lines@),
                    )) is Some,
                files@ == old(files)@,
                rules == Some(*lines),
            decreases files@.len() - k,
        {
            if try_ignore_file(&files[k], lines).is_none() {
                assert(ignore_verdict(files@[k as int]@, crate::paths::views(lines@)) is None);
                assert(!all_have_verdict(files@, crate::paths::views(lines@)));
                assert(files@ == old(files)@);
                assert(rules->0 == *lines);
                return None;
            }
            k = k + 1;
        }
    }
    Some(_ignore_files(files, rules))
}

/// Every path ends up exactly once, either kept or ignored.
pub proof fn lemma_ignore_files_partition(files: Seq<String>, rules: Seq<Seq<char>>)
    ensures
        kept_files(files, rules).len() + ignored_files(files, rules).len() == files.len(),
        forall|f: String|
            files.contains(f) ==> kept_files(files, rules).contains(f) || ignored_files(
                files,
                rules,
            ).contains(f),
    decreases files.len(),
{
    if files.len() > 0 {
        let d = files.drop_last();
        lemma_ignore_files_partition(d, rules);
        assert forall|f: String| files.contains(f) implies kept_files(files, rules).contains(f)
            || ignored_files(files, rules).contains(f) by {
            let i = choose|i: int| 0 <= i < files.len() && files[i] == f;
            if i < files.len() - 1 {
                assert(d[i] == f);
                assert(d.contains(f));
                if kept_files(d, rules).contains(f) {
                    let j = choose|j: int|
                        0 <= j < kept_files(d, rules).len() && kept_files(d, rules)[j] == f;
                    if ignore_verdict(files.last()@, rules) != Some(true) {
                        assert(kept_files(files, rules)[j] == f);
                    }
                } else {
                    let j = choose|j: int|
                        0 <= j < ignored_files(d, rules).len() && ignored_files(d, rules)[j] == f;
                    if ignore_verdict(files.last()@, rules) == Some(true) {
                        assert(ignored_files(files, rules)[j] == f);
                    }
                }
            } else {
                if ignore_verdict(files.last()@, rules) == Some(true) {
                    assert(ignored_files(files, rules).last() == f);
                } else {
                    assert(kept_files(files, rules).last() == f);
                }
            }
        }
    }
}

/// A path is only ever ignored by a rule that is not a negation and matches it.
pub proof fn lemma_ignored_needs_matching_rule(path: Seq<char>, lines: Seq<Seq<char>>)
    ensures
        ignore_verdict(path, lines) == Some(true) ==> exists|i: int|
            0 <= i < lines.len() && !is_negation(#[trigger] lines[i]) && regex_matches(
                lines[i],
                path,
            ),
    decreases lines.len(),
{
    if lines.len() > 0 {
        let d = lines.drop_last();
        lemma_ignored_needs_matching_rule(path, d);
        if ignore_verdict(path, lines) == Some(true) {
            if ignore_verdict(path, d) == Some(true) {
                let i = choose|i: int|
                    0 <= i < d.len() && !is_negation(#[trigger] d[i]) && regex_matches(d[i], path);
                assert(lines[i] == d[i]);
            } else {
                let i = lines.len() - 1;
                assert(!is_negation(lines[i]) && regex_matches(lines[i], path));
            }
        }
    }
}

/// Reading one more rule that is a negation matching the path un-ignores it.
pub proof fn lemma_negation_unignores(path: Seq<char>, lines: Seq<Seq<char>>, neg: Seq<char>)
    requires
        is_negation(neg),
        regex_valid(neg.drop_first()),
        regex_matches(neg.drop_first(), path),
        ignore_verdict(path, lines) is Some,
    ensures
        ignore_verdict(path, lines.push(neg)) == Some(false),
{
    assert(lines.push(neg).drop_last() =~= lines);
}

/// Turns each rule of the ignore file into its regular expression.
pub fn normalize_rules(lines: Vec<String>) -> (r: Vec<String>)
    ensures
        r@.len() == lines@.len(),
        forall|i: int| 0 <= i < lines@.len() ==> (#[trigger] r@[i])@ == rule_regex(lines@[i]@),
{
    let mut out: Vec<String> = Vec::new();
    let mut k: usize = 0;
    while k < lines.len()
        invariant
            k <= lines@.len(),
            out@.len() == k,
            forall|i: int| 0 <= i < k ==> (#[trigger] out@[i])@ == rule_regex(lines@[i]@),
        decreases lines@.len() - k,
    {
        out.push(normalize_rule(lines[k].clone()));
        k = k + 1;
    }
    out
}

} // verus!
