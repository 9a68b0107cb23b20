//! The configuration of a repository: one `<variable> <value>` per line.

use vstd::prelude::*;
use vstd::string::*;
use crate::text::{chars_of, substring, occurs_at_exec};

verus! {

/// The line that sets `var` to `val`.
pub open spec fn setting(var: Seq<char>, val: Seq<char>) -> Seq<char> {
    var + seq![' '] + val
}

/// Writes the line that sets `var` to `val`.
pub fn set(var: &str, val: &str) -> (r: String)
    ensures
        r@ == setting(var@, val@),
{
    proof {
        reveal_strlit(" ");
        assert(" "@ =~= seq![' ']);
    }
    let mut line = String::from_str(var);
    line.append(" ");
    line.append(val);
    line
}

/// The index of the first line (at or after `k`) that starts with `var`.
pub open spec fn first_starting(lines: Seq<Seq<char>>, var: Seq<char>, k: int) -> Option<int>
    decreases lines.len() - k,
{
    if k < 0 || k >= lines.len() {
        None
    } else if crate::text::starts_with(lines[k], var) {
        Some(k)
    } else {
        first_starting(lines, var, k + 1)
    }
}

/// The index of the first space of `s` at or after `k`.
pub open spec fn first_space_char(s: Seq<char>, k: int) -> Option<int>
    decreases s.len() - k,
{
    if k < 0 || k >= s.len() {
        None
    } else if s[k] == ' ' {
        Some(k)
    } else {
        first_space_char(s, k + 1)
    }
}

/// The value of `var`: the text after the first space of the first line that
/// starts with `var`.
pub open spec fn config_value(lines: Seq<Seq<char>>, var: Seq<char>) -> Option<Seq<char>> {
    match first_starting(lines, var, 0) {
        None => None,
        Some(i) => match first_space_char(lines[i], 0) {
            Some(j) => Some(lines[i].subrange(j + 1, lines[i].len() as int)),
            None => None,
        },
    }
}

/// Whether the first line that starts with `var` (if any) holds a space.
pub open spec fn well_formed_for(lines: Seq<Seq<char>>, var: Seq<char>) -> bool {
    first_starting(lines, var, 0) matches Some(i) ==> first_space_char(lines[i], 0) is Some
}

/// The value of `var` in the configuration lines (see `config_value`).
pub fn get(lines: &Vec<String>, var: &str) -> (r: Option<String>)
    requires
        well_formed_for(crate::paths::views(lines@), var@),
    ensures
        match config_value(crate::paths::views(lines@), var@) {
            None => r is None,
            Some(v) => r matches Some(s) && s@ == v,
        },
{
    let vc = chars_of(var);
    let ghost ls = crate::paths::views(lines@);
    let mut k: usize = 0;
    while k < lines.len()
        invariant
            ls == crate::paths::views(lines@),
            vc@ == var@,
            k <= lines@.len(),
            first_starting(ls, var@, 0) == first_starting(ls, var@, k as int),
            well_formed_for(ls, var@),
        decreases lines@.len() - k,
    {
        let lc = chars_of(lines[k].as_str());
        assert(ls[k as int] == lines@[k as int]@);
        let starts = occurs_at_exec(&lc, &vc, 0);
        assert(starts == crate::text::starts_with(ls[k as int], var@));
        if starts {
            let mut j: usize = 0;
            while j < lc.len() && lc[j] != ' '
                invariant
                    j <= lc@.len(),
                    first_space_char(lc@, 0) == first_space_char(lc@, j as int),
                decreases lc@.len() - j,
            {
                j = j + 1;
            }
            if j == lc.len() {
                return None;
            }
            return Some(substring(lines[k].as_str(), j + 1, lc.len()));
        }
        k = k + 1;
    }
    None
}

/// Whether the value of `var` can be read (see `well_formed_for`).
pub fn readable(lines: &Vec<String>, var: &str) -> (r: bool)
    ensures
        r == well_formed_for(crate::paths::views(lines@), var@),
{
    let vc = chars_of(var);
    let ghost ls = crate::paths::views(lines@);
    let mut k: usize = 0;
    while k < lines.len()
        invariant
            ls == crate::paths::views(lines@),
            vc@ == var@,
            k <= lines@.len(),
            first_starting(ls, var@, 0) == first_starting(ls, var@, k as int),
        decreases lines@.len() - k,
    {
        let lc = chars_of(lines[k].as_str());
        assert(ls[k as int] == lines@[k as int]@);
        let starts = occurs_at_exec(&lc, &vc, 0);
        assert(starts == crate::text::starts_with(ls[k as int], var@));
        if starts {
            let mut j: usize = 0;
            while j < lc.len() && lc[j] != ' '
                invariant
                    j <= lc@.len(),
                    first_space_char(lc@, 0) == first_space_char(lc@, j as int),
                decreases lc@.len() - j,
            {
                j = j + 1;
            }
            return j < lc.len();
        }
        k = k + 1;
    }
    true
}

/// Reading back a setting appended after lines that do not set the variable
/// gives the value written (for a variable name without spaces).
pub proof fn lemma_set_then_get(lines: Seq<Seq<char>>, var: Seq<char>, val: Seq<char>)
    requires
        forall|i: int| 0 <= i < lines.len() ==> !crate::text::starts_with(#[trigger] lines[i], var),
        forall|i: int| 0 <= i < var.len() ==> var[i] != ' ',
    ensures
        config_value(lines.push(setting(var, val)), var) == Some(val),
        well_formed_for(lines.push(setting(var, val)), var),
{
    let all = lines.push(setting(var, val));
    let l = setting(var, val);
    assert(l.subrange(0, var.len() as int) =~= var);
    assert(all[lines.len() as int] == l);
    assert forall|i: int| 0 <= i < lines.len() implies all[i] == lines[i] by {}
    assert forall|k: int| 0 <= k <= lines.len() implies first_starting(all, var, k) == Some(
        lines.len() as int,
    ) by {
        lemma_first_starting_from(all, var, k, lines.len() as int);
    }
    assert(l.subrange(0, var.len() as int) =~= var);
    assert forall|k: int| 0 <= k <= var.len() implies first_space_char(l, k) == Some(
        var.len() as int,
    ) by {
        lemma_first_space_from(l, k, var.len() as int);
    }
    assert(l.subrange((var.len() + 1) as int, l.len() as int) =~= val);
}

proof fn lemma_first_starting_from(lines: Seq<Seq<char>>, var: Seq<char>, k: int, target: int)
    requires
        0 <= k <= target < lines.len(),
        crate::text::starts_with(lines[target], var),
        forall|i: int| k <= i < target ==> !crate::text::starts_with(#[trigger] lines[i], var),
    ensures
        first_starting(lines, var, k) == Some(target),
    decreases target - k,
{
    if k < target {
        lemma_first_starting_from(lines, var, k + 1, target);
    }
}

proof fn lemma_first_space_from(s: Seq<char>, k: int, target: int)
    requires
        0 <= k <= target < s.len(),
        s[target] == ' ',
        forall|i: int| k <= i < target ==> s[i] != ' ',
    ensures
        first_space_char(s, k) == Some(target),
    decreases target - k,
{
    if k < target {
        lemma_first_space_from(s, k + 1, target);
    }
}

} // verus!
