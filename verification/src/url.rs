//! The remote of a repository, written in one of the URL forms the client
//! accepts, taken apart into host, user name and directory.
//!
//! Three forms are read, tried in this order:
//! - `user@host/path`, where `path` may start with `/remote.php/dav/files/<name>`;
//! - a browser address with a query, `host/...dir=<path>&...`;
//! - `[http[s]://]host[/remote.php/dav/files/<user>]/path`.
//!
//! A text of several lines is read line by line and the last line that has the
//! form decides.

use vstd::prelude::*;
use vstd::string::*;
use crate::text::{chars_of, substring, occurs_at_exec, contains_char};
use crate::paths::split_str;

verus! {

/// The first index at or after `from` that holds `c`.
pub open spec fn first_from(s: Seq<char>, c: char, from: int) -> Option<int>
    decreases s.len() - from,
{
    if from < 0 || from >= s.len() {
        None
    } else if s[from] == c {
        Some(from)
    } else {
        first_from(s, c, from + 1)
    }
}

proof fn lemma_first_from(s: Seq<char>, c: char, from: int)
    requires
        0 <= from,
    ensures
        first_from(s, c, from) matches Some(j) ==> from <= j < s.len() && s[j] == c && forall|
            k: int,
        | from <= k < j ==> s[k] != c,
        first_from(s, c, from) is None ==> forall|k: int| from <= k < s.len() ==> s[k] != c,
    decreases s.len() - from,
{
    if from < s.len() && s[from] != c {
        lemma_first_from(s, c, from + 1);
    }
}

/// The first index at or after `from + extra` holding `c`.
fn first_from_exec(s: &Vec<char>, c: char, from: usize, extra: usize) -> (r: Option<usize>)
    ensures
        r matches Some(j) ==> first_from(s@, c, from + extra) == Some(j as int),
        r is None ==> first_from(s@, c, from + extra) is None,
{
    if from >= s.len() || extra >= s.len() - from {
        return None;
    }
    let start = from + extra;
    let mut j = start;
    while j < s.len()
        invariant
            start == from + extra,
            start <= j,
            first_from(s@, c, start as int) == first_from(s@, c, j as int),
        decreases s@.len() - j,
    {
        if s[j] == c {
            return Some(j);
        }
        j = j + 1;
    }
    None
}

/// The user part `@` of the first form: the last `@` (before index `k`) that
/// still has a `/` at least two characters after it.
pub open spec fn last_feasible_at(s: Seq<char>, k: int) -> Option<int>
    decreases k,
{
    if k <= 0 {
        None
    } else if s[k - 1] == '@' && first_from(s, '/', k + 1) is Some {
        Some(k - 1)
    } else {
        last_feasible_at(s, k - 1)
    }
}

fn last_feasible_at_exec(s: &Vec<char>) -> (r: Option<usize>)
    ensures
        r matches Some(j) ==> last_feasible_at(s@, s@.len() as int) == Some(j as int),
        r is None ==> last_feasible_at(s@, s@.len() as int) is None,
{
    let mut k = s.len();
    while k > 0
        invariant
            k <= s@.len(),
            last_feasible_at(s@, s@.len() as int) == last_feasible_at(s@, k as int),
        decreases k,
    {
        if s[k - 1] == '@' && first_from_exec(s, '/', k, 1).is_some() {
            return Some(k - 1);
        }
        k = k - 1;
    }
    None
}

/// The last `dir=` (starting before index `k`) that has a `&` after its value.
pub open spec fn last_dir(s: Seq<char>, k: int) -> Option<int>
    decreases k,
{
    if k <= 0 {
        None
    } else if crate::text::occurs_at(s, seq!['d', 'i', 'r', '='], k - 1) && first_from(
        s,
        '&',
        k + 4,
    ) is Some {
        Some(k - 1)
    } else {
        last_dir(s, k - 1)
    }
}

fn last_dir_exec(s: &Vec<char>) -> (r: Option<usize>)
    ensures
        r matches Some(j) ==> last_dir(s@, s@.len() as int) == Some(j as int),
        r is None ==> last_dir(s@, s@.len() as int) is None,
{
    let pat: Vec<char> = vec!['d', 'i', 'r', '='];
    assert(pat@ =~= seq!['d', 'i', 'r', '=']);
    let mut k = s.len();
    while k > 0
        invariant
            k <= s@.len(),
            pat@ == seq!['d', 'i', 'r', '='],
            last_dir(s@, s@.len() as int) == last_dir(s@, k as int),
        decreases k,
    {
        if occurs_at_exec(s, &pat, k - 1) && first_from_exec(s, '&', k, 4).is_some() {
            return Some(k - 1);
        }
        k = k - 1;
    }
    None
}

/// The prefix that names the WebDAV directory of a user.
pub open spec fn dav_prefix() -> Seq<char> {
    "/remote.php/dav/files/"@
}

/// The pieces read from one line: host, user name (when given) and path.
pub type UrlPieces = (Seq<char>, Option<Seq<char>>, Seq<char>);

/// The first form, `user@host[/remote.php/dav/files/<name>]/path`, on one line.
pub open spec fn match_user_form(l: Seq<char>) -> Option<UrlPieces> {
    match last_feasible_at(l, l.len() as int) {
        None => None,
        Some(a) => {
            let e = first_from(l, '/', a + 2)->Some_0;
            let path = if crate::text::occurs_at(l, dav_prefix(), e) && first_from(
                l,
                '/',
                e + 23,
            ) is Some {
                l.subrange(first_from(l, '/', e + 23)->Some_0, l.len() as int)
            } else {
                l.subrange(e, l.len() as int)
            };
            Some((l.subrange(a + 1, e), Some(l.subrange(0, a)), path))
        },
    }
}

/// Whether `l` begins with `https://`.
pub open spec fn has_https(l: Seq<char>) -> bool {
    crate::text::occurs_at(l, "https://"@, 0)
}

/// Whether `l` begins with `http://`.
pub open spec fn has_http(l: Seq<char>) -> bool {
    crate::text::occurs_at(l, "http://"@, 0)
}

/// Where the host ends in the browser form, trying a scheme first: the first
/// `/` after the scheme and at least one more character, provided the last
/// usable `dir=` lies at least two characters after it.
pub open spec fn browser_host_end(l: Seq<char>, plen: int) -> Option<int> {
    match first_from(l, '/', plen + 1) {
        None => None,
        Some(e) => match last_dir(l, l.len() as int) {
            Some(d) => if d >= e + 2 {
                Some(e)
            } else {
                None
            },
            None => None,
        },
    }
}

/// Where the host ends after a scheme of `plen` characters: the browser form,
/// or the plain form (the first `/` after the scheme and one more character).
pub open spec fn host_end_after(l: Seq<char>, browser: bool, plen: int) -> Option<int> {
    if browser {
        browser_host_end(l, plen)
    } else {
        first_from(l, '/', plen + 1)
    }
}

/// The host end of a form, a scheme `https://` or `http://` tried before none.
pub open spec fn host_end(l: Seq<char>, browser: bool) -> Option<int> {
    if has_https(l) && host_end_after(l, browser, 8) is Some {
        host_end_after(l, browser, 8)
    } else if has_http(l) && host_end_after(l, browser, 7) is Some {
        host_end_after(l, browser, 7)
    } else {
        host_end_after(l, browser, 0)
    }
}

/// The second form, a browser address `host/...dir=<path>&...`, on one line.
pub open spec fn match_browser_form(l: Seq<char>) -> Option<UrlPieces> {
    match host_end(l, true) {
        None => None,
        Some(e) => {
            let d = last_dir(l, l.len() as int)->Some_0;
            let amp = first_from(l, '&', d + 5)->Some_0;
            Some((l.subrange(0, e), None, l.subrange(d + 4, amp)))
        },
    }
}

/// The third form, `[http[s]://]host[/remote.php/dav/files/<user>]/path`, on one line.
pub open spec fn match_plain_form(l: Seq<char>) -> Option<UrlPieces> {
    match host_end(l, false) {
        None => None,
        Some(e) => if crate::text::occurs_at(l, dav_prefix(), e) && first_from(
            l,
            '/',
            e + 23,
        ) is Some {
            let f = first_from(l, '/', e + 23)->Some_0;
            Some((l.subrange(0, e), Some(l.subrange(e + 22, f)), l.subrange(f, l.len() as int)))
        } else {
            Some((l.subrange(0, e), None, l.subrange(e, l.len() as int)))
        },
    }
}

/// Which form a remote is read in: 0 for `@`, 1 for a query `?`, 2 otherwise.
pub open spec fn url_form(url: Seq<char>) -> int {
    if url.contains('@') {
        0
    } else if url.contains('?') {
        1
    } else {
        2
    }
}

/// One line read in the given form.
pub open spec fn match_form(form: int, l: Seq<char>) -> Option<UrlPieces> {
    if form == 0 {
        match_user_form(l)
    } else if form == 1 {
        match_browser_form(l)
    } else {
        match_plain_form(l)
    }
}

/// The pieces of the last line that has the form.
pub open spec fn last_match(form: int, lines: Seq<Seq<char>>) -> Option<UrlPieces>
    decreases lines.len(),
{
    if lines.len() == 0 {
        None
    } else {
        match match_form(form, lines.last()) {
            Some(p) => Some(p),
            None => last_match(form, lines.drop_last()),
        }
    }
}

/// The host made secure: kept when it starts with `http://` or `https://`,
/// else given the scheme `https://`.
pub open spec fn secure_host(d: Seq<char>) -> Seq<char> {
    if crate::text::starts_with(d, "http://"@) || crate::text::starts_with(d, "https://"@) {
        d
    } else {
        "https://"@ + d
    }
}

/// Host, user name and directory of a remote, as `get_url_props` returns them.
pub open spec fn url_props(url: Seq<char>) -> UrlPieces {
    let lines = crate::paths::split_on(url, '\n');
    match last_match(url_form(url), lines) {
        Some(p) => (secure_host(p.0), p.1, p.2),
        None => (secure_host(Seq::empty()), None, Seq::empty()),
    }
}

/// The host that `get_url_props` gives always names its scheme: it starts
/// with `http://` or `https://` (`https://` is added when none was given).
pub proof fn lemma_host_has_scheme(url: Seq<char>)
    ensures
        crate::text::starts_with(url_props(url).0, "http://"@) || crate::text::starts_with(
            url_props(url).0,
            "https://"@,
        ),
{
    reveal_strlit("https://");
    let h = url_props(url).0;
    let lines = crate::paths::split_on(url, '\n');
    let d = match last_match(url_form(url), lines) {
        Some(p) => p.0,
        None => Seq::empty(),
    };
    assert(h == secure_host(d));
    if !(crate::text::starts_with(d, "http://"@) || crate::text::starts_with(d, "https://"@)) {
        assert(("https://"@ + d).subrange(0, 8) =~= "https://"@);
    }
}

proof fn lemma_schemes_exclusive(l: Seq<char>)
    ensures
        has_https(l) ==> !has_http(l),
{
    reveal_strlit("https://");
    reveal_strlit("http://");
    if has_https(l) && has_http(l) {
        assert(l.subrange(0, 8)[4] == 's');
        assert(l.subrange(0, 7)[4] == ':');
    }
}

fn literal_chars(s: &str) -> (r: Vec<char>)
    ensures
        r@ == s@,
{
    chars_of(s)
}

/// Where the host of a line ends, a scheme tried first; `ends` is the rule of the form.
fn host_end_exec(l: &Vec<char>, browser: bool) -> (r: Option<usize>)
    ensures
        r matches Some(e) ==> host_end(l@, browser) == Some(e as int),
        r is None ==> host_end(l@, browser) is None,
{
    proof {
        reveal_strlit("https://");
        reveal_strlit("http://");
    }
    let https = literal_chars("https://");
    let http = literal_chars("http://");
    let d = if browser {
        last_dir_exec(l)
    } else {
        None
    };
    let mut plens: Vec<usize> = Vec::new();
    if occurs_at_exec(l, &https, 0) {
        plens.push(8);
    } else if occurs_at_exec(l, &http, 0) {
        plens.push(7);
    }
    plens.push(0);
    proof {
        lemma_schemes_exclusive(l@);
    }
    let mut i: usize = 0;
    let mut found: Option<usize> = None;
    // try each scheme length in turn
    let n = plens.len();
    assert(https@ =~= "https://"@);
    assert(http@ =~= "http://"@);
    while i < n
        invariant
            n == plens@.len(),
            1 <= n <= 2,
            plens@[n - 1] == 0,
            n == 2 ==> (plens@[0] == 8 && has_https(l@)) || (plens@[0] == 7 && !has_https(l@)
                && has_http(l@)),
            n == 1 ==> !has_https(l@) && !has_http(l@),
            has_https(l@) ==> !has_http(l@),
            browser ==> (d matches Some(dd) ==> last_dir(l@, l@.len() as int) == Some(dd as int))
                && (d is None ==> last_dir(l@, l@.len() as int) is None),
            i <= n,
            found is None,
            forall|k: int| 0 <= k < i ==> host_end_after(l@, browser, plens@[k] as int) is None,
        decreases n - i,
    {
        let plen = plens[i];
        let e = first_from_exec(l, '/', plen, 1);
        let ok: Option<usize> = match e {
            None => None,
            Some(e) => if browser {
                match d {
                    Some(dd) => if dd >= e && dd - e >= 2 {
                        Some(e)
                    } else {
                        None
                    },
                    None => None,
                }
            } else {
                Some(e)
            },
        };
        assert(ok matches Some(x) ==> host_end_after(l@, browser, plen as int) == Some(x as int));
        assert(ok is None ==> host_end_after(l@, browser, plen as int) is None);
        if ok.is_some() {
            proof {
                if i == 1 {
                    assert(host_end_after(l@, browser, plens@[0] as int) is None);
                    assert(plen == 0);
                    assert(host_end(l@, browser) == host_end_after(l@, browser, 0));
                } else if n == 2 {
                    if plens@[0] == 8 {
                        assert(host_end(l@, browser) == host_end_after(l@, browser, 8));
                    } else {
                        assert(host_end(l@, browser) == host_end_after(l@, browser, 7));
                    }
                } else {
                    assert(plen == 0);
                    assert(host_end(l@, browser) == host_end_after(l@, browser, 0));
                }
            }
            return ok;
        }
        i = i + 1;
    }
    assert(host_end_after(l@, browser, 0) is None);
    None
}

/// Reads one line in the given form: the bounds of host, user name and path.
fn match_line(form: u8, l: &Vec<char>) -> (r: Option<((usize, usize), Option<(usize, usize)>, (usize, usize))>)
    requires
        form <= 2,
    ensures
        match match_form(form as int, l@) {
            None => r is None,
            Some(p) => r matches Some(q) && {
                &&& q.0.0 <= q.0.1 <= l@.len()
                &&& p.0 == l@.subrange(q.0.0 as int, q.0.1 as int)
                &&& (q.1 matches Some(u) ==> u.0 <= u.1 <= l@.len() && p.1 == Some(
                    l@.subrange(u.0 as int, u.1 as int),
                ))
                &&& (q.1 is None ==> p.1 is None)
                &&& q.2.0 <= q.2.1 <= l@.len()
                &&& p.2 == l@.subrange(q.2.0 as int, q.2.1 as int)
            },
        },
{
    proof {
        reveal_strlit("/remote.php/dav/files/");
    }
    let dav = literal_chars("/remote.php/dav/files/");
    assert(dav@.len() == 22);
    let n = l.len();
    if form == 0 {
        match last_feasible_at_exec(l) {
            None => None,
            Some(a) => {
                let e = first_from_exec(l, '/', a, 2);
                proof {
                    lemma_last_feasible(l@, l@.len() as int);
                    lemma_first_from(l@, '/', (a + 2) as int);
                }
                let e = match e {
                    Some(e) => e,
                    None => {
                        assert(false);
                        return None;
                    },
                };
                let path_start = if occurs_at_exec(l, &dav, e) {
                    match first_from_exec(l, '/', e, 23) {
                        Some(f) => {
                            proof {
                                lemma_first_from(l@, '/', e + 23);
                            }
                            f
                        },
                        None => e,
                    }
                } else {
                    e
                };
                Some(((a + 1, e), Some((0, a)), (path_start, n)))
            },
        }
    } else if form == 1 {
        match host_end_exec(l, true) {
            None => None,
            Some(e) => {
                let d = last_dir_exec(l);
                match d {
                    None => {
                        assert(false);
                        None
                    },
                    Some(d) => {
                        proof {
                            lemma_last_dir(l@, l@.len() as int);
                        }
                        match first_from_exec(l, '&', d, 5) {
                            None => {
                                assert(false);
                                None
                            },
                            Some(amp) => {
                                proof {
                                    lemma_first_from(l@, '&', d + 5);
                                }
                                Some(((0, e), None, (d + 4, amp)))
                            },
                        }
                    },
                }
            },
        }
    } else {
        match host_end_exec(l, false) {
            None => None,
            Some(e) => {
                proof {
                    lemma_host_end_plain(l@);
                }
                if occurs_at_exec(l, &dav, e) {
                    match first_from_exec(l, '/', e, 23) {
                        Some(f) => {
                            proof {
                                lemma_first_from(l@, '/', e + 23);
                            }
                            Some(((0, e), Some((e + 22, f)), (f, n)))
                        },
                        None => Some(((0, e), None, (e, n))),
                    }
                } else {
                    Some(((0, e), None, (e, n)))
                }
            },
        }
    }
}

proof fn lemma_last_feasible(s: Seq<char>, k: int)
    requires
        k <= s.len(),
    ensures
        last_feasible_at(s, k) matches Some(a) ==> 0 <= a < k && s[a] == '@' && first_from(
            s,
            '/',
            a + 2,
        ) is Some,
    decreases k,
{
    if k > 0 {
        lemma_last_feasible(s, k - 1);
    }
}

proof fn lemma_last_dir(s: Seq<char>, k: int)
    requires
        k <= s.len(),
    ensures
        last_dir(s, k) matches Some(d) ==> 0 <= d < k && first_from(s, '&', d + 5) is Some,
    decreases k,
{
    if k > 0 {
        lemma_last_dir(s, k - 1);
    }
}

proof fn lemma_host_end_plain(l: Seq<char>)
    ensures
        host_end(l, false) matches Some(e) ==> 0 <= e < l.len()
            && l[e] == '/',
{
    lemma_first_from(l, '/', 9);
    lemma_first_from(l, '/', 8);
    lemma_first_from(l, '/', 1);
}


proof fn lemma_first_from_is(s: Seq<char>, c: char, from: int, e: int)
    requires
        0 <= from <= e < s.len(),
        s[e] == c,
        forall|k: int| from <= k < e ==> s[k] != c,
    ensures
        first_from(s, c, from) == Some(e),
    decreases e - from,
{
    if from < e {
        lemma_first_from_is(s, c, from + 1, e);
    }
}

proof fn lemma_first_from_shift(p: Seq<char>, t: Seq<char>, c: char, i: int)
    requires
        0 <= i,
    ensures
        first_from(p + t, c, p.len() + i) == match first_from(t, c, i) {
            Some(j) => Some(p.len() + j),
            None => None,
        },
    decreases t.len() - i,
{
    if i < t.len() {
        assert((p + t)[p.len() + i] == t[i]);
        if t[i] != c {
            lemma_first_from_shift(p, t, c, i + 1);
        }
    }
}

proof fn lemma_last_feasible_is(s: Seq<char>, a: int, k: int)
    requires
        0 <= a < k <= s.len(),
        s[a] == '@',
        first_from(s, '/', a + 2) is Some,
        forall|j: int| a < j < k ==> s[j] != '@',
    ensures
        last_feasible_at(s, k) == Some(a),
    decreases k,
{
    if k > a + 1 {
        lemma_last_feasible_is(s, a, k - 1);
    }
}

/// A remote written `user@host/root` is read back as that user, host (made
/// secure) and root, provided the host is one name (no `/`, `@` or line
/// break), the root starts with `/` and holds no `@`, nothing holds a line
/// break, and the root does not itself start with a WebDAV user directory.
pub proof fn lemma_user_form_read_back(user: Seq<char>, h: Seq<char>, root: Seq<char>)
    requires
        h.len() > 0,
        forall|i: int| 0 <= i < h.len() ==> h[i] != '/' && h[i] != '@' && h[i] != '\n',
        forall|i: int| 0 <= i < user.len() ==> user[i] != '\n',
        root.len() > 0,
        root[0] == '/',
        forall|i: int| 0 <= i < root.len() ==> root[i] != '@' && root[i] != '\n',
        !(crate::text::occurs_at(root, dav_prefix(), 0) && first_from(root, '/', 23) is Some),
    ensures
        url_props(user + seq!['@'] + h + root) == (secure_host(h), Some(user), root),
{
    reveal_strlit("/remote.php/dav/files/");
    let pre = user + seq!['@'] + h;
    let l = pre + root;
    assert(l =~= user + seq!['@'] + h + root);
    let a = user.len() as int;
    let e = a + 1 + h.len();
    assert(pre.len() == e);
    assert(l[a] == '@');
    assert forall|i: int| 0 <= i < l.len() implies l[i] != '\n' by {
        if i < a {
            assert(l[i] == user[i]);
        } else if a < i < e {
            assert(l[i] == h[i - a - 1]);
        } else if i >= e {
            assert(l[i] == root[i - e]);
        }
    }
    crate::paths::lemma_split_on_single(l, '\n');
    assert(l.contains('@'));
    assert(url_form(l) == 0);
    assert(l[e] == '/');
    assert forall|k: int| a + 2 <= k < e implies l[k] != '/' by {
        assert(l[k] == h[k - a - 1]);
    }
    lemma_first_from_is(l, '/', a + 2, e);
    assert forall|j: int| a < j < l.len() implies l[j] != '@' by {
        if j < e {
            assert(l[j] == h[j - a - 1]);
        } else {
            assert(l[j] == root[j - e]);
        }
    }
    lemma_last_feasible_is(l, a, l.len() as int);
    lemma_first_from_shift(pre, root, '/', 23);
    assert(crate::text::occurs_at(l, dav_prefix(), e) == crate::text::occurs_at(root, dav_prefix(), 0)) by {
        if root.len() >= dav_prefix().len() {
            assert(l.subrange(e, e + dav_prefix().len()) =~= root.subrange(0, dav_prefix().len() as int));
        }
    }
    assert(l.subrange(e, l.len() as int) =~= root);
    assert(l.subrange(a + 1, e) =~= h);
    assert(l.subrange(0, a) =~= user);
    assert(last_match(0, seq![l]) == match_form(0, l));
}

/// The host made secure (see `secure_host`).
fn secure_host_exec(d: String) -> (r: String)
    ensures
        r@ == secure_host(d@),
{
    proof {
        reveal_strlit("https://");
        reveal_strlit("http://");
    }
    let dc = chars_of(d.as_str());
    let http = literal_chars("http://");
    let https = literal_chars("https://");
    if occurs_at_exec(&dc, &http, 0) || occurs_at_exec(&dc, &https, 0) {
        d
    } else {
        let mut out = String::from_str("https://");
        out.append(d.as_str());
        out
    }
}

/// Host (with its scheme, `https://` when none was given), user name (when the
/// remote names one) and directory of a remote; see the module documentation
/// for the forms read.
pub fn get_url_props(url: &str) -> (r: (String, Option<String>, String))
    ensures
        r.0@ == url_props(url@).0,
        r.1 is Some <==> url_props(url@).1 is Some,
        r.1 matches Some(u) ==> url_props(url@).1 == Some(u@),
        r.2@ == url_props(url@).2,
{
    let cs = chars_of(url);
    let form: u8 = if contains_char(&cs, '@') {
        0
    } else if contains_char(&cs, '?') {
        1
    } else {
        2
    };
    assert(form as int == url_form(url@));
    let lines = split_str(url, '\n');
    let ghost ls = crate::paths::views(lines@);
    let mut k = lines.len();
    assert(ls.subrange(0, k as int) =~= ls);
    while k > 0
        invariant
            ls == crate::paths::views(lines@),
            ls == crate::paths::split_on(url@, '\n'),
            form as int == url_form(url@),
            form <= 2,
            k <= lines@.len(),
            last_match(form as int, ls) == last_match(form as int, ls.subrange(0, k as int)),
        decreases k,
    {
        let line = &lines[k - 1];
        let lc = chars_of(line.as_str());
        assert(ls.subrange(0, k as int).last() == line@);
        assert(ls.subrange(0, k as int).drop_last() =~= ls.subrange(0, k - 1));
        match match_line(form, &lc) {
            Some(q) => {
                let host = substring(line.as_str(), q.0.0, q.0.1);
                let user = match q.1 {
                    Some(u) => Some(substring(line.as_str(), u.0, u.1)),
                    None => None,
                };
                let path = substring(line.as_str(), q.2.0, q.2.1);
                return (secure_host_exec(host), user, path);
            },
            None => {},
        }
        k = k - 1;
    }
    assert(ls.subrange(0, 0) =~= Seq::<Seq<char>>::empty());
    (secure_host_exec(String::new()), None, String::new())
}

} // verus!
