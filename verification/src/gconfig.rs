//! The user's own configuration, kept in the home directory.

use vstd::prelude::*;
use vstd::string::*;

verus! {

/// The saved token: the first line of the token file, when it could be read
/// and holds a line.
pub fn read_token(lines: Option<Vec<String>>) -> (r: Option<String>)
    ensures
        r == (match lines {
            Some(ls) => if ls@.len() > 0 {
                Some(ls@[0])
            } else {
                None
            },
            None => None,
        }),
{
    match lines {
        Some(ls) => {
            if ls.len() > 0 {
                Some(ls[0].clone())
            } else {
                None
            }
        },
        None => None,
    }
}

/// The text of the token file as saving `token` writes it: the token, then a
/// line break.
pub open spec fn token_file_text(token: Seq<char>) -> Seq<char> {
    crate::text::line_text(token)
}

/// The text to write in the token file for `token` (see `token_file_text`).
pub fn token_text(token: &str) -> (r: String)
    ensures
        r@ == token_file_text(token@),
{
    proof {
        reveal_strlit("\n");
    }
    let mut out = String::from_str(token);
    out.append("\n");
    assert(out@ =~= token_file_text(token@));
    out
}

/// A saved token reads back: on the lines of a token file that starts with
/// the text saved for `token` (whatever an older, longer file left after it),
/// `read_token` gives `token`, for a token without line break that does not
/// end with a carriage return.
pub proof fn lemma_token_read_back(token: Seq<char>, rest: Seq<char>, lines: Seq<String>)
    requires
        forall|i: int| 0 <= i < token.len() ==> token[i] != '\n',
        !(token.len() > 0 && token.last() == '\r'),
        crate::paths::views(lines) == crate::text::lines_of(token_file_text(token) + rest),
    ensures
        lines.len() > 0,
        lines[0]@ == token,
{
    crate::text::lemma_first_line_written(token, rest);
    assert(crate::paths::views(lines)[0] == lines[0]@);
}

} // verus!
