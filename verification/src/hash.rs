//! Digests: SHA-1 names the objects of the store, MD5 fingerprints file contents.

use vstd::prelude::*;
use vstd::string::*;
use crate::text::substring;
use crate::paths::join_path;

verus! {

/// Whether `s` is written only with `0-9` and `a-f`.
pub open spec fn is_lower_hex(s: Seq<char>) -> bool {
    forall|i: int| 0 <= i < s.len() ==> ('0' <= #[trigger] s[i] <= '9' || 'a' <= s[i] <= 'f')
}

/// The SHA-1 digest of the UTF-8 bytes of `s`, in lower-case hexadecimal.
pub uninterp spec fn sha1_hex(s: Seq<char>) -> Seq<char>;

/// The MD5 digest of `bytes`, in lower-case hexadecimal.
pub uninterp spec fn md5_hex(bytes: Seq<u8>) -> Seq<char>;

/// SHA-1 of a string through `crypto::sha1::Sha1` (`input_str`, then
/// `result_str`). Claimed: the result is the (named) digest of `s`, and
/// `result_str` writes the 20 digest bytes with `0123456789abcdef`, so 40 such
/// characters.
#[verifier::external_body]
pub(crate) fn sha1_str(s: &str) -> (r: String)
    ensures
        r@ == sha1_hex(s@),
        r@.len() == 40,
        is_lower_hex(r@),
{
    let mut hasher = crypto::sha1::Sha1::new();
    crypto::digest::Digest::input_str(&mut hasher, s);
    crypto::digest::Digest::result_str(&mut hasher)
}

/// MD5 of bytes through `md5::compute`, written with `{:x}`. Claimed: the result
/// is the (named) digest of `bytes`; the 16 digest bytes are written `{:02x}`
/// each, so 32 characters of `0-9a-f`.
#[verifier::external_body]
pub(crate) fn md5_bytes(bytes: &[u8]) -> (r: String)
    ensures
        r@ == md5_hex(bytes@),
        r@.len() == 32,
        is_lower_hex(r@),
{
    format!("{:x}", md5::compute(bytes))
}

/// The SHA-1 of `s` split after its first two characters (directory, file).
pub open spec fn split_hash(h: Seq<char>) -> (Seq<char>, Seq<char>) {
    (h.subrange(0, 2), h.subrange(2, h.len() as int))
}

/// The digest of `obj` cut into the directory and file names of its object.
pub fn hash_obj(obj: &str) -> (r: (String, String))
    ensures
        r.0@ == split_hash(sha1_hex(obj@)).0,
        r.1@ == split_hash(sha1_hex(obj@)).1,
{
    let h = sha1_str(obj);
    (substring(h.as_str(), 0, 2), substring(h.as_str(), 2, 40))
}

/// Where the object named by the digest `h` is stored under `objects`.
pub open spec fn object_file(objects: Seq<char>, h: Seq<char>) -> Seq<char> {
    crate::paths::join_paths(
        crate::paths::join_paths(objects, split_hash(h).0),
        split_hash(h).1,
    )
}

/// The file of the object of `obj` (a path of the repository) under `objects`.
pub fn _object_path(objects: &str, obj: &str) -> (r: String)
    ensures
        r@ == object_file(objects@, sha1_hex(obj@)),
{
    let (dir, res) = hash_obj(obj);
    let d = join_path(objects, dir.as_str());
    join_path(d.as_str(), res.as_str())
}

/// The file of the object named by the digest `h` (40 characters) under `objects`.
pub fn object_path_of_hash(objects: &str, h: &str) -> (r: String)
    requires
        h@.len() >= 2,
    ensures
        r@ == object_file(objects@, h@),
{
    let n = h.unicode_len();
    let dir = substring(h, 0, 2);
    let res = substring(h, 2, n);
    let d = join_path(objects, dir.as_str());
    join_path(d.as_str(), res.as_str())
}

} // verus!
