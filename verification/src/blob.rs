//! Blob objects. A file is recorded by a line `blob <hash> <name>` in its
//! parent and by an object `<name> <remote date> <size> <local date> <md5> `,
//! which tells whether the file changed since the last synchronisation.

use vstd::prelude::*;
use vstd::string::*;
use crate::text::{parse_u64, u64_to_decimal, str_eq};
use crate::paths::{join_path, split_str, views};
use crate::hash::{sha1_str, md5_bytes, hash_obj};
use crate::tree::{make_object_line, path_file_name};

verus! {

/// Size and last modification (seconds since the epoch) of a local file.
#[derive(Clone, Copy)]
pub struct FileMeta {
    pub len: u64,
    pub modified_secs: u64,
}

/// A file of the repository and what is known of its object.
pub struct Blob {
    /// path relative to the repository root
    pub r_path: String,
    /// absolute path
    pub a_path: String,
    /// SHA-1 of the relative path
    pub hash: String,
    /// MD5 of the file's content, once computed
    pub file_hash: Option<String>,
    /// file of the object
    pub obj_p: String,
    /// fields of the object, once read
    pub data: Vec<String>,
}

/// The fields of a blob object: its text split at every space.
pub open spec fn blob_fields(content: Seq<char>) -> Seq<Seq<char>> {
    crate::paths::split_on(content, ' ')
}

/// Whether the recorded size is that of the file (also when the file or the
/// record tells nothing).
pub open spec fn same_size(data: Seq<Seq<char>>, meta: Option<FileMeta>) -> bool {
    match meta {
        None => true,
        Some(m) => data.len() < 3 || crate::text::decimal(m.len as nat) == data[2],
    }
}

/// Whether the file was modified after the recorded local date (also when the
/// file or the record tells nothing).
pub open spec fn is_newer(data: Seq<Seq<char>>, meta: Option<FileMeta>) -> bool {
    match meta {
        None => true,
        Some(m) => data.len() < 4 || m.modified_secs > crate::text::parse_u64_spec(
            data[3],
        )->Some_0,
    }
}

/// Whether the recorded content digest is `file_hash`.
pub open spec fn same_hash(data: Seq<Seq<char>>, file_hash: Seq<char>) -> bool {
    data.len() >= 5 && data[4] == file_hash
}

/// A file changed when its size differs from the record, or when it was
/// modified after the record and its content digest differs.
pub open spec fn blob_changed(data: Seq<Seq<char>>, meta: Option<FileMeta>, file_hash: Seq<
    char,
>) -> bool {
    !same_size(data, meta) || (is_newer(data, meta) && !same_hash(data, file_hash))
}

/// Whether the comparison of dates can be made: the local date of the record
/// is a number whenever it is read.
pub open spec fn dates_comparable(data: Seq<Seq<char>>, meta: Option<FileMeta>) -> bool {
    (same_size(data, meta) && meta is Some && data.len() >= 4) ==> crate::text::parse_u64_spec(
        data[3],
    ) is Some
}

/// The text of a blob object: name, remote date, size, local date and digest,
/// each followed by a space.
pub open spec fn blob_record(
    name: Seq<char>,
    ts_remote: Seq<char>,
    size: u64,
    secs: u64,
    file_hash: Seq<char>,
) -> Seq<char> {
    name + seq![' '] + ts_remote + seq![' '] + crate::text::decimal(size as nat) + seq![' ']
        + crate::text::decimal(secs as nat) + seq![' '] + file_hash + seq![' ']
}

impl Blob {
    /// The digest of the content this blob uses: the one computed before, or
    /// that of `bytes`.
    pub open spec fn content_hash(&self, bytes: Seq<u8>) -> Seq<char> {
        match self.file_hash {
            Some(h) => h@,
            None => crate::hash::md5_hex(bytes),
        }
    }

    /// The blob of the file at `r_path` in the repository at `root`.
    pub fn new(r_path: String, root: &str) -> (b: Blob)
        ensures
            b.r_path == r_path,
            b.a_path@ == crate::paths::join_paths(root@, r_path@),
            b.hash@ == crate::hash::sha1_hex(r_path@),
            b.obj_p@ == crate::hash::object_file(
                crate::paths::join_paths(crate::paths::join_paths(root@, ".nextsync"@), "objects"@),
                crate::hash::sha1_hex(r_path@),
            ),
            b.file_hash is None,
            b.data@.len() == 0,
    {
        let hash = sha1_str(r_path.as_str());
        let objects = crate::paths::objects(root);
        let obj_p = crate::hash::object_path_of_hash(objects.as_str(), hash.as_str());
        let a_path = join_path(root, r_path.as_str());
        Blob { r_path, a_path, hash, file_hash: None, obj_p, data: Vec::new() }
    }

    /// The line recording the blob in its parent, and the file name.
    pub fn get_line_filename(&self) -> (r: (String, String))
        requires
            crate::tree::file_name(self.r_path@) is Some,
        ensures
            r.1@ == crate::tree::file_name(self.r_path@)->Some_0,
            r.0@ == crate::tree::object_line("blob"@, self.hash@, r.1@),
    {
        proof {
            reveal_strlit("blob");
        }
        let name = match path_file_name(self.r_path.as_str()) {
            Some(n) => n,
            None => String::new(),
        };
        let line = make_object_line("blob", self.hash.as_str(), name.as_str());
        (line, name)
    }

    /// The MD5 of the file's content (`bytes`), computed once.
    pub fn get_file_hash(&mut self, bytes: &[u8]) -> (r: String)
        ensures
            r@ == old(self).content_hash(bytes@),
            old(self).file_hash is None ==> r@.len() == 32,
            final(self).file_hash == Some(r),
            final(self).r_path == old(self).r_path,
            final(self).hash == old(self).hash,
            final(self).obj_p == old(self).obj_p,
            final(self).a_path == old(self).a_path,
            final(self).data == old(self).data,
    {
        match &self.file_hash {
            Some(h) => h.clone(),
            None => {
                let h = md5_bytes(bytes);
                assert(h@.len() == 32);
                self.file_hash = Some(h.clone());
                h
            },
        }
    }

    /// The reference file, under `refs`, that lists the paths whose content has
    /// the digest of this blob's content.
    pub fn get_file_ref(&mut self, refs: &str, bytes: &[u8]) -> (r: String)
        requires
            old(self).file_hash matches Some(h) ==> h@.len() >= 2,
        ensures
            r@ == crate::hash::object_file(refs@, old(self).content_hash(bytes@)),
            final(self).file_hash == Some(
                final(self).file_hash->Some_0,
            ),
            final(self).file_hash->Some_0@ == old(self).content_hash(bytes@),
            final(self).data == old(self).data,
            final(self).r_path == old(self).r_path,
            final(self).obj_p == old(self).obj_p,
            final(self).hash == old(self).hash,
            final(self).a_path == old(self).a_path,
    {
        let fh = self.get_file_hash(bytes);
        crate::hash::object_path_of_hash(refs, fh.as_str())
    }

    /// The paths that have the same content as this blob: the lines of its
    /// reference file, when that file could be read.
    pub fn get_all_identical_blobs(&mut self, ref_lines: Option<Vec<String>>) -> (r: Vec<String>)
        ensures
            r@ == (match ref_lines {
                Some(ls) => ls@,
                None => Seq::empty(),
            }),
    {
        match ref_lines {
            Some(ls) => ls,
            None => Vec::new(),
        }
    }

    /// Reads the fields of the object from its text (when not read before and
    /// the object could be read).
    pub fn read_data(&mut self, content: Option<String>)
        ensures
            final(self).data@.len() == 0 && content is Some ==> views(final(self).data@)
                == blob_fields(content->Some_0@),
            (old(self).data@.len() > 0 || content is None) ==> final(self).data
                == old(self).data,
            old(self).data@.len() == 0 && content is Some ==> views(final(self).data@)
                == blob_fields(content->Some_0@),
            final(self).file_hash == old(self).file_hash,
            final(self).r_path == old(self).r_path,
            final(self).hash == old(self).hash,
    {
        if self.data.len() == 0 {
            if let Some(c) = content {
                self.data = split_str(c.as_str(), ' ');
            }
        }
    }

    /// Whether the dates can be compared once the object's text `content` is read.
    pub fn can_compare(&mut self, content: Option<String>, meta: Option<FileMeta>) -> (r: bool)
        ensures
            r == dates_comparable(views(final(self).data@), meta),
            (old(self).data@.len() > 0 || content is None) ==> final(self).data
                == old(self).data,
            old(self).data@.len() == 0 && content is Some ==> views(final(self).data@)
                == blob_fields(content->Some_0@),
            final(self).file_hash == old(self).file_hash,
            final(self).r_path == old(self).r_path,
            final(self).hash == old(self).hash,
    {
        self.read_data(content);
        let same = self.has_same_size(&meta);
        match meta {
            None => true,
            Some(m) => {
                if same && self.data.len() >= 4 {
                    assert(views(self.data@)[3] == self.data@[3]@);
                    parse_u64(self.data[3].as_str()).is_some()
                } else {
                    true
                }
            },
        }
    }

    /// Whether the recorded size is that of the file (see `same_size`).
    pub fn has_same_size(&self, meta: &Option<FileMeta>) -> (r: bool)
        ensures
            r == same_size(views(self.data@), *meta),
    {
        match meta {
            None => true,
            Some(m) => {
                if self.data.len() < 3 {
                    true
                } else {
                    let s = u64_to_decimal(m.len);
                    assert(views(self.data@)[2] == self.data@[2]@);
                    str_eq(s.as_str(), self.data[2].as_str())
                }
            },
        }
    }

    /// Whether the file was modified after the recorded local date (see `is_newer`).
    pub fn is_newer(&self, meta: &Option<FileMeta>) -> (r: bool)
        requires
            meta is Some && self.data@.len() >= 4 ==> crate::text::parse_u64_spec(
                self.data@[3]@,
            ) is Some,
        ensures
            r == is_newer(views(self.data@), *meta),
    {
        match meta {
            None => true,
            Some(m) => {
                if self.data.len() < 4 {
                    true
                } else {
                    assert(views(self.data@)[3] == self.data@[3]@);
                    match parse_u64(self.data[3].as_str()) {
                        Some(v) => m.modified_secs > v,
                        None => true,
                    }
                }
            },
        }
    }

    /// Whether the recorded digest is that of the file's content `bytes`
    /// (see `same_hash`).
    pub fn has_same_hash(&mut self, bytes: &[u8]) -> (r: bool)
        ensures
            r == same_hash(views(old(self).data@), old(self).content_hash(bytes@)),
            final(self).data == old(self).data,
            final(self).file_hash == Some(final(self).file_hash->Some_0),
            final(self).file_hash->Some_0@ == old(self).content_hash(bytes@),
            final(self).r_path == old(self).r_path,
            final(self).hash == old(self).hash,
    {
        if self.data.len() < 5 {
            let _ = self.get_file_hash(bytes);
            return false;
        }
        let fh = self.get_file_hash(bytes);
        assert(views(self.data@)[4] == self.data@[4]@);
        str_eq(self.data[4].as_str(), fh.as_str())
    }

    /// Whether the file changed since it was last recorded (see `blob_changed`):
    /// `content` is the text of its object (read now unless read before),
    /// `meta` the size and date of the file (`None` when they cannot be had),
    /// and `bytes` the file's content.
    pub fn has_change(&mut self, content: Option<String>, meta: Option<FileMeta>, bytes: &[u8]) -> (r: bool)
        requires
            dates_comparable(
                if old(self).data@.len() == 0 && content is Some {
                    blob_fields(content->Some_0@)
                } else {
                    views(old(self).data@)
                },
                meta,
            ),
        ensures
            r == blob_changed(
                views(final(self).data@),
                meta,
                old(self).content_hash(bytes@),
            ),
            (old(self).data@.len() > 0 || content is None) ==> final(self).data
                == old(self).data,
            old(self).data@.len() == 0 && content is Some ==> views(final(self).data@)
                == blob_fields(content->Some_0@),
    {
        self.read_data(content);
        let ghost before = *self;
        if !self.has_same_size(&meta) {
            return true;
        }
        if !self.is_newer(&meta) {
            return false;
        }
        let same = self.has_same_hash(bytes);
        !same
    }
}

/// What recording a file does: its line goes to its parent (`None`: to
/// `HEAD`), its object gets its record, its path is listed in the reference
/// file of its content, and the dates of its parents follow.
pub struct BlobCreate {
    pub parent: Option<String>,
    pub line: String,
    pub object: String,
    pub content: String,
    pub hash_ref: String,
    pub ref_line: String,
    pub dates: Vec<String>,
}

/// What removing the record of a file does: its line leaves its parent
/// (`None`: `HEAD`) and its object is deleted.
pub struct BlobRemove {
    pub parent: Option<String>,
    pub line: String,
    pub object: String,
}

impl Blob {
    /// Records the file, last changed on the server at `ts_remote`, whose size
    /// and local date are `meta` and whose content is `bytes` (see `BlobCreate`);
    /// the reference files are under `refs`.
    pub fn create(&mut self, refs: &str, ts_remote: &str, up_parent: bool, meta: FileMeta, bytes: &[u8]) -> (r: BlobCreate)
        requires
            crate::tree::file_name(old(self).r_path@) is Some,
            old(self).file_hash matches Some(h) ==> h@.len() >= 2,
        ensures
            match crate::tree::parent_ref(old(self).r_path@) {
                None => r.parent is None,
                Some(q) => r.parent matches Some(s) && s@ == q,
            },
            r.line@ == crate::tree::object_line(
                "blob"@,
                old(self).hash@,
                crate::tree::file_name(old(self).r_path@)->Some_0,
            ),
            r.object == old(self).obj_p,
            r.content@ == blob_record(
                crate::tree::file_name(old(self).r_path@)->Some_0,
                ts_remote@,
                meta.len,
                meta.modified_secs,
                old(self).content_hash(bytes@),
            ),
            r.hash_ref@ == crate::hash::object_file(refs@, old(self).content_hash(bytes@)),
            r.ref_line == old(self).r_path,
            views(r.dates@) == (if up_parent {
                crate::tree::ancestors(old(self).r_path@)
            } else {
                Seq::empty()
            }),
            final(self).r_path == old(self).r_path,
            final(self).obj_p == old(self).obj_p,
    {
        let (line, file_name) = self.get_line_filename();
        let hash_ref = self.get_file_ref(refs, bytes);
        let fh = match &self.file_hash {
            Some(h) => h.clone(),
            None => String::new(),
        };
        let content = blob_ref_content(file_name.as_str(), ts_remote, meta.len, meta.modified_secs, fh.as_str());
        let dates = if up_parent {
            crate::tree::update_dates(self.r_path.as_str())
        } else {
            let v: Vec<String> = Vec::new();
            assert(views(v@) =~= Seq::<Seq<char>>::empty());
            v
        };
        BlobCreate {
            parent: crate::tree::parent_ref_exec(self.r_path.as_str()),
            line,
            object: self.obj_p.clone(),
            content,
            hash_ref,
            ref_line: self.r_path.clone(),
            dates,
        }
    }

    /// Removes the record of the file (see `BlobRemove`).
    pub fn rm(&self) -> (r: BlobRemove)
        requires
            crate::tree::file_name(self.r_path@) is Some,
        ensures
            match crate::tree::parent_ref(self.r_path@) {
                None => r.parent is None,
                Some(q) => r.parent matches Some(s) && s@ == q,
            },
            r.line@ == crate::tree::object_line("blob"@, self.hash@, crate::tree::file_name(self.r_path@)->Some_0),
            r.object == self.obj_p,
    {
        let (line, _) = self.get_line_filename();
        BlobRemove { parent: crate::tree::parent_ref_exec(self.r_path.as_str()), line, object: self.obj_p.clone() }
    }
}

/// Whether `s` holds no space.
pub open spec fn spaceless(s: Seq<char>) -> bool {
    forall|i: int| 0 <= i < s.len() ==> s[i] != ' '
}

proof fn lemma_decimal_spaceless(n: nat)
    ensures
        spaceless(crate::text::decimal(n)),
        crate::text::decimal(n).len() > 0,
{
    crate::text::lemma_decimal_digits(n);
    let d = crate::text::decimal(n);
    assert forall|i: int| 0 <= i < d.len() implies d[i] != ' ' by {
        assert(crate::text::is_digit(d[i]));
    }
}

/// A file recorded with its size, date and digest reads back as unchanged
/// while these stay the same (for a name, a remote date and a digest without
/// spaces): the record's fields compare equal, and its dates can be compared.
pub proof fn lemma_recorded_file_unchanged(name: Seq<char>, ts_remote: Seq<char>, meta: FileMeta, file_hash: Seq<char>)
    requires
        spaceless(name),
        spaceless(ts_remote),
        spaceless(file_hash),
    ensures
        dates_comparable(blob_fields(blob_record(name, ts_remote, meta.len, meta.modified_secs, file_hash)), Some(meta)),
        !blob_changed(blob_fields(blob_record(name, ts_remote, meta.len, meta.modified_secs, file_hash)), Some(meta), file_hash),
{
    let d1 = crate::text::decimal(meta.len as nat);
    let d2 = crate::text::decimal(meta.modified_secs as nat);
    lemma_decimal_spaceless(meta.len as nat);
    lemma_decimal_spaceless(meta.modified_secs as nat);
    crate::text::lemma_decimal_digits(meta.modified_secs as nat);
    let sp = seq![' '];
    let r2 = name + sp + ts_remote;
    let r3 = r2 + sp + d1;
    let r4 = r3 + sp + d2;
    let r5 = r4 + sp + file_hash;
    let r6 = r5 + sp + Seq::<char>::empty();
    assert(blob_record(name, ts_remote, meta.len, meta.modified_secs, file_hash) =~= r6);
    crate::paths::lemma_split_on_single(name, ' ');
    crate::paths::lemma_split_on_single(ts_remote, ' ');
    crate::paths::lemma_split_on_single(d1, ' ');
    crate::paths::lemma_split_on_single(d2, ' ');
    crate::paths::lemma_split_on_single(file_hash, ' ');
    crate::paths::lemma_split_on_single(Seq::<char>::empty(), ' ');
    crate::paths::lemma_split_on_concat(name, ts_remote, ' ');
    crate::paths::lemma_split_on_concat(r2, d1, ' ');
    crate::paths::lemma_split_on_concat(r3, d2, ' ');
    crate::paths::lemma_split_on_concat(r4, file_hash, ' ');
    crate::paths::lemma_split_on_concat(r5, Seq::<char>::empty(), ' ');
    let fields = blob_fields(r6);
    assert(fields =~= seq![name, ts_remote, d1, d2, file_hash, Seq::<char>::empty()]);
    assert(d2[0] != '+');
    assert(crate::text::parse_u64_spec(d2) == Some(meta.modified_secs));
}

/// A recorded file is found changed exactly when its size differs from the
/// recorded one, or when it was modified after the recorded local date and its
/// content digest differs from the recorded one (for a name, a server date and
/// a recorded digest without spaces); its dates can always be compared.
pub proof fn lemma_recorded_file_change(
    name: Seq<char>,
    ts_remote: Seq<char>,
    size: u64,
    secs: u64,
    recorded_hash: Seq<char>,
    meta: FileMeta,
    file_hash: Seq<char>,
)
    requires
        spaceless(name),
        spaceless(ts_remote),
        spaceless(recorded_hash),
    ensures
        blob_changed(blob_fields(blob_record(name, ts_remote, size, secs, recorded_hash)), Some(meta), file_hash)
            == (meta.len != size || (meta.modified_secs > secs && file_hash != recorded_hash)),
        dates_comparable(blob_fields(blob_record(name, ts_remote, size, secs, recorded_hash)), Some(meta)),
{
    let d1 = crate::text::decimal(size as nat);
    let d2 = crate::text::decimal(secs as nat);
    let dm = crate::text::decimal(meta.len as nat);
    lemma_decimal_spaceless(size as nat);
    lemma_decimal_spaceless(secs as nat);
    crate::text::lemma_decimal_digits(size as nat);
    crate::text::lemma_decimal_digits(meta.len as nat);
    crate::text::lemma_decimal_digits(secs as nat);
    let sp = seq![' '];
    let r2 = name + sp + ts_remote;
    let r3 = r2 + sp + d1;
    let r4 = r3 + sp + d2;
    let r5 = r4 + sp + recorded_hash;
    let r6 = r5 + sp + Seq::<char>::empty();
    assert(blob_record(name, ts_remote, size, secs, recorded_hash) =~= r6);
    crate::paths::lemma_split_on_single(name, ' ');
    crate::paths::lemma_split_on_single(ts_remote, ' ');
    crate::paths::lemma_split_on_single(d1, ' ');
    crate::paths::lemma_split_on_single(d2, ' ');
    crate::paths::lemma_split_on_single(recorded_hash, ' ');
    crate::paths::lemma_split_on_single(Seq::<char>::empty(), ' ');
    crate::paths::lemma_split_on_concat(name, ts_remote, ' ');
    crate::paths::lemma_split_on_concat(r2, d1, ' ');
    crate::paths::lemma_split_on_concat(r3, d2, ' ');
    crate::paths::lemma_split_on_concat(r4, recorded_hash, ' ');
    crate::paths::lemma_split_on_concat(r5, Seq::<char>::empty(), ' ');
    let fields = blob_fields(r6);
    assert(fields =~= seq![name, ts_remote, d1, d2, recorded_hash, Seq::<char>::empty()]);
    assert(d2[0] != '+');
    assert(crate::text::parse_u64_spec(d2) == Some(secs));
    if dm == d1 {
        assert(meta.len == size);
    }
}

/// The date that `get_timestamp` reads from a blob object is the server's
/// date that `create` wrote in it (for a server date and a digest without
/// spaces; the name may hold some).
pub proof fn lemma_recorded_remote_date(name: Seq<char>, ts_remote: Seq<char>, size: u64, secs: u64, file_hash: Seq<char>)
    requires
        spaceless(ts_remote),
        spaceless(file_hash),
    ensures
        crate::tree::stamp_text(blob_record(name, ts_remote, size, secs, file_hash)) == Some(ts_remote),
{
    let d1 = crate::text::decimal(size as nat);
    let d2 = crate::text::decimal(secs as nat);
    lemma_decimal_spaceless(size as nat);
    lemma_decimal_spaceless(secs as nat);
    let sp = seq![' '];
    let r2 = name + sp + ts_remote;
    let r3 = r2 + sp + d1;
    let r4 = r3 + sp + d2;
    let r5 = r4 + sp + file_hash;
    let r6 = r5 + sp + Seq::<char>::empty();
    assert(blob_record(name, ts_remote, size, secs, file_hash) =~= r6);
    crate::paths::lemma_split_on_nonempty(name, ' ');
    crate::paths::lemma_split_on_single(ts_remote, ' ');
    crate::paths::lemma_split_on_single(d1, ' ');
    crate::paths::lemma_split_on_single(d2, ' ');
    crate::paths::lemma_split_on_single(file_hash, ' ');
    crate::paths::lemma_split_on_single(Seq::<char>::empty(), ' ');
    crate::paths::lemma_split_on_concat(name, ts_remote, ' ');
    crate::paths::lemma_split_on_concat(r2, d1, ' ');
    crate::paths::lemma_split_on_concat(r3, d2, ' ');
    crate::paths::lemma_split_on_concat(r4, file_hash, ' ');
    crate::paths::lemma_split_on_concat(r5, Seq::<char>::empty(), ' ');
    let f = crate::paths::split_on(r6, ' ');
    let fname = crate::paths::split_on(name, ' ');
    assert(f =~= fname + seq![ts_remote, d1, d2, file_hash, Seq::<char>::empty()]);
    assert(f[f.len() - 5] == ts_remote);
}

/// The reference file, under `refs`, of the content `bytes`: named after the
/// MD5 of the content.
pub open spec fn ref_file(refs: Seq<char>, bytes: Seq<u8>) -> Seq<char> {
    crate::hash::object_file(refs, crate::hash::md5_hex(bytes))
}

/// Files with the same content share a reference file, and it lists the
/// path recorded first. For two fresh blobs (no digest computed yet) and the
/// same content `bytes`, the file where `create` on `recorded` lists its path
/// (`hash_ref`) is the one `get_file_ref` names for `other`. Once `create`'s
/// line is written at the start of that file (whatever an older, longer file
/// left after it), `get_all_identical_blobs` on its lines gives first the
/// recorded path (for a path without line break that does not end with a
/// carriage return).
pub proof fn lemma_identical_blobs_share_ref(
    recorded: Blob,
    other: Blob,
    refs: Seq<char>,
    bytes: Seq<u8>,
    rest: Seq<char>,
    lines: Seq<String>,
)
    requires
        recorded.file_hash is None,
        other.file_hash is None,
        forall|i: int| 0 <= i < recorded.r_path@.len() ==> recorded.r_path@[i] != '\n',
        !(recorded.r_path@.len() > 0 && recorded.r_path@.last() == '\r'),
        views(lines) == crate::text::lines_of(crate::text::line_text(recorded.r_path@) + rest),
    ensures
        crate::hash::object_file(refs, recorded.content_hash(bytes)) == ref_file(refs, bytes),
        crate::hash::object_file(refs, other.content_hash(bytes)) == ref_file(refs, bytes),
        lines.len() > 0,
        lines[0]@ == recorded.r_path@,
{
    crate::text::lemma_first_line_written(recorded.r_path@, rest);
    assert(views(lines)[0] == lines[0]@);
}

/// Writes the text of a blob object (see `blob_record`).
pub fn blob_ref_content(
    file_name: &str,
    ts_remote: &str,
    size: u64,
    secs: u64,
    file_hash: &str,
) -> (r: String)
    ensures
        r@ == blob_record(file_name@, ts_remote@, size, secs, file_hash@),
{
    proof {
        reveal_strlit(" ");
        assert(" "@ =~= seq![' ']);
    }
    let mut content = String::from_str(file_name);
    content.append(" ");
    content.append(ts_remote);
    content.append(" ");
    let s = u64_to_decimal(size);
    content.append(s.as_str());
    content.append(" ");
    let t = u64_to_decimal(secs);
    content.append(t.as_str());
    content.append(" ");
    content.append(file_hash);
    content.append(" ");
    content
}

} // verus!
