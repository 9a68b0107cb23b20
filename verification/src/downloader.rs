//! Downloading remote files: which files, how each is fetched (streamed when
//! large), and what the progress display counts.

use vstd::prelude::*;
use crate::props::{ObjProps, PropsView, ApiProps};

verus! {

/// Files larger than this many bytes are streamed.
pub const SIZE_TO_STREAM: u64 = 2 * 1024 * 1024;

/// Whether a file is streamed: its size is known and larger than `SIZE_TO_STREAM`.
pub open spec fn streamed(o: PropsView) -> bool {
    o.contentlength matches Some(s) && s > SIZE_TO_STREAM
}

/// Whether a file is streamed (see `streamed`).
pub fn should_use_stream(file: &ObjProps) -> (r: bool)
    ensures
        r == streamed(file@),
{
    match file.contentlength {
        Some(size) => size > SIZE_TO_STREAM,
        None => false,
    }
}

/// The sum of the known sizes of `files`.
pub open spec fn known_size(files: Seq<PropsView>) -> int
    decreases files.len(),
{
    if files.len() == 0 {
        0
    } else {
        known_size(files.drop_last()) + match files.last().contentlength {
            Some(s) => s as int,
            None => 0,
        }
    }
}

/// How one file is fetched: its relative path, whether it is streamed, and
/// the bytes to count once it is written (a streamed file counts as it comes).
pub struct DownloadStep {
    pub relative_s: String,
    pub stream: bool,
    pub bytes: Option<u64>,
}

/// The files to download, whether progress is shown, and the remote.
pub struct Downloader {
    pub files: Vec<ObjProps>,
    pub should_log: bool,
    pub api_props: Option<ApiProps>,
}

/// Whether every file of `files` has a relative path and, when progress is
/// shown, a size.
pub open spec fn files_ready(files: Seq<PropsView>, should_log: bool) -> bool {
    forall|i: int|
        0 <= i < files.len() ==> (#[trigger] files[i]).relative_s is Some && (should_log
            ==> files[i].contentlength is Some)
}

/// Whether the files can be downloaded (see `files_ready`).
pub fn files_ready_check(files: &Vec<ObjProps>, should_log: bool) -> (r: bool)
    ensures
        r == files_ready(crate::props::props_views(files@), should_log),
{
    let ghost fv = crate::props::props_views(files@);
    let mut i: usize = 0;
    while i < files.len()
        invariant
            i <= files@.len(),
            fv == crate::props::props_views(files@),
            forall|k: int|
                0 <= k < i ==> (#[trigger] fv[k]).relative_s is Some && (should_log ==> fv[k].contentlength is Some),
        decreases files@.len() - i,
    {
        assert(fv[i as int] == files@[i as int]@);
        if files[i].relative_s.is_none() || (should_log && files[i].contentlength.is_none()) {
            return false;
        }
        i = i + 1;
    }
    true
}

impl Downloader {
    /// No file, no progress shown, no remote.
    pub fn new() -> (r: Downloader)
        ensures
            r.files@.len() == 0,
            !r.should_log,
            r.api_props is None,
    {
        Downloader { files: Vec::new(), should_log: false, api_props: None }
    }

    /// Shows progress.
    pub fn should_log(&mut self)
        ensures
            final(self).should_log,
            final(self).files == old(self).files,
            final(self).api_props == old(self).api_props,
    {
        self.should_log = true;
    }

    /// Sets the remote.
    pub fn set_api_props(&mut self, api_props: ApiProps)
        ensures
            final(self).api_props == Some(api_props),
            final(self).files == old(self).files,
            final(self).should_log == old(self).should_log,
    {
        self.api_props = Some(api_props);
    }

    /// Sets the files to download.
    pub fn set_files(&mut self, files: Vec<ObjProps>)
        ensures
            final(self).files == files,
            final(self).should_log == old(self).should_log,
            final(self).api_props == old(self).api_props,
    {
        self.files = files;
    }

    /// Adds a file to download.
    pub fn add_file(&mut self, file: ObjProps)
        ensures
            final(self).files@ == old(self).files@.push(file),
            final(self).should_log == old(self).should_log,
            final(self).api_props == old(self).api_props,
    {
        self.files.push(file);
    }

    /// The total of the known sizes of the files, `None` when it does not fit
    /// in a `u64`.
    pub fn total_size(&self) -> (r: Option<u64>)
        ensures
            known_size(crate::props::props_views(self.files@)) <= u64::MAX ==> r == Some(
                known_size(crate::props::props_views(self.files@)) as u64,
            ),
            known_size(crate::props::props_views(self.files@)) > u64::MAX ==> r is None,
    {
        let ghost fv = crate::props::props_views(self.files@);
        let mut total: u64 = 0;
        let mut i: usize = 0;
        while i < self.files.len()
            invariant
                i <= self.files@.len(),
                fv == crate::props::props_views(self.files@),
                total == known_size(fv.subrange(0, i as int)),
            decreases self.files@.len() - i,
        {
            assert(fv.subrange(0, i + 1).drop_last() =~= fv.subrange(0, i as int));
            assert(fv.subrange(0, i + 1).last() == self.files@[i as int]@);
            match self.files[i].contentlength {
                Some(size) => {
                    match total.checked_add(size) {
                        Some(t) => {
                            total = t;
                        },
                        None => {
                            proof {
                                lemma_known_size_grows(fv, i + 1);
                            }
                            return None;
                        },
                    }
                },
                None => {},
            }
            i = i + 1;
        }
        assert(fv.subrange(0, fv.len() as int) =~= fv);
        Some(total)
    }

    /// How each file is fetched, in order: its relative path, whether it is
    /// streamed, and, when progress is shown and it is not streamed, its size.
    pub fn plan(&self) -> (r: Vec<DownloadStep>)
        requires
            files_ready(crate::props::props_views(self.files@), self.should_log),
        ensures
            r@.len() == self.files@.len(),
            forall|i: int|
                0 <= i < r@.len() ==> {
                    &&& Some((#[trigger] r@[i]).relative_s@) == self.files@[i]@.relative_s
                    &&& r@[i].stream == streamed(self.files@[i]@)
                    &&& r@[i].bytes == if self.should_log && !r@[i].stream {
                        self.files@[i].contentlength
                    } else {
                        None
                    }
                },
    {
        let mut out: Vec<DownloadStep> = Vec::new();
        let mut i: usize = 0;
        while i < self.files.len()
            invariant
                i <= self.files@.len(),
                files_ready(crate::props::props_views(self.files@), self.should_log),
                out@.len() == i,
                forall|k: int|
                    0 <= k < i ==> {
                        &&& Some((#[trigger] out@[k]).relative_s@) == self.files@[k]@.relative_s
                        &&& out@[k].stream == streamed(self.files@[k]@)
                        &&& out@[k].bytes == if self.should_log && !out@[k].stream {
                            self.files@[k].contentlength
                        } else {
                            None
                        }
                    },
            decreases self.files@.len() - i,
        {
            let f = &self.files[i];
            assert(crate::props::props_views(self.files@)[i as int] == f@);
            let rel = match &f.relative_s {
                Some(r) => r.clone(),
                None => String::new(),
            };
            let stream = should_use_stream(f);
            let bytes = if self.should_log && !stream {
                f.contentlength
            } else {
                None
            };
            out.push(DownloadStep { relative_s: rel, stream, bytes });
            i = i + 1;
        }
        out
    }
}

proof fn lemma_known_size_grows(fv: Seq<PropsView>, k: int)
    requires
        0 <= k <= fv.len(),
    ensures
        known_size(fv.subrange(0, k)) <= known_size(fv),
    decreases fv.len() - k,
{
    if k < fv.len() {
        lemma_known_size_grows(fv, k + 1);
        assert(fv.subrange(0, k + 1).drop_last() =~= fv.subrange(0, k));
    } else {
        assert(fv.subrange(0, k) =~= fv);
    }
}

} // verus!
