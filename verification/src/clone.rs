//! Cloning a remote: the walk of its folders, one listing at a time, what is
//! done for each folder listed, and the remote kept in the configuration.

use vstd::prelude::*;
use vstd::string::*;
use crate::props::{ObjProps, PropsView, ApiProps};
use crate::text::chars_of;

verus! {

/// The name of a host without its scheme (`https://` or `http://`).
pub open spec fn host_name(host: Seq<char>) -> Seq<char> {
    if crate::text::starts_with(host, "https://"@) {
        host.subrange(8, host.len() as int)
    } else if crate::text::starts_with(host, "http://"@) {
        host.subrange(7, host.len() as int)
    } else {
        host
    }
}

/// The remote as the configuration keeps it: `user@host/root`, the host
/// without its scheme.
pub open spec fn remote_setting(api: ApiProps) -> Seq<char> {
    api.username@ + seq!['@'] + host_name(api.host@) + api.root@
}

/// The remote that a clone keeps in the configuration is read back (see
/// `get_url_props`, and so `api::get_api_props`) as the remote it cloned: its
/// host, user name and root. This holds for a host reached over `https://`
/// whose name holds no `/` or `@`, a root that starts with `/`, holds no `@`
/// and does not itself start with a WebDAV user directory, and no line break.
pub proof fn lemma_remote_setting_read_back(api: ApiProps)
    requires
        crate::text::starts_with(api.host@, "https://"@),
        api.host@.len() > 8,
        forall|i: int|
            8 <= i < api.host@.len() ==> api.host@[i] != '/' && api.host@[i] != '@' && api.host@[i] != '\n',
        forall|i: int| 0 <= i < api.username@.len() ==> api.username@[i] != '\n',
        api.root@.len() > 0,
        api.root@[0] == '/',
        forall|i: int| 0 <= i < api.root@.len() ==> api.root@[i] != '@' && api.root@[i] != '\n',
        !(crate::text::occurs_at(api.root@, crate::url::dav_prefix(), 0) && crate::url::first_from(
            api.root@,
            '/',
            23,
        ) is Some),
    ensures
        crate::url::url_props(remote_setting(api)) == (api.host@, Some(api.username@), api.root@),
{
    reveal_strlit("https://");
    reveal_strlit("http://");
    let h = api.host@.subrange(8, api.host@.len() as int);
    assert forall|i: int| 0 <= i < h.len() implies h[i] != '/' && h[i] != '@' && h[i] != '\n' by {
        assert(h[i] == api.host@[i + 8]);
    }
    crate::url::lemma_user_form_read_back(api.username@, h, api.root@);
    assert(host_name(api.host@) == h);
    assert(remote_setting(api) =~= api.username@ + seq!['@'] + h + api.root@);
    if crate::text::starts_with(h, "http://"@) {
        assert(h[5] == "http://"@[5]);
    }
    if crate::text::starts_with(h, "https://"@) {
        assert(h[6] == "https://"@[6]);
    }
    assert(api.host@ =~= "https://"@ + h) by {
        assert(api.host@.subrange(0, 8) == "https://"@);
    }
}

/// The remote to keep in the configuration: the user name, `@`, the host
/// without its scheme (`https://` or `http://`), then the root.
pub fn remote_config(api: &ApiProps) -> (r: String)
    requires
        crate::text::starts_with(api.host@, "https://"@) || crate::text::starts_with(api.host@, "http://"@),
    ensures
        r@ == remote_setting(*api),
        crate::text::starts_with(api.host@, "https://"@) ==> r@ == api.username@ + seq!['@']
            + api.host@.subrange(8, api.host@.len() as int) + api.root@,
        crate::text::starts_with(api.host@, "http://"@) ==> r@ == api.username@ + seq!['@']
            + api.host@.subrange(7, api.host@.len() as int) + api.root@,
{
    proof {
        reveal_strlit("https://");
        reveal_strlit("http://");
        reveal_strlit("@");
        if crate::text::starts_with(api.host@, "https://"@) && crate::text::starts_with(api.host@, "http://"@) {
            assert(api.host@[4] == "https://"@[4]);
            assert(api.host@[4] == "http://"@[4]);
        }
    }
    let host = match crate::props::strip_prefix_str(api.host.as_str(), "https://") {
        Some(h) => h,
        None => match crate::props::strip_prefix_str(api.host.as_str(), "http://") {
            Some(h) => h,
            None => String::new(),
        },
    };
    let mut out = api.username.clone();
    out.append("@");
    out.append(host.as_str());
    out.append(api.root.as_str());
    assert(out@ =~= remote_setting(*api));
    out
}

/// The name of the folder a clone goes into: the last component of the
/// remote directory (`/` for the root). `None` when the directory has none.
pub fn clone_dest_name(dist: &str) -> (r: Option<String>)
    ensures
        crate::paths::full_components(dist@).len() == 0 ==> r is None,
        crate::paths::full_components(dist@).len() > 0 ==> (r matches Some(s) && s@
            == crate::paths::full_components(dist@).last()),
{
    let cs = crate::paths::full_path_components(dist);
    if cs.len() == 0 {
        None
    } else {
        assert(crate::paths::views(cs@).last() == cs@.last()@);
        Some(cs[cs.len() - 1].clone())
    }
}

/// What is done for a folder listed: the root is initialised (a repository,
/// with its remote); any other folder is created and noted, with its date.
pub enum CloneAction {
    InitRoot,
    AddFolder { relative_s: String, date: String },
}

/// Whether every object of a listing but the first has a non-empty address.
pub open spec fn addresses_known(objs: Seq<PropsView>) -> bool {
    forall|i: int| 1 <= i < objs.len() ==> ((#[trigger] objs[i]).href matches Some(h) && h.len() > 0)
}

/// The objects `objs` sorted in order into folders (address ending with `/`)
/// and files, after those of `st`.
pub open spec fn split_listing(st: (Seq<PropsView>, Seq<PropsView>), objs: Seq<PropsView>) -> (
    Seq<PropsView>,
    Seq<PropsView>,
)
    decreases objs.len(),
{
    if objs.len() == 0 {
        st
    } else {
        let prev = split_listing(st, objs.drop_last());
        if crate::remote::is_dir_view(objs.last()) {
            (prev.0.push(objs.last()), prev.1)
        } else {
            (prev.0, prev.1.push(objs.last()))
        }
    }
}

/// The objects of a listing after the first (the listed folder itself).
pub open spec fn listing_rest(objs: Seq<PropsView>) -> Seq<PropsView> {
    if objs.len() == 0 {
        objs
    } else {
        objs.drop_first()
    }
}

/// Every object of a listing after the first goes to exactly one of the
/// folders to list and the files.
pub proof fn lemma_listing_split_is_a_partition(st: (Seq<PropsView>, Seq<PropsView>), objs: Seq<PropsView>)
    ensures
        split_listing(st, objs).0.len() + split_listing(st, objs).1.len() == st.0.len() + st.1.len()
            + objs.len(),
        split_listing(st, objs).0.len() >= st.0.len(),
        split_listing(st, objs).1.len() >= st.1.len(),
    decreases objs.len(),
{
    if objs.len() > 0 {
        lemma_listing_split_is_a_partition(st, objs.drop_last());
    }
}

/// The walk of a clone: the folders still to list (the last one first), the
/// files found, and whether the next listing is the root's.
pub struct CloneWalk {
    pub folders: Vec<ObjProps>,
    pub files: Vec<ObjProps>,
    pub first_iter: bool,
}

impl CloneWalk {
    /// Starts with the root to list, as an object with nothing known.
    pub fn new() -> (r: CloneWalk)
        ensures
            crate::props::props_views(r.folders@) == seq![crate::props::empty_view()],
            r.files@.len() == 0,
            r.first_iter,
    {
        let folders = vec![ObjProps::new()];
        assert(crate::props::props_views(folders@) =~= seq![crate::props::empty_view()]);
        CloneWalk { folders, files: Vec::new(), first_iter: true }
    }

    /// Takes the next folder to list (the last one added); `None` when no folder is left.
    pub fn next_folder(&mut self) -> (r: Option<ObjProps>)
        ensures
            old(self).folders@.len() == 0 ==> r is None && final(self).folders@ == old(self).folders@,
            old(self).folders@.len() > 0 ==> r == Some(old(self).folders@.last())
                && final(self).folders@ == old(self).folders@.drop_last(),
            final(self).files == old(self).files,
            final(self).first_iter == old(self).first_iter,
    {
        self.folders.pop()
    }

    /// The path to request for a folder: its relative path (empty when unknown).
    pub fn request_path(folder: &ObjProps) -> (r: String)
        ensures
            r@ == crate::remote::rel_of(folder@),
    {
        match &folder.relative_s {
            Some(r) => r.clone(),
            None => String::new(),
        }
    }

    /// Takes the listing `objs` of `folder` (its first object being the folder
    /// itself): the action for the folder (the root is initialised, another
    /// folder is created and noted with its date), then the other objects sorted
    /// into folders to list and files (see `split_listing`). `None`, with nothing
    /// changed, when a folder other than the root has no date or an object of
    /// the listing has no address.
    pub fn take_listing(&mut self, folder: &ObjProps, objs: &Vec<ObjProps>) -> (r: Option<CloneAction>)
        ensures
            r is None <==> (!old(self).first_iter && folder.lastmodified is None) || !addresses_known(
                crate::props::props_views(objs@),
            ),
            r is None ==> *final(self) == *old(self),
            r matches Some(a) ==> {
                &&& !final(self).first_iter
                &&& old(self).first_iter ==> a is InitRoot
                &&& !old(self).first_iter ==> (a matches CloneAction::AddFolder { relative_s, date } && relative_s@
                    == crate::remote::rel_of(folder@) && date@ == crate::text::signed_decimal(
                    folder.lastmodified.unwrap() as int,
                ))
                &&& (crate::props::props_views(final(self).folders@), crate::props::props_views(final(self).files@))
                    == split_listing(
                    (crate::props::props_views(old(self).folders@), crate::props::props_views(old(self).files@)),
                    listing_rest(crate::props::props_views(objs@)),
                )
            },
    {
        let ghost ov = crate::props::props_views(objs@);
        let mut i: usize = 1;
        while i < objs.len()
            invariant
                ov == crate::props::props_views(objs@),
                1 <= i || objs@.len() == 0,
                forall|k: int| 1 <= k < i && k < objs@.len() ==> ((#[trigger] ov[k]).href matches Some(h) && h.len() > 0),
            decreases objs@.len() - i,
        {
            match &objs[i].href {
                Some(h) => {
                    if h.unicode_len() == 0 {
                        assert(!addresses_known(ov)) by {
                            assert(ov[i as int] == objs@[i as int]@);
                        }
                        return None;
                    }
                },
                None => {
                    assert(!addresses_known(ov)) by {
                        assert(ov[i as int] == objs@[i as int]@);
                    }
                    return None;
                },
            }
            assert(ov[i as int] == objs@[i as int]@);
            i = i + 1;
        }
        assert(addresses_known(ov));
        let action = if self.first_iter {
            CloneAction::InitRoot
        } else {
            match folder.lastmodified {
                Some(t) => CloneAction::AddFolder {
                    relative_s: CloneWalk::request_path(folder),
                    date: crate::text::i64_to_decimal(t),
                },
                None => {
                    return None;
                },
            }
        };
        let ghost rest = listing_rest(ov);
        let ghost st0 = (crate::props::props_views(self.folders@), crate::props::props_views(self.files@));
        let mut j: usize = 1;
        while j < objs.len()
            invariant
                ov == crate::props::props_views(objs@),
                rest == listing_rest(ov),
                1 <= j || objs@.len() == 0,
                j <= objs@.len() || objs@.len() == 0,
                (crate::props::props_views(self.folders@), crate::props::props_views(self.files@)) == split_listing(
                    st0,
                    rest.subrange(0, if objs@.len() == 0 { 0 } else { j - 1 }),
                ),
            decreases objs@.len() - j,
        {
            let o = &objs[j];
            assert(rest.subrange(0, j as int).drop_last() =~= rest.subrange(0, j - 1));
            assert(rest.subrange(0, j as int).last() == o@);
            if o.is_dir() {
                let ghost before = self.folders@;
                self.folders.push(o.duplicate());
                assert(crate::props::props_views(self.folders@) =~= crate::props::props_views(before).push(o@));
            } else {
                let ghost before = self.files@;
                self.files.push(o.duplicate());
                assert(crate::props::props_views(self.files@) =~= crate::props::props_views(before).push(o@));
            }
            j = j + 1;
        }
        if objs.len() > 0 {
            assert(rest.subrange(0, objs@.len() - 1) =~= rest);
        } else {
            assert(rest =~= Seq::<PropsView>::empty());
        }
        self.first_iter = false;
        Some(action)
    }
}

} // verus!
