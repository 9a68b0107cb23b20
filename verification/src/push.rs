//! Deciding, object by object, whether a staged change can be pushed.

use vstd::prelude::*;
use vstd::string::*;
use crate::status::{LocalObj, State};
use crate::paths::starts_with_path;

verus! {

/// What to do with a staged change.
#[derive(PartialEq, Eq, Structural, Clone, Copy)]
pub enum PushState {
    Done,
    Valid,
    Conflict,
    Error,
}

/// Where a change stands against the server.
#[derive(PartialEq, Eq, Structural, Clone, Copy)]
pub enum PushFlowState {
    Whitelisted,
    NotOnRemote,
    RemoteIsNewer,
    LocalIsNewer,
    Error,
}

/// What the server answered about a path: found with its last modification
/// (milliseconds since the epoch), not found (404), or another failure.
#[derive(PartialEq, Eq, Structural, Clone, Copy)]
pub enum RemoteLookup {
    Found(i64),
    Missing,
    Failed,
}

/// Whether `obj` lies under the whitelisted path (component by component).
pub open spec fn whitelisted(obj: LocalObj, whitelist: Option<String>) -> bool {
    match whitelist {
        Some(p) => crate::paths::path_starts_with(obj.path@, p@),
        None => false,
    }
}

/// Whether `obj` lies under the whitelisted path.
pub fn is_whitelisted(obj: &LocalObj, path: &Option<String>) -> (r: bool)
    ensures
        r == whitelisted(*obj, *path),
{
    match path {
        Some(p) => starts_with_path(obj.path.as_str(), p.as_str()),
        None => false,
    }
}

/// Where a change stands: whitelisted when under the whitelisted path; else
/// by what the server answered, newer on the server when the date of the last
/// synchronisation is before the server's date.
pub open spec fn flow_state(
    obj: LocalObj,
    whitelist: Option<String>,
    remote: RemoteLookup,
    last_sync_ts: Option<i64>,
) -> PushFlowState {
    if whitelisted(obj, whitelist) {
        PushFlowState::Whitelisted
    } else {
        match remote {
            RemoteLookup::Missing => PushFlowState::NotOnRemote,
            RemoteLookup::Failed => PushFlowState::Error,
            RemoteLookup::Found(remote_ts) => if last_sync_ts->Some_0 < remote_ts {
                PushFlowState::RemoteIsNewer
            } else {
                PushFlowState::LocalIsNewer
            },
        }
    }
}

/// Where the change of `obj` stands (see `flow_state`); `last_sync_ts` is the
/// date recorded at the last synchronisation, needed when the server has the path.
pub fn flow(
    obj: &LocalObj,
    whitelist: &Option<String>,
    remote: RemoteLookup,
    last_sync_ts: Option<i64>,
) -> (r: PushFlowState)
    requires
        remote is Found ==> last_sync_ts is Some,
    ensures
        r == flow_state(*obj, *whitelist, remote, last_sync_ts),
{
    if is_whitelisted(obj, whitelist) {
        return PushFlowState::Whitelisted;
    }
    match remote {
        RemoteLookup::Missing => PushFlowState::NotOnRemote,
        RemoteLookup::Failed => PushFlowState::Error,
        RemoteLookup::Found(remote_ts) => {
            let last = match last_sync_ts {
                Some(t) => t,
                None => 0,
            };
            if last < remote_ts {
                PushFlowState::RemoteIsNewer
            } else {
                PushFlowState::LocalIsNewer
            }
        },
    }
}

/// A new file.
pub struct New {
    pub obj: LocalObj,
}

/// A new directory.
pub struct NewDir {
    pub obj: LocalObj,
}

/// A deleted directory.
pub struct RmDir {
    pub obj: LocalObj,
}

/// A deleted file.
pub struct Deleted {
    pub obj: LocalObj,
}

/// A copied file.
pub struct Copied {
    pub obj: LocalObj,
}

/// A modified file.
pub struct Modified {
    pub obj: LocalObj,
}

/// The decision for a new file.
pub open spec fn new_decision(f: PushFlowState) -> PushState {
    match f {
        PushFlowState::Whitelisted => PushState::Valid,
        PushFlowState::NotOnRemote => PushState::Valid,
        PushFlowState::RemoteIsNewer => PushState::Conflict,
        PushFlowState::LocalIsNewer => PushState::Valid,
        PushFlowState::Error => PushState::Error,
    }
}

/// The decision for a deleted file.
pub open spec fn deleted_decision(f: PushFlowState) -> PushState {
    match f {
        PushFlowState::Whitelisted => PushState::Done,
        PushFlowState::NotOnRemote => PushState::Done,
        PushFlowState::RemoteIsNewer => PushState::Conflict,
        PushFlowState::LocalIsNewer => PushState::Valid,
        PushFlowState::Error => PushState::Error,
    }
}

/// The decision for a copied file.
pub open spec fn copied_decision(f: PushFlowState) -> PushState {
    match f {
        PushFlowState::Whitelisted => PushState::Done,
        PushFlowState::NotOnRemote => PushState::Valid,
        PushFlowState::RemoteIsNewer => PushState::Conflict,
        PushFlowState::LocalIsNewer => PushState::Conflict,
        PushFlowState::Error => PushState::Error,
    }
}

/// The decision for a modified file.
pub open spec fn modified_decision(f: PushFlowState) -> PushState {
    match f {
        PushFlowState::Whitelisted => PushState::Done,
        PushFlowState::NotOnRemote => PushState::Valid,
        PushFlowState::RemoteIsNewer => PushState::Conflict,
        PushFlowState::LocalIsNewer => PushState::Valid,
        PushFlowState::Error => PushState::Error,
    }
}

/// The decision for a new directory.
pub open spec fn new_dir_decision(f: PushFlowState) -> PushState {
    match f {
        PushFlowState::Whitelisted => PushState::Valid,
        PushFlowState::NotOnRemote => PushState::Valid,
        PushFlowState::RemoteIsNewer => PushState::Conflict,
        PushFlowState::LocalIsNewer => PushState::Done,
        PushFlowState::Error => PushState::Error,
    }
}

/// The decision for a deleted directory.
pub open spec fn rm_dir_decision(f: PushFlowState) -> PushState {
    match f {
        PushFlowState::Whitelisted => PushState::Done,
        PushFlowState::NotOnRemote => PushState::Done,
        PushFlowState::RemoteIsNewer => PushState::Conflict,
        PushFlowState::LocalIsNewer => PushState::Valid,
        PushFlowState::Error => PushState::Error,
    }
}

impl New {
    /// Whether the file can be pushed, given where it stands.
    pub fn can_push(&self, flow: PushFlowState, whitelist: &mut Option<String>) -> (r: PushState)
        ensures
            r == new_decision(flow),
            *final(whitelist) == *old(whitelist),
    {
        match flow {
            PushFlowState::Whitelisted => PushState::Valid,
            PushFlowState::NotOnRemote => PushState::Valid,
            PushFlowState::RemoteIsNewer => PushState::Conflict,
            PushFlowState::LocalIsNewer => PushState::Valid,
            PushFlowState::Error => PushState::Error,
        }
    }
}

impl Deleted {
    /// Whether the deletion can be pushed, given where the file stands.
    pub fn can_push(&self, flow: PushFlowState, whitelist: &mut Option<String>) -> (r: PushState)
        ensures
            r == deleted_decision(flow),
            *final(whitelist) == *old(whitelist),
    {
        match flow {
            PushFlowState::Whitelisted => PushState::Done,
            PushFlowState::NotOnRemote => PushState::Done,
            PushFlowState::RemoteIsNewer => PushState::Conflict,
            PushFlowState::LocalIsNewer => PushState::Valid,
            PushFlowState::Error => PushState::Error,
        }
    }
}

impl Copied {
    /// Whether the copy can be pushed, given where the copy stands.
    pub fn can_push(&self, flow: PushFlowState, whitelist: &mut Option<String>) -> (r: PushState)
        ensures
            r == copied_decision(flow),
            *final(whitelist) == *old(whitelist),
    {
        match flow {
            PushFlowState::Whitelisted => PushState::Done,
            PushFlowState::NotOnRemote => PushState::Valid,
            PushFlowState::RemoteIsNewer => PushState::Conflict,
            PushFlowState::LocalIsNewer => PushState::Conflict,
            PushFlowState::Error => PushState::Error,
        }
    }
}

impl Modified {
    /// Whether the modification can be pushed, given where the file stands.
    pub fn can_push(&self, flow: PushFlowState, whitelist: &mut Option<String>) -> (r: PushState)
        ensures
            r == modified_decision(flow),
            *final(whitelist) == *old(whitelist),
    {
        match flow {
            PushFlowState::Whitelisted => PushState::Done,
            PushFlowState::NotOnRemote => PushState::Valid,
            PushFlowState::RemoteIsNewer => PushState::Conflict,
            PushFlowState::LocalIsNewer => PushState::Valid,
            PushFlowState::Error => PushState::Error,
        }
    }
}

impl NewDir {
    /// Whether the directory can be created, given where it stands; when the
    /// server lacks it or has an older one, its contents are whitelisted.
    pub fn can_push(&self, flow: PushFlowState, whitelist: &mut Option<String>) -> (r: PushState)
        ensures
            r == new_dir_decision(flow),
            (flow == PushFlowState::NotOnRemote || flow == PushFlowState::LocalIsNewer) ==> *final(whitelist) == Some(self.obj.path),
            !(flow == PushFlowState::NotOnRemote || flow == PushFlowState::LocalIsNewer) ==> *final(whitelist) == *old(whitelist),
    {
        match flow {
            PushFlowState::Whitelisted => PushState::Valid,
            PushFlowState::NotOnRemote => {
                *whitelist = Some(self.obj.path.clone());
                PushState::Valid
            },
            PushFlowState::RemoteIsNewer => PushState::Conflict,
            PushFlowState::LocalIsNewer => {
                *whitelist = Some(self.obj.path.clone());
                PushState::Done
            },
            PushFlowState::Error => PushState::Error,
        }
    }
}

impl RmDir {
    /// Whether the directory can be removed, given where it stands; when the
    /// server lacks it or has an older one, its contents are whitelisted.
    pub fn can_push(&self, flow: PushFlowState, whitelist: &mut Option<String>) -> (r: PushState)
        ensures
            r == rm_dir_decision(flow),
            (flow == PushFlowState::NotOnRemote || flow == PushFlowState::LocalIsNewer) ==> *final(whitelist) == Some(self.obj.path),
            !(flow == PushFlowState::NotOnRemote || flow == PushFlowState::LocalIsNewer) ==> *final(whitelist) == *old(whitelist),
    {
        match flow {
            PushFlowState::Whitelisted => PushState::Done,
            PushFlowState::NotOnRemote => {
                *whitelist = Some(self.obj.path.clone());
                PushState::Done
            },
            PushFlowState::RemoteIsNewer => PushState::Conflict,
            PushFlowState::LocalIsNewer => {
                *whitelist = Some(self.obj.path.clone());
                PushState::Valid
            },
            PushFlowState::Error => PushState::Error,
        }
    }
}

/// A staged change, by kind.
pub enum PushChange {
    New(New),
    NewDir(NewDir),
    RmDir(RmDir),
    Deleted(Deleted),
    Copied(Copied),
    Modified(Modified),
}

impl PushChange {
    /// The object of the change.
    pub open spec fn obj(&self) -> LocalObj {
        match self {
            PushChange::New(c) => c.obj,
            PushChange::NewDir(c) => c.obj,
            PushChange::RmDir(c) => c.obj,
            PushChange::Deleted(c) => c.obj,
            PushChange::Copied(c) => c.obj,
            PushChange::Modified(c) => c.obj,
        }
    }

    /// The decision table of the change's kind.
    pub open spec fn decision(&self, f: PushFlowState) -> PushState {
        match self {
            PushChange::New(_) => new_decision(f),
            PushChange::NewDir(_) => new_dir_decision(f),
            PushChange::RmDir(_) => rm_dir_decision(f),
            PushChange::Deleted(_) => deleted_decision(f),
            PushChange::Copied(_) => copied_decision(f),
            PushChange::Modified(_) => modified_decision(f),
        }
    }

    /// Whether the change can be pushed, given where it stands.
    pub fn can_push(&self, flow: PushFlowState, whitelist: &mut Option<String>) -> (r: PushState)
        ensures
            r == self.decision(flow),
            ((self is NewDir || self is RmDir) && (flow == PushFlowState::NotOnRemote || flow
                == PushFlowState::LocalIsNewer)) ==> *final(whitelist) == Some(self.obj().path),
            !((self is NewDir || self is RmDir) && (flow == PushFlowState::NotOnRemote || flow
                == PushFlowState::LocalIsNewer)) ==> *final(whitelist) == *old(whitelist),
    {
        match self {
            PushChange::New(c) => c.can_push(flow, whitelist),
            PushChange::NewDir(c) => c.can_push(flow, whitelist),
            PushChange::RmDir(c) => c.can_push(flow, whitelist),
            PushChange::Deleted(c) => c.can_push(flow, whitelist),
            PushChange::Copied(c) => c.can_push(flow, whitelist),
            PushChange::Modified(c) => c.can_push(flow, whitelist),
        }
    }
}

/// Builds the change of a staged object.
pub struct PushFactory;

impl PushFactory {
    /// The change of a staged file: new, deleted or modified (other states are
    /// not handled).
    pub fn new(&self, obj: LocalObj) -> (r: PushChange)
        requires
            obj.state == State::New || obj.state == State::Deleted || obj.state == State::Modified,
        ensures
            obj.state == State::New ==> r is New,
            obj.state == State::Deleted ==> r is Deleted,
            obj.state == State::Modified ==> r is Modified,
            r.obj() == obj,
    {
        match obj.state {
            State::New => PushChange::New(New { obj }),
            State::Modified => PushChange::Modified(Modified { obj }),
            _ => PushChange::Deleted(Deleted { obj }),
        }
    }

    /// The change of a staged directory: new or deleted. No change of a
    /// modified directory exists (a directory is pushed by creating or
    /// removing it), so other states are not handled.
    pub fn new_dir(&self, obj: LocalObj) -> (r: PushChange)
        requires
            obj.state == State::New || obj.state == State::Deleted,
        ensures
            obj.state == State::New ==> r is NewDir,
            obj.state == State::Deleted ==> r is RmDir,
            r.obj() == obj,
    {
        match obj.state {
            State::New => PushChange::NewDir(NewDir { obj }),
            _ => PushChange::RmDir(RmDir { obj }),
        }
    }
}

/// Whether a staged object is a folder.
pub open spec fn is_tree(obj: LocalObj) -> bool {
    obj.otype@ == "tree"@
}

/// Whether a change of the staged object can be built: a new or deleted
/// object, or a modified file.
pub open spec fn buildable(obj: LocalObj) -> bool {
    obj.state == State::New || obj.state == State::Deleted || (obj.state == State::Modified && !is_tree(obj))
}

impl PushFactory {
    /// The change of a staged object: a folder's (see `new_dir`) for a tree,
    /// a file's (see `new`) otherwise; `None` when none can be built.
    pub fn change_of(&self, obj: LocalObj) -> (r: Option<PushChange>)
        ensures
            r is Some <==> buildable(obj),
            r matches Some(c) ==> {
                &&& c.obj() == obj
                &&& is_tree(obj) ==> (obj.state == State::New ==> c is NewDir) && (obj.state
                    == State::Deleted ==> c is RmDir)
                &&& !is_tree(obj) ==> (obj.state == State::New ==> c is New) && (obj.state
                    == State::Deleted ==> c is Deleted) && (obj.state == State::Modified ==> c is Modified)
            },
    {
        let tree = crate::text::str_eq(obj.otype.as_str(), "tree");
        let handled = match obj.state {
            State::New => true,
            State::Deleted => true,
            State::Modified => !tree,
            _ => false,
        };
        if !handled {
            return None;
        }
        if tree {
            Some(self.new_dir(obj))
        } else {
            Some(self.new(obj))
        }
    }
}

/// A change whose server copy is newer is never pushed: it is a conflict,
/// whatever its kind.
pub proof fn lemma_remote_newer_conflicts(c: PushChange)
    ensures
        c.decision(PushFlowState::RemoteIsNewer) == PushState::Conflict,
{
}

/// An error in finding where a change stands is reported as an error, whatever its kind.
pub proof fn lemma_flow_error_is_error(c: PushChange)
    ensures
        c.decision(PushFlowState::Error) == PushState::Error,
{
}

/// A path the server has, and that is not whitelisted, stands against the
/// dates: newer on the server exactly when the server's date is later than the
/// date recorded at the last synchronisation, newer locally otherwise.
pub proof fn lemma_flow_follows_server_date(obj: LocalObj, whitelist: Option<String>, remote_ts: i64, last_sync_ts: i64)
    requires
        !whitelisted(obj, whitelist),
    ensures
        last_sync_ts < remote_ts ==> flow_state(obj, whitelist, RemoteLookup::Found(remote_ts), Some(last_sync_ts))
            == PushFlowState::RemoteIsNewer,
        remote_ts <= last_sync_ts ==> flow_state(obj, whitelist, RemoteLookup::Found(remote_ts), Some(last_sync_ts))
            == PushFlowState::LocalIsNewer,
{
}

/// Where a change stands is monotone in the server's date: a later server
/// date never makes the local side newer, and an earlier one never makes the
/// server side newer.
pub proof fn lemma_flow_monotone_in_server_date(
    obj: LocalObj,
    whitelist: Option<String>,
    earlier: i64,
    later: i64,
    last_sync_ts: i64,
)
    requires
        earlier <= later,
    ensures
        flow_state(obj, whitelist, RemoteLookup::Found(earlier), Some(last_sync_ts)) == PushFlowState::RemoteIsNewer
            ==> flow_state(obj, whitelist, RemoteLookup::Found(later), Some(last_sync_ts))
            == PushFlowState::RemoteIsNewer,
        flow_state(obj, whitelist, RemoteLookup::Found(later), Some(last_sync_ts)) == PushFlowState::LocalIsNewer
            ==> flow_state(obj, whitelist, RemoteLookup::Found(earlier), Some(last_sync_ts))
            == PushFlowState::LocalIsNewer,
{
}

/// A file change (new, modified or deleted) whose local side is newer than the
/// server's is pushed, and so is a new or modified file the server lacks.
pub proof fn lemma_local_newer_file_is_pushed(c: PushChange)
    ensures
        (c is New || c is Modified || c is Deleted) ==> c.decision(PushFlowState::LocalIsNewer)
            == PushState::Valid,
        (c is New || c is Modified) ==> c.decision(PushFlowState::NotOnRemote) == PushState::Valid,
{
}

/// A file change (new, modified or deleted) not whitelisted, on a path the
/// server has, is pushed when the server's date is not later than the last
/// synchronisation, and is a conflict when it is later.
pub proof fn lemma_file_change_against_server(c: PushChange, whitelist: Option<String>, remote_ts: i64, last_sync_ts: i64)
    requires
        c is New || c is Modified || c is Deleted,
        !whitelisted(c.obj(), whitelist),
    ensures
        remote_ts <= last_sync_ts ==> c.decision(
            flow_state(c.obj(), whitelist, RemoteLookup::Found(remote_ts), Some(last_sync_ts)),
        ) == PushState::Valid,
        last_sync_ts < remote_ts ==> c.decision(
            flow_state(c.obj(), whitelist, RemoteLookup::Found(remote_ts), Some(last_sync_ts)),
        ) == PushState::Conflict,
{
    lemma_flow_follows_server_date(c.obj(), whitelist, remote_ts, last_sync_ts);
    lemma_local_newer_file_is_pushed(c);
    lemma_remote_newer_conflicts(c);
}

/// Once a directory is whitelisted, every path below it is whitelisted too.
pub proof fn lemma_whitelist_covers_children(dir: LocalObj, child: LocalObj)
    requires
        crate::paths::path_starts_with(child.path@, dir.path@),
    ensures
        whitelisted(child, Some(dir.path)),
{
}

} // verus!
