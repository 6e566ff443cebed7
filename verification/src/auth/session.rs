//! Sessions: who is acting, and on whose behalf.

use vstd::prelude::*;
use super::perms::{bits_allow, check_bits, Access};
use super::{contains_id, copy_ids, first_id, first_or_zero, Gid, Uid, User, ROOT_UID, WHEEL_GID};
use crate::fs::inode::Inode;
use crate::text::owned;

verus! {

/// The user an agent is acting on behalf of.
#[derive(Debug, Clone)]
pub struct DelegateContext {
    pub uid: Uid,
    pub gid: Gid,
    pub groups: Vec<Gid>,
    pub username: String,
}

/// The identity of a client. When `delegate` is set, the session acts on
/// behalf of that user, and every permission check requires both the
/// principal and the delegate to have access.
#[derive(Debug, Clone)]
pub struct Session {
    pub uid: Uid,
    pub gid: Gid,
    pub groups: Vec<Gid>,
    pub username: String,
    pub delegate: Option<DelegateContext>,
}

impl Session {
    /// Whether the session may make `access` to an object with the given
    /// mode, owner and group: the principal must be allowed, and so must the
    /// delegate if there is one.
    pub open spec fn allows(&self, mode: u16, owner: Uid, group: Gid, access: Access) -> bool {
        &&& bits_allow(self.uid, self.groups@, mode, owner, group, access)
        &&& (self.delegate matches Some(d) ==> bits_allow(
            d.uid,
            d.groups@,
            mode,
            owner,
            group,
            access,
        ))
    }

    pub open spec fn spec_effective_uid(&self) -> Uid {
        match self.delegate {
            Some(d) => d.uid,
            None => self.uid,
        }
    }

    pub open spec fn spec_effective_gid(&self) -> Gid {
        match self.delegate {
            Some(d) => d.gid,
            None => self.gid,
        }
    }

    pub open spec fn spec_is_effectively_root(&self) -> bool {
        self.uid == ROOT_UID && (self.delegate matches Some(d) ==> d.uid == ROOT_UID)
    }

    pub open spec fn spec_can_read_anywhere(&self) -> bool {
        &&& (self.uid == ROOT_UID || self.groups@.contains(WHEEL_GID))
        &&& (self.delegate matches Some(d) ==> (d.uid == ROOT_UID || d.groups@.contains(WHEEL_GID)))
    }

    pub open spec fn spec_is_effective_owner(&self, file_uid: Uid) -> bool {
        &&& (self.uid == ROOT_UID || self.uid == file_uid)
        &&& (self.delegate matches Some(d) ==> (d.uid == ROOT_UID || d.uid == file_uid))
    }

    /// A session of the given user, acting for itself.
    pub fn new(uid: Uid, gid: Gid, groups: Vec<Gid>, username: String) -> (r: Self)
        ensures
            r.uid == uid,
            r.gid == gid,
            r.groups@ == groups@,
            r.username@ == username@,
            r.delegate is None,
    {
        Session { uid, gid, groups, username, delegate: None }
    }

    /// The session of a registered user, acting for itself: its primary
    /// group is the first of its groups, or 0 when it has none.
    pub fn for_user(user: &User) -> (r: Self)
        ensures
            r.uid == user.uid,
            r.gid == first_or_zero(user.groups@),
            r.groups@ == user.groups@,
            r.username@ == user.name@,
            r.delegate is None,
    {
        Session::new(user.uid, first_id(&user.groups), copy_ids(&user.groups), owned(user.name.as_str()))
    }

    /// The root session: uid 0, gid 0, groups root and wheel.
    pub fn root() -> (r: Self)
        ensures
            r.uid == ROOT_UID,
            r.gid == 0,
            r.groups@ == seq![0u32, 1u32],
            r.username@ == "root"@,
            r.delegate is None,
    {
        let mut groups: Vec<Gid> = Vec::new();
        groups.push(0);
        groups.push(1);
        Session { uid: ROOT_UID, gid: 0, groups, username: owned("root"), delegate: None }
    }

    /// Whether the principal is root.
    pub fn is_root(&self) -> (r: bool)
        ensures
            r == (self.uid == ROOT_UID),
    {
        self.uid == ROOT_UID
    }

    /// Permission check on an inode with delegation intersection.
    pub fn has_permission(&self, inode: &Inode, access: Access) -> (r: bool)
        ensures
            r == self.allows(inode.mode, inode.uid, inode.gid, access),
    {
        self.has_permission_bits(inode.mode, inode.uid, inode.gid, access)
    }

    /// Permission check on raw mode, owner and group, with delegation
    /// intersection.
    pub fn has_permission_bits(&self, mode: u16, file_uid: Uid, file_gid: Gid, access: Access) -> (r:
        bool)
        ensures
            r == self.allows(mode, file_uid, file_gid, access),
    {
        if !check_bits(self.uid, self.groups.as_slice(), mode, file_uid, file_gid, access) {
            return false;
        }
        match &self.delegate {
            Some(d) => check_bits(d.uid, d.groups.as_slice(), mode, file_uid, file_gid, access),
            None => true,
        }
    }

    /// The uid that new files are owned by: the delegate's when delegating.
    pub fn effective_uid(&self) -> (r: Uid)
        ensures
            r == self.spec_effective_uid(),
    {
        match &self.delegate {
            Some(d) => d.uid,
            None => self.uid,
        }
    }

    /// The gid that new files get: the delegate's when delegating.
    pub fn effective_gid(&self) -> (r: Gid)
        ensures
            r == self.spec_effective_gid(),
    {
        match &self.delegate {
            Some(d) => d.gid,
            None => self.gid,
        }
    }

    /// Whether the principal is a member of the wheel group.
    pub fn is_wheel(&self) -> (r: bool)
        ensures
            r == self.groups@.contains(WHEEL_GID),
    {
        contains_id(self.groups.as_slice(), WHEEL_GID)
    }

    /// Whether the session may see every entry and read every file: the
    /// principal is root or in wheel, and so is the delegate if any.
    pub fn can_read_anywhere(&self) -> (r: bool)
        ensures
            r == self.spec_can_read_anywhere(),
    {
        let principal_admin = self.uid == ROOT_UID || self.is_wheel();
        if !principal_admin {
            return false;
        }
        match &self.delegate {
            Some(d) => d.uid == ROOT_UID || contains_id(d.groups.as_slice(), WHEEL_GID),
            None => true,
        }
    }

    /// Whether the principal is uid 0 and so is the delegate, if any.
    pub fn is_effectively_root(&self) -> (r: bool)
        ensures
            r == self.spec_is_effectively_root(),
    {
        if self.uid != ROOT_UID {
            return false;
        }
        match &self.delegate {
            Some(d) => d.uid == ROOT_UID,
            None => true,
        }
    }

    /// Whether the principal (and the delegate, if any) is root or the
    /// owner `file_uid`.
    pub fn is_effective_owner(&self, file_uid: Uid) -> (r: bool)
        ensures
            r == self.spec_is_effective_owner(file_uid),
    {
        match &self.delegate {
            Some(d) => {
                let principal_ok = self.uid == ROOT_UID || self.uid == file_uid;
                let delegate_ok = d.uid == ROOT_UID || d.uid == file_uid;
                principal_ok && delegate_ok
            },
            None => self.uid == ROOT_UID || self.uid == file_uid,
        }
    }
}

} // verus!
