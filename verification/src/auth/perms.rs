//! Unix-style permission bits.

use vstd::prelude::*;
use super::{contains_id, Gid, Uid, ROOT_UID};
use crate::fs::inode::Inode;

verus! {

/// The kind of access asked for.
#[derive(Debug, Clone, Copy, PartialEq, Eq, Structural)]
pub enum Access {
    Read,
    Write,
    Execute,
}

/// The bit of a permission triple that an access needs.
pub open spec fn access_bit(access: Access) -> u16 {
    match access {
        Access::Read => 4,
        Access::Write => 2,
        Access::Execute => 1,
    }
}

/// Whether user `uid` in `groups` may make `access` to an object with
/// `mode`, owner `owner` and group `group`: root may do anything; the
/// owner is judged by the owner bits, a member of the object's group by the
/// group bits, anyone else by the other bits.
pub open spec fn bits_allow(
    uid: Uid,
    groups: Seq<Gid>,
    mode: u16,
    owner: Uid,
    group: Gid,
    access: Access,
) -> bool {
    if uid == ROOT_UID {
        true
    } else if uid == owner {
        (mode >> 6u16) & access_bit(access) != 0
    } else if groups.contains(group) {
        (mode >> 3u16) & access_bit(access) != 0
    } else {
        mode & access_bit(access) != 0
    }
}

fn bit_of(access: Access) -> (r: u16)
    ensures
        r == access_bit(access),
{
    match access {
        Access::Read => 4,
        Access::Write => 2,
        Access::Execute => 1,
    }
}

/// Raw bit-level permission check for a single principal.
pub fn check_bits(
    uid: Uid,
    groups: &[Gid],
    mode: u16,
    file_uid: Uid,
    file_gid: Gid,
    access: Access,
) -> (r: bool)
    ensures
        r == bits_allow(uid, groups@, mode, file_uid, file_gid, access),
{
    if uid == ROOT_UID {
        return true;
    }
    let bit = bit_of(access);
    if uid == file_uid {
        return (mode >> 6u16) & bit != 0;
    }
    if contains_id(groups, file_gid) {
        return (mode >> 3u16) & bit != 0;
    }
    mode & bit != 0
}

/// Whether user `uid` with `user_groups` may make `access` to `inode`.
/// Root (uid 0) bypasses all checks.
pub fn check_permission(inode: &Inode, uid: Uid, user_groups: &[Gid], access: Access) -> (r: bool)
    ensures
        r == bits_allow(uid, user_groups@, inode.mode, inode.uid, inode.gid, access),
{
    check_bits(uid, user_groups, inode.mode, inode.uid, inode.gid, access)
}

/// Whether the sticky bit (0o1000) is set: in a sticky directory only the
/// file's owner, the directory's owner or root may delete or rename.
pub fn has_sticky_bit(mode: u16) -> (r: bool)
    ensures
        r == (mode & 0o1000u16 != 0),
{
    mode & 0o1000u16 != 0
}

/// Whether the setgid bit (0o2000) is set: new entries of such a directory
/// take the directory's group.
pub fn has_setgid(mode: u16) -> (r: bool)
    ensures
        r == (mode & 0o2000u16 != 0),
{
    mode & 0o2000u16 != 0
}

/// The bits of a permission triple, read at the three shifts, are the
/// mode's owner (0o700), group (0o070) and other (0o007) bits.
pub proof fn lemma_mode_bits(mode: u16)
    by (bit_vector)
    ensures
        ((mode >> 6u16) & 7u16) & 4u16 != 0 <==> mode & 0o400u16 != 0,
        ((mode >> 6u16) & 7u16) & 2u16 != 0 <==> mode & 0o200u16 != 0,
        ((mode >> 6u16) & 7u16) & 1u16 != 0 <==> mode & 0o100u16 != 0,
        ((mode >> 3u16) & 7u16) & 4u16 != 0 <==> mode & 0o040u16 != 0,
        ((mode >> 3u16) & 7u16) & 2u16 != 0 <==> mode & 0o020u16 != 0,
        ((mode >> 3u16) & 7u16) & 1u16 != 0 <==> mode & 0o010u16 != 0,
        ((mode >> 0u16) & 7u16) & 4u16 != 0 <==> mode & 0o004u16 != 0,
        ((mode >> 0u16) & 7u16) & 2u16 != 0 <==> mode & 0o002u16 != 0,
        ((mode >> 0u16) & 7u16) & 1u16 != 0 <==> mode & 0o001u16 != 0,
        (mode >> 6u16) & 4u16 != 0 <==> mode & 0o400u16 != 0,
        (mode >> 6u16) & 2u16 != 0 <==> mode & 0o200u16 != 0,
        (mode >> 6u16) & 1u16 != 0 <==> mode & 0o100u16 != 0,
        (mode >> 3u16) & 4u16 != 0 <==> mode & 0o040u16 != 0,
        (mode >> 3u16) & 2u16 != 0 <==> mode & 0o020u16 != 0,
        (mode >> 3u16) & 1u16 != 0 <==> mode & 0o010u16 != 0,
{
}

/// The owner of an object, unless root, gets an access exactly when the
/// owner bit of that access is set: read 0o400, write 0o200, execute
/// 0o100.
pub proof fn lemma_owner_bits(uid: Uid, groups: Seq<Gid>, mode: u16, owner: Uid, group: Gid)
    requires
        uid != ROOT_UID,
        uid == owner,
    ensures
        bits_allow(uid, groups, mode, owner, group, Access::Read) <==> mode & 0o400u16 != 0,
        bits_allow(uid, groups, mode, owner, group, Access::Write) <==> mode & 0o200u16 != 0,
        bits_allow(uid, groups, mode, owner, group, Access::Execute) <==> mode & 0o100u16 != 0,
{
    lemma_mode_bits(mode);
}

/// A member of an object's group who is neither root nor its owner gets
/// an access exactly when the group bit of that access is set: read
/// 0o040, write 0o020, execute 0o010.
pub proof fn lemma_group_bits(uid: Uid, groups: Seq<Gid>, mode: u16, owner: Uid, group: Gid)
    requires
        uid != ROOT_UID,
        uid != owner,
        groups.contains(group),
    ensures
        bits_allow(uid, groups, mode, owner, group, Access::Read) <==> mode & 0o040u16 != 0,
        bits_allow(uid, groups, mode, owner, group, Access::Write) <==> mode & 0o020u16 != 0,
        bits_allow(uid, groups, mode, owner, group, Access::Execute) <==> mode & 0o010u16 != 0,
{
    lemma_mode_bits(mode);
}

/// Anyone else but root gets an access exactly when the other bit of that
/// access is set: read 0o004, write 0o002, execute 0o001.
pub proof fn lemma_other_bits(uid: Uid, groups: Seq<Gid>, mode: u16, owner: Uid, group: Gid)
    requires
        uid != ROOT_UID,
        uid != owner,
        !groups.contains(group),
    ensures
        bits_allow(uid, groups, mode, owner, group, Access::Read) <==> mode & 0o004u16 != 0,
        bits_allow(uid, groups, mode, owner, group, Access::Write) <==> mode & 0o002u16 != 0,
        bits_allow(uid, groups, mode, owner, group, Access::Execute) <==> mode & 0o001u16 != 0,
{
}

/// Root passes every permission check, whatever the mode, owner, group or
/// access.
pub proof fn lemma_root_bypasses(groups: Seq<Gid>, mode: u16, owner: Uid, group: Gid, access: Access)
    ensures
        bits_allow(ROOT_UID, groups, mode, owner, group, access),
{
}

/// With no permission bits set, nobody but root gets any access.
pub proof fn lemma_no_bits_only_root(uid: Uid, groups: Seq<Gid>, owner: Uid, group: Gid, access: Access)
    ensures
        bits_allow(uid, groups, 0, owner, group, access) <==> uid == ROOT_UID,
{
    let b = access_bit(access);
    assert((0u16 >> 6u16) & b == 0) by (bit_vector);
    assert((0u16 >> 3u16) & b == 0) by (bit_vector);
    assert(0u16 & b == 0) by (bit_vector);
}

} // verus!
