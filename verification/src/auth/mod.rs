//! Users, groups, permission bits and sessions.

pub mod perms;
pub mod registry;
pub mod session;

use vstd::prelude::*;

verus! {

pub type Uid = u32;

pub type Gid = u32;

pub const ROOT_UID: Uid = 0;

pub const ROOT_GID: Gid = 0;

pub const WHEEL_GID: Gid = 1;

/// A user account: its id, name, groups (the first is its primary group),
/// the hash of its API token if it has one, and whether it is an agent.
#[derive(Debug)]
pub struct User {
    pub uid: Uid,
    pub name: String,
    pub groups: Vec<Gid>,
    pub api_token: Option<String>,
    pub is_agent: bool,
}

/// A group: its id, name and member uids.
#[derive(Debug)]
pub struct Group {
    pub gid: Gid,
    pub name: String,
    pub members: Vec<Uid>,
}

/// Whether `x` occurs in `v`.
pub fn contains_id(v: &[u32], x: u32) -> (r: bool)
    ensures
        r == v@.contains(x),
{
    let mut i: usize = 0;
    while i < v.len()
        invariant
            i <= v.len(),
            forall|j: int| 0 <= j < i ==> v@[j] != x,
        decreases v.len() - i,
    {
        if v[i] == x {
            assert(v@[i as int] == x);
            return true;
        }
        i += 1;
    }
    false
}

/// A copy of a list of ids.
pub fn copy_ids(v: &Vec<u32>) -> (r: Vec<u32>)
    ensures
        r@ == v@,
{
    let mut r: Vec<u32> = Vec::new();
    let mut i: usize = 0;
    while i < v.len()
        invariant
            i <= v.len(),
            r@ == v@.take(i as int),
        decreases v.len() - i,
    {
        r.push(v[i]);
        proof {
            assert(r@ =~= v@.take(i + 1));
        }
        i += 1;
    }
    assert(v@.take(v@.len() as int) =~= v@);
    r
}

/// The list without any occurrence of `x`, order kept.
pub open spec fn without(s: Seq<u32>, x: u32) -> Seq<u32> {
    s.filter(|m: u32| m != x)
}

/// Removes every occurrence of `x`, keeping the order of the rest.
pub fn remove_id(v: &mut Vec<u32>, x: u32)
    ensures
        final(v)@ == without(old(v)@, x),
{
    let mut out: Vec<u32> = Vec::new();
    let mut i: usize = 0;
    while i < v.len()
        invariant
            i <= v.len(),
            v@ == old(v)@,
            out@ == without(v@.take(i as int), x),
        decreases v.len() - i,
    {
        proof {
            reveal(Seq::filter);
            assert(v@.take(i + 1).drop_last() =~= v@.take(i as int));
        }
        if v[i] != x {
            out.push(v[i]);
        }
        i += 1;
    }
    assert(v@.take(v@.len() as int) =~= v@);
    *v = out;
}

/// The first element of a list of ids, or zero for an empty list.
pub open spec fn first_or_zero(s: Seq<u32>) -> u32 {
    if s.len() > 0 {
        s[0]
    } else {
        0
    }
}

pub fn first_id(v: &Vec<u32>) -> (r: u32)
    ensures
        r == first_or_zero(v@),
{
    if v.len() > 0 {
        v[0]
    } else {
        0
    }
}

} // verus!
