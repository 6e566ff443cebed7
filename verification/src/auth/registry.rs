//! The registry of users and groups, with API tokens for agents.

use vstd::prelude::*;
use super::{contains_id, remove_id, without, Gid, Group, Uid, User, ROOT_GID, ROOT_UID, WHEEL_GID};
use crate::codec::le_bytes;
use crate::error::VfsError;
use crate::fs::inode::{duration_nanos, since_epoch, system_now};
use crate::hash::{sha256, sha256_digest};
use crate::listing::{check_sorted, dir_insert, dir_lookup, dir_map, dir_remove, lemma_sorted_target, names_sorted};
use crate::text::{hex_of, hex_string, owned, push_str};
use vstd::utf8::encode_utf8;

verus! {

/// The mathematical value of a user.
pub struct UserView {
    pub uid: Uid,
    pub name: Seq<char>,
    pub groups: Seq<Gid>,
    pub api_token: Option<Seq<char>>,
    pub is_agent: bool,
}

/// The mathematical value of a group.
pub struct GroupView {
    pub gid: Gid,
    pub name: Seq<char>,
    pub members: Seq<Uid>,
}

pub open spec fn opt_view(o: Option<String>) -> Option<Seq<char>> {
    match o {
        Some(s) => Some(s@),
        None => None,
    }
}

impl View for User {
    type V = UserView;

    open spec fn view(&self) -> UserView {
        UserView {
            uid: self.uid,
            name: self.name@,
            groups: self.groups@,
            api_token: opt_view(self.api_token),
            is_agent: self.is_agent,
        }
    }
}

impl View for Group {
    type V = GroupView;

    open spec fn view(&self) -> GroupView {
        GroupView { gid: self.gid, name: self.name@, members: self.members@ }
    }
}

// ───── lookups over the ordered lists ─────

pub open spec fn has_uid(us: Seq<UserView>, uid: Uid) -> bool {
    exists|i: int| 0 <= i < us.len() && #[trigger] us[i].uid == uid
}

pub open spec fn uid_pos(us: Seq<UserView>, uid: Uid) -> int {
    choose|i: int| 0 <= i < us.len() && #[trigger] us[i].uid == uid
}

/// The user of a uid, if there is one.
pub open spec fn user_of(us: Seq<UserView>, uid: Uid) -> Option<UserView> {
    if has_uid(us, uid) {
        Some(us[uid_pos(us, uid)])
    } else {
        None
    }
}

pub open spec fn has_gid(gs: Seq<GroupView>, gid: Gid) -> bool {
    exists|i: int| 0 <= i < gs.len() && #[trigger] gs[i].gid == gid
}

pub open spec fn gid_pos(gs: Seq<GroupView>, gid: Gid) -> int {
    choose|i: int| 0 <= i < gs.len() && #[trigger] gs[i].gid == gid
}

/// The group of a gid, if there is one.
pub open spec fn group_of(gs: Seq<GroupView>, gid: Gid) -> Option<GroupView> {
    if has_gid(gs, gid) {
        Some(gs[gid_pos(gs, gid)])
    } else {
        None
    }
}

pub open spec fn uids_ascending(us: Seq<UserView>) -> bool {
    forall|i: int, j: int| 0 <= i < j < us.len() ==> #[trigger] us[i].uid < #[trigger] us[j].uid
}

pub open spec fn gids_ascending(gs: Seq<GroupView>) -> bool {
    forall|i: int, j: int| 0 <= i < j < gs.len() ==> #[trigger] gs[i].gid < #[trigger] gs[j].gid
}

pub open spec fn injective<V>(m: Map<Seq<char>, V>) -> bool {
    forall|a: Seq<char>, b: Seq<char>|
        m.contains_key(a) && m.contains_key(b) && a != b ==> #[trigger] m[a] != #[trigger] m[b]
}

/// The uid of the first user, in ascending order of uid, whose stored token
/// hash is `hash`.
pub open spec fn first_with_token(us: Seq<UserView>, hash: Seq<char>) -> Option<Uid>
    decreases us.len(),
{
    if us.len() == 0 {
        None
    } else if us[0].api_token == Some(hash) {
        Some(us[0].uid)
    } else {
        first_with_token(us.drop_first(), hash)
    }
}

/// The stored form of an API token: the hex SHA-256 of its UTF-8 bytes.
pub open spec fn token_hash(raw: Seq<char>) -> Seq<char> {
    hex_of(sha256_digest(encode_utf8(raw)))
}

/// A fresh API token: the hex SHA-256 of a seed's 16 little-endian bytes
/// followed by the bytes of "markdownfs-agent-token".
pub open spec fn is_generated_token(raw: Seq<char>) -> bool {
    exists|seed: u128|
        raw == hex_of(
            sha256_digest(#[trigger] le_bytes(seed as nat, 16) + encode_utf8(
                "markdownfs-agent-token"@,
            )),
        )
}

/// Each group with `uid` taken out of its members.
pub open spec fn strip_member(gs: Seq<GroupView>, uid: Uid) -> Seq<GroupView> {
    Seq::new(
        gs.len(),
        |i: int| GroupView { gid: gs[i].gid, name: gs[i].name, members: without(gs[i].members, uid) },
    )
}

/// Each user with `gid` taken out of its groups.
pub open spec fn strip_group(us: Seq<UserView>, gid: Gid) -> Seq<UserView> {
    Seq::new(
        us.len(),
        |i: int|
            UserView {
                uid: us[i].uid,
                name: us[i].name,
                groups: without(us[i].groups, gid),
                api_token: us[i].api_token,
                is_agent: us[i].is_agent,
            },
    )
}

fn le_bytes_of(seed: u128) -> (r: Vec<u8>)
    ensures
        r@ == le_bytes(seed as nat, 16),
{
    let mut r: Vec<u8> = Vec::new();
    let mut v: u128 = seed;
    let mut k: usize = 0;
    while k < 16
        invariant
            k <= 16,
            r@ + le_bytes(v as nat, (16 - k) as nat) == le_bytes(seed as nat, 16),
        decreases 16 - k,
    {
        proof {
            assert(le_bytes(v as nat, (16 - k) as nat) == seq![(v % 256) as u8] + le_bytes(
                (v / 256) as nat,
                (16 - k - 1) as nat,
            ));
            assert(r@.push((v % 256) as u8) + le_bytes((v / 256) as nat, (16 - k - 1) as nat) =~= r@
                + (seq![(v % 256) as u8] + le_bytes((v / 256) as nat, (16 - k - 1) as nat)));
        }
        r.push((v % 256) as u8);
        v = v / 256;
        k += 1;
    }
    assert(r@ + le_bytes(v as nat, 0) =~= r@);
    r
}

/// The current time in nanoseconds since the epoch, zero before it.
fn clock_nanos() -> u128 {
    let t = system_now();
    match since_epoch(&t) {
        Some(d) => duration_nanos(&d),
        None => 0,
    }
}

/// A fresh raw API token, seeded from the clock.
fn generate_token() -> (r: String)
    ensures
        is_generated_token(r@),
{
    let seed = clock_nanos();
    let mut data = le_bytes_of(seed);
    let suffix = "markdownfs-agent-token".as_bytes();
    let mut i: usize = 0;
    let ghost start = data@;
    while i < suffix.len()
        invariant
            i <= suffix.len(),
            start == le_bytes(seed as nat, 16),
            suffix@ == encode_utf8("markdownfs-agent-token"@),
            data@ == start + suffix@.take(i as int),
        decreases suffix.len() - i,
    {
        data.push(suffix[i]);
        proof {
            assert(start + suffix@.take(i as int) + seq![suffix@[i as int]] =~= start + suffix@.take(
                i + 1,
            ));
        }
        i += 1;
    }
    assert(suffix@.take(suffix@.len() as int) =~= suffix@);
    let digest = sha256(data.as_slice());
    let r = hex_string(digest.as_slice());
    assert(r@ == hex_of(sha256_digest(le_bytes(seed as nat, 16) + encode_utf8("markdownfs-agent-token"@))));
    r
}

/// The stored hash of a raw token.
fn hash_token(raw: &str) -> (r: String)
    ensures
        r@ == token_hash(raw@),
{
    let digest = sha256(raw.as_bytes());
    hex_string(digest.as_slice())
}

fn prefixed(prefix: &str, name: &str) -> (r: String)
    ensures
        r@ == prefix@ + name@,
{
    let mut s = owned(prefix);
    push_str(&mut s, name);
    s
}

/// The users and groups of a file system. Users are kept in ascending
/// order of uid and groups in ascending order of gid; two name indexes map
/// user names to uids and group names to gids.
#[derive(Debug)]
pub struct UserRegistry {
    users: Vec<User>,
    groups: Vec<Group>,
    name_to_uid: Vec<(String, Uid)>,
    name_to_gid: Vec<(String, Gid)>,
    next_uid: Uid,
    next_gid: Gid,
}

impl UserRegistry {
    /// The users, in ascending order of uid.
    pub closed spec fn users(&self) -> Seq<UserView> {
        self.users@.map_values(|u: User| u@)
    }

    /// The groups, in ascending order of gid.
    pub closed spec fn groups(&self) -> Seq<GroupView> {
        self.groups@.map_values(|g: Group| g@)
    }

    /// The index from user names to uids.
    pub closed spec fn uid_index(&self) -> Map<Seq<char>, Uid> {
        dir_map(self.name_to_uid@)
    }

    /// The index from group names to gids.
    pub closed spec fn gid_index(&self) -> Map<Seq<char>, Gid> {
        dir_map(self.name_to_gid@)
    }

    /// The uid the next new user gets.
    pub closed spec fn next_uid(&self) -> Uid {
        self.next_uid
    }

    /// The gid the next new group gets.
    pub closed spec fn next_gid(&self) -> Gid {
        self.next_gid
    }

    /// The registry's invariant: ids ascending and below the next ids, each
    /// indexed name maps to an existing user or group, and no two names to
    /// the same one.
    pub closed spec fn inv(&self) -> bool {
        &&& names_sorted(self.name_to_uid@)
        &&& names_sorted(self.name_to_gid@)
        &&& uids_ascending(self.users())
        &&& gids_ascending(self.groups())
        &&& forall|i: int| 0 <= i < self.users().len() ==> #[trigger] self.users()[i].uid < self.next_uid
        &&& forall|i: int|
            0 <= i < self.groups().len() ==> #[trigger] self.groups()[i].gid < self.next_gid
        &&& forall|n: Seq<char>|
            #[trigger] self.uid_index().contains_key(n) ==> has_uid(self.users(), self.uid_index()[n])
        &&& forall|n: Seq<char>|
            #[trigger] self.gid_index().contains_key(n) ==> has_gid(
                self.groups(),
                self.gid_index()[n],
            )
        &&& injective(self.uid_index())
        &&& injective(self.gid_index())
    }

    /// A registry with the root user (uid 0, groups root and wheel) and the
    /// groups root (gid 0) and wheel (gid 1), both with root as member.
    pub fn new() -> (r: Self)
        ensures
            r.inv(),
            r.users() == seq![
                UserView {
                    uid: ROOT_UID,
                    name: "root"@,
                    groups: seq![ROOT_GID, WHEEL_GID],
                    api_token: None,
                    is_agent: false,
                },
            ],
            r.groups() == seq![
                GroupView { gid: ROOT_GID, name: "root"@, members: seq![ROOT_UID] },
                GroupView { gid: WHEEL_GID, name: "wheel"@, members: seq![ROOT_UID] },
            ],
            r.uid_index() == map![ "root"@ => ROOT_UID ],
            r.gid_index() == map![ "root"@ => ROOT_GID, "wheel"@ => WHEEL_GID ],
            r.next_uid() == 1,
            r.next_gid() == 2,
    {
        let mut reg = UserRegistry {
            users: Vec::new(),
            groups: Vec::new(),
            name_to_uid: Vec::new(),
            name_to_gid: Vec::new(),
            next_uid: 1,
            next_gid: 2,
        };
        let mut root_members: Vec<Uid> = Vec::new();
        root_members.push(ROOT_UID);
        reg.groups.push(Group { gid: ROOT_GID, name: owned("root"), members: root_members });
        proof {
            assert(dir_map(reg.name_to_gid@) =~= Map::<Seq<char>, Gid>::empty());
        }
        dir_insert(&mut reg.name_to_gid, owned("root"), ROOT_GID);
        let mut wheel_members: Vec<Uid> = Vec::new();
        wheel_members.push(ROOT_UID);
        reg.groups.push(Group { gid: WHEEL_GID, name: owned("wheel"), members: wheel_members });
        dir_insert(&mut reg.name_to_gid, owned("wheel"), WHEEL_GID);
        let mut root_groups: Vec<Gid> = Vec::new();
        root_groups.push(ROOT_GID);
        root_groups.push(WHEEL_GID);
        reg.users.push(
            User {
                uid: ROOT_UID,
                name: owned("root"),
                groups: root_groups,
                api_token: None,
                is_agent: false,
            },
        );
        proof {
            assert(dir_map(reg.name_to_uid@) =~= Map::<Seq<char>, Uid>::empty());
        }
        dir_insert(&mut reg.name_to_uid, owned("root"), ROOT_UID);
        proof {
            assert(reg.users@[0].groups@ =~= seq![ROOT_GID, WHEEL_GID]);
            assert(reg.groups@[0].members@ =~= seq![ROOT_UID]);
            assert(reg.groups@[1].members@ =~= seq![ROOT_UID]);
            assert(reg.users@[0]@ == UserView {
                uid: ROOT_UID,
                name: "root"@,
                groups: seq![ROOT_GID, WHEEL_GID],
                api_token: None,
                is_agent: false,
            });
            assert(reg.users() =~= seq![
                UserView {
                    uid: ROOT_UID,
                    name: "root"@,
                    groups: seq![ROOT_GID, WHEEL_GID],
                    api_token: None,
                    is_agent: false,
                },
            ]);
            assert(reg.groups() =~= seq![
                GroupView { gid: ROOT_GID, name: "root"@, members: seq![ROOT_UID] },
                GroupView { gid: WHEEL_GID, name: "wheel"@, members: seq![ROOT_UID] },
            ]);
            assert(reg.uid_index() =~= map![ "root"@ => ROOT_UID ]);
            assert(reg.gid_index() =~= map![ "root"@ => ROOT_GID, "wheel"@ => WHEEL_GID ]);
            assert(has_uid(reg.users(), reg.users()[0].uid));
            assert(has_gid(reg.groups(), reg.groups()[0].gid));
            assert(has_gid(reg.groups(), reg.groups()[1].gid));
        }
        reg
    }

    /// The position of the user of a uid.
    fn user_index(&self, uid: Uid) -> (r: Option<usize>)
        requires
            self.inv(),
        ensures
            match r {
                Some(i) => i < self.users().len() && self.users()[i as int].uid == uid
                    && user_of(self.users(), uid) == Some(self.users()[i as int]),
                None => !has_uid(self.users(), uid) && user_of(self.users(), uid) is None,
            },
    {
        let mut i: usize = 0;
        while i < self.users.len()
            invariant
                i <= self.users@.len(),
                self.inv(),
                forall|j: int| 0 <= j < i ==> self.users()[j].uid != uid,
            decreases self.users.len() - i,
        {
            if self.users[i].uid == uid {
                proof {
                    let k = uid_pos(self.users(), uid);
                    assert(self.users()[i as int].uid == uid);
                    if k != i {
                        if k < i {
                            assert(self.users()[k].uid < self.users()[i as int].uid);
                        } else {
                            assert(self.users()[i as int].uid < self.users()[k].uid);
                        }
                    }
                }
                return Some(i);
            }
            i += 1;
        }
        None
    }

    /// The position of the group of a gid.
    fn group_index(&self, gid: Gid) -> (r: Option<usize>)
        requires
            self.inv(),
        ensures
            match r {
                Some(i) => i < self.groups().len() && self.groups()[i as int].gid == gid
                    && group_of(self.groups(), gid) == Some(self.groups()[i as int]),
                None => !has_gid(self.groups(), gid) && group_of(self.groups(), gid) is None,
            },
    {
        let mut i: usize = 0;
        while i < self.groups.len()
            invariant
                i <= self.groups@.len(),
                self.inv(),
                forall|j: int| 0 <= j < i ==> self.groups()[j].gid != gid,
            decreases self.groups.len() - i,
        {
            if self.groups[i].gid == gid {
                proof {
                    let k = gid_pos(self.groups(), gid);
                    assert(self.groups()[i as int].gid == gid);
                    if k != i {
                        if k < i {
                            assert(self.groups()[k].gid < self.groups()[i as int].gid);
                        } else {
                            assert(self.groups()[i as int].gid < self.groups()[k].gid);
                        }
                    }
                }
                return Some(i);
            }
            i += 1;
        }
        None
    }

    /// Creates a user with a personal group of the same name. An agent also
    /// gets an API token: the raw token is returned once and only its hash
    /// is kept.
    pub fn add_user(&mut self, name: &str, is_agent: bool) -> (r: Result<(Uid, Option<String>), VfsError>)
        requires
            old(self).inv(),
            old(self).next_uid() < u32::MAX,
            old(self).next_gid() < u32::MAX,
        ensures
            final(self).inv(),
            old(self).uid_index().contains_key(name@) ==> {
                &&& r is Err
                &&& r->Err_0@ == crate::error::ErrorView::AuthError(
                    "user already exists: "@ + name@,
                )
                &&& final(self).users() == old(self).users()
                &&& final(self).groups() == old(self).groups()
                &&& final(self).uid_index() == old(self).uid_index()
                &&& final(self).gid_index() == old(self).gid_index()
                &&& final(self).next_uid() == old(self).next_uid()
                &&& final(self).next_gid() == old(self).next_gid()
            },
            !old(self).uid_index().contains_key(name@) ==> {
                &&& r is Ok
                &&& r->Ok_0.0 == old(self).next_uid()
                &&& final(self).next_uid() == old(self).next_uid() + 1
                &&& final(self).next_gid() == old(self).next_gid() + 1
                &&& final(self).groups() == old(self).groups().push(
                    GroupView {
                        gid: old(self).next_gid(),
                        name: name@,
                        members: seq![old(self).next_uid()],
                    },
                )
                &&& final(self).gid_index() == old(self).gid_index().insert(
                    name@,
                    old(self).next_gid(),
                )
                &&& final(self).uid_index() == old(self).uid_index().insert(
                    name@,
                    old(self).next_uid(),
                )
                &&& final(self).users() == old(self).users().push(
                    UserView {
                        uid: old(self).next_uid(),
                        name: name@,
                        groups: seq![old(self).next_gid()],
                        api_token: match r->Ok_0.1 {
                            Some(raw) => Some(token_hash(raw@)),
                            None => None,
                        },
                        is_agent,
                    },
                )
                &&& (is_agent <==> r->Ok_0.1 is Some)
                &&& (r->Ok_0.1 matches Some(raw) ==> is_generated_token(raw@))
            },
    {
        if dir_lookup(&self.name_to_uid, name).is_some() {
            return Err(VfsError::AuthError { message: prefixed("user already exists: ", name) });
        }
        let ghost old_self = *self;
        let uid = self.next_uid;
        self.next_uid = self.next_uid + 1;
        let gid = self.next_gid;
        self.next_gid = self.next_gid + 1;
        let mut members: Vec<Uid> = Vec::new();
        members.push(uid);
        self.groups.push(Group { gid, name: owned(name), members });
        dir_insert(&mut self.name_to_gid, owned(name), gid);
        let (api_token, raw_token) = if is_agent {
            let raw = generate_token();
            let hash = hash_token(raw.as_str());
            (Some(hash), Some(raw))
        } else {
            (None, None)
        };
        let mut groups: Vec<Gid> = Vec::new();
        groups.push(gid);
        self.users.push(User { uid, name: owned(name), groups, api_token, is_agent });
        dir_insert(&mut self.name_to_uid, owned(name), uid);
        proof {
            assert(self.users() =~= old_self.users().push(
                UserView {
                    uid,
                    name: name@,
                    groups: seq![gid],
                    api_token: opt_view(api_token),
                    is_agent,
                },
            ));
            assert(self.groups() =~= old_self.groups().push(
                GroupView { gid, name: name@, members: seq![uid] },
            ));
            let us = self.users();
            let gs = self.groups();
            assert(has_uid(us, us[us.len() - 1].uid));
            assert(has_gid(gs, gs[gs.len() - 1].gid));
            assert forall|n: Seq<char>| #[trigger] self.uid_index().contains_key(n) implies has_uid(
                self.users(),
                self.uid_index()[n],
            ) by {
                if n != name@ {
                    let u = old_self.uid_index()[n];
                    let k = uid_pos(old_self.users(), u);
                    assert(us[k].uid == u);
                }
            }
            assert forall|n: Seq<char>| #[trigger] self.gid_index().contains_key(n) implies has_gid(
                self.groups(),
                self.gid_index()[n],
            ) by {
                if n != name@ {
                    let g = old_self.gid_index()[n];
                    let k = gid_pos(old_self.groups(), g);
                    assert(gs[k].gid == g);
                }
            }
            assert forall|a: Seq<char>, b: Seq<char>|
                self.uid_index().contains_key(a) && self.uid_index().contains_key(b) && a
                    != b implies #[trigger] self.uid_index()[a] != #[trigger] self.uid_index()[b] by {
                if a != name@ && b != name@ {
                } else if a == name@ {
                    let k = uid_pos(old_self.users(), old_self.uid_index()[b]);
                    assert(old_self.users()[k].uid < old_self.next_uid);
                } else {
                    let k = uid_pos(old_self.users(), old_self.uid_index()[a]);
                    assert(old_self.users()[k].uid < old_self.next_uid);
                }
            }
            assert forall|a: Seq<char>, b: Seq<char>|
                self.gid_index().contains_key(a) && self.gid_index().contains_key(b) && a
                    != b implies #[trigger] self.gid_index()[a] != #[trigger] self.gid_index()[b] by {
                if a != name@ && b != name@ {
                } else if a == name@ {
                    let k = gid_pos(old_self.groups(), old_self.gid_index()[b]);
                    assert(old_self.groups()[k].gid < old_self.next_gid);
                } else {
                    let k = gid_pos(old_self.groups(), old_self.gid_index()[a]);
                    assert(old_self.groups()[k].gid < old_self.next_gid);
                }
            }
        }
        Ok((uid, raw_token))
    }

    /// Deletes a user (never root): it leaves every group's member list and
    /// the name index. Its personal group stays.
    pub fn del_user(&mut self, name: &str) -> (r: Result<(), VfsError>)
        requires
            old(self).inv(),
        ensures
            final(self).inv(),
            !old(self).uid_index().contains_key(name@) ==> r is Err && r->Err_0@
                == crate::error::ErrorView::AuthError("no such user: "@ + name@),
            old(self).uid_index().contains_key(name@) && old(self).uid_index()[name@] == ROOT_UID
                ==> r is Err && r->Err_0@ == crate::error::ErrorView::AuthError(
                "cannot delete root"@,
            ),
            r is Err ==> final(self).users() == old(self).users() && final(self).groups() == old(
                self,
            ).groups() && final(self).uid_index() == old(self).uid_index(),
            old(self).uid_index().contains_key(name@) && old(self).uid_index()[name@] != ROOT_UID
                ==> {
                let uid = old(self).uid_index()[name@];
                &&& r is Ok
                &&& final(self).users() == old(self).users().remove(uid_pos(old(self).users(), uid))
                &&& final(self).groups() == strip_member(old(self).groups(), uid)
                &&& final(self).uid_index() == old(self).uid_index().remove(name@)
            },
            final(self).gid_index() == old(self).gid_index(),
            final(self).next_uid() == old(self).next_uid(),
            final(self).next_gid() == old(self).next_gid(),
    {
        let uid = match dir_lookup(&self.name_to_uid, name) {
            Some(u) => u,
            None => {
                return Err(VfsError::AuthError { message: prefixed("no such user: ", name) });
            },
        };
        if uid == ROOT_UID {
            return Err(VfsError::AuthError { message: owned("cannot delete root") });
        }
        let idx = match self.user_index(uid) {
            Some(idx) => idx,
            None => {
                proof {
                    assert(false);
                }
                return Ok(());
            },
        };
        let ghost old_self = *self;
        let mut i: usize = 0;
        while i < self.groups.len()
            invariant
                i <= self.groups@.len(),
                self.groups@.len() == old_self.groups@.len(),
                self.users == old_self.users,
                self.name_to_uid == old_self.name_to_uid,
                self.name_to_gid == old_self.name_to_gid,
                self.next_uid == old_self.next_uid,
                self.next_gid == old_self.next_gid,
                forall|j: int|
                    0 <= j < i ==> #[trigger] self.groups@[j]@ == strip_member(old_self.groups(), uid)[j],
                forall|j: int| i <= j < self.groups@.len() ==> #[trigger] self.groups@[j] == old_self.groups@[j],
            decreases self.groups.len() - i,
        {
            let ghost before = self.groups@;
            let mut g = self.groups.remove(i);
            remove_id(&mut g.members, uid);
            self.groups.insert(i, g);
            proof {
                assert(self.groups@ =~= before.update(i as int, self.groups@[i as int]));
                assert(self.groups@[i as int]@ == strip_member(old_self.groups(), uid)[i as int]);
            }
            i += 1;
        }
        let _ = self.users.remove(idx);
        dir_remove(&mut self.name_to_uid, name);
        proof {
            assert forall|j: int| 0 <= j < self.groups@.len() implies #[trigger] self.groups()[j]
                == strip_member(old_self.groups(), uid)[j] by {
                assert(self.groups@[j]@ == strip_member(old_self.groups(), uid)[j]);
            }
            assert(self.groups() =~= strip_member(old_self.groups(), uid));
            assert(self.users() =~= old_self.users().remove(idx as int));
            let us = self.users();
            let ous = old_self.users();
            assert(uid_pos(ous, uid) == idx) by {
                let p = uid_pos(ous, uid);
                if p != idx {
                    if p < idx {
                        assert(ous[p].uid < ous[idx as int].uid);
                    } else {
                        assert(ous[idx as int].uid < ous[p].uid);
                    }
                }
            }
            assert forall|a: int, b: int| 0 <= a < b < us.len() implies #[trigger] us[a].uid
                < #[trigger] us[b].uid by {
                if a >= idx {
                    assert(us[a] == ous[a + 1]);
                    assert(us[b] == ous[b + 1]);
                } else if b >= idx {
                    assert(us[b] == ous[b + 1]);
                }
            }
            assert forall|j: int| 0 <= j < us.len() implies #[trigger] us[j].uid < self.next_uid by {
                if j >= idx {
                    assert(us[j] == ous[j + 1]);
                }
            }
            let gs = self.groups();
            let ogs = old_self.groups();
            assert forall|a: int, b: int| 0 <= a < b < gs.len() implies #[trigger] gs[a].gid
                < #[trigger] gs[b].gid by {
                assert(gs[a].gid == ogs[a].gid);
                assert(gs[b].gid == ogs[b].gid);
            }
            assert forall|j: int| 0 <= j < gs.len() implies #[trigger] gs[j].gid < self.next_gid by {
                assert(gs[j].gid == ogs[j].gid);
            }
            assert forall|n: Seq<char>| #[trigger] self.uid_index().contains_key(n) implies has_uid(
                self.users(),
                self.uid_index()[n],
            ) by {
                let u = old_self.uid_index()[n];
                assert(u != uid);
                let p = uid_pos(ous, u);
                if p < idx {
                    assert(us[p] == ous[p]);
                } else {
                    assert(p != idx);
                    assert(us[p - 1] == ous[p]);
                }
            }
            assert forall|n: Seq<char>| #[trigger] self.gid_index().contains_key(n) implies has_gid(
                self.groups(),
                self.gid_index()[n],
            ) by {
                let g = old_self.gid_index()[n];
                let p = gid_pos(ogs, g);
                assert(gs[p].gid == g);
            }
            assert(injective(self.uid_index()));
        }
        Ok(())
    }

    /// Creates an empty group.
    pub fn add_group(&mut self, name: &str) -> (r: Result<Gid, VfsError>)
        requires
            old(self).inv(),
            old(self).next_gid() < u32::MAX,
        ensures
            final(self).inv(),
            final(self).users() == old(self).users(),
            final(self).uid_index() == old(self).uid_index(),
            final(self).next_uid() == old(self).next_uid(),
            old(self).gid_index().contains_key(name@) ==> {
                &&& r is Err
                &&& r->Err_0@ == crate::error::ErrorView::AuthError(
                    "group already exists: "@ + name@,
                )
                &&& final(self).groups() == old(self).groups()
                &&& final(self).gid_index() == old(self).gid_index()
                &&& final(self).next_gid() == old(self).next_gid()
            },
            !old(self).gid_index().contains_key(name@) ==> {
                &&& r == Ok::<Gid, VfsError>(old(self).next_gid())
                &&& final(self).next_gid() == old(self).next_gid() + 1
                &&& final(self).groups() == old(self).groups().push(
                    GroupView { gid: old(self).next_gid(), name: name@, members: seq![] },
                )
                &&& final(self).gid_index() == old(self).gid_index().insert(
                    name@,
                    old(self).next_gid(),
                )
            },
    {
        if dir_lookup(&self.name_to_gid, name).is_some() {
            return Err(VfsError::AuthError { message: prefixed("group already exists: ", name) });
        }
        let ghost old_self = *self;
        let gid = self.next_gid;
        self.next_gid = self.next_gid + 1;
        self.groups.push(Group { gid, name: owned(name), members: Vec::new() });
        dir_insert(&mut self.name_to_gid, owned(name), gid);
        proof {
            assert(self.groups() =~= old_self.groups().push(
                GroupView { gid, name: name@, members: seq![] },
            ));
            let gs = self.groups();
            assert(has_gid(gs, gs[gs.len() - 1].gid));
            assert forall|n: Seq<char>| #[trigger] self.gid_index().contains_key(n) implies has_gid(
                self.groups(),
                self.gid_index()[n],
            ) by {
                if n != name@ {
                    let g = old_self.gid_index()[n];
                    let k = gid_pos(old_self.groups(), g);
                    assert(gs[k].gid == g);
                }
            }
            assert forall|a: Seq<char>, b: Seq<char>|
                self.gid_index().contains_key(a) && self.gid_index().contains_key(b) && a
                    != b implies #[trigger] self.gid_index()[a] != #[trigger] self.gid_index()[b] by {
                if a != name@ && b != name@ {
                } else if a == name@ {
                    let k = gid_pos(old_self.groups(), old_self.gid_index()[b]);
                    assert(old_self.groups()[k].gid < old_self.next_gid);
                } else {
                    let k = gid_pos(old_self.groups(), old_self.gid_index()[a]);
                    assert(old_self.groups()[k].gid < old_self.next_gid);
                }
            }
        }
        Ok(gid)
    }

    /// Deletes a group (never root or wheel): it leaves every user's group
    /// list and the name index.
    pub fn del_group(&mut self, name: &str) -> (r: Result<(), VfsError>)
        requires
            old(self).inv(),
        ensures
            final(self).inv(),
            !old(self).gid_index().contains_key(name@) ==> r is Err && r->Err_0@
                == crate::error::ErrorView::AuthError("no such group: "@ + name@),
            old(self).gid_index().contains_key(name@) && (old(self).gid_index()[name@] == ROOT_GID
                || old(self).gid_index()[name@] == WHEEL_GID) ==> r is Err && r->Err_0@
                == crate::error::ErrorView::AuthError("cannot delete system group: "@ + name@),
            r is Err ==> final(self).users() == old(self).users() && final(self).groups() == old(
                self,
            ).groups() && final(self).gid_index() == old(self).gid_index(),
            old(self).gid_index().contains_key(name@) && old(self).gid_index()[name@] != ROOT_GID
                && old(self).gid_index()[name@] != WHEEL_GID ==> {
                let gid = old(self).gid_index()[name@];
                &&& r is Ok
                &&& final(self).groups() == old(self).groups().remove(
                    gid_pos(old(self).groups(), gid),
                )
                &&& final(self).users() == strip_group(old(self).users(), gid)
                &&& final(self).gid_index() == old(self).gid_index().remove(name@)
            },
            final(self).uid_index() == old(self).uid_index(),
            final(self).next_uid() == old(self).next_uid(),
            final(self).next_gid() == old(self).next_gid(),
    {
        let gid = match dir_lookup(&self.name_to_gid, name) {
            Some(g) => g,
            None => {
                return Err(VfsError::AuthError { message: prefixed("no such group: ", name) });
            },
        };
        if gid == ROOT_GID || gid == WHEEL_GID {
            return Err(
                VfsError::AuthError { message: prefixed("cannot delete system group: ", name) },
            );
        }
        let idx = match self.group_index(gid) {
            Some(idx) => idx,
            None => {
                proof {
                    assert(false);
                }
                return Ok(());
            },
        };
        let ghost old_self = *self;
        let mut i: usize = 0;
        while i < self.users.len()
            invariant
                i <= self.users@.len(),
                self.users@.len() == old_self.users@.len(),
                self.groups == old_self.groups,
                self.name_to_uid == old_self.name_to_uid,
                self.name_to_gid == old_self.name_to_gid,
                self.next_uid == old_self.next_uid,
                self.next_gid == old_self.next_gid,
                forall|j: int|
                    0 <= j < i ==> #[trigger] self.users@[j]@ == strip_group(old_self.users(), gid)[j],
                forall|j: int| i <= j < self.users@.len() ==> #[trigger] self.users@[j] == old_self.users@[j],
            decreases self.users.len() - i,
        {
            let ghost before = self.users@;
            let mut u = self.users.remove(i);
            remove_id(&mut u.groups, gid);
            self.users.insert(i, u);
            proof {
                assert(self.users@ =~= before.update(i as int, self.users@[i as int]));
                assert(self.users@[i as int]@ == strip_group(old_self.users(), gid)[i as int]);
            }
            i += 1;
        }
        let _ = self.groups.remove(idx);
        dir_remove(&mut self.name_to_gid, name);
        proof {
            assert forall|j: int| 0 <= j < self.users@.len() implies #[trigger] self.users()[j]
                == strip_group(old_self.users(), gid)[j] by {
                assert(self.users@[j]@ == strip_group(old_self.users(), gid)[j]);
            }
            assert(self.users() =~= strip_group(old_self.users(), gid));
            assert(self.groups() =~= old_self.groups().remove(idx as int));
            let gs = self.groups();
            let ogs = old_self.groups();
            assert(gid_pos(ogs, gid) == idx) by {
                let p = gid_pos(ogs, gid);
                if p != idx {
                    if p < idx {
                        assert(ogs[p].gid < ogs[idx as int].gid);
                    } else {
                        assert(ogs[idx as int].gid < ogs[p].gid);
                    }
                }
            }
            assert forall|a: int, b: int| 0 <= a < b < gs.len() implies #[trigger] gs[a].gid
                < #[trigger] gs[b].gid by {
                if a >= idx {
                    assert(gs[a] == ogs[a + 1]);
                    assert(gs[b] == ogs[b + 1]);
                } else if b >= idx {
                    assert(gs[b] == ogs[b + 1]);
                }
            }
            assert forall|j: int| 0 <= j < gs.len() implies #[trigger] gs[j].gid < self.next_gid by {
                if j >= idx {
                    assert(gs[j] == ogs[j + 1]);
                }
            }
            let us = self.users();
            let ous = old_self.users();
            assert forall|a: int, b: int| 0 <= a < b < us.len() implies #[trigger] us[a].uid
                < #[trigger] us[b].uid by {
                assert(us[a].uid == ous[a].uid);
                assert(us[b].uid == ous[b].uid);
            }
            assert forall|j: int| 0 <= j < us.len() implies #[trigger] us[j].uid < self.next_uid by {
                assert(us[j].uid == ous[j].uid);
            }
            assert forall|n: Seq<char>| #[trigger] self.gid_index().contains_key(n) implies has_gid(
                self.groups(),
                self.gid_index()[n],
            ) by {
                let g = old_self.gid_index()[n];
                assert(g != gid);
                let p = gid_pos(ogs, g);
                if p < idx {
                    assert(gs[p] == ogs[p]);
                } else {
                    assert(p != idx);
                    assert(gs[p - 1] == ogs[p]);
                }
            }
            assert forall|n: Seq<char>| #[trigger] self.uid_index().contains_key(n) implies has_uid(
                self.users(),
                self.uid_index()[n],
            ) by {
                let u = old_self.uid_index()[n];
                let p = uid_pos(ous, u);
                assert(us[p].uid == u);
            }
            assert(injective(self.gid_index()));
        }
        Ok(())
    }

    /// Adds a user to a group: the group joins the user's list and the user
    /// the group's members, each unless already there.
    pub fn usermod_add_group(&mut self, username: &str, groupname: &str) -> (r: Result<(), VfsError>)
        requires
            old(self).inv(),
        ensures
            final(self).inv(),
            final(self).uid_index() == old(self).uid_index(),
            final(self).gid_index() == old(self).gid_index(),
            final(self).next_uid() == old(self).next_uid(),
            final(self).next_gid() == old(self).next_gid(),
            !old(self).uid_index().contains_key(username@) ==> r is Err && r->Err_0@
                == crate::error::ErrorView::AuthError("no such user: "@ + username@),
            old(self).uid_index().contains_key(username@) && !old(self).gid_index().contains_key(
                groupname@,
            ) ==> r is Err && r->Err_0@ == crate::error::ErrorView::AuthError(
                "no such group: "@ + groupname@,
            ),
            r is Err ==> final(self).users() == old(self).users() && final(self).groups() == old(
                self,
            ).groups(),
            old(self).uid_index().contains_key(username@) && old(self).gid_index().contains_key(
                groupname@,
            ) ==> {
                let uid = old(self).uid_index()[username@];
                let gid = old(self).gid_index()[groupname@];
                let ui = uid_pos(old(self).users(), uid);
                let gi = gid_pos(old(self).groups(), gid);
                let u = old(self).users()[ui];
                let g = old(self).groups()[gi];
                &&& r is Ok
                &&& final(self).users() == old(self).users().update(
                    ui,
                    UserView {
                        groups: if u.groups.contains(gid) {
                            u.groups
                        } else {
                            u.groups.push(gid)
                        },
                        ..u
                    },
                )
                &&& final(self).groups() == old(self).groups().update(
                    gi,
                    GroupView {
                        members: if g.members.contains(uid) {
                            g.members
                        } else {
                            g.members.push(uid)
                        },
                        ..g
                    },
                )
            },
    {
        let uid = match dir_lookup(&self.name_to_uid, username) {
            Some(u) => u,
            None => {
                return Err(VfsError::AuthError { message: prefixed("no such user: ", username) });
            },
        };
        let gid = match dir_lookup(&self.name_to_gid, groupname) {
            Some(g) => g,
            None => {
                return Err(VfsError::AuthError { message: prefixed("no such group: ", groupname) });
            },
        };
        let ui = match self.user_index(uid) {
            Some(i) => i,
            None => {
                proof {
                    assert(false);
                }
                return Ok(());
            },
        };
        let gi = match self.group_index(gid) {
            Some(i) => i,
            None => {
                proof {
                    assert(false);
                }
                return Ok(());
            },
        };
        let ghost old_self = *self;
        proof {
            lemma_pos_is(old_self.users(), uid, ui as int);
            lemma_gpos_is(old_self.groups(), gid, gi as int);
        }
        let mut u = self.users.remove(ui);
        if !contains_id(u.groups.as_slice(), gid) {
            u.groups.push(gid);
        }
        self.users.insert(ui, u);
        let mut g = self.groups.remove(gi);
        if !contains_id(g.members.as_slice(), uid) {
            g.members.push(uid);
        }
        self.groups.insert(gi, g);
        proof {
            assert(self.users@ =~= old_self.users@.update(ui as int, self.users@[ui as int]));
            assert(self.groups@ =~= old_self.groups@.update(gi as int, self.groups@[gi as int]));
            assert(self.users() =~= old_self.users().update(ui as int, self.users@[ui as int]@));
            assert(self.groups() =~= old_self.groups().update(gi as int, self.groups@[gi as int]@));
            self.lemma_inv_after_member_edit(old_self);
        }
        Ok(())
    }

    /// Takes a user out of a group: the group leaves the user's list and the
    /// user the group's members.
    pub fn usermod_remove_group(&mut self, username: &str, groupname: &str) -> (r: Result<
        (),
        VfsError,
    >)
        requires
            old(self).inv(),
        ensures
            final(self).inv(),
            final(self).uid_index() == old(self).uid_index(),
            final(self).gid_index() == old(self).gid_index(),
            final(self).next_uid() == old(self).next_uid(),
            final(self).next_gid() == old(self).next_gid(),
            !old(self).uid_index().contains_key(username@) ==> r is Err && r->Err_0@
                == crate::error::ErrorView::AuthError("no such user: "@ + username@),
            old(self).uid_index().contains_key(username@) && !old(self).gid_index().contains_key(
                groupname@,
            ) ==> r is Err && r->Err_0@ == crate::error::ErrorView::AuthError(
                "no such group: "@ + groupname@,
            ),
            r is Err ==> final(self).users() == old(self).users() && final(self).groups() == old(
                self,
            ).groups(),
            old(self).uid_index().contains_key(username@) && old(self).gid_index().contains_key(
                groupname@,
            ) ==> {
                let uid = old(self).uid_index()[username@];
                let gid = old(self).gid_index()[groupname@];
                let ui = uid_pos(old(self).users(), uid);
                let gi = gid_pos(old(self).groups(), gid);
                let u = old(self).users()[ui];
                let g = old(self).groups()[gi];
                &&& r is Ok
                &&& final(self).users() == old(self).users().update(
                    ui,
                    UserView { groups: without(u.groups, gid), ..u },
                )
                &&& final(self).groups() == old(self).groups().update(
                    gi,
                    GroupView { members: without(g.members, uid), ..g },
                )
            },
    {
        let uid = match dir_lookup(&self.name_to_uid, username) {
            Some(u) => u,
            None => {
                return Err(VfsError::AuthError { message: prefixed("no such user: ", username) });
            },
        };
        let gid = match dir_lookup(&self.name_to_gid, groupname) {
            Some(g) => g,
            None => {
                return Err(VfsError::AuthError { message: prefixed("no such group: ", groupname) });
            },
        };
        let ui = match self.user_index(uid) {
            Some(i) => i,
            None => {
                proof {
                    assert(false);
                }
                return Ok(());
            },
        };
        let gi = match self.group_index(gid) {
            Some(i) => i,
            None => {
                proof {
                    assert(false);
                }
                return Ok(());
            },
        };
        let ghost old_self = *self;
        proof {
            lemma_pos_is(old_self.users(), uid, ui as int);
            lemma_gpos_is(old_self.groups(), gid, gi as int);
        }
        let mut u = self.users.remove(ui);
        remove_id(&mut u.groups, gid);
        self.users.insert(ui, u);
        let mut g = self.groups.remove(gi);
        remove_id(&mut g.members, uid);
        self.groups.insert(gi, g);
        proof {
            assert(self.users@ =~= old_self.users@.update(ui as int, self.users@[ui as int]));
            assert(self.groups@ =~= old_self.groups@.update(gi as int, self.groups@[gi as int]));
            assert(self.users() =~= old_self.users().update(ui as int, self.users@[ui as int]@));
            assert(self.groups() =~= old_self.groups().update(gi as int, self.groups@[gi as int]@));
            self.lemma_inv_after_member_edit(old_self);
        }
        Ok(())
    }

    /// The invariant survives changing only group lists and member lists.
    proof fn lemma_inv_after_member_edit(&self, old_self: Self)
        requires
            old_self.inv(),
            self.name_to_uid == old_self.name_to_uid,
            self.name_to_gid == old_self.name_to_gid,
            self.next_uid == old_self.next_uid,
            self.next_gid == old_self.next_gid,
            self.users().len() == old_self.users().len(),
            self.groups().len() == old_self.groups().len(),
            forall|i: int| 0 <= i < self.users().len() ==> #[trigger] self.users()[i].uid == old_self.users()[i].uid,
            forall|i: int| 0 <= i < self.groups().len() ==> #[trigger] self.groups()[i].gid == old_self.groups()[i].gid,
        ensures
            self.inv(),
    {
        let us = self.users();
        let ous = old_self.users();
        let gs = self.groups();
        let ogs = old_self.groups();
        assert forall|a: int, b: int| 0 <= a < b < us.len() implies #[trigger] us[a].uid
            < #[trigger] us[b].uid by {
            assert(us[a].uid == ous[a].uid);
            assert(us[b].uid == ous[b].uid);
        }
        assert forall|a: int, b: int| 0 <= a < b < gs.len() implies #[trigger] gs[a].gid
            < #[trigger] gs[b].gid by {
            assert(gs[a].gid == ogs[a].gid);
            assert(gs[b].gid == ogs[b].gid);
        }
        assert forall|j: int| 0 <= j < us.len() implies #[trigger] us[j].uid < self.next_uid by {
            assert(us[j].uid == ous[j].uid);
        }
        assert forall|j: int| 0 <= j < gs.len() implies #[trigger] gs[j].gid < self.next_gid by {
            assert(gs[j].gid == ogs[j].gid);
        }
        assert forall|n: Seq<char>| #[trigger] self.uid_index().contains_key(n) implies has_uid(
            us,
            self.uid_index()[n],
        ) by {
            let p = uid_pos(ous, old_self.uid_index()[n]);
            assert(us[p].uid == ous[p].uid);
        }
        assert forall|n: Seq<char>| #[trigger] self.gid_index().contains_key(n) implies has_gid(
            gs,
            self.gid_index()[n],
        ) by {
            let p = gid_pos(ogs, old_self.gid_index()[n]);
            assert(gs[p].gid == ogs[p].gid);
        }
    }

    /// Each user is the one its uid finds.
    pub proof fn lemma_user_at(&self, k: int)
        requires
            self.inv(),
            0 <= k < self.users().len(),
        ensures
            user_of(self.users(), self.users()[k].uid) == Some(self.users()[k]),
    {
        let us = self.users();
        let p = uid_pos(us, us[k].uid);
        assert(has_uid(us, us[k].uid));
        if p < k {
            assert(us[p].uid < us[k].uid);
        } else if p > k {
            assert(us[k].uid < us[p].uid);
        }
    }

    /// A group name in the index belongs to a group.
    pub proof fn lemma_indexed_group(&self, n: Seq<char>)
        requires
            self.inv(),
            self.gid_index().contains_key(n),
        ensures
            group_of(self.groups(), self.gid_index()[n]) is Some,
    {
    }

    /// The group at position `k` is the one its gid finds.
    pub proof fn lemma_group_at(&self, k: int)
        requires
            self.inv(),
            0 <= k < self.groups().len(),
        ensures
            group_of(self.groups(), self.groups()[k].gid) == Some(self.groups()[k]),
    {
        let gs = self.groups();
        let p = gid_pos(gs, gs[k].gid);
        assert(has_gid(gs, gs[k].gid));
        if p < k {
            assert(gs[p].gid < gs[k].gid);
        } else if p > k {
            assert(gs[k].gid < gs[p].gid);
        }
    }

    /// A user name in the index belongs to a user.
    pub proof fn lemma_indexed_user(&self, n: Seq<char>)
        requires
            self.inv(),
            self.uid_index().contains_key(n),
        ensures
            user_of(self.users(), self.uid_index()[n]) is Some,
    {
    }

    /// The ids the next new user and group get.
    pub fn next_ids(&self) -> (r: (Uid, Gid))
        ensures
            r == (self.next_uid(), self.next_gid()),
    {
        (self.next_uid, self.next_gid)
    }

    /// The uid of a user name.
    pub fn lookup_uid(&self, name: &str) -> (r: Option<Uid>)
        requires
            self.inv(),
        ensures
            r == (if self.uid_index().contains_key(name@) {
                Some(self.uid_index()[name@])
            } else {
                None::<Uid>
            }),
    {
        dir_lookup(&self.name_to_uid, name)
    }

    /// The gid of a group name.
    pub fn lookup_gid(&self, name: &str) -> (r: Option<Gid>)
        requires
            self.inv(),
        ensures
            r == (if self.gid_index().contains_key(name@) {
                Some(self.gid_index()[name@])
            } else {
                None::<Gid>
            }),
    {
        dir_lookup(&self.name_to_gid, name)
    }

    /// The user of a uid.
    pub fn get_user(&self, uid: Uid) -> (r: Option<&User>)
        requires
            self.inv(),
        ensures
            match r {
                Some(u) => user_of(self.users(), uid) == Some(u@),
                None => user_of(self.users(), uid) is None,
            },
    {
        match self.user_index(uid) {
            Some(i) => Some(&self.users[i]),
            None => None,
        }
    }

    /// The group of a gid.
    pub fn get_group(&self, gid: Gid) -> (r: Option<&Group>)
        requires
            self.inv(),
        ensures
            match r {
                Some(g) => group_of(self.groups(), gid) == Some(g@),
                None => group_of(self.groups(), gid) is None,
            },
    {
        match self.group_index(gid) {
            Some(i) => Some(&self.groups[i]),
            None => None,
        }
    }

    /// Whether the user of `uid` exists and lists `gid` among its groups.
    pub fn user_in_group(&self, uid: Uid, gid: Gid) -> (r: bool)
        requires
            self.inv(),
        ensures
            r == (user_of(self.users(), uid) matches Some(u) && u.groups.contains(gid)),
    {
        match self.get_user(uid) {
            Some(u) => contains_id(u.groups.as_slice(), gid),
            None => false,
        }
    }

    /// The uid of the user whose stored token hash is the hash of
    /// `raw_token`; the lowest such uid if several match.
    pub fn authenticate_token(&self, raw_token: &str) -> (r: Option<Uid>)
        requires
            self.inv(),
        ensures
            r == first_with_token(self.users(), token_hash(raw_token@)),
    {
        let hash = hash_token(raw_token);
        let mut i: usize = 0;
        assert(self.users().skip(0) =~= self.users());
        while i < self.users.len()
            invariant
                i <= self.users@.len(),
                hash@ == token_hash(raw_token@),
                first_with_token(self.users(), hash@) == first_with_token(
                    self.users().skip(i as int),
                    hash@,
                ),
            decreases self.users.len() - i,
        {
            let matches = match &self.users[i].api_token {
                Some(t) => *t == hash,
                None => false,
            };
            proof {
                let rest = self.users().skip(i as int);
                assert(rest[0] == self.users@[i as int]@);
                assert(rest.drop_first() =~= self.users().skip(i + 1));
            }
            if matches {
                return Some(self.users[i].uid);
            }
            i += 1;
        }
        proof {
            assert(self.users().skip(i as int).len() == 0);
        }
        None
    }

    /// All users, in ascending order of uid.
    pub fn list_users(&self) -> (r: Vec<&User>)
        ensures
            r@.len() == self.users().len(),
            forall|i: int| 0 <= i < r@.len() ==> #[trigger] r@[i]@ == self.users()[i],
    {
        let mut r: Vec<&User> = Vec::new();
        let mut i: usize = 0;
        while i < self.users.len()
            invariant
                i <= self.users@.len(),
                r@.len() == i,
                forall|j: int| 0 <= j < i ==> #[trigger] r@[j]@ == self.users()[j],
            decreases self.users.len() - i,
        {
            r.push(&self.users[i]);
            i += 1;
        }
        r
    }

    /// All groups, in ascending order of gid.
    pub fn list_groups(&self) -> (r: Vec<&Group>)
        ensures
            r@.len() == self.groups().len(),
            forall|i: int| 0 <= i < r@.len() ==> #[trigger] r@[i]@ == self.groups()[i],
    {
        let mut r: Vec<&Group> = Vec::new();
        let mut i: usize = 0;
        while i < self.groups.len()
            invariant
                i <= self.groups@.len(),
                r@.len() == i,
                forall|j: int| 0 <= j < i ==> #[trigger] r@[j]@ == self.groups()[j],
            decreases self.groups.len() - i,
        {
            r.push(&self.groups[i]);
            i += 1;
        }
        r
    }

    /// The name of the group of a gid.
    pub fn group_name(&self, gid: Gid) -> (r: Option<&str>)
        requires
            self.inv(),
        ensures
            match r {
                Some(n) => group_of(self.groups(), gid) matches Some(g) && g.name == n@,
                None => group_of(self.groups(), gid) is None,
            },
    {
        match self.get_group(gid) {
            Some(g) => Some(g.name.as_str()),
            None => None,
        }
    }

    /// The name of the user of a uid.
    pub fn user_name(&self, uid: Uid) -> (r: Option<&str>)
        requires
            self.inv(),
        ensures
            match r {
                Some(n) => user_of(self.users(), uid) matches Some(u) && u.name == n@,
                None => user_of(self.users(), uid) is None,
            },
    {
        match self.get_user(uid) {
            Some(u) => Some(u.name.as_str()),
            None => None,
        }
    }

    /// Whether the user of `uid` is in the wheel group.
    pub fn is_wheel_member(&self, uid: Uid) -> (r: bool)
        requires
            self.inv(),
        ensures
            r == (user_of(self.users(), uid) matches Some(u) && u.groups.contains(WHEEL_GID)),
    {
        self.user_in_group(uid, WHEEL_GID)
    }

    /// Gives an existing user a fresh API token and returns the raw token;
    /// the previous token, if any, no longer authenticates.
    pub fn regenerate_token(&mut self, name: &str) -> (r: Result<String, VfsError>)
        requires
            old(self).inv(),
        ensures
            final(self).inv(),
            final(self).groups() == old(self).groups(),
            final(self).uid_index() == old(self).uid_index(),
            final(self).gid_index() == old(self).gid_index(),
            final(self).next_uid() == old(self).next_uid(),
            final(self).next_gid() == old(self).next_gid(),
            !old(self).uid_index().contains_key(name@) ==> r is Err && r->Err_0@
                == crate::error::ErrorView::AuthError("no such user: "@ + name@)
                && final(self).users() == old(self).users(),
            old(self).uid_index().contains_key(name@) ==> {
                let uid = old(self).uid_index()[name@];
                let ui = uid_pos(old(self).users(), uid);
                &&& r is Ok
                &&& is_generated_token(r->Ok_0@)
                &&& final(self).users() == old(self).users().update(
                    ui,
                    UserView { api_token: Some(token_hash(r->Ok_0@)), ..old(self).users()[ui] },
                )
            },
    {
        let uid = match dir_lookup(&self.name_to_uid, name) {
            Some(u) => u,
            None => {
                return Err(VfsError::AuthError { message: prefixed("no such user: ", name) });
            },
        };
        let ui = match self.user_index(uid) {
            Some(i) => i,
            None => {
                proof {
                    assert(false);
                }
                return Err(VfsError::AuthError { message: prefixed("no such user: ", name) });
            },
        };
        let ghost old_self = *self;
        proof {
            lemma_pos_is(old_self.users(), uid, ui as int);
        }
        let raw = generate_token();
        let hash = hash_token(raw.as_str());
        let mut u = self.users.remove(ui);
        u.api_token = Some(hash);
        self.users.insert(ui, u);
        proof {
            assert(self.users@ =~= old_self.users@.update(ui as int, self.users@[ui as int]));
            assert(self.users() =~= old_self.users().update(ui as int, self.users@[ui as int]@));
            self.lemma_inv_after_member_edit(old_self);
        }
        Ok(raw)
    }
}

/// In an ascending list, the position of a uid is the one found.
proof fn lemma_pos_is(us: Seq<UserView>, uid: Uid, i: int)
    requires
        uids_ascending(us),
        0 <= i < us.len(),
        us[i].uid == uid,
    ensures
        uid_pos(us, uid) == i,
{
    let p = uid_pos(us, uid);
    if p != i {
        if p < i {
            assert(us[p].uid < us[i].uid);
        } else {
            assert(us[i].uid < us[p].uid);
        }
    }
}

/// In an ascending list, the position of a gid is the one found.
proof fn lemma_gpos_is(gs: Seq<GroupView>, gid: Gid, i: int)
    requires
        gids_ascending(gs),
        0 <= i < gs.len(),
        gs[i].gid == gid,
    ensures
        gid_pos(gs, gid) == i,
{
    let p = gid_pos(gs, gid);
    if p != i {
        if p < i {
            assert(gs[p].gid < gs[i].gid);
        } else {
            assert(gs[i].gid < gs[p].gid);
        }
    }
}

/// Whether no two entries of an index share an id.
fn distinct_ids(es: &Vec<(String, u32)>) -> (r: bool)
    ensures
        r <==> forall|a: int, b: int| 0 <= a < b < es@.len() ==> #[trigger] es@[a].1 != #[trigger] es@[b].1,
{
    let mut i: usize = 0;
    while i < es.len()
        invariant
            i <= es@.len(),
            forall|a: int, b: int| 0 <= a < b < es@.len() && a < i ==> #[trigger] es@[a].1 != #[trigger] es@[b].1,
        decreases es.len() - i,
    {
        let mut j: usize = i + 1;
        while j < es.len()
            invariant
                i < es@.len(),
                i + 1 <= j <= es@.len(),
                forall|a: int, b: int| 0 <= a < b < es@.len() && a < i ==> #[trigger] es@[a].1 != #[trigger] es@[b].1,
                forall|b: int| i < b < j ==> es@[i as int].1 != #[trigger] es@[b].1,
            decreases es.len() - j,
        {
            if es[i].1 == es[j].1 {
                return false;
            }
            j += 1;
        }
        i += 1;
    }
    true
}

/// A sorted index with distinct ids maps distinct names to distinct ids.
proof fn lemma_distinct_injective(es: Seq<(String, u32)>)
    requires
        names_sorted(es),
        forall|a: int, b: int| 0 <= a < b < es.len() ==> #[trigger] es[a].1 != #[trigger] es[b].1,
    ensures
        injective(dir_map(es)),
{
    assert forall|x: Seq<char>, y: Seq<char>|
        dir_map(es).contains_key(x) && dir_map(es).contains_key(y) && x != y implies #[trigger] dir_map(es)[x]
        != #[trigger] dir_map(es)[y] by {
        let i = choose|i: int| 0 <= i < es.len() && #[trigger] es[i].0@ == x;
        let j = choose|j: int| 0 <= j < es.len() && #[trigger] es[j].0@ == y;
        lemma_sorted_target(es, i);
        lemma_sorted_target(es, j);
        if i < j {
        } else if j < i {
        }
    }
}

/// Saved parts of a registry that hold together: indexes sorted by name
/// and naming no id twice, users and groups in ascending order of id and
/// below the next ids, and every indexed id that of a user or group.
pub open spec fn parts_valid(
    us: Seq<UserView>,
    gs: Seq<GroupView>,
    ui: Seq<(String, Uid)>,
    gi: Seq<(String, Gid)>,
    next_uid: Uid,
    next_gid: Gid,
) -> bool {
    &&& names_sorted(ui)
    &&& names_sorted(gi)
    &&& forall|a: int, b: int| 0 <= a < b < ui.len() ==> #[trigger] ui[a].1 != #[trigger] ui[b].1
    &&& forall|a: int, b: int| 0 <= a < b < gi.len() ==> #[trigger] gi[a].1 != #[trigger] gi[b].1
    &&& uids_ascending(us)
    &&& gids_ascending(gs)
    &&& forall|i: int| 0 <= i < us.len() ==> #[trigger] us[i].uid < next_uid
    &&& forall|i: int| 0 <= i < gs.len() ==> #[trigger] gs[i].gid < next_gid
    &&& forall|a: int| 0 <= a < ui.len() ==> has_uid(us, #[trigger] ui[a].1)
    &&& forall|a: int| 0 <= a < gi.len() ==> has_gid(gs, #[trigger] gi[a].1)
}

impl UserRegistry {
    /// The parts of the registry, to save: users, groups, the two indexes
    /// and the next ids.
    pub fn parts(&self) -> (r: (&Vec<User>, &Vec<Group>, &Vec<(String, Uid)>, &Vec<(String, Gid)>, Uid, Gid))
        ensures
            r.0@.map_values(|u: User| u@) == self.users(),
            r.1@.map_values(|g: Group| g@) == self.groups(),
            dir_map(r.2@) == self.uid_index(),
            dir_map(r.3@) == self.gid_index(),
            r.4 == self.next_uid(),
            r.5 == self.next_gid(),
    {
        (&self.users, &self.groups, &self.name_to_uid, &self.name_to_gid, self.next_uid, self.next_gid)
    }

    /// A registry made of saved parts, when they hold together: indexes
    /// sorted by name, ids ascending and below the next ids, every indexed
    /// name naming a user or group, and no two names one id.
    pub fn from_parts(
        users: Vec<User>,
        groups: Vec<Group>,
        name_to_uid: Vec<(String, Uid)>,
        name_to_gid: Vec<(String, Gid)>,
        next_uid: Uid,
        next_gid: Gid,
    ) -> (r: Option<Self>)
        ensures
            r is Some <==> parts_valid(
                users@.map_values(|u: User| u@),
                groups@.map_values(|g: Group| g@),
                name_to_uid@,
                name_to_gid@,
                next_uid,
                next_gid,
            ),
            r matches Some(reg) ==> reg.inv() && reg.users() == users@.map_values(|u: User| u@) && reg.groups()
                == groups@.map_values(|g: Group| g@) && reg.uid_index() == dir_map(name_to_uid@)
                && reg.gid_index() == dir_map(name_to_gid@) && reg.next_uid() == next_uid && reg.next_gid()
                == next_gid,
    {
        if !check_sorted(&name_to_uid) || !check_sorted(&name_to_gid) {
            return None;
        }
        if !distinct_ids(&name_to_uid) || !distinct_ids(&name_to_gid) {
            return None;
        }
        let ghost us = users@.map_values(|u: User| u@);
        let ghost gs = groups@.map_values(|g: Group| g@);
        let mut i: usize = 0;
        while i < users.len()
            invariant
                i <= users@.len(),
                us == users@.map_values(|u: User| u@),
                forall|a: int| 0 <= a < i ==> #[trigger] us[a].uid < next_uid,
                forall|a: int, b: int| 0 <= a < b < i ==> #[trigger] us[a].uid < #[trigger] us[b].uid,
            decreases users.len() - i,
        {
            proof {
                assert(us[i as int].uid == users@[i as int].uid);
                if i > 0 {
                    assert(us[i - 1].uid == users@[i - 1].uid);
                }
            }
            if users[i].uid >= next_uid {
                return None;
            }
            if i > 0 && users[i - 1].uid >= users[i].uid {
                proof {
                    assert(!uids_ascending(us)) by {
                        assert(us[i - 1].uid >= us[i as int].uid);
                    }
                }
                return None;
            }
            proof {
                assert(us[i as int].uid == users@[i as int].uid);
                if i > 0 {
                    assert(us[i - 1].uid == users@[i - 1].uid);
                }
            }
            i += 1;
        }
        let mut i: usize = 0;
        while i < groups.len()
            invariant
                i <= groups@.len(),
                gs == groups@.map_values(|g: Group| g@),
                forall|a: int| 0 <= a < i ==> #[trigger] gs[a].gid < next_gid,
                forall|a: int, b: int| 0 <= a < b < i ==> #[trigger] gs[a].gid < #[trigger] gs[b].gid,
            decreases groups.len() - i,
        {
            proof {
                assert(gs[i as int].gid == groups@[i as int].gid);
                if i > 0 {
                    assert(gs[i - 1].gid == groups@[i - 1].gid);
                }
            }
            if groups[i].gid >= next_gid {
                return None;
            }
            if i > 0 && groups[i - 1].gid >= groups[i].gid {
                proof {
                    assert(!gids_ascending(gs)) by {
                        assert(gs[i - 1].gid >= gs[i as int].gid);
                    }
                }
                return None;
            }
            proof {
                assert(gs[i as int].gid == groups@[i as int].gid);
                if i > 0 {
                    assert(gs[i - 1].gid == groups@[i - 1].gid);
                }
            }
            i += 1;
        }
        let mut k: usize = 0;
        while k < name_to_uid.len()
            invariant
                k <= name_to_uid@.len(),
                us == users@.map_values(|u: User| u@),
                forall|a: int| 0 <= a < k ==> has_uid(us, #[trigger] name_to_uid@[a].1),
            decreases name_to_uid.len() - k,
        {
            let want = name_to_uid[k].1;
            let mut found = false;
            let mut j: usize = 0;
            while j < users.len()
                invariant
                    j <= users@.len(),
                    us == users@.map_values(|u: User| u@),
                    found ==> has_uid(us, want),
                    !found ==> forall|jj: int| 0 <= jj < j ==> #[trigger] us[jj].uid != want,
                decreases users.len() - j,
            {
                proof {
                    assert(us[j as int].uid == users@[j as int].uid);
                }
                if users[j].uid == want {
                    assert(us[j as int].uid == want);
                    found = true;
                }
                j += 1;
            }
            if !found {
                return None;
            }
            k += 1;
        }
        let mut k: usize = 0;
        while k < name_to_gid.len()
            invariant
                k <= name_to_gid@.len(),
                gs == groups@.map_values(|g: Group| g@),
                forall|a: int| 0 <= a < k ==> has_gid(gs, #[trigger] name_to_gid@[a].1),
            decreases name_to_gid.len() - k,
        {
            let want = name_to_gid[k].1;
            let mut found = false;
            let mut j: usize = 0;
            while j < groups.len()
                invariant
                    j <= groups@.len(),
                    gs == groups@.map_values(|g: Group| g@),
                    found ==> has_gid(gs, want),
                    !found ==> forall|jj: int| 0 <= jj < j ==> #[trigger] gs[jj].gid != want,
                decreases groups.len() - j,
            {
                proof {
                    assert(gs[j as int].gid == groups@[j as int].gid);
                }
                if groups[j].gid == want {
                    assert(gs[j as int].gid == want);
                    found = true;
                }
                j += 1;
            }
            if !found {
                return None;
            }
            k += 1;
        }
        proof {
            lemma_distinct_injective(name_to_uid@);
            lemma_distinct_injective(name_to_gid@);
            assert forall|n: Seq<char>| #[trigger] dir_map(name_to_uid@).contains_key(n) implies has_uid(
                us,
                dir_map(name_to_uid@)[n],
            ) by {
                let i = choose|i: int| 0 <= i < name_to_uid@.len() && #[trigger] name_to_uid@[i].0@ == n;
                lemma_sorted_target(name_to_uid@, i);
            }
            assert forall|n: Seq<char>| #[trigger] dir_map(name_to_gid@).contains_key(n) implies has_gid(
                gs,
                dir_map(name_to_gid@)[n],
            ) by {
                let i = choose|i: int| 0 <= i < name_to_gid@.len() && #[trigger] name_to_gid@[i].0@ == n;
                lemma_sorted_target(name_to_gid@, i);
            }
        }
        Some(UserRegistry { users, groups, name_to_uid, name_to_gid, next_uid, next_gid })
    }
}

/// A token authenticates the user added last with it, unless an earlier
/// user holds the same token hash.
pub proof fn lemma_token_of_last(us: Seq<UserView>, u: UserView, hash: Seq<char>)
    requires
        forall|i: int| 0 <= i < us.len() ==> #[trigger] us[i].api_token != Some(hash),
        u.api_token == Some(hash),
    ensures
        first_with_token(us.push(u), hash) == Some(u.uid),
    decreases us.len(),
{
    if us.len() > 0 {
        assert(us.push(u).drop_first() =~= us.drop_first().push(u));
        assert forall|i: int| 0 <= i < us.drop_first().len() implies #[trigger] us.drop_first()[i].api_token != Some(
            hash,
        ) by {
            assert(us.drop_first()[i] == us[i + 1]);
        }
        lemma_token_of_last(us.drop_first(), u, hash);
    }
}

/// The first user holding a hash that no user before it holds is the one
/// the hash finds.
proof fn lemma_first_with_token_at(us: Seq<UserView>, hash: Seq<char>, k: int)
    requires
        0 <= k < us.len(),
        us[k].api_token == Some(hash),
        forall|j: int| 0 <= j < k ==> us[j].api_token != Some(hash),
    ensures
        first_with_token(us, hash) == Some(us[k].uid),
    decreases k,
{
    if k > 0 {
        lemma_first_with_token_at(us.drop_first(), hash, k - 1);
    }
}

/// What a hash finds is a user holding that hash.
proof fn lemma_first_with_token_holds(us: Seq<UserView>, hash: Seq<char>)
    ensures
        first_with_token(us, hash) matches Some(u) ==> exists|j: int|
            0 <= j < us.len() && #[trigger] us[j].uid == u && us[j].api_token == Some(hash),
    decreases us.len(),
{
    if us.len() > 0 && us[0].api_token != Some(hash) {
        lemma_first_with_token_holds(us.drop_first(), hash);
        if let Some(u) = first_with_token(us, hash) {
            let j = choose|j: int|
                0 <= j < us.drop_first().len() && #[trigger] us.drop_first()[j].uid == u
                    && us.drop_first()[j].api_token == Some(hash);
            assert(us[j + 1].uid == u);
        }
    }
}

/// A regenerated token signs in as its user, and a token with another
/// hash, such as the one it replaced, no longer signs in as that user: the
/// users after the call are those before with the user at `ui` holding
/// the new hash, and no other user holds that hash or that uid.
pub proof fn lemma_regenerated_token(us: Seq<UserView>, ui: int, raw: Seq<char>, other: Seq<char>)
    requires
        0 <= ui < us.len(),
        forall|j: int| 0 <= j < us.len() && j != ui ==> us[j].uid != us[ui].uid,
        forall|j: int| 0 <= j < us.len() && j != ui ==> us[j].api_token != Some(token_hash(raw)),
        token_hash(other) != token_hash(raw),
    ensures
        ({
            let after = us.update(ui, UserView { api_token: Some(token_hash(raw)), ..us[ui] });
            &&& first_with_token(after, token_hash(raw)) == Some(us[ui].uid)
            &&& first_with_token(after, token_hash(other)) != Some(us[ui].uid)
        }),
{
    let after = us.update(ui, UserView { api_token: Some(token_hash(raw)), ..us[ui] });
    lemma_first_with_token_at(after, token_hash(raw), ui);
    lemma_first_with_token_holds(after, token_hash(other));
    if first_with_token(after, token_hash(other)) == Some(us[ui].uid) {
        let j = choose|j: int|
            0 <= j < after.len() && #[trigger] after[j].uid == us[ui].uid && after[j].api_token == Some(
                token_hash(other),
            );
        assert(j == ui);
    }
}

} // verus!
