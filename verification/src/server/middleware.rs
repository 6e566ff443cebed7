//! Who a request comes from: the principal named by its authorization
//! header, and the user or group it acts for, named by the delegation
//! header. Reading the headers belongs to the server.

use vstd::prelude::*;
use crate::auth::registry::{first_with_token, token_hash, user_of};
use crate::auth::session::{DelegateContext, Session};
use crate::auth::{first_or_zero, Gid, ROOT_UID, WHEEL_GID};
use crate::cmd::parser::{trim, trim_chars};
use crate::db::DbState;
use crate::error::{ErrorView, VfsError};
use crate::repl::session_of;
use crate::text::{from_chars, has_prefix, owned, push_str, strip_prefix, to_chars};

verus! {

/// The header that names whom a request acts for.
pub const DELEGATE_HEADER: &'static str = "x-markdownfs-on-behalf-of";

/// The session a token authenticates, or the error.
pub open spec fn token_session(db: &DbState, token: Seq<char>, s: Session) -> Result<bool, ErrorView> {
    match first_with_token(db.fs.reg().users(), token_hash(token)) {
        None => Err(ErrorView::AuthError("invalid token"@)),
        Some(uid) => match user_of(db.fs.reg().users(), uid) {
            Some(u) => Ok(session_of(s, u)),
            None => Err(ErrorView::AuthError("token user not found"@)),
        },
    }
}

/// Whether a result is the session of the user named `name`, or the
/// error of a name without a user.
pub open spec fn named_session(db: &DbState, name: Seq<char>, r: Result<Session, VfsError>) -> bool {
    if !db.fs.reg().uid_index().contains_key(name) {
        r is Err && r->Err_0@ == ErrorView::AuthError("unknown user: "@ + name)
    } else {
        r is Ok && (user_of(db.fs.reg().users(), db.fs.reg().uid_index()[name]) matches Some(u) && session_of(
            r->Ok_0,
            u,
        ))
    }
}

/// Whether a result is the session of the token, or its error.
pub open spec fn tokened_session(db: &DbState, token: Seq<char>, r: Result<Session, VfsError>) -> bool {
    match first_with_token(db.fs.reg().users(), token_hash(token)) {
        None => r is Err && r->Err_0@ == ErrorView::AuthError("invalid token"@),
        Some(uid) => match user_of(db.fs.reg().users(), uid) {
            Some(u) => r is Ok && session_of(r->Ok_0, u),
            None => r is Err && r->Err_0@ == ErrorView::AuthError("token user not found"@),
        },
    }
}

/// The root session's identity.
pub open spec fn is_root_session(s: Session) -> bool {
    s.uid == ROOT_UID && s.gid == 0 && s.groups@ == seq![0u32, 1u32] && s.username@ == "root"@ && s.delegate is None
}

/// The principal of a request from its authorization header: `Bearer
/// <token>` authenticates by token, `User <name>` by name; without a header
/// (or with another form) the request is root's.
pub fn principal_from_header(db: &DbState, authorization: Option<&str>) -> (r: Result<Session, VfsError>)
    requires
        db.inv(),
    ensures
        match authorization {
            None => r is Ok && is_root_session(r->Ok_0),
            Some(h) => if has_prefix(h@, "Bearer "@) {
                tokened_session(db, h@.skip(7), r)
            } else if has_prefix(h@, "User "@) {
                named_session(db, h@.skip(5), r)
            } else {
                r is Ok && is_root_session(r->Ok_0)
            },
        },
{
    proof {
        reveal_strlit("Bearer ");
        reveal_strlit("User ");
    }
    if let Some(h) = authorization {
        if let Some(token) = strip_prefix(h, "Bearer ") {
            return db.authenticate_token(token.as_str());
        }
        if let Some(username) = strip_prefix(h, "User ") {
            return db.login(username.as_str());
        }
    }
    Ok(Session::root())
}

/// The delegate that acts as a session's user.
fn delegate_of(s: Session) -> (r: DelegateContext)
    ensures
        r.uid == s.uid,
        r.gid == s.gid,
        r.groups@ == s.groups@,
        r.username@ == s.username@,
{
    DelegateContext { uid: s.uid, gid: s.gid, groups: s.groups, username: s.username }
}

/// Whether a delegate is the one a session of user `u` would be.
pub open spec fn delegates_user(d: DelegateContext, u: crate::auth::registry::UserView) -> bool {
    d.uid == u.uid && d.gid == first_or_zero(u.groups) && d.groups@ == u.groups && d.username@ == u.name
}

/// Whether the principal may delegate by user or group name: root, the
/// wheel group and agents may.
pub open spec fn may_delegate(db: &DbState, session: Session) -> bool {
    session.spec_is_effectively_root() || (user_of(db.fs.reg().users(), session.uid) matches Some(u) && (
    u.groups.contains(WHEEL_GID) || u.is_agent))
}

/// Attaches the delegate named by the delegation header to a session.
/// `Bearer <token>` names the delegate by token; `User <name>`, a bare
/// name, or `:<group>` (acting as a group, with no user) are for principals
/// that may delegate by name.
pub fn apply_delegation(db: &DbState, header: Option<&str>, session: &mut Session) -> (r: Result<(), VfsError>)
    requires
        db.inv(),
    ensures
        r is Err ==> *final(session) == *old(session),
        final(session).uid == old(session).uid,
        final(session).gid == old(session).gid,
        final(session).groups == old(session).groups,
        final(session).username == old(session).username,
        match header {
            None => r is Ok && *final(session) == *old(session),
            Some(raw) => {
                let t = trim(raw@);
                if t.len() == 0 {
                    r is Ok && *final(session) == *old(session)
                } else if has_prefix(t, "Bearer "@) {
                    match first_with_token(db.fs.reg().users(), token_hash(t.skip(7))) {
                        None => r is Err && r->Err_0@ == ErrorView::AuthError("invalid token"@),
                        Some(uid) => match user_of(db.fs.reg().users(), uid) {
                            Some(u) => r is Ok && (final(session).delegate matches Some(d) && delegates_user(d, u)),
                            None => r is Err && r->Err_0@ == ErrorView::AuthError("token user not found"@),
                        },
                    }
                } else {
                    let target = if has_prefix(t, "User "@) {
                        t.skip(5)
                    } else {
                        t
                    };
                    if !may_delegate(db, *old(session)) {
                        r is Err && r->Err_0@ == ErrorView::PermissionDenied(
                            "delegate: only agents or admins can delegate by username"@,
                        )
                    } else if target.len() > 0 && target[0] == ':' {
                        let g = target.skip(1);
                        if !db.fs.reg().gid_index().contains_key(g) {
                            r is Err && r->Err_0@ == ErrorView::AuthError("no such group: "@ + g)
                        } else {
                            let gid = db.fs.reg().gid_index()[g];
                            r is Ok && (final(session).delegate matches Some(d) && d.uid == u32::MAX && d.gid == gid
                                && d.groups@ == seq![gid] && d.username@ == ":"@ + g)
                        }
                    } else if !db.fs.reg().uid_index().contains_key(target) {
                        r is Err && r->Err_0@ == ErrorView::AuthError("unknown user: "@ + target)
                    } else {
                        r is Ok && (user_of(db.fs.reg().users(), db.fs.reg().uid_index()[target]) matches Some(u)
                            && final(session).delegate matches Some(d) && delegates_user(d, u))
                    }
                }
            },
        },
{
    let raw = match header {
        Some(v) => v,
        None => {
            return Ok(());
        },
    };
    let trimmed = from_chars(trim_chars(&to_chars(raw)).as_slice());
    if trimmed.as_str().unicode_len() == 0 {
        return Ok(());
    }
    proof {
        reveal_strlit("Bearer ");
        reveal_strlit("User ");
        reveal_strlit(":");
    }
    if let Some(token) = strip_prefix(trimmed.as_str(), "Bearer ") {
        let delegate_session = db.authenticate_token(token.as_str())?;
        session.delegate = Some(delegate_of(delegate_session));
        return Ok(());
    }
    let target = match strip_prefix(trimmed.as_str(), "User ") {
        Some(t) => t,
        None => trimmed,
    };
    if !session.is_effectively_root() {
        let (is_wheel, is_agent) = db.principal_flags(session.uid);
        if !is_wheel && !is_agent {
            return Err(
                VfsError::PermissionDenied { path: owned("delegate: only agents or admins can delegate by username") },
            );
        }
    }
    proof {
        if target@.len() > 0 && target@[0] == ':' {
            assert(target@.subrange(0, 1) =~= ":"@);
        }
        if has_prefix(target@, ":"@) {
            assert(target@.subrange(0, 1)[0] == ":"@[0]);
        }
    }
    if let Some(group_name) = strip_prefix(target.as_str(), ":") {
        let gid: Gid = match db.fs.registry().lookup_gid(group_name.as_str()) {
            Some(g) => g,
            None => {
                let mut message = owned("no such group: ");
                push_str(&mut message, group_name.as_str());
                return Err(VfsError::AuthError { message });
            },
        };
        let mut groups: Vec<Gid> = Vec::new();
        groups.push(gid);
        let mut username = owned(":");
        push_str(&mut username, group_name.as_str());
        session.delegate = Some(DelegateContext { uid: u32::MAX, gid, groups, username });
    } else {
        let user_session = db.login(target.as_str())?;
        session.delegate = Some(delegate_of(user_session));
    }
    Ok(())
}

} // verus!
