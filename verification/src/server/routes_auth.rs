//! The authentication routes: logging in, who a request is, and creating
//! the first administrator of an empty system.

use vstd::prelude::*;
use crate::auth::registry::{token_hash, user_of};
use crate::auth::session::Session;
use crate::auth::{copy_ids, Gid, Uid};
use crate::db::DbState;
use crate::repl::has_other_user;
use crate::text::{has_prefix, owned, starts_with, to_chars};
use super::routes_fs::HttpError;

verus! {

/// A request to log in as a user.
#[derive(Debug)]
pub struct LoginRequest {
    pub username: String,
}

/// A request to create the first administrator.
#[derive(Debug)]
pub struct BootstrapRequest {
    pub username: String,
}

/// The identity a login gives.
#[derive(Debug)]
pub struct LoginResponse {
    pub username: String,
    pub uid: Uid,
    pub gid: Gid,
    pub groups: Vec<Gid>,
}

/// Who a request is: its user, whether that is root, whether the request
/// named itself, and the delegate's name when it acts for someone.
#[derive(Debug)]
pub struct WhoAmI {
    pub username: String,
    pub uid: Uid,
    pub gid: Gid,
    pub groups: Vec<Gid>,
    pub is_root: bool,
    pub authenticated: bool,
    pub on_behalf_of: Option<String>,
}

/// An error answer.
#[derive(Debug)]
pub struct ErrorResponse {
    pub error: String,
}

/// The answer to a login.
pub fn login_response(session: &Session) -> (r: LoginResponse)
    ensures
        r.username@ == session.username@,
        r.uid == session.uid,
        r.gid == session.gid,
        r.groups@ == session.groups@,
{
    LoginResponse {
        username: owned(session.username.as_str()),
        uid: session.uid,
        gid: session.gid,
        groups: copy_ids(&session.groups),
    }
}

/// Who a session is; `authorization` is the request's authorization header
/// (empty when absent), which counts as authenticating when it is a
/// `Bearer` or `User` form.
pub fn whoami(session: &Session, authorization: &str) -> (r: WhoAmI)
    ensures
        r.username@ == session.username@,
        r.uid == session.uid,
        r.gid == session.gid,
        r.groups@ == session.groups@,
        r.is_root == session.spec_is_effectively_root(),
        r.authenticated == (has_prefix(authorization@, "Bearer "@) || has_prefix(authorization@, "User "@)),
        match session.delegate {
            Some(d) => r.on_behalf_of matches Some(n) && n@ == d.username@,
            None => r.on_behalf_of is None,
        },
{
    let h = to_chars(authorization);
    let bearer = to_chars("Bearer ");
    let user = to_chars("User ");
    let authenticated = starts_with(h.as_slice(), bearer.as_slice()) || starts_with(h.as_slice(), user.as_slice());
    let on_behalf_of = match &session.delegate {
        Some(d) => Some(owned(d.username.as_str())),
        None => None,
    };
    WhoAmI {
        username: owned(session.username.as_str()),
        uid: session.uid,
        gid: session.gid,
        groups: copy_ids(&session.groups),
        is_root: session.is_effectively_root(),
        authenticated,
        on_behalf_of,
    }
}

/// Creates the first administrator of a system without users and returns
/// a fresh token for it; refused (409) once any user other than root
/// exists. Also says whether the database changed.
pub fn bootstrap(db: &mut DbState, username: &str) -> (r: (Result<String, HttpError>, bool))
    requires
        old(db).inv(),
    ensures
        final(db).inv(),
        has_other_user(old(db).fs.reg().users()) ==> r.0 is Err && r.0->Err_0.status == 409
            && r.0->Err_0.message@ == "users already exist; bootstrap is only for empty workspaces"@ && *final(db)
            == *old(db) && !r.1,
        r.0 is Ok ==> r.1 && final(db).fs.reg().uid_index().contains_key(username@) && (user_of(
            final(db).fs.reg().users(),
            final(db).fs.reg().uid_index()[username@],
        ) matches Some(u) && u.api_token == Some(token_hash(r.0->Ok_0@))),
{
    if db.has_users() {
        return (
            Err(
                HttpError {
                    status: 409,
                    message: owned("users already exist; bootstrap is only for empty workspaces"),
                },
            ),
            false,
        );
    }
    if let Err(e) = db.create_admin(username) {
        return (Err(HttpError { status: 400, message: e.message() }), false);
    }
    match db.admin_issue_token(&Session::root(), username) {
        Ok(token) => (Ok(token), true),
        Err(e) => (Err(HttpError { status: 500, message: e.message() }), true),
    }
}

} // verus!
