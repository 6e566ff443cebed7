//! What the HTTP client sends and reads back: the headers that carry who
//! it acts as, and the listings, search results and commits a server
//! answers. Sending requests belongs to the client program.

use vstd::prelude::*;
use crate::text::{owned, push_str};
use crate::workspace::{uuid_string, uuid_text};

verus! {

/// A directory listing.
#[derive(Debug)]
pub struct ClientLsResponse {
    pub path: String,
    pub entries: Vec<ClientLsEntry>,
}

/// An entry of a listing, with its kind.
#[derive(Debug)]
pub struct ClientLsEntry {
    pub name: String,
    pub kind: String,
}

/// A line that matched a search.
#[derive(Debug)]
pub struct ClientGrepResult {
    pub file: String,
    pub line_num: usize,
    pub line: String,
}

/// The lines that matched a search, and how many.
#[derive(Debug)]
pub struct ClientGrepResponse {
    pub results: Vec<ClientGrepResult>,
    pub count: usize,
}

/// The paths a find gave, and how many.
#[derive(Debug)]
pub struct ClientFindResponse {
    pub results: Vec<String>,
    pub count: usize,
}

/// A commit just made.
#[derive(Debug)]
pub struct ClientCommit {
    pub hash: String,
    pub message: String,
    pub author: String,
}

/// The history.
#[derive(Debug)]
pub struct ClientLogResponse {
    pub commits: Vec<ClientCommitLog>,
}

/// A commit of the history, with its time.
#[derive(Debug)]
pub struct ClientCommitLog {
    pub hash: String,
    pub message: String,
    pub author: String,
    pub timestamp: u64,
}

/// Who the client acts as: root (no header), a named user, the holder of an
/// API token, or an agent of a workspace holding its secret.
#[derive(Debug)]
pub enum ClientAuth {
    Root,
    User(String),
    Bearer(String),
    WorkspaceBearer { workspace_id: u128, secret: String },
}

/// A header the client sends: its name, its value, and what the value
/// holds, for the message shown when the value is not a valid header value.
#[derive(Debug)]
pub struct AuthHeader {
    pub name: String,
    pub value: String,
    pub what: String,
}

/// The value of a header as (name, value, what it holds).
pub open spec fn header_view(h: AuthHeader) -> (Seq<char>, Seq<char>, Seq<char>) {
    (h.name@, h.value@, h.what@)
}

/// The headers that say who the client acts as.
pub open spec fn auth_headers_of(auth: ClientAuth) -> Seq<(Seq<char>, Seq<char>, Seq<char>)> {
    match auth {
        ClientAuth::Root => Seq::empty(),
        ClientAuth::User(name) => seq![("authorization"@, "User "@ + name@, "username"@)],
        ClientAuth::Bearer(token) => seq![("authorization"@, "Bearer "@ + token@, "bearer"@)],
        ClientAuth::WorkspaceBearer { workspace_id, secret } => seq![
            ("authorization"@, "Bearer "@ + secret@, "workspace bearer"@),
            ("x-markdownfs-workspace"@, uuid_text(workspace_id), "workspace"@),
        ],
    }
}

fn header(name: &str, value: String, what: &str) -> (r: AuthHeader)
    ensures
        header_view(r) == (name@, value@, what@),
{
    AuthHeader { name: owned(name), value, what: owned(what) }
}

/// The headers that say who the client acts as: `authorization` with
/// "User <name>" or "Bearer <token>", and for a workspace agent also
/// `x-markdownfs-workspace` with the workspace's hyphenated id.
pub fn auth_headers(auth: &ClientAuth) -> (r: Vec<AuthHeader>)
    ensures
        r@.map_values(|h: AuthHeader| header_view(h)) == auth_headers_of(*auth),
{
    match auth {
        ClientAuth::Root => Vec::new(),
        ClientAuth::User(name) => {
            let mut v = owned("User ");
            push_str(&mut v, name.as_str());
            let h = header("authorization", v, "username");
            let r = vec![h];
            proof {
                assert(r@.map_values(|h: AuthHeader| header_view(h)) =~= auth_headers_of(*auth));
            }
            r
        },
        ClientAuth::Bearer(token) => {
            let mut v = owned("Bearer ");
            push_str(&mut v, token.as_str());
            let h = header("authorization", v, "bearer");
            let r = vec![h];
            proof {
                assert(r@.map_values(|h: AuthHeader| header_view(h)) =~= auth_headers_of(*auth));
            }
            r
        },
        ClientAuth::WorkspaceBearer { workspace_id, secret } => {
            let mut v = owned("Bearer ");
            push_str(&mut v, secret.as_str());
            let h1 = header("authorization", v, "workspace bearer");
            let h2 = header("x-markdownfs-workspace", uuid_string(*workspace_id), "workspace");
            let r = vec![h1, h2];
            proof {
                assert(r@.map_values(|h: AuthHeader| header_view(h)) =~= auth_headers_of(*auth));
            }
            r
        },
    }
}

} // verus!
