//! The workspace routes' requests.

use vstd::prelude::*;

verus! {

/// A request to create a workspace rooted at a path.
#[derive(Debug)]
pub struct CreateWorkspaceRequest {
    pub name: String,
    pub root_path: String,
}

/// A request to issue a token for an agent in a workspace.
#[derive(Debug)]
pub struct IssueTokenRequest {
    pub name: String,
    pub agent_token: String,
}

} // verus!
