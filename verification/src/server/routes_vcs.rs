//! The version-control routes' requests.

use vstd::prelude::*;

verus! {

/// A request to commit with a message.
#[derive(Debug)]
pub struct CommitRequest {
    pub message: String,
}

/// A request to go back to a commit, named by a prefix of its id.
#[derive(Debug)]
pub struct RevertRequest {
    pub hash: String,
}

} // verus!
