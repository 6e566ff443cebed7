//! The HTTP front end: who a request is, path handling, permission checks
//! and what each route does.

pub mod middleware;
pub mod paths;
pub mod perms;
pub mod routes_admin;
pub mod routes_auth;
pub mod routes_fs;
pub mod routes_vcs;
pub mod routes_workspace;
