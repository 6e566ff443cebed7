pub mod auth;
pub mod client;
pub mod codec;
pub mod config;
pub mod db;
pub mod cmd;
pub mod error;
pub mod fs;
pub mod hash;
pub mod listing;
pub mod mcp;
pub mod pattern;
pub mod posix;
pub mod remote;
pub mod repl;
pub mod server;
pub mod store;
pub mod text;
pub mod vcs;
pub mod workspace;
