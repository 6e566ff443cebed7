//! The library's error type and its user-facing messages.

use vstd::prelude::*;
use crate::text::{owned, push_decimal, push_str, decimal};

verus! {

/// Every way an operation of the file system, the command layer, the user
/// registry or the object store can fail.
#[derive(Debug)]
pub enum VfsError {
    InvalidExtension { name: String },
    InvalidHandle { handle: u64 },
    NotFound { path: String },
    IsDirectory { path: String },
    NotDirectory { path: String },
    AlreadyExists { path: String },
    NotEmpty { path: String },
    InvalidPath { path: String },
    /// An I/O failure, carried as the text of the underlying error.
    IoError(String),
    UnknownCommand { name: String },
    InvalidArgs { message: String },
    SymlinkLoop { path: String },
    ObjectNotFound { id: String },
    CorruptStore { message: String },
    NoCommits,
    DirtyWorkingTree,
    PermissionDenied { path: String },
    AuthError { message: String },
    NotSupported { message: String },
}

/// The mathematical value of an error: its variant and its text.
pub enum ErrorView {
    InvalidExtension(Seq<char>),
    InvalidHandle(u64),
    NotFound(Seq<char>),
    IsDirectory(Seq<char>),
    NotDirectory(Seq<char>),
    AlreadyExists(Seq<char>),
    NotEmpty(Seq<char>),
    InvalidPath(Seq<char>),
    IoError(Seq<char>),
    UnknownCommand(Seq<char>),
    InvalidArgs(Seq<char>),
    SymlinkLoop(Seq<char>),
    ObjectNotFound(Seq<char>),
    CorruptStore(Seq<char>),
    NoCommits,
    DirtyWorkingTree,
    PermissionDenied(Seq<char>),
    AuthError(Seq<char>),
    NotSupported(Seq<char>),
}

impl View for VfsError {
    type V = ErrorView;

    open spec fn view(&self) -> ErrorView {
        match self {
            VfsError::InvalidExtension { name } => ErrorView::InvalidExtension(name@),
            VfsError::InvalidHandle { handle } => ErrorView::InvalidHandle(*handle),
            VfsError::NotFound { path } => ErrorView::NotFound(path@),
            VfsError::IsDirectory { path } => ErrorView::IsDirectory(path@),
            VfsError::NotDirectory { path } => ErrorView::NotDirectory(path@),
            VfsError::AlreadyExists { path } => ErrorView::AlreadyExists(path@),
            VfsError::NotEmpty { path } => ErrorView::NotEmpty(path@),
            VfsError::InvalidPath { path } => ErrorView::InvalidPath(path@),
            VfsError::IoError(m) => ErrorView::IoError(m@),
            VfsError::UnknownCommand { name } => ErrorView::UnknownCommand(name@),
            VfsError::InvalidArgs { message } => ErrorView::InvalidArgs(message@),
            VfsError::SymlinkLoop { path } => ErrorView::SymlinkLoop(path@),
            VfsError::ObjectNotFound { id } => ErrorView::ObjectNotFound(id@),
            VfsError::CorruptStore { message } => ErrorView::CorruptStore(message@),
            VfsError::NoCommits => ErrorView::NoCommits,
            VfsError::DirtyWorkingTree => ErrorView::DirtyWorkingTree,
            VfsError::PermissionDenied { path } => ErrorView::PermissionDenied(path@),
            VfsError::AuthError { message } => ErrorView::AuthError(message@),
            VfsError::NotSupported { message } => ErrorView::NotSupported(message@),
        }
    }
}

/// A result whose error is taken by its view.
pub open spec fn res_view<T>(r: Result<T, VfsError>) -> Result<T, ErrorView> {
    match r {
        Ok(v) => Ok(v),
        Err(e) => Err(e@),
    }
}

/// The text shown to a user for an error.
pub open spec fn message_of(e: ErrorView) -> Seq<char> {
    match e {
        ErrorView::InvalidExtension(n) => "markdownfs: only .md files are supported: '"@ + n
            + "'"@,
        ErrorView::InvalidHandle(h) => "markdownfs: invalid handle: "@ + decimal(h as nat),
        ErrorView::NotFound(p) => "markdownfs: no such file or directory: '"@ + p + "'"@,
        ErrorView::IsDirectory(p) => "markdownfs: is a directory: '"@ + p + "'"@,
        ErrorView::NotDirectory(p) => "markdownfs: not a directory: '"@ + p + "'"@,
        ErrorView::AlreadyExists(p) => "markdownfs: already exists: '"@ + p + "'"@,
        ErrorView::NotEmpty(p) => "markdownfs: directory not empty: '"@ + p + "'"@,
        ErrorView::InvalidPath(p) => "markdownfs: invalid path: '"@ + p + "'"@,
        ErrorView::IoError(m) => "markdownfs: I/O error: "@ + m,
        ErrorView::UnknownCommand(n) => "markdownfs: unknown command: '"@ + n + "'"@,
        ErrorView::InvalidArgs(m) => "markdownfs: "@ + m,
        ErrorView::SymlinkLoop(p) => "markdownfs: symlink loop: '"@ + p + "'"@,
        ErrorView::ObjectNotFound(i) => "markdownfs: object not found: "@ + i,
        ErrorView::CorruptStore(m) => "markdownfs: corrupt store: "@ + m,
        ErrorView::NoCommits => "markdownfs: no commits yet"@,
        ErrorView::DirtyWorkingTree => "markdownfs: working tree has uncommitted changes"@,
        ErrorView::PermissionDenied(p) => "markdownfs: permission denied: '"@ + p + "'"@,
        ErrorView::AuthError(m) => "markdownfs: "@ + m,
        ErrorView::NotSupported(m) => "markdownfs: operation not supported: "@ + m,
    }
}

fn quoted(prefix: &str, body: &String) -> (r: String)
    ensures
        r@ == prefix@ + body@ + "'"@,
{
    let mut s = owned(prefix);
    push_str(&mut s, body.as_str());
    push_str(&mut s, "'");
    s
}

fn plain(prefix: &str, body: &String) -> (r: String)
    ensures
        r@ == prefix@ + body@,
{
    let mut s = owned(prefix);
    push_str(&mut s, body.as_str());
    s
}

impl VfsError {
    /// The message that the error displays as.
    pub fn message(&self) -> (r: String)
        ensures
            r@ == message_of(self@),
    {
        match self {
            VfsError::InvalidExtension { name } => quoted(
                "markdownfs: only .md files are supported: '",
                name,
            ),
            VfsError::InvalidHandle { handle } => {
                let mut s = owned("markdownfs: invalid handle: ");
                push_decimal(&mut s, *handle);
                s
            },
            VfsError::NotFound { path } => quoted("markdownfs: no such file or directory: '", path),
            VfsError::IsDirectory { path } => quoted("markdownfs: is a directory: '", path),
            VfsError::NotDirectory { path } => quoted("markdownfs: not a directory: '", path),
            VfsError::AlreadyExists { path } => quoted("markdownfs: already exists: '", path),
            VfsError::NotEmpty { path } => quoted("markdownfs: directory not empty: '", path),
            VfsError::InvalidPath { path } => quoted("markdownfs: invalid path: '", path),
            VfsError::IoError(m) => plain("markdownfs: I/O error: ", m),
            VfsError::UnknownCommand { name } => quoted("markdownfs: unknown command: '", name),
            VfsError::InvalidArgs { message } => plain("markdownfs: ", message),
            VfsError::SymlinkLoop { path } => quoted("markdownfs: symlink loop: '", path),
            VfsError::ObjectNotFound { id } => plain("markdownfs: object not found: ", id),
            VfsError::CorruptStore { message } => plain("markdownfs: corrupt store: ", message),
            VfsError::NoCommits => owned("markdownfs: no commits yet"),
            VfsError::DirtyWorkingTree => owned("markdownfs: working tree has uncommitted changes"),
            VfsError::PermissionDenied { path } => quoted("markdownfs: permission denied: '", path),
            VfsError::AuthError { message } => plain("markdownfs: ", message),
            VfsError::NotSupported { message } => plain(
                "markdownfs: operation not supported: ",
                message,
            ),
        }
    }
}

} // verus!
