//! File system calls in the POSIX manner, for a mount: each checks the
//! session's permissions the way a kernel would before the operation.

use vstd::prelude::*;
use crate::auth::perms::Access;
use crate::auth::session::Session;
use crate::auth::{Gid, Uid};
use crate::cmd::{access_error, require_access, require_ids};
use crate::error::{ErrorView, VfsError};
use crate::fs::inode::InodeId;
use crate::fs::{components, parent_string, resized, LsEntry, StatInfo, VirtualFs};
use crate::text::{owned, push_str, str_eq, substring, to_chars};

verus! {

/// An entry of a directory with its metadata.
#[derive(Debug)]
pub struct PosixDirEntry {
    pub name: String,
    pub stat: StatInfo,
}

/// The attributes a `setattr` call changes: each one that is given.
#[derive(Clone, Copy, Debug)]
pub struct PosixSetAttr {
    pub mode: Option<u16>,
    pub uid: Option<Uid>,
    pub gid: Option<Gid>,
    pub size: Option<usize>,
}

impl Default for PosixSetAttr {
    fn default() -> (r: Self)
        ensures
            r.mode is None && r.uid is None && r.gid is None && r.size is None,
    {
        PosixSetAttr { mode: None, uid: None, gid: None, size: None }
    }
}

/// The file system as one session sees it.
pub struct PosixFs<'a> {
    pub fs: &'a mut VirtualFs,
    pub session: &'a Session,
}

/// The path of an entry `child` of the directory `parent`.
pub open spec fn joined(parent: Seq<char>, child: Seq<char>) -> Seq<char> {
    if parent == "/"@ {
        "/"@ + child
    } else if parent == "."@ {
        "./"@ + child
    } else {
        crate::server::perms::trim_trailing_slashes(parent) + "/"@ + child
    }
}

/// The path of an entry `child` of the directory `parent`.
fn join_paths(parent: &str, child: &str) -> (r: String)
    ensures
        r@ == joined(parent@, child@),
{
    proof {
        reveal_strlit("/");
        reveal_strlit(".");
        reveal_strlit("./");
    }
    if str_eq(parent, "/") {
        let mut out = owned("/");
        push_str(&mut out, child);
        return out;
    }
    if str_eq(parent, ".") {
        let mut out = owned("./");
        push_str(&mut out, child);
        return out;
    }
    let chars = to_chars(parent);
    let mut end: usize = chars.len();
    assert(chars@.subrange(0, end as int) =~= chars@);
    while end > 0 && chars[end - 1] == '/'
        invariant
            end <= chars@.len(),
            chars@ == parent@,
            crate::server::perms::trim_trailing_slashes(parent@) == crate::server::perms::trim_trailing_slashes(
                chars@.subrange(0, end as int),
            ),
        decreases end,
    {
        proof {
            assert(chars@.subrange(0, end as int).drop_last() =~= chars@.subrange(0, end - 1));
        }
        end -= 1;
    }
    let mut out = substring(chars.as_slice(), 0, end);
    push_str(&mut out, "/");
    push_str(&mut out, child);
    out
}

/// The error of making `access` to what a checked path resolves to, if
/// any: walking there, then the access itself.
pub open spec fn path_access_error(fs: &VirtualFs, session: &Session, path: Seq<char>, access: Access) -> Option<
    ErrorView,
> {
    match fs.resolve_checked(path, *session) {
        Err(e) => Some(e),
        Ok(id) => access_error(fs, id, session, access, path),
    }
}

/// The error of changing the entries of the directory `path` goes in, if
/// any: walking there, then write and search permission on it.
pub open spec fn parent_access_error(fs: &VirtualFs, session: &Session, path: Seq<char>) -> Option<ErrorView> {
    if components(path).len() == 0 {
        Some(ErrorView::InvalidPath(path))
    } else {
        match fs.resolve_checked(parent_string(path), *session) {
            Err(e) => Some(e),
            Ok(p) => match access_error(fs, p, session, Access::Write, path) {
                Some(e) => Some(e),
                None => access_error(fs, p, session, Access::Execute, path),
            },
        }
    }
}

impl<'a> PosixFs<'a> {
    /// The file system's value now.
    pub open spec fn vfs(&self) -> VirtualFs {
        *self.fs
    }

    /// The file system as `session` sees it.
    pub fn new(fs: &'a mut VirtualFs, session: &'a Session) -> (r: Self)
        ensures
            *r.fs == *old(fs),
            *final(fs) == *final(r.fs),
            r.session == session,
    {
        PosixFs { fs, session }
    }

    /// Checks that the session may change the entries of the directory
    /// that `path` goes in.
    fn require_parent(&self, path: &str) -> (r: Result<InodeId, VfsError>)
        requires
            self.vfs().wf(),
        ensures
            match parent_access_error(&self.vfs(), self.session, path@) {
                Some(e) => r is Err && r->Err_0@ == e,
                None => r is Ok,
            },
    {
        let (parent_id, _) = self.fs.resolve_parent_checked(path, self.session)?;
        require_access(self.fs, parent_id, self.session, Access::Write, path)?;
        require_access(self.fs, parent_id, self.session, Access::Execute, path)?;
        Ok(parent_id)
    }

    /// The metadata of what `path` resolves to, once the session may walk
    /// to it.
    pub fn getattr(&self, path: &str) -> (r: Result<StatInfo, VfsError>)
        requires
            self.vfs().wf(),
        ensures
            self.vfs().resolve_checked(path@, *self.session) matches Err(e) ==> r is Err && r->Err_0@ == e,
            r is Ok ==> (self.vfs().resolve(path@) matches Ok(id) && self.vfs().inodes().contains_key(id) && r->Ok_0.inode_id
                == id && r->Ok_0.mode == self.vfs().inodes()[id].mode && r->Ok_0.uid == self.vfs().inodes()[id].uid
                && r->Ok_0.gid == self.vfs().inodes()[id].gid),
    {
        let _ = self.fs.resolve_path_checked(path, self.session)?;
        self.fs.stat(path)
    }

    /// The metadata of a name: the same as `getattr`.
    pub fn lookup(&self, path: &str) -> (r: Result<StatInfo, VfsError>)
        requires
            self.vfs().wf(),
        ensures
            self.vfs().resolve_checked(path@, *self.session) matches Err(e) ==> r is Err && r->Err_0@ == e,
            r is Ok ==> (self.vfs().resolve(path@) matches Ok(id) && self.vfs().inodes().contains_key(id) && r->Ok_0.inode_id
                == id),
    {
        self.getattr(path)
    }

    /// The entries of a directory the session may read and search, with
    /// their metadata, skipping entries the session may not read.
    pub fn readdir(&self, path: &str) -> (r: Result<Vec<PosixDirEntry>, VfsError>)
        requires
            self.vfs().wf(),
        ensures
            self.vfs().resolve_checked(path@, *self.session) matches Err(e) ==> r is Err && r->Err_0@ == e,
            self.vfs().resolve_checked(path@, *self.session) matches Ok(id) ==> match access_error(
                &self.vfs(),
                id,
                self.session,
                Access::Read,
                path@,
            ) {
                Some(e) => r is Err && r->Err_0@ == e,
                None => access_error(&self.vfs(), id, self.session, Access::Execute, path@) matches Some(e) ==> r is Err
                    && r->Err_0@ == e,
            },
            r is Ok ==> forall|i: int| 0 <= i < r->Ok_0@.len() ==> self.session.allows(
                #[trigger] r->Ok_0@[i].stat.mode,
                r->Ok_0@[i].stat.uid,
                r->Ok_0@[i].stat.gid,
                Access::Read,
            ),
    {
        let dir_id = self.fs.resolve_path_checked(path, self.session)?;
        require_access(self.fs, dir_id, self.session, Access::Read, path)?;
        require_access(self.fs, dir_id, self.session, Access::Execute, path)?;
        let entries = self.fs.ls(Some(path))?;
        let mut results: Vec<PosixDirEntry> = Vec::new();
        let mut i: usize = 0;
        while i < entries.len()
            invariant
                self.fs.wf(),
                self.vfs().resolve_checked(path@, *self.session) == Ok::<InodeId, ErrorView>(dir_id),
                access_error(&self.vfs(), dir_id, self.session, Access::Read, path@) is None,
                access_error(&self.vfs(), dir_id, self.session, Access::Execute, path@) is None,
                i <= entries@.len(),
                forall|j: int| 0 <= j < results@.len() ==> self.session.allows(
                    #[trigger] results@[j].stat.mode,
                    results@[j].stat.uid,
                    results@[j].stat.gid,
                    Access::Read,
                ),
            decreases entries.len() - i,
        {
            let entry: &LsEntry = &entries[i];
            if self.session.has_permission_bits(entry.mode, entry.uid, entry.gid, Access::Read) {
                let child_path = join_paths(path, entry.name.as_str());
                let stat = self.fs.stat(child_path.as_str())?;
                if self.session.has_permission_bits(stat.mode, stat.uid, stat.gid, Access::Read) {
                    results.push(PosixDirEntry { name: owned(entry.name.as_str()), stat });
                }
            }
            i += 1;
        }
        Ok(results)
    }

    /// Makes a directory with a mode, as the session's user.
    pub fn mkdir(&mut self, path: &str, mode: u16) -> (r: Result<(), VfsError>)
        requires
            old(self).fs.wf(),
        ensures
            final(self).fs.wf(),
            *final(final(self).fs) == *final(old(self).fs),
            final(self).session == old(self).session,
            parent_access_error(old(self).fs, old(self).session, path@) matches Some(e) ==> r is Err && r->Err_0@ == e
                && *final(self).fs == *old(self).fs,
    {
        self.require_parent(path)?;
        require_ids(self.fs)?;
        self.fs.mkdir(path, self.session.effective_uid(), self.session.effective_gid())?;
        self.fs.chmod(path, mode)
    }

    /// Removes a file or link.
    pub fn unlink(&mut self, path: &str) -> (r: Result<(), VfsError>)
        requires
            old(self).fs.wf(),
        ensures
            final(self).fs.wf(),
            *final(final(self).fs) == *final(old(self).fs),
            final(self).session == old(self).session,
            parent_access_error(old(self).fs, old(self).session, path@) matches Some(e) ==> r is Err && r->Err_0@ == e
                && *final(self).fs == *old(self).fs,
    {
        self.require_parent(path)?;
        self.fs.rm(path)
    }

    /// Removes an empty directory.
    pub fn rmdir(&mut self, path: &str) -> (r: Result<(), VfsError>)
        requires
            old(self).fs.wf(),
        ensures
            final(self).fs.wf(),
            *final(final(self).fs) == *final(old(self).fs),
            final(self).session == old(self).session,
            parent_access_error(old(self).fs, old(self).session, path@) matches Some(e) ==> r is Err && r->Err_0@ == e
                && *final(self).fs == *old(self).fs,
    {
        self.require_parent(path)?;
        self.fs.rmdir(path)
    }

    /// Makes a symbolic link at `link_path` to `target`, as the session's
    /// user.
    pub fn symlink(&mut self, target: &str, link_path: &str) -> (r: Result<(), VfsError>)
        requires
            old(self).fs.wf(),
        ensures
            final(self).fs.wf(),
            *final(final(self).fs) == *final(old(self).fs),
            final(self).session == old(self).session,
            parent_access_error(old(self).fs, old(self).session, link_path@) matches Some(e) ==> r is Err && r->Err_0@
                == e && *final(self).fs == *old(self).fs,
    {
        self.require_parent(link_path)?;
        require_ids(self.fs)?;
        self.fs.ln_s(target, link_path, self.session.effective_uid(), self.session.effective_gid())
    }

    /// Sets the length of a file the session may write.
    pub fn truncate(&mut self, path: &str, size: usize) -> (r: Result<(), VfsError>)
        requires
            old(self).fs.wf(),
        ensures
            final(self).fs.wf(),
            *final(final(self).fs) == *final(old(self).fs),
            final(self).session == old(self).session,
            path_access_error(old(self).fs, old(self).session, path@, Access::Write) matches Some(e) ==> r is Err
                && r->Err_0@ == e && *final(self).fs == *old(self).fs,
            r is Ok ==> (old(self).fs.read(path@) matches Ok(b) && final(self).fs.read(path@) == Ok::<
                Seq<u8>,
                ErrorView,
            >(resized(b, size as nat))),
    {
        let inode_id = self.fs.resolve_path_checked(path, self.session)?;
        require_access(self.fs, inode_id, self.session, Access::Write, path)?;
        self.fs.truncate(path, size)
    }
}

impl<'a> PosixFs<'a> {
    /// Changes the attributes given: the mode (for the owner), the owner
    /// (for root, with the group given or the current one), the group
    /// alone (for the owner or root), and the size (for a writer). Returns
    /// the metadata after the changes.
    pub fn setattr(&mut self, path: &str, attr: PosixSetAttr) -> (r: Result<StatInfo, VfsError>)
        requires
            old(self).fs.wf(),
        ensures
            final(self).fs.wf(),
            *final(final(self).fs) == *final(old(self).fs),
            final(self).session == old(self).session,
            match old(self).fs.resolve_checked(path@, *old(self).session) {
                Err(e) => r is Err && r->Err_0@ == e && *final(self).fs == *old(self).fs,
                Ok(id) => old(self).fs.inodes().contains_key(id) ==> {
                    let cur = old(self).fs.inodes()[id];
                    &&& attr.mode is Some && !old(self).session.spec_is_effective_owner(cur.uid) ==> r is Err
                        && r->Err_0@ == ErrorView::PermissionDenied(path@) && *final(self).fs == *old(self).fs
                    &&& r is Ok ==> {
                        &&& final(self).fs.inodes().contains_key(id)
                        &&& match attr.mode {
                            Some(m) => final(self).fs.inodes()[id].mode == m,
                            None => true,
                        }
                        &&& match (attr.uid, attr.gid) {
                            (Some(u), Some(g)) => final(self).fs.inodes()[id].uid == u && final(self).fs.inodes()[id].gid
                                == g,
                            (Some(u), None) => final(self).fs.inodes()[id].uid == u && final(self).fs.inodes()[id].gid
                                == cur.gid,
                            (None, Some(g)) => final(self).fs.inodes()[id].uid == cur.uid && final(self).fs.inodes()[id].gid
                                == g,
                            (None, None) => true,
                        }
                    }
                },
            },
    {
        let inode_id = self.fs.resolve_path_checked(path, self.session)?;
        let (current_uid, current_gid) = match self.fs.get_inode(inode_id) {
            Ok(inode) => (inode.uid, inode.gid),
            Err(e) => {
                return Err(e);
            },
        };
        let ghost start = *self.fs;
        proof {
            start.lemma_resolve_checked_plain(path@, *self.session);
        }
        if let Some(mode) = attr.mode {
            if !self.session.is_effective_owner(current_uid) {
                return Err(VfsError::PermissionDenied { path: owned(path) });
            }
            self.fs.chmod(path, mode)?;
        }
        let ghost after_mode = *self.fs;
        proof {
            if after_mode.inodes() != start.inodes() {
                let id2 = start.resolve(path@)->Ok_0;
                after_mode.lemma_meta_kept(&start, id2, after_mode.inodes()[id2]);
            } else {
                after_mode.lemma_kinds_kept(&start);
            }
            after_mode.lemma_same_resolve(&start, path@);
        }
        if let Some(uid) = attr.uid {
            if !self.session.is_effectively_root() {
                return Err(VfsError::PermissionDenied { path: owned(path) });
            }
            let gid = match attr.gid {
                Some(g) => g,
                None => current_gid,
            };
            self.fs.chown(path, uid, gid)?;
        } else if let Some(gid) = attr.gid {
            if !self.session.is_effective_owner(current_uid) && !self.session.is_effectively_root() {
                return Err(VfsError::PermissionDenied { path: owned(path) });
            }
            self.fs.chown(path, current_uid, gid)?;
        }
        let ghost after_owner = *self.fs;
        proof {
            if after_owner.inodes() != after_mode.inodes() {
                let id2 = after_mode.resolve(path@)->Ok_0;
                after_owner.lemma_meta_kept(&after_mode, id2, after_owner.inodes()[id2]);
            } else {
                after_owner.lemma_kinds_kept(&after_mode);
            }
            after_owner.lemma_same_resolve(&after_mode, path@);
        }
        if let Some(size) = attr.size {
            require_access(self.fs, inode_id, self.session, Access::Write, path)?;
            self.fs.truncate(path, size)?;
        }
        proof {
            let fin = *self.fs;
            if fin.inodes() != after_owner.inodes() {
                let id3 = after_owner.write_target(path@)->Ok_0;
                assert(fin.inodes().contains_key(inode_id));
                if id3 == inode_id {
                    assert(fin.inodes()[inode_id].mode == after_owner.inodes()[inode_id].mode);
                }
            }
        }
        self.fs.stat(path)
    }
}

} // verus!
