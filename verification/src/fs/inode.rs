//! Inodes: the nodes of the file system, and the sorted name listing that
//! a directory holds.

use vstd::prelude::*;
use crate::listing::copy_entries;
use vstd::utf8::encode_utf8;

verus! {

pub type InodeId = u64;

/// The point in time reported by the system clock, unknown to the proofs.
#[verifier::external_type_specification]
#[verifier::external_body]
pub struct ExSystemTime(std::time::SystemTime);

/// Reads the system clock (`SystemTime::now`). Nothing is claimed of the
/// value: it depends on the machine's clock.
#[verifier::external_body]
pub(crate) fn system_now() -> std::time::SystemTime {
    std::time::SystemTime::now()
}

/// The time elapsed since the Unix epoch (`SystemTime::duration_since`),
/// or `None` where the clock reads earlier than the epoch. Nothing is
/// claimed of the value: it depends on the clock.
#[verifier::external_body]
pub(crate) fn since_epoch(t: &std::time::SystemTime) -> Option<std::time::Duration> {
    t.duration_since(std::time::UNIX_EPOCH).ok()
}

/// Whole seconds of a duration (`Duration::as_secs`); nothing is claimed
/// beyond the type.
#[verifier::external_body]
fn duration_secs(d: &std::time::Duration) -> u64 {
    d.as_secs()
}

/// The sub-second part of a duration in nanoseconds
/// (`Duration::subsec_nanos`), which std documents to be below one
/// billion.
#[verifier::external_body]
fn duration_subsec_nanos(d: &std::time::Duration) -> (r: u32)
    ensures
        r < 1_000_000_000,
{
    d.subsec_nanos()
}

/// The whole duration in nanoseconds (`Duration::as_nanos`); nothing is
/// claimed beyond the type.
#[verifier::external_body]
pub(crate) fn duration_nanos(d: &std::time::Duration) -> u128 {
    d.as_nanos()
}

/// A wall-clock instant as seconds and nanoseconds since the Unix epoch.
#[derive(Debug, Clone, Copy)]
pub struct Timestamp {
    pub secs: u64,
    pub nanos: u32,
}

impl Timestamp {
    /// The instant at an offset from the Unix epoch, as whole seconds and
    /// nanoseconds; an instant before the epoch, which has no offset, reads
    /// as zero.
    pub fn from_offset(offset: Option<(u64, u32)>) -> (r: Self)
        ensures
            match offset {
                Some((secs, nanos)) => r.secs == secs && r.nanos == nanos,
                None => r.secs == 0 && r.nanos == 0,
            },
    {
        match offset {
            Some((secs, nanos)) => Timestamp { secs, nanos },
            None => Timestamp { secs: 0, nanos: 0 },
        }
    }

    /// The current time; an instant before the epoch reads as zero.
    pub fn now() -> (r: Self)
        ensures
            r.nanos < 1_000_000_000,
    {
        let t = system_now();
        let offset = match since_epoch(&t) {
            Some(d) => Some((duration_secs(&d), duration_subsec_nanos(&d))),
            None => None,
        };
        Timestamp::from_offset(offset)
    }
}

/// Seconds since the Unix epoch on the system clock, zero before it.
pub fn now_secs() -> u64 {
    Timestamp::now().secs
}

/// What an inode holds.
#[derive(Debug)]
pub enum InodeKind {
    File { content: Vec<u8> },
    /// The entries of a directory, by name, in ascending order of name.
    Directory { entries: Vec<(String, InodeId)> },
    Symlink { target: String },
}

/// A node of the file system with its ownership, mode and timestamps.
#[derive(Debug)]
pub struct Inode {
    pub id: InodeId,
    pub kind: InodeKind,
    pub mode: u16,
    pub uid: u32,
    pub gid: u32,
    pub nlink: u64,
    pub block_size: u64,
    pub created_at: Timestamp,
    pub modified_at: Timestamp,
    pub accessed_at: Timestamp,
    pub changed_at: Timestamp,
    pub created: u64,
    pub modified: u64,
}

/// The mathematical value of an inode's contents.
pub enum KindView {
    File(Seq<u8>),
    Directory(Seq<(String, InodeId)>),
    Symlink(Seq<char>),
}

impl View for InodeKind {
    type V = KindView;

    open spec fn view(&self) -> KindView {
        match self {
            InodeKind::File { content } => KindView::File(content@),
            InodeKind::Directory { entries } => KindView::Directory(entries@),
            InodeKind::Symlink { target } => KindView::Symlink(target@),
        }
    }
}

/// The mathematical value of an inode.
pub struct InodeView {
    pub id: InodeId,
    pub kind: KindView,
    pub mode: u16,
    pub uid: u32,
    pub gid: u32,
    pub nlink: u64,
    pub block_size: u64,
    pub created_at: Timestamp,
    pub modified_at: Timestamp,
    pub accessed_at: Timestamp,
    pub changed_at: Timestamp,
    pub created: u64,
    pub modified: u64,
}

impl View for Inode {
    type V = InodeView;

    open spec fn view(&self) -> InodeView {
        InodeView {
            id: self.id,
            kind: self.kind@,
            mode: self.mode,
            uid: self.uid,
            gid: self.gid,
            nlink: self.nlink,
            block_size: self.block_size,
            created_at: self.created_at,
            modified_at: self.modified_at,
            accessed_at: self.accessed_at,
            changed_at: self.changed_at,
            created: self.created,
            modified: self.modified,
        }
    }
}

/// A copy of a byte vector.
pub fn copy_bytes(v: &[u8]) -> (r: Vec<u8>)
    ensures
        r@ == v@,
{
    let mut r: Vec<u8> = Vec::new();
    let mut i: usize = 0;
    while i < v.len()
        invariant
            i <= v.len(),
            r@ == v@.take(i as int),
        decreases v.len() - i,
    {
        r.push(v[i]);
        proof {
            assert(r@ =~= v@.take(i + 1));
        }
        i += 1;
    }
    assert(v@.take(v@.len() as int) =~= v@);
    r
}

// ───── inodes ─────

impl InodeKind {
    /// An identical copy of the contents.
    pub fn duplicate(&self) -> (r: InodeKind)
        ensures
            r@ == self@,
    {
        match self {
            InodeKind::File { content } => InodeKind::File { content: copy_bytes(content.as_slice()) },
            InodeKind::Directory { entries } => InodeKind::Directory {
                entries: copy_entries(entries),
            },
            InodeKind::Symlink { target } => InodeKind::Symlink { target: target.clone() },
        }
    }
}

/// The length in bytes of a string's UTF-8 encoding.
pub open spec fn byte_len(s: Seq<char>) -> nat {
    encode_utf8(s).len()
}

/// The size of an inode view: bytes of a file, entries of a directory,
/// bytes of a link's target.
pub open spec fn view_size(v: InodeView) -> nat {
    match v.kind {
        KindView::File(c) => c.len(),
        KindView::Directory(es) => es.len(),
        KindView::Symlink(t) => byte_len(t),
    }
}

impl Inode {
    /// An identical copy of the inode.
    pub fn duplicate(&self) -> (r: Inode)
        ensures
            r@ == self@,
    {
        Inode {
            id: self.id,
            kind: self.kind.duplicate(),
            mode: self.mode,
            uid: self.uid,
            gid: self.gid,
            nlink: self.nlink,
            block_size: self.block_size,
            created_at: self.created_at,
            modified_at: self.modified_at,
            accessed_at: self.accessed_at,
            changed_at: self.changed_at,
            created: self.created,
            modified: self.modified,
        }
    }

    /// The shape of a fresh inode: all four timestamps equal, and the
    /// whole-second fields taken from them.
    pub open spec fn fresh_times(&self) -> bool {
        &&& self.modified_at == self.created_at
        &&& self.accessed_at == self.created_at
        &&& self.changed_at == self.created_at
        &&& self.created == self.created_at.secs
        &&& self.modified == self.created_at.secs
    }

    /// An empty directory with mode 0755 and two links.
    pub fn new_dir(id: InodeId, uid: u32, gid: u32) -> (r: Self)
        ensures
            r.id == id,
            r.kind is Directory,
            r.kind->entries@.len() == 0,
            r.kind@ == KindView::Directory(Seq::empty()),
            r.mode == 0o755,
            r.uid == uid,
            r.gid == gid,
            r.nlink == 2,
            r.block_size == 4096,
            r.fresh_times(),
    {
        let now = Timestamp::now();
        Inode {
            id,
            kind: InodeKind::Directory { entries: Vec::new() },
            mode: 0o755,
            uid,
            gid,
            nlink: 2,
            block_size: 4096,
            created_at: now,
            modified_at: now,
            accessed_at: now,
            changed_at: now,
            created: now.secs,
            modified: now.secs,
        }
    }

    /// An empty file with mode 0644 and one link.
    pub fn new_file(id: InodeId, uid: u32, gid: u32) -> (r: Self)
        ensures
            r.id == id,
            r.kind is File,
            r.kind->content@.len() == 0,
            r.kind@ == KindView::File(Seq::empty()),
            r.mode == 0o644,
            r.uid == uid,
            r.gid == gid,
            r.nlink == 1,
            r.block_size == 4096,
            r.fresh_times(),
    {
        let now = Timestamp::now();
        Inode {
            id,
            kind: InodeKind::File { content: Vec::new() },
            mode: 0o644,
            uid,
            gid,
            nlink: 1,
            block_size: 4096,
            created_at: now,
            modified_at: now,
            accessed_at: now,
            changed_at: now,
            created: now.secs,
            modified: now.secs,
        }
    }

    /// A symbolic link to `target` with mode 0777 and one link.
    pub fn new_symlink(id: InodeId, target: String, uid: u32, gid: u32) -> (r: Self)
        ensures
            r.id == id,
            r.kind is Symlink,
            r.kind->target@ == target@,
            r.mode == 0o777,
            r.uid == uid,
            r.gid == gid,
            r.nlink == 1,
            r.block_size == 4096,
            r.fresh_times(),
    {
        let now = Timestamp::now();
        Inode {
            id,
            kind: InodeKind::Symlink { target },
            mode: 0o777,
            uid,
            gid,
            nlink: 1,
            block_size: 4096,
            created_at: now,
            modified_at: now,
            accessed_at: now,
            changed_at: now,
            created: now.secs,
            modified: now.secs,
        }
    }

    pub open spec fn spec_is_dir(&self) -> bool {
        self.kind is Directory
    }

    pub open spec fn spec_is_file(&self) -> bool {
        self.kind is File
    }

    pub open spec fn spec_is_symlink(&self) -> bool {
        self.kind is Symlink
    }

    /// Whether the inode is a directory.
    pub fn is_dir(&self) -> (r: bool)
        ensures
            r == self.spec_is_dir(),
    {
        match self.kind {
            InodeKind::Directory { .. } => true,
            _ => false,
        }
    }

    /// Whether the inode is a regular file.
    pub fn is_file(&self) -> (r: bool)
        ensures
            r == self.spec_is_file(),
    {
        match self.kind {
            InodeKind::File { .. } => true,
            _ => false,
        }
    }

    /// Whether the inode is a symbolic link.
    pub fn is_symlink(&self) -> (r: bool)
        ensures
            r == self.spec_is_symlink(),
    {
        match self.kind {
            InodeKind::Symlink { .. } => true,
            _ => false,
        }
    }

    /// The size: bytes of a file, entries of a directory, bytes of a link's
    /// target.
    pub open spec fn spec_size(&self) -> nat {
        view_size(self@)
    }

    /// The size of the inode (see `spec_size`).
    pub fn size(&self) -> (r: u64)
        ensures
            r as nat == self.spec_size(),
    {
        match &self.kind {
            InodeKind::File { content } => content.len() as u64,
            InodeKind::Directory { entries } => entries.len() as u64,
            InodeKind::Symlink { target } => {
                let n = target.as_str().as_bytes().len();
                proof {
                    assert(n as nat == byte_len(target@));
                }
                n as u64
            },
        }
    }

    /// The number of 512-byte blocks the size takes, rounded up.
    pub fn blocks(&self) -> (r: u64)
        ensures
            r as nat == (self.spec_size() + 511) / 512,
    {
        let size = self.size();
        if size == 0 {
            0
        } else {
            size / 512 + if size % 512 != 0 {
                1
            } else {
                0
            }
        }
    }

    /// Records an access at the current time: the access time becomes a
    /// reading of the clock; nothing else changes.
    pub fn touch_access(&mut self)
        ensures
            final(self)@ == (InodeView { accessed_at: final(self)@.accessed_at, ..old(self)@ }),
            final(self)@.accessed_at.nanos < 1_000_000_000,
    {
        let now = Timestamp::now();
        self.accessed_at = now;
    }

    /// Records a modification at the current time.
    pub fn touch_modify(&mut self)
        ensures
            final(self).id == old(self).id,
            final(self).kind == old(self).kind,
            final(self).mode == old(self).mode,
            final(self).uid == old(self).uid,
            final(self).gid == old(self).gid,
            final(self).accessed_at == old(self).accessed_at,
            final(self).changed_at == final(self).modified_at,
            final(self).modified == final(self).modified_at.secs,
    {
        let now = Timestamp::now();
        self.modified_at = now;
        self.changed_at = now;
        self.modified = now.secs;
    }

    /// Records a change of metadata at the current time: the change time
    /// becomes a reading of the clock; nothing else changes.
    pub fn touch_change(&mut self)
        ensures
            final(self)@ == (InodeView { changed_at: final(self)@.changed_at, ..old(self)@ }),
            final(self)@.changed_at.nanos < 1_000_000_000,
    {
        let now = Timestamp::now();
        self.changed_at = now;
    }
}

} // verus!
