//! Version control over the file system: a commit stores every file, link
//! and directory as objects and records the root tree; a revert rebuilds
//! the file system from a commit's tree.

pub mod revert;
pub mod roundtrip;

use vstd::prelude::*;
use vstd::utf8::encode_utf8;
use vstd::string::StringSliceAdditionalSpecFns;
use crate::error::{ErrorView, VfsError};
use crate::fs::inode::{now_secs, InodeId, InodeKind, KindView};
use crate::fs::{entries_of, label, VirtualFs};
use crate::hash::sha256_digest;
use crate::store::blob::{import_spec, put_spec, BlobStore, StoreView};
use crate::store::commit::{enc_commit, opt_id, CommitObject, CommitView};
use crate::store::tree::{enc_tree, EntryView, TreeEntry, TreeEntryKind, TreeObject};
use crate::store::{lemma_id_len, ObjectId, ObjectKind};
use crate::text::{has_prefix, hex_of, owned, push_str, to_chars};

verus! {

broadcast use lemma_id_len;

/// The repository: the object store, the commit checked out, and the
/// commits in the order they were made.
pub struct Vcs {
    pub store: BlobStore,
    pub head: Option<ObjectId>,
    pub commits: Vec<CommitObject>,
}

/// An entry of a snapshot for the inode `v` named `name`, whose object is
/// `id`.
pub open spec fn entry_for(name: Seq<char>, kind: TreeEntryKind, id: Seq<u8>, mode: u16, uid: u32, gid: u32) -> EntryView {
    EntryView { name, kind, id, mode, uid, gid }
}

/// Snapshotting directory `id` of `fs` into the store `m`, descending at
/// most `fuel` levels (only a cycle of directories needs more): the store
/// after it, and the id of the directory's tree or the first error.
pub open spec fn snap_dir(fs: &VirtualFs, m: StoreView, id: InodeId, fuel: nat) -> (
    StoreView,
    Result<Seq<u8>, ErrorView>,
)
    decreases fuel, 0nat,
{
    if fuel == 0 {
        (m, Err(ErrorView::InvalidPath(label(id))))
    } else {
        match fs.dir_of(id) {
            Err(e) => (m, Err(e)),
            Ok(es) => {
                let (m1, r) = snap_entries(fs, m, es, (fuel - 1) as nat);
                match r {
                    Err(e) => (m1, Err(e)),
                    Ok(tes) => (
                        put_spec(m1, enc_tree(tes), ObjectKind::Tree),
                        Ok(sha256_digest(enc_tree(tes))),
                    ),
                }
            },
        }
    }
}

/// Whether a snapshot with `fuel` levels reaches all of the tree below
/// directory `id`: every directory on the way lists only existing inodes,
/// and none lies `fuel` or more levels down.
pub open spec fn snap_ready(fs: &VirtualFs, id: InodeId, fuel: nat) -> bool
    decreases fuel,
{
    if fuel == 0 {
        false
    } else {
        match fs.dir_of(id) {
            Err(_) => false,
            Ok(es) => forall|j: int|
                0 <= j < es.len() ==> fs.inodes().contains_key(#[trigger] es[j].1) && (fs.inodes()[es[j].1].kind is Directory
                    ==> snap_ready(fs, es[j].1, (fuel - 1) as nat)),
        }
    }
}

/// Height `h` ranks the directories of `fs`: it stays below the number of
/// inodes, every listed inode exists, and it drops from each directory to
/// each directory that it lists.
pub open spec fn ranks(fs: &VirtualFs, h: spec_fn(InodeId) -> nat) -> bool {
    forall|k: InodeId| #[trigger]
        fs.inodes().contains_key(k) ==> {
            &&& h(k) < fs.inodes().dom().len()
            &&& forall|j: int|
                0 <= j < entries_of(fs.inodes()[k]).len() ==> fs.inodes().contains_key(
                    #[trigger] entries_of(fs.inodes()[k])[j].1,
                ) && (fs.inodes()[entries_of(fs.inodes()[k])[j].1].kind is Directory ==> h(
                    entries_of(fs.inodes()[k])[j].1,
                ) < h(k))
        }
}

/// The directories of `fs` list only inodes that exist and form no cycle:
/// some height ranks them.
pub open spec fn acyclic(fs: &VirtualFs) -> bool {
    exists|h: spec_fn(InodeId) -> nat| #[trigger] ranks(fs, h)
}

/// A snapshot with more levels than a directory's height reaches all of
/// the tree below it.
proof fn lemma_ranked_ready(fs: &VirtualFs, h: spec_fn(InodeId) -> nat, k: InodeId, f: nat)
    requires
        ranks(fs, h),
        fs.inodes().contains_key(k),
        fs.inodes()[k].kind is Directory,
        h(k) < f,
    ensures
        snap_ready(fs, k, f),
    decreases f,
{
    let es = entries_of(fs.inodes()[k]);
    assert(fs.dir_of(k) == Ok::<Seq<(String, InodeId)>, ErrorView>(es));
    assert forall|j: int| 0 <= j < es.len() implies fs.inodes().contains_key(#[trigger] es[j].1) && (
    fs.inodes()[es[j].1].kind is Directory ==> snap_ready(fs, es[j].1, (f - 1) as nat)) by {
        assert(fs.inodes().contains_key(es[j].1));
        if fs.inodes()[es[j].1].kind is Directory {
            lemma_ranked_ready(fs, h, es[j].1, (f - 1) as nat);
        }
    }
}

/// A commit succeeds on every file system whose directories list only
/// inodes that exist and form no cycle, whatever the store holds: the
/// snapshot reaches the whole tree and gives a tree id.
pub proof fn lemma_acyclic_commit_ok(fs: &VirtualFs, m: StoreView)
    requires
        fs.wf(),
        acyclic(fs),
    ensures
        snap_ready(fs, fs.root(), fs.inodes().dom().len()),
        snap_dir(fs, m, fs.root(), fs.inodes().dom().len()).1 is Ok,
{
    fs.lemma_root_dir();
    let h = choose|h: spec_fn(InodeId) -> nat| #[trigger] ranks(fs, h);
    lemma_ranked_ready(fs, h, fs.root(), fs.inodes().dom().len());
    lemma_snap_dir_ok(fs, m, fs.root(), fs.inodes().dom().len());
}

/// A snapshot of a directory whose tree it reaches in full succeeds,
/// whatever the store held before.
pub proof fn lemma_snap_dir_ok(fs: &VirtualFs, m: StoreView, id: InodeId, fuel: nat)
    requires
        snap_ready(fs, id, fuel),
    ensures
        snap_dir(fs, m, id, fuel).1 is Ok,
    decreases fuel, 0nat,
{
    let es = fs.dir_of(id)->Ok_0;
    lemma_snap_entries_ok(fs, m, es, (fuel - 1) as nat);
}

/// A snapshot of directory entries that all exist, each directory among
/// them reached in full, succeeds.
pub proof fn lemma_snap_entries_ok(fs: &VirtualFs, m: StoreView, es: Seq<(String, InodeId)>, fuel: nat)
    requires
        forall|j: int|
            0 <= j < es.len() ==> fs.inodes().contains_key(#[trigger] es[j].1) && (fs.inodes()[es[j].1].kind is Directory
                ==> snap_ready(fs, es[j].1, fuel)),
    ensures
        snap_entries(fs, m, es, fuel).1 is Ok,
    decreases fuel, es.len() + 1,
{
    if es.len() > 0 {
        let rest = es.drop_last();
        assert forall|j: int|
            0 <= j < rest.len() implies fs.inodes().contains_key(#[trigger] rest[j].1) && (fs.inodes()[rest[j].1].kind is Directory
                ==> snap_ready(fs, rest[j].1, fuel)) by {
            assert(rest[j] == es[j]);
        }
        lemma_snap_entries_ok(fs, m, rest, fuel);
        let (m1, r1) = snap_entries(fs, m, rest, fuel);
        let (name, child) = es.last();
        assert(es.last() == es[es.len() - 1]);
        if fs.inodes()[child].kind is Directory {
            lemma_snap_dir_ok(fs, m1, child, fuel);
        }
    }
}

/// What a snapshot of a directory gives does not depend on what the store
/// held before: content addressing gives the same tree id for the same
/// directory. So committing an unchanged file system again records the
/// same root tree.
pub proof fn lemma_snap_dir_store_free(fs: &VirtualFs, m1: StoreView, m2: StoreView, id: InodeId, fuel: nat)
    ensures
        snap_dir(fs, m1, id, fuel).1 == snap_dir(fs, m2, id, fuel).1,
    decreases fuel, 0nat,
{
    if fuel > 0 {
        if let Ok(es) = fs.dir_of(id) {
            lemma_snap_entries_store_free(fs, m1, m2, es, (fuel - 1) as nat);
        }
    }
}

/// What a snapshot of directory entries gives does not depend on what the
/// store held before.
pub proof fn lemma_snap_entries_store_free(
    fs: &VirtualFs,
    m1: StoreView,
    m2: StoreView,
    es: Seq<(String, InodeId)>,
    fuel: nat,
)
    ensures
        snap_entries(fs, m1, es, fuel).1 == snap_entries(fs, m2, es, fuel).1,
    decreases fuel, es.len() + 1,
{
    if es.len() > 0 {
        lemma_snap_entries_store_free(fs, m1, m2, es.drop_last(), fuel);
        let (m1a, r1) = snap_entries(fs, m1, es.drop_last(), fuel);
        let (m2a, r2) = snap_entries(fs, m2, es.drop_last(), fuel);
        let (name, child) = es.last();
        if r1 is Ok && fs.inodes().contains_key(child) {
            if fs.inodes()[child].kind is Directory {
                lemma_snap_dir_store_free(fs, m1a, m2a, child, fuel);
            }
        }
    }
}

/// Snapshotting the entries `es` of a directory: files and links as blobs
/// (a link's target as its UTF-8 bytes), directories as trees.
pub open spec fn snap_entries(fs: &VirtualFs, m: StoreView, es: Seq<(String, InodeId)>, fuel: nat) -> (
    StoreView,
    Result<Seq<EntryView>, ErrorView>,
)
    decreases fuel, es.len() + 1,
{
    if es.len() == 0 {
        (m, Ok(Seq::empty()))
    } else {
        let (m1, r1) = snap_entries(fs, m, es.drop_last(), fuel);
        match r1 {
            Err(e) => (m1, Err(e)),
            Ok(tes) => {
                let (name, child) = es.last();
                if !fs.inodes().contains_key(child) {
                    (m1, Err(ErrorView::NotFound(label(child))))
                } else {
                    let v = fs.inodes()[child];
                    match v.kind {
                        KindView::File(c) => (
                            put_spec(m1, c, ObjectKind::Blob),
                            Ok(tes.push(entry_for(name@, TreeEntryKind::Blob, sha256_digest(c), v.mode, v.uid, v.gid))),
                        ),
                        KindView::Directory(_) => {
                            let (m2, r2) = snap_dir(fs, m1, child, fuel);
                            match r2 {
                                Err(e) => (m2, Err(e)),
                                Ok(tid) => (
                                    m2,
                                    Ok(tes.push(entry_for(name@, TreeEntryKind::Tree, tid, v.mode, v.uid, v.gid))),
                                ),
                            }
                        },
                        KindView::Symlink(t) => (
                            put_spec(m1, encode_utf8(t), ObjectKind::Blob),
                            Ok(
                                tes.push(
                                    entry_for(
                                        name@,
                                        TreeEntryKind::Symlink,
                                        sha256_digest(encode_utf8(t)),
                                        v.mode,
                                        v.uid,
                                        v.gid,
                                    ),
                                ),
                            ),
                        ),
                    }
                }
            },
        }
    }
}

/// The id that a commit is hashed with before its own id is known: the
/// digest of 32 zero bytes.
pub open spec fn placeholder_id() -> Seq<u8> {
    sha256_digest(Seq::new(32, |i: int| 0u8))
}

/// The views of a list of commits.
pub open spec fn commit_views(cs: Seq<CommitObject>) -> Seq<CommitView> {
    cs.map_values(|c: CommitObject| c@)
}

/// Whether restoring tree `t` from store `m` is owed to succeed: its
/// entries have plain distinct names, every object it names is in the
/// store, and its inodes, with a new root, fit the inode counter.
pub open spec fn revert_owed(m: StoreView, t: Seq<u8>) -> bool {
    let n = usize::MAX as nat;
    &&& revert::tree_simple(m, t, n)
    &&& revert::tree_complete(m, t, n)
    &&& 1 + revert::tree_size(m, t, n) <= u64::MAX
}

/// The commits whose hex id starts with `prefix`, in order.
pub open spec fn matching(cs: Seq<CommitObject>, prefix: Seq<char>) -> Seq<CommitObject> {
    cs.filter(|c: CommitObject| has_prefix(hex_of(c.id@), prefix))
}

impl Vcs {
    /// The store keeps each id once.
    pub open spec fn inv(&self) -> bool {
        self.store.inv()
    }

    /// An empty repository.
    pub fn new() -> (r: Self)
        ensures
            r.inv(),
            r.store@ == Map::<Seq<u8>, (ObjectKind, Seq<u8>)>::empty(),
            r.head is None,
            r.commits@.len() == 0,
    {
        Vcs { store: BlobStore::new(), head: None, commits: Vec::new() }
    }

    /// Stores the tree under directory `dir_id` and returns its id.
    fn snapshot_dir(&mut self, fs: &VirtualFs, dir_id: InodeId, fuel: usize) -> (r: Result<ObjectId, VfsError>)
        requires
            old(self).inv(),
            fs.wf(),
        ensures
            final(self).inv(),
            final(self).head == old(self).head,
            final(self).commits == old(self).commits,
            final(self).store@ == snap_dir(fs, old(self).store@, dir_id, fuel as nat).0,
            match snap_dir(fs, old(self).store@, dir_id, fuel as nat).1 {
                Ok(id) => r is Ok && r->Ok_0@ == id,
                Err(e) => r is Err && r->Err_0@ == e,
            },
        decreases fuel,
    {
        if fuel == 0 {
            return Err(VfsError::InvalidPath { path: crate::fs::label_string(dir_id) });
        }
        let inode = fs.get_inode(dir_id)?;
        let entries = match &inode.kind {
            InodeKind::Directory { entries } => entries,
            _ => {
                return Err(VfsError::NotDirectory { path: crate::fs::label_string(dir_id) });
            },
        };
        let ghost es = entries@;
        let ghost f1 = (fuel - 1) as nat;
        let ghost m0 = self.store@;
        let mut tree_entries: Vec<TreeEntry> = Vec::new();
        let mut i: usize = 0;
        proof {
            assert(fs.dir_of(dir_id) == Ok::<Seq<(String, InodeId)>, ErrorView>(es));
            assert(es.take(0) =~= Seq::<(String, InodeId)>::empty());
            assert(tree_entries@.map_values(|e: TreeEntry| e@) =~= Seq::<EntryView>::empty());
        }
        while i < entries.len()
            invariant
                fs.wf(),
                self.inv(),
                self.head == old(self).head,
                self.commits == old(self).commits,
                fuel > 0,
                f1 == fuel - 1,
                es == entries@,
                m0 == old(self).store@,
                fs.dir_of(dir_id) == Ok::<Seq<(String, InodeId)>, ErrorView>(es),
                i <= es.len(),
                snap_entries(fs, m0, es.take(i as int), f1).1 == Ok::<Seq<EntryView>, ErrorView>(
                    tree_entries@.map_values(|e: TreeEntry| e@),
                ),
                snap_entries(fs, m0, es.take(i as int), f1).0 == self.store@,
            decreases entries.len() - i,
        {
            let child_id = entries[i].1;
            let ghost done = tree_entries@.map_values(|e: TreeEntry| e@);
            proof {
                assert(es.take(i + 1).drop_last() =~= es.take(i as int));
                assert(es.take(i + 1).last() == es[i as int]);
            }
            let child = match fs.get_inode(child_id) {
                Ok(c) => c,
                Err(e) => {
                    proof {
                        lemma_snap_entries_err(fs, m0, es, i as int + 1, f1);
                    }
                    return Err(e);
                },
            };
            let (kind, id) = match &child.kind {
                InodeKind::File { content } => {
                    let blob_id = self.store.put(content.as_slice(), ObjectKind::Blob);
                    (TreeEntryKind::Blob, blob_id)
                },
                InodeKind::Directory { .. } => {
                    let tree_id = match self.snapshot_dir(fs, child_id, fuel - 1) {
                        Ok(t) => t,
                        Err(e) => {
                            proof {
                                lemma_snap_entries_err(fs, m0, es, i as int + 1, f1);
                            }
                            return Err(e);
                        },
                    };
                    (TreeEntryKind::Tree, tree_id)
                },
                InodeKind::Symlink { target } => {
                    let blob_id = self.store.put(target.as_str().as_bytes(), ObjectKind::Blob);
                    (TreeEntryKind::Symlink, blob_id)
                },
            };
            let e = TreeEntry {
                name: owned(entries[i].0.as_str()),
                kind,
                id,
                mode: child.mode,
                uid: child.uid,
                gid: child.gid,
            };
            let ghost ev = e@;
            tree_entries.push(e);
            proof {
                assert(tree_entries@.map_values(|e: TreeEntry| e@) =~= done.push(ev));
            }
            i += 1;
        }
        proof {
            assert(es.take(es.len() as int) =~= es);
        }
        let tree = TreeObject { entries: tree_entries };
        let data = tree.serialize();
        Ok(self.store.put(data.as_slice(), ObjectKind::Tree))
    }

    /// Commits the whole file system: stores its tree, then a commit that
    /// names the tree, the commit before it and the time, and makes the new
    /// commit the head. The commit is hashed with a placeholder id, which
    /// is then replaced by the commit's own id.
    pub fn commit(&mut self, fs: &VirtualFs, message: &str, author: &str) -> (r: Result<ObjectId, VfsError>)
        requires
            old(self).inv(),
            fs.wf(),
        ensures
            final(self).inv(),
            snap_ready(fs, fs.root(), fs.inodes().dom().len()) ==> r is Ok,
            ({
                let (m, res) = snap_dir(fs, old(self).store@, fs.root(), fs.inodes().dom().len());
                match res {
                    Err(e) => {
                        &&& r is Err && r->Err_0@ == e
                        &&& final(self).store@ == m
                        &&& final(self).head == old(self).head
                        &&& final(self).commits == old(self).commits
                    },
                    Ok(tree) => {
                        let c = final(self).commits@.last()@;
                        let hashed = CommitView { id: placeholder_id(), ..c };
                        &&& r is Ok
                        &&& final(self).commits@.len() == old(self).commits@.len() + 1
                        &&& final(self).commits@.drop_last() == old(self).commits@
                        &&& final(self).head == Some(r->Ok_0)
                        &&& c.id == r->Ok_0@
                        &&& c.tree == tree
                        &&& c.parent == opt_id(old(self).head)
                        &&& c.message == message@
                        &&& c.author == author@
                        &&& r->Ok_0@ == sha256_digest(enc_commit(hashed))
                        &&& final(self).store@ == put_spec(m, enc_commit(hashed), ObjectKind::Commit)
                    },
                }
            }),
    {
        let fuel = fs.inode_count();
        proof {
            if snap_ready(fs, fs.root(), fs.inodes().dom().len()) {
                lemma_snap_dir_ok(fs, self.store@, fs.root(), fs.inodes().dom().len());
            }
        }
        let root_tree_id = self.snapshot_dir(fs, fs.root_id(), fuel)?;
        let timestamp = now_secs();
        let zeros = [0u8; 32];
        let placeholder = ObjectId::from_bytes(zeros.as_slice());
        proof {
            assert(zeros@ =~= Seq::new(32, |i: int| 0u8));
        }
        let parent = self.head;
        let commit = CommitObject {
            id: placeholder,
            tree: root_tree_id,
            parent,
            timestamp,
            message: owned(message),
            author: owned(author),
        };
        let commit_data = commit.serialize();
        let commit_id = self.store.put(commit_data.as_slice(), ObjectKind::Commit);
        let CommitObject { id: _, tree, parent, timestamp, message, author } = commit;
        let final_commit = CommitObject { id: commit_id, tree, parent, timestamp, message, author };
        self.commits.push(final_commit);
        self.head = Some(commit_id);
        proof {
            let c = self.commits@.last()@;
            assert(CommitView { id: placeholder_id(), ..c } == commit@);
            assert(self.commits@.drop_last() =~= old(self).commits@);
        }
        Ok(commit_id)
    }

    /// The commits, newest first.
    pub fn log(&self) -> (r: Vec<&CommitObject>)
        ensures
            r@.len() == self.commits@.len(),
            forall|i: int| 0 <= i < r@.len() ==> *r@[i] == self.commits@[self.commits@.len() - 1 - i],
    {
        let mut r: Vec<&CommitObject> = Vec::new();
        let n = self.commits.len();
        let mut i: usize = 0;
        while i < n
            invariant
                n == self.commits@.len(),
                i <= n,
                r@.len() == i,
                forall|j: int| 0 <= j < i ==> *r@[j] == self.commits@[n - 1 - j],
            decreases n - i,
        {
            r.push(&self.commits[n - 1 - i]);
            i += 1;
        }
        r
    }

    /// The one commit whose hex id starts with `hash_prefix`.
    pub fn find_commit(&self, hash_prefix: &str) -> (r: Result<&CommitObject, VfsError>)
        ensures
            ({
                let ms = matching(self.commits@, hash_prefix@);
                if ms.len() == 0 {
                    r is Err && r->Err_0@ == ErrorView::ObjectNotFound(hash_prefix@)
                } else if ms.len() == 1 {
                    r is Ok && *r->Ok_0 == ms[0]
                } else {
                    r is Err && r->Err_0@ == ErrorView::InvalidArgs(
                        "ambiguous commit prefix: "@ + hash_prefix@,
                    )
                }
            }),
    {
        let prefix = to_chars(hash_prefix);
        let mut found: Vec<usize> = Vec::new();
        let mut i: usize = 0;
        let ghost pred = |c: CommitObject| has_prefix(hex_of(c.id@), hash_prefix@);
        proof {
            reveal(Seq::filter);
            assert(self.commits@.take(0) =~= Seq::<CommitObject>::empty());
        }
        while i < self.commits.len()
            invariant
                i <= self.commits@.len(),
                prefix@ == hash_prefix@,
                pred == (|c: CommitObject| has_prefix(hex_of(c.id@), hash_prefix@)),
                forall|j: int| 0 <= j < found@.len() ==> #[trigger] found@[j] < i,
                found@.map_values(|k: usize| self.commits@[k as int]) == self.commits@.take(i as int).filter(pred),
            decreases self.commits.len() - i,
        {
            let hex = to_chars(self.commits[i].id.to_hex().as_str());
            let ghost before = found@;
            proof {
                reveal(Seq::filter);
                assert(self.commits@.take(i + 1).drop_last() =~= self.commits@.take(i as int));
                assert(self.commits@.take(i + 1).last() == self.commits@[i as int]);
            }
            if crate::text::starts_with(hex.as_slice(), prefix.as_slice()) {
                found.push(i);
                proof {
                    assert(found@.map_values(|k: usize| self.commits@[k as int]) =~= before.map_values(
                        |k: usize| self.commits@[k as int],
                    ).push(self.commits@[i as int]));
                }
            }
            i += 1;
        }
        proof {
            assert(self.commits@.take(self.commits@.len() as int) =~= self.commits@);
        }
        if found.len() == 0 {
            Err(VfsError::ObjectNotFound { id: owned(hash_prefix) })
        } else if found.len() == 1 {
            Ok(&self.commits[found[0]])
        } else {
            let mut message = owned("ambiguous commit prefix: ");
            push_str(&mut message, hash_prefix);
            Err(VfsError::InvalidArgs { message })
        }
    }
}

/// Once a prefix of the entries fails, snapshotting all of them fails the
/// same way, with the same store.
proof fn lemma_snap_entries_err(fs: &VirtualFs, m: StoreView, es: Seq<(String, InodeId)>, j: int, fuel: nat)
    requires
        0 <= j <= es.len(),
        snap_entries(fs, m, es.take(j), fuel).1 is Err,
    ensures
        snap_entries(fs, m, es, fuel) == snap_entries(fs, m, es.take(j), fuel),
    decreases es.len() - j,
{
    if j < es.len() {
        assert(es.take(j + 1).drop_last() =~= es.take(j));
        lemma_snap_entries_err(fs, m, es, j + 1, fuel);
    } else {
        assert(es.take(j) =~= es);
    }
}


/// The text of `status` when there is a head commit.
pub open spec fn status_text(head: Seq<u8>, objects: nat, files: nat, bytes: nat) -> Seq<char> {
    "On commit "@ + hex_of(head).take(8) + "\n"@ + "Objects in store: "@ + crate::text::decimal(objects)
        + "\n"@ + "Files: "@ + crate::text::decimal(files) + ", Total size: "@ + crate::text::decimal(
        bytes,
    ) + " bytes\n"@
}

impl Vcs {
    /// Rebuilds the file system from the one commit whose hex id starts
    /// with `hash_prefix` and makes it the head.
    pub fn revert(&mut self, fs: &mut VirtualFs, hash_prefix: &str) -> (r: Result<(), VfsError>)
        requires
            old(self).inv(),
            old(fs).wf(),
        ensures
            final(self).inv(),
            final(fs).wf(),
            final(self).store == old(self).store,
            final(self).commits == old(self).commits,
            ({
                let ms = matching(old(self).commits@, hash_prefix@);
                if ms.len() == 0 {
                    r is Err && r->Err_0@ == ErrorView::ObjectNotFound(hash_prefix@) && *final(fs)
                        == *old(fs) && final(self).head == old(self).head
                } else if ms.len() > 1 {
                    r is Err && r->Err_0@ == ErrorView::InvalidArgs(
                        "ambiguous commit prefix: "@ + hash_prefix@,
                    ) && *final(fs) == *old(fs) && final(self).head == old(self).head
                } else {
                    let n = usize::MAX as nat;
                    &&& (r is Ok ==> final(self).head == Some(ms[0].id))
                    &&& (r is Err ==> final(self).head == old(self).head)
                    &&& (r is Ok && revert::tree_simple(old(self).store@, ms[0].tree@, n) ==> revert::holds_tree(
                        *final(fs),
                        final(fs).root(),
                        old(self).store@,
                        ms[0].tree@,
                        n,
                    ))
                    &&& (r is Ok && revert::tree_simple(old(self).store@, ms[0].tree@, n) ==> revert::only_tree(
                        *final(fs),
                        final(fs).root(),
                        old(self).store@,
                        ms[0].tree@,
                        n,
                        final(fs).root() as nat,
                        final(fs).next_id() as nat,
                    ))
                    &&& (revert_owed(old(self).store@, ms[0].tree@) ==> r is Ok)
                    &&& final(fs).cwd() == final(fs).root()
                    &&& final(fs).cwd_path() == Seq::<(Seq<char>, crate::fs::inode::InodeId)>::empty()
                }
            }),
    {
        let (tree_id, commit_id) = match self.find_commit(hash_prefix) {
            Ok(c) => (c.tree, c.id),
            Err(e) => {
                return Err(e);
            },
        };
        revert::restore_from_tree(fs, &self.store, tree_id)?;
        self.head = Some(commit_id);
        Ok(())
    }

    /// A summary: the head commit, the number of objects, and the number of
    /// files and their total size.
    pub fn status(&self, fs: &VirtualFs) -> (r: Result<String, VfsError>)
        requires
            self.inv(),
            fs.file_totals().1 <= u64::MAX,
        ensures
            r is Ok,
            match self.head {
                None => r->Ok_0@ == "No commits yet.\n"@,
                Some(h) => r->Ok_0@ == status_text(
                    h@,
                    self.store@.dom().len(),
                    fs.file_totals().0,
                    fs.file_totals().1,
                ),
            },
    {
        let head = match self.head {
            None => {
                return Ok(owned("No commits yet.\n"));
            },
            Some(h) => h,
        };
        let mut output = owned("On commit ");
        push_str(&mut output, head.short_hex().as_str());
        push_str(&mut output, "\n");
        push_str(&mut output, "Objects in store: ");
        crate::text::push_decimal(&mut output, self.store.object_count() as u64);
        push_str(&mut output, "\n");
        let (files, bytes) = fs.count_files();
        push_str(&mut output, "Files: ");
        crate::text::push_decimal(&mut output, files);
        push_str(&mut output, ", Total size: ");
        crate::text::push_decimal(&mut output, bytes);
        push_str(&mut output, " bytes\n");
        Ok(output)
    }
}

impl Vcs {
    /// The repository as a state file holds it: its objects as exported,
    /// the head's bytes, and the commits. A head must be 32 bytes.
    pub fn from_state(objects: Vec<(Vec<u8>, u8, Vec<u8>)>, head: Option<Vec<u8>>, commits: Vec<CommitObject>) -> (r:
        Result<Vcs, VfsError>)
        requires
            head matches Some(b) ==> b@.len() == 32,
        ensures
            match import_spec(Map::<Seq<u8>, (ObjectKind, Seq<u8>)>::empty(), objects@) {
                (m, None) => r is Ok && r->Ok_0.inv() && r->Ok_0.store@ == m && r->Ok_0.commits@ == commits@
                    && match head {
                    Some(b) => r->Ok_0.head matches Some(h) && h@ == b@,
                    None => r->Ok_0.head is None,
                },
                (_, Some(e)) => r is Err && r->Err_0@ == e,
            },
    {
        let mut store = BlobStore::new();
        store.import_all(objects)?;
        let head = match head {
            Some(bytes) => Some(ObjectId::from_vec(&bytes)),
            None => None,
        };
        Ok(Vcs { store, head, commits })
    }
}

/// A snapshot's ids depend only on the file system, not on what the store
/// already holds: committing an unchanged file system again records the
/// same tree.
pub proof fn lemma_snap_dir_same(fs: &VirtualFs, m1: StoreView, m2: StoreView, id: InodeId, fuel: nat)
    ensures
        snap_dir(fs, m1, id, fuel).1 == snap_dir(fs, m2, id, fuel).1,
    decreases fuel, 0nat,
{
    if fuel > 0 {
        if let Ok(es) = fs.dir_of(id) {
            lemma_snap_entries_same(fs, m1, m2, es, (fuel - 1) as nat);
        }
    }
}

/// The entries of a snapshot depend only on the file system.
pub proof fn lemma_snap_entries_same(
    fs: &VirtualFs,
    m1: StoreView,
    m2: StoreView,
    es: Seq<(String, InodeId)>,
    fuel: nat,
)
    ensures
        snap_entries(fs, m1, es, fuel).1 == snap_entries(fs, m2, es, fuel).1,
    decreases fuel, es.len() + 1,
{
    if es.len() > 0 {
        lemma_snap_entries_same(fs, m1, m2, es.drop_last(), fuel);
        let (a1, r1) = snap_entries(fs, m1, es.drop_last(), fuel);
        let (a2, r2) = snap_entries(fs, m2, es.drop_last(), fuel);
        if r1 is Ok {
            let child = es.last().1;
            if fs.inodes().contains_key(child) && fs.inodes()[child].kind is Directory {
                lemma_snap_dir_same(fs, a1, a2, child, fuel);
            }
        }
    }
}

/// A snapshot only adds to the store, and the tree it returns is stored.
pub proof fn lemma_snap_dir_stored(fs: &VirtualFs, m: StoreView, id: InodeId, fuel: nat)
    ensures
        m.submap_of(snap_dir(fs, m, id, fuel).0),
        snap_dir(fs, m, id, fuel).1 matches Ok(t) ==> snap_dir(fs, m, id, fuel).0.contains_key(t),
    decreases fuel, 0nat,
{
    if fuel > 0 {
        if let Ok(es) = fs.dir_of(id) {
            lemma_snap_entries_stored(fs, m, es, (fuel - 1) as nat);
            let (m1, r) = snap_entries(fs, m, es, (fuel - 1) as nat);
            if let Ok(tes) = r {
                lemma_put_grows(m1, enc_tree(tes), ObjectKind::Tree);
                vstd::map_lib::lemma_submap_of_trans(m, m1, put_spec(m1, enc_tree(tes), ObjectKind::Tree));
            }
        }
    }
}

/// Snapshotting entries only adds to the store.
pub proof fn lemma_snap_entries_stored(fs: &VirtualFs, m: StoreView, es: Seq<(String, InodeId)>, fuel: nat)
    ensures
        m.submap_of(snap_entries(fs, m, es, fuel).0),
    decreases fuel, es.len() + 1,
{
    if es.len() > 0 {
        lemma_snap_entries_stored(fs, m, es.drop_last(), fuel);
        let (m1, r1) = snap_entries(fs, m, es.drop_last(), fuel);
        if let Ok(tes) = r1 {
            let child = es.last().1;
            if fs.inodes().contains_key(child) {
                let v = fs.inodes()[child];
                match v.kind {
                    KindView::File(c) => {
                        lemma_put_grows(m1, c, ObjectKind::Blob);
                        vstd::map_lib::lemma_submap_of_trans(m, m1, put_spec(m1, c, ObjectKind::Blob));
                    },
                    KindView::Directory(_) => {
                        lemma_snap_dir_stored(fs, m1, child, fuel);
                        vstd::map_lib::lemma_submap_of_trans(m, m1, snap_dir(fs, m1, child, fuel).0);
                    },
                    KindView::Symlink(t) => {
                        lemma_put_grows(m1, encode_utf8(t), ObjectKind::Blob);
                        vstd::map_lib::lemma_submap_of_trans(m, m1, put_spec(m1, encode_utf8(t), ObjectKind::Blob));
                    },
                }
            }
        }
    }
}

/// Putting data keeps what the store held and holds the data's id.
pub proof fn lemma_put_grows(m: StoreView, data: Seq<u8>, kind: ObjectKind)
    ensures
        m.submap_of(put_spec(m, data, kind)),
        put_spec(m, data, kind).contains_key(sha256_digest(data)),
{
}

} // verus!
