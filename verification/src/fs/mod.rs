//! The in-memory file system: inodes by id, a root, a working directory,
//! and the user registry.

pub mod growth;
pub mod inode;
pub mod search;
pub mod totals;

use vstd::prelude::*;
use std::collections::HashMap;
use vstd::std_specs::iter::IteratorSpec;
use crate::auth::perms::{has_setgid, Access};
use crate::auth::registry::UserRegistry;
use crate::auth::session::Session;
use crate::auth::{Gid, Uid, ROOT_GID, ROOT_UID};
use crate::error::{res_view, ErrorView, VfsError};
use crate::listing::{check_sorted, entry_index, dir_insert, dir_lookup, dir_map, dir_remove, names_sorted, copy_entries};
use crate::text::{decimal, from_chars, owned, push_decimal, push_str, str_eq, to_chars};
use growth::{grows, lemma_walk_grows, lemma_walk_push, no_up};
use inode::{copy_bytes, now_secs, view_size, Inode, InodeId, InodeKind, InodeView, KindView};

verus! {

broadcast use vstd::std_specs::hash::group_hash_axioms;

/// The text that names an inode in errors: `<inode N>`.
pub open spec fn label(id: InodeId) -> Seq<char> {
    "<inode "@ + decimal(id as nat) + ">"@
}

pub fn label_string(id: InodeId) -> (r: String)
    ensures
        r@ == label(id),
{
    let mut s = owned("<inode ");
    push_decimal(&mut s, id);
    push_str(&mut s, ">");
    s
}

/// The state of splitting a path on '/' after some characters: the
/// finished non-empty components and the component in progress.
pub open spec fn comp_run(s: Seq<char>) -> (Seq<Seq<char>>, Seq<char>)
    decreases s.len(),
{
    if s.len() == 0 {
        (Seq::empty(), Seq::empty())
    } else {
        let (done, cur) = comp_run(s.drop_last());
        if s.last() == '/' {
            (
                if cur.len() > 0 {
                    done.push(cur)
                } else {
                    done
                },
                Seq::empty(),
            )
        } else {
            (done, cur.push(s.last()))
        }
    }
}

/// The non-empty components of a path between slashes.
pub open spec fn components(s: Seq<char>) -> Seq<Seq<char>> {
    let (done, cur) = comp_run(s);
    if cur.len() > 0 {
        done.push(cur)
    } else {
        done
    }
}

/// Whether a path is absolute.
pub open spec fn is_abs(s: Seq<char>) -> bool {
    s.len() > 0 && s[0] == '/'
}

/// The entries of a directory view (empty for other kinds).
pub open spec fn entries_of(v: InodeView) -> Seq<(String, InodeId)> {
    match v.kind {
        KindView::Directory(es) => es,
        _ => Seq::empty(),
    }
}

/// Whether a directory view lists `id` under some name.
pub open spec fn lists_child(v: InodeView, id: InodeId) -> bool {
    v.kind is Directory && exists|j: int|
        0 <= j < entries_of(v).len() && #[trigger] entries_of(v)[j].1 == id
}

/// The parent recorded for `id` on the working-directory path: the entry
/// before the last position (other than the first) where `id` occurs.
pub open spec fn cwd_parent(cp: Seq<(Seq<char>, InodeId)>, id: InodeId) -> Option<InodeId>
    decreases cp.len(),
{
    if cp.len() <= 1 {
        None
    } else if cp.last().1 == id {
        Some(cp[cp.len() - 2].1)
    } else {
        cwd_parent(cp.drop_last(), id)
    }
}

/// The parent recorded on the working-directory path is one of its entries.
proof fn lemma_cwd_parent_below(cp: Seq<(Seq<char>, InodeId)>, id: InodeId, b: InodeId)
    requires
        forall|j: int| 0 <= j < cp.len() ==> #[trigger] cp[j].1 < b,
    ensures
        cwd_parent(cp, id) is Some ==> cwd_parent(cp, id)->0 < b,
    decreases cp.len(),
{
    if cp.len() > 1 && cp.last().1 != id {
        lemma_cwd_parent_below(cp.drop_last(), id, b);
    }
}

/// Components joined by '/'.
pub open spec fn join_comps(cs: Seq<Seq<char>>) -> Seq<char>
    decreases cs.len(),
{
    if cs.len() == 0 {
        Seq::empty()
    } else if cs.len() == 1 {
        cs[0]
    } else {
        join_comps(cs.drop_last()) + "/"@ + cs.last()
    }
}

/// The path of the directory holding the last component of `path`, as
/// the checked parent resolution spells it.
pub open spec fn parent_string(path: Seq<char>) -> Seq<char> {
    let cs = components(path);
    if cs.len() == 1 {
        if is_abs(path) {
            "/"@
        } else {
            "."@
        }
    } else if is_abs(path) {
        "/"@ + join_comps(cs.drop_last())
    } else {
        join_comps(cs.drop_last())
    }
}

/// Two inode views agree in everything but their contents.
pub open spec fn same_meta(a: InodeView, b: InodeView) -> bool {
    &&& a.id == b.id
    &&& a.mode == b.mode
    &&& a.uid == b.uid
    &&& a.gid == b.gid
    &&& a.nlink == b.nlink
    &&& a.block_size == b.block_size
    &&& a.created_at == b.created_at
    &&& a.modified_at == b.modified_at
    &&& a.accessed_at == b.accessed_at
    &&& a.changed_at == b.changed_at
    &&& a.created == b.created
    &&& a.modified == b.modified
}

/// The name a path ends with: what follows its last '/', or the whole
/// path (`rsplit('/').next()`).
pub open spec fn last_segment(path: Seq<char>) -> Seq<char> {
    if exists|i: int| 0 <= i < path.len() && path[i] == '/' && forall|j: int|
        i < j < path.len() ==> path[j] != '/' {
        let i = choose|i: int|
            0 <= i < path.len() && path[i] == '/' && forall|j: int| i < j < path.len() ==> path[j] != '/';
        path.subrange(i + 1, path.len() as int)
    } else {
        path
    }
}

/// Whether the last segment of a path is a Markdown file name.
pub open spec fn is_markdown(path: Seq<char>) -> bool {
    crate::text::has_suffix(last_segment(path), ".md"@)
}

/// The name a path ends with.
pub fn last_segment_of(path: &str) -> (r: String)
    ensures
        r@ == last_segment(path@),
{
    let chars = to_chars(path);
    let mut k: usize = chars.len();
    while k > 0 && chars[k - 1] != '/'
        invariant
            k <= chars@.len(),
            forall|j: int| k <= j < chars@.len() ==> chars@[j] != '/',
        decreases k,
    {
        k -= 1;
    }
    if k == 0 {
        proof {
            assert forall|i: int|
                !(0 <= i < path@.len() && path@[i] == '/' && forall|j: int|
                    i < j < path@.len() ==> path@[j] != '/') by {
                if 0 <= i < path@.len() && path@[i] == '/' {
                    assert(chars@[i] != '/');
                }
            }
        }
        return owned(path);
    }
    proof {
        let w = k - 1;
        assert(0 <= w < path@.len() && path@[w] == '/' && forall|j: int| w < j < path@.len() ==> path@[j] != '/');
        let c = choose|i: int|
            0 <= i < path@.len() && path@[i] == '/' && forall|j: int| i < j < path@.len() ==> path@[j] != '/';
        if c != w {
            if c < w {
                assert(path@[w] == '/');
            } else {
                assert(path@[c] == '/');
            }
        }
    }
    crate::text::substring(chars.as_slice(), k, chars.len())
}

/// Refuses a path whose last segment does not end in ".md".
fn validate_markdown_filename(path: &str) -> (r: Result<(), VfsError>)
    ensures
        is_markdown(path@) ==> r is Ok,
        !is_markdown(path@) ==> r is Err && r->Err_0@ == ErrorView::InvalidExtension(last_segment(path@)),
{
    let filename = last_segment_of(path);
    let chars = to_chars(filename.as_str());
    let suffix = to_chars(".md");
    if !crate::text::ends_with(chars.as_slice(), suffix.as_slice()) {
        return Err(VfsError::InvalidExtension { name: filename });
    }
    Ok(())
}

/// The first `n` components joined by '/'.
fn join_prefix(comps: &Vec<String>, n: usize) -> (r: String)
    requires
        1 <= n <= comps@.len(),
    ensures
        r@ == join_comps(comps.deep_view().take(n as int)),
{
    let mut s = owned(comps[0].as_str());
    let mut i: usize = 1;
    proof {
        assert(comps.deep_view().take(1) =~= seq![comps.deep_view()[0]]);
    }
    while i < n
        invariant
            1 <= i <= n <= comps@.len(),
            s@ == join_comps(comps.deep_view().take(i as int)),
        decreases n - i,
    {
        push_str(&mut s, "/");
        push_str(&mut s, comps[i].as_str());
        proof {
            assert(comps.deep_view().take(i + 1).drop_last() =~= comps.deep_view().take(i as int));
        }
        i += 1;
    }
    s
}

/// Content cut or zero-extended to `size` bytes.
pub open spec fn resized(b: Seq<u8>, size: nat) -> Seq<u8> {
    Seq::new(size, |i: int| if i < b.len() { b[i] } else { 0u8 })
}

/// One entry of a listing.
#[derive(Debug)]
pub struct LsEntry {
    pub name: String,
    pub is_dir: bool,
    pub is_symlink: bool,
    pub size: u64,
    pub mode: u16,
    pub uid: u32,
    pub gid: u32,
    pub modified: u64,
}

/// What `stat` tells of an inode.
#[derive(Debug)]
pub struct StatInfo {
    pub inode_id: InodeId,
    pub kind: &'static str,
    pub size: u64,
    pub blocks: u64,
    pub block_size: u64,
    pub nlink: u64,
    pub mode: u16,
    pub uid: u32,
    pub gid: u32,
    pub created: u64,
    pub created_nanos: u32,
    pub accessed: u64,
    pub accessed_nanos: u32,
    pub modified: u64,
    pub modified_nanos: u32,
    pub changed: u64,
    pub changed_nanos: u32,
}

/// Whether `info` shows inode `v`, stored under `id`: every field as the
/// inode has it, the size as its content's length and the blocks as the
/// 512-byte blocks that size takes.
pub open spec fn shows_inode(info: StatInfo, id: InodeId, v: InodeView) -> bool {
    &&& info.inode_id == id
    &&& info.kind@ == kind_word(v)
    &&& info.size == view_size(v)
    &&& info.blocks == (view_size(v) + 511) / 512
    &&& info.block_size == v.block_size
    &&& info.nlink == v.nlink
    &&& info.mode == v.mode
    &&& info.uid == v.uid
    &&& info.gid == v.gid
    &&& info.created == v.created
    &&& info.created_nanos == v.created_at.nanos
    &&& info.accessed == v.accessed_at.secs
    &&& info.accessed_nanos == v.accessed_at.nanos
    &&& info.modified == v.modified
    &&& info.modified_nanos == v.modified_at.nanos
    &&& info.changed == v.changed_at.secs
    &&& info.changed_nanos == v.changed_at.nanos
}

/// A line of a file that matched a search.
#[derive(Debug)]
pub struct GrepResult {
    pub file: String,
    pub line_num: usize,
    pub line: String,
}

/// The kind word of an inode view.
pub open spec fn kind_word(v: InodeView) -> Seq<char> {
    match v.kind {
        KindView::File(_) => "file"@,
        KindView::Directory(_) => "directory"@,
        KindView::Symlink(_) => "symlink"@,
    }
}

/// The working directory as a path: "/" at the root, else "/" before each
/// name of the working-directory path.
pub open spec fn pwd_of(cp: Seq<(Seq<char>, InodeId)>) -> Seq<char>
    decreases cp.len(),
{
    if cp.len() == 0 {
        "/"@
    } else if cp.len() == 1 {
        "/"@ + cp[0].0
    } else {
        pwd_of(cp.drop_last()) + "/"@ + cp.last().0
    }
}

/// Whether `v` describes a fresh inode of the given kind and attributes.
pub open spec fn fresh_inode(v: InodeView, id: InodeId, kind: KindView, mode: u16, uid: Uid, gid: Gid, nlink: u64) -> bool {
    &&& v.id == id
    &&& v.kind == kind
    &&& v.mode == mode
    &&& v.uid == uid
    &&& v.gid == gid
    &&& v.nlink == nlink
    &&& v.block_size == 4096
}

/// Saved parts that form a well-formed tree: the root a directory, every
/// inode stored under its own id below the next id, every directory's
/// entries in ascending order of name and naming ids below the next id, and
/// the working directory and its path below the next id.
pub open spec fn persisted_valid(
    inodes: Map<InodeId, InodeView>,
    root: InodeId,
    cwd: InodeId,
    next_id: InodeId,
    cwd_path: Seq<(Seq<char>, InodeId)>,
) -> bool {
    &&& inodes.contains_key(root)
    &&& inodes[root].kind is Directory
    &&& root < next_id
    &&& cwd < next_id
    &&& forall|k: InodeId| #[trigger]
        inodes.contains_key(k) ==> {
            &&& inodes[k].id == k
            &&& k < next_id
            &&& names_sorted(entries_of(inodes[k]))
            &&& forall|j: int| 0 <= j < entries_of(inodes[k]).len() ==> #[trigger] entries_of(inodes[k])[j].1 < next_id
        }
    &&& forall|j: int| 0 <= j < cwd_path.len() ==> #[trigger] cwd_path[j].1 < next_id
}

/// The number of components other than ".".
pub open spec fn named_count(cs: Seq<Seq<char>>) -> nat
    decreases cs.len(),
{
    if cs.len() == 0 {
        0
    } else {
        (if cs[0] == seq!['.'] {
            0nat
        } else {
            1nat
        }) + named_count(cs.drop_first())
    }
}

/// The file system.
pub struct VirtualFs {
    inodes: HashMap<InodeId, Inode>,
    root: InodeId,
    cwd: InodeId,
    next_id: InodeId,
    cwd_path: Vec<(String, InodeId)>,
    pub registry: UserRegistry,
}

impl VirtualFs {
    /// The inodes by id.
    pub closed spec fn inodes(&self) -> Map<InodeId, InodeView> {
        self.inodes@.map_values(|i: Inode| i@)
    }

    /// The id of the root directory.
    pub closed spec fn root(&self) -> InodeId {
        self.root
    }

    /// The id of the working directory.
    pub closed spec fn cwd(&self) -> InodeId {
        self.cwd
    }

    /// The id the next new inode gets.
    pub closed spec fn next_id(&self) -> InodeId {
        self.next_id
    }

    /// The names and ids of the directories from the root to the working
    /// directory (the root itself not included).
    pub closed spec fn cwd_path(&self) -> Seq<(Seq<char>, InodeId)> {
        self.cwd_path@.map_values(|e: (String, InodeId)| (e.0@, e.1))
    }

    /// The user registry.
    pub closed spec fn reg(&self) -> UserRegistry {
        self.registry
    }

    /// The well-formedness of a file system: the tree's invariant and the
    /// registry's.
    pub open spec fn wf(&self) -> bool {
        self.tree_wf() && self.reg().inv()
    }

    /// The tree's invariant: the root is a directory; each inode is stored
    /// under its own id, which is below the next id; every directory lists
    /// its entries in ascending order of name and only ids below the next
    /// id; so do the working directory and its path.
    pub closed spec fn tree_wf(&self) -> bool {
        &&& self.inodes().contains_key(self.root())
        &&& self.inodes()[self.root()].kind is Directory
        &&& self.root() < self.next_id()
        &&& self.cwd() < self.next_id()
        &&& forall|k: InodeId| #[trigger]
            self.inodes().contains_key(k) ==> {
                &&& self.inodes()[k].id == k
                &&& k < self.next_id()
                &&& names_sorted(entries_of(self.inodes()[k]))
                &&& forall|j: int|
                    0 <= j < entries_of(self.inodes()[k]).len() ==> #[trigger] entries_of(
                        self.inodes()[k],
                    )[j].1 < self.next_id()
            }
        &&& forall|j: int| 0 <= j < self.cwd_path().len() ==> #[trigger] self.cwd_path()[j].1 < self.next_id()
    }

    /// The registry, to read.
    pub fn registry(&self) -> (r: &UserRegistry)
        ensures
            *r == self.reg(),
    {
        &self.registry
    }

    /// The registry, to change; the rest of the file system stays as it is.
    pub fn registry_mut(&mut self) -> (r: &mut UserRegistry)
        ensures
            *r == old(self).reg(),
            final(self).reg() == *final(r),
            final(self).inodes() == old(self).inodes(),
            final(self).root() == old(self).root(),
            final(self).cwd() == old(self).cwd(),
            final(self).next_id() == old(self).next_id(),
            final(self).cwd_path() == old(self).cwd_path(),
    {
        &mut self.registry
    }

    /// The root is a directory of the tree.
    pub proof fn lemma_root_dir(&self)
        requires
            self.wf(),
        ensures
            self.inodes().contains_key(self.root()),
            self.inodes()[self.root()].kind is Directory,
    {
    }

    /// Every inode's id is below the next id.
    pub proof fn lemma_id_below(&self, k: InodeId)
        requires
            self.wf(),
            self.inodes().contains_key(k),
        ensures
            k < self.next_id(),
    {
    }

    /// The tree's invariant depends only on the tree.
    pub proof fn lemma_tree_wf_frame(&self, other: &Self)
        requires
            self.tree_wf(),
            other.inodes() == self.inodes(),
            other.root() == self.root(),
            other.cwd() == self.cwd(),
            other.next_id() == self.next_id(),
            other.cwd_path() == self.cwd_path(),
        ensures
            other.tree_wf(),
    {
    }

    /// The ids of all inodes, in no particular order.
    fn inode_ids(&self) -> (r: Vec<InodeId>)
        ensures
            forall|k: InodeId| self.inodes@.dom().contains(k) ==> r@.contains(k),
            forall|j: int| 0 <= j < r@.len() ==> self.inodes@.dom().contains(#[trigger] r@[j]),
            r@.no_duplicates(),
    {
        let mut r: Vec<InodeId> = Vec::new();
        let keys = self.inodes.keys();
        let ghost all = keys.remaining().unref();
        assert(all.to_set() == self.inodes@.dom());
        assert(keys.remaining().no_duplicates());
        assert(all.no_duplicates()) by {
            assert forall|a: int, c: int| 0 <= a < all.len() && 0 <= c < all.len() && a != c implies all[a]
                != all[c] by {
                assert(keys.remaining()[a] != keys.remaining()[c]);
            }
        }
        for k in it: keys
            invariant
                it.seq().unref() == all,
                all.to_set() == self.inodes@.dom(),
                r@ == all.take(it.index() as int),
        {
            r.push(*k);
            proof {
                assert(all.take(it.index() + 1) =~= r@);
            }
        }
        proof {
            assert(r@ =~= all);
            assert forall|k: InodeId| self.inodes@.dom().contains(k) implies r@.contains(k) by {
                assert(all.to_set().contains(k));
            }
        }
        r
    }

    /// The entries of a directory, or why there are none.
    pub open spec fn dir_of(&self, id: InodeId) -> Result<Seq<(String, InodeId)>, ErrorView> {
        if !self.inodes().contains_key(id) {
            Err(ErrorView::NotFound(label(id)))
        } else if !(self.inodes()[id].kind is Directory) {
            Err(ErrorView::NotDirectory(label(id)))
        } else {
            Ok(entries_of(self.inodes()[id]))
        }
    }

    /// Whether directory `d` lists `id`.
    pub open spec fn holds_child(&self, d: InodeId, id: InodeId) -> bool {
        self.inodes().contains_key(d) && lists_child(self.inodes()[d], id)
    }

    /// The directory that `..` leads to from `id`: the root from the root;
    /// else the parent recorded on the working-directory path; else the
    /// lowest-numbered directory that lists `id`; else the root.
    pub open spec fn parent(&self, id: InodeId) -> InodeId {
        if id == self.root() {
            self.root()
        } else if cwd_parent(self.cwd_path(), id) is Some {
            cwd_parent(self.cwd_path(), id)->0
        } else if exists|d: InodeId| self.holds_child(d, id) {
            choose|d: InodeId|
                self.holds_child(d, id) && forall|e: InodeId| self.holds_child(e, id) ==> d <= e
        } else {
            self.root()
        }
    }

    /// One step of resolution from directory `cur` by component `c`.
    pub open spec fn step(&self, cur: InodeId, c: Seq<char>, path: Seq<char>) -> Result<
        InodeId,
        ErrorView,
    > {
        if c == "."@ {
            Ok(cur)
        } else if c == ".."@ {
            Ok(self.parent(cur))
        } else {
            match self.dir_of(cur) {
                Err(e) => Err(e),
                Ok(es) => if dir_map(es).contains_key(c) {
                    Ok(dir_map(es)[c])
                } else {
                    Err(ErrorView::NotFound(path))
                },
            }
        }
    }

    /// Where the components lead from `cur`, or the first error.
    pub open spec fn walk(&self, cur: InodeId, comps: Seq<Seq<char>>, path: Seq<char>) -> Result<
        InodeId,
        ErrorView,
    >
        decreases comps.len(),
    {
        if comps.len() == 0 {
            Ok(cur)
        } else {
            match self.step(cur, comps[0], path) {
                Err(e) => Err(e),
                Ok(next) => self.walk(next, comps.drop_first(), path),
            }
        }
    }

    /// Where a path starts: the root for an absolute path, else the
    /// working directory.
    pub open spec fn start(&self, path: Seq<char>) -> InodeId {
        if is_abs(path) {
            self.root()
        } else {
            self.cwd()
        }
    }

    /// What a path resolves to, without permission checks.
    pub open spec fn resolve(&self, path: Seq<char>) -> Result<InodeId, ErrorView> {
        self.walk(self.start(path), components(path), path)
    }

    /// Resolution from `cur` with an Execute check on every directory
    /// reached by name.
    pub open spec fn walk_checked(
        &self,
        cur: InodeId,
        comps: Seq<Seq<char>>,
        path: Seq<char>,
        session: Session,
    ) -> Result<InodeId, ErrorView>
        decreases comps.len(),
    {
        if comps.len() == 0 {
            Ok(cur)
        } else if comps[0] == "."@ {
            self.walk_checked(cur, comps.drop_first(), path, session)
        } else if comps[0] == ".."@ {
            self.walk_checked(self.parent(cur), comps.drop_first(), path, session)
        } else {
            match self.dir_of(cur) {
                Err(e) => Err(e),
                Ok(es) => if !dir_map(es).contains_key(comps[0]) {
                    Err(ErrorView::NotFound(path))
                } else {
                    let next = dir_map(es)[comps[0]];
                    if !self.inodes().contains_key(next) {
                        Err(ErrorView::NotFound(label(next)))
                    } else if self.inodes()[next].kind is Directory && !session.allows(
                        self.inodes()[next].mode,
                        self.inodes()[next].uid,
                        self.inodes()[next].gid,
                        Access::Execute,
                    ) {
                        Err(ErrorView::PermissionDenied(path))
                    } else {
                        self.walk_checked(next, comps.drop_first(), path, session)
                    }
                },
            }
        }
    }

    /// What a path resolves to for a session: the start must be searchable
    /// (Execute), and so must every directory reached by name.
    pub open spec fn resolve_checked(&self, path: Seq<char>, session: Session) -> Result<
        InodeId,
        ErrorView,
    > {
        let st = self.start(path);
        if !self.inodes().contains_key(st) {
            Err(ErrorView::NotFound(label(st)))
        } else if !session.allows(
            self.inodes()[st].mode,
            self.inodes()[st].uid,
            self.inodes()[st].gid,
            Access::Execute,
        ) {
            Err(ErrorView::PermissionDenied(path))
        } else {
            self.walk_checked(st, components(path), path, session)
        }
    }

    /// The directory holding the last component of a path, and that
    /// component.
    pub open spec fn resolve_parent_spec(&self, path: Seq<char>) -> Result<
        (InodeId, Seq<char>),
        ErrorView,
    > {
        let comps = components(path);
        if comps.len() == 0 {
            Err(ErrorView::InvalidPath(path))
        } else {
            match self.walk(self.start(path), comps.drop_last(), path) {
                Err(e) => Err(e),
                Ok(p) => Ok((p, comps.last())),
            }
        }
    }

    /// Among the directories that list `id`, one has the least number.
    proof fn lemma_least_holder(&self, d0: InodeId, id: InodeId)
        requires
            self.holds_child(d0, id),
        ensures
            exists|d: InodeId|
                self.holds_child(d, id) && forall|e: InodeId| self.holds_child(e, id) ==> d <= e,
        decreases d0,
    {
        if !(forall|e: InodeId| self.holds_child(e, id) ==> d0 <= e) {
            let e = choose|e: InodeId| self.holds_child(e, id) && !(d0 <= e);
            self.lemma_least_holder(e, id);
        }
    }

    /// Every step of a walk stays among the ids handed out so far.
    proof fn lemma_walk_below(&self, cur: InodeId, comps: Seq<Seq<char>>, path: Seq<char>)
        requires
            self.tree_wf(),
            cur < self.next_id(),
        ensures
            self.walk(cur, comps, path) is Ok ==> self.walk(cur, comps, path)->Ok_0 < self.next_id(),
        decreases comps.len(),
    {
        reveal_strlit("..");
        reveal_strlit(".");
        if comps.len() > 0 {
            let c = comps[0];
            if self.step(cur, c, path) is Ok {
                let next = self.step(cur, c, path)->Ok_0;
                if c == ".."@ {
                    if cur != self.root() && cwd_parent(self.cwd_path(), cur) is None {
                        if exists|d: InodeId| self.holds_child(d, cur) {
                            let d0 = choose|d: InodeId| self.holds_child(d, cur);
                            self.lemma_least_holder(d0, cur);
                            let m = choose|d: InodeId|
                                self.holds_child(d, cur) && forall|e: InodeId|
                                    self.holds_child(e, cur) ==> d <= e;
                            assert(self.holds_child(m, cur));
                            assert("."@ != ".."@) by {
                                assert("."@.len() != ".."@.len());
                            }
                            assert(self.parent(cur) == m);
                            assert(next == m);
                        }
                    } else if cur != self.root() {
                        lemma_cwd_parent_below(self.cwd_path(), cur, self.next_id());
                    }
                } else if c != "."@ {
                    let es = entries_of(self.inodes()[cur]);
                    assert(self.inodes().contains_key(cur));
                    let i = entry_index(es, c);
                    assert(0 <= i < es.len() && es[i].0@ == c);
                    assert(es[i].1 < self.next_id());
                }
                self.lemma_walk_below(next, comps.drop_first(), path);
            }
        }
    }

    /// The directory that `resolve_parent_spec` finds is below `next_id`.
    proof fn lemma_parent_dir_below(&self, path: Seq<char>)
        requires
            self.tree_wf(),
        ensures
            self.resolve_parent_spec(path) is Ok ==> self.resolve_parent_spec(path)->Ok_0.0
                < self.next_id(),
    {
        let comps = components(path);
        if comps.len() > 0 {
            self.lemma_walk_below(self.start(path), comps.drop_last(), path);
        }
    }

    /// An empty file system: a root directory (id 0, owned by root, mode
    /// 0755) that is also the working directory, and a fresh registry.
    pub fn new() -> (r: Self)
        ensures
            r.wf(),
            r.root() == 0,
            r.cwd() == 0,
            r.next_id() == 1,
            r.cwd_path().len() == 0,
            r.inodes().dom() == set![0u64],
            r.inodes()[0].kind == KindView::Directory(Seq::empty()),
            r.inodes()[0].mode == 0o755,
            r.inodes()[0].uid == ROOT_UID,
            r.inodes()[0].gid == ROOT_GID,
    {
        let root_id: InodeId = 0;
        let root = Inode::new_dir(root_id, ROOT_UID, ROOT_GID);
        let mut inodes: HashMap<InodeId, Inode> = HashMap::new();
        inodes.insert(root_id, root);
        let r = VirtualFs {
            inodes,
            root: root_id,
            cwd: root_id,
            next_id: 1,
            cwd_path: Vec::new(),
            registry: UserRegistry::new(),
        };
        proof {
            assert(r.inodes().dom() =~= set![0u64]);
            assert(r.inodes()[0].kind == KindView::Directory(Seq::<(String, InodeId)>::empty()));
            assert(r.cwd_path() =~= Seq::<(Seq<char>, InodeId)>::empty());
        }
        r
    }

    /// The inode of an id.
    pub fn get_inode(&self, id: InodeId) -> (r: Result<&Inode, VfsError>)
        ensures
            match r {
                Ok(i) => self.inodes().contains_key(id) && i@ == self.inodes()[id],
                Err(e) => !self.inodes().contains_key(id) && e@ == ErrorView::NotFound(label(id)),
            },
    {
        match self.inodes.get(&id) {
            Some(i) => Ok(i),
            None => Err(VfsError::NotFound { path: label_string(id) }),
        }
    }

    /// The entries of a directory.
    fn dir_entries(&self, id: InodeId) -> (r: Result<&Vec<(String, InodeId)>, VfsError>)
        ensures
            match r {
                Ok(es) => self.dir_of(id) == Ok::<Seq<(String, InodeId)>, ErrorView>(es@),
                Err(e) => self.dir_of(id) == Err::<Seq<(String, InodeId)>, ErrorView>(e@),
            },
    {
        let inode = self.get_inode(id)?;
        match &inode.kind {
            InodeKind::Directory { entries } => Ok(entries),
            _ => Err(VfsError::NotDirectory { path: label_string(id) }),
        }
    }

    /// Splits a path into where it starts and its components.
    fn parse_path(&self, path: &str) -> (r: (InodeId, Vec<String>))
        ensures
            r.0 == self.start(path@),
            r.1.deep_view() == components(path@),
    {
        let chars = to_chars(path);
        let start = if chars.len() > 0 && chars[0] == '/' {
            self.root
        } else {
            self.cwd
        };
        let mut done: Vec<String> = Vec::new();
        let mut cur: Vec<char> = Vec::new();
        let mut i: usize = 0;
        proof {
            assert(chars@.take(0) =~= Seq::<char>::empty());
            assert(done.deep_view() =~= Seq::<Seq<char>>::empty());
            assert(cur@ =~= Seq::<char>::empty());
        }
        while i < chars.len()
            invariant
                i <= chars@.len(),
                comp_run(chars@.take(i as int)) == (done.deep_view(), cur@),
            decreases chars.len() - i,
        {
            proof {
                assert(chars@.take(i + 1).drop_last() =~= chars@.take(i as int));
            }
            if chars[i] == '/' {
                if cur.len() > 0 {
                    let ghost before = done.deep_view();
                    done.push(from_chars(cur.as_slice()));
                    proof {
                        assert(done.deep_view() =~= before.push(cur@));
                    }
                }
                cur = Vec::new();
                proof {
                    assert(cur@ =~= Seq::<char>::empty());
                }
            } else {
                cur.push(chars[i]);
            }
            i += 1;
        }
        proof {
            assert(chars@.take(chars@.len() as int) =~= chars@);
        }
        if cur.len() > 0 {
            let ghost before = done.deep_view();
            done.push(from_chars(cur.as_slice()));
            proof {
                assert(done.deep_view() =~= before.push(cur@));
            }
        }
        (start, done)
    }

    /// Whether a listing has an entry for `id`.
    fn lists(es: &Vec<(String, InodeId)>, id: InodeId) -> (r: bool)
        ensures
            r == exists|j: int| 0 <= j < es@.len() && #[trigger] es@[j].1 == id,
    {
        let mut i: usize = 0;
        while i < es.len()
            invariant
                i <= es@.len(),
                forall|j: int| 0 <= j < i ==> es@[j].1 != id,
            decreases es.len() - i,
        {
            if es[i].1 == id {
                assert(es@[i as int].1 == id);
                return true;
            }
            i += 1;
        }
        false
    }

    /// The directory that `..` leads to from `id` (see `parent`).
    #[verifier::spinoff_prover]
    fn parent_of(&self, id: InodeId) -> (r: InodeId)
        requires
            self.wf(),
        ensures
            r == self.parent(id),
    {
        if id == self.root {
            return self.root;
        }
        let mut i: usize = self.cwd_path.len();
        proof {
            assert(self.cwd_path().take(i as int) =~= self.cwd_path());
        }
        while i > 1
            invariant
                id != self.root,
                i <= self.cwd_path@.len(),
                cwd_parent(self.cwd_path(), id) == cwd_parent(self.cwd_path().take(i as int), id),
            decreases i,
        {
            proof {
                assert(self.cwd_path().take(i as int).drop_last() =~= self.cwd_path().take(i - 1));
            }
            if self.cwd_path[i - 1].1 == id {
                proof {
                    assert(self.cwd_path().take(i as int).last().1 == self.cwd_path@[i - 1].1);
                    assert(self.cwd_path().take(i as int)[i - 2].1 == self.cwd_path@[i - 2].1);
                }
                return self.cwd_path[i - 2].1;
            }
            i -= 1;
        }
        proof {
            assert(cwd_parent(self.cwd_path().take(i as int), id) is None);
        }
        let ids = self.inode_ids();
        let mut best: Option<InodeId> = None;
        let mut n: usize = 0;
        while n < ids.len()
            invariant
                self.wf(),
                id != self.root,
                cwd_parent(self.cwd_path(), id) is None,
                n <= ids@.len(),
                forall|k: InodeId| self.inodes@.dom().contains(k) ==> ids@.contains(k),
                forall|j: int| 0 <= j < ids@.len() ==> self.inodes@.dom().contains(#[trigger] ids@[j]),
                match best {
                    Some(b) => self.holds_child(b, id) && forall|j: int|
                        0 <= j < n && self.holds_child(#[trigger] ids@[j], id) ==> b <= ids@[j],
                    None => forall|j: int| 0 <= j < n ==> !self.holds_child(#[trigger] ids@[j], id),
                },
            decreases ids.len() - n,
        {
            let k = ids[n];
            let inode = self.inodes.get(&k).unwrap();
            let found = match &inode.kind {
                InodeKind::Directory { entries } => Self::lists(entries, id),
                _ => false,
            };
            proof {
                assert(self.inodes()[k] == inode@);
                assert(self.inodes().contains_key(k));
                assert(entries_of(inode@) == entries_of(self.inodes()[k]));
                assert(found == self.holds_child(k, id));
            }
            if found {
                best = match best {
                    Some(b) => if k < b {
                        Some(k)
                    } else {
                        Some(b)
                    },
                    None => Some(k),
                };
            }
            n += 1;
        }
        match best {
            Some(b) => {
                proof {
                    assert forall|e: InodeId| self.holds_child(e, id) implies b <= e by {
                        assert(ids@.contains(e));
                        let j = choose|j: int| 0 <= j < ids@.len() && ids@[j] == e;
                        assert(self.holds_child(ids@[j], id));
                    }
                    let c = choose|d: InodeId|
                        self.holds_child(d, id) && forall|e: InodeId| self.holds_child(e, id) ==> d <= e;
                    assert(c <= b && b <= c);
                }
                b
            },
            None => {
                proof {
                    assert forall|e: InodeId| !self.holds_child(e, id) by {
                        if self.holds_child(e, id) {
                            assert(ids@.contains(e));
                            let j = choose|j: int| 0 <= j < ids@.len() && ids@[j] == e;
                            assert(!self.holds_child(ids@[j], id));
                        }
                    }
                }
                self.root
            },
        }
    }
    /// Resolves a path without permission checks.
    pub fn resolve_path(&self, path: &str) -> (r: Result<InodeId, VfsError>)
        requires
            self.wf(),
        ensures
            res_view(r) == self.resolve(path@),
    {
        let (start, components) = self.parse_path(path);
        proof {
            assert(components.deep_view().skip(0) =~= components.deep_view());
        }
        self.walk_from(start, &components, 0, path)
    }

    /// Resolution from `cur` through the components from position `i` on.
    fn walk_from(&self, start: InodeId, comps: &Vec<String>, i0: usize, path: &str) -> (r: Result<
        InodeId,
        VfsError,
    >)
        requires
            self.wf(),
            i0 <= comps@.len(),
        ensures
            res_view(r) == self.walk(start, comps.deep_view().skip(i0 as int), path@),
    {
        let mut current = start;
        let mut i: usize = i0;
        while i < comps.len()
            invariant
                self.wf(),
                i0 <= i <= comps@.len(),
                self.walk(start, comps.deep_view().skip(i0 as int), path@) == self.walk(
                    current,
                    comps.deep_view().skip(i as int),
                    path@,
                ),
            decreases comps.len() - i,
        {
            let c = comps[i].as_str();
            proof {
                assert(comps.deep_view().skip(i as int)[0] == c@);
                assert(comps.deep_view().skip(i as int).drop_first() =~= comps.deep_view().skip(
                    i + 1,
                ));
            }
            if str_eq(c, ".") {
            } else if str_eq(c, "..") {
                current = self.parent_of(current);
            } else {
                let entries = match self.dir_entries(current) {
                    Ok(es) => es,
                    Err(e) => {
                        return Err(e);
                    },
                };
                proof {
                    self.lemma_dir_sorted(current);
                }
                current = match dir_lookup(entries, c) {
                    Some(t) => t,
                    None => {
                        return Err(VfsError::NotFound { path: owned(path) });
                    },
                };
            }
            i += 1;
        }
        Ok(current)
    }

    /// A directory of a well-formed file system lists its names in order.
    pub proof fn lemma_dir_sorted(&self, id: InodeId)
        requires
            self.tree_wf(),
            self.inodes().contains_key(id),
        ensures
            names_sorted(entries_of(self.inodes()[id])),
            forall|j: int|
                0 <= j < entries_of(self.inodes()[id]).len() ==> #[trigger] entries_of(
                    self.inodes()[id],
                )[j].1 < self.next_id(),
    {
    }

    /// Resolves a path, requiring Execute on the starting directory and on
    /// every directory reached by name.
    pub fn resolve_path_checked(&self, path: &str, session: &Session) -> (r: Result<
        InodeId,
        VfsError,
    >)
        requires
            self.wf(),
        ensures
            res_view(r) == self.resolve_checked(path@, *session),
    {
        let (start, components) = self.parse_path(path);
        let start_inode = self.get_inode(start)?;
        if !session.has_permission(start_inode, Access::Execute) {
            return Err(VfsError::PermissionDenied { path: owned(path) });
        }
        let mut current = start;
        let mut i: usize = 0;
        proof {
            assert(components.deep_view().skip(0) =~= components.deep_view());
        }
        while i < components.len()
            invariant
                self.wf(),
                i <= components@.len(),
                self.resolve_checked(path@, *session) == self.walk_checked(
                    start,
                    components.deep_view(),
                    path@,
                    *session,
                ),
                self.walk_checked(start, components.deep_view(), path@, *session)
                    == self.walk_checked(current, components.deep_view().skip(i as int), path@, *session),
            decreases components.len() - i,
        {
            let c = components[i].as_str();
            proof {
                assert(components.deep_view().skip(i as int)[0] == c@);
                assert(components.deep_view().skip(i as int).drop_first() =~= components.deep_view().skip(
                    i + 1,
                ));
            }
            if str_eq(c, ".") {
            } else if str_eq(c, "..") {
                current = self.parent_of(current);
            } else {
                let entries = match self.dir_entries(current) {
                    Ok(es) => es,
                    Err(e) => {
                        return Err(e);
                    },
                };
                proof {
                    self.lemma_dir_sorted(current);
                }
                current = match dir_lookup(entries, c) {
                    Some(t) => t,
                    None => {
                        return Err(VfsError::NotFound { path: owned(path) });
                    },
                };
                let inode = self.get_inode(current)?;
                if inode.is_dir() && !session.has_permission(inode, Access::Execute) {
                    return Err(VfsError::PermissionDenied { path: owned(path) });
                }
            }
            i += 1;
        }
        Ok(current)
    }

    /// Resolves the parent of a path with permission checks; returns the
    /// parent's id and the last component.
    pub fn resolve_parent_checked(&self, path: &str, session: &Session) -> (r: Result<
        (InodeId, String),
        VfsError,
    >)
        requires
            self.wf(),
        ensures
            components(path@).len() == 0 ==> r is Err && r->Err_0@ == ErrorView::InvalidPath(path@),
            components(path@).len() > 0 ==> match r {
                Ok((p, name)) => self.resolve_checked(parent_string(path@), *session) == Ok::<
                    InodeId,
                    ErrorView,
                >(p) && name@ == components(path@).last(),
                Err(e) => self.resolve_checked(parent_string(path@), *session) == Err::<
                    InodeId,
                    ErrorView,
                >(e@),
            },
    {
        let (_, components) = self.parse_path(path);
        if components.len() == 0 {
            return Err(VfsError::InvalidPath { path: owned(path) });
        }
        let n = components.len();
        let name = components[n - 1].clone();
        let chars = to_chars(path);
        let absolute = chars.len() > 0 && chars[0] == '/';
        let parent_path = if n == 1 {
            if absolute {
                owned("/")
            } else {
                owned(".")
            }
        } else {
            let joined = join_prefix(&components, n - 1);
            proof {
                assert(components.deep_view().take(n - 1) =~= components.deep_view().drop_last());
            }
            if absolute {
                let mut s = owned("/");
                push_str(&mut s, joined.as_str());
                s
            } else {
                joined
            }
        };
        let parent_id = self.resolve_path_checked(parent_path.as_str(), session)?;
        Ok((parent_id, name))
    }

    /// The directory holding the last component of a path, and that
    /// component, without permission checks.
    fn resolve_parent(&self, path: &str) -> (r: Result<(InodeId, String), VfsError>)
        requires
            self.wf(),
        ensures
            match r {
                Ok((p, name)) => self.resolve_parent_spec(path@) == Ok::<
                    (InodeId, Seq<char>),
                    ErrorView,
                >((p, name@)),
                Err(e) => self.resolve_parent_spec(path@) == Err::<(InodeId, Seq<char>), ErrorView>(
                    e@,
                ),
            },
    {
        let (start, mut components) = self.parse_path(path);
        if components.len() == 0 {
            return Err(VfsError::InvalidPath { path: owned(path) });
        }
        let ghost all = components.deep_view();
        let name = components.pop().unwrap();
        proof {
            assert(components.deep_view() =~= all.drop_last());
            assert(components.deep_view().skip(0) =~= components.deep_view());
        }
        let parent = self.walk_from(start, &components, 0, path)?;
        Ok((parent, name))
    }
    /// The root, working directory, its path and the registry are those of
    /// `old`.
    pub open spec fn frame(&self, old: &Self) -> bool {
        &&& self.root() == old.root()
        &&& self.cwd() == old.cwd()
        &&& self.cwd_path() == old.cwd_path()
        &&& self.reg() == old.reg()
    }

    /// Nothing changed.
    pub open spec fn same_as(&self, old: &Self) -> bool {
        &&& self.frame(old)
        &&& self.inodes() == old.inodes()
        &&& self.next_id() == old.next_id()
    }

    /// Every inode of `old` outside `ks` is still there, unchanged.
    pub open spec fn keeps_others(&self, old: &Self, ks: Set<InodeId>) -> bool {
        forall|k: InodeId|
            old.inodes().contains_key(k) && !ks.contains(k) ==> #[trigger] self.inodes().contains_key(k)
                && self.inodes()[k] == old.inodes()[k]
    }

    /// Directory `d` now lists exactly `m`, its other fields as they were.
    pub open spec fn relisted(&self, old: &Self, d: InodeId, m: Map<Seq<char>, InodeId>) -> bool {
        &&& self.inodes().contains_key(d)
        &&& same_meta(old.inodes()[d], self.inodes()[d])
        &&& self.inodes()[d].kind is Directory
        &&& dir_map(entries_of(self.inodes()[d])) == m
    }

    /// The group a new entry of directory `p` gets: the directory's own if it
    /// has the setgid bit, else the caller's.
    pub open spec fn inherited_gid(&self, p: InodeId, gid: Gid) -> Gid {
        if self.inodes().contains_key(p) && self.inodes()[p].mode & 0o2000u16 != 0 {
            self.inodes()[p].gid
        } else {
            gid
        }
    }

    fn effective_gid(&self, parent_id: InodeId, caller_gid: Gid) -> (r: Gid)
        ensures
            r == self.inherited_gid(parent_id, caller_gid),
    {
        if let Ok(parent) = self.get_inode(parent_id) {
            if has_setgid(parent.mode) {
                return parent.gid;
            }
        }
        caller_gid
    }

    /// Putting a well-formed inode under its id keeps the tree well formed.
    proof fn lemma_wf_insert(&self, old: &Self, id: InodeId, v: InodeView)
        requires
            old.tree_wf(),
            self.inodes() == old.inodes().insert(id, v),
            v.id == id,
            id < self.next_id(),
            old.next_id() <= self.next_id(),
            names_sorted(entries_of(v)),
            forall|j: int| 0 <= j < entries_of(v).len() ==> #[trigger] entries_of(v)[j].1 < self.next_id(),
            self.root() == old.root(),
            self.cwd() == old.cwd(),
            self.cwd_path() == old.cwd_path(),
            id == old.root() ==> v.kind is Directory,
        ensures
            self.tree_wf(),
    {
        assert forall|k: InodeId| #[trigger] self.inodes().contains_key(k) implies {
            &&& self.inodes()[k].id == k
            &&& k < self.next_id()
            &&& names_sorted(entries_of(self.inodes()[k]))
            &&& forall|j: int|
                0 <= j < entries_of(self.inodes()[k]).len() ==> #[trigger] entries_of(
                    self.inodes()[k],
                )[j].1 < self.next_id()
        } by {
            if k != id {
                assert(old.inodes().contains_key(k));
            }
        }
    }

    /// Taking out an inode other than the root keeps the tree well formed.
    proof fn lemma_wf_remove(&self, old: &Self, ks: Set<InodeId>)
        requires
            old.tree_wf(),
            self.inodes() == old.inodes().remove_keys(ks),
            !ks.contains(old.root()),
            self.next_id() == old.next_id(),
            self.root() == old.root(),
            self.cwd() == old.cwd(),
            self.cwd_path() == old.cwd_path(),
        ensures
            self.tree_wf(),
    {
        assert forall|k: InodeId| #[trigger] self.inodes().contains_key(k) implies {
            &&& self.inodes()[k].id == k
            &&& k < self.next_id()
            &&& names_sorted(entries_of(self.inodes()[k]))
            &&& forall|j: int|
                0 <= j < entries_of(self.inodes()[k]).len() ==> #[trigger] entries_of(
                    self.inodes()[k],
                )[j].1 < self.next_id()
        } by {
            assert(old.inodes().contains_key(k));
        }
    }

    /// Takes an inode out of the map.
    fn take_inode(&mut self, id: InodeId) -> (r: Inode)
        requires
            old(self).inodes().contains_key(id),
        ensures
            r@ == old(self).inodes()[id],
            final(self).inodes() == old(self).inodes().remove(id),
            final(self).frame(old(self)),
            final(self).next_id() == old(self).next_id(),
    {
        let r = self.inodes.remove(&id).unwrap();
        proof {
            assert(self.inodes() =~= old(self).inodes().remove(id));
        }
        r
    }

    /// Puts an inode into the map under `id`.
    fn put_inode(&mut self, id: InodeId, inode: Inode)
        ensures
            final(self).inodes() == old(self).inodes().insert(id, inode@),
            final(self).frame(old(self)),
            final(self).next_id() == old(self).next_id(),
    {
        self.inodes.insert(id, inode);
        proof {
            assert(self.inodes() =~= old(self).inodes().insert(id, inode@));
        }
    }

    /// Changes the listing of directory `d` with `f`, which maps a sorted
    /// listing to a sorted listing.
    fn dir_set(&mut self, d: InodeId, name: String, child: InodeId) -> (r: Result<(), VfsError>)
        requires
            old(self).tree_wf(),
            child < old(self).next_id(),
        ensures
            final(self).tree_wf(),
            final(self).frame(old(self)),
            final(self).next_id() == old(self).next_id(),
            match old(self).dir_of(d) {
                Err(e) => r is Err && r->Err_0@ == e && final(self).inodes() == old(self).inodes(),
                Ok(es) => r is Ok && final(self).inodes().dom() == old(self).inodes().dom()
                    && final(self).keeps_others(old(self), set![d]) && final(self).relisted(
                    old(self),
                    d,
                    dir_map(es).insert(name@, child),
                ),
            },
    {
        if let Err(e) = self.dir_entries(d) {
            return Err(e);
        }
        let ghost old_fs = *self;
        proof {
            old_fs.lemma_dir_sorted(d);
        }
        let ino = self.take_inode(d);
        let Inode {
            id,
            kind,
            mode,
            uid,
            gid,
            nlink,
            block_size,
            created_at,
            modified_at,
            accessed_at,
            changed_at,
            created,
            modified,
        } = ino;
        let new_kind = match kind {
            InodeKind::Directory { mut entries } => {
                dir_insert(&mut entries, name, child);
                InodeKind::Directory { entries }
            },
            other => other,
        };
        let ghost nk = new_kind@;
        self.put_inode(
            d,
            Inode {
                id,
                kind: new_kind,
                mode,
                uid,
                gid,
                nlink,
                block_size,
                created_at,
                modified_at,
                accessed_at,
                changed_at,
                created,
                modified,
            },
        );
        proof {
            let v = self.inodes()[d];
            assert forall|j: int| 0 <= j < entries_of(v).len() implies #[trigger] entries_of(v)[j].1
                < self.next_id() by {
                let es = entries_of(v);
                let n = es[j].0@;
                crate::listing::lemma_sorted_target(es, j);
                if n != name@ {
                    let oes = entries_of(old_fs.inodes()[d]);
                    assert(dir_map(oes).contains_key(n));
                    let k = crate::listing::entry_index(oes, n);
                    crate::listing::lemma_sorted_target(oes, k);
                }
            }
            assert(self.inodes() =~= old_fs.inodes().insert(d, v));
            self.lemma_wf_insert(&old_fs, d, v);
            assert(self.inodes().dom() =~= old_fs.inodes().dom());
        }
        Ok(())
    }

    /// Removes a name from the listing of directory `d`.
    fn dir_unset(&mut self, d: InodeId, name: &str) -> (r: Result<(), VfsError>)
        requires
            old(self).tree_wf(),
        ensures
            final(self).tree_wf(),
            final(self).frame(old(self)),
            final(self).next_id() == old(self).next_id(),
            match old(self).dir_of(d) {
                Err(e) => r is Err && r->Err_0@ == e && final(self).inodes() == old(self).inodes(),
                Ok(es) => r is Ok && final(self).inodes().dom() == old(self).inodes().dom()
                    && final(self).keeps_others(old(self), set![d]) && final(self).relisted(
                    old(self),
                    d,
                    dir_map(es).remove(name@),
                ),
            },
    {
        if let Err(e) = self.dir_entries(d) {
            return Err(e);
        }
        let ghost old_fs = *self;
        proof {
            old_fs.lemma_dir_sorted(d);
        }
        let ino = self.take_inode(d);
        let Inode {
            id,
            kind,
            mode,
            uid,
            gid,
            nlink,
            block_size,
            created_at,
            modified_at,
            accessed_at,
            changed_at,
            created,
            modified,
        } = ino;
        let new_kind = match kind {
            InodeKind::Directory { mut entries } => {
                dir_remove(&mut entries, name);
                InodeKind::Directory { entries }
            },
            other => other,
        };
        self.put_inode(
            d,
            Inode {
                id,
                kind: new_kind,
                mode,
                uid,
                gid,
                nlink,
                block_size,
                created_at,
                modified_at,
                accessed_at,
                changed_at,
                created,
                modified,
            },
        );
        proof {
            let v = self.inodes()[d];
            let oes = entries_of(old_fs.inodes()[d]);
            assert forall|j: int| 0 <= j < entries_of(v).len() implies #[trigger] entries_of(v)[j].1
                < self.next_id() by {
                assert(oes.contains(entries_of(v)[j]));
            }
            assert(self.inodes() =~= old_fs.inodes().insert(d, v));
            self.lemma_wf_insert(&old_fs, d, v);
            assert(self.inodes().dom() =~= old_fs.inodes().dom());
        }
        Ok(())
    }

    /// Stores a new inode under the next id and advances the next id.
    fn add_inode(&mut self, inode: Inode)
        requires
            old(self).tree_wf(),
            inode.id == old(self).next_id(),
            old(self).next_id() < u64::MAX,
            entries_of(inode@).len() == 0,
        ensures
            final(self).tree_wf(),
            final(self).frame(old(self)),
            final(self).next_id() == old(self).next_id() + 1,
            final(self).inodes() == old(self).inodes().insert(inode.id, inode@),
            !old(self).inodes().contains_key(inode.id),
    {
        let ghost old_fs = *self;
        let id = inode.id;
        self.next_id = self.next_id + 1;
        self.put_inode(id, inode);
        proof {
            if old_fs.inodes().contains_key(id) {
                assert(old_fs.inodes()[id].id == id);
            }
            self.lemma_wf_insert(&old_fs, id, self.inodes()[id]);
        }
    }

    /// What making the directory `path` did: the result `r` and the file
    /// system `new` it left, from `old`.
    pub open spec fn mkdir_done(old: &Self, new: &Self, path: Seq<char>, uid: Uid, gid: Gid, r: Result<(), ErrorView>) -> bool {
        match old.resolve_parent_spec(path) {
            Err(e) => r is Err && r->Err_0 == e && new.same_as(old),
            Ok((p, name)) => match old.dir_of(p) {
                Err(e) => r is Err && r->Err_0 == e && new.same_as(old),
                Ok(es) => if dir_map(es).contains_key(name) {
                    r is Err && r->Err_0 == ErrorView::AlreadyExists(path) && new.same_as(
                        old,
                    )
                } else {
                    let n = old.next_id();
                    let v = new.inodes()[n];
                    let setgid = old.inodes()[p].mode & 0o2000u16 != 0;
                    &&& r is Ok
                    &&& new.next_id() == n + 1
                    &&& new.inodes().dom() == old.inodes().dom().insert(n)
                    &&& new.keeps_others(old, set![p, n])
                    &&& new.relisted(old, p, dir_map(es).insert(name, n))
                    &&& v.id == n
                    &&& v.kind == KindView::Directory(Seq::empty())
                    &&& v.mode == (if setgid {
                        0o2755u16
                    } else {
                        0o755u16
                    })
                    &&& v.uid == uid
                    &&& v.gid == old.inherited_gid(p, gid)
                    &&& v.nlink == 2
                },
            },
        }
    }

    #[verifier::spinoff_prover]
    /// Creates a directory. A directory made in a setgid directory takes the
    /// parent's group and the setgid bit.
    pub fn mkdir(&mut self, path: &str, uid: Uid, gid: Gid) -> (r: Result<(), VfsError>)
        requires
            old(self).wf(),
            old(self).next_id() < u64::MAX,
        ensures
            final(self).wf(),
            final(self).frame(old(self)),
            VirtualFs::mkdir_done(old(self), final(self), path@, uid, gid, res_view(r)),
    {
        let (parent_id, name) = self.resolve_parent(path)?;
        let entries = self.dir_entries(parent_id)?;
        if dir_lookup(entries, name.as_str()).is_some() {
            return Err(VfsError::AlreadyExists { path: owned(path) });
        }
        let ghost old_fs = *self;
        let effective_gid = self.effective_gid(parent_id, gid);
        let new_id = self.next_id;
        let mut new_dir = Inode::new_dir(new_id, uid, effective_gid);
        let setgid = match self.get_inode(parent_id) {
            Ok(parent) => has_setgid(parent.mode),
            Err(_) => false,
        };
        if setgid {
            new_dir.mode = new_dir.mode | 0o2000u16;
            assert(0o755u16 | 0o2000u16 == 0o2755u16) by (bit_vector);
        }
        self.add_inode(new_dir);
        let ghost mid = *self;
        let res = self.dir_set(parent_id, name, new_id);
        proof {
            assert(mid.dir_of(parent_id) == old_fs.dir_of(parent_id));
            assert(self.inodes().dom() =~= old_fs.inodes().dom().insert(new_id));
            assert forall|k: InodeId|
                old_fs.inodes().contains_key(k) && !set![parent_id, new_id].contains(
                    k,
                ) implies #[trigger] self.inodes().contains_key(k) && self.inodes()[k]
                == old_fs.inodes()[k] by {
                assert(mid.inodes().contains_key(k));
            }
            let v = self.inodes()[new_id];
            assert(v == mid.inodes()[new_id]);
            assert(v.kind == KindView::Directory(Seq::<(String, InodeId)>::empty()));
            assert(v.mode == (if old_fs.inodes()[parent_id].mode & 0o2000u16 != 0 {
                0o2755u16
            } else {
                0o755u16
            }));
            assert(v.gid == old_fs.inherited_gid(parent_id, gid));
        }
        res
    }

    /// Sets the mode of what a path resolves to.
    pub fn chmod(&mut self, path: &str, mode: u16) -> (r: Result<(), VfsError>)
        requires
            old(self).wf(),
        ensures
            final(self).wf(),
            final(self).frame(old(self)),
            final(self).next_id() == old(self).next_id(),
            match old(self).resolve(path@) {
                Err(e) => r is Err && r->Err_0@ == e && final(self).same_as(old(self)),
                Ok(id) => if !old(self).inodes().contains_key(id) {
                    r is Err && r->Err_0@ == ErrorView::NotFound(label(id)) && final(self).same_as(
                        old(self),
                    )
                } else {
                    r is Ok && final(self).inodes() == old(self).inodes().insert(
                        id,
                        InodeView { mode, ..old(self).inodes()[id] },
                    )
                },
            },
    {
        let id = self.resolve_path(path)?;
        if let Err(e) = self.get_inode(id) {
            return Err(e);
        }
        let ghost old_fs = *self;
        let mut ino = self.take_inode(id);
        ino.mode = mode;
        self.put_inode(id, ino);
        proof {
            assert(self.inodes() =~= old_fs.inodes().insert(id, self.inodes()[id]));
            self.lemma_wf_insert(&old_fs, id, self.inodes()[id]);
        }
        Ok(())
    }

    /// Sets the owner and group of what a path resolves to.
    pub fn chown(&mut self, path: &str, uid: Uid, gid: Gid) -> (r: Result<(), VfsError>)
        requires
            old(self).wf(),
        ensures
            final(self).wf(),
            final(self).frame(old(self)),
            final(self).next_id() == old(self).next_id(),
            match old(self).resolve(path@) {
                Err(e) => r is Err && r->Err_0@ == e && final(self).same_as(old(self)),
                Ok(id) => if !old(self).inodes().contains_key(id) {
                    r is Err && r->Err_0@ == ErrorView::NotFound(label(id)) && final(self).same_as(
                        old(self),
                    )
                } else {
                    r is Ok && final(self).inodes() == old(self).inodes().insert(
                        id,
                        InodeView { uid, gid, ..old(self).inodes()[id] },
                    )
                },
            },
    {
        let id = self.resolve_path(path)?;
        if let Err(e) = self.get_inode(id) {
            return Err(e);
        }
        let ghost old_fs = *self;
        let mut ino = self.take_inode(id);
        ino.uid = uid;
        ino.gid = gid;
        self.put_inode(id, ino);
        proof {
            assert(self.inodes() =~= old_fs.inodes().insert(id, self.inodes()[id]));
            self.lemma_wf_insert(&old_fs, id, self.inodes()[id]);
        }
        Ok(())
    }
    /// The working directory as a path.
    pub fn pwd(&self) -> (r: String)
        ensures
            r@ == pwd_of(self.cwd_path()),
    {
        if self.cwd_path.len() == 0 {
            return owned("/");
        }
        let mut path = owned("/");
        push_str(&mut path, self.cwd_path[0].0.as_str());
        let mut i: usize = 1;
        proof {
            assert(self.cwd_path().take(1).len() == 1);
        }
        while i < self.cwd_path.len()
            invariant
                1 <= i <= self.cwd_path@.len(),
                path@ == pwd_of(self.cwd_path().take(i as int)),
            decreases self.cwd_path.len() - i,
        {
            push_str(&mut path, "/");
            push_str(&mut path, self.cwd_path[i].0.as_str());
            proof {
                assert(self.cwd_path().take(i + 1).drop_last() =~= self.cwd_path().take(i as int));
            }
            i += 1;
        }
        proof {
            assert(self.cwd_path().take(i as int) =~= self.cwd_path());
        }
        path
    }

    /// The inodes by id.
    pub fn all_inodes(&self) -> (r: &HashMap<InodeId, Inode>)
        ensures
            r@.map_values(|i: Inode| i@) == self.inodes(),
    {
        &self.inodes
    }

    /// The id of the root directory.
    pub fn root_id(&self) -> (r: InodeId)
        ensures
            r == self.root(),
    {
        self.root
    }

    /// The id of the working directory.
    pub fn cwd_id(&self) -> (r: InodeId)
        ensures
            r == self.cwd(),
    {
        self.cwd
    }

    /// The id the next new inode gets.
    pub fn next_inode_id(&self) -> (r: InodeId)
        ensures
            r == self.next_id(),
    {
        self.next_id
    }

    /// A copy of the working-directory path.
    pub fn cwd_path_clone(&self) -> (r: Vec<(String, InodeId)>)
        ensures
            r@.map_values(|e: (String, InodeId)| (e.0@, e.1)) == self.cwd_path(),
    {
        let r = copy_entries(&self.cwd_path);
        proof {
            assert(r@.map_values(|e: (String, InodeId)| (e.0@, e.1)) =~= self.cwd_path());
        }
        r
    }

    /// A file system made of saved parts, when they form a well-formed
    /// tree: the root a directory, every inode stored under its own id
    /// below the next id, every directory's entries in ascending order of
    /// name and naming ids below the next id, and the working directory and
    /// its path below the next id.
    pub fn from_persisted(
        inodes: HashMap<InodeId, Inode>,
        root: InodeId,
        cwd: InodeId,
        next_id: InodeId,
        cwd_path: Vec<(String, InodeId)>,
        registry: UserRegistry,
    ) -> (r: Option<Self>)
        requires
            registry.inv(),
        ensures
            r is Some <==> persisted_valid(
                inodes@.map_values(|i: Inode| i@),
                root,
                cwd,
                next_id,
                cwd_path@.map_values(|e: (String, InodeId)| (e.0@, e.1)),
            ),
            r matches Some(fs) ==> fs.wf() && fs.inodes() == inodes@.map_values(|i: Inode| i@) && fs.root() == root
                && fs.cwd() == cwd && fs.next_id() == next_id && fs.cwd_path() == cwd_path@.map_values(
                |e: (String, InodeId)| (e.0@, e.1),
            ) && fs.reg() == registry,
    {
        let ghost iv = inodes@.map_values(|i: Inode| i@);
        let ghost cv = cwd_path@.map_values(|e: (String, InodeId)| (e.0@, e.1));
        let fs = VirtualFs { inodes, root, cwd, next_id, cwd_path, registry };
        if root >= next_id || cwd >= next_id {
            return None;
        }
        proof {
            assert(fs.inodes() == iv);
            assert(fs.cwd_path() == cv);
        }
        match fs.inodes.get(&root) {
            Some(ino) => match &ino.kind {
                InodeKind::Directory { .. } => {},
                _ => {
                    proof {
                        assert(fs.inodes()[root] == ino@);
                    }
                    return None;
                },
            },
            None => {
                return None;
            },
        }
        let mut j: usize = 0;
        while j < fs.cwd_path.len()
            invariant
                j <= fs.cwd_path@.len(),
                forall|a: int| 0 <= a < j ==> #[trigger] fs.cwd_path()[a].1 < fs.next_id(),
                fs.inodes() == iv,
                fs.cwd_path() == cv,
                fs.next_id() == next_id,
                iv == inodes@.map_values(|i: Inode| i@),
                cv == cwd_path@.map_values(|e: (String, InodeId)| (e.0@, e.1)),
                fs.root() == root,
                fs.cwd() == cwd,
                root < next_id && cwd < next_id,
                iv.contains_key(root) && iv[root].kind is Directory,
            decreases fs.cwd_path.len() - j,
        {
            proof {
                assert(fs.cwd_path()[j as int].1 == fs.cwd_path@[j as int].1);
            }
            if fs.cwd_path[j].1 >= fs.next_id {
                return None;
            }
            j += 1;
        }
        let ids = fs.inode_ids();
        let mut i: usize = 0;
        while i < ids.len()
            invariant
                i <= ids@.len(),
                fs.inodes() == iv,
                fs.next_id() == next_id,
                iv == inodes@.map_values(|i: Inode| i@),
                cv == cwd_path@.map_values(|e: (String, InodeId)| (e.0@, e.1)),
                fs.cwd_path() == cv,
                fs.root() == root,
                fs.cwd() == cwd,
                root < next_id && cwd < next_id,
                iv.contains_key(root) && iv[root].kind is Directory,
                forall|j: int| 0 <= j < cv.len() ==> #[trigger] cv[j].1 < next_id,
                forall|a: int| 0 <= a < ids@.len() ==> fs.inodes@.dom().contains(#[trigger] ids@[a]),
                forall|k: InodeId| fs.inodes@.dom().contains(k) ==> ids@.contains(k),
                forall|a: int| 0 <= a < i ==> {
                    let k = #[trigger] ids@[a];
                    &&& fs.inodes()[k].id == k
                    &&& k < fs.next_id()
                    &&& names_sorted(entries_of(fs.inodes()[k]))
                    &&& forall|e: int| 0 <= e < entries_of(fs.inodes()[k]).len() ==> #[trigger] entries_of(
                        fs.inodes()[k],
                    )[e].1 < fs.next_id()
                },
            decreases ids.len() - i,
        {
            let k = ids[i];
            let ino = fs.inodes.get(&k).unwrap();
            proof {
                assert(fs.inodes()[k] == ino@);
            }
            proof {
                assert(fs.inodes().contains_key(k));
            }
            if ino.id != k || k >= fs.next_id {
                return None;
            }
            match &ino.kind {
                InodeKind::Directory { entries } => {
                    proof {
                        assert(entries_of(fs.inodes()[k]) == entries@);
                    }
                    if !check_sorted(entries) {
                        return None;
                    }
                    let mut e: usize = 0;
                    while e < entries.len()
                        invariant
                            e <= entries@.len(),
                            forall|x: int| 0 <= x < e ==> #[trigger] entries@[x].1 < fs.next_id(),
                            fs.inodes() == iv,
                            fs.next_id() == next_id,
                            iv == inodes@.map_values(|i: Inode| i@),
                            iv.contains_key(k),
                            entries_of(iv[k]) == entries@,
                        decreases entries.len() - e,
                    {
                        if entries[e].1 >= fs.next_id {
                            return None;
                        }
                        e += 1;
                    }
                },
                _ => {},
            }
            i += 1;
        }
        proof {
            assert forall|k: InodeId| #[trigger] fs.inodes().contains_key(k) implies {
                &&& fs.inodes()[k].id == k
                &&& k < fs.next_id()
                &&& names_sorted(entries_of(fs.inodes()[k]))
                &&& forall|e: int| 0 <= e < entries_of(fs.inodes()[k]).len() ==> #[trigger] entries_of(
                    fs.inodes()[k],
                )[e].1 < fs.next_id()
            } by {
                assert(fs.inodes@.dom().contains(k));
                assert(ids@.contains(k));
                let a = choose|a: int| 0 <= a < ids@.len() && ids@[a] == k;
                assert(ids@[a] == k);
            }
        }
        Some(fs)
    }

    /// What a path resolves to, described.
    pub fn stat(&self, path: &str) -> (r: Result<StatInfo, VfsError>)
        requires
            self.wf(),
        ensures
            match self.resolve(path@) {
                Err(e) => r is Err && r->Err_0@ == e,
                Ok(id) => if !self.inodes().contains_key(id) {
                    r is Err && r->Err_0@ == ErrorView::NotFound(label(id))
                } else {
                    r is Ok && shows_inode(r->Ok_0, id, self.inodes()[id])
                },
            },
    {
        let id = self.resolve_path(path)?;
        let inode = self.get_inode(id)?;
        let kind: &'static str = match &inode.kind {
            InodeKind::File { .. } => "file",
            InodeKind::Directory { .. } => "directory",
            InodeKind::Symlink { .. } => "symlink",
        };
        Ok(
            StatInfo {
                inode_id: id,
                kind,
                size: inode.size(),
                blocks: inode.blocks(),
                block_size: inode.block_size,
                nlink: inode.nlink,
                mode: inode.mode,
                uid: inode.uid,
                gid: inode.gid,
                created: inode.created,
                created_nanos: inode.created_at.nanos,
                accessed: inode.accessed_at.secs,
                accessed_nanos: inode.accessed_at.nanos,
                modified: inode.modified,
                modified_nanos: inode.modified_at.nanos,
                changed: inode.changed_at.secs,
                changed_nanos: inode.changed_at.nanos,
            },
        )
    }

    /// Takes an inode other than the root out of the map.
    fn drop_inode(&mut self, id: InodeId)
        requires
            old(self).tree_wf(),
            id != old(self).root(),
        ensures
            final(self).tree_wf(),
            final(self).frame(old(self)),
            final(self).next_id() == old(self).next_id(),
            final(self).inodes() == old(self).inodes().remove(id),
    {
        let ghost old_fs = *self;
        let _ = self.inodes.remove(&id);
        proof {
            assert(self.inodes() =~= old_fs.inodes().remove(id));
            assert(old_fs.inodes().remove(id) =~= old_fs.inodes().remove_keys(set![id]));
            self.lemma_wf_remove(&old_fs, set![id]);
        }
    }

    /// Creates a symbolic link at `link_path` to `target`.
    #[verifier::spinoff_prover]
    #[verifier::rlimit(30)]
    pub fn ln_s(&mut self, target: &str, link_path: &str, uid: Uid, gid: Gid) -> (r: Result<(), VfsError>)
        requires
            old(self).wf(),
            old(self).next_id() < u64::MAX,
        ensures
            final(self).wf(),
            VirtualFs::ln_s_done(old(self), final(self), target@, link_path@, uid, gid, res_view(r)),
    {
        let (parent_id, name) = self.resolve_parent(link_path)?;
        let entries = self.dir_entries(parent_id)?;
        if dir_lookup(entries, name.as_str()).is_some() {
            return Err(VfsError::AlreadyExists { path: owned(link_path) });
        }
        let ghost old_fs = *self;
        let effective_gid = self.effective_gid(parent_id, gid);
        let new_id = self.next_id;
        let symlink = Inode::new_symlink(new_id, owned(target), uid, effective_gid);
        self.add_inode(symlink);
        let ghost mid = *self;
        let res = self.dir_set(parent_id, name, new_id);
        proof {
            assert(mid.dir_of(parent_id) == old_fs.dir_of(parent_id));
            assert(self.inodes().dom() =~= old_fs.inodes().dom().insert(new_id));
            assert forall|k: InodeId|
                old_fs.inodes().contains_key(k) && !set![parent_id, new_id].contains(
                    k,
                ) implies #[trigger] self.inodes().contains_key(k) && self.inodes()[k]
                == old_fs.inodes()[k] by {
                assert(mid.inodes().contains_key(k));
            }
            assert(parent_id != new_id);
            assert(!set![parent_id].contains(new_id));
            assert(mid.inodes().contains_key(new_id));
            assert(self.inodes().contains_key(new_id));
            assert(self.inodes()[new_id] == mid.inodes()[new_id]);
        }
        res
    }

    /// Creates an empty Markdown file, or records a modification of an
    /// existing one.
    #[verifier::spinoff_prover]
    pub fn touch(&mut self, path: &str, uid: Uid, gid: Gid) -> (r: Result<(), VfsError>)
        requires
            old(self).wf(),
            old(self).next_id() < u64::MAX,
        ensures
            final(self).wf(),
            VirtualFs::touch_done(old(self), final(self), path@, uid, gid, res_view(r)),
    {
        validate_markdown_filename(path)?;
        if let Ok(id) = self.resolve_path(path) {
            if let Err(e) = self.get_inode(id) {
                return Err(e);
            }
            let ghost old_fs = *self;
            let mut ino = self.take_inode(id);
            ino.modified = now_secs();
            self.put_inode(id, ino);
            proof {
                assert(self.inodes() =~= old_fs.inodes().insert(id, self.inodes()[id]));
                self.lemma_wf_insert(&old_fs, id, self.inodes()[id]);
                assert(self.inodes().dom() =~= old_fs.inodes().dom());
            }
            return Ok(());
        }
        let (parent_id, name) = self.resolve_parent(path)?;
        let ghost old_fs = *self;
        proof {
            old_fs.lemma_parent_dir_below(path@);
        }
        let effective_gid = self.effective_gid(parent_id, gid);
        let new_id = self.next_id;
        let new_file = Inode::new_file(new_id, uid, effective_gid);
        self.add_inode(new_file);
        let ghost mid = *self;
        let res = self.dir_set(parent_id, name, new_id);
        proof {
            assert(self.inodes()[new_id] == mid.inodes()[new_id]) by {
                if res is Ok {
                    assert(old_fs.dir_of(parent_id) is Ok);
                }
            }
            assert(self.inodes().dom() =~= old_fs.inodes().dom().insert(new_id));
            if res is Ok {
                assert(mid.dir_of(parent_id) == old_fs.dir_of(parent_id));
                assert forall|k: InodeId|
                    old_fs.inodes().contains_key(k) && !set![parent_id, new_id].contains(
                        k,
                    ) implies #[trigger] self.inodes().contains_key(k) && self.inodes()[k]
                    == old_fs.inodes()[k] by {
                    assert(mid.inodes().contains_key(k));
                }
            } else {
                assert(mid.dir_of(parent_id) == old_fs.dir_of(parent_id));
                assert forall|k: InodeId|
                    old_fs.inodes().contains_key(k) && !set![new_id].contains(
                        k,
                    ) implies #[trigger] self.inodes().contains_key(k) && self.inodes()[k]
                    == old_fs.inodes()[k] by {
                    assert(mid.inodes().contains_key(k));
                }
            }
        }
        res
    }

    /// What making a link at `link_path` to `target` as `uid` and `gid` did:
    /// the result `r` and the file system `new` it left, from `old`.
    pub open spec fn ln_s_done(old: &Self, new: &Self, target: Seq<char>, link_path: Seq<char>, uid: Uid, gid: Gid, r: Result<(), ErrorView>) -> bool {
        &&& new.frame(old)
        &&& match old.resolve_parent_spec(link_path) {
            Err(e) => r is Err && r->Err_0 == e && new.same_as(old),
            Ok((p, name)) => match old.dir_of(p) {
                Err(e) => r is Err && r->Err_0 == e && new.same_as(old),
                Ok(es) => if dir_map(es).contains_key(name) {
                    r is Err && r->Err_0 == ErrorView::AlreadyExists(link_path) && new.same_as(old)
                } else {
                    let n = old.next_id();
                    &&& r is Ok
                    &&& new.next_id() == n + 1
                    &&& new.inodes().dom() == old.inodes().dom().insert(n)
                    &&& new.keeps_others(old, set![p, n])
                    &&& new.relisted(old, p, dir_map(es).insert(name, n))
                    &&& fresh_inode(
                        new.inodes()[n],
                        n,
                        KindView::Symlink(target),
                        0o777,
                        uid,
                        old.inherited_gid(p, gid),
                        1,
                    )
                },
            },
        }
    }

    /// What touching `path` as `uid` and `gid` did: the result `r` and the file
    /// system `new` it left, from `old`.
    pub open spec fn touch_done(old: &Self, new: &Self, path: Seq<char>, uid: Uid, gid: Gid, r: Result<(), ErrorView>) -> bool {
        &&& new.frame(old)
        &&& !is_markdown(path) ==> r is Err && r->Err_0 == ErrorView::InvalidExtension(
            last_segment(path),
        ) && new.same_as(old)
        &&& is_markdown(path) ==> match old.resolve(path) {
            Ok(id) => if !old.inodes().contains_key(id) {
                r is Err && r->Err_0 == ErrorView::NotFound(label(id)) && new.same_as(
                    old,
                )
            } else {
                &&& r is Ok
                &&& new.next_id() == old.next_id()
                &&& new.inodes().dom() == old.inodes().dom()
                &&& new.keeps_others(old, set![id])
                &&& new.inodes()[id] == InodeView {
                    modified: new.inodes()[id].modified,
                    ..old.inodes()[id]
                }
            },
            Err(_) => match old.resolve_parent_spec(path) {
                Err(e) => r is Err && r->Err_0 == e && new.same_as(old),
                Ok((p, name)) => {
                    let n = old.next_id();
                    &&& new.next_id() == n + 1
                    &&& fresh_inode(
                        new.inodes()[n],
                        n,
                        KindView::File(Seq::empty()),
                        0o644,
                        uid,
                        old.inherited_gid(p, gid),
                        1,
                    )
                    &&& new.inodes().dom() == old.inodes().dom().insert(n)
                    &&& match old.dir_of(p) {
                        Err(e) => r is Err && r->Err_0 == e && new.keeps_others(
                            old,
                            set![n],
                        ),
                        Ok(es) => r is Ok && new.keeps_others(old, set![p, n])
                            && new.relisted(old, p, dir_map(es).insert(name, n)),
                    }
                },
            },
        }
    }

    /// What removing the file or link `path` did: the result `r` and the file
    /// system `new` it left, from `old`.
    pub open spec fn rm_done(old: &Self, new: &Self, path: Seq<char>, r: Result<(), ErrorView>) -> bool {
        &&& new.frame(old)
        &&& new.next_id() == old.next_id()
        &&& match old.resolve(path) {
            Err(e) => r is Err && r->Err_0 == e && new.same_as(old),
            Ok(id) => if !old.inodes().contains_key(id) {
                r is Err && r->Err_0 == ErrorView::NotFound(label(id)) && new.same_as(
                    old,
                )
            } else if old.inodes()[id].kind is Directory {
                r is Err && r->Err_0 == ErrorView::IsDirectory(path) && new.same_as(
                    old,
                )
            } else {
                match old.resolve_parent_spec(path) {
                    Err(e) => r is Err && r->Err_0 == e && new.same_as(old),
                    Ok((p, name)) => match old.dir_of(p) {
                        Err(e) => r is Err && r->Err_0 == e && new.same_as(old),
                        Ok(es) => {
                            &&& r is Ok
                            &&& new.inodes().dom() == old.inodes().dom().remove(id)
                            &&& new.keeps_others(old, set![p, id])
                            &&& new.relisted(old, p, dir_map(es).remove(name))
                        },
                    },
                }
            },
        }
    }

    /// What removing the empty directory `path` did: the result `r` and the
    /// file system `new` it left, from `old`.
    pub open spec fn rmdir_done(old: &Self, new: &Self, path: Seq<char>, r: Result<(), ErrorView>) -> bool {
        &&& new.frame(old)
        &&& new.next_id() == old.next_id()
        &&& match old.resolve(path) {
            Err(e) => r is Err && r->Err_0 == e && new.same_as(old),
            Ok(id) => if !old.inodes().contains_key(id) {
                r is Err && r->Err_0 == ErrorView::NotFound(label(id)) && new.same_as(
                    old,
                )
            } else if !(old.inodes()[id].kind is Directory) {
                r is Err && r->Err_0 == ErrorView::NotDirectory(path) && new.same_as(
                    old,
                )
            } else if entries_of(old.inodes()[id]).len() > 0 {
                r is Err && r->Err_0 == ErrorView::NotEmpty(path) && new.same_as(
                    old,
                )
            } else if id == old.root() {
                r is Err && r->Err_0 == ErrorView::InvalidPath("cannot remove root"@) && new.same_as(old)
            } else {
                match old.resolve_parent_spec(path) {
                    Err(e) => r is Err && r->Err_0 == e && new.same_as(old),
                    Ok((p, name)) => match old.dir_of(p) {
                        Err(e) => r is Err && r->Err_0 == e && new.same_as(old),
                        Ok(es) => {
                            &&& r is Ok
                            &&& new.inodes().dom() == old.inodes().dom().remove(id)
                            &&& new.keeps_others(old, set![p, id])
                            &&& p != id ==> new.relisted(
                                old,
                                p,
                                dir_map(es).remove(name),
                            )
                        },
                    },
                }
            },
        }
    }

    /// What removing `path` and everything under it did: the result `r` and
    /// the file system `new` it left, from `old`.
    pub open spec fn rm_rf_done(old: &Self, new: &Self, path: Seq<char>, r: Result<(), ErrorView>) -> bool {
        &&& new.frame(old)
        &&& new.next_id() == old.next_id()
        &&& match old.resolve(path) {
            Err(e) => r is Err && r->Err_0 == e && new.same_as(old),
            Ok(id) => if id == old.root() {
                r is Err && r->Err_0 == ErrorView::InvalidPath("cannot remove root"@)
                    && new.same_as(old)
            } else {
                let ks = old.subtree(id, old.inodes().dom().len()).remove(
                    old.root(),
                );
                match old.resolve_parent_spec(path) {
                    Err(e) => r is Err && r->Err_0 == e && new.same_as(old),
                    Ok((p, name)) => match old.dir_of(p) {
                        Err(e) => r is Err && r->Err_0 == e && new.same_as(old),
                        Ok(es) => {
                            &&& r is Ok
                            &&& new.inodes().dom() == old.inodes().dom().difference(ks)
                            &&& new.keeps_others(old, ks.insert(p))
                            &&& !ks.contains(p) ==> new.relisted(
                                old,
                                p,
                                dir_map(es).remove(name),
                            )
                        },
                    },
                }
            },
        }
    }

    /// What moving `src` to `dst` did: the result `r` and the file system
    /// `new` it left, from `old`.
    pub open spec fn mv_done(old: &Self, new: &Self, src: Seq<char>, dst: Seq<char>, r: Result<(), ErrorView>) -> bool {
        &&& new.frame(old)
        &&& new.next_id() == old.next_id()
        &&& new.inodes().dom() == old.inodes().dom()
        &&& match old.resolve(src) {
            Err(e) => r is Err && r->Err_0 == e && new.same_as(old),
            Ok(sid) => if !old.inodes().contains_key(sid) {
                r is Err && r->Err_0 == ErrorView::NotFound(label(sid)) && new.same_as(
                    old,
                )
            } else if old.inodes()[sid].kind is File && !is_markdown(dst) {
                r is Err && r->Err_0 == ErrorView::InvalidExtension(last_segment(dst))
                    && new.same_as(old)
            } else {
                match old.resolve_parent_spec(src) {
                    Err(e) => r is Err && r->Err_0 == e && new.same_as(old),
                    Ok((sp, sname)) => match old.destination(dst, sname) {
                        Err(e) => r is Err && r->Err_0 == e && new.same_as(old),
                        Ok((tp, tname)) => match old.dir_of(sp) {
                            Err(e) => r is Err && r->Err_0 == e && new.same_as(old),
                            Ok(ses) => if tp == sp {
                                &&& r is Ok
                                &&& new.keeps_others(old, set![sp])
                                &&& new.relisted(
                                    old,
                                    sp,
                                    dir_map(ses).remove(sname).insert(tname, sid),
                                )
                            } else {
                                &&& new.relisted(old, sp, dir_map(ses).remove(sname))
                                &&& match old.dir_of(tp) {
                                    Err(e) => r is Err && r->Err_0 == e && new.keeps_others(
                                        old,
                                        set![sp],
                                    ),
                                    Ok(tes) => r is Ok && new.keeps_others(
                                        old,
                                        set![sp, tp],
                                    ) && new.relisted(
                                        old,
                                        tp,
                                        dir_map(tes).insert(tname, sid),
                                    ),
                                }
                            },
                        },
                    },
                }
            },
        }
    }

    /// What copying `src` to `dst` as `uid` and `gid` did: the result `r` and
    /// the file system `new` it left, from `old`.
    pub open spec fn cp_done(old: &Self, new: &Self, src: Seq<char>, dst: Seq<char>, uid: Uid, gid: Gid, r: Result<(), ErrorView>) -> bool {
        &&& new.frame(old)
        &&& match old.resolve(src) {
            Err(e) => r is Err && r->Err_0 == e && new.same_as(old),
            Ok(sid) => if !old.inodes().contains_key(sid) {
                r is Err && r->Err_0 == ErrorView::NotFound(label(sid)) && new.same_as(
                    old,
                )
            } else if old.inodes()[sid].kind is Directory {
                r is Err && r->Err_0 == ErrorView::IsDirectory(src) && new.same_as(
                    old,
                )
            } else if old.inodes()[sid].kind is File && !is_markdown(dst) {
                r is Err && r->Err_0 == ErrorView::InvalidExtension(last_segment(dst))
                    && new.same_as(old)
            } else {
                match old.destination(dst, last_segment(src)) {
                    Err(e) => r is Err && r->Err_0 == e && new.same_as(old),
                    Ok((p, name)) => {
                        let n = old.next_id();
                        &&& new.next_id() == n + 1
                        &&& new.inodes().dom() == old.inodes().dom().insert(n)
                        &&& new.inodes()[n] == InodeView {
                            id: n,
                            uid: uid,
                            gid: old.inherited_gid(p, gid),
                            ..old.inodes()[sid]
                        }
                        &&& match old.dir_of(p) {
                            Err(e) => r is Err && r->Err_0 == e && new.keeps_others(
                                old,
                                set![n],
                            ),
                            Ok(es) => r is Ok && new.keeps_others(old, set![p, n])
                                && new.relisted(old, p, dir_map(es).insert(name, n)),
                        }
                    },
                }
            },
        }
    }

    /// Removes a file or link (not a directory).
    pub fn rm(&mut self, path: &str) -> (r: Result<(), VfsError>)
        requires
            old(self).wf(),
        ensures
            final(self).wf(),
            VirtualFs::rm_done(old(self), final(self), path@, res_view(r)),
    {
        let id = self.resolve_path(path)?;
        let inode = self.get_inode(id)?;
        if inode.is_dir() {
            return Err(VfsError::IsDirectory { path: owned(path) });
        }
        let (parent_id, name) = self.resolve_parent(path)?;
        let ghost old_fs = *self;
        self.dir_unset(parent_id, name.as_str())?;
        let ghost mid = *self;
        proof {
            assert(parent_id != id);
            assert(id != old_fs.root());
        }
        self.drop_inode(id);
        proof {
            assert(self.inodes().dom() =~= old_fs.inodes().dom().remove(id));
            assert forall|k: InodeId|
                old_fs.inodes().contains_key(k) && !set![parent_id, id].contains(
                    k,
                ) implies #[trigger] self.inodes().contains_key(k) && self.inodes()[k]
                == old_fs.inodes()[k] by {
                assert(mid.inodes().contains_key(k));
            }
        }
        Ok(())
    }

    /// Removes an empty directory (never the root).
    pub fn rmdir(&mut self, path: &str) -> (r: Result<(), VfsError>)
        requires
            old(self).wf(),
        ensures
            final(self).wf(),
            VirtualFs::rmdir_done(old(self), final(self), path@, res_view(r)),
    {
        let id = self.resolve_path(path)?;
        let inode = self.get_inode(id)?;
        match &inode.kind {
            InodeKind::Directory { entries } => {
                if entries.len() > 0 {
                    return Err(VfsError::NotEmpty { path: owned(path) });
                }
            },
            _ => {
                return Err(VfsError::NotDirectory { path: owned(path) });
            },
        }
        if id == self.root {
            return Err(VfsError::InvalidPath { path: owned("cannot remove root") });
        }
        let (parent_id, name) = self.resolve_parent(path)?;
        let ghost old_fs = *self;
        self.dir_unset(parent_id, name.as_str())?;
        let ghost mid = *self;
        self.drop_inode(id);
        proof {
            assert(self.inodes().dom() =~= old_fs.inodes().dom().remove(id));
            assert forall|k: InodeId|
                old_fs.inodes().contains_key(k) && !set![parent_id, id].contains(
                    k,
                ) implies #[trigger] self.inodes().contains_key(k) && self.inodes()[k]
                == old_fs.inodes()[k] by {
                assert(mid.inodes().contains_key(k));
            }
        }
        Ok(())
    }
}


impl VirtualFs {
    /// Two file systems with the same tree: the same root, working
    /// directory and ids, and each inode of the same kind of directory-ness
    /// with the same entries. Contents of files and links may differ.
    pub open spec fn same_shape(&self, other: &Self) -> bool {
        &&& self.root() == other.root()
        &&& self.cwd() == other.cwd()
        &&& self.cwd_path() == other.cwd_path()
        &&& self.inodes().dom() == other.inodes().dom()
        &&& forall|k: InodeId| #[trigger]
            self.inodes().contains_key(k) ==> (self.inodes()[k].kind is Directory)
                == (other.inodes()[k].kind is Directory) && entries_of(self.inodes()[k])
                == entries_of(other.inodes()[k])
    }

    /// The least directory listing `id` is the same in two file systems of
    /// the same shape.
    proof fn lemma_same_parent(&self, other: &Self, id: InodeId)
        requires
            self.same_shape(other),
        ensures
            self.parent(id) == other.parent(id),
    {
        assert forall|d: InodeId| self.holds_child(d, id) == other.holds_child(d, id) by {
            if self.inodes().contains_key(d) {
                assert(other.inodes().contains_key(d));
            }
            if other.inodes().contains_key(d) {
                assert(self.inodes().contains_key(d));
            }
        }
        if id != self.root() && cwd_parent(self.cwd_path(), id) is None {
            if exists|d: InodeId| self.holds_child(d, id) {
                let d0 = choose|d: InodeId| self.holds_child(d, id);
                self.lemma_least_holder(d0, id);
                other.lemma_least_holder(d0, id);
                let m1 = choose|d: InodeId|
                    self.holds_child(d, id) && forall|e: InodeId| self.holds_child(e, id) ==> d <= e;
                let m2 = choose|d: InodeId|
                    other.holds_child(d, id) && forall|e: InodeId| other.holds_child(e, id) ==> d
                        <= e;
                assert(m1 <= m2 && m2 <= m1);
            }
        }
    }

    /// Resolution sees only the shape of the tree.
    proof fn lemma_same_walk(
        &self,
        other: &Self,
        cur: InodeId,
        comps: Seq<Seq<char>>,
        path: Seq<char>,
    )
        requires
            self.same_shape(other),
        ensures
            self.walk(cur, comps, path) == other.walk(cur, comps, path),
        decreases comps.len(),
    {
        if comps.len() > 0 {
            self.lemma_same_parent(other, cur);
            if self.inodes().contains_key(cur) {
                assert(other.inodes().contains_key(cur));
            }
            if other.inodes().contains_key(cur) {
                assert(self.inodes().contains_key(cur));
            }
            assert(self.dir_of(cur) == other.dir_of(cur));
            assert(self.step(cur, comps[0], path) == other.step(cur, comps[0], path));
            if self.step(cur, comps[0], path) is Ok {
                self.lemma_same_walk(other, self.step(cur, comps[0], path)->Ok_0, comps.drop_first(), path);
            }
        }
    }

    /// A checked walk that succeeds ends where the plain walk does.
    pub proof fn lemma_checked_walk(&self, cur: InodeId, comps: Seq<Seq<char>>, path: Seq<char>, session: Session)
        requires
            self.walk_checked(cur, comps, path, session) is Ok,
        ensures
            self.walk(cur, comps, path) == self.walk_checked(cur, comps, path, session),
        decreases comps.len(),
    {
        if comps.len() > 0 {
            if comps[0] == "."@ {
                self.lemma_checked_walk(cur, comps.drop_first(), path, session);
            } else if comps[0] == ".."@ {
                self.lemma_checked_walk(self.parent(cur), comps.drop_first(), path, session);
            } else {
                let es = self.dir_of(cur)->Ok_0;
                self.lemma_checked_walk(dir_map(es)[comps[0]], comps.drop_first(), path, session);
            }
        }
    }

    /// A checked resolution that succeeds finds what the plain one finds.
    pub proof fn lemma_resolve_checked_plain(&self, path: Seq<char>, session: Session)
        requires
            self.resolve_checked(path, session) is Ok,
        ensures
            self.resolve(path) == self.resolve_checked(path, session),
    {
        self.lemma_checked_walk(self.start(path), components(path), path, session);
    }

    /// Changing inodes without changing their kinds keeps the shape.
    pub proof fn lemma_kinds_kept(&self, old: &Self)
        requires
            self.frame(old),
            self.inodes().dom() == old.inodes().dom(),
            forall|k: InodeId| #[trigger] old.inodes().contains_key(k) ==> self.inodes()[k].kind == old.inodes()[k].kind,
        ensures
            self.same_shape(old),
    {
    }

    /// Setting the metadata of one inode keeps the shape.
    pub proof fn lemma_meta_kept(&self, old: &Self, id: InodeId, v: InodeView)
        requires
            self.frame(old),
            old.inodes().contains_key(id),
            self.inodes() == old.inodes().insert(id, v),
            v.kind == old.inodes()[id].kind,
        ensures
            self.same_shape(old),
    {
        assert(self.inodes().dom() =~= old.inodes().dom());
        assert forall|k: InodeId| #[trigger] old.inodes().contains_key(k) implies self.inodes()[k].kind
            == old.inodes()[k].kind by {
            if k == id {
            }
        }
        self.lemma_kinds_kept(old);
    }

    /// Paths resolve alike in two file systems of the same shape.
    pub proof fn lemma_same_resolve(&self, other: &Self, path: Seq<char>)
        requires
            self.same_shape(other),
        ensures
            self.resolve(path) == other.resolve(path),
    {
        self.lemma_same_walk(other, self.start(path), components(path), path);
    }

    /// What reading `path` gives, following at most `fuel` symbolic links.
    pub open spec fn read_at(&self, path: Seq<char>, fuel: nat) -> Result<Seq<u8>, ErrorView>
        decreases fuel,
    {
        match self.resolve(path) {
            Err(e) => Err(e),
            Ok(id) => if !self.inodes().contains_key(id) {
                Err(ErrorView::NotFound(label(id)))
            } else {
                match self.inodes()[id].kind {
                    KindView::File(c) => Ok(c),
                    KindView::Directory(_) => Err(ErrorView::IsDirectory(path)),
                    KindView::Symlink(t) => if fuel == 0 {
                        Err(ErrorView::SymlinkLoop(path))
                    } else {
                        self.read_at(t, (fuel - 1) as nat)
                    },
                }
            },
        }
    }

    /// What reading `path` gives. A chain of links longer than the number of
    /// inodes visits some link twice and would never end: it is refused as a
    /// loop.
    pub open spec fn read(&self, path: Seq<char>) -> Result<Seq<u8>, ErrorView> {
        self.read_at(path, self.inodes().dom().len())
    }

    /// The file inode that writing to `path` changes, following at most
    /// `fuel` symbolic links; every path on the way must name a Markdown file.
    pub open spec fn write_target_at(&self, path: Seq<char>, fuel: nat) -> Result<InodeId, ErrorView>
        decreases fuel,
    {
        if !is_markdown(path) {
            Err(ErrorView::InvalidExtension(last_segment(path)))
        } else {
            match self.resolve(path) {
                Err(e) => Err(e),
                Ok(id) => if !self.inodes().contains_key(id) {
                    Err(ErrorView::NotFound(label(id)))
                } else {
                    match self.inodes()[id].kind {
                        KindView::File(_) => Ok(id),
                        KindView::Directory(_) => Err(ErrorView::IsDirectory(path)),
                        KindView::Symlink(t) => if fuel == 0 {
                            Err(ErrorView::SymlinkLoop(path))
                        } else {
                            self.write_target_at(t, (fuel - 1) as nat)
                        },
                    }
                },
            }
        }
    }

    /// The file inode that writing to `path` changes.
    pub open spec fn write_target(&self, path: Seq<char>) -> Result<InodeId, ErrorView> {
        self.write_target_at(path, self.inodes().dom().len())
    }

    /// After touching a path that did not resolve, with no ".." on the way,
    /// writing to it writes the new empty file.
    #[verifier::spinoff_prover]
    pub proof fn lemma_touched_target(old: &Self, new: &Self, path: Seq<char>, uid: Uid, gid: Gid)
        requires
            old.wf(),
            VirtualFs::touch_done(old, new, path, uid, gid, Ok(())),
            old.resolve(path) is Err,
            no_up(components(path)),
        ensures
            new.write_target(path) == Ok::<InodeId, ErrorView>(old.next_id()),
            new.inodes().contains_key(old.next_id()),
            new.inodes()[old.next_id()].kind == KindView::File(Seq::empty()),
    {
        reveal_strlit(".");
        reveal_strlit("..");
        assert("."@ =~= seq!['.']);
        assert(".."@ =~= seq!['.', '.']);
        let cs = components(path);
        let (d, name) = old.resolve_parent_spec(path)->Ok_0;
        let n = old.next_id();
        let pre = cs.drop_last();
        assert(pre.push(name) =~= cs);
        lemma_walk_push(old, old.start(path), pre, name, path);
        assert(old.walk(old.start(path), pre, path) == Ok::<InodeId, ErrorView>(d));
        let es = old.dir_of(d)->Ok_0;
        assert(name != ".."@) by {
            assert(cs[cs.len() - 1] != seq!['.', '.']);
        }
        assert(name != "."@);
        assert(!dir_map(es).contains_key(name));
        assert(!old.inodes().contains_key(n)) by {
            if old.inodes().contains_key(n) {
                old.lemma_id_below(n);
            }
        }
        assert(new.keeps_others(old, set![d, n]));
        assert(new.relisted(old, d, dir_map(es).insert(name, n)));
        assert(grows(*new, *old, d)) by {
            assert forall|k: InodeId|
                old.inodes().contains_key(k) && !set![d].contains(k) implies #[trigger] new.inodes().contains_key(k)
                && new.inodes()[k] == old.inodes()[k] by {
                assert(k != n);
                assert(!set![d, n].contains(k));
            }
            let om = dir_map(es);
            let nm = dir_map(entries_of(new.inodes()[d]));
            assert forall|x: Seq<char>| #[trigger] om.contains_key(x) implies nm.contains_key(x) && om[x] == nm[x] by {
                assert(x != name);
            }
        }
        assert(no_up(pre)) by {
            assert forall|j: int| 0 <= j < pre.len() implies #[trigger] pre[j] != seq!['.', '.'] by {
                assert(pre[j] == cs[j]);
            }
        }
        lemma_walk_grows(*new, *old, d, old.start(path), pre, path);
        assert(new.start(path) == old.start(path));
        lemma_walk_push(new, new.start(path), pre, name, path);
        assert(new.resolve(path) == Ok::<InodeId, ErrorView>(n));
    }

    /// The number of inodes.
    pub fn inode_count(&self) -> (r: usize)
        ensures
            r == self.inodes().dom().len(),
    {
        proof {
            assert(self.inodes().dom() =~= self.inodes@.dom());
        }
        self.inodes.len()
    }

    /// The bytes of the file at `path`, following symbolic links.
    pub fn cat(&self, path: &str) -> (r: Result<&[u8], VfsError>)
        requires
            self.wf(),
        ensures
            match r {
                Ok(b) => self.read(path@) == Ok::<Seq<u8>, ErrorView>(b@),
                Err(e) => self.read(path@) == Err::<Seq<u8>, ErrorView>(e@),
            },
    {
        let mut fuel = self.inode_count();
        let mut cur: &str = path;
        loop
            invariant
                self.wf(),
                self.read_at(cur@, fuel as nat) == self.read(path@),
            decreases fuel,
        {
            let id = self.resolve_path(cur)?;
            let inode = self.get_inode(id)?;
            match &inode.kind {
                InodeKind::File { content } => {
                    return Ok(content.as_slice());
                },
                InodeKind::Directory { .. } => {
                    return Err(VfsError::IsDirectory { path: owned(cur) });
                },
                InodeKind::Symlink { target } => {
                    if fuel == 0 {
                        return Err(VfsError::SymlinkLoop { path: owned(cur) });
                    }
                    fuel -= 1;
                    cur = target.as_str();
                },
            }
        }
    }

    /// The bytes of the file at `path`, as an owned vector.
    pub fn cat_owned(&self, path: &str) -> (r: Result<Vec<u8>, VfsError>)
        requires
            self.wf(),
        ensures
            match r {
                Ok(b) => self.read(path@) == Ok::<Seq<u8>, ErrorView>(b@),
                Err(e) => self.read(path@) == Err::<Seq<u8>, ErrorView>(e@),
            },
    {
        let b = self.cat(path)?;
        Ok(copy_bytes(b))
    }

    /// Finds the file inode that a write to `path` changes.
    fn write_target_id(&self, path: &str) -> (r: Result<InodeId, VfsError>)
        requires
            self.wf(),
        ensures
            res_view(r) == self.write_target(path@),
    {
        let mut fuel = self.inode_count();
        let mut cur: &str = path;
        loop
            invariant
                self.wf(),
                self.write_target_at(cur@, fuel as nat) == self.write_target(path@),
            decreases fuel,
        {
            validate_markdown_filename(cur)?;
            let id = self.resolve_path(cur)?;
            let inode = self.get_inode(id)?;
            match &inode.kind {
                InodeKind::File { .. } => {
                    return Ok(id);
                },
                InodeKind::Directory { .. } => {
                    return Err(VfsError::IsDirectory { path: owned(cur) });
                },
                InodeKind::Symlink { target } => {
                    if fuel == 0 {
                        return Err(VfsError::SymlinkLoop { path: owned(cur) });
                    }
                    fuel -= 1;
                    cur = target.as_str();
                },
            }
        }
    }

    /// After the file that `path` leads to gets content `c`, reading `path`
    /// gives `c`.
    proof fn lemma_read_after_write(
        &self,
        before: &Self,
        path: Seq<char>,
        fuel: nat,
        id: InodeId,
        c: Seq<u8>,
    )
        requires
            self.same_shape(before),
            before.write_target_at(path, fuel) == Ok::<InodeId, ErrorView>(id),
            self.inodes().contains_key(id),
            self.inodes()[id].kind == KindView::File(c),
            forall|k: InodeId|
                #![trigger self.inodes()[k]]
                self.inodes().contains_key(k) && k != id ==> self.inodes()[k].kind
                    == before.inodes()[k].kind,
        ensures
            self.read_at(path, fuel) == Ok::<Seq<u8>, ErrorView>(c),
        decreases fuel,
    {
        self.lemma_same_walk(before, self.start(path), components(path), path);
        assert(self.start(path) == before.start(path));
        let rid = before.resolve(path)->Ok_0;
        assert(self.resolve(path) == before.resolve(path));
        assert(before.inodes().contains_key(rid));
        assert(self.inodes().contains_key(rid));
        if rid != id {
            assert(self.inodes()[rid].kind == before.inodes()[rid].kind);
            match before.inodes()[rid].kind {
                KindView::Symlink(t) => {
                    self.lemma_read_after_write(before, t, (fuel - 1) as nat, id, c);
                },
                _ => {},
            }
        }
    }

    /// Replaces the content of the file that `path` leads to, following
    /// symbolic links; every path on the way must name a Markdown file.
    pub fn write_file(&mut self, path: &str, content: Vec<u8>) -> (r: Result<(), VfsError>)
        requires
            old(self).wf(),
        ensures
            final(self).wf(),
            final(self).frame(old(self)),
            final(self).next_id() == old(self).next_id(),
            match old(self).write_target(path@) {
                Err(e) => r is Err && r->Err_0@ == e && final(self).same_as(old(self)),
                Ok(id) => r is Ok && final(self).inodes() == old(self).inodes().insert(
                    id,
                    InodeView {
                        kind: KindView::File(content@),
                        modified: final(self).inodes()[id].modified,
                        ..old(self).inodes()[id]
                    },
                ),
            },
            r is Ok ==> final(self).read(path@) == Ok::<Seq<u8>, ErrorView>(content@),
            old(self).write_target(path@) matches Ok(id) ==> old(self).inodes().contains_key(id) && old(
                self,
            ).inodes()[id].kind is File,
    {
        proof {
            if let Ok(id) = self.write_target(path@) {
                self.lemma_write_target_file(path@, self.inodes().dom().len(), id);
            }
        }
        let id = self.write_target_id(path)?;
        let ghost old_fs = *self;
        let ghost c = content@;
        proof {
            old_fs.lemma_write_target_file(path@, old_fs.inodes().dom().len(), id);
        }
        let mut ino = self.take_inode(id);
        ino.kind = InodeKind::File { content };
        ino.modified = now_secs();
        self.put_inode(id, ino);
        proof {
            let v = self.inodes()[id];
            assert(self.inodes() =~= old_fs.inodes().insert(id, v));
            self.lemma_wf_insert(&old_fs, id, v);
            assert(self.inodes().dom() =~= old_fs.inodes().dom());
            assert(self.same_shape(&old_fs));
            self.lemma_read_after_write(&old_fs, path@, old_fs.inodes().dom().len(), id, c);
        }
        Ok(())
    }

    /// Sets the length of the file that `path` leads to: longer content is
    /// cut, shorter content is extended with zero bytes.
    pub fn truncate(&mut self, path: &str, size: usize) -> (r: Result<(), VfsError>)
        requires
            old(self).wf(),
        ensures
            final(self).wf(),
            final(self).frame(old(self)),
            final(self).next_id() == old(self).next_id(),
            match old(self).read(path@) {
                Err(e) => r is Err && r->Err_0@ == e && final(self).same_as(old(self)),
                Ok(b) => match old(self).write_target(path@) {
                    Err(e) => r is Err && r->Err_0@ == e && final(self).same_as(old(self)),
                    Ok(id) => r is Ok && final(self).read(path@) == Ok::<Seq<u8>, ErrorView>(resized(b, size as nat))
                        && final(self).inodes() == old(self).inodes().insert(
                        id,
                        InodeView {
                            kind: KindView::File(resized(b, size as nat)),
                            modified: final(self).inodes()[id].modified,
                            ..old(self).inodes()[id]
                        },
                    ),
                },
            },
    {
        let current = self.cat(path)?;
        let mut content: Vec<u8> = Vec::new();
        let mut i: usize = 0;
        while i < size
            invariant
                i <= size,
                content@ == resized(current@, i as nat),
            decreases size - i,
        {
            let b = if i < current.len() {
                current[i]
            } else {
                0u8
            };
            content.push(b);
            i += 1;
            proof {
                assert(content@ =~= resized(current@, i as nat));
            }
        }
        self.write_file(path, content)
    }

    /// Writing goes to a file inode.
    proof fn lemma_write_target_file(&self, path: Seq<char>, fuel: nat, id: InodeId)
        requires
            self.write_target_at(path, fuel) == Ok::<InodeId, ErrorView>(id),
        ensures
            self.inodes().contains_key(id),
            self.inodes()[id].kind is File,
        decreases fuel,
    {
        let rid = self.resolve(path)->Ok_0;
        match self.inodes()[rid].kind {
            KindView::Symlink(t) => {
                self.lemma_write_target_file(t, (fuel - 1) as nat, id);
            },
            _ => {},
        }
    }
}


impl VirtualFs {
    /// What a path resolves to is below `next_id`.
    proof fn lemma_resolve_below(&self, path: Seq<char>)
        requires
            self.tree_wf(),
        ensures
            self.resolve(path) is Ok ==> self.resolve(path)->Ok_0 < self.next_id(),
    {
        self.lemma_walk_below(self.start(path), components(path), path);
    }

    /// Where an entry lands when `dst` is the destination of a move or a
    /// copy: into `dst` itself under `name` when `dst` is a directory, else
    /// under the last component of `dst` in its parent.
    pub open spec fn destination(&self, dst: Seq<char>, name: Seq<char>) -> Result<
        (InodeId, Seq<char>),
        ErrorView,
    > {
        match self.resolve(dst) {
            Ok(did) => if !self.inodes().contains_key(did) {
                Err(ErrorView::NotFound(label(did)))
            } else if self.inodes()[did].kind is Directory {
                Ok((did, name))
            } else {
                self.resolve_parent_spec(dst)
            },
            Err(_) => self.resolve_parent_spec(dst),
        }
    }

    fn find_destination(&self, dst: &str, name: &str) -> (r: Result<(InodeId, String), VfsError>)
        requires
            self.wf(),
        ensures
            match r {
                Ok((d, n)) => self.destination(dst@, name@) == Ok::<(InodeId, Seq<char>), ErrorView>(
                    (d, n@),
                ),
                Err(e) => self.destination(dst@, name@) == Err::<(InodeId, Seq<char>), ErrorView>(
                    e@,
                ),
            },
    {
        if let Ok(did) = self.resolve_path(dst) {
            let dir = self.get_inode(did)?;
            if dir.is_dir() {
                return Ok((did, owned(name)));
            }
        }
        self.resolve_parent(dst)
    }

    /// Moves the entry `src` to `dst`: into `dst` when it is a directory,
    /// else to the name `dst`. A file keeps a Markdown name. The entry is
    /// taken from its directory before it is put in its new place.
    pub fn mv(&mut self, src: &str, dst: &str) -> (r: Result<(), VfsError>)
        requires
            old(self).wf(),
        ensures
            final(self).wf(),
            VirtualFs::mv_done(old(self), final(self), src@, dst@, res_view(r)),
    {
        let src_id = self.resolve_path(src)?;
        let src_inode = self.get_inode(src_id)?;
        if src_inode.is_file() {
            validate_markdown_filename(dst)?;
        }
        let (src_parent, src_name) = self.resolve_parent(src)?;
        let (dst_parent, dst_name) = self.find_destination(dst, src_name.as_str())?;
        let ghost old_fs = *self;
        proof {
            old_fs.lemma_resolve_below(src@);
        }
        self.dir_unset(src_parent, src_name.as_str())?;
        let ghost mid = *self;
        let res = self.dir_set(dst_parent, dst_name, src_id);
        proof {
            assert(self.inodes().dom() =~= old_fs.inodes().dom());
            if dst_parent != src_parent {
                assert(mid.dir_of(dst_parent) == old_fs.dir_of(dst_parent));
                if res is Ok {
                    assert forall|k: InodeId|
                        old_fs.inodes().contains_key(k) && !set![src_parent, dst_parent].contains(
                            k,
                        ) implies #[trigger] self.inodes().contains_key(k) && self.inodes()[k]
                        == old_fs.inodes()[k] by {
                        assert(mid.inodes().contains_key(k));
                    }
                }
            } else {
                assert forall|k: InodeId|
                    old_fs.inodes().contains_key(k) && !set![src_parent].contains(
                        k,
                    ) implies #[trigger] self.inodes().contains_key(k) && self.inodes()[k]
                    == old_fs.inodes()[k] by {
                    assert(mid.inodes().contains_key(k));
                }
            }
        }
        res
    }

    /// Copies the file or link `src` to `dst` (into `dst` under the source's
    /// last segment when `dst` is a directory). The copy is a new inode owned
    /// by `uid`, with the group that the target directory hands down.
    #[verifier::spinoff_prover]
    pub fn cp(&mut self, src: &str, dst: &str, uid: Uid, gid: Gid) -> (r: Result<(), VfsError>)
        requires
            old(self).wf(),
            old(self).next_id() < u64::MAX,
        ensures
            final(self).wf(),
            VirtualFs::cp_done(old(self), final(self), src@, dst@, uid, gid, res_view(r)),
    {
        let src_id = self.resolve_path(src)?;
        let src_inode = self.get_inode(src_id)?.duplicate();
        if src_inode.is_dir() {
            return Err(VfsError::IsDirectory { path: owned(src) });
        }
        if src_inode.is_file() {
            validate_markdown_filename(dst)?;
        }
        let src_name = last_segment_of(src);
        let (parent_id, name) = self.find_destination(dst, src_name.as_str())?;
        let ghost old_fs = *self;
        proof {
            old_fs.lemma_resolve_below(dst@);
            old_fs.lemma_parent_dir_below(dst@);
        }
        let new_id = self.next_id;
        let effective_gid = self.effective_gid(parent_id, gid);
        let mut new_inode = src_inode;
        new_inode.id = new_id;
        new_inode.uid = uid;
        new_inode.gid = effective_gid;
        self.add_inode(new_inode);
        let ghost mid = *self;
        let res = self.dir_set(parent_id, name, new_id);
        proof {
            assert(parent_id != new_id);
            assert(mid.dir_of(parent_id) == old_fs.dir_of(parent_id));
            assert(self.inodes()[new_id] == mid.inodes()[new_id]);
            assert(self.inodes().dom() =~= old_fs.inodes().dom().insert(new_id));
            assert forall|k: InodeId|
                old_fs.inodes().contains_key(k) && !set![parent_id, new_id].contains(
                    k,
                ) implies #[trigger] self.inodes().contains_key(k) && self.inodes()[k]
                == old_fs.inodes()[k] by {
                assert(mid.inodes().contains_key(k));
            }
        }
        res
    }
}


/// Whether a row of `ls` describes inode `v` under `name`.
pub open spec fn describes(e: LsEntry, name: Seq<char>, v: InodeView) -> bool {
    &&& e.name@ == name
    &&& e.is_dir == (v.kind is Directory)
    &&& e.is_symlink == (v.kind is Symlink)
    &&& e.size == view_size(v)
    &&& e.mode == v.mode
    &&& e.uid == v.uid
    &&& e.gid == v.gid
    &&& e.modified == v.modified
}

/// The first entry of a listing whose inode is missing.
pub open spec fn first_missing(es: Seq<(String, InodeId)>, m: Map<InodeId, InodeView>) -> Option<int> {
    if exists|i: int| 0 <= i < es.len() && !m.contains_key(#[trigger] es[i].1) {
        Some(
            choose|i: int|
                0 <= i < es.len() && !m.contains_key(#[trigger] es[i].1) && forall|j: int|
                    0 <= j < i ==> m.contains_key(#[trigger] es[j].1),
        )
    } else {
        None
    }
}

fn ls_row(name: String, inode: &Inode) -> (r: LsEntry)
    ensures
        describes(r, name@, inode@),
{
    LsEntry {
        name,
        is_dir: inode.is_dir(),
        is_symlink: inode.is_symlink(),
        size: inode.size(),
        mode: inode.mode,
        uid: inode.uid,
        gid: inode.gid,
        modified: inode.modified,
    }
}

impl VirtualFs {
    /// The inode that an optional path names: the working directory when
    /// there is none.
    pub open spec fn target_of(&self, path: Option<&str>) -> Result<InodeId, ErrorView> {
        match path {
            Some(p) => self.resolve(p@),
            None => Ok(self.cwd()),
        }
    }

    /// What listing `path` (the working directory when there is none) gives:
    /// a row per entry of a directory, by name, or one row for a file or
    /// link, named as the path was given.
    pub open spec fn ls_gives(&self, path: Option<Seq<char>>, r: Result<Seq<LsEntry>, ErrorView>) -> bool {
        let t = match path {
            Some(p) => self.resolve(p),
            None => Ok(self.cwd()),
        };
        match t {
            Err(e) => r == Err::<Seq<LsEntry>, ErrorView>(e),
            Ok(id) => if !self.inodes().contains_key(id) {
                r == Err::<Seq<LsEntry>, ErrorView>(ErrorView::NotFound(label(id)))
            } else {
                let v = self.inodes()[id];
                match v.kind {
                    KindView::Directory(es) => match first_missing(es, self.inodes()) {
                        Some(i) => r == Err::<Seq<LsEntry>, ErrorView>(ErrorView::NotFound(label(es[i].1))),
                        None => r is Ok && r->Ok_0.len() == es.len() && forall|i: int|
                            0 <= i < es.len() ==> describes(#[trigger] r->Ok_0[i], es[i].0@, self.inodes()[es[i].1]),
                    },
                    _ => r is Ok && r->Ok_0.len() == 1 && describes(
                        r->Ok_0[0],
                        match path {
                            Some(p) => p,
                            None => Seq::empty(),
                        },
                        v,
                    ),
                }
            },
        }
    }

    /// Lists a directory (one row per entry, by name), or describes a file
    /// or link in one row named as the path was given.
    pub fn ls(&self, path: Option<&str>) -> (r: Result<Vec<LsEntry>, VfsError>)
        requires
            self.wf(),
        ensures
            self.ls_gives(
                match path {
                    Some(p) => Some(p@),
                    None => None,
                },
                match r {
                    Ok(v) => Ok(v@),
                    Err(e) => Err(e@),
                },
            ),
            match self.target_of(path) {
                Err(e) => r is Err && r->Err_0@ == e,
                Ok(id) => if !self.inodes().contains_key(id) {
                    r is Err && r->Err_0@ == ErrorView::NotFound(label(id))
                } else {
                    let v = self.inodes()[id];
                    match v.kind {
                        KindView::Directory(es) => match first_missing(es, self.inodes()) {
                            Some(i) => r is Err && r->Err_0@ == ErrorView::NotFound(label(es[i].1)),
                            None => r is Ok && r->Ok_0.len() == es.len() && forall|i: int|
                                0 <= i < es.len() ==> describes(
                                    #[trigger] r->Ok_0[i],
                                    es[i].0@,
                                    self.inodes()[es[i].1],
                                ),
                        },
                        _ => r is Ok && r->Ok_0.len() == 1 && describes(
                            r->Ok_0[0],
                            match path {
                                Some(p) => p@,
                                None => Seq::empty(),
                            },
                            v,
                        ),
                    }
                },
            },
    {
        let id = match path {
            Some(p) => self.resolve_path(p)?,
            None => self.cwd,
        };
        let inode = self.get_inode(id)?;
        match &inode.kind {
            InodeKind::Directory { entries } => {
                let mut result: Vec<LsEntry> = Vec::new();
                let mut i: usize = 0;
                while i < entries.len()
                    invariant
                        self.target_of(path) == Ok::<InodeId, ErrorView>(id),
                        self.inodes().contains_key(id),
                        self.inodes()[id] == inode@,
                        inode@.kind == KindView::Directory(entries@),
                        i <= entries@.len(),
                        result@.len() == i,
                        forall|j: int| 0 <= j < i ==> self.inodes().contains_key(#[trigger] entries@[j].1),
                        forall|j: int|
                            0 <= j < i ==> describes(
                                #[trigger] result@[j],
                                entries@[j].0@,
                                self.inodes()[entries@[j].1],
                            ),
                    decreases entries.len() - i,
                {
                    let child_id = entries[i].1;
                    let child = match self.get_inode(child_id) {
                        Ok(c) => c,
                        Err(e) => {
                            proof {
                                let es = entries@;
                                let m = self.inodes();
                                assert(inode@.kind == KindView::Directory(es));
                                assert(!m.contains_key(es[i as int].1));
                                assert(forall|j: int| 0 <= j < i ==> m.contains_key(#[trigger] es[j].1));
                                let k = choose|k: int|
                                    0 <= k < es.len() && !m.contains_key(#[trigger] es[k].1)
                                        && forall|j: int| 0 <= j < k ==> m.contains_key(#[trigger] es[j].1);
                                if k < i {
                                    assert(m.contains_key(es[k].1));
                                }
                                if k > i {
                                    assert(m.contains_key(es[i as int].1));
                                }
                                assert(first_missing(es, m) == Some(i as int));
                            }
                            return Err(e);
                        },
                    };
                    let name = owned(entries[i].0.as_str());
                    result.push(ls_row(name, child));
                    i += 1;
                }
                proof {
                    let es = entries@;
                    assert(inode@.kind == KindView::Directory(es));
                    assert(first_missing(es, self.inodes()) is None);
                    assert(result@.len() == es.len());
                    assert(forall|k: int| 0 <= k < es.len() ==> describes(#[trigger] result@[k], es[k].0@, self.inodes()[es[k].1]));
                }
                Ok(result)
            },
            _ => {
                let name = match path {
                    Some(p) => owned(p),
                    None => String::new(),
                };
                proof {
                    assert(name@ == match path {
                        Some(p) => p@,
                        None => Seq::<char>::empty(),
                    });
                }
                let mut rows: Vec<LsEntry> = Vec::new();
                rows.push(ls_row(name, inode));
                proof {
                    assert(!(inode@.kind is Directory));
                    assert(rows@.len() == 1);
                    assert(describes(rows@[0], match path {
                                Some(p) => p@,
                                None => Seq::empty(),
                            }, self.inodes()[id]));
                }
                Ok(rows)
            },
        }
    }

    /// The working-directory path after the components `comps`: `.` stays,
    /// `..` drops the last entry, a name that the current directory lists is
    /// appended and another name is skipped. A current directory that cannot
    /// be listed stops the walk with its error.
    pub open spec fn cd_walk(&self, cp: Seq<(Seq<char>, InodeId)>, comps: Seq<Seq<char>>) -> (
        Seq<(Seq<char>, InodeId)>,
        Option<ErrorView>,
    )
        decreases comps.len(),
    {
        if comps.len() == 0 {
            (cp, None)
        } else {
            let c = comps[0];
            if c == "."@ {
                self.cd_walk(cp, comps.drop_first())
            } else if c == ".."@ {
                self.cd_walk(
                    if cp.len() > 0 {
                        cp.drop_last()
                    } else {
                        cp
                    },
                    comps.drop_first(),
                )
            } else {
                let cur = if cp.len() > 0 {
                    cp.last().1
                } else {
                    self.root()
                };
                match self.dir_of(cur) {
                    Err(e) => (cp, Some(e)),
                    Ok(es) => if dir_map(es).contains_key(c) {
                        self.cd_walk(cp.push((c, dir_map(es)[c])), comps.drop_first())
                    } else {
                        self.cd_walk(cp, comps.drop_first())
                    },
                }
            }
        }
    }

    /// Changes the working directory. The recorded path follows the
    /// components; when a directory on the way cannot be listed, the error
    /// comes back with the path recorded so far and the working directory
    /// as it was.
    pub fn cd(&mut self, path: &str) -> (r: Result<(), VfsError>)
        requires
            old(self).wf(),
        ensures
            final(self).wf(),
            final(self).root() == old(self).root(),
            final(self).reg() == old(self).reg(),
            final(self).inodes() == old(self).inodes(),
            final(self).next_id() == old(self).next_id(),
            if path@ == "/"@ {
                r is Ok && final(self).cwd() == old(self).root() && final(self).cwd_path()
                    == Seq::<(Seq<char>, InodeId)>::empty()
            } else {
                match old(self).resolve(path@) {
                    Err(e) => r is Err && r->Err_0@ == e && final(self).same_as(old(self)),
                    Ok(t) => if !old(self).inodes().contains_key(t) {
                        r is Err && r->Err_0@ == ErrorView::NotFound(label(t)) && final(self).same_as(
                            old(self),
                        )
                    } else if !(old(self).inodes()[t].kind is Directory) {
                        r is Err && r->Err_0@ == ErrorView::NotDirectory(path@) && final(self).same_as(old(self))
                    } else {
                        let start = if is_abs(path@) {
                            Seq::<(Seq<char>, InodeId)>::empty()
                        } else {
                            old(self).cwd_path()
                        };
                        let (cp, err) = old(self).cd_walk(start, components(path@));
                        &&& final(self).cwd_path() == cp
                        &&& match err {
                            None => r is Ok && final(self).cwd() == t,
                            Some(e) => r is Err && r->Err_0@ == e && final(self).cwd()
                                == old(self).cwd(),
                        }
                    }
                }
            },
    {
        if str_eq(path, "/") {
            self.cwd = self.root;
            self.cwd_path = Vec::new();
            proof {
                assert(self.cwd_path() =~= Seq::<(Seq<char>, InodeId)>::empty());
            }
            return Ok(());
        }
        let target = self.resolve_path(path)?;
        let inode = self.get_inode(target)?;
        if !inode.is_dir() {
            return Err(VfsError::NotDirectory { path: owned(path) });
        }
        let (_start, comps) = self.parse_path(path);
        let chars = to_chars(path);
        let ghost old_fs = *self;
        let mut cp: Vec<(String, InodeId)> = if chars.len() > 0 && chars[0] == '/' {
            Vec::new()
        } else {
            self.cwd_path_clone()
        };
        let ghost start = cp@.map_values(|e: (String, InodeId)| (e.0@, e.1));
        proof {
            assert forall|j: int| 0 <= j < cp@.len() implies #[trigger] cp@[j].1 < old_fs.next_id() by {
                if !is_abs(path@) {
                    assert(old_fs.cwd_path()[j].1 == cp@[j].1);
                }
            }
            if is_abs(path@) {
                assert(start =~= Seq::<(Seq<char>, InodeId)>::empty());
            }
            assert(comps.deep_view().skip(0) =~= comps.deep_view());
            reveal_strlit("..");
            reveal_strlit(".");
        }
        let mut i: usize = 0;
        while i < comps.len()
            invariant
                old_fs.wf(),
                *self == old_fs,
                old_fs == *old(self),
                path@ != "/"@,
                old_fs.resolve(path@) == Ok::<InodeId, ErrorView>(target),
                old_fs.inodes().contains_key(target),
                old_fs.inodes()[target].kind is Directory,
                start == (if is_abs(path@) {
                    Seq::<(Seq<char>, InodeId)>::empty()
                } else {
                    old_fs.cwd_path()
                }),
                i <= comps@.len(),
                comps.deep_view() == components(path@),
                old_fs.cd_walk(start, comps.deep_view()) == old_fs.cd_walk(
                    cp@.map_values(|e: (String, InodeId)| (e.0@, e.1)),
                    comps.deep_view().skip(i as int),
                ),
                forall|j: int| 0 <= j < cp@.len() ==> #[trigger] cp@[j].1 < old_fs.next_id(),
            decreases comps.len() - i,
        {
            let ghost cpv = cp@.map_values(|e: (String, InodeId)| (e.0@, e.1));
            let ghost rest = comps.deep_view().skip(i as int);
            proof {
                assert(rest[0] == comps[i as int]@);
                assert(rest.drop_first() =~= comps.deep_view().skip(i + 1));
            }
            let c = comps[i].as_str();
            if str_eq(c, ".") {
            } else if str_eq(c, "..") {
                if cp.len() > 0 {
                    cp.pop();
                    proof {
                        assert(cp@.map_values(|e: (String, InodeId)| (e.0@, e.1)) =~= cpv.drop_last());
                    }
                }
            } else {
                let cur = if cp.len() > 0 {
                    cp[cp.len() - 1].1
                } else {
                    self.root
                };
                let entries = match self.dir_entries(cur) {
                    Ok(es) => es,
                    Err(e) => {
                        self.cwd_path = cp;
                        proof {
                            assert forall|j: int| 0 <= j < self.cwd_path().len() implies #[trigger] self.cwd_path()[j].1
                                < self.next_id() by {
                                assert(self.cwd_path()[j].1 == cp@[j].1);
                            }
                        }
                        return Err(e);
                    },
                };
                proof {
                    old_fs.lemma_dir_sorted(cur);
                }
                match dir_lookup(entries, c) {
                    Some(child) => {
                        proof {
                            let k = entry_index(entries@, c@);
                            assert(0 <= k < entries@.len() && entries@[k].0@ == c@);
                            assert(entries@[k].1 < old_fs.next_id());
                        }
                        cp.push((owned(c), child));
                        proof {
                            assert(cp@.map_values(|e: (String, InodeId)| (e.0@, e.1)) =~= cpv.push(
                                (c@, child),
                            ));
                        }
                    },
                    None => {},
                }
            }
            i += 1;
        }
        self.cwd_path = cp;
        self.cwd = target;
        proof {
            assert(comps.deep_view().skip(comps@.len() as int) =~= Seq::<Seq<char>>::empty());
            old_fs.lemma_resolve_below(path@);
            assert forall|j: int| 0 <= j < self.cwd_path().len() implies #[trigger] self.cwd_path()[j].1
                < self.next_id() by {
                assert(self.cwd_path()[j].1 == cp@[j].1);
            }
        }
        Ok(())
    }
}


impl VirtualFs {
    /// The ids in the tree under `id`, `id` included, descending at most
    /// `fuel` levels.
    pub open spec fn subtree(&self, id: InodeId, fuel: nat) -> Set<InodeId>
        decreases fuel, 0nat,
    {
        if fuel > 0 && self.inodes().contains_key(id) && self.inodes()[id].kind is Directory {
            set![id].union(self.subtrees(entries_of(self.inodes()[id]), (fuel - 1) as nat))
        } else {
            set![id]
        }
    }

    /// The ids in the trees under the entries `es`.
    pub open spec fn subtrees(&self, es: Seq<(String, InodeId)>, fuel: nat) -> Set<InodeId>
        decreases fuel, es.len(),
    {
        if es.len() == 0 {
            Set::empty()
        } else {
            self.subtrees(es.drop_last(), fuel).union(self.subtree(es.last().1, fuel))
        }
    }

    /// Appends the ids under `id` to `out`.
    fn collect_subtree(&self, id: InodeId, fuel: usize, out: &mut Vec<InodeId>)
        ensures
            forall|x: InodeId|
                #[trigger] final(out)@.contains(x) <==> (old(out)@.contains(x) || self.subtree(
                    id,
                    fuel as nat,
                ).contains(x)),
        decreases fuel,
    {
        out.push(id);
        proof {
            assert forall|x: InodeId| #[trigger] out@.contains(x) <==> (old(out)@.contains(x) || x == id) by {
                if out@.contains(x) && x != id {
                    let j = choose|j: int| 0 <= j < out@.len() && out@[j] == x;
                    assert(old(out)@[j] == x);
                }
                if old(out)@.contains(x) {
                    let j = choose|j: int| 0 <= j < old(out)@.len() && old(out)@[j] == x;
                    assert(out@[j] == x);
                }
                if x == id {
                    assert(out@[old(out)@.len() as int] == x);
                }
            }
        }
        if fuel == 0 {
            return;
        }
        if let Ok(inode) = self.get_inode(id) {
            if let InodeKind::Directory { entries } = &inode.kind {
                let ghost es = entries@;
                let mut i: usize = 0;
                proof {
                    assert(es.take(0) =~= Seq::<(String, InodeId)>::empty());
                }
                while i < entries.len()
                    invariant
                        i <= es.len(),
                        es == entries@,
                        fuel > 0,
                        forall|x: InodeId|
                            #[trigger] out@.contains(x) <==> (old(out)@.contains(x) || x == id
                                || self.subtrees(es.take(i as int), (fuel - 1) as nat).contains(x)),
                    decreases entries.len() - i,
                {
                    let ghost before = out@;
                    self.collect_subtree(entries[i].1, fuel - 1, out);
                    proof {
                        assert(es.take(i + 1).drop_last() =~= es.take(i as int));
                        assert(es.take(i + 1).last() == es[i as int]);
                    }
                    i += 1;
                }
                proof {
                    assert(es.take(es.len() as int) =~= es);
                    assert(inode@.kind == KindView::Directory(es));
                }
            }
        }
    }

    /// Removes the entry `path` and every inode under it. The root is never
    /// removed.
    pub fn rm_rf(&mut self, path: &str) -> (r: Result<(), VfsError>)
        requires
            old(self).wf(),
        ensures
            final(self).wf(),
            VirtualFs::rm_rf_done(old(self), final(self), path@, res_view(r)),
    {
        let id = self.resolve_path(path)?;
        if id == self.root {
            return Err(VfsError::InvalidPath { path: owned("cannot remove root") });
        }
        let fuel = self.inode_count();
        let mut doomed: Vec<InodeId> = Vec::new();
        self.collect_subtree(id, fuel, &mut doomed);
        let (parent_id, name) = self.resolve_parent(path)?;
        let ghost old_fs = *self;
        let ghost ks = old_fs.subtree(id, fuel as nat).remove(old_fs.root());
        self.dir_unset(parent_id, name.as_str())?;
        let ghost mid = *self;
        let mut i: usize = 0;
        while i < doomed.len()
            invariant
                self.tree_wf(),
                self.frame(&mid),
                self.next_id() == mid.next_id(),
                mid.root() == old_fs.root(),
                i <= doomed@.len(),
                forall|x: InodeId| #[trigger] doomed@.contains(x) <==> old_fs.subtree(id, fuel as nat).contains(x),
                self.inodes() == mid.inodes().remove_keys(
                    doomed@.take(i as int).to_set().remove(old_fs.root()),
                ),
            decreases doomed.len() - i,
        {
            let rid = doomed[i];
            let ghost before = self.inodes();
            if rid != self.root {
                self.drop_inode(rid);
            }
            proof {
                assert(doomed@.take(i + 1) =~= doomed@.take(i as int).push(rid));
                assert(doomed@.take(i as int).push(rid).to_set() =~= doomed@.take(i as int).to_set().insert(rid)) by {
                    doomed@.take(i as int).lemma_push_to_set_commute(rid);
                }
                assert(self.inodes() =~= mid.inodes().remove_keys(
                    doomed@.take(i + 1).to_set().remove(old_fs.root()),
                ));
            }
            i += 1;
        }
        proof {
            assert(doomed@.take(doomed@.len() as int) =~= doomed@);
            assert(doomed@.to_set().remove(old_fs.root()) =~= ks) by {
                assert forall|x: InodeId| doomed@.to_set().contains(x) <==> doomed@.contains(x) by {}
            }
            assert(self.inodes().dom() =~= old_fs.inodes().dom().difference(ks));
            assert forall|k: InodeId|
                old_fs.inodes().contains_key(k) && !ks.insert(parent_id).contains(
                    k,
                ) implies #[trigger] self.inodes().contains_key(k) && self.inodes()[k]
                == old_fs.inodes()[k] by {
                assert(mid.inodes().contains_key(k));
            }
        }
        Ok(())
    }
}


impl VirtualFs {
    /// `self` grew from `old` by new directories of `uid` only: every old
    /// inode that is not a directory is as it was, every old directory
    /// keeps its fields and entries and may list more, and every new inode
    /// is a directory of `uid`, with mode 0755, numbered from `old`'s next id.
    pub open spec fn grew_dirs(&self, old: &Self, uid: Uid) -> bool {
        &&& self.frame(old)
        &&& old.next_id() <= self.next_id()
        &&& forall|k: InodeId| #[trigger]
            old.inodes().contains_key(k) ==> self.inodes().contains_key(k) && if old.inodes()[k].kind is Directory {
                &&& self.inodes()[k].kind is Directory
                &&& same_meta(old.inodes()[k], self.inodes()[k])
                &&& dir_map(entries_of(old.inodes()[k])).submap_of(dir_map(entries_of(self.inodes()[k])))
            } else {
                self.inodes()[k] == old.inodes()[k]
            }
        &&& forall|k: InodeId| #[trigger]
            self.inodes().contains_key(k) && !old.inodes().contains_key(k) ==> {
                &&& old.next_id() <= k < self.next_id()
                &&& self.inodes()[k].kind is Directory
                &&& self.inodes()[k].uid == uid
                &&& self.inodes()[k].mode == 0o755
            }
    }

    /// File `k` was made under `p` for group `gid`: its group is the one
    /// `p` passes on (`p`'s own where `p` has the setgid bit, else `gid`),
    /// and `p`, where it is a directory, lists it.
    pub open spec fn made_under(&self, k: InodeId, p: InodeId, gid: Gid) -> bool {
        &&& self.inodes()[k].gid == self.inherited_gid(p, gid)
        &&& self.inodes().contains_key(p) && self.inodes()[p].kind is Directory ==> dir_map(
            entries_of(self.inodes()[p]),
        ).contains_value(k)
    }

    /// What writing a file, made along with its missing parent directories
    /// when needed, keeps of `old` and gives what it makes: an inode of `old`
    /// changes at most its content and its modification time, a file
    /// keeping its kind or holding `bytes`, a directory staying one. Every
    /// new inode is owned by `uid`: a directory with mode 755, or a file with
    /// mode 644 made under a directory that lists it and passes on its group.
    pub open spec fn kept_owners(&self, old: &Self, uid: Uid, gid: Gid, bytes: Seq<u8>) -> bool {
        &&& self.frame(old)
        &&& forall|k: InodeId| #[trigger]
            old.inodes().contains_key(k) ==> self.inodes().contains_key(k) && {
                let a = old.inodes()[k];
                let b = self.inodes()[k];
                &&& b == InodeView { kind: b.kind, modified: b.modified, ..a }
                &&& (b.kind == a.kind || (a.kind is File && b.kind == KindView::File(bytes)) || (a.kind is Directory
                    && b.kind is Directory))
            }
        &&& forall|k: InodeId| #[trigger]
            self.inodes().contains_key(k) && !old.inodes().contains_key(k) ==> {
                let b = self.inodes()[k];
                &&& b.uid == uid
                &&& (b.kind is Directory && b.mode == 0o755) || (b.kind is File && b.mode == 0o644 && exists|p: InodeId|
                    #[trigger] self.made_under(k, p, gid))
            }
    }

    /// Nothing written keeps everything.
    pub proof fn lemma_kept_refl(&self, uid: Uid, gid: Gid, bytes: Seq<u8>)
        ensures
            self.kept_owners(self, uid, gid, bytes),
    {
    }

    /// Growing directories keeps what a write keeps, and makes only
    /// directories.
    pub proof fn lemma_kept_grew(&self, old: &Self, uid: Uid, gid: Gid, bytes: Seq<u8>)
        requires
            self.grew_dirs(old, uid),
        ensures
            self.kept_owners(old, uid, gid, bytes),
            forall|k: InodeId| #[trigger]
                self.inodes().contains_key(k) && !old.inodes().contains_key(k) ==> self.inodes()[k].kind is Directory,
    {
    }

    /// When the inodes of `old` keep their mode and group in `self`, and
    /// no new inode has the setgid bit, every directory passes on the same
    /// group in both.
    proof fn lemma_inherited_same(&self, old: &Self, gid: Gid)
        requires
            forall|k: InodeId| #[trigger]
                old.inodes().contains_key(k) ==> self.inodes().contains_key(k) && self.inodes()[k].mode
                    == old.inodes()[k].mode && self.inodes()[k].gid == old.inodes()[k].gid,
            forall|k: InodeId| #[trigger]
                self.inodes().contains_key(k) && !old.inodes().contains_key(k) ==> self.inodes()[k].mode & 0o2000u16
                    == 0,
        ensures
            forall|d: InodeId| #[trigger] self.inherited_gid(d, gid) == old.inherited_gid(d, gid),
    {
        assert forall|d: InodeId| #[trigger] self.inherited_gid(d, gid) == old.inherited_gid(d, gid) by {
            if old.inodes().contains_key(d) {
            } else if self.inodes().contains_key(d) {
            }
        }
    }

    /// A touch after a write-keeping change that made only directories
    /// still keeps what a write keeps.
    pub proof fn lemma_kept_touch(
        &self,
        mid: &Self,
        old: &Self,
        path: Seq<char>,
        uid: Uid,
        gid: Gid,
        bytes: Seq<u8>,
        r: Result<(), ErrorView>,
    )
        requires
            mid.wf(),
            mid.kept_owners(old, uid, gid, bytes),
            forall|k: InodeId| #[trigger]
                mid.inodes().contains_key(k) && !old.inodes().contains_key(k) ==> mid.inodes()[k].kind is Directory,
            VirtualFs::touch_done(mid, self, path, uid, gid, r),
        ensures
            self.kept_owners(old, uid, gid, bytes),
    {
        assert((0o644u16 & 0o2000u16) == 0) by (bit_vector);
        assert((0o755u16 & 0o2000u16) == 0) by (bit_vector);
        let n = mid.next_id();
        assert(!mid.inodes().contains_key(n));
        // Every inode of `mid` keeps its owner, group, mode and link count,
        // and a directory stays one.
        assert forall|k: InodeId| #[trigger] mid.inodes().contains_key(k) implies self.inodes().contains_key(k) && {
            let a = mid.inodes()[k];
            let b = self.inodes()[k];
            &&& b == InodeView { kind: b.kind, modified: b.modified, ..a }
            &&& (b.kind == a.kind || (a.kind is Directory && b.kind is Directory))
        } by {
            if is_markdown(path) {
                match mid.resolve(path) {
                    Ok(id) => {
                        if mid.inodes().contains_key(id) && k != id {
                            assert(self.keeps_others(mid, set![id]));
                            assert(set![id].contains(k) == false);
                        }
                    },
                    Err(_) => {
                        if let Ok((p, name)) = mid.resolve_parent_spec(path) {
                            if mid.dir_of(p) is Ok {
                                assert(self.keeps_others(mid, set![p, n]));
                                if k == p {
                                    assert(mid.inodes()[p].kind is Directory);
                                    assert(same_meta(mid.inodes()[p], self.inodes()[p]));
                                } else {
                                    assert(set![p, n].contains(k) == false);
                                }
                            } else {
                                assert(self.keeps_others(mid, set![n]));
                                assert(set![n].contains(k) == false);
                            }
                        } else {
                            assert(self.same_as(mid));
                        }
                    },
                }
            }
        }
        self.lemma_inherited_same(mid, gid);
        // The only new inode is a fresh file made under the parent.
        assert forall|k: InodeId| #[trigger]
            self.inodes().contains_key(k) && !mid.inodes().contains_key(k) implies k == n && {
                let b = self.inodes()[k];
                &&& b.uid == uid
                &&& b.kind is File
                &&& b.mode == 0o644
                &&& exists|p: InodeId| #[trigger] self.made_under(k, p, gid)
            } by {
            if is_markdown(path) {
                if mid.resolve(path) is Err {
                    if let Ok((p, name)) = mid.resolve_parent_spec(path) {
                        assert(self.inodes().dom().contains(k));
                        assert(mid.inherited_gid(p, gid) == self.inodes()[k].gid);
                        if mid.dir_of(p) is Ok {
                            let es = mid.dir_of(p)->Ok_0;
                            assert(dir_map(entries_of(self.inodes()[p])) == dir_map(es).insert(name, n));
                            assert(dir_map(entries_of(self.inodes()[p])).dom().contains(name));
                            assert(dir_map(entries_of(self.inodes()[p]))[name] == n);
                        } else {
                            assert(self.keeps_others(mid, set![n]));
                            if p != n && mid.inodes().contains_key(p) {
                                assert(set![n].contains(p) == false);
                            }
                        }
                        assert(self.made_under(k, p, gid));
                    }
                }
            }
        }
        assert forall|k: InodeId| #[trigger] old.inodes().contains_key(k) implies self.inodes().contains_key(k) && {
            let a = old.inodes()[k];
            let b = self.inodes()[k];
            &&& b == InodeView { kind: b.kind, modified: b.modified, ..a }
            &&& (b.kind == a.kind || (a.kind is File && b.kind == KindView::File(bytes)) || (a.kind is Directory
                && b.kind is Directory))
        } by {
            assert(mid.inodes().contains_key(k));
        }
        assert forall|k: InodeId| #[trigger]
            self.inodes().contains_key(k) && !old.inodes().contains_key(k) implies {
                let b = self.inodes()[k];
                &&& b.uid == uid
                &&& (b.kind is Directory && b.mode == 0o755) || (b.kind is File && b.mode == 0o644 && exists|p: InodeId|
                    #[trigger] self.made_under(k, p, gid))
            } by {
            if mid.inodes().contains_key(k) {
                assert(mid.inodes()[k].kind is Directory);
            }
        }
    }

    /// A step that changes nothing keeps what a write keeps.
    pub proof fn lemma_kept_same(&self, mid: &Self, old: &Self, uid: Uid, gid: Gid, bytes: Seq<u8>)
        requires
            mid.kept_owners(old, uid, gid, bytes),
            self.same_as(mid),
        ensures
            self.kept_owners(old, uid, gid, bytes),
    {
        assert forall|d: InodeId| #[trigger] self.inherited_gid(d, gid) == mid.inherited_gid(d, gid) by {}
        assert forall|k: InodeId| #[trigger]
            self.inodes().contains_key(k) && !old.inodes().contains_key(k) implies {
                let b = self.inodes()[k];
                &&& b.uid == uid
                &&& (b.kind is Directory && b.mode == 0o755) || (b.kind is File && b.mode == 0o644 && exists|p: InodeId|
                    #[trigger] self.made_under(k, p, gid))
            } by {
            let b = mid.inodes()[k];
            if b.kind is File {
                let p = choose|p: InodeId| #[trigger] mid.made_under(k, p, gid);
                assert(self.made_under(k, p, gid));
            }
        }
    }

    /// Writing `bytes` into a file after a write-keeping change still keeps
    /// what a write keeps.
    pub proof fn lemma_kept_write(&self, mid: &Self, old: &Self, id: InodeId, uid: Uid, gid: Gid, bytes: Seq<u8>)
        requires
            mid.kept_owners(old, uid, gid, bytes),
            self.frame(mid),
            mid.inodes().contains_key(id),
            mid.inodes()[id].kind is File,
            self.inodes() == mid.inodes().insert(
                id,
                InodeView { kind: KindView::File(bytes), modified: self.inodes()[id].modified, ..mid.inodes()[id] },
            ),
        ensures
            self.kept_owners(old, uid, gid, bytes),
    {
        self.lemma_inherited_same(mid, gid);
        assert forall|k: InodeId| #[trigger]
            self.inodes().contains_key(k) && !old.inodes().contains_key(k) implies {
                let b = self.inodes()[k];
                &&& b.uid == uid
                &&& (b.kind is Directory && b.mode == 0o755) || (b.kind is File && b.mode == 0o644 && exists|p: InodeId|
                    #[trigger] self.made_under(k, p, gid))
            } by {
            assert(mid.inodes().contains_key(k));
            let b = mid.inodes()[k];
            if b.kind is File {
                let p = choose|p: InodeId| #[trigger] mid.made_under(k, p, gid);
                if p != id {
                    assert(self.inodes()[p] == mid.inodes()[p]);
                }
                assert(self.made_under(k, p, gid));
            }
        }
        assert forall|k: InodeId| #[trigger] old.inodes().contains_key(k) implies self.inodes().contains_key(k) && {
            let a = old.inodes()[k];
            let b = self.inodes()[k];
            &&& b == InodeView { kind: b.kind, modified: b.modified, ..a }
            &&& (b.kind == a.kind || (a.kind is File && b.kind == KindView::File(bytes)) || (a.kind is Directory
                && b.kind is Directory))
        } by {
            assert(mid.inodes().contains_key(k));
        }
    }

    /// A file system grew from itself.
    pub proof fn lemma_grew_dirs_refl(&self, uid: Uid)
        ensures
            self.grew_dirs(self, uid),
    {
        assert forall|k: InodeId| #[trigger] self.inodes().contains_key(k) && self.inodes()[k].kind is Directory implies dir_map(
            entries_of(self.inodes()[k]),
        ).submap_of(dir_map(entries_of(self.inodes()[k]))) by {}
    }

    proof fn lemma_grew_dirs_trans(&self, mid: &Self, old: &Self, uid: Uid)
        requires
            mid.grew_dirs(old, uid),
            self.grew_dirs(mid, uid),
        ensures
            self.grew_dirs(old, uid),
    {
        assert forall|k: InodeId| #[trigger] old.inodes().contains_key(k) implies self.inodes().contains_key(k)
            && if old.inodes()[k].kind is Directory {
            &&& self.inodes()[k].kind is Directory
            &&& same_meta(old.inodes()[k], self.inodes()[k])
            &&& dir_map(entries_of(old.inodes()[k])).submap_of(dir_map(entries_of(self.inodes()[k])))
        } else {
            self.inodes()[k] == old.inodes()[k]
        } by {
            assert(mid.inodes().contains_key(k));
            if old.inodes()[k].kind is Directory {
                let a = dir_map(entries_of(old.inodes()[k]));
                let b = dir_map(entries_of(mid.inodes()[k]));
                let c = dir_map(entries_of(self.inodes()[k]));
                assert(a.submap_of(b));
                assert(b.submap_of(c));
                assert(mid.inodes()[k].kind is Directory);
                vstd::map_lib::lemma_submap_of_trans(a, b, c);
            }
        }
        assert forall|k: InodeId| #[trigger]
            self.inodes().contains_key(k) && !old.inodes().contains_key(k) implies {
            &&& old.next_id() <= k < self.next_id()
            &&& self.inodes()[k].kind is Directory
            &&& self.inodes()[k].uid == uid
            &&& self.inodes()[k].mode == 0o755
        } by {
            if mid.inodes().contains_key(k) {
                assert(mid.inodes()[k].kind is Directory);
            }
        }
    }

    /// Whether making every missing directory of components `cs`, from
    /// directory `cur` on, succeeds: each name met that exists is a
    /// directory, and the ids last for the names from the first missing one
    /// on.
    pub open spec fn mkdir_p_ok(&self, cur: InodeId, cs: Seq<Seq<char>>) -> bool
        decreases cs.len(),
    {
        if cs.len() == 0 {
            true
        } else if cs[0] == seq!['.'] {
            self.mkdir_p_ok(cur, cs.drop_first())
        } else if cs[0] == seq!['.', '.'] {
            self.mkdir_p_ok(self.parent(cur), cs.drop_first())
        } else {
            match self.dir_of(cur) {
                Err(_) => false,
                Ok(es) => if dir_map(es).contains_key(cs[0]) {
                    let x = dir_map(es)[cs[0]];
                    &&& self.inodes().contains_key(x)
                    &&& self.inodes()[x].kind is Directory
                    &&& self.mkdir_p_ok(x, cs.drop_first())
                } else {
                    self.next_id() + named_count(cs) <= u64::MAX
                },
            }
        }
    }

    /// Where making the missing directories of plain components succeeds,
    /// a walk along them that succeeds ends at an existing directory.
    pub proof fn lemma_mkdir_p_ok_walk(&self, cur: InodeId, cs: Seq<Seq<char>>, q: Seq<char>)
        requires
            self.mkdir_p_ok(cur, cs),
            growth::plain_comps(cs),
            cs.len() > 0,
            self.walk(cur, cs, q) is Ok,
        ensures
            self.inodes().contains_key(self.walk(cur, cs, q)->Ok_0),
            self.inodes()[self.walk(cur, cs, q)->Ok_0].kind is Directory,
        decreases cs.len(),
    {
        reveal_strlit(".");
        reveal_strlit("..");
        assert("."@ =~= seq!['.']);
        assert(".."@ =~= seq!['.', '.']);
        assert(growth::plain_name(cs[0]));
        let es = self.dir_of(cur)->Ok_0;
        let x = dir_map(es)[cs[0]];
        let rest = cs.drop_first();
        if rest.len() > 0 {
            assert(growth::plain_comps(rest)) by {
                assert forall|k: int| 0 <= k < rest.len() implies growth::plain_name(#[trigger] rest[k]) by {
                    assert(rest[k] == cs[k + 1]);
                }
            }
            self.lemma_mkdir_p_ok_walk(x, rest, q);
        }
    }

    /// Makes a directory and every missing directory above it. New
    /// directories are made by `uid`, with the group that their parent
    /// hands down; a name on the way that is not a directory is refused.
    /// When inode ids run out, nothing more is made.
    pub fn mkdir_p(&mut self, path: &str, uid: Uid, gid: Gid) -> (r: Result<(), VfsError>)
        requires
            old(self).wf(),
        ensures
            final(self).wf(),
            final(self).grew_dirs(old(self), uid),
            final(self).next_id() <= old(self).next_id() + components(path@).len(),
            r is Ok && no_up(components(path@)) ==> {
                let cs = components(path@);
                &&& final(self).resolve(path@) is Ok
                &&& (exists|j: int| 0 <= j < cs.len() && cs[j] != seq!['.']) ==> {
                    &&& final(self).inodes().contains_key(final(self).resolve(path@)->Ok_0)
                    &&& final(self).inodes()[final(self).resolve(path@)->Ok_0].kind is Directory
                }
            },
            no_up(components(path@)) ==> (r is Ok <==> old(self).mkdir_p_ok(old(self).start(path@), components(path@))),
            r is Ok && no_up(components(path@)) && old(self).resolve(path@) is Err ==> {
                &&& final(self).resolve(path@) is Ok
                &&& final(self).inodes().contains_key(final(self).resolve(path@)->Ok_0)
                &&& final(self).inodes()[final(self).resolve(path@)->Ok_0].kind == KindView::Directory(Seq::empty())
            },
    {
        let (start, comps) = self.parse_path(path);
        let ghost old_fs = *self;
        let ghost cs = components(path@);
        let ghost nu = no_up(cs);
        let ghost ok = old_fs.mkdir_p_ok(start, cs);
        let ghost mut created = false;
        let mut cur = start;
        let mut i: usize = 0;
        proof {
            reveal_strlit("..");
            reveal_strlit(".");
            assert("."@ =~= seq!['.']);
            assert(".."@ =~= seq!['.', '.']);
            assert(self.grew_dirs(&old_fs, uid));
            assert(cs.take(0) =~= Seq::<Seq<char>>::empty());
            assert(cs.skip(0) =~= cs);
        }
        while i < comps.len()
            invariant
                self.wf(),
                old_fs == *old(self),
                self.grew_dirs(&old_fs, uid),
                i <= comps@.len(),
                comps.deep_view() == components(path@),
                cs == components(path@),
                nu == no_up(cs),
                "."@ == seq!['.'],
                ".."@ == seq!['.', '.'],
                self.next_id() <= old_fs.next_id() + i,
                nu ==> self.walk(start, cs.take(i as int), path@) == Ok::<InodeId, ErrorView>(cur),
                nu && (exists|j: int| 0 <= j < i && cs[j] != seq!['.']) ==> {
                    &&& self.inodes().contains_key(cur)
                    &&& self.inodes()[cur].kind is Directory
                },
                ok == old_fs.mkdir_p_ok(start, cs),
                start == old_fs.start(path@),
                nu && !created ==> *self == old_fs && ok == old_fs.mkdir_p_ok(cur, cs.skip(i as int)),
                nu && created ==> {
                    &&& self.inodes().contains_key(cur)
                    &&& self.inodes()[cur].kind == KindView::Directory(Seq::empty())
                    &&& ok == (self.next_id() + named_count(cs.skip(i as int)) <= u64::MAX)
                },
            decreases comps.len() - i,
        {
            let c = comps[i].as_str();
            proof {
                assert(cs.skip(i + 1) =~= cs.skip(i as int).drop_first());
                assert(cs.skip(i as int)[0] == cs[i as int]);
            }
            let ghost before_step = *self;
            let ghost cur0 = cur;
            proof {
                assert(c@ == cs[i as int]);
                assert(cs.take(i + 1) =~= cs.take(i as int).push(cs[i as int]));
                lemma_walk_push(self, start, cs.take(i as int), cs[i as int], path@);
            }
            if str_eq(c, ".") {
                proof {
                    assert forall|j: int| 0 <= j < i + 1 && cs[j] != seq!['.'] implies 0 <= j < i && cs[j] != seq!['.'] by {
                    }
                }
            } else if str_eq(c, "..") {
                cur = self.parent_of(cur);
            } else {
                proof {
                    assert(c@ != seq!['.'] && c@ != seq!['.', '.']);
                    assert(cs.skip(i as int).len() > 0);
                    assert(named_count(cs.skip(i as int)) >= 1);
                }
                let entries = match self.dir_entries(cur) {
                    Ok(es) => es,
                    Err(e) => {
                        proof {
                            if nu {
                                assert(!created);
                                assert(!old_fs.mkdir_p_ok(cur, cs.skip(i as int)));
                            }
                        }
                        return Err(e);
                    },
                };
                proof {
                    self.lemma_dir_sorted(cur);
                    if nu && created {
                        assert(entries@ =~= Seq::<(String, InodeId)>::empty());
                        assert(!dir_map(entries@).contains_key(c@));
                    }
                }
                match dir_lookup(entries, c) {
                    Some(existing) => {
                        let child = match self.get_inode(existing) {
                            Ok(ch) => ch,
                            Err(e) => {
                                proof {
                                    if nu {
                                        assert(!created);
                                        assert(!old_fs.mkdir_p_ok(cur, cs.skip(i as int)));
                                    }
                                }
                                return Err(e);
                            },
                        };
                        if !child.is_dir() {
                            return Err(VfsError::NotDirectory { path: owned(c) });
                        }
                        cur = existing;
                    },
                    None => {
                        if self.next_id == u64::MAX {
                            proof {
                                if nu && !created {
                                    assert(!old_fs.mkdir_p_ok(cur, cs.skip(i as int)));
                                }
                            }
                            return Err(VfsError::NotSupported { message: owned("inode ids exhausted") });
                        }
                        let ghost before = *self;
                        proof {
                            self.lemma_dir_sorted(cur);
                        }
                        let effective_gid = self.effective_gid(cur, gid);
                        let new_id = self.next_id;
                        self.add_inode(Inode::new_dir(new_id, uid, effective_gid));
                        let ghost mid = *self;
                        let res = self.dir_set(cur, owned(c), new_id);
                        proof {
                            assert(cur != new_id);
                            assert(mid.dir_of(cur) == before.dir_of(cur));
                            assert(res is Ok);
                            if nu {
                                assert(grows(*self, before, cur)) by {
                                    assert forall|k: InodeId|
                                        before.inodes().contains_key(k) && !set![cur].contains(k) implies #[trigger] self.inodes().contains_key(k)
                                        && self.inodes()[k] == before.inodes()[k] by {
                                        assert(mid.inodes().contains_key(k));
                                        assert(k != new_id);
                                    }
                                    let bm = dir_map(entries_of(before.inodes()[cur]));
                                    assert(before.inodes()[cur] == mid.inodes()[cur]);
                                    assert(same_meta(mid.inodes()[cur], self.inodes()[cur]));
                                    assert(bm == dir_map(entries_of(mid.inodes()[cur])));
                                    assert forall|x: Seq<char>| #[trigger] bm.contains_key(x) implies dir_map(
                                        entries_of(self.inodes()[cur]),
                                    ).contains_key(x) && bm[x] == dir_map(entries_of(self.inodes()[cur]))[x] by {
                                        assert(x != c@);
                                    }
                                }
                                assert(no_up(cs.take(i as int))) by {
                                    assert forall|j: int| 0 <= j < cs.take(i as int).len() implies #[trigger] cs.take(
                                        i as int,
                                    )[j] != seq!['.', '.'] by {
                                        assert(cs.take(i as int)[j] == cs[j]);
                                    }
                                }
                                lemma_walk_grows(*self, before, cur, start, cs.take(i as int), path@);
                                lemma_walk_push(self, start, cs.take(i as int), cs[i as int], path@);
                            }
                            assert(self.grew_dirs(&before, uid)) by {
                                assert forall|k: InodeId| #[trigger] before.inodes().contains_key(k) implies self.inodes().contains_key(k)
                                    && if before.inodes()[k].kind is Directory {
                                    &&& self.inodes()[k].kind is Directory
                                    &&& same_meta(before.inodes()[k], self.inodes()[k])
                                    &&& dir_map(entries_of(before.inodes()[k])).submap_of(
                                        dir_map(entries_of(self.inodes()[k])),
                                    )
                                } else {
                                    self.inodes()[k] == before.inodes()[k]
                                } by {
                                    assert(mid.inodes().contains_key(k));
                                    if k != cur {
                                        assert(self.inodes()[k] == mid.inodes()[k]);
                                    }
                                }
                            }
                            self.lemma_grew_dirs_trans(&before, &old_fs, uid);
                        }
                        proof {
                            assert(mid.inodes().contains_key(new_id));
                            assert(!set![cur].contains(new_id));
                            assert(self.inodes().contains_key(new_id));
                            assert(self.inodes()[new_id] == mid.inodes()[new_id]);
                            created = true;
                        }
                        cur = new_id;
                    },
                }
            }
            proof {
                if nu && (exists|j: int| 0 <= j < i + 1 && cs[j] != seq!['.']) {
                    if cs[i as int] == seq!['.'] {
                        let j = choose|j: int| 0 <= j < i + 1 && cs[j] != seq!['.'];
                        assert(j < i);
                    }
                }
            }
            i += 1;
        }
        proof {
            assert(cs.take(i as int) =~= cs);
            if nu && !created {
                assert(old_fs.resolve(path@) == Ok::<InodeId, ErrorView>(cur));
            }
        }
        Ok(())
    }
}


impl VirtualFs {
    /// One step of counting files: a file adds one to the count and its
    /// size to the total.
    pub open spec fn totals_step(&self) -> spec_fn((nat, nat), InodeId) -> (nat, nat) {
        |acc: (nat, nat), k: InodeId|
            if self.inodes()[k].kind is File {
                ((acc.0 + 1) as nat, acc.1 + view_size(self.inodes()[k]))
            } else {
                acc
            }
    }

    /// The number of files and the sum of their sizes.
    pub open spec fn file_totals(&self) -> (nat, nat) {
        self.inodes().dom().fold((0nat, 0nat), self.totals_step())
    }

    /// Counts the files and adds up their sizes.
    pub fn count_files(&self) -> (r: (u64, u64))
        requires
            self.file_totals().1 <= u64::MAX,
        ensures
            r.0 == self.file_totals().0,
            r.1 == self.file_totals().1,
    {
        let (count, total) = self.count_files_wide();
        (count, total as u64)
    }

    /// Whether the sizes of all files add up to a number that fits in a
    /// `u64`.
    pub fn totals_fit(&self) -> (r: bool)
        ensures
            r == (self.file_totals().1 <= u64::MAX),
    {
        let (_, total) = self.count_files_wide();
        total <= 0xffff_ffff_ffff_ffffu128
    }

    /// The number of files and the sum of their sizes, the sum kept wide.
    fn count_files_wide(&self) -> (r: (u64, u128))
        ensures
            r.0 == self.file_totals().0,
            r.1 == self.file_totals().1,
    {
        broadcast use vstd::seq_lib::seq_to_set_is_finite;
        let ids = self.inode_ids();
        let ghost f = self.totals_step();
        proof {
            assert(vstd::set::fold::is_fun_commutative(f)) by {
                assert forall|a1: InodeId, a2: InodeId, b: (nat, nat)| #[trigger] f(f(b, a2), a1) == f(f(b, a1), a2) by {}
            }
            assert(ids@.take(0).to_set() =~= Set::<InodeId>::empty());
            vstd::set::fold::lemma_fold_empty((0nat, 0nat), f);
        }
        let mut count: u64 = 0;
        let mut total: u128 = 0;
        let mut i: usize = 0;
        while i < ids.len()
            invariant
                i <= ids@.len(),
                ids@.no_duplicates(),
                forall|j: int| 0 <= j < ids@.len() ==> self.inodes@.dom().contains(#[trigger] ids@[j]),
                f == self.totals_step(),
                vstd::set::fold::is_fun_commutative(f),
                ids@.take(i as int).to_set().fold((0nat, 0nat), f) == (count as nat, total as nat),
                count <= i,
                total <= i * (usize::MAX as nat),
            decreases ids.len() - i,
        {
            let k = ids[i];
            let inode = self.inodes.get(&k).unwrap();
            let ghost s = ids@.take(i as int).to_set();
            proof {
                assert(ids@.take(i + 1) =~= ids@.take(i as int).push(k));
                ids@.take(i as int).lemma_push_to_set_commute(k);
                assert(!s.contains(k)) by {
                    if s.contains(k) {
                        let j = choose|j: int| 0 <= j < i && ids@.take(i as int)[j] == k;
                        assert(ids@[j] == ids@[i as int]);
                    }
                }
                vstd::set::fold::lemma_fold_insert(s, (0nat, 0nat), f, k);
                assert(self.inodes()[k] == inode@);
            }
            match &inode.kind {
                InodeKind::File { content } => {
                    let n = content.len();
                    proof {
                        assert(total + n <= (i + 1) * (usize::MAX as nat)) by (nonlinear_arith)
                            requires
                                total <= i * (usize::MAX as nat),
                                n <= usize::MAX,
                        ;
                        let m: nat = usize::MAX as nat;
                        assert((i + 1) * m <= m * m) by (nonlinear_arith)
                            requires
                                i + 1 <= m,
                        ;
                        assert(m * m < 0x1_0000_0000_0000_0000_0000_0000_0000_0000) by (nonlinear_arith)
                            requires
                                m < 0x1_0000_0000_0000_0000,
                        ;
                    }
                    count = count + 1;
                    total = total + n as u128;
                },
                _ => {
                    proof {
                        assert(total <= (i + 1) * (usize::MAX as nat)) by (nonlinear_arith)
                            requires
                                total <= i * (usize::MAX as nat),
                        ;
                    }
                },
            }
            i += 1;
        }
        proof {
            assert(ids@.take(ids@.len() as int) =~= ids@);
            assert(ids@.to_set() =~= self.inodes().dom()) by {
                assert forall|k: InodeId| ids@.to_set().contains(k) <==> self.inodes().dom().contains(k) by {
                    if self.inodes().dom().contains(k) {
                        assert(self.inodes@.dom().contains(k));
                    }
                }
            }
        }
        (count, total)
    }
}

} // verus!
