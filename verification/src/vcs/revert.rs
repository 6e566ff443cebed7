//! Rebuilding the file system from a tree in the store.

use vstd::prelude::*;
use crate::codec::at;
use crate::error::{ErrorView, VfsError};
use crate::fs::growth::{
    grows, lemma_components_push, lemma_components_root, lemma_grows_nested, lemma_grows_trans,
    lemma_plain_no_up, lemma_walk_grows, lemma_walk_path, lemma_walk_push, plain_comps, plain_name,
};
use crate::fs::inode::{InodeId, KindView};
use crate::fs::{components, entries_of, is_abs, is_markdown, join_comps, last_segment, VirtualFs};
use crate::text::has_suffix;
use crate::listing::dir_map;
use crate::store::blob::{BlobStore, StoreView};
use crate::store::tree::{enc_tree, entries_wf, entry_wf, EntryView, TreeEntryKind, TreeObject};
use crate::store::ObjectId;
use crate::text::{owned, push_str, utf8_lossy, utf8_lossy_string};

verus! {

broadcast use crate::store::lemma_id_len;

/// The entries of the tree stored under `t`, if the bytes there start a
/// tree's encoding.
pub open spec fn stored_tree(m: StoreView, t: Seq<u8>) -> Option<Seq<EntryView>> {
    if m.contains_key(t) && exists|es: Seq<EntryView>| entries_wf(es) && #[trigger] at(m[t].1, 0, enc_tree(es)) {
        Some(choose|es: Seq<EntryView>| entries_wf(es) && #[trigger] at(m[t].1, 0, enc_tree(es)))
    } else {
        None
    }
}

/// Entries whose names are plain and distinct.
pub open spec fn plain_entries(es: Seq<EntryView>) -> bool {
    &&& forall|i: int| 0 <= i < es.len() ==> plain_name(#[trigger] es[i].name)
    &&& forall|i: int, j: int| 0 <= i < j < es.len() ==> #[trigger] es[i].name != #[trigger] es[j].name
}

/// Every tree reached from `t` within `fuel` levels has plain, distinct
/// names.
pub open spec fn tree_simple(m: StoreView, t: Seq<u8>, fuel: nat) -> bool
    decreases fuel,
{
    fuel == 0 || match stored_tree(m, t) {
        None => true,
        Some(es) => {
            &&& plain_entries(es)
            &&& forall|i: int|
                0 <= i < es.len() && es[i].kind is Tree ==> tree_simple(m, #[trigger] es[i].id, (fuel - 1) as nat)
        },
    }
}

/// Directory `d` of `fs` holds the tree stored under `t`: every entry is
/// listed under its name, as `holds_entry` says.
pub open spec fn holds_tree(fs: VirtualFs, d: InodeId, m: StoreView, t: Seq<u8>, fuel: nat) -> bool
    decreases fuel, 1nat,
{
    &&& fuel > 0
    &&& stored_tree(m, t) is Some
    &&& fs.inodes().contains_key(d)
    &&& fs.inodes()[d].kind is Directory
    &&& forall|i: int|
        0 <= i < stored_tree(m, t)->0.len() ==> holds_entry(fs, d, m, #[trigger] stored_tree(m, t)->0[i], (fuel - 1) as nat)
}

/// Inode `k` of `fs` holds tree entry `e`: it is owned by root (uid and
/// gid 0) and is a file with the stored bytes and the entry's mode, a
/// directory with the entry's mode holding its tree, or a link to the
/// stored target (its bytes read as UTF-8, invalid sequences replaced).
pub open spec fn holds_inode(fs: VirtualFs, k: InodeId, m: StoreView, e: EntryView, fuel: nat) -> bool
    decreases fuel, 2nat,
{
    let v = fs.inodes()[k];
    &&& fs.inodes().contains_key(k)
    &&& v.uid == 0
    &&& v.gid == 0
    &&& match e.kind {
        TreeEntryKind::Blob => m.contains_key(e.id) && v.kind == KindView::File(m[e.id].1) && v.mode == e.mode,
        TreeEntryKind::Tree => holds_tree(fs, k, m, e.id, fuel) && v.mode == e.mode,
        TreeEntryKind::Symlink => {
            &&& m.contains_key(e.id)
            &&& v.kind == KindView::Symlink(utf8_lossy(m[e.id].1))
            &&& vstd::utf8::valid_utf8(m[e.id].1) ==> v.kind == KindView::Symlink(vstd::utf8::decode_utf8(m[e.id].1))
        },
    }
}

/// Directory `d` of `fs` holds tree entry `e`: it lists the entry's name
/// for an inode that holds the entry.
pub open spec fn holds_entry(fs: VirtualFs, d: InodeId, m: StoreView, e: EntryView, fuel: nat) -> bool
    decreases fuel, 3nat,
{
    let dm = dir_map(entries_of(fs.inodes()[d]));
    &&& dm.contains_key(e.name)
    &&& holds_inode(fs, dm[e.name], m, e, fuel)
}

/// Directory `d` of `fs` lists only names of entries of the tree stored
/// under `t`, and so does every directory of that tree below it; every
/// inode among them has an id in `lo .. hi`.
pub open spec fn only_tree(fs: VirtualFs, d: InodeId, m: StoreView, t: Seq<u8>, fuel: nat, lo: nat, hi: nat) -> bool
    decreases fuel,
{
    let es = stored_tree(m, t)->0;
    let dm = dir_map(entries_of(fs.inodes()[d]));
    &&& fuel > 0
    &&& stored_tree(m, t) is Some
    &&& lo <= d < hi
    &&& fs.inodes().contains_key(d)
    &&& forall|x: Seq<char>|
        #[trigger] dm.contains_key(x) ==> lo <= dm[x] < hi && exists|i: int| 0 <= i < es.len() && es[i].name == x
    &&& forall|i: int|
        0 <= i < es.len() && dm.contains_key(#[trigger] es[i].name) && es[i].kind is Tree ==> only_tree(
            fs,
            dm[es[i].name],
            m,
            es[i].id,
            (fuel - 1) as nat,
            lo,
            hi,
        )
}

/// What lists only a tree's names keeps doing so while the file system
/// grows around a directory outside it.
proof fn lemma_only_grows(new: VirtualFs, old: VirtualFs, g: InodeId, d: InodeId, m: StoreView, t: Seq<u8>, fuel: nat, lo: nat, hi: nat)
    requires
        grows(new, old, g),
        g < lo,
        only_tree(old, d, m, t, fuel, lo, hi),
    ensures
        only_tree(new, d, m, t, fuel, lo, hi),
    decreases fuel,
{
    assert(d != g);
    assert(!set![g].contains(d));
    assert(old.inodes().contains_key(d));
    assert(new.inodes().contains_key(d) && new.inodes()[d] == old.inodes()[d]);
    let es = stored_tree(m, t)->0;
    let dm = dir_map(entries_of(old.inodes()[d]));
    assert forall|i: int|
        0 <= i < es.len() && dm.contains_key(#[trigger] es[i].name) && es[i].kind is Tree implies only_tree(
            new,
            dm[es[i].name],
            m,
            es[i].id,
            (fuel - 1) as nat,
            lo,
            hi,
        ) by {
        lemma_only_grows(new, old, g, dm[es[i].name], m, es[i].id, (fuel - 1) as nat, lo, hi);
    }
}

/// A wider range of ids still holds a tree that lists only its names.
proof fn lemma_only_widen(fs: VirtualFs, d: InodeId, m: StoreView, t: Seq<u8>, fuel: nat, lo: nat, hi: nat, lo2: nat, hi2: nat)
    requires
        only_tree(fs, d, m, t, fuel, lo, hi),
        lo2 <= lo,
        hi <= hi2,
    ensures
        only_tree(fs, d, m, t, fuel, lo2, hi2),
    decreases fuel,
{
    let es = stored_tree(m, t)->0;
    let dm = dir_map(entries_of(fs.inodes()[d]));
    assert forall|i: int|
        0 <= i < es.len() && dm.contains_key(#[trigger] es[i].name) && es[i].kind is Tree implies only_tree(
            fs,
            dm[es[i].name],
            m,
            es[i].id,
            (fuel - 1) as nat,
            lo2,
            hi2,
        ) by {
        lemma_only_widen(fs, dm[es[i].name], m, es[i].id, (fuel - 1) as nat, lo, hi, lo2, hi2);
    }
}

/// What a directory holds stays held while the file system grows.
proof fn lemma_tree_grows(new: VirtualFs, old: VirtualFs, g: InodeId, d: InodeId, m: StoreView, t: Seq<u8>, fuel: nat)
    requires
        grows(new, old, g),
        holds_tree(old, d, m, t, fuel),
    ensures
        holds_tree(new, d, m, t, fuel),
    decreases fuel, 1nat,
{
    let es = stored_tree(m, t)->0;
    if d != g {
        assert(!set![g].contains(d));
        assert(new.inodes().contains_key(d));
        assert(new.inodes()[d] == old.inodes()[d]);
    }
    assert forall|i: int| 0 <= i < es.len() implies holds_entry(new, d, m, #[trigger] es[i], (fuel - 1) as nat) by {
        lemma_entry_grows(new, old, g, d, m, es[i], (fuel - 1) as nat);
    }
}

/// An entry a directory holds stays held while the file system grows.
proof fn lemma_entry_grows(new: VirtualFs, old: VirtualFs, g: InodeId, d: InodeId, m: StoreView, e: EntryView, fuel: nat)
    requires
        grows(new, old, g),
        old.inodes().contains_key(d),
        holds_entry(old, d, m, e, fuel),
    ensures
        holds_entry(new, d, m, e, fuel),
    decreases fuel, 2nat,
{
    let om = dir_map(entries_of(old.inodes()[d]));
    let nm = dir_map(entries_of(new.inodes()[d]));
    if d != g {
        assert(!set![g].contains(d));
        assert(new.inodes().contains_key(d));
        assert(new.inodes()[d] == old.inodes()[d]);
    } else {
        assert(om.submap_of(nm));
        assert(om.dom().contains(e.name));
        assert(om.dom().subset_of(nm.dom()));
        assert(nm.dom().contains(e.name));
        assert(nm[e.name] == om[e.name]);
    }
    assert(nm.contains_key(e.name) && nm[e.name] == om[e.name]);
    let c = om[e.name];
    if c != g {
        assert(!set![g].contains(c));
        assert(new.inodes().contains_key(c));
        assert(new.inodes()[c] == old.inodes()[c]);
    }
    match e.kind {
        TreeEntryKind::Tree => {
            lemma_tree_grows(new, old, g, c, m, e.id, fuel);
        },
        _ => {},
    }
}

/// The number of inodes that rebuilding the tree stored under `t` makes,
/// looking at most `fuel` trees deep.
pub open spec fn tree_size(m: StoreView, t: Seq<u8>, fuel: nat) -> nat
    decreases fuel, 0nat, 0nat,
{
    if fuel == 0 {
        0
    } else {
        match stored_tree(m, t) {
            None => 0,
            Some(es) => entries_size(m, es, (fuel - 1) as nat),
        }
    }
}

/// The number of inodes that rebuilding the entries `es` makes.
pub open spec fn entries_size(m: StoreView, es: Seq<EntryView>, fuel: nat) -> nat
    decreases fuel, 1nat, es.len(),
{
    if es.len() == 0 {
        0
    } else {
        entries_size(m, es.drop_last(), fuel) + 1 + (if es.last().kind is Tree {
            tree_size(m, es.last().id, fuel)
        } else {
            0
        })
    }
}

/// Everything that rebuilding the tree stored under `t` reads is there:
/// each tree is stored and decodes, each file's bytes and each link's
/// target are stored, and each file has a Markdown name.
pub open spec fn tree_complete(m: StoreView, t: Seq<u8>, fuel: nat) -> bool
    decreases fuel, 0nat,
{
    &&& fuel > 0
    &&& stored_tree(m, t) is Some
    &&& forall|i: int|
        0 <= i < stored_tree(m, t)->0.len() ==> entry_complete(m, #[trigger] stored_tree(m, t)->0[i], (fuel - 1) as nat)
}

/// Everything that rebuilding entry `e` reads is there.
pub open spec fn entry_complete(m: StoreView, e: EntryView, fuel: nat) -> bool
    decreases fuel, 1nat,
{
    match e.kind {
        TreeEntryKind::Blob => m.contains_key(e.id) && has_suffix(e.name, ".md"@),
        TreeEntryKind::Tree => tree_complete(m, e.id, fuel),
        TreeEntryKind::Symlink => m.contains_key(e.id),
    }
}

/// One more entry adds its inode and those of its tree.
proof fn lemma_entries_size_step(m: StoreView, es: Seq<EntryView>, i: int, fuel: nat)
    requires
        0 <= i < es.len(),
    ensures
        entries_size(m, es.take(i + 1), fuel) == entries_size(m, es.take(i), fuel) + 1 + (if es[i].kind is Tree {
            tree_size(m, es[i].id, fuel)
        } else {
            0
        }),
{
    assert(es.take(i + 1).drop_last() =~= es.take(i));
    assert(es.take(i + 1).last() == es[i]);
}

/// A prefix of entries makes no more inodes than all of them.
proof fn lemma_entries_size_prefix(m: StoreView, es: Seq<EntryView>, j: int, fuel: nat)
    requires
        0 <= j <= es.len(),
    ensures
        entries_size(m, es.take(j), fuel) <= entries_size(m, es, fuel),
    decreases es.len() - j,
{
    if j < es.len() {
        lemma_entries_size_step(m, es, j, fuel);
        lemma_entries_size_prefix(m, es, j + 1, fuel);
    } else {
        assert(es.take(j) =~= es);
    }
}

/// The last segment of the path of a plain name in a directory is the name.
proof fn lemma_child_segment(dir: Seq<char>, name: Seq<char>)
    requires
        plain_name(name),
    ensures
        last_segment(entry_path_spec(dir, name)) == name,
{
    reveal_strlit("/");
    assert("/"@ =~= seq!['/']);
    let x = if dir == "/"@ {
        Seq::<char>::empty()
    } else {
        dir
    };
    let child = entry_path_spec(dir, name);
    assert(child =~= x + seq!['/'] + name);
    let i0 = x.len() as int;
    assert(child[i0] == '/');
    assert forall|j: int| i0 < j < child.len() implies child[j] != '/' by {
        assert(child[j] == name[j - i0 - 1]);
        if name[j - i0 - 1] == '/' {
            assert(name.contains('/'));
        }
    }
    let i = choose|i: int| 0 <= i < child.len() && child[i] == '/' && forall|j: int| i < j < child.len() ==> child[j] != '/';
    assert(i == i0) by {
        if i < i0 {
            assert(child[i0] != '/');
        }
        if i > i0 {
            assert(child[i] != '/');
        }
    }
    assert(child.subrange(i0 + 1, child.len() as int) =~= name);
}

/// `d`, an empty directory of group 0, is where `dir` leads by plain names.
pub open spec fn restorable(fs: VirtualFs, dir: Seq<char>, d: InodeId) -> bool {
    &&& is_abs(dir)
    &&& plain_comps(components(dir))
    &&& fs.resolve(dir) == Ok::<InodeId, ErrorView>(d)
    &&& fs.inodes().contains_key(d)
    &&& fs.inodes()[d].kind == KindView::Directory(Seq::empty())
    &&& fs.inodes()[d].gid == 0
}

/// The path of entry `name` in directory `dir`.
pub open spec fn entry_path_spec(dir: Seq<char>, name: Seq<char>) -> Seq<char> {
    if dir == "/"@ {
        "/"@ + name
    } else {
        dir + "/"@ + name
    }
}

/// How the path of a plain name in a restorable directory resolves once the
/// file system grew around it.
proof fn lemma_child(fs: VirtualFs, old: VirtualFs, dir: Seq<char>, d: InodeId, name: Seq<char>)
    requires
        restorable(old, dir, d),
        grows(fs, old, d),
        plain_name(name),
    ensures
        ({
            let child = entry_path_spec(dir, name);
            let dm = dir_map(entries_of(fs.inodes()[d]));
            &&& is_abs(child)
            &&& components(child) == components(dir).push(name)
            &&& plain_comps(components(child))
            &&& fs.resolve_parent_spec(child) == Ok::<(InodeId, Seq<char>), ErrorView>((d, name))
            &&& fs.resolve(child) == (if dm.contains_key(name) {
                Ok::<InodeId, ErrorView>(dm[name])
            } else {
                Err(ErrorView::NotFound(child))
            })
        }),
{
    reveal_strlit("/");
    reveal_strlit(".");
    reveal_strlit("..");
    assert("/"@ =~= seq!['/']);
    assert("."@ =~= seq!['.']);
    assert(".."@ =~= seq!['.', '.']);
    let child = entry_path_spec(dir, name);
    if dir == "/"@ {
        lemma_components_root();
        lemma_components_push(Seq::<char>::empty(), name);
        assert(Seq::<char>::empty() + seq!['/'] + name =~= child);
    } else {
        lemma_components_push(dir, name);
    }
    assert(child[0] == '/');
    let cs = components(dir);
    assert(components(child) == cs.push(name));
    assert(plain_comps(components(child))) by {
        assert forall|i: int| 0 <= i < cs.push(name).len() implies plain_name(#[trigger] cs.push(name)[i]) by {
            if i < cs.len() {
                assert(cs.push(name)[i] == cs[i]);
            }
        }
    }
    lemma_plain_no_up(cs);
    lemma_walk_grows(fs, old, d, old.root(), cs, dir);
    lemma_walk_path(&fs, fs.root(), cs, dir, child);
    assert(cs.push(name).drop_last() =~= cs);
    lemma_walk_push(&fs, fs.root(), cs, name, child);
}

/// A new entry `name` for the fresh inode `n` in directory `d`: the file
/// system grew around `d`.
proof fn lemma_new_entry(s1: VirtualFs, s0: VirtualFs, d: InodeId, name: Seq<char>, n: InodeId)
    requires
        s0.wf(),
        s0.inodes().contains_key(d),
        s0.inodes()[d].kind is Directory,
        !dir_map(entries_of(s0.inodes()[d])).contains_key(name),
        n == s0.next_id(),
        s1.frame(&s0),
        s1.keeps_others(&s0, set![d, n]),
        s1.relisted(&s0, d, dir_map(entries_of(s0.inodes()[d])).insert(name, n)),
        s1.inodes().dom() == s0.inodes().dom().insert(n),
    ensures
        grows(s1, s0, d),
        !s0.inodes().contains_key(n),
        s1.inodes().contains_key(n),
        dir_map(entries_of(s1.inodes()[d])) == dir_map(entries_of(s0.inodes()[d])).insert(name, n),
{
    assert(!s0.inodes().contains_key(n)) by {
        if s0.inodes().contains_key(n) {
            s0.lemma_id_below(n);
        }
    }
    assert forall|k: InodeId|
        s0.inodes().contains_key(k) && !set![d].contains(k) implies #[trigger] s1.inodes().contains_key(k)
        && s1.inodes()[k] == s0.inodes()[k] by {
        assert(k != n);
        assert(!set![d, n].contains(k));
        assert(s1.inodes().contains_key(k));
    }
}

/// A change to the inode `n`, new since `s0`, keeps growth around `d`.
proof fn lemma_changed_new(s2: VirtualFs, s1: VirtualFs, s0: VirtualFs, d: InodeId, n: InodeId)
    requires
        grows(s1, s0, d),
        s2.frame(&s1),
        !s0.inodes().contains_key(n),
        s1.inodes().contains_key(n),
        n != d,
        s2.inodes() == s1.inodes().insert(n, s2.inodes()[n]),
    ensures
        grows(s2, s0, d),
        s2.inodes()[d] == s1.inodes()[d],
{
    assert(s2.inodes()[d] == s1.inodes()[d]);
    assert forall|k: InodeId|
        s0.inodes().contains_key(k) && !set![d].contains(k) implies #[trigger] s2.inodes().contains_key(k)
        && s2.inodes()[k] == s0.inodes()[k] by {
        assert(k != n);
        assert(s1.inodes().contains_key(k));
        assert(s2.inodes()[k] == s1.inodes()[k]);
    }
}

/// The bytes of the file that components `cs` name in the tree stored
/// under `t`, looking at most `fuel` trees deep.
pub open spec fn tree_file(m: StoreView, t: Seq<u8>, cs: Seq<Seq<char>>, fuel: nat) -> Option<Seq<u8>>
    decreases cs.len(),
{
    if fuel == 0 || cs.len() == 0 || stored_tree(m, t) is None {
        None
    } else {
        let es = stored_tree(m, t)->0;
        if exists|i: int| 0 <= i < es.len() && #[trigger] es[i].name == cs[0] {
            let i = choose|i: int| 0 <= i < es.len() && #[trigger] es[i].name == cs[0];
            if cs.len() == 1 {
                if es[i].kind is Blob && m.contains_key(es[i].id) {
                    Some(m[es[i].id].1)
                } else {
                    None
                }
            } else if es[i].kind is Tree {
                tree_file(m, es[i].id, cs.drop_first(), (fuel - 1) as nat)
            } else {
                None
            }
        } else {
            None
        }
    }
}

/// The entry that components `cs` name in the tree stored under `t`,
/// passing through trees, looking at most `fuel` trees deep.
pub open spec fn tree_entry(m: StoreView, t: Seq<u8>, cs: Seq<Seq<char>>, fuel: nat) -> Option<EntryView>
    decreases cs.len(),
{
    if fuel == 0 || cs.len() == 0 || stored_tree(m, t) is None {
        None
    } else {
        let es = stored_tree(m, t)->0;
        if exists|i: int| 0 <= i < es.len() && #[trigger] es[i].name == cs[0] {
            let i = choose|i: int| 0 <= i < es.len() && #[trigger] es[i].name == cs[0];
            if cs.len() == 1 {
                Some(es[i])
            } else if es[i].kind is Tree {
                tree_entry(m, es[i].id, cs.drop_first(), (fuel - 1) as nat)
            } else {
                None
            }
        } else {
            None
        }
    }
}

/// The number of levels still open below the entry that `cs` names.
pub open spec fn entry_fuel(fuel: nat, cs: Seq<Seq<char>>) -> nat {
    if fuel >= cs.len() {
        (fuel - cs.len()) as nat
    } else {
        0
    }
}

/// Where plain components lead from a directory that holds tree `t` and
/// lists only its names, the tree has an entry under those components.
pub proof fn lemma_walk_listed(
    fs: VirtualFs,
    d: InodeId,
    m: StoreView,
    t: Seq<u8>,
    cs: Seq<Seq<char>>,
    fuel: nat,
    lo: nat,
    hi: nat,
    p: Seq<char>,
)
    requires
        holds_tree(fs, d, m, t, fuel),
        only_tree(fs, d, m, t, fuel, lo, hi),
        plain_comps(cs),
        cs.len() > 0,
        fs.walk(d, cs, p) is Ok,
    ensures
        tree_entry(m, t, cs, fuel) is Some,
    decreases cs.len(),
{
    let es = stored_tree(m, t)->0;
    let dm = dir_map(entries_of(fs.inodes()[d]));
    let c0 = cs[0];
    assert(plain_name(c0));
    assert(c0 != "."@ && c0 != ".."@) by {
        reveal_strlit(".");
        reveal_strlit("..");
        assert("."@ =~= seq!['.']);
        assert(".."@ =~= seq!['.', '.']);
    }
    assert(fs.step(d, c0, p) is Ok);
    assert(dm.contains_key(c0));
    let child = dm[c0];
    assert(exists|i: int| 0 <= i < es.len() && #[trigger] es[i].name == c0);
    let i = choose|i: int| 0 <= i < es.len() && #[trigger] es[i].name == cs[0];
    assert(holds_entry(fs, d, m, es[i], (fuel - 1) as nat));
    if cs.len() > 1 {
        let rest = cs.drop_first();
        assert(plain_comps(rest)) by {
            assert forall|k: int| 0 <= k < rest.len() implies plain_name(#[trigger] rest[k]) by {
                assert(rest[k] == cs[k + 1]);
            }
        }
        assert(rest[0] != "."@ && rest[0] != ".."@) by {
            assert(plain_name(rest[0]));
            reveal_strlit(".");
            reveal_strlit("..");
            assert("."@ =~= seq!['.']);
            assert(".."@ =~= seq!['.', '.']);
        }
        assert(fs.walk(child, rest, p) is Ok);
        assert(fs.inodes()[child].kind is Directory) by {
            if !(fs.inodes()[child].kind is Directory) {
                assert(fs.step(child, rest[0], p) is Err);
            }
        }
        assert(es[i].kind is Tree);
        lemma_walk_listed(fs, child, m, es[i].id, rest, (fuel - 1) as nat, lo, hi, p);
    }
}

/// From a directory that holds a tree, plain components that name an entry
/// of the tree lead to an inode that holds the entry.
pub proof fn lemma_walk_entry(
    fs: VirtualFs,
    d: InodeId,
    m: StoreView,
    t: Seq<u8>,
    cs: Seq<Seq<char>>,
    fuel: nat,
    p: Seq<char>,
)
    requires
        holds_tree(fs, d, m, t, fuel),
        plain_comps(cs),
        tree_entry(m, t, cs, fuel) is Some,
    ensures
        fs.walk(d, cs, p) is Ok,
        holds_inode(fs, fs.walk(d, cs, p)->Ok_0, m, tree_entry(m, t, cs, fuel)->0, entry_fuel(fuel, cs)),
    decreases cs.len(),
{
    let es = stored_tree(m, t)->0;
    let i = choose|i: int| 0 <= i < es.len() && #[trigger] es[i].name == cs[0];
    assert(holds_entry(fs, d, m, es[i], (fuel - 1) as nat));
    let dm = dir_map(entries_of(fs.inodes()[d]));
    let c = dm[cs[0]];
    assert(plain_name(cs[0]));
    assert(cs[0] != "."@ && cs[0] != ".."@) by {
        reveal_strlit(".");
        reveal_strlit("..");
        assert("."@ =~= seq!['.']);
        assert(".."@ =~= seq!['.', '.']);
    }
    assert(fs.step(d, cs[0], p) == Ok::<InodeId, ErrorView>(c));
    if cs.len() == 1 {
        assert(cs.drop_first().len() == 0);
        assert(fs.walk(c, cs.drop_first(), p) == Ok::<InodeId, ErrorView>(c));
        assert(entry_fuel(fuel, cs) == (fuel - 1) as nat);
    } else {
        assert(plain_comps(cs.drop_first())) by {
            assert forall|k: int| 0 <= k < cs.drop_first().len() implies plain_name(#[trigger] cs.drop_first()[k]) by {
                assert(cs.drop_first()[k] == cs[k + 1]);
            }
        }
        assert(holds_inode(fs, c, m, es[i], (fuel - 1) as nat));
        lemma_walk_entry(fs, c, m, es[i].id, cs.drop_first(), (fuel - 1) as nat, p);
        assert(entry_fuel((fuel - 1) as nat, cs.drop_first()) == entry_fuel(fuel, cs));
    }
}

/// From a directory that holds a tree, plain components that name a file
/// of the tree lead to a file with its bytes.
proof fn lemma_walk_tree(fs: VirtualFs, d: InodeId, m: StoreView, t: Seq<u8>, cs: Seq<Seq<char>>, fuel: nat, p: Seq<char>)
    requires
        holds_tree(fs, d, m, t, fuel),
        plain_comps(cs),
        tree_file(m, t, cs, fuel) is Some,
    ensures
        fs.walk(d, cs, p) is Ok,
        fs.inodes().contains_key(fs.walk(d, cs, p)->Ok_0),
        fs.inodes()[fs.walk(d, cs, p)->Ok_0].kind == KindView::File(tree_file(m, t, cs, fuel)->0),
    decreases cs.len(),
{
    let es = stored_tree(m, t)->0;
    let i = choose|i: int| 0 <= i < es.len() && #[trigger] es[i].name == cs[0];
    assert(holds_entry(fs, d, m, es[i], (fuel - 1) as nat));
    let dm = dir_map(entries_of(fs.inodes()[d]));
    let c = dm[cs[0]];
    assert(plain_name(cs[0]));
    assert(cs[0] != "."@ && cs[0] != ".."@) by {
        reveal_strlit(".");
        reveal_strlit("..");
        assert("."@ =~= seq!['.']);
        assert(".."@ =~= seq!['.', '.']);
    }
    assert(fs.step(d, cs[0], p) == Ok::<InodeId, ErrorView>(c));
    if cs.len() == 1 {
        assert(cs.drop_first().len() == 0);
        assert(fs.walk(c, cs.drop_first(), p) == Ok::<InodeId, ErrorView>(c));
    } else {
        assert(plain_comps(cs.drop_first())) by {
            assert forall|k: int| 0 <= k < cs.drop_first().len() implies plain_name(#[trigger] cs.drop_first()[k]) by {
                assert(cs.drop_first()[k] == cs[k + 1]);
            }
        }
        lemma_walk_tree(fs, c, m, es[i].id, cs.drop_first(), (fuel - 1) as nat, p);
    }
}

/// The path that joins plain components under the root splits back into
/// them.
pub proof fn lemma_components_join(cs: Seq<Seq<char>>)
    requires
        plain_comps(cs),
    ensures
        components("/"@ + join_comps(cs)) == cs,
        is_abs("/"@ + join_comps(cs)),
    decreases cs.len(),
{
    reveal_strlit("/");
    assert("/"@ =~= seq!['/']);
    let path = "/"@ + join_comps(cs);
    assert(path[0] == '/');
    if cs.len() == 0 {
        lemma_components_root();
        assert(path =~= seq!['/']);
    } else if cs.len() == 1 {
        lemma_components_root();
        assert(!cs[0].contains('/') && cs[0].len() > 0);
        lemma_components_push(Seq::<char>::empty(), cs[0]);
        assert(Seq::<char>::empty() + seq!['/'] + cs[0] =~= path);
        assert(Seq::<Seq<char>>::empty().push(cs[0]) =~= cs);
    } else {
        let pre = cs.drop_last();
        assert(plain_comps(pre)) by {
            assert forall|k: int| 0 <= k < pre.len() implies plain_name(#[trigger] pre[k]) by {
                assert(pre[k] == cs[k]);
            }
        }
        lemma_components_join(pre);
        assert(plain_name(cs[cs.len() - 1]));
        lemma_components_push("/"@ + join_comps(pre), cs.last());
        assert(("/"@ + join_comps(pre)) + seq!['/'] + cs.last() =~= path);
        assert(pre.push(cs.last()) =~= cs);
    }
}

/// Reading, under the root, the path of a file that a held tree records
/// gives the bytes stored for it.
pub proof fn lemma_tree_reads(fs: VirtualFs, m: StoreView, t: Seq<u8>, cs: Seq<Seq<char>>, fuel: nat)
    requires
        holds_tree(fs, fs.root(), m, t, fuel),
        plain_comps(cs),
        tree_file(m, t, cs, fuel) is Some,
    ensures
        fs.read("/"@ + join_comps(cs)) == Ok::<Seq<u8>, ErrorView>(tree_file(m, t, cs, fuel)->0),
{
    let path = "/"@ + join_comps(cs);
    lemma_components_join(cs);
    lemma_walk_tree(fs, fs.root(), m, t, cs, fuel, path);
    assert(fs.resolve(path) == fs.walk(fs.root(), cs, path));
}

/// The path of entry `name` in directory `dir_path`.
fn entry_path(dir_path: &str, name: &str) -> (r: String)
    ensures
        r@ == entry_path_spec(dir_path@, name@),
{
    let mut p = if crate::text::str_eq(dir_path, "/") {
        String::new()
    } else {
        owned(dir_path)
    };
    proof {
        reveal_strlit("/");
    }
    push_str(&mut p, "/");
    push_str(&mut p, name);
    p
}

/// Replaces the file system with a fresh one (root directory, fresh
/// registry) and rebuilds the tree `root_tree_id` under its root: files
/// with their content and mode, directories with their mode, links with
/// their target, all owned by root. Where every tree reached has plain,
/// distinct names, a rebuild that succeeds leaves the root holding the tree
/// and listing nothing else.
pub fn restore_from_tree(fs: &mut VirtualFs, store: &BlobStore, root_tree_id: ObjectId) -> (r: Result<(), VfsError>)
    requires
        store.inv(),
    ensures
        final(fs).wf(),
        r is Ok && tree_simple(store@, root_tree_id@, usize::MAX as nat) ==> holds_tree(
            *final(fs),
            final(fs).root(),
            store@,
            root_tree_id@,
            usize::MAX as nat,
        ),
        r is Ok && tree_simple(store@, root_tree_id@, usize::MAX as nat) ==> only_tree(
            *final(fs),
            final(fs).root(),
            store@,
            root_tree_id@,
            usize::MAX as nat,
            final(fs).root() as nat,
            final(fs).next_id() as nat,
        ),
        tree_simple(store@, root_tree_id@, usize::MAX as nat) && tree_complete(store@, root_tree_id@, usize::MAX as nat)
            && 1 + tree_size(store@, root_tree_id@, usize::MAX as nat) <= u64::MAX ==> r is Ok,
        final(fs).cwd() == final(fs).root(),
        final(fs).cwd_path() == Seq::<(Seq<char>, InodeId)>::empty(),
{
    *fs = VirtualFs::new();
    let fuel = usize::MAX;
    proof {
        reveal_strlit("/");
        assert("/"@ =~= seq!['/']);
        lemma_components_root();
        assert(restorable(*fs, "/"@, fs.root()));
    }
    let ghost start = *fs;
    restore_dir(fs, store, "/", Ghost(start.root()), root_tree_id, fuel)?;
    Ok(())
}

/// Rebuilds the entries of tree `tree_id` in directory `d`, which
/// `dir_path` leads to, descending at most `fuel` levels. Where `d` is an
/// empty directory that plain names lead to and every tree reached has
/// plain, distinct names, a rebuild that succeeds only adds to `d` and
/// leaves it holding the tree, with nothing but the tree's names listed in
/// it and in the directories made below it.
#[verifier::rlimit(40)]
fn restore_dir(
    fs: &mut VirtualFs,
    store: &BlobStore,
    dir_path: &str,
    Ghost(d): Ghost<InodeId>,
    tree_id: ObjectId,
    fuel: usize,
) -> (r: Result<(), VfsError>)
    requires
        old(fs).wf(),
        store.inv(),
    ensures
        final(fs).wf(),
        final(fs).frame(old(fs)),
        r is Ok && restorable(*old(fs), dir_path@, d) && tree_simple(store@, tree_id@, fuel as nat) ==> {
            &&& grows(*final(fs), *old(fs), d)
            &&& only_tree(*final(fs), d, store@, tree_id@, fuel as nat, d as nat, final(fs).next_id() as nat)
            &&& holds_tree(*final(fs), d, store@, tree_id@, fuel as nat)
            &&& final(fs).next_id() == old(fs).next_id() + tree_size(store@, tree_id@, fuel as nat)
        },
        restorable(*old(fs), dir_path@, d) && tree_simple(store@, tree_id@, fuel as nat) && tree_complete(
            store@,
            tree_id@,
            fuel as nat,
        ) && old(fs).next_id() + tree_size(store@, tree_id@, fuel as nat) <= u64::MAX ==> r is Ok,
    decreases fuel,
{
    let ghost good = restorable(*fs, dir_path@, d) && tree_simple(store@, tree_id@, fuel as nat) && tree_complete(
        store@,
        tree_id@,
        fuel as nat,
    ) && fs.next_id() + tree_size(store@, tree_id@, fuel as nat) <= u64::MAX;
    if fuel == 0 {
        return Err(VfsError::CorruptStore { message: owned("tree nesting too deep") });
    }
    let tree_data = store.get(&tree_id)?;
    let tree = match TreeObject::deserialize(tree_data) {
        Ok(t) => t,
        Err(msg) => {
            proof {
                if good {
                    let c = choose|es: Seq<EntryView>| entries_wf(es) && #[trigger] at(store@[tree_id@].1, 0, enc_tree(es));
                    assert(entries_wf(c) && at(store@[tree_id@].1, 0, enc_tree(c)));
                }
            }
            let mut message = owned("failed to deserialize tree: ");
            push_str(&mut message, msg.as_str());
            return Err(VfsError::CorruptStore { message });
        },
    };
    let ghost m = store@;
    let ghost old_fs = *fs;
    let ghost simple = restorable(old_fs, dir_path@, d) && tree_simple(m, tree_id@, fuel as nat);
    proof {
        assert(entries_wf(tree@)) by {
            assert forall|i: int| 0 <= i < tree@.len() implies entry_wf(#[trigger] tree@[i]) by {
                assert(tree@[i].id == tree.entries@[i].id@);
            }
        }
        assert(at(m[tree_id@].1, 0, enc_tree(tree@)));
        let c = choose|es: Seq<EntryView>| entries_wf(es) && #[trigger] at(m[tree_id@].1, 0, enc_tree(es));
        assert(entries_wf(c) && at(m[tree_id@].1, 0, enc_tree(c)));
        assert(stored_tree(m, tree_id@) == Some(tree@));
        if simple {
            assert(dir_map(entries_of(old_fs.inodes()[d])) =~= Map::<Seq<char>, InodeId>::empty());
            lemma_grows_refl(old_fs, d);
            old_fs.lemma_id_below(d);
        }
        assert(tree@.take(0) =~= Seq::<EntryView>::empty());
        assert(tree_size(m, tree_id@, fuel as nat) == entries_size(m, tree@, (fuel - 1) as nat));
    }
    let mut i: usize = 0;
    while i < tree.entries.len()
        invariant
            fs.wf(),
            store.inv(),
            store@ == m,
            fuel > 0,
            i <= tree.entries.len(),
            stored_tree(m, tree_id@) == Some(tree@),
            simple == (restorable(old_fs, dir_path@, d) && tree_simple(m, tree_id@, fuel as nat)),
            simple ==> {
                &&& grows(*fs, old_fs, d)
                &&& d < old_fs.next_id()
                &&& forall|x: Seq<char>|
                    #[trigger] dir_map(entries_of(fs.inodes()[d])).contains_key(x) ==> exists|j: int|
                        0 <= j < i && tree@[j].name == x
                &&& forall|j: int| 0 <= j < i ==> holds_entry(*fs, d, m, #[trigger] tree@[j], (fuel - 1) as nat)
                &&& fs.next_id() == old_fs.next_id() + entries_size(m, tree@.take(i as int), (fuel - 1) as nat)
                &&& forall|x: Seq<char>|
                    #[trigger] dir_map(entries_of(fs.inodes()[d])).contains_key(x) ==> old_fs.next_id() <= dir_map(
                        entries_of(fs.inodes()[d]),
                    )[x] < fs.next_id()
                &&& forall|j: int|
                    0 <= j < i && (#[trigger] tree@[j]).kind is Tree ==> dir_map(entries_of(fs.inodes()[d])).contains_key(
                        tree@[j].name,
                    ) && only_tree(
                        *fs,
                        dir_map(entries_of(fs.inodes()[d]))[tree@[j].name],
                        m,
                        tree@[j].id,
                        (fuel - 1) as nat,
                        old_fs.next_id() as nat,
                        fs.next_id() as nat,
                    )
            },
            good == (simple && tree_complete(m, tree_id@, fuel as nat) && old_fs.next_id() + tree_size(
                m,
                tree_id@,
                fuel as nat,
            ) <= u64::MAX),
            tree_size(m, tree_id@, fuel as nat) == entries_size(m, tree@, (fuel - 1) as nat),
            old_fs == *old(fs),
            fs.frame(&old_fs),
        decreases tree.entries.len() - i,
    {
        let entry = &tree.entries[i];
        let child_path = entry_path(dir_path, entry.name.as_str());
        proof {
            lemma_entries_size_step(m, tree@, i as int, (fuel - 1) as nat);
            lemma_entries_size_prefix(m, tree@, i + 1, (fuel - 1) as nat);
            if good {
                assert(entry_complete(m, tree@[i as int], (fuel - 1) as nat));
                assert(entries_size(m, tree@.take(i as int), (fuel - 1) as nat) + 1 <= entries_size(
                    m,
                    tree@,
                    (fuel - 1) as nat,
                ));
                assert(fs.next_id() < u64::MAX);
            }
        }
        if fs.next_inode_id() == u64::MAX {
            return Err(VfsError::CorruptStore { message: owned("too many inodes") });
        }
        let ghost s0 = *fs;
        let ghost e = tree@[i as int];
        let ghost name = e.name;
        proof {
            assert(e == entry@);
            if simple {
                assert(plain_entries(tree@));
                assert(plain_name(name));
                lemma_child(s0, old_fs, dir_path@, d, name);
                lemma_child_segment(dir_path@, name);
                assert(!dir_map(entries_of(s0.inodes()[d])).contains_key(name)) by {
                    if dir_map(entries_of(s0.inodes()[d])).contains_key(name) {
                        let j = choose|j: int| 0 <= j < i && tree@[j].name == name;
                        assert(tree@[j].name != tree@[i as int].name);
                    }
                }
            }
        }
        match entry.kind {
            TreeEntryKind::Blob => {
                let content = store.get(&entry.id)?;
                proof {
                    if good {
                        assert(has_suffix(name, ".md"@));
                        assert(is_markdown(child_path@));
                        assert(s0.resolve(child_path@) is Err);
                    }
                }
                fs.touch(child_path.as_str(), 0, 0)?;
                let ghost s1 = *fs;
                let ghost n = s0.next_id();
                proof {
                    if simple {
                        lemma_new_entry(s1, s0, d, name, n);
                        lemma_grows_trans(s1, s0, old_fs, d);
                        lemma_child(s1, old_fs, dir_path@, d, name);
                        assert(s1.write_target(child_path@) == Ok::<InodeId, ErrorView>(n));
                    }
                }
                fs.write_file(child_path.as_str(), crate::fs::inode::copy_bytes(content))?;
                let ghost s2 = *fs;
                proof {
                    if simple {
                        lemma_changed_new(s2, s1, s0, d, n);
                        lemma_grows_trans(s2, s0, old_fs, d);
                        lemma_child(s2, old_fs, dir_path@, d, name);
                    }
                }
                fs.chmod(child_path.as_str(), entry.mode)?;
                proof {
                    if simple {
                        let s3 = *fs;
                        lemma_changed_new(s3, s2, s0, d, n);
                        lemma_grows_trans(s3, s0, old_fs, d);
                        finish_entry(s3, s1, s0, d, m, tree@, i as int, (fuel - 1) as nat, n);
                        lemma_only_step(s3, s0, d, m, tree@, i as int, (fuel - 1) as nat, n, old_fs.next_id() as nat);
                    }
                }
            },
            TreeEntryKind::Tree => {
                fs.mkdir(child_path.as_str(), 0, 0)?;
                let ghost s1 = *fs;
                let ghost n = s0.next_id();
                proof {
                    if simple {
                        lemma_new_entry(s1, s0, d, name, n);
                        lemma_grows_trans(s1, s0, old_fs, d);
                        lemma_child(s1, old_fs, dir_path@, d, name);
                    }
                }
                fs.chmod(child_path.as_str(), entry.mode)?;
                let ghost s2 = *fs;
                proof {
                    if simple {
                        lemma_changed_new(s2, s1, s0, d, n);
                        lemma_grows_trans(s2, s0, old_fs, d);
                        lemma_child(s2, old_fs, dir_path@, d, name);
                        assert(restorable(s2, child_path@, n));
                        assert(tree_simple(m, e.id, (fuel - 1) as nat));
                        assert(s2.next_id() == s0.next_id() + 1);
                    }
                }
                restore_dir(fs, store, child_path.as_str(), Ghost(n), entry.id, fuel - 1)?;
                proof {
                    if simple {
                        let s3 = *fs;
                        lemma_grows_nested(s3, s2, s0, d, n);
                        lemma_grows_trans(s3, s0, old_fs, d);
                        assert(s3.inodes()[d] == s1.inodes()[d]);
                        finish_entry(s3, s1, s0, d, m, tree@, i as int, (fuel - 1) as nat, n);
                        lemma_only_step(s3, s0, d, m, tree@, i as int, (fuel - 1) as nat, n, old_fs.next_id() as nat);
                    }
                }
            },
            TreeEntryKind::Symlink => {
                let bytes = store.get(&entry.id)?;
                let target = utf8_lossy_string(bytes);
                fs.ln_s(target.as_str(), child_path.as_str(), 0, 0)?;
                proof {
                    if simple {
                        let s1 = *fs;
                        let n = s0.next_id();
                        lemma_new_entry(s1, s0, d, name, n);
                        lemma_grows_trans(s1, s0, old_fs, d);
                        finish_entry(s1, s1, s0, d, m, tree@, i as int, (fuel - 1) as nat, n);
                        lemma_only_step(s1, s0, d, m, tree@, i as int, (fuel - 1) as nat, n, old_fs.next_id() as nat);
                    }
                }
            },
        }
        i += 1;
    }
    proof {
        assert(tree@.take(i as int) =~= tree@);
        if simple {
            old_fs.lemma_id_below(d);
            let fe = *fs;
            let dm = dir_map(entries_of(fe.inodes()[d]));
            assert forall|j: int|
                0 <= j < tree@.len() && dm.contains_key(#[trigger] tree@[j].name) && tree@[j].kind is Tree implies only_tree(
                fe,
                dm[tree@[j].name],
                m,
                tree@[j].id,
                (fuel - 1) as nat,
                d as nat,
                fe.next_id() as nat,
            ) by {
                assert(tree@[j].kind is Tree);
                lemma_only_widen(
                    fe,
                    dm[tree@[j].name],
                    m,
                    tree@[j].id,
                    (fuel - 1) as nat,
                    old_fs.next_id() as nat,
                    fe.next_id() as nat,
                    d as nat,
                    fe.next_id() as nat,
                );
            }
            assert(only_tree(fe, d, m, tree_id@, fuel as nat, d as nat, fe.next_id() as nat));
        }
    }
    Ok(())
}

/// After entry `i` went into `d` as the fresh inode `n`, every name `d`
/// lists names an inode in range, and every tree entry up to `i` lists only
/// its tree's names.
proof fn lemma_only_step(
    s3: VirtualFs,
    s0: VirtualFs,
    d: InodeId,
    m: StoreView,
    es: Seq<EntryView>,
    i: int,
    fuel: nat,
    n: InodeId,
    lo: nat,
)
    requires
        0 <= i < es.len(),
        plain_entries(es),
        grows(s3, s0, d),
        d < lo,
        lo <= n,
        n == s0.next_id(),
        n < s3.next_id(),
        dir_map(entries_of(s3.inodes()[d])) == dir_map(entries_of(s0.inodes()[d])).insert(es[i].name, n),
        forall|x: Seq<char>|
            #[trigger] dir_map(entries_of(s0.inodes()[d])).contains_key(x) ==> lo <= dir_map(
                entries_of(s0.inodes()[d]),
            )[x] < s0.next_id(),
        forall|j: int|
            0 <= j < i && (#[trigger] es[j]).kind is Tree ==> dir_map(entries_of(s0.inodes()[d])).contains_key(es[j].name)
                && only_tree(s0, dir_map(entries_of(s0.inodes()[d]))[es[j].name], m, es[j].id, fuel, lo, s0.next_id() as nat),
        es[i].kind is Tree ==> only_tree(s3, n, m, es[i].id, fuel, n as nat, s3.next_id() as nat),
    ensures
        forall|x: Seq<char>|
            #[trigger] dir_map(entries_of(s3.inodes()[d])).contains_key(x) ==> lo <= dir_map(
                entries_of(s3.inodes()[d]),
            )[x] < s3.next_id(),
        forall|j: int|
            0 <= j < i + 1 && (#[trigger] es[j]).kind is Tree ==> dir_map(entries_of(s3.inodes()[d])).contains_key(es[j].name)
                && only_tree(s3, dir_map(entries_of(s3.inodes()[d]))[es[j].name], m, es[j].id, fuel, lo, s3.next_id() as nat),
{
    let dm0 = dir_map(entries_of(s0.inodes()[d]));
    let dm3 = dir_map(entries_of(s3.inodes()[d]));
    assert forall|j: int|
        0 <= j < i + 1 && (#[trigger] es[j]).kind is Tree implies dm3.contains_key(es[j].name) && only_tree(
            s3,
            dm3[es[j].name],
            m,
            es[j].id,
            fuel,
            lo,
            s3.next_id() as nat,
        ) by {
        if j < i {
            assert(es[j].name != es[i].name);
            assert(dm3[es[j].name] == dm0[es[j].name]);
            lemma_only_grows(s3, s0, d, dm0[es[j].name], m, es[j].id, fuel, lo, s0.next_id() as nat);
            lemma_only_widen(s3, dm0[es[j].name], m, es[j].id, fuel, lo, s0.next_id() as nat, lo, s3.next_id() as nat);
        } else {
            lemma_only_widen(s3, n, m, es[i].id, fuel, n as nat, s3.next_id() as nat, lo, s3.next_id() as nat);
        }
    }
}

/// Growth is reflexive.
proof fn lemma_grows_refl(fs: VirtualFs, d: InodeId)
    requires
        fs.inodes().contains_key(d),
        fs.inodes()[d].kind is Directory,
    ensures
        grows(fs, fs, d),
{
}

/// After entry `i` went into `d` as the fresh inode `n`, the entries before
/// it are still held, and the names in `d` are those of entries up to `i`.
proof fn finish_entry(
    s3: VirtualFs,
    s1: VirtualFs,
    s0: VirtualFs,
    d: InodeId,
    m: StoreView,
    es: Seq<EntryView>,
    i: int,
    fuel: nat,
    n: InodeId,
)
    requires
        0 <= i < es.len(),
        grows(s3, s0, d),
        s3.inodes()[d] == s1.inodes()[d],
        dir_map(entries_of(s1.inodes()[d])) == dir_map(entries_of(s0.inodes()[d])).insert(es[i].name, n),
        forall|x: Seq<char>|
            #[trigger] dir_map(entries_of(s0.inodes()[d])).contains_key(x) ==> exists|j: int|
                0 <= j < i && es[j].name == x,
        forall|j: int| 0 <= j < i ==> holds_entry(s0, d, m, #[trigger] es[j], fuel),
        s3.inodes().contains_key(n),
        s3.inodes()[n].uid == 0,
        s3.inodes()[n].gid == 0,
        match es[i].kind {
            TreeEntryKind::Blob => m.contains_key(es[i].id) && s3.inodes()[n].kind == KindView::File(m[es[i].id].1)
                && s3.inodes()[n].mode == es[i].mode,
            TreeEntryKind::Tree => holds_tree(s3, n, m, es[i].id, fuel) && s3.inodes()[n].mode == es[i].mode,
            TreeEntryKind::Symlink => m.contains_key(es[i].id) && s3.inodes()[n].kind == KindView::Symlink(
                utf8_lossy(m[es[i].id].1),
            ) && (vstd::utf8::valid_utf8(m[es[i].id].1) ==> s3.inodes()[n].kind == KindView::Symlink(
                vstd::utf8::decode_utf8(m[es[i].id].1),
            )),
        },
    ensures
        forall|x: Seq<char>|
            #[trigger] dir_map(entries_of(s3.inodes()[d])).contains_key(x) ==> exists|j: int|
                0 <= j < i + 1 && es[j].name == x,
        forall|j: int| 0 <= j < i + 1 ==> holds_entry(s3, d, m, #[trigger] es[j], fuel),
{
    assert forall|x: Seq<char>| #[trigger] dir_map(entries_of(s3.inodes()[d])).contains_key(x) implies exists|j: int|
        0 <= j < i + 1 && es[j].name == x by {
        if x == es[i].name {
            assert(es[i].name == x);
        } else {
            assert(dir_map(entries_of(s0.inodes()[d])).contains_key(x));
            let j = choose|j: int| 0 <= j < i && es[j].name == x;
            assert(es[j].name == x);
        }
    }
    assert forall|j: int| 0 <= j < i + 1 implies holds_entry(s3, d, m, #[trigger] es[j], fuel) by {
        if j < i {
            lemma_entry_grows(s3, s0, d, d, m, es[j], fuel);
        } else {
            assert(dir_map(entries_of(s3.inodes()[d])).contains_key(es[i].name));
        }
    }
}
} // verus!
