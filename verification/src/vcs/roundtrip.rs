//! What a snapshot stores, read back: the tree a commit records holds every
//! file of the committed file system, and reverting to it gives them back.

use vstd::prelude::*;
use crate::codec::at;
use crate::error::ErrorView;
use crate::fs::growth::{plain_comps, plain_name};
use crate::fs::inode::{InodeId, KindView};
use crate::fs::{components, entries_of, join_comps, VirtualFs};
use crate::hash::sha256_digest;
use crate::listing::{dir_map, lemma_sorted_target, names_sorted};
use crate::store::blob::{store_fits, StoreView};
use crate::store::tree::{enc_tree, entries_wf, entry_wf, lemma_tree_unique, EntryView};
use crate::text::lemma_seq_lt_irreflexive;
use crate::vcs::revert::{
    entry_fuel, holds_inode, holds_tree, lemma_components_join, lemma_tree_reads, lemma_walk_entry, lemma_walk_listed,
    only_tree, plain_entries, stored_tree, tree_entry, tree_file, tree_simple,
};
use crate::vcs::{lemma_put_grows, lemma_snap_dir_stored, lemma_snap_entries_stored, snap_dir, snap_entries};

verus! {

/// No bytes other than those stored under an id have that id as their
/// digest: the store meets no collision of SHA-256.
pub open spec fn collision_free(m: StoreView) -> bool {
    forall|d: Seq<u8>| #[trigger] m.contains_key(sha256_digest(d)) ==> m[sha256_digest(d)].1 == d
}

/// Every name that a directory of `fs` lists is plain.
pub open spec fn plain_fs(fs: &VirtualFs) -> bool {
    forall|k: InodeId, j: int|
        fs.inodes().contains_key(k) && 0 <= j < entries_of(fs.inodes()[k]).len() ==> plain_name(
            #[trigger] entries_of(fs.inodes()[k])[j].0@,
        )
}

/// Snapshotting directory `id` into `m` gives tree `t`, in a store that
/// `big` extends.
pub open spec fn snapped_dir(fs: &VirtualFs, m: StoreView, id: InodeId, fuel: nat, big: StoreView, t: Seq<u8>) -> bool {
    &&& snap_dir(fs, m, id, fuel).1 == Ok::<Seq<u8>, ErrorView>(t)
    &&& snap_dir(fs, m, id, fuel).0.submap_of(big)
}

/// Tree entry `te` is the snapshot of inode `k`: it has the inode's mode
/// and kind, and names the stored bytes of a file, the tree of a
/// directory, or the UTF-8 of a link's target.
pub open spec fn snapped_inode(fs: &VirtualFs, big: StoreView, k: InodeId, te: EntryView) -> bool {
    &&& fs.inodes().contains_key(k)
    &&& big.contains_key(te.id)
    &&& te.mode == fs.inodes()[k].mode
    &&& match fs.inodes()[k].kind {
        KindView::File(c) => te.kind is Blob && te.id == sha256_digest(c),
        KindView::Directory(_) => te.kind is Tree && exists|mi: StoreView, f: nat| #[trigger]
            snapped_dir(fs, mi, k, f, big, te.id),
        KindView::Symlink(t) => te.kind is Symlink && te.id == sha256_digest(vstd::utf8::encode_utf8(t)),
    }
}

/// Tree entry `te` is the snapshot of directory entry `e`.
pub open spec fn snapped_entry(fs: &VirtualFs, big: StoreView, e: (String, InodeId), te: EntryView) -> bool {
    &&& te.name == e.0@
    &&& snapped_inode(fs, big, e.1, te)
}

/// Each entry a snapshot of entries gives is the snapshot of its entry.
proof fn lemma_snap_entries_each(fs: &VirtualFs, m: StoreView, es: Seq<(String, InodeId)>, fuel: nat, big: StoreView)
    requires
        snap_entries(fs, m, es, fuel).1 is Ok,
        snap_entries(fs, m, es, fuel).0.submap_of(big),
    ensures
        snap_entries(fs, m, es, fuel).1->Ok_0.len() == es.len(),
        forall|i: int|
            0 <= i < es.len() ==> snapped_entry(fs, big, es[i], #[trigger] snap_entries(fs, m, es, fuel).1->Ok_0[i]),
    decreases es.len(),
{
    if es.len() > 0 {
        let (m1, r1) = snap_entries(fs, m, es.drop_last(), fuel);
        let tes = r1->Ok_0;
        let (name, child) = es.last();
        let v = fs.inodes()[child];
        let out = snap_entries(fs, m, es, fuel);
        assert(m1.submap_of(out.0)) by {
            match v.kind {
                KindView::File(c) => {
                    lemma_put_grows(m1, c, crate::store::ObjectKind::Blob);
                },
                KindView::Directory(_) => {
                    lemma_snap_dir_stored(fs, m1, child, fuel);
                },
                KindView::Symlink(t) => {
                    lemma_put_grows(m1, vstd::utf8::encode_utf8(t), crate::store::ObjectKind::Blob);
                },
            }
        }
        vstd::map_lib::lemma_submap_of_trans(m1, out.0, big);
        lemma_snap_entries_each(fs, m, es.drop_last(), fuel, big);
        let all = out.1->Ok_0;
        assert(all == tes.push(all.last()));
        assert forall|i: int| 0 <= i < es.len() implies snapped_entry(fs, big, es[i], #[trigger] all[i]) by {
            if i < es.len() - 1 {
                assert(es[i] == es.drop_last()[i]);
                assert(all[i] == tes[i]);
            } else {
                match v.kind {
                    KindView::File(c) => {
                        lemma_put_grows(m1, c, crate::store::ObjectKind::Blob);
                    },
                    KindView::Directory(_) => {
                        lemma_snap_dir_stored(fs, m1, child, fuel);
                        assert(snapped_dir(fs, m1, child, fuel, big, all[i].id));
                    },
                    KindView::Symlink(t) => {
                        lemma_put_grows(m1, vstd::utf8::encode_utf8(t), crate::store::ObjectKind::Blob);
                    },
                }
            }
        }
    }
}

/// The tree a snapshot of a directory gives is stored, and is the snapshot
/// of the directory's entries.
proof fn lemma_snap_tree(fs: &VirtualFs, m: StoreView, d: InodeId, fuel: nat, big: StoreView, t: Seq<u8>)
    requires
        snapped_dir(fs, m, d, fuel, big, t),
        collision_free(big),
        store_fits(big),
    ensures
        fuel > 0,
        fs.dir_of(d) is Ok,
        ({
            let es = fs.dir_of(d)->Ok_0;
            let tes = snap_entries(fs, m, es, (fuel - 1) as nat).1->Ok_0;
            &&& snap_entries(fs, m, es, (fuel - 1) as nat).1 is Ok
            &&& stored_tree(big, t) == Some(tes)
            &&& tes.len() == es.len()
            &&& forall|i: int| 0 <= i < es.len() ==> snapped_entry(fs, big, es[i], #[trigger] tes[i])
        }),
{
    let es = fs.dir_of(d)->Ok_0;
    let (m1, r) = snap_entries(fs, m, es, (fuel - 1) as nat);
    let tes = r->Ok_0;
    let enc = enc_tree(tes);
    let stored = crate::store::blob::put_spec(m1, enc, crate::store::ObjectKind::Tree);
    lemma_put_grows(m1, enc, crate::store::ObjectKind::Tree);
    vstd::map_lib::lemma_submap_of_trans(m1, stored, big);
    lemma_snap_entries_each(fs, m, es, (fuel - 1) as nat, big);
    assert(t == sha256_digest(enc));
    assert(big.contains_key(sha256_digest(enc)));
    assert(big[t].1 == enc);
    assert(entries_wf(tes)) by {
        assert forall|i: int| 0 <= i < tes.len() implies entry_wf(#[trigger] tes[i]) by {
            assert(snapped_entry(fs, big, es[i], tes[i]));
            assert(big.contains_key(tes[i].id));
        }
    }
    assert(at(big[t].1, 0, enc)) by {
        assert(big[t].1.subrange(0, enc.len() as int) =~= enc);
    }
    let c = choose|es2: Seq<EntryView>| entries_wf(es2) && #[trigger] at(big[t].1, 0, enc_tree(es2));
    assert(entries_wf(c) && at(big[t].1, 0, enc_tree(c)));
    lemma_tree_unique(big[t].1, c, tes);
}

/// Where plain components lead from a directory to a file, the tree the
/// directory's snapshot gives records the file's bytes there.
proof fn lemma_snap_file(
    fs: &VirtualFs,
    m: StoreView,
    d: InodeId,
    fuel: nat,
    big: StoreView,
    t: Seq<u8>,
    cs: Seq<Seq<char>>,
    g: nat,
    p: Seq<char>,
)
    requires
        fs.wf(),
        snapped_dir(fs, m, d, fuel, big, t),
        collision_free(big),
        store_fits(big),
        plain_comps(cs),
        cs.len() > 0,
        g >= cs.len(),
        fs.walk(d, cs, p) is Ok,
        fs.inodes().contains_key(fs.walk(d, cs, p)->Ok_0),
        fs.inodes()[fs.walk(d, cs, p)->Ok_0].kind is File,
    ensures
        tree_file(big, t, cs, g) == Some(fs.inodes()[fs.walk(d, cs, p)->Ok_0].kind->File_0),
    decreases cs.len(),
{
    lemma_snap_tree(fs, m, d, fuel, big, t);
    let es = fs.dir_of(d)->Ok_0;
    let tes = snap_entries(fs, m, es, (fuel - 1) as nat).1->Ok_0;
    let c0 = cs[0];
    assert(plain_name(c0));
    assert(c0 != "."@ && c0 != ".."@) by {
        reveal_strlit(".");
        reveal_strlit("..");
        assert("."@ =~= seq!['.']);
        assert(".."@ =~= seq!['.', '.']);
    }
    let dm = dir_map(es);
    assert(dm.contains_key(c0));
    let child = dm[c0];
    assert(fs.step(d, c0, p) == Ok::<InodeId, ErrorView>(child));
    fs.lemma_dir_sorted(d);
    let i0 = crate::listing::entry_index(es, c0);
    assert(0 <= i0 < es.len() && es[i0].0@ == c0);
    assert(snapped_entry(fs, big, es[i0], tes[i0]));
    assert(tes[i0].name == c0);
    let i = choose|i: int| 0 <= i < tes.len() && #[trigger] tes[i].name == cs[0];
    assert(snapped_entry(fs, big, es[i], tes[i]));
    lemma_sorted_target(es, i);
    assert(es[i].1 == child);
    if cs.len() == 1 {
        assert(cs.drop_first().len() == 0);
        assert(fs.walk(child, cs.drop_first(), p) == Ok::<InodeId, ErrorView>(child));
        let content = fs.inodes()[child].kind->File_0;
        assert(big.contains_key(sha256_digest(content)));
    } else {
        let rest = cs.drop_first();
        assert(plain_comps(rest)) by {
            assert forall|k: int| 0 <= k < rest.len() implies plain_name(#[trigger] rest[k]) by {
                assert(rest[k] == cs[k + 1]);
            }
        }
        assert(rest[0] != "."@ && rest[0] != ".."@) by {
            assert(plain_name(rest[0]));
            reveal_strlit(".");
            reveal_strlit("..");
            assert("."@ =~= seq!['.']);
            assert(".."@ =~= seq!['.', '.']);
        }
        assert(fs.inodes()[child].kind is Directory) by {
            if !(fs.inodes()[child].kind is Directory) {
                assert(fs.step(child, rest[0], p) is Err);
            }
        }
        let (mi, f) = choose|mi: StoreView, f: nat| #[trigger] snapped_dir(fs, mi, child, f, big, tes[i].id);
        lemma_snap_file(fs, mi, child, f, big, tes[i].id, rest, (g - 1) as nat, p);
    }
}

/// Where plain components lead from a directory to an inode, the tree the
/// directory's snapshot gives records there the inode's snapshot.
proof fn lemma_snap_entry(
    fs: &VirtualFs,
    m: StoreView,
    d: InodeId,
    fuel: nat,
    big: StoreView,
    t: Seq<u8>,
    cs: Seq<Seq<char>>,
    g: nat,
    p: Seq<char>,
)
    requires
        fs.wf(),
        snapped_dir(fs, m, d, fuel, big, t),
        collision_free(big),
        store_fits(big),
        plain_comps(cs),
        cs.len() > 0,
        g >= cs.len(),
        fs.walk(d, cs, p) is Ok,
        fs.inodes().contains_key(fs.walk(d, cs, p)->Ok_0),
    ensures
        tree_entry(big, t, cs, g) is Some,
        snapped_inode(fs, big, fs.walk(d, cs, p)->Ok_0, tree_entry(big, t, cs, g)->0),
    decreases cs.len(),
{
    lemma_snap_tree(fs, m, d, fuel, big, t);
    let es = fs.dir_of(d)->Ok_0;
    let tes = snap_entries(fs, m, es, (fuel - 1) as nat).1->Ok_0;
    let c0 = cs[0];
    assert(plain_name(c0));
    assert(c0 != "."@ && c0 != ".."@) by {
        reveal_strlit(".");
        reveal_strlit("..");
        assert("."@ =~= seq!['.']);
        assert(".."@ =~= seq!['.', '.']);
    }
    let dm = dir_map(es);
    assert(dm.contains_key(c0));
    let child = dm[c0];
    assert(fs.step(d, c0, p) == Ok::<InodeId, ErrorView>(child));
    fs.lemma_dir_sorted(d);
    let i0 = crate::listing::entry_index(es, c0);
    assert(0 <= i0 < es.len() && es[i0].0@ == c0);
    assert(snapped_entry(fs, big, es[i0], tes[i0]));
    assert(tes[i0].name == c0);
    let i = choose|i: int| 0 <= i < tes.len() && #[trigger] tes[i].name == cs[0];
    assert(snapped_entry(fs, big, es[i], tes[i]));
    lemma_sorted_target(es, i);
    assert(es[i].1 == child);
    if cs.len() == 1 {
        assert(cs.drop_first().len() == 0);
        assert(fs.walk(child, cs.drop_first(), p) == Ok::<InodeId, ErrorView>(child));
    } else {
        let rest = cs.drop_first();
        assert(plain_comps(rest)) by {
            assert forall|k: int| 0 <= k < rest.len() implies plain_name(#[trigger] rest[k]) by {
                assert(rest[k] == cs[k + 1]);
            }
        }
        assert(rest[0] != "."@ && rest[0] != ".."@) by {
            assert(plain_name(rest[0]));
            reveal_strlit(".");
            reveal_strlit("..");
            assert("."@ =~= seq!['.']);
            assert(".."@ =~= seq!['.', '.']);
        }
        assert(fs.inodes()[child].kind is Directory) by {
            if !(fs.inodes()[child].kind is Directory) {
                assert(fs.step(child, rest[0], p) is Err);
            }
        }
        let (mi, f) = choose|mi: StoreView, f: nat| #[trigger] snapped_dir(fs, mi, child, f, big, tes[i].id);
        lemma_snap_entry(fs, mi, child, f, big, tes[i].id, rest, (g - 1) as nat, p);
    }
}

/// Every tree reached from a snapshot of a file system with plain names
/// has plain, distinct names.
proof fn lemma_snap_simple(fs: &VirtualFs, m: StoreView, d: InodeId, fuel: nat, big: StoreView, t: Seq<u8>, g: nat)
    requires
        fs.wf(),
        plain_fs(fs),
        snapped_dir(fs, m, d, fuel, big, t),
        collision_free(big),
        store_fits(big),
    ensures
        tree_simple(big, t, g),
    decreases g,
{
    if g > 0 {
        lemma_snap_tree(fs, m, d, fuel, big, t);
        let es = fs.dir_of(d)->Ok_0;
        let tes = snap_entries(fs, m, es, (fuel - 1) as nat).1->Ok_0;
        fs.lemma_dir_sorted(d);
        assert forall|i: int| 0 <= i < tes.len() implies plain_name(#[trigger] tes[i].name) by {
            assert(snapped_entry(fs, big, es[i], tes[i]));
            assert(plain_name(entries_of(fs.inodes()[d])[i].0@));
        }
        assert forall|i: int, j: int| 0 <= i < j < tes.len() implies #[trigger] tes[i].name != #[trigger] tes[j].name by {
            assert(snapped_entry(fs, big, es[i], tes[i]));
            assert(snapped_entry(fs, big, es[j], tes[j]));
            if es[i].0@ == es[j].0@ {
                lemma_seq_lt_irreflexive(es[i].0@);
            }
        }
        assert(plain_entries(tes));
        assert forall|i: int| 0 <= i < tes.len() && tes[i].kind is Tree implies tree_simple(
            big,
            #[trigger] tes[i].id,
            (g - 1) as nat,
        ) by {
            assert(snapped_entry(fs, big, es[i], tes[i]));
            assert(fs.inodes()[es[i].1].kind is Directory);
            let (mi, f) = choose|mi: StoreView, f: nat| #[trigger] snapped_dir(fs, mi, es[i].1, f, big, tes[i].id);
            lemma_snap_simple(fs, mi, es[i].1, f, big, tes[i].id, (g - 1) as nat);
        }
    }
}

/// Committing and then reverting gives every file back: where a snapshot
/// of a file system whose names are plain gave the tree `t` in a store
/// without collisions that the store later extends, and `back` is what a
/// revert to `t` leaves (holding `t` wherever `t` has plain, distinct
/// names), reading the path of a file of the snapshotted system in `back`
/// gives the bytes the file held.
pub proof fn lemma_commit_revert_reads(
    fs: VirtualFs,
    m: StoreView,
    big: StoreView,
    back: VirtualFs,
    cs: Seq<Seq<char>>,
    fuel: nat,
)
    requires
        fs.wf(),
        plain_fs(&fs),
        snapped_dir(&fs, m, fs.root(), fs.inodes().dom().len(), big, snap_dir(&fs, m, fs.root(), fs.inodes().dom().len()).1->Ok_0),
        collision_free(big),
        store_fits(big),
        ({
            let t = snap_dir(&fs, m, fs.root(), fs.inodes().dom().len()).1->Ok_0;
            tree_simple(big, t, fuel) ==> holds_tree(back, back.root(), big, t, fuel)
        }),
        plain_comps(cs),
        cs.len() <= fuel,
        fs.resolve("/"@ + join_comps(cs)) is Ok,
        fs.inodes().contains_key(fs.resolve("/"@ + join_comps(cs))->Ok_0),
        fs.inodes()[fs.resolve("/"@ + join_comps(cs))->Ok_0].kind is File,
    ensures
        back.read("/"@ + join_comps(cs)) == Ok::<Seq<u8>, ErrorView>(
            fs.inodes()[fs.resolve("/"@ + join_comps(cs))->Ok_0].kind->File_0,
        ),
{
    let n0 = fs.inodes().dom().len();
    let t = snap_dir(&fs, m, fs.root(), n0).1->Ok_0;
    let path = "/"@ + join_comps(cs);
    lemma_components_join(cs);
    assert(fs.resolve(path) == fs.walk(fs.root(), cs, path));
    if cs.len() == 0 {
        assert(fs.walk(fs.root(), cs, path) == Ok::<InodeId, ErrorView>(fs.root()));
        lemma_snap_tree(&fs, m, fs.root(), n0, big, t);
        assert(false);
    }
    lemma_snap_simple(&fs, m, fs.root(), n0, big, t, fuel);
    lemma_snap_file(&fs, m, fs.root(), n0, big, t, cs, fuel, path);
    lemma_tree_reads(back, big, t, cs, fuel);
}

/// Committing and then reverting gives every path back: under the same
/// conditions as `lemma_commit_revert_reads`, each path of the snapshotted
/// system that plain names lead to resolves in `back` to an inode owned by
/// root: a file with the same bytes and mode, a directory with the same
/// mode, or a link with the same target.
pub proof fn lemma_commit_revert_paths(
    fs: VirtualFs,
    m: StoreView,
    big: StoreView,
    back: VirtualFs,
    cs: Seq<Seq<char>>,
    fuel: nat,
)
    requires
        fs.wf(),
        plain_fs(&fs),
        snapped_dir(&fs, m, fs.root(), fs.inodes().dom().len(), big, snap_dir(&fs, m, fs.root(), fs.inodes().dom().len()).1->Ok_0),
        collision_free(big),
        store_fits(big),
        ({
            let t = snap_dir(&fs, m, fs.root(), fs.inodes().dom().len()).1->Ok_0;
            tree_simple(big, t, fuel) ==> holds_tree(back, back.root(), big, t, fuel)
        }),
        plain_comps(cs),
        0 < cs.len() < fuel,
        fs.resolve("/"@ + join_comps(cs)) is Ok,
        fs.inodes().contains_key(fs.resolve("/"@ + join_comps(cs))->Ok_0),
    ensures
        ({
            let path = "/"@ + join_comps(cs);
            let a = fs.inodes()[fs.resolve(path)->Ok_0];
            let b = back.inodes()[back.resolve(path)->Ok_0];
            &&& back.resolve(path) is Ok
            &&& back.inodes().contains_key(back.resolve(path)->Ok_0)
            &&& b.uid == 0 && b.gid == 0
            &&& match a.kind {
                KindView::File(c) => b.kind == KindView::File(c) && b.mode == a.mode,
                KindView::Directory(_) => b.kind is Directory && b.mode == a.mode,
                KindView::Symlink(t) => b.kind == KindView::Symlink(t),
            }
        }),
{
    let n0 = fs.inodes().dom().len();
    let t = snap_dir(&fs, m, fs.root(), n0).1->Ok_0;
    let path = "/"@ + join_comps(cs);
    lemma_components_join(cs);
    assert(fs.resolve(path) == fs.walk(fs.root(), cs, path));
    assert(back.resolve(path) == back.walk(back.root(), cs, path));
    lemma_snap_simple(&fs, m, fs.root(), n0, big, t, fuel);
    lemma_snap_entry(&fs, m, fs.root(), n0, big, t, cs, fuel, path);
    lemma_walk_entry(back, back.root(), big, t, cs, fuel, path);
    let k = fs.resolve(path)->Ok_0;
    let te = tree_entry(big, t, cs, fuel)->0;
    assert(snapped_inode(&fs, big, k, te));
    let k2 = back.walk(back.root(), cs, path)->Ok_0;
    assert(holds_inode(back, k2, big, te, entry_fuel(fuel, cs)));
    assert(back.inodes()[k2].uid == 0 && back.inodes()[k2].gid == 0);
    match fs.inodes()[k].kind {
        KindView::File(c) => {
            assert(big[sha256_digest(c)].1 == c);
            assert(back.inodes()[k2].kind == KindView::File(c));
        },
        KindView::Directory(_) => {
            assert(entry_fuel(fuel, cs) > 0);
            assert(holds_tree(back, k2, big, te.id, entry_fuel(fuel, cs)));
            assert(back.inodes()[k2].kind is Directory);
        },
        KindView::Symlink(tg) => {
            let bytes = vstd::utf8::encode_utf8(tg);
            assert(big[sha256_digest(bytes)].1 == bytes);
            vstd::utf8::encode_utf8_valid_utf8(tg);
            vstd::utf8::encode_utf8_decode_utf8(tg);
            assert(back.inodes()[k2].kind == KindView::Symlink(tg));
        },
    }
}

/// Where the tree a directory's snapshot gives has an entry under plain
/// components, those components lead from the directory to an inode.
proof fn lemma_entry_walks(
    fs: &VirtualFs,
    m: StoreView,
    d: InodeId,
    fuel: nat,
    big: StoreView,
    t: Seq<u8>,
    cs: Seq<Seq<char>>,
    g: nat,
    p: Seq<char>,
)
    requires
        fs.wf(),
        snapped_dir(fs, m, d, fuel, big, t),
        collision_free(big),
        store_fits(big),
        plain_comps(cs),
        cs.len() > 0,
        tree_entry(big, t, cs, g) is Some,
    ensures
        fs.walk(d, cs, p) is Ok,
    decreases cs.len(),
{
    lemma_snap_tree(fs, m, d, fuel, big, t);
    let es = fs.dir_of(d)->Ok_0;
    let tes = snap_entries(fs, m, es, (fuel - 1) as nat).1->Ok_0;
    let c0 = cs[0];
    assert(plain_name(c0));
    assert(c0 != "."@ && c0 != ".."@) by {
        reveal_strlit(".");
        reveal_strlit("..");
        assert("."@ =~= seq!['.']);
        assert(".."@ =~= seq!['.', '.']);
    }
    let i = choose|i: int| 0 <= i < tes.len() && #[trigger] tes[i].name == cs[0];
    assert(snapped_entry(fs, big, es[i], tes[i]));
    fs.lemma_dir_sorted(d);
    lemma_sorted_target(es, i);
    let child = es[i].1;
    assert(fs.step(d, c0, p) == Ok::<InodeId, ErrorView>(child));
    if cs.len() > 1 {
        let rest = cs.drop_first();
        assert(plain_comps(rest)) by {
            assert forall|k: int| 0 <= k < rest.len() implies plain_name(#[trigger] rest[k]) by {
                assert(rest[k] == cs[k + 1]);
            }
        }
        assert(tes[i].kind is Tree);
        assert(fs.inodes()[child].kind is Directory);
        let (mi, f) = choose|mi: StoreView, f: nat| #[trigger] snapped_dir(fs, mi, child, f, big, tes[i].id);
        lemma_entry_walks(fs, mi, child, f, big, tes[i].id, rest, (g - 1) as nat, p);
        assert(fs.walk(d, cs, p) == fs.walk(child, rest, p));
    } else {
        assert(cs.drop_first().len() == 0);
        assert(fs.walk(child, cs.drop_first(), p) == Ok::<InodeId, ErrorView>(child));
    }
}

/// Committing and then reverting brings back no path the committed system
/// lacked: under the same conditions as `lemma_commit_revert_reads`, where
/// `back` also lists, from its root down, only the names of `t`, each path
/// that plain names lead to in `back` resolves in the snapshotted system.
pub proof fn lemma_revert_paths_committed(
    fs: VirtualFs,
    m: StoreView,
    big: StoreView,
    back: VirtualFs,
    cs: Seq<Seq<char>>,
    fuel: nat,
)
    requires
        fs.wf(),
        plain_fs(&fs),
        snapped_dir(&fs, m, fs.root(), fs.inodes().dom().len(), big, snap_dir(&fs, m, fs.root(), fs.inodes().dom().len()).1->Ok_0),
        collision_free(big),
        store_fits(big),
        ({
            let t = snap_dir(&fs, m, fs.root(), fs.inodes().dom().len()).1->Ok_0;
            tree_simple(big, t, fuel) ==> {
                &&& holds_tree(back, back.root(), big, t, fuel)
                &&& only_tree(back, back.root(), big, t, fuel, back.root() as nat, back.next_id() as nat)
            }
        }),
        plain_comps(cs),
        cs.len() > 0,
        back.resolve("/"@ + join_comps(cs)) is Ok,
    ensures
        fs.resolve("/"@ + join_comps(cs)) is Ok,
{
    let n0 = fs.inodes().dom().len();
    let t = snap_dir(&fs, m, fs.root(), n0).1->Ok_0;
    let path = "/"@ + join_comps(cs);
    lemma_components_join(cs);
    assert(fs.resolve(path) == fs.walk(fs.root(), cs, path));
    assert(back.resolve(path) == back.walk(back.root(), cs, path));
    lemma_snap_simple(&fs, m, fs.root(), n0, big, t, fuel);
    lemma_walk_listed(back, back.root(), big, t, cs, fuel, back.root() as nat, back.next_id() as nat, path);
    lemma_entry_walks(&fs, m, fs.root(), n0, big, t, cs, fuel, path);
}

} // verus!
