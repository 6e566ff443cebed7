//! Tree objects: the entries of a directory, in name order, each naming a
//! blob, a tree or a link by id, with its mode and owner.

use vstd::prelude::*;
use crate::codec::{
    at, enc_bytes, enc_str, lemma_at_concat, lemma_bytes_unique, lemma_le_roundtrip,
    lemma_le_unique, lemma_pow256_values, le_bytes, pow256, push_bytes, push_le, push_text,
    read_bytes, read_le, read_text,
};
use crate::text::owned;
use vstd::string::StringSliceAdditionalSpecFns;
use super::{lemma_id_len, ObjectId};

verus! {

broadcast use lemma_id_len;

/// What an entry of a tree stands for.
#[derive(Clone, Copy, Debug, PartialEq, Eq, Structural)]
pub enum TreeEntryKind {
    Blob,
    Tree,
    Symlink,
}

/// An entry of a tree.
#[derive(Debug)]
pub struct TreeEntry {
    pub name: String,
    pub kind: TreeEntryKind,
    pub id: ObjectId,
    pub mode: u16,
    pub uid: u32,
    pub gid: u32,
}

/// The value of a tree entry.
pub struct EntryView {
    pub name: Seq<char>,
    pub kind: TreeEntryKind,
    pub id: Seq<u8>,
    pub mode: u16,
    pub uid: u32,
    pub gid: u32,
}

impl View for TreeEntry {
    type V = EntryView;

    open spec fn view(&self) -> EntryView {
        EntryView {
            name: self.name@,
            kind: self.kind,
            id: self.id@,
            mode: self.mode,
            uid: self.uid,
            gid: self.gid,
        }
    }
}

/// A tree: its entries.
#[derive(Debug)]
pub struct TreeObject {
    pub entries: Vec<TreeEntry>,
}

impl View for TreeObject {
    type V = Seq<EntryView>;

    open spec fn view(&self) -> Seq<EntryView> {
        self.entries@.map_values(|e: TreeEntry| e@)
    }
}

/// The number of an entry kind in the encoding.
pub open spec fn kind_index(k: TreeEntryKind) -> nat {
    match k {
        TreeEntryKind::Blob => 0,
        TreeEntryKind::Tree => 1,
        TreeEntryKind::Symlink => 2,
    }
}

/// The bytes of an entry: name, kind, id, mode, owner, group.
pub open spec fn enc_entry(e: EntryView) -> Seq<u8> {
    enc_str(e.name) + le_bytes(kind_index(e.kind), 4) + enc_bytes(e.id) + le_bytes(e.mode as nat, 2)
        + le_bytes(e.uid as nat, 4) + le_bytes(e.gid as nat, 4)
}

/// The bytes of entries, one after another.
pub open spec fn enc_entries(es: Seq<EntryView>) -> Seq<u8>
    decreases es.len(),
{
    if es.len() == 0 {
        Seq::empty()
    } else {
        enc_entries(es.drop_last()) + enc_entry(es.last())
    }
}

/// The bytes of a tree: the number of entries, then the entries.
pub open spec fn enc_tree(es: Seq<EntryView>) -> Seq<u8> {
    le_bytes(es.len(), 8) + enc_entries(es)
}

/// An entry whose id is 32 bytes long, as every stored entry's is.
pub open spec fn entry_wf(e: EntryView) -> bool {
    e.id.len() == 32
}

/// Entries whose ids are all 32 bytes long.
pub open spec fn entries_wf(es: Seq<EntryView>) -> bool {
    forall|i: int| 0 <= i < es.len() ==> entry_wf(#[trigger] es[i])
}

/// Every entry takes at least one byte.
proof fn lemma_entries_len(es: Seq<EntryView>)
    ensures
        enc_entries(es).len() >= es.len(),
    decreases es.len(),
{
    if es.len() > 0 {
        lemma_entries_len(es.drop_last());
        crate::codec::lemma_le_len(kind_index(es.last().kind), 4);
    }
}

/// The count of a tree standing at the start of some bytes is below 2^64.
proof fn lemma_tree_count(b: Seq<u8>, t: Seq<EntryView>)
    requires
        b.len() < pow256(8),
        at(b, 0, enc_tree(t)),
    ensures
        t.len() < pow256(8),
        at(b, 0, le_bytes(t.len(), 8)),
        at(b, 8, enc_entries(t)),
{
    crate::codec::lemma_le_len(t.len(), 8);
    lemma_entries_len(t);
    lemma_at_concat(b, 0, le_bytes(t.len(), 8), enc_entries(t));
}

/// Entries read at the same place are the same entry.
proof fn lemma_entry_unique(b: Seq<u8>, pos: int, e1: EntryView, e2: EntryView)
    requires
        b.len() < pow256(8),
        at(b, pos, enc_entry(e1)),
        at(b, pos, enc_entry(e2)),
    ensures
        e1 == e2,
{
    lemma_pow256_values();
    let n1 = enc_str(e1.name);
    let n2 = enc_str(e2.name);
    let k1 = le_bytes(kind_index(e1.kind), 4);
    let k2 = le_bytes(kind_index(e2.kind), 4);
    let i1 = enc_bytes(e1.id);
    let i2 = enc_bytes(e2.id);
    let m1 = le_bytes(e1.mode as nat, 2);
    let m2 = le_bytes(e2.mode as nat, 2);
    let u1 = le_bytes(e1.uid as nat, 4);
    let u2 = le_bytes(e2.uid as nat, 4);
    let g1 = le_bytes(e1.gid as nat, 4);
    let g2 = le_bytes(e2.gid as nat, 4);
    lemma_at_concat(b, pos, n1 + k1 + i1 + m1 + u1, g1);
    lemma_at_concat(b, pos, n1 + k1 + i1 + m1, u1);
    lemma_at_concat(b, pos, n1 + k1 + i1, m1);
    lemma_at_concat(b, pos, n1 + k1, i1);
    lemma_at_concat(b, pos, n1, k1);
    lemma_at_concat(b, pos, n2 + k2 + i2 + m2 + u2, g2);
    lemma_at_concat(b, pos, n2 + k2 + i2 + m2, u2);
    lemma_at_concat(b, pos, n2 + k2 + i2, m2);
    lemma_at_concat(b, pos, n2 + k2, i2);
    lemma_at_concat(b, pos, n2, k2);
    lemma_bytes_unique(b, pos, vstd::utf8::encode_utf8(e1.name), vstd::utf8::encode_utf8(e2.name));
    assert(e1.name == e2.name) by {
        vstd::utf8::encode_utf8_decode_utf8(e1.name);
        vstd::utf8::encode_utf8_decode_utf8(e2.name);
    }
    let p1 = pos + n1.len();
    lemma_le_roundtrip(kind_index(e1.kind), 4);
    lemma_le_roundtrip(kind_index(e2.kind), 4);
    assert(k1 == b.subrange(p1, p1 + 4));
    assert(k2 == b.subrange(p1, p1 + 4));
    lemma_le_unique(kind_index(e1.kind), kind_index(e2.kind), 4);
    let p2 = p1 + 4;
    lemma_bytes_unique(b, p2, e1.id, e2.id);
    let p3 = p2 + i1.len();
    lemma_le_roundtrip(e1.mode as nat, 2);
    lemma_le_roundtrip(e2.mode as nat, 2);
    assert(m1 == b.subrange(p3, p3 + 2));
    assert(m2 == b.subrange(p3, p3 + 2));
    lemma_le_unique(e1.mode as nat, e2.mode as nat, 2);
    let p4 = p3 + 2;
    lemma_le_roundtrip(e1.uid as nat, 4);
    lemma_le_roundtrip(e2.uid as nat, 4);
    assert(u1 == b.subrange(p4, p4 + 4));
    assert(u2 == b.subrange(p4, p4 + 4));
    lemma_le_unique(e1.uid as nat, e2.uid as nat, 4);
    let p5 = p4 + 4;
    lemma_le_roundtrip(e1.gid as nat, 4);
    lemma_le_roundtrip(e2.gid as nat, 4);
    assert(g1 == b.subrange(p5, p5 + 4));
    assert(g2 == b.subrange(p5, p5 + 4));
    lemma_le_unique(e1.gid as nat, e2.gid as nat, 4);
}


/// Reads an id: a byte string of 32 bytes.
pub(crate) fn read_id(b: &[u8], pos: usize) -> (r: Option<(ObjectId, usize)>)
    ensures
        match r {
            Some((id, p)) => p == pos + enc_bytes(id@).len() && at(b@, pos as int, enc_bytes(id@)),
            None => forall|d: Seq<u8>| d.len() == 32 ==> !at(b@, pos as int, #[trigger] enc_bytes(d)),
        },
{
    let (d, p) = read_bytes(b, pos)?;
    if d.len() != 32 {
        let blen = b.len();
        proof {
            lemma_pow256_values();
            assert(b@.len() == blen);
            assert forall|x: Seq<u8>| x.len() == 32 implies !at(b@, pos as int, #[trigger] enc_bytes(x)) by {
                if at(b@, pos as int, enc_bytes(x)) {
                    lemma_bytes_unique(b@, pos as int, d@, x);
                }
            }
        }
        return None;
    }
    Some((ObjectId::from_vec(&d), p))
}

/// Reads an entry at `pos`.
fn read_entry(b: &[u8], pos: usize) -> (r: Option<(TreeEntry, usize)>)
    ensures
        match r {
            Some((e, p)) => p == pos + enc_entry(e@).len() && at(b@, pos as int, enc_entry(e@)),
            None => forall|e: EntryView| entry_wf(e) ==> !at(b@, pos as int, #[trigger] enc_entry(e)),
        },
{
    let blen = b.len();
    proof {
        lemma_pow256_values();
        assert(b@.len() == blen);
    }
    let ghost bv = b@;
    let ghost ipos = pos as int;
    let (name, p1) = match read_text(b, pos) {
        Some(x) => x,
        None => {
            proof {
                assert forall|e: EntryView| entry_wf(e) implies !at(bv, ipos, #[trigger] enc_entry(e)) by {
                    if at(bv, ipos, enc_entry(e)) {
                        lemma_entry_split(bv, ipos, e);
                    }
                }
            }
            return None;
        },
    };
    let (k, p2) = match read_le(b, p1, 4) {
        Some(x) => x,
        None => {
            proof {
                assert forall|e: EntryView| entry_wf(e) implies !at(bv, ipos, #[trigger] enc_entry(e)) by {
                    if at(bv, ipos, enc_entry(e)) {
                        lemma_entry_split(bv, ipos, e);
                        lemma_bytes_unique(bv, ipos, vstd::utf8::encode_utf8(name@), vstd::utf8::encode_utf8(e.name));
                        lemma_le_roundtrip(kind_index(e.kind), 4);
                    }
                }
            }
            return None;
        },
    };
    let kind = if k == 0 {
        TreeEntryKind::Blob
    } else if k == 1 {
        TreeEntryKind::Tree
    } else if k == 2 {
        TreeEntryKind::Symlink
    } else {
        proof {
            assert forall|e: EntryView| entry_wf(e) implies !at(bv, ipos, #[trigger] enc_entry(e)) by {
                if at(bv, ipos, enc_entry(e)) {
                    lemma_entry_split(bv, ipos, e);
                    lemma_bytes_unique(bv, ipos, vstd::utf8::encode_utf8(name@), vstd::utf8::encode_utf8(e.name));
                    lemma_le_roundtrip(kind_index(e.kind), 4);
                    lemma_le_roundtrip(k as nat, 4);
                    assert(le_bytes(kind_index(e.kind), 4) == bv.subrange(p1 as int, p1 + 4));
                    assert(le_bytes(k as nat, 4) == bv.subrange(p1 as int, p1 + 4));
                    lemma_le_unique(kind_index(e.kind), k as nat, 4);
                }
            }
        }
        return None;
    };
    proof {
        assert(kind_index(kind) == k);
    }
    let (id, p3) = match read_id(b, p2) {
        Some(x) => x,
        None => {
            proof {
                assert forall|e: EntryView| entry_wf(e) implies !at(bv, ipos, #[trigger] enc_entry(e)) by {
                    if at(bv, ipos, enc_entry(e)) {
                        lemma_entry_split(bv, ipos, e);
                        lemma_bytes_unique(bv, ipos, vstd::utf8::encode_utf8(name@), vstd::utf8::encode_utf8(e.name));
                        lemma_le_roundtrip(kind_index(e.kind), 4);
                    }
                }
            }
            return None;
        },
    };
    let (mode, p4) = match read_le(b, p3, 2) {
        Some(x) => x,
        None => {
            proof {
                assert forall|e: EntryView| entry_wf(e) implies !at(bv, ipos, #[trigger] enc_entry(e)) by {
                    if at(bv, ipos, enc_entry(e)) {
                        lemma_entry_split(bv, ipos, e);
                        lemma_bytes_unique(bv, ipos, vstd::utf8::encode_utf8(name@), vstd::utf8::encode_utf8(e.name));
                        lemma_le_roundtrip(kind_index(e.kind), 4);
                        lemma_le_roundtrip(e.mode as nat, 2);
                        lemma_le_roundtrip(e.uid as nat, 4);
                        lemma_bytes_unique(bv, p2 as int, id@, e.id);
                        lemma_le_roundtrip(e.mode as nat, 2);
                    }
                }
            }
            return None;
        },
    };
    let (uid, p5) = match read_le(b, p4, 4) {
        Some(x) => x,
        None => {
            proof {
                assert forall|e: EntryView| entry_wf(e) implies !at(bv, ipos, #[trigger] enc_entry(e)) by {
                    if at(bv, ipos, enc_entry(e)) {
                        lemma_entry_split(bv, ipos, e);
                        lemma_bytes_unique(bv, ipos, vstd::utf8::encode_utf8(name@), vstd::utf8::encode_utf8(e.name));
                        lemma_le_roundtrip(kind_index(e.kind), 4);
                        lemma_le_roundtrip(e.mode as nat, 2);
                        lemma_le_roundtrip(e.uid as nat, 4);
                        lemma_bytes_unique(bv, p2 as int, id@, e.id);
                        lemma_le_roundtrip(e.uid as nat, 4);
                    }
                }
            }
            return None;
        },
    };
    let (gid, p6) = match read_le(b, p5, 4) {
        Some(x) => x,
        None => {
            proof {
                assert forall|e: EntryView| entry_wf(e) implies !at(bv, ipos, #[trigger] enc_entry(e)) by {
                    if at(bv, ipos, enc_entry(e)) {
                        lemma_entry_split(bv, ipos, e);
                        lemma_bytes_unique(bv, ipos, vstd::utf8::encode_utf8(name@), vstd::utf8::encode_utf8(e.name));
                        lemma_le_roundtrip(kind_index(e.kind), 4);
                        lemma_le_roundtrip(e.mode as nat, 2);
                        lemma_le_roundtrip(e.uid as nat, 4);
                        lemma_bytes_unique(bv, p2 as int, id@, e.id);
                        lemma_le_roundtrip(e.gid as nat, 4);
                    }
                }
            }
            return None;
        },
    };
    let e = TreeEntry { name, kind, id, mode: mode as u16, uid: uid as u32, gid: gid as u32 };
    proof {
        let ev = e@;
        lemma_le_roundtrip(k as nat, 4);
        lemma_le_roundtrip(mode as nat, 2);
        lemma_le_roundtrip(uid as nat, 4);
        lemma_le_roundtrip(gid as nat, 4);
        assert(mode as u16 == mode);
        assert(uid as u32 == uid);
        assert(gid as u32 == gid);
        lemma_at_concat(bv, ipos, enc_str(ev.name), le_bytes(kind_index(ev.kind), 4));
        lemma_at_concat(bv, ipos, enc_str(ev.name) + le_bytes(kind_index(ev.kind), 4), enc_bytes(ev.id));
        lemma_at_concat(bv, ipos, enc_str(ev.name) + le_bytes(kind_index(ev.kind), 4) + enc_bytes(ev.id), le_bytes(ev.mode as nat, 2));
        lemma_at_concat(bv, ipos, enc_str(ev.name) + le_bytes(kind_index(ev.kind), 4) + enc_bytes(ev.id) + le_bytes(ev.mode as nat, 2), le_bytes(ev.uid as nat, 4));
        lemma_at_concat(bv, ipos, enc_str(ev.name) + le_bytes(kind_index(ev.kind), 4) + enc_bytes(ev.id) + le_bytes(ev.mode as nat, 2) + le_bytes(ev.uid as nat, 4), le_bytes(ev.gid as nat, 4));
    }
    Some((e, p6))
}

/// The parts of an entry standing at `pos` stand one after another.
proof fn lemma_entry_split(b: Seq<u8>, pos: int, e: EntryView)
    requires
        at(b, pos, enc_entry(e)),
    ensures
        at(b, pos, enc_str(e.name)),
        at(b, pos + enc_str(e.name).len(), le_bytes(kind_index(e.kind), 4)),
        at(b, pos + enc_str(e.name).len() + le_bytes(kind_index(e.kind), 4).len(), enc_bytes(e.id)),
        at(
            b,
            pos + enc_str(e.name).len() + le_bytes(kind_index(e.kind), 4).len() + enc_bytes(e.id).len(),
            le_bytes(e.mode as nat, 2),
        ),
        at(
            b,
            pos + enc_str(e.name).len() + le_bytes(kind_index(e.kind), 4).len() + enc_bytes(e.id).len()
                + le_bytes(e.mode as nat, 2).len(),
            le_bytes(e.uid as nat, 4),
        ),
        at(
            b,
            pos + enc_str(e.name).len() + le_bytes(kind_index(e.kind), 4).len() + enc_bytes(e.id).len()
                + le_bytes(e.mode as nat, 2).len() + le_bytes(e.uid as nat, 4).len(),
            le_bytes(e.gid as nat, 4),
        ),
{
    let n = enc_str(e.name);
    let k = le_bytes(kind_index(e.kind), 4);
    let i = enc_bytes(e.id);
    let m = le_bytes(e.mode as nat, 2);
    let u = le_bytes(e.uid as nat, 4);
    let g = le_bytes(e.gid as nat, 4);
    lemma_at_concat(b, pos, n + k + i + m + u, g);
    lemma_at_concat(b, pos, n + k + i + m, u);
    lemma_at_concat(b, pos, n + k + i, m);
    lemma_at_concat(b, pos, n + k, i);
    lemma_at_concat(b, pos, n, k);
}


/// The bytes of entries split at any position.
proof fn lemma_entries_take(es: Seq<EntryView>, j: int)
    requires
        0 <= j <= es.len(),
    ensures
        enc_entries(es) == enc_entries(es.take(j)) + enc_entries(es.skip(j)),
    decreases es.len(),
{
    if j == es.len() {
        assert(es.take(j) =~= es);
        assert(es.skip(j) =~= Seq::<EntryView>::empty());
        assert(enc_entries(es) + Seq::<u8>::empty() =~= enc_entries(es));
    } else {
        let dl = es.drop_last();
        lemma_entries_take(dl, j);
        assert(dl.take(j) =~= es.take(j));
        assert(es.skip(j).drop_last() =~= dl.skip(j));
        assert(es.skip(j).last() == es.last());
        assert(enc_entries(es) =~= enc_entries(es.take(j)) + enc_entries(es.skip(j)));
    }
}

/// Well-formed entries of the same number read at the same place are the
/// same entries.
proof fn lemma_entries_unique(b: Seq<u8>, pos: int, e1: Seq<EntryView>, e2: Seq<EntryView>)
    requires
        b.len() < pow256(8),
        e1.len() == e2.len(),
        at(b, pos, enc_entries(e1)),
        at(b, pos, enc_entries(e2)),
    ensures
        e1 == e2,
    decreases e1.len(),
{
    if e1.len() > 0 {
        lemma_at_concat(b, pos, enc_entries(e1.drop_last()), enc_entry(e1.last()));
        lemma_at_concat(b, pos, enc_entries(e2.drop_last()), enc_entry(e2.last()));
        lemma_entries_unique(b, pos, e1.drop_last(), e2.drop_last());
        lemma_entry_unique(
            b,
            pos + enc_entries(e1.drop_last()).len(),
            e1.last(),
            e2.last(),
        );
        assert(e1 =~= e2.drop_last().push(e2.last()));
        assert(e2 =~= e2.drop_last().push(e2.last()));
    } else {
        assert(e1 =~= e2);
    }
}

/// Well-formed trees read at the same place are the same tree.
pub proof fn lemma_tree_unique(b: Seq<u8>, t1: Seq<EntryView>, t2: Seq<EntryView>)
    requires
        b.len() < pow256(8),
        at(b, 0, enc_tree(t1)),
        at(b, 0, enc_tree(t2)),
    ensures
        t1 == t2,
{
    lemma_pow256_values();
    lemma_tree_count(b, t1);
    lemma_tree_count(b, t2);
    lemma_le_roundtrip(t1.len(), 8);
    lemma_le_roundtrip(t2.len(), 8);
    assert(le_bytes(t1.len(), 8) == b.subrange(0, 8));
    assert(le_bytes(t2.len(), 8) == b.subrange(0, 8));
    lemma_le_unique(t1.len(), t2.len(), 8);
    lemma_entries_unique(b, 8, t1, t2);
}

impl TreeObject {
    /// The bytes of the tree.
    pub fn serialize(&self) -> (r: Vec<u8>)
        ensures
            r@ == enc_tree(self@),
    {
        let mut out: Vec<u8> = Vec::new();
        proof {
            lemma_pow256_values();
        }
        push_le(&mut out, self.entries.len() as u64, 8);
        let ghost head = out@;
        let mut i: usize = 0;
        proof {
            assert(self@.take(0) =~= Seq::<EntryView>::empty());
            assert(out@ =~= head + enc_entries(self@.take(0)));
        }
        while i < self.entries.len()
            invariant
                i <= self.entries@.len(),
                head == le_bytes(self@.len(), 8),
                out@ == head + enc_entries(self@.take(i as int)),
            decreases self.entries.len() - i,
        {
            let e = &self.entries[i];
            let ghost before = out@;
            proof {
                lemma_pow256_values();
            }
            push_text(&mut out, e.name.as_str());
            let k: u64 = match e.kind {
                TreeEntryKind::Blob => 0,
                TreeEntryKind::Tree => 1,
                TreeEntryKind::Symlink => 2,
            };
            push_le(&mut out, k, 4);
            push_bytes(&mut out, e.id.as_bytes().as_slice());
            push_le(&mut out, e.mode as u64, 2);
            push_le(&mut out, e.uid as u64, 4);
            push_le(&mut out, e.gid as u64, 4);
            proof {
                assert(self@.take(i + 1).drop_last() =~= self@.take(i as int));
                assert(self@.take(i + 1).last() == e@);
                assert(out@ =~= before + enc_entry(e@));
            }
            i += 1;
        }
        proof {
            assert(self@.take(self@.len() as int) =~= self@);
        }
        out
    }

    /// Reads a tree from the start of `data`; bytes after it are ignored.
    /// Bytes that no tree's encoding starts are refused.
    pub fn deserialize(data: &[u8]) -> (r: Result<TreeObject, String>)
        ensures
            match r {
                Ok(t) => at(data@, 0, enc_tree(t@)),
                Err(_) => forall|t: Seq<EntryView>|
                    entries_wf(t) ==> !at(data@, 0, #[trigger] enc_tree(t)),
            },
            forall|t: Seq<EntryView>|
                entries_wf(t) && #[trigger] at(data@, 0, enc_tree(t)) ==> r is Ok && r->Ok_0@ == t,
    {
        let blen = data.len();
        proof {
            lemma_pow256_values();
            assert(data@.len() == blen);
        }
        let ghost bv = data@;
        let (n, p0) = match read_le(data, 0, 8) {
            Some(x) => x,
            None => {
                proof {
                    assert forall|t: Seq<EntryView>| !at(bv, 0, #[trigger] enc_tree(t)) by {
                        if at(bv, 0, enc_tree(t)) {
                            lemma_tree_count(bv, t);
                            lemma_le_roundtrip(t.len(), 8);
                        }
                    }
                }
                return Err(owned("malformed tree object"));
            },
        };
        let mut entries: Vec<TreeEntry> = Vec::new();
        let mut p = p0;
        let mut i: u64 = 0;
        proof {
            assert(entries@.map_values(|e: TreeEntry| e@) =~= Seq::<EntryView>::empty());
            assert(bv.subrange(8, 8) =~= Seq::<u8>::empty());
            assert(enc_entries(Seq::<EntryView>::empty()) =~= Seq::<u8>::empty());
        }
        while i < n
            invariant
                bv == data@,
                bv.len() < pow256(8),
                pow256(8) == 0x1_0000_0000_0000_0000,
                p0 == 8,
                at(bv, 0, le_bytes(n as nat, 8)),
                n < pow256(8),
                i <= n,
                entries@.len() == i,
                at(bv, 8, enc_entries(entries@.map_values(|e: TreeEntry| e@))),
                p == 8 + enc_entries(entries@.map_values(|e: TreeEntry| e@)).len(),
            decreases n - i,
        {
            let ghost done = entries@.map_values(|e: TreeEntry| e@);
            let (e, q) = match read_entry(data, p) {
                Some(x) => x,
                None => {
                    proof {
                        assert forall|t: Seq<EntryView>| entries_wf(t) implies !at(
                            bv,
                            0,
                            #[trigger] enc_tree(t),
                        ) by {
                            if at(bv, 0, enc_tree(t)) {
                                lemma_tree_count(bv, t);
                                lemma_le_roundtrip(t.len(), 8);
                                lemma_le_roundtrip(n as nat, 8);
                                assert(le_bytes(t.len(), 8) == bv.subrange(0, 8));
                                assert(le_bytes(n as nat, 8) == bv.subrange(0, 8));
                                lemma_le_unique(t.len(), n as nat, 8);
                                lemma_entries_take(t, i as int);
                                lemma_at_concat(bv, 8, enc_entries(t.take(i as int)), enc_entries(t.skip(i as int)));
                                lemma_entries_unique(bv, 8, t.take(i as int), done);
                                lemma_entries_take(t.skip(i as int), 1);
                                assert(t.skip(i as int).take(1) =~= seq![t[i as int]]);
                                assert(enc_entries(seq![t[i as int]]) =~= enc_entry(t[i as int])) by {
                                    let one = seq![t[i as int]];
                                    assert(one.drop_last() =~= Seq::<EntryView>::empty());
                                    assert(one.last() == t[i as int]);
                                    assert(enc_entries(Seq::<EntryView>::empty()) =~= Seq::<u8>::empty());
                                    assert(enc_entries(one) == enc_entries(one.drop_last()) + enc_entry(one.last()));
                                }
                                lemma_at_concat(
                                    bv,
                                    p as int,
                                    enc_entries(t.skip(i as int).take(1)),
                                    enc_entries(t.skip(i as int).skip(1)),
                                );
                            }
                        }
                    }
                    return Err(owned("malformed tree object"));
                },
            };
            let ghost ev = e@;
            entries.push(e);
            proof {
                let now = entries@.map_values(|e: TreeEntry| e@);
                assert(now =~= done.push(ev));
                assert(now.drop_last() =~= done);
                lemma_at_concat(bv, 8, enc_entries(done), enc_entry(ev));
            }
            p = q;
            i += 1;
        }
        let t = TreeObject { entries };
        proof {
            lemma_at_concat(bv, 0, le_bytes(n as nat, 8), enc_entries(t@));
            lemma_le_roundtrip(n as nat, 8);
            assert forall|u: Seq<EntryView>| entries_wf(u) && #[trigger] at(data@, 0, enc_tree(u)) implies t@ == u by {
                lemma_tree_unique(bv, t@, u);
            }
        }
        Ok(t)
    }
}

} // verus!
