//! The object store: each object's kind and bytes under its id, each id
//! once.

use vstd::prelude::*;
use crate::error::{ErrorView, VfsError};
use crate::hash::sha256_digest;
use crate::text::{hex_of, owned};
use super::{lemma_id_len, ObjectId, ObjectKind};

verus! {

broadcast use lemma_id_len;

/// The objects of a store: kind and bytes by id.
pub type StoreView = Map<Seq<u8>, (ObjectKind, Seq<u8>)>;

/// The ids of a list of stored objects, in order.
pub open spec fn ids_of(items: Seq<(ObjectId, ObjectKind, Vec<u8>)>) -> Seq<Seq<u8>> {
    items.map_values(|e: (ObjectId, ObjectKind, Vec<u8>)| e.0@)
}

/// The position of `id` in a list of stored objects.
pub open spec fn position(items: Seq<(ObjectId, ObjectKind, Vec<u8>)>, id: Seq<u8>) -> int {
    choose|i: int| 0 <= i < items.len() && items[i].0@ == id
}

/// Where an id that a list holds is.
proof fn lemma_position(items: Seq<(ObjectId, ObjectKind, Vec<u8>)>, k: Seq<u8>)
    requires
        ids_of(items).contains(k),
    ensures
        0 <= position(items, k) < items.len(),
        items[position(items, k)].0@ == k,
{
    let i = choose|i: int| 0 <= i < ids_of(items).len() && ids_of(items)[i] == k;
    assert(items[i].0@ == k);
}

/// In a list without repeated ids, an id is where it is found.
proof fn lemma_position_at(items: Seq<(ObjectId, ObjectKind, Vec<u8>)>, k: Seq<u8>, i: int)
    requires
        ids_of(items).no_duplicates(),
        0 <= i < items.len(),
        items[i].0@ == k,
    ensures
        position(items, k) == i,
{
    assert(ids_of(items)[i] == k);
    lemma_position(items, k);
    let p = position(items, k);
    assert(ids_of(items)[p] == k);
}

/// A list of stored objects as a map from ids.
pub open spec fn store_map(items: Seq<(ObjectId, ObjectKind, Vec<u8>)>) -> StoreView {
    Map::new(
        |k: Seq<u8>| ids_of(items).contains(k),
        |k: Seq<u8>| (items[position(items, k)].1, items[position(items, k)].2@),
    )
}

/// Storing `data` as `kind`: nothing changes when its id is already there.
pub open spec fn put_spec(m: StoreView, data: Seq<u8>, kind: ObjectKind) -> StoreView {
    let id = sha256_digest(data);
    if m.contains_key(id) {
        m
    } else {
        m.insert(id, (kind, data))
    }
}

/// The kind that a byte names in exported objects.
pub open spec fn kind_of_byte(b: u8) -> Option<ObjectKind> {
    if b == 0 {
        Some(ObjectKind::Blob)
    } else if b == 1 {
        Some(ObjectKind::Tree)
    } else if b == 2 {
        Some(ObjectKind::Commit)
    } else {
        None
    }
}

/// The byte of a kind in exported objects.
pub open spec fn byte_of_kind(k: ObjectKind) -> u8 {
    match k {
        ObjectKind::Blob => 0,
        ObjectKind::Tree => 1,
        ObjectKind::Commit => 2,
    }
}

/// Importing objects one after another: each is stored (replacing what
/// was under its id) until one has an id that is not 32 bytes or a kind
/// byte that names no kind, which stops the import with an error.
pub open spec fn import_spec(m: StoreView, objs: Seq<(Vec<u8>, u8, Vec<u8>)>) -> (StoreView, Option<ErrorView>)
    decreases objs.len(),
{
    if objs.len() == 0 {
        (m, None)
    } else {
        let (id, k, data) = objs[0];
        if id@.len() != 32 {
            (m, Some(ErrorView::CorruptStore("invalid object ID length"@)))
        } else {
            match kind_of_byte(k) {
                None => (m, Some(ErrorView::CorruptStore("unknown object kind: "@ + crate::text::decimal(k as nat)))),
                Some(kind) => import_spec(m.insert(id@, (kind, data@)), objs.drop_first()),
            }
        }
    }
}

/// The object store.
pub struct BlobStore {
    items: Vec<(ObjectId, ObjectKind, Vec<u8>)>,
}

impl View for BlobStore {
    type V = StoreView;

    closed spec fn view(&self) -> StoreView {
        store_map(self.items@)
    }
}

/// Whether two ids are the same.
pub fn same_id(a: &ObjectId, b: &ObjectId) -> (r: bool)
    ensures
        r == (a@ == b@),
{
    let x = a.as_bytes();
    let y = b.as_bytes();
    let mut i: usize = 0;
    while i < 32
        invariant
            i <= 32,
            x@ == a@,
            y@ == b@,
            forall|j: int| 0 <= j < i ==> x@[j] == y@[j],
        decreases 32 - i,
    {
        if x[i] != y[i] {
            return false;
        }
        i += 1;
    }
    proof {
        assert(x@ =~= y@);
    }
    true
}

/// Every id is 32 bytes long and every object fits a 64-bit length, as in
/// every store that holds its objects in memory.
pub open spec fn store_fits(m: StoreView) -> bool {
    forall|k: Seq<u8>| #[trigger] m.contains_key(k) ==> k.len() == 32 && m[k].1.len() < crate::codec::pow256(8)
}

impl BlobStore {
    /// No id occurs twice.
    pub closed spec fn inv(&self) -> bool {
        ids_of(self.items@).no_duplicates()
    }

    /// The number of objects.
    pub closed spec fn len(&self) -> nat {
        self.items@.len()
    }

    /// The number of objects is the number of ids in the store.
    pub proof fn lemma_len(&self)
        requires
            self.inv(),
        ensures
            self@.dom().finite(),
            self@.dom().len() == self.len(),
    {
        let ids = ids_of(self.items@);
        assert(self@.dom() =~= ids.to_set());
        ids.unique_seq_to_set();
    }

    /// The store's ids are 32 bytes long and its objects fit a 64-bit length.
    pub proof fn lemma_fits(&self)
        ensures
            store_fits(self@),
    {
        crate::codec::lemma_pow256_values();
        assert forall|k: Seq<u8>| #[trigger] self@.contains_key(k) implies k.len() == 32 && self@[k].1.len()
            < crate::codec::pow256(8) by {
            lemma_position(self.items@, k);
            let i = position(self.items@, k);
            assert(self.items@[i].2@.len() == self.items@[i].2.len());
        }
    }

    /// After an object with a new id is pushed, the map gains it.
    proof fn lemma_pushed(
        &self,
        before: Seq<(ObjectId, ObjectKind, Vec<u8>)>,
        id: Seq<u8>,
        kind: ObjectKind,
        data: Seq<u8>,
    )
        requires
            ids_of(before).no_duplicates(),
            !store_map(before).contains_key(id),
            self.items@.len() == before.len() + 1,
            self.items@.drop_last() == before,
            self.items@.last().0@ == id,
            self.items@.last().1 == kind,
            self.items@.last().2@ == data,
        ensures
            self.inv(),
            self@ == store_map(before).insert(id, (kind, data)),
    {
        let items = self.items@;
        assert(ids_of(items) =~= ids_of(before).push(id));
        assert(ids_of(items).no_duplicates()) by {
            assert forall|a: int, c: int|
                0 <= a < ids_of(items).len() && 0 <= c < ids_of(items).len() && a != c implies ids_of(items)[a]
                != ids_of(items)[c] by {
                if a < before.len() && c < before.len() {
                    assert(ids_of(items)[a] == ids_of(before)[a]);
                    assert(ids_of(items)[c] == ids_of(before)[c]);
                } else if a < before.len() {
                    assert(ids_of(before).contains(ids_of(items)[a]));
                } else if c < before.len() {
                    assert(ids_of(before).contains(ids_of(items)[c]));
                }
            }
        }
        assert forall|k: Seq<u8>| #[trigger] ids_of(before).contains(k) implies position(items, k)
            == position(before, k) by {
            lemma_position(before, k);
            lemma_position_at(items, k, position(before, k));
        }
        lemma_position_at(items, id, before.len() as int);
        let target = store_map(before).insert(id, (kind, data));
        assert forall|k: Seq<u8>| #[trigger] self@.contains_key(k) <==> target.contains_key(k) by {
            if ids_of(items).contains(k) && k != id {
                let j = choose|j: int| 0 <= j < ids_of(items).len() && ids_of(items)[j] == k;
                assert(j < before.len());
                assert(ids_of(before)[j] == k);
            }
            if ids_of(before).contains(k) {
                let j = choose|j: int| 0 <= j < ids_of(before).len() && ids_of(before)[j] == k;
                assert(ids_of(items)[j] == k);
            }
            if k == id {
                assert(ids_of(items)[before.len() as int] == id);
            }
        }
        assert forall|k: Seq<u8>| #[trigger] self@.contains_key(k) implies self@[k] == target[k] by {
            if k != id {
                lemma_position(before, k);
                assert(items[position(before, k)] == before[position(before, k)]);
            }
        }
        assert(self@ =~= target);
    }

    /// An empty store.
    pub fn new() -> (r: Self)
        ensures
            r.inv(),
            r@ == Map::<Seq<u8>, (ObjectKind, Seq<u8>)>::empty(),
    {
        let r = BlobStore { items: Vec::new() };
        proof {
            assert(r@ =~= Map::<Seq<u8>, (ObjectKind, Seq<u8>)>::empty());
        }
        r
    }

    /// Where `id` is stored, if it is.
    fn find(&self, id: &ObjectId) -> (r: Option<usize>)
        requires
            self.inv(),
        ensures
            match r {
                Some(i) => i < self.items@.len() && self.items@[i as int].0@ == id@ && position(
                    self.items@,
                    id@,
                ) == i,
                None => !self@.contains_key(id@),
            },
    {
        let mut i: usize = 0;
        while i < self.items.len()
            invariant
                self.inv(),
                i <= self.items@.len(),
                forall|j: int| 0 <= j < i ==> self.items@[j].0@ != id@,
            decreases self.items.len() - i,
        {
            if same_id(&self.items[i].0, id) {
                proof {
                    lemma_position_at(self.items@, id@, i as int);
                }
                return Some(i);
            }
            i += 1;
        }
        proof {
            if ids_of(self.items@).contains(id@) {
                let k = choose|k: int| 0 <= k < ids_of(self.items@).len() && ids_of(self.items@)[k] == id@;
                assert(self.items@[k].0@ == id@);
            }
        }
        None
    }

    /// Stores `data` as an object of `kind` under the id of the bytes; an
    /// object already stored under that id stays as it is.
    pub fn put(&mut self, data: &[u8], kind: ObjectKind) -> (r: ObjectId)
        requires
            old(self).inv(),
        ensures
            final(self).inv(),
            r@ == sha256_digest(data@),
            final(self)@ == put_spec(old(self)@, data@, kind),
    {
        let id = ObjectId::from_bytes(data);
        match self.find(&id) {
            Some(i) => {
                proof {
                    assert(ids_of(self.items@)[i as int] == id@);
                }
            },
            None => {
                let ghost before = self.items@;
                self.items.push((id, kind, crate::fs::inode::copy_bytes(data)));
                proof {
                    assert(self.items@.drop_last() =~= before);
                    self.lemma_pushed(before, id@, kind, data@);
                }
            },
        }
        id
    }

    /// The bytes stored under `id`.
    pub fn get(&self, id: &ObjectId) -> (r: Result<&[u8], VfsError>)
        requires
            self.inv(),
        ensures
            match r {
                Ok(d) => self@.contains_key(id@) && d@ == self@[id@].1,
                Err(e) => !self@.contains_key(id@) && e@ == ErrorView::ObjectNotFound(
                    hex_of(id@).take(8),
                ),
            },
    {
        match self.find(id) {
            Some(i) => {
                proof {
                    assert(ids_of(self.items@)[i as int] == id@);
                }
                Ok(self.items[i].2.as_slice())
            },
            None => Err(VfsError::ObjectNotFound { id: id.short_hex() }),
        }
    }

    /// Whether an object is stored under `id`.
    pub fn contains(&self, id: &ObjectId) -> (r: bool)
        requires
            self.inv(),
        ensures
            r == self@.contains_key(id@),
    {
        let found = self.find(id);
        proof {
            if let Some(i) = found {
                assert(ids_of(self.items@)[i as int] == id@);
            }
        }
        found.is_some()
    }

    /// The number of stored objects.
    pub fn object_count(&self) -> (r: usize)
        requires
            self.inv(),
        ensures
            r == self@.dom().len(),
            self@.dom().finite(),
    {
        proof {
            self.lemma_len();
        }
        self.items.len()
    }

    /// Every object as (id bytes, kind byte, bytes), each id once.
    pub fn export_all(&self) -> (r: Vec<(Vec<u8>, u8, Vec<u8>)>)
        requires
            self.inv(),
        ensures
            r@.len() == self.len(),
            forall|i: int|
                0 <= i < r@.len() ==> self@.contains_key(#[trigger] r@[i].0@) && self@[r@[i].0@] == (
                    kind_of_byte(r@[i].1)->0,
                    r@[i].2@,
                ) && kind_of_byte(r@[i].1) is Some,
            forall|k: Seq<u8>|
                self@.contains_key(k) ==> exists|i: int| 0 <= i < r@.len() && #[trigger] r@[i].0@ == k,
            forall|i: int, j: int| 0 <= i < j < r@.len() ==> r@[i].0@ != r@[j].0@,
            forall|i: int| 0 <= i < r@.len() ==> (#[trigger] r@[i].0@).len() == 32,
    {
        let mut r: Vec<(Vec<u8>, u8, Vec<u8>)> = Vec::new();
        let mut i: usize = 0;
        while i < self.items.len()
            invariant
                self.inv(),
                i <= self.items@.len(),
                r@.len() == i,
                forall|j: int| 0 <= j < i ==> #[trigger] r@[j].0@ == self.items@[j].0@,
                forall|j: int| 0 <= j < i ==> #[trigger] r@[j].1 == byte_of_kind(self.items@[j].1),
                forall|j: int| 0 <= j < i ==> #[trigger] r@[j].2@ == self.items@[j].2@,
            decreases self.items.len() - i,
        {
            let item = &self.items[i];
            let id = &item.0;
            let kind = &item.1;
            let data = &item.2;
            let b: u8 = match kind {
                ObjectKind::Blob => 0,
                ObjectKind::Tree => 1,
                ObjectKind::Commit => 2,
            };
            let mut idv: Vec<u8> = Vec::new();
            let bytes = id.as_bytes();
            let mut k: usize = 0;
            while k < 32
                invariant
                    k <= 32,
                    bytes@ == id@,
                    idv@ == bytes@.take(k as int),
                decreases 32 - k,
            {
                idv.push(bytes[k]);
                proof {
                    assert(bytes@.take(k + 1) =~= bytes@.take(k as int).push(bytes@[k as int]));
                }
                k += 1;
            }
            proof {
                assert(bytes@.take(32) =~= bytes@);
            }
            let copied = crate::fs::inode::copy_bytes(data.as_slice());
            proof {
                assert(copied@ == self.items@[i as int].2@);
            }
            let ghost old_r = r@;
            let ghost cv = copied@;
            let entry = (idv, b, copied);
            proof {
                assert(entry.2@ == cv);
            }
            r.push(entry);
            proof {
                assert(r@[i as int] == entry);
                assert(r@[i as int].2@ == cv);
                assert forall|j: int| 0 <= j < i + 1 implies #[trigger] r@[j].2@ == self.items@[j].2@ by {
                    if j < i {
                        assert(r@[j] == old_r[j]);
                    }
                }
            }
            i += 1;
        }
        proof {
            let items = self.items@;
            assert forall|j: int| 0 <= j < r@.len() implies self@.contains_key(#[trigger] r@[j].0@)
                && self@[r@[j].0@] == (kind_of_byte(r@[j].1)->0, r@[j].2@) && kind_of_byte(r@[j].1) is Some by {
                assert(ids_of(items)[j] == items[j].0@);
                let p = position(items, items[j].0@);
                assert(ids_of(items)[p] == items[j].0@);
                if p != j {
                    assert(ids_of(items)[j] == ids_of(items)[p]);
                }
            }
            assert forall|k: Seq<u8>| self@.contains_key(k) implies exists|j: int|
                0 <= j < r@.len() && #[trigger] r@[j].0@ == k by {
                let j = choose|j: int| 0 <= j < ids_of(items).len() && ids_of(items)[j] == k;
                assert(r@[j].0@ == k);
            }
            assert forall|a: int, c: int| 0 <= a < c < r@.len() implies r@[a].0@ != r@[c].0@ by {
                assert(ids_of(items)[a] != ids_of(items)[c]);
            }
            assert forall|j: int| 0 <= j < r@.len() implies (#[trigger] r@[j].0@).len() == 32 by {
                assert(r@[j].0@ == items[j].0@);
            }
        }
        r
    }

    /// Stores each object as exported, one after another, each replacing
    /// what was under its id; stops at the first object with an id that is
    /// not 32 bytes or an unknown kind byte.
    pub fn import_all(&mut self, objects: Vec<(Vec<u8>, u8, Vec<u8>)>) -> (r: Result<(), VfsError>)
        requires
            old(self).inv(),
        ensures
            final(self).inv(),
            final(self)@ == import_spec(old(self)@, objects@).0,
            match import_spec(old(self)@, objects@).1 {
                None => r is Ok,
                Some(e) => r is Err && r->Err_0@ == e,
            },
    {
        let mut i: usize = 0;
        proof {
            assert(objects@.skip(0) =~= objects@);
        }
        while i < objects.len()
            invariant
                self.inv(),
                i <= objects@.len(),
                import_spec(old(self)@, objects@) == import_spec(self@, objects@.skip(i as int)),
            decreases objects.len() - i,
        {
            let ghost rest = objects@.skip(i as int);
            proof {
                assert(rest[0] == objects@[i as int]);
                assert(rest.drop_first() =~= objects@.skip(i + 1));
            }
            let (id_bytes, kind_byte, data) = &objects[i];
            if id_bytes.len() != 32 {
                return Err(VfsError::CorruptStore { message: owned("invalid object ID length") });
            }
            let kind = if *kind_byte == 0 {
                ObjectKind::Blob
            } else if *kind_byte == 1 {
                ObjectKind::Tree
            } else if *kind_byte == 2 {
                ObjectKind::Commit
            } else {
                let mut message = owned("unknown object kind: ");
                crate::text::push_decimal(&mut message, *kind_byte as u64);
                return Err(VfsError::CorruptStore { message });
            };
            let id = ObjectId::from_vec(id_bytes);
            self.insert(id, kind, crate::fs::inode::copy_bytes(data.as_slice()));
            i += 1;
        }
        proof {
            assert(objects@.skip(objects@.len() as int) =~= Seq::<(Vec<u8>, u8, Vec<u8>)>::empty());
        }
        Ok(())
    }

    /// Stores an object under `id`, replacing what was there.
    fn insert(&mut self, id: ObjectId, kind: ObjectKind, data: Vec<u8>)
        requires
            old(self).inv(),
        ensures
            final(self).inv(),
            final(self)@ == old(self)@.insert(id@, (kind, data@)),
    {
        let ghost before = self.items@;
        let ghost dv = data@;
        match self.find(&id) {
            Some(i) => {
                self.items.set(i, (id, kind, data));
                proof {
                    let items = self.items@;
                    assert(ids_of(items) =~= ids_of(before));
                    assert forall|k: Seq<u8>| #[trigger] ids_of(items).contains(k) && k != id@ implies position(items, k)
                        == position(before, k) by {
                        lemma_position(before, k);
                        lemma_position_at(items, k, position(before, k));
                    }
                    lemma_position_at(items, id@, i as int);
                    let target = store_map(before).insert(id@, (kind, dv));
                    assert forall|k: Seq<u8>| #[trigger] self@.contains_key(k) <==> target.contains_key(k) by {
                        if k == id@ {
                            assert(ids_of(items)[i as int] == k);
                            assert(ids_of(before)[i as int] == k);
                        }
                    }
                    assert forall|k: Seq<u8>| #[trigger] self@.contains_key(k) implies self@[k] == target[k] by {
                        if k != id@ {
                            lemma_position(before, k);
                            assert(position(before, k) != i);
                        }
                    }
                    assert(self@ =~= target);
                }
            },
            None => {
                self.items.push((id, kind, data));
                proof {
                    assert(self.items@.drop_last() =~= before);
                    self.lemma_pushed(before, id@, kind, dv);
                }
            },
        }
    }
}


/// What importing gives when no object fails: the store with each object
/// put under its id, later ones last.
pub open spec fn imported(m: StoreView, objs: Seq<(Vec<u8>, u8, Vec<u8>)>) -> StoreView
    decreases objs.len(),
{
    if objs.len() == 0 {
        m
    } else {
        imported(m.insert(objs[0].0@, (kind_of_byte(objs[0].1)->0, objs[0].2@)), objs.drop_first())
    }
}

/// Objects with 32-byte ids and known kinds import without error, each
/// under its id.
pub proof fn lemma_import_valid(m: StoreView, objs: Seq<(Vec<u8>, u8, Vec<u8>)>)
    requires
        forall|i: int| 0 <= i < objs.len() ==> (#[trigger] objs[i].0@).len() == 32 && kind_of_byte(objs[i].1) is Some,
    ensures
        import_spec(m, objs) == (imported(m, objs), None::<ErrorView>),
    decreases objs.len(),
{
    if objs.len() > 0 {
        assert(objs[0].0@.len() == 32 && kind_of_byte(objs[0].1) is Some);
        assert forall|i: int| 0 <= i < objs.drop_first().len() implies (#[trigger] objs.drop_first()[i].0@).len() == 32
            && kind_of_byte(objs.drop_first()[i].1) is Some by {
            assert(objs.drop_first()[i] == objs[i + 1]);
        }
        lemma_import_valid(m.insert(objs[0].0@, (kind_of_byte(objs[0].1)->0, objs[0].2@)), objs.drop_first());
    }
}

/// Importing objects with distinct ids into `m` adds exactly their
/// entries.
pub proof fn lemma_imported_entries(m: StoreView, objs: Seq<(Vec<u8>, u8, Vec<u8>)>)
    requires
        forall|i: int, j: int| 0 <= i < j < objs.len() ==> objs[i].0@ != objs[j].0@,
    ensures
        forall|k: Seq<u8>| #[trigger] imported(m, objs).contains_key(k) <==> (m.contains_key(k) || exists|i: int|
            0 <= i < objs.len() && objs[i].0@ == k),
        forall|i: int| 0 <= i < objs.len() ==> #[trigger] imported(m, objs)[objs[i].0@] == (
            kind_of_byte(objs[i].1)->0,
            objs[i].2@,
        ),
        forall|k: Seq<u8>| m.contains_key(k) && (forall|i: int| 0 <= i < objs.len() ==> objs[i].0@ != k) ==> #[trigger] imported(m, objs)[k] == m[k],
    decreases objs.len(),
{
    if objs.len() > 0 {
        let m1 = m.insert(objs[0].0@, (kind_of_byte(objs[0].1)->0, objs[0].2@));
        let rest = objs.drop_first();
        assert forall|i: int, j: int| 0 <= i < j < rest.len() implies rest[i].0@ != rest[j].0@ by {
            assert(rest[i] == objs[i + 1]);
            assert(rest[j] == objs[j + 1]);
        }
        lemma_imported_entries(m1, rest);
        assert(imported(m, objs) == imported(m1, rest));
        assert forall|k: Seq<u8>| #[trigger] imported(m, objs).contains_key(k) <==> (m.contains_key(k) || exists|i: int|
            0 <= i < objs.len() && objs[i].0@ == k) by {
            if exists|i: int| 0 <= i < objs.len() && objs[i].0@ == k {
                let i = choose|i: int| 0 <= i < objs.len() && objs[i].0@ == k;
                if i > 0 {
                    assert(rest[i - 1] == objs[i]);
                }
            }
            if exists|i: int| 0 <= i < rest.len() && rest[i].0@ == k {
                let i = choose|i: int| 0 <= i < rest.len() && rest[i].0@ == k;
                assert(objs[i + 1] == rest[i]);
            }
        }
        assert forall|i: int| 0 <= i < objs.len() implies #[trigger] imported(m, objs)[objs[i].0@] == (
            kind_of_byte(objs[i].1)->0,
            objs[i].2@,
        ) by {
            if i > 0 {
                assert(rest[i - 1] == objs[i]);
            } else {
                assert forall|j: int| 0 <= j < rest.len() implies rest[j].0@ != objs[0].0@ by {
                    assert(rest[j] == objs[j + 1]);
                }
                assert(m1.contains_key(objs[0].0@));
                assert(imported(m1, rest)[objs[0].0@] == m1[objs[0].0@]);
            }
        }
        assert forall|k: Seq<u8>| m.contains_key(k) && (forall|i: int| 0 <= i < objs.len() ==> objs[i].0@ != k) implies #[trigger] imported(m, objs)[k] == m[k] by {
            assert(objs[0].0@ != k);
            assert forall|j: int| 0 <= j < rest.len() implies rest[j].0@ != k by {
                assert(rest[j] == objs[j + 1]);
            }
        }
    }
}

/// Saving a store's objects and loading them back into an empty store
/// gives the same store: objects as `export_all` lists them import into
/// exactly what they came from, without error.
pub proof fn lemma_export_import(m: StoreView, objs: Seq<(Vec<u8>, u8, Vec<u8>)>)
    requires
        forall|i: int|
            0 <= i < objs.len() ==> m.contains_key(#[trigger] objs[i].0@) && m[objs[i].0@] == (
                kind_of_byte(objs[i].1)->0,
                objs[i].2@,
            ) && kind_of_byte(objs[i].1) is Some,
        forall|k: Seq<u8>| m.contains_key(k) ==> exists|i: int| 0 <= i < objs.len() && #[trigger] objs[i].0@ == k,
        forall|i: int, j: int| 0 <= i < j < objs.len() ==> objs[i].0@ != objs[j].0@,
        forall|i: int| 0 <= i < objs.len() ==> (#[trigger] objs[i].0@).len() == 32,
    ensures
        import_spec(Map::<Seq<u8>, (ObjectKind, Seq<u8>)>::empty(), objs) == (m, None::<ErrorView>),
{
    let e = Map::<Seq<u8>, (ObjectKind, Seq<u8>)>::empty();
    lemma_import_valid(e, objs);
    lemma_imported_entries(e, objs);
    let r = imported(e, objs);
    assert forall|k: Seq<u8>| #[trigger] r.contains_key(k) <==> m.contains_key(k) by {
        if r.contains_key(k) {
            let i = choose|i: int| 0 <= i < objs.len() && objs[i].0@ == k;
            assert(m.contains_key(objs[i].0@));
        }
    }
    assert forall|k: Seq<u8>| r.contains_key(k) implies #[trigger] r[k] == m[k] by {
        let i = choose|i: int| 0 <= i < objs.len() && objs[i].0@ == k;
        assert(r[objs[i].0@] == m[objs[i].0@]);
    }
    assert(r =~= m);
}

/// Content addressing stores identical data once: putting the same bytes
/// again, under any kind, changes nothing.
pub proof fn lemma_put_idempotent(m: StoreView, data: Seq<u8>, kind: ObjectKind, again: ObjectKind)
    ensures
        put_spec(put_spec(m, data, kind), data, again) == put_spec(m, data, kind),
{
}

/// After a put, the data's id holds the data.
pub proof fn lemma_put_holds(m: StoreView, data: Seq<u8>, kind: ObjectKind)
    requires
        forall|k: Seq<u8>| #[trigger] m.contains_key(k) ==> m[k].1 == data || k != sha256_digest(data),
    ensures
        put_spec(m, data, kind).contains_key(sha256_digest(data)),
        put_spec(m, data, kind)[sha256_digest(data)].1 == data,
{
}

} // verus!
