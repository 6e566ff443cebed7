//! Workspaces and the tokens that let an agent act in one: records kept in
//! memory, listed by name, and tokens whose secrets are kept only as
//! SHA-256 digests.

use vstd::prelude::*;
use vstd::utf8::encode_utf8;
use crate::error::{ErrorView, VfsError};
use crate::hash::{sha256, sha256_digest};
use crate::text::{chars_lt, hex_of, hex_string, lemma_seq_lt_irreflexive, lemma_seq_lt_total, lemma_seq_lt_transitive,
    owned, push_str, seq_lt, str_eq, to_chars};

verus! {

/// A fresh identifier (`Uuid::new_v4`), as its 128 bits. The bits are
/// drawn at random but for the version and variant that `new_v4` sets:
/// version 4 in bits 76 to 79, and the variant bits 63 and 62 set to 1
/// and 0. Nothing more is claimed of the value.
#[verifier::external_body]
fn new_uuid() -> (r: u128)
    ensures
        r & 0xF000_C000_0000_0000_0000u128 == 0x4000_8000_0000_0000_0000u128,
{
    uuid::Uuid::new_v4().as_u128()
}

/// The 16 bytes of an identifier, most significant first.
pub open spec fn id_bytes(id: u128) -> Seq<u8> {
    crate::codec::le_bytes(id as nat, 16).reverse()
}

/// The hyphenated text of an identifier: the lower-case hex of its bytes,
/// most significant first, in groups of 8, 4, 4, 4 and 12 digits joined by
/// '-'.
pub open spec fn uuid_text(id: u128) -> Seq<char> {
    let h = hex_of(id_bytes(id));
    h.subrange(0, 8) + seq!['-'] + h.subrange(8, 12) + seq!['-'] + h.subrange(12, 16) + seq!['-'] + h.subrange(
        16,
        20,
    ) + seq!['-'] + h.subrange(20, 32)
}

/// Writes an identifier as `uuid`'s `Display` does (`Uuid::from_u128`
/// takes the bytes most significant first; the text is hyphenated lower-case
/// hex). Claims that the text is `uuid_text` of the identifier.
#[verifier::external_body]
pub(crate) fn uuid_string(id: u128) -> (r: String)
    ensures
        r@ == uuid_text(id),
{
    uuid::Uuid::from_u128(id).to_string()
}

/// `n` random bytes (`rand::thread_rng().fill_bytes`). Nothing is claimed
/// of their values.
#[verifier::external_body]
fn random_bytes(n: usize) -> (r: Vec<u8>)
    ensures
        r@.len() == n,
{
    let mut bytes = vec![0u8; n];
    rand::RngCore::fill_bytes(&mut rand::thread_rng(), &mut bytes);
    bytes
}

/// The length in bytes of a workspace token's secret.
pub const SECRET_LEN: usize = 24;

/// A workspace: a named part of the tree with the commit it is at.
#[derive(Debug)]
pub struct WorkspaceRecord {
    pub id: u128,
    pub name: String,
    pub root_path: String,
    pub head_commit: Option<String>,
    pub version: u64,
}

/// The value of a workspace record.
pub struct WorkspaceView {
    pub id: u128,
    pub name: Seq<char>,
    pub root_path: Seq<char>,
    pub head_commit: Option<Seq<char>>,
    pub version: u64,
}

/// The value of an optional text.
pub open spec fn opt_text(o: Option<String>) -> Option<Seq<char>> {
    match o {
        Some(s) => Some(s@),
        None => None,
    }
}

impl View for WorkspaceRecord {
    type V = WorkspaceView;

    open spec fn view(&self) -> WorkspaceView {
        WorkspaceView {
            id: self.id,
            name: self.name@,
            root_path: self.root_path@,
            head_commit: opt_text(self.head_commit),
            version: self.version,
        }
    }
}

/// A token of a workspace: the agent it speaks for and the digest of its
/// secret, in lowercase hex.
#[derive(Debug)]
pub struct WorkspaceTokenRecord {
    pub id: u128,
    pub workspace_id: u128,
    pub name: String,
    pub agent_token: String,
    pub secret_hash: String,
}

/// The value of a token record.
pub struct TokenView {
    pub id: u128,
    pub workspace_id: u128,
    pub name: Seq<char>,
    pub agent_token: Seq<char>,
    pub secret_hash: Seq<char>,
}

impl View for WorkspaceTokenRecord {
    type V = TokenView;

    open spec fn view(&self) -> TokenView {
        TokenView {
            id: self.id,
            workspace_id: self.workspace_id,
            name: self.name@,
            agent_token: self.agent_token@,
            secret_hash: self.secret_hash@,
        }
    }
}

/// A token just issued, with its secret in the clear.
#[derive(Debug)]
pub struct IssuedWorkspaceToken {
    pub token: WorkspaceTokenRecord,
    pub raw_secret: String,
}

/// A token found valid, with its workspace.
#[derive(Debug)]
pub struct ValidWorkspaceToken {
    pub workspace: WorkspaceRecord,
    pub token: WorkspaceTokenRecord,
}

/// The digest under which a secret is kept: SHA-256 of its UTF-8 bytes, in
/// lowercase hex.
pub open spec fn secret_digest(raw: Seq<char>) -> Seq<char> {
    hex_of(sha256_digest(encode_utf8(raw)))
}

/// The position of the first token of workspace `w` kept under `hash`.
pub open spec fn first_token(ts: Seq<TokenView>, w: u128, hash: Seq<char>) -> Option<int> {
    if exists|i: int| 0 <= i < ts.len() && ts[i].workspace_id == w && #[trigger] ts[i].secret_hash == hash {
        Some(
            choose|i: int|
                0 <= i < ts.len() && ts[i].workspace_id == w && #[trigger] ts[i].secret_hash == hash && forall|j: int|
                    0 <= j < i ==> !(ts[j].workspace_id == w && #[trigger] ts[j].secret_hash == hash),
        )
    } else {
        None
    }
}

/// The first matching token is the one before which none matches.
proof fn lemma_first_token(ts: Seq<TokenView>, w: u128, hash: Seq<char>, k: int)
    requires
        0 <= k < ts.len(),
        ts[k].workspace_id == w && ts[k].secret_hash == hash,
        forall|j: int| 0 <= j < k ==> !(ts[j].workspace_id == w && #[trigger] ts[j].secret_hash == hash),
    ensures
        first_token(ts, w, hash) == Some(k),
{
    let c = choose|c: int|
        0 <= c < ts.len() && ts[c].workspace_id == w && #[trigger] ts[c].secret_hash == hash && forall|j: int|
            0 <= j < c ==> !(ts[j].workspace_id == w && #[trigger] ts[j].secret_hash == hash);
    assert(ts[k].secret_hash == hash);
    if c < k {
        assert(!(ts[c].workspace_id == w && ts[c].secret_hash == hash));
    }
    if c > k {
        assert(!(ts[k].workspace_id == w && ts[k].secret_hash == hash));
    }
}

/// The workspaces and their tokens, in memory.
pub struct WorkspaceStore {
    workspaces: Vec<WorkspaceRecord>,
    tokens: Vec<WorkspaceTokenRecord>,
}

/// Copies a text.
fn copy_opt(o: &Option<String>) -> (r: Option<String>)
    ensures
        opt_text(r) == opt_text(*o),
{
    match o {
        Some(s) => Some(owned(s.as_str())),
        None => None,
    }
}

/// Copies a workspace record.
fn copy_workspace(w: &WorkspaceRecord) -> (r: WorkspaceRecord)
    ensures
        r@ == w@,
{
    WorkspaceRecord {
        id: w.id,
        name: owned(w.name.as_str()),
        root_path: owned(w.root_path.as_str()),
        head_commit: copy_opt(&w.head_commit),
        version: w.version,
    }
}

/// Copies a token record.
fn copy_token(t: &WorkspaceTokenRecord) -> (r: WorkspaceTokenRecord)
    ensures
        r@ == t@,
{
    WorkspaceTokenRecord {
        id: t.id,
        workspace_id: t.workspace_id,
        name: owned(t.name.as_str()),
        agent_token: owned(t.agent_token.as_str()),
        secret_hash: owned(t.secret_hash.as_str()),
    }
}

/// The digest under which a secret is kept.
fn hash_secret(raw_secret: &str) -> (r: String)
    ensures
        r@ == secret_digest(raw_secret@),
{
    let digest = sha256(raw_secret.as_bytes());
    hex_string(digest.as_slice())
}

/// The values of a list of records.
pub open spec fn views(s: Seq<WorkspaceRecord>) -> Seq<WorkspaceView> {
    s.map_values(|w: WorkspaceRecord| w@)
}

/// Records in ascending order of name.
pub open spec fn by_name(vs: Seq<WorkspaceView>) -> bool {
    forall|a: int, b: int| 0 <= a < b < vs.len() ==> !seq_lt(#[trigger] vs[b].name, #[trigger] vs[a].name)
}

/// Inserting `wv` before the first name above its own keeps names in
/// order.
proof fn lemma_inserted(bv: Seq<WorkspaceView>, pos: int, wv: WorkspaceView)
    requires
        0 <= pos <= bv.len(),
        by_name(bv),
        forall|j: int| 0 <= j < pos ==> !seq_lt(wv.name, #[trigger] bv[j].name),
        pos < bv.len() ==> seq_lt(wv.name, bv[pos].name),
    ensures
        by_name(bv.insert(pos, wv)),
{
    let av = bv.insert(pos, wv);
    assert forall|j: int| pos <= j < bv.len() implies !seq_lt(#[trigger] bv[j].name, wv.name) by {
        if seq_lt(bv[j].name, wv.name) {
            lemma_seq_lt_transitive(bv[j].name, wv.name, bv[pos].name);
            if j == pos {
                lemma_seq_lt_irreflexive(bv[j].name);
            }
        }
    }
    assert forall|a: int, b: int| 0 <= a < b < av.len() implies !seq_lt(#[trigger] av[b].name, #[trigger] av[a].name) by {
        if b < pos {
            assert(av[a] == bv[a] && av[b] == bv[b]);
        } else if b == pos {
            assert(av[a] == bv[a]);
        } else if a < pos {
            assert(av[a] == bv[a] && av[b] == bv[b - 1]);
            if seq_lt(bv[b - 1].name, bv[a].name) {
                lemma_seq_lt_total(bv[a].name, wv.name);
                if seq_lt(bv[a].name, wv.name) {
                    lemma_seq_lt_transitive(bv[b - 1].name, bv[a].name, wv.name);
                }
            }
        } else if a == pos {
            assert(av[b] == bv[b - 1]);
        } else {
            assert(av[a] == bv[a - 1] && av[b] == bv[b - 1]);
        }
    }
}

impl WorkspaceStore {
    /// The records as kept, in the order they were made.
    pub closed spec fn records(&self) -> Seq<WorkspaceView> {
        self.workspaces@.map_values(|w: WorkspaceRecord| w@)
    }

    /// The tokens in the order they were issued.
    pub closed spec fn tokens(&self) -> Seq<TokenView> {
        self.tokens@.map_values(|t: WorkspaceTokenRecord| t@)
    }

    /// No two workspaces share an id.
    pub open spec fn inv(&self) -> bool {
        forall|i: int, j: int|
            0 <= i < j < self.records().len() ==> #[trigger] self.records()[i].id != #[trigger] self.records()[j].id
    }

    /// The workspaces by id.
    pub open spec fn workspace_map(&self) -> Map<u128, WorkspaceView> {
        Map::new(
            |id: u128| exists|i: int| 0 <= i < self.records().len() && #[trigger] self.records()[i].id == id,
            |id: u128|
                self.records()[choose|i: int| 0 <= i < self.records().len() && #[trigger] self.records()[i].id == id],
        )
    }

    /// An empty store.
    pub fn new() -> (r: Self)
        ensures
            r.inv(),
            r.records().len() == 0,
            r.tokens().len() == 0,
    {
        let r = WorkspaceStore { workspaces: Vec::new(), tokens: Vec::new() };
        proof {
            assert(r.records() =~= Seq::<WorkspaceView>::empty());
            assert(r.tokens() =~= Seq::<TokenView>::empty());
        }
        r
    }

    /// Where the workspace `id` is kept.
    fn position(&self, id: u128) -> (r: Option<usize>)
        ensures
            match r {
                Some(i) => i < self.records().len() && self.records()[i as int].id == id,
                None => forall|i: int| 0 <= i < self.records().len() ==> #[trigger] self.records()[i].id != id,
            },
    {
        let mut i: usize = 0;
        while i < self.workspaces.len()
            invariant
                i <= self.workspaces@.len(),
                forall|k: int| 0 <= k < i ==> #[trigger] self.records()[k].id != id,
            decreases self.workspaces.len() - i,
        {
            proof {
                assert(self.records()[i as int] == self.workspaces@[i as int]@);
            }
            if self.workspaces[i].id == id {
                return Some(i);
            }
            i += 1;
        }
        None
    }

    /// The workspace `id`, if there is one.
    pub fn get_workspace(&self, id: u128) -> (r: Option<WorkspaceRecord>)
        requires
            self.inv(),
        ensures
            match r {
                Some(w) => self.workspace_map().contains_key(id) && w@ == self.workspace_map()[id],
                None => !self.workspace_map().contains_key(id),
            },
    {
        match self.position(id) {
            Some(i) => {
                proof {
                    self.lemma_at(i as int);
                }
                Some(copy_workspace(&self.workspaces[i]))
            },
            None => None,
        }
    }

    /// The record at a position is the one its id maps to.
    proof fn lemma_at(&self, i: int)
        requires
            self.inv(),
            0 <= i < self.records().len(),
        ensures
            self.workspace_map().contains_key(self.records()[i].id),
            self.workspace_map()[self.records()[i].id] == self.records()[i],
            self.records()[i] == self.workspaces@[i]@,
    {
        let id = self.records()[i].id;
        let c = choose|k: int| 0 <= k < self.records().len() && #[trigger] self.records()[k].id == id;
        if c != i {
            if c < i {
                assert(self.records()[c].id != self.records()[i].id);
            } else {
                assert(self.records()[i].id != self.records()[c].id);
            }
        }
    }

    /// Makes a workspace with a fresh id, no head commit and version 0. An
    /// id already in use (which a random draw makes all but impossible)
    /// has its record replaced.
    pub fn create_workspace(&mut self, name: &str, root_path: &str) -> (r: WorkspaceRecord)
        requires
            old(self).inv(),
        ensures
            final(self).inv(),
            r@ == (WorkspaceView { id: r.id, name: name@, root_path: root_path@, head_commit: None, version: 0 }),
            final(self).workspace_map() == old(self).workspace_map().insert(r.id, r@),
            final(self).tokens() == old(self).tokens(),
    {
        let id = new_uuid();
        let record = WorkspaceRecord {
            id,
            name: owned(name),
            root_path: owned(root_path),
            head_commit: None,
            version: 0,
        };
        let kept = copy_workspace(&record);
        let ghost before = *self;
        match self.position(id) {
            Some(i) => {
                self.workspaces.set(i, kept);
                proof {
                    assert(self.records() =~= before.records().update(i as int, record@));
                    self.lemma_map_update(&before, i as int, record@);
                }
            },
            None => {
                self.workspaces.push(kept);
                proof {
                    assert(self.records() =~= before.records().push(record@));
                    self.lemma_map_push(&before, record@);
                }
            },
        }
        proof {
            assert(self.tokens() =~= before.tokens());
        }
        record
    }

    /// Replacing the record at a position by one with the same id replaces
    /// the id's record.
    proof fn lemma_map_update(&self, before: &Self, i: int, v: WorkspaceView)
        requires
            before.inv(),
            0 <= i < before.records().len(),
            before.records()[i].id == v.id,
            self.records() == before.records().update(i, v),
        ensures
            self.inv(),
            self.workspace_map() == before.workspace_map().insert(v.id, v),
    {
        assert forall|a: int, b: int| 0 <= a < b < self.records().len() implies #[trigger] self.records()[a].id
            != #[trigger] self.records()[b].id by {
            assert(self.records()[a].id == before.records()[a].id);
            assert(self.records()[b].id == before.records()[b].id);
        }
        self.lemma_at(i);
        assert forall|id: u128| #[trigger] self.workspace_map().contains_key(id) <==> before.workspace_map().insert(
            v.id,
            v,
        ).contains_key(id) by {
            if self.workspace_map().contains_key(id) {
                let k = choose|k: int| 0 <= k < self.records().len() && #[trigger] self.records()[k].id == id;
                assert(before.records()[k].id == id);
            }
            if before.workspace_map().contains_key(id) {
                let k = choose|k: int| 0 <= k < before.records().len() && #[trigger] before.records()[k].id == id;
                assert(self.records()[k].id == id);
            }
        }
        assert forall|id: u128| #[trigger] self.workspace_map().contains_key(id) implies self.workspace_map()[id]
            == before.workspace_map().insert(v.id, v)[id] by {
            let k = choose|k: int| 0 <= k < self.records().len() && #[trigger] self.records()[k].id == id;
            self.lemma_at(k);
            if id != v.id {
                assert(k != i);
                before.lemma_at(k);
            }
        }
        assert(self.workspace_map() =~= before.workspace_map().insert(v.id, v));
    }

    /// Adding a record with a new id adds it to the map.
    proof fn lemma_map_push(&self, before: &Self, v: WorkspaceView)
        requires
            before.inv(),
            forall|i: int| 0 <= i < before.records().len() ==> #[trigger] before.records()[i].id != v.id,
            self.records() == before.records().push(v),
        ensures
            self.inv(),
            self.workspace_map() == before.workspace_map().insert(v.id, v),
    {
        let n = before.records().len() as int;
        assert forall|a: int, b: int| 0 <= a < b < self.records().len() implies #[trigger] self.records()[a].id
            != #[trigger] self.records()[b].id by {
            if b < n {
                assert(self.records()[a].id == before.records()[a].id);
                assert(self.records()[b].id == before.records()[b].id);
            } else {
                assert(self.records()[a].id == before.records()[a].id);
            }
        }
        assert forall|id: u128| #[trigger] self.workspace_map().contains_key(id) <==> before.workspace_map().insert(
            v.id,
            v,
        ).contains_key(id) by {
            if self.workspace_map().contains_key(id) {
                let k = choose|k: int| 0 <= k < self.records().len() && #[trigger] self.records()[k].id == id;
                if k < n {
                    assert(before.records()[k].id == id);
                }
            }
            if before.workspace_map().contains_key(id) {
                let k = choose|k: int| 0 <= k < before.records().len() && #[trigger] before.records()[k].id == id;
                assert(self.records()[k].id == id);
            }
            if id == v.id {
                assert(self.records()[n].id == id);
            }
        }
        assert forall|id: u128| #[trigger] self.workspace_map().contains_key(id) implies self.workspace_map()[id]
            == before.workspace_map().insert(v.id, v)[id] by {
            let k = choose|k: int| 0 <= k < self.records().len() && #[trigger] self.records()[k].id == id;
            self.lemma_at(k);
            if k < n {
                before.lemma_at(k);
            }
        }
        assert(self.workspace_map() =~= before.workspace_map().insert(v.id, v));
    }

    /// Moves workspace `id` to `head_commit` and counts one more version;
    /// nothing happens to a workspace that is not there.
    pub fn update_head_commit(&mut self, id: u128, head_commit: Option<String>) -> (r: Option<WorkspaceRecord>)
        requires
            old(self).inv(),
            old(self).workspace_map().contains_key(id) ==> old(self).workspace_map()[id].version < u64::MAX,
        ensures
            final(self).inv(),
            final(self).tokens() == old(self).tokens(),
            !old(self).workspace_map().contains_key(id) ==> r is None && final(self).workspace_map() == old(
                self,
            ).workspace_map(),
            old(self).workspace_map().contains_key(id) ==> {
                let w = old(self).workspace_map()[id];
                let nw = WorkspaceView { head_commit: opt_text(head_commit), version: (w.version + 1) as u64, ..w };
                &&& r matches Some(x) && x@ == nw
                &&& final(self).workspace_map() == old(self).workspace_map().insert(id, nw)
            },
    {
        match self.position(id) {
            None => None,
            Some(i) => {
                let ghost before = *self;
                proof {
                    before.lemma_at(i as int);
                }
                let old_rec = &self.workspaces[i];
                let record = WorkspaceRecord {
                    id: old_rec.id,
                    name: owned(old_rec.name.as_str()),
                    root_path: owned(old_rec.root_path.as_str()),
                    head_commit,
                    version: old_rec.version + 1,
                };
                let out = copy_workspace(&record);
                self.workspaces.set(i, record);
                proof {
                    assert(self.records() =~= before.records().update(i as int, out@));
                    self.lemma_map_update(&before, i as int, out@);
                    assert(self.tokens() =~= before.tokens());
                }
                Some(out)
            },
        }
    }

    /// Issues a token of workspace `workspace_id` for `agent_token`: a fresh
    /// id and a random secret of 24 bytes in lowercase hex, kept only as
    /// its digest.
    pub fn issue_workspace_token(&mut self, workspace_id: u128, name: &str, agent_token: &str) -> (r: Result<
        IssuedWorkspaceToken,
        VfsError,
    >)
        requires
            old(self).inv(),
        ensures
            final(self).inv(),
            final(self).workspace_map() == old(self).workspace_map(),
            !old(self).workspace_map().contains_key(workspace_id) ==> r is Err && r->Err_0@ == ErrorView::AuthError(
                "unknown workspace: "@ + uuid_text(workspace_id),
            ) && final(self).tokens() == old(self).tokens(),
            old(self).workspace_map().contains_key(workspace_id) ==> {
                &&& r is Ok
                &&& r->Ok_0.token@.workspace_id == workspace_id
                &&& r->Ok_0.token@.name == name@
                &&& r->Ok_0.token@.agent_token == agent_token@
                &&& r->Ok_0.token@.secret_hash == secret_digest(r->Ok_0.raw_secret@)
                &&& r->Ok_0.raw_secret@.len() == 48
                &&& exists|b: Seq<u8>| b.len() == SECRET_LEN && r->Ok_0.raw_secret@ == #[trigger] hex_of(b)
                &&& final(self).tokens() == old(self).tokens().push(r->Ok_0.token@)
            },
    {
        match self.position(workspace_id) {
            None => {
                proof {
                    assert(!self.workspace_map().contains_key(workspace_id));
                }
                let mut message = owned("unknown workspace: ");
                push_str(&mut message, uuid_string(workspace_id).as_str());
                Err(VfsError::AuthError { message })
            },
            Some(i) => {
                proof {
                    self.lemma_at(i as int);
                }
                let bytes = random_bytes(SECRET_LEN);
                let raw_secret = hex_string(bytes.as_slice());
                let token = WorkspaceTokenRecord {
                    id: new_uuid(),
                    workspace_id,
                    name: owned(name),
                    agent_token: owned(agent_token),
                    secret_hash: hash_secret(raw_secret.as_str()),
                };
                let ghost before = *self;
                self.tokens.push(copy_token(&token));
                proof {
                    assert(self.tokens() =~= before.tokens().push(token@));
                    assert(self.records() =~= before.records());
                    assert(self.workspace_map() =~= before.workspace_map());
                    assert(raw_secret@ == hex_of(bytes@));
                }
                Ok(IssuedWorkspaceToken { token, raw_secret })
            },
        }
    }

    /// The workspace and the first of its tokens whose secret is
    /// `raw_secret`, if both are there.
    pub fn validate_workspace_token(&self, workspace_id: u128, raw_secret: &str) -> (r: Option<ValidWorkspaceToken>)
        requires
            self.inv(),
        ensures
            r is Some <==> (self.workspace_map().contains_key(workspace_id) && first_token(
                self.tokens(),
                workspace_id,
                secret_digest(raw_secret@),
            ) is Some),
            r matches Some(v) ==> v.workspace@ == self.workspace_map()[workspace_id] && v.token@ == self.tokens()[first_token(
                self.tokens(),
                workspace_id,
                secret_digest(raw_secret@),
            )->0],
    {
        let i = match self.position(workspace_id) {
            Some(i) => i,
            None => {
                return None;
            },
        };
        proof {
            self.lemma_at(i as int);
        }
        let expected = hash_secret(raw_secret);
        let ghost h = secret_digest(raw_secret@);
        let ghost ts = self.tokens();
        let mut k: usize = 0;
        while k < self.tokens.len()
            invariant
                k <= self.tokens@.len(),
                i < self.workspaces@.len(),
                self.workspace_map().contains_key(workspace_id),
                self.workspace_map()[workspace_id] == self.workspaces@[i as int]@,
                ts == self.tokens(),
                ts.len() == self.tokens@.len(),
                expected@ == h,
                h == secret_digest(raw_secret@),
                forall|j: int| 0 <= j < k ==> !(ts[j].workspace_id == workspace_id && #[trigger] ts[j].secret_hash == h),
            decreases self.tokens.len() - k,
        {
            let t = &self.tokens[k];
            proof {
                assert(ts[k as int] == t@);
            }
            if t.workspace_id == workspace_id && str_eq(t.secret_hash.as_str(), expected.as_str()) {
                proof {
                    lemma_first_token(ts, workspace_id, h, k as int);
                }
                return Some(
                    ValidWorkspaceToken { workspace: copy_workspace(&self.workspaces[i]), token: copy_token(t) },
                );
            }
            k += 1;
        }
        proof {
            assert(first_token(ts, workspace_id, h) is None);
        }
        None
    }

    /// The workspaces, in ascending order of name.
    pub fn list_workspaces(&self) -> (r: Vec<WorkspaceRecord>)
        ensures
            views(r@).to_multiset() == self.records().to_multiset(),
            by_name(views(r@)),
    {
        broadcast use vstd::seq_lib::to_multiset_insert, vstd::seq_lib::group_to_multiset_ensures;
        let ghost ws = self.records();
        let mut out: Vec<WorkspaceRecord> = Vec::new();
        let mut i: usize = 0;
        proof {
            assert(ws.take(0) =~= Seq::<WorkspaceView>::empty());
            assert(views(out@) =~= Seq::<WorkspaceView>::empty());
        }
        while i < self.workspaces.len()
            invariant
                i <= self.workspaces@.len(),
                ws == self.records(),
                ws.len() == self.workspaces@.len(),
                views(out@).to_multiset() == ws.take(i as int).to_multiset(),
                by_name(views(out@)),
            decreases self.workspaces.len() - i,
        {
            let w = copy_workspace(&self.workspaces[i]);
            proof {
                assert(ws[i as int] == self.workspaces@[i as int]@);
            }
            let ghost wv = w@;
            let wn = to_chars(w.name.as_str());
            let mut k: usize = 0;
            let mut stop = false;
            while !stop && k < out.len()
                invariant
                    k <= out@.len(),
                    wn@ == wv.name,
                    forall|j: int| 0 <= j < k ==> !seq_lt(wv.name, #[trigger] views(out@)[j].name),
                    stop ==> k < out@.len() && seq_lt(wv.name, views(out@)[k as int].name),
                decreases out.len() - k, (if stop {
                    0int
                } else {
                    1int
                }),
            {
                let on = to_chars(out[k].name.as_str());
                proof {
                    assert(views(out@)[k as int] == out@[k as int]@);
                }
                if chars_lt(wn.as_slice(), on.as_slice()) {
                    stop = true;
                } else {
                    k += 1;
                }
            }
            let ghost bv = views(out@);
            out.insert(k, w);
            proof {
                lemma_inserted(bv, k as int, wv);
                assert(views(out@) =~= bv.insert(k as int, wv));
                assert(ws.take(i + 1) =~= ws.take(i as int).push(ws[i as int]));
                vstd::seq_lib::to_multiset_insert(bv, k as int, wv);
                ws.take(i as int).to_multiset_ensures();
                assert(ws.take(i as int).push(ws[i as int]).to_multiset() == ws.take(i as int).to_multiset().insert(
                    ws[i as int],
                ));
            }
            i += 1;
        }
        proof {
            assert(ws.take(i as int) =~= ws);
        }
        out
    }
}

} // verus!
