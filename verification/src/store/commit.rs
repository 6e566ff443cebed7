//! Commit objects: a snapshot's root tree, the commit before it, when and
//! by whom it was made and why.

use vstd::prelude::*;
use crate::codec::{
    at, enc_bytes, enc_str, lemma_at_concat, lemma_bytes_unique, lemma_le_len, lemma_le_roundtrip,
    lemma_le_unique, lemma_pow256_values, le_bytes, pow256, push_bytes, push_le, push_text, read_le,
    read_text,
};
use crate::text::owned;
use super::tree::read_id;
use super::{lemma_id_len, ObjectId};

verus! {

broadcast use lemma_id_len;

/// A commit.
#[derive(Debug)]
pub struct CommitObject {
    pub id: ObjectId,
    pub tree: ObjectId,
    pub parent: Option<ObjectId>,
    pub timestamp: u64,
    pub message: String,
    pub author: String,
}

/// The value of a commit.
pub struct CommitView {
    pub id: Seq<u8>,
    pub tree: Seq<u8>,
    pub parent: Option<Seq<u8>>,
    pub timestamp: u64,
    pub message: Seq<char>,
    pub author: Seq<char>,
}

/// The value of an optional id.
pub open spec fn opt_id(p: Option<ObjectId>) -> Option<Seq<u8>> {
    match p {
        Some(id) => Some(id@),
        None => None,
    }
}

impl View for CommitObject {
    type V = CommitView;

    open spec fn view(&self) -> CommitView {
        CommitView {
            id: self.id@,
            tree: self.tree@,
            parent: opt_id(self.parent),
            timestamp: self.timestamp,
            message: self.message@,
            author: self.author@,
        }
    }
}

/// The bytes of an optional id: a 0, or a 1 and the id.
pub open spec fn enc_opt(p: Option<Seq<u8>>) -> Seq<u8> {
    match p {
        None => le_bytes(0, 1),
        Some(id) => le_bytes(1, 1) + enc_bytes(id),
    }
}

/// The bytes of a commit: id, tree, parent, time, message, author.
pub open spec fn enc_commit(c: CommitView) -> Seq<u8> {
    enc_bytes(c.id) + enc_bytes(c.tree) + enc_opt(c.parent) + le_bytes(c.timestamp as nat, 8)
        + enc_str(c.message) + enc_str(c.author)
}

/// A commit whose ids are all 32 bytes long.
pub open spec fn commit_wf(c: CommitView) -> bool {
    &&& c.id.len() == 32
    &&& c.tree.len() == 32
    &&& c.parent matches Some(p) ==> p.len() == 32
}

/// The parts of a commit standing at the start of some bytes stand one
/// after another.
proof fn lemma_commit_split(b: Seq<u8>, c: CommitView)
    requires
        at(b, 0, enc_commit(c)),
    ensures
        at(b, 0, enc_bytes(c.id)),
        at(b, enc_bytes(c.id).len() as int, enc_bytes(c.tree)),
        at(b, (enc_bytes(c.id).len() + enc_bytes(c.tree).len()) as int, enc_opt(c.parent)),
        at(
            b,
            (enc_bytes(c.id).len() + enc_bytes(c.tree).len() + enc_opt(c.parent).len()) as int,
            le_bytes(c.timestamp as nat, 8),
        ),
        at(
            b,
            (enc_bytes(c.id).len() + enc_bytes(c.tree).len() + enc_opt(c.parent).len() + 8) as int,
            enc_str(c.message),
        ),
        at(
            b,
            (enc_bytes(c.id).len() + enc_bytes(c.tree).len() + enc_opt(c.parent).len() + 8 + enc_str(
                c.message,
            ).len()) as int,
            enc_str(c.author),
        ),
{
    let a = enc_bytes(c.id);
    let t = enc_bytes(c.tree);
    let o = enc_opt(c.parent);
    let s = le_bytes(c.timestamp as nat, 8);
    let m = enc_str(c.message);
    let w = enc_str(c.author);
    lemma_le_len(c.timestamp as nat, 8);
    lemma_at_concat(b, 0, a + t + o + s + m, w);
    lemma_at_concat(b, 0, a + t + o + s, m);
    lemma_at_concat(b, 0, a + t + o, s);
    lemma_at_concat(b, 0, a + t, o);
    lemma_at_concat(b, 0, a, t);
}

impl CommitObject {
    /// The bytes of the commit.
    pub fn serialize(&self) -> (r: Vec<u8>)
        ensures
            r@ == enc_commit(self@),
    {
        let mut out: Vec<u8> = Vec::new();
        proof {
            lemma_pow256_values();
            reveal_with_fuel(pow256, 2);
        }
        push_bytes(&mut out, self.id.as_bytes().as_slice());
        push_bytes(&mut out, self.tree.as_bytes().as_slice());
        match &self.parent {
            None => {
                push_le(&mut out, 0, 1);
            },
            Some(p) => {
                push_le(&mut out, 1, 1);
                push_bytes(&mut out, p.as_bytes().as_slice());
            },
        }
        push_le(&mut out, self.timestamp, 8);
        push_text(&mut out, self.message.as_str());
        push_text(&mut out, self.author.as_str());
        proof {
            assert(out@ =~= enc_commit(self@));
        }
        out
    }

    /// Reads a commit from the start of `data`; bytes after it are ignored.
    /// Bytes that no commit's encoding starts are refused.
    pub fn deserialize(data: &[u8]) -> (r: Result<CommitObject, String>)
        ensures
            match r {
                Ok(c) => at(data@, 0, enc_commit(c@)),
                Err(_) => forall|c: CommitView| commit_wf(c) ==> !at(data@, 0, #[trigger] enc_commit(c)),
            },
    {
        let blen = data.len();
        proof {
            lemma_pow256_values();
            reveal_with_fuel(pow256, 2);
            assert(data@.len() == blen);
        }
        let ghost bv = data@;
        let (id, p1) = match read_id(data, 0) {
            Some(x) => x,
            None => {
                proof {
                    assert forall|c: CommitView| commit_wf(c) implies !at(bv, 0, #[trigger] enc_commit(c)) by {
                        if at(bv, 0, enc_commit(c)) {
                            lemma_commit_split(bv, c);
                        }
                    }
                }
                return Err(owned("malformed commit object"));
            },
        };
        let (tree, p2) = match read_id(data, p1) {
            Some(x) => x,
            None => {
                proof {
                    assert forall|c: CommitView| commit_wf(c) implies !at(bv, 0, #[trigger] enc_commit(c)) by {
                        if at(bv, 0, enc_commit(c)) {
                            lemma_commit_split(bv, c);
                            lemma_bytes_unique(bv, 0, id@, c.id);
                        }
                    }
                }
                return Err(owned("malformed commit object"));
            },
        };
        let (tag, p3) = match read_le(data, p2, 1) {
            Some(x) => x,
            None => {
                proof {
                    assert forall|c: CommitView| commit_wf(c) implies !at(bv, 0, #[trigger] enc_commit(c)) by {
                        if at(bv, 0, enc_commit(c)) {
                            lemma_commit_split(bv, c);
                            lemma_bytes_unique(bv, 0, id@, c.id);
                            lemma_bytes_unique(bv, p1 as int, tree@, c.tree);
                            lemma_le_len(0, 1);
                            lemma_le_len(1, 1);
                            lemma_at_concat(bv, p2 as int, le_bytes(1, 1), enc_bytes(c.parent->0));
                        }
                    }
                }
                return Err(owned("malformed commit object"));
            },
        };
        if tag > 1 {
            proof {
                assert forall|c: CommitView| commit_wf(c) implies !at(bv, 0, #[trigger] enc_commit(c)) by {
                    if at(bv, 0, enc_commit(c)) {
                        lemma_commit_split(bv, c);
                        lemma_bytes_unique(bv, 0, id@, c.id);
                        lemma_bytes_unique(bv, p1 as int, tree@, c.tree);
                        lemma_le_roundtrip(tag as nat, 1);
                        lemma_le_roundtrip(0, 1);
                        lemma_le_roundtrip(1, 1);
                        if c.parent is Some {
                            lemma_at_concat(bv, p2 as int, le_bytes(1, 1), enc_bytes(c.parent->0));
                            assert(le_bytes(1, 1) == bv.subrange(p2 as int, p2 + 1));
                            assert(le_bytes(tag as nat, 1) == bv.subrange(p2 as int, p2 + 1));
                            lemma_le_unique(1, tag as nat, 1);
                        } else {
                            assert(le_bytes(0, 1) == bv.subrange(p2 as int, p2 + 1));
                            assert(le_bytes(tag as nat, 1) == bv.subrange(p2 as int, p2 + 1));
                            lemma_le_unique(0, tag as nat, 1);
                        }
                    }
                }
            }
            return Err(owned("malformed commit object"));
        }
        let (parent, p4) = if tag == 0 {
            (None, p3)
        } else {
            match read_id(data, p3) {
                Some((pid, q)) => (Some(pid), q),
                None => {
                    proof {
                        assert forall|c: CommitView| commit_wf(c) implies !at(bv, 0, #[trigger] enc_commit(c)) by {
                            if at(bv, 0, enc_commit(c)) {
                                lemma_commit_split(bv, c);
                                lemma_bytes_unique(bv, 0, id@, c.id);
                                lemma_bytes_unique(bv, p1 as int, tree@, c.tree);
                                lemma_le_roundtrip(0, 1);
                                lemma_le_roundtrip(1, 1);
                                assert(le_bytes(tag as nat, 1) == bv.subrange(p2 as int, p2 + 1));
                                if c.parent is Some {
                                    lemma_at_concat(bv, p2 as int, le_bytes(1, 1), enc_bytes(c.parent->0));
                                } else {
                                    assert(le_bytes(0, 1) == bv.subrange(p2 as int, p2 + 1));
                                    lemma_le_unique(0, tag as nat, 1);
                                }
                            }
                        }
                    }
                    return Err(owned("malformed commit object"));
                },
            }
        };
        proof {
            lemma_le_roundtrip(0, 1);
            lemma_le_roundtrip(1, 1);
            if tag == 1 {
                lemma_at_concat(bv, p2 as int, le_bytes(1, 1), enc_bytes(parent->0@));
            }
            assert(at(bv, p2 as int, enc_opt(opt_id(parent))));
            assert(p4 == p2 + enc_opt(opt_id(parent)).len());
        }
        proof {
            assert forall|c: CommitView| commit_wf(c) && at(bv, 0, enc_commit(c)) implies c.id == id@
                && c.tree == tree@ && c.parent == opt_id(parent) by {
                lemma_commit_split(bv, c);
                lemma_bytes_unique(bv, 0, id@, c.id);
                lemma_bytes_unique(bv, p1 as int, tree@, c.tree);
                assert(le_bytes(tag as nat, 1) == bv.subrange(p2 as int, p2 + 1));
                if c.parent is Some {
                    lemma_at_concat(bv, p2 as int, le_bytes(1, 1), enc_bytes(c.parent->0));
                    assert(le_bytes(1, 1) == bv.subrange(p2 as int, p2 + 1));
                    lemma_le_unique(1, tag as nat, 1);
                    lemma_at_concat(bv, p2 as int, le_bytes(1, 1), enc_bytes(parent->0@));
                    lemma_bytes_unique(bv, p3 as int, parent->0@, c.parent->0);
                } else {
                    assert(le_bytes(0, 1) == bv.subrange(p2 as int, p2 + 1));
                    lemma_le_unique(0, tag as nat, 1);
                }
            }
        }
        let (timestamp, p5) = match read_le(data, p4, 8) {
            Some(x) => x,
            None => {
                proof {
                    assert forall|c: CommitView| commit_wf(c) implies !at(bv, 0, #[trigger] enc_commit(c)) by {
                        if at(bv, 0, enc_commit(c)) {
                            lemma_commit_split(bv, c);
                        }
                    }
                }
                return Err(owned("malformed commit object"));
            },
        };
        let (message, p6) = match read_text(data, p5) {
            Some(x) => x,
            None => {
                proof {
                    assert forall|c: CommitView| commit_wf(c) implies !at(bv, 0, #[trigger] enc_commit(c)) by {
                        if at(bv, 0, enc_commit(c)) {
                            lemma_commit_split(bv, c);
                        }
                    }
                }
                return Err(owned("malformed commit object"));
            },
        };
        let (author, p7) = match read_text(data, p6) {
            Some(x) => x,
            None => {
                proof {
                    assert forall|c: CommitView| commit_wf(c) implies !at(bv, 0, #[trigger] enc_commit(c)) by {
                        if at(bv, 0, enc_commit(c)) {
                            lemma_commit_split(bv, c);
                            lemma_bytes_unique(
                                bv,
                                p5 as int,
                                vstd::utf8::encode_utf8(message@),
                                vstd::utf8::encode_utf8(c.message),
                            );
                        }
                    }
                }
                return Err(owned("malformed commit object"));
            },
        };
        let c = CommitObject { id, tree, parent, timestamp, message, author };
        proof {
            let cv = c@;
            lemma_le_len(timestamp as nat, 8);
            let a = enc_bytes(cv.id);
            let t = enc_bytes(cv.tree);
            let o = enc_opt(cv.parent);
            let s = le_bytes(cv.timestamp as nat, 8);
            let m = enc_str(cv.message);
            let w = enc_str(cv.author);
            lemma_at_concat(bv, 0, a, t);
            lemma_at_concat(bv, 0, a + t, o);
            lemma_at_concat(bv, 0, a + t + o, s);
            lemma_at_concat(bv, 0, a + t + o + s, m);
            lemma_at_concat(bv, 0, a + t + o + s + m, w);
        }
        Ok(c)
    }
}

} // verus!
