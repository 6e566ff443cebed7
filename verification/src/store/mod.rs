//! Content-addressed objects: ids are SHA-256 digests, and blobs, trees and
//! commits are stored under the id of their bytes.

pub mod blob;
pub mod commit;
pub mod tree;

use vstd::prelude::*;
use vstd::string::StringSliceAdditionalSpecFns;
use vstd::utf8::is_char_boundary;
use crate::error::{ErrorView, VfsError};
use crate::hash::{sha256, sha256_digest};
use crate::text::{hex_of, hex_string, owned, push_str, to_chars};

verus! {

/// The id of an object: the SHA-256 digest of its bytes.
#[derive(Clone, Copy, Debug, PartialEq, Eq, PartialOrd, Ord, Hash)]
pub struct ObjectId([u8; 32]);

impl View for ObjectId {
    type V = Seq<u8>;

    closed spec fn view(&self) -> Seq<u8> {
        self.0@
    }
}

/// An id is 32 bytes long.
pub broadcast proof fn lemma_id_len(id: ObjectId)
    ensures
        #[trigger] id@.len() == 32,
{
}

/// The kind of a stored object.
#[derive(Clone, Copy, Debug, PartialEq, Eq, Structural)]
pub enum ObjectKind {
    Blob,
    Tree,
    Commit,
}

/// The value of a hex digit byte, if it is one.
pub open spec fn hex_digit(b: u8) -> Option<nat> {
    if 48 <= b <= 57 {
        Some((b - 48) as nat)
    } else if 97 <= b <= 102 {
        Some((b - 87) as nat)
    } else if 65 <= b <= 70 {
        Some((b - 55) as nat)
    } else {
        None
    }
}

/// What `u8::from_str_radix(_, 16)` makes of two bytes: two hex digits, or
/// a '+' before one.
pub open spec fn hex_pair(b0: u8, b1: u8) -> Option<u8> {
    if b0 == 43 {
        match hex_digit(b1) {
            Some(d) => Some(d as u8),
            None => None,
        }
    } else {
        match (hex_digit(b0), hex_digit(b1)) {
            (Some(h), Some(l)) => Some((16 * h + l) as u8),
            _ => None,
        }
    }
}

fn hex_digit_of(b: u8) -> (r: Option<u8>)
    ensures
        match hex_digit(b) {
            Some(d) => r == Some(d as u8),
            None => r is None,
        },
{
    if 48 <= b && b <= 57 {
        Some(b - 48)
    } else if 97 <= b && b <= 102 {
        Some(b - 87)
    } else if 65 <= b && b <= 70 {
        Some(b - 55)
    } else {
        None
    }
}

fn hex_pair_of(b0: u8, b1: u8) -> (r: Option<u8>)
    ensures
        r == hex_pair(b0, b1),
{
    if b0 == 43 {
        return hex_digit_of(b1);
    }
    match (hex_digit_of(b0), hex_digit_of(b1)) {
        (Some(h), Some(l)) => Some(16 * h + l),
        _ => None,
    }
}

impl ObjectId {
    /// The id of some bytes: their SHA-256 digest.
    pub fn from_bytes(data: &[u8]) -> (r: ObjectId)
        ensures
            r@ == sha256_digest(data@),
    {
        let digest = sha256(data);
        let mut id = [0u8; 32];
        let mut i: usize = 0;
        while i < 32
            invariant
                i <= 32,
                digest@.len() == 32,
                forall|j: int| 0 <= j < i ==> id@[j] == digest@[j],
            decreases 32 - i,
        {
            id[i] = digest[i];
            i += 1;
        }
        proof {
            assert(id@ =~= digest@);
        }
        ObjectId(id)
    }

    /// The 32 bytes of the id.
    pub fn as_bytes(&self) -> (r: &[u8; 32])
        ensures
            r@ == self@,
    {
        &self.0
    }

    /// The id in lower-case hex, 64 digits.
    pub fn to_hex(&self) -> (r: String)
        ensures
            r@ == hex_of(self@),
            r@.len() == 64,
    {
        hex_string(self.0.as_slice())
    }

    /// The first 8 hex digits of the id.
    pub fn short_hex(&self) -> (r: String)
        ensures
            r@ == hex_of(self@).take(8),
    {
        let h = to_chars(self.to_hex().as_str());
        crate::text::substring(h.as_slice(), 0, 8)
    }

    /// An id made of the 32 bytes of a vector.
    pub(crate) fn from_vec(v: &Vec<u8>) -> (r: ObjectId)
        requires
            v@.len() == 32,
        ensures
            r@ == v@,
    {
        let mut id = [0u8; 32];
        let mut i: usize = 0;
        while i < 32
            invariant
                i <= 32,
                v@.len() == 32,
                forall|j: int| 0 <= j < i ==> id@[j] == v@[j],
            decreases 32 - i,
        {
            id[i] = v[i];
            i += 1;
        }
        proof {
            assert(id@ =~= v@);
        }
        ObjectId(id)
    }

    /// An id made of 32 given bytes.
    pub fn from_raw(bytes: [u8; 32]) -> (r: ObjectId)
        ensures
            r@ == bytes@,
    {
        ObjectId(bytes)
    }

    /// Parses 64 hex digits (by bytes; each pair as `u8::from_str_radix`
    /// reads it).
    pub fn from_hex(hex: &str) -> (r: Result<ObjectId, VfsError>)
        requires
            hex.spec_bytes().len() == 64 ==> forall|i: int|
                0 <= i <= 32 ==> #[trigger] is_char_boundary(hex.spec_bytes(), 2 * i),
        ensures
            ({
                let b = hex.spec_bytes();
                if b.len() != 64 {
                    r is Err && r->Err_0@ == ErrorView::InvalidArgs("invalid object ID: "@ + hex@)
                } else if exists|i: int| 0 <= i < 32 && #[trigger] hex_pair(b[2 * i], b[2 * i + 1]) is None {
                    r is Err && r->Err_0@ == ErrorView::InvalidArgs("invalid hex: "@ + hex@)
                } else {
                    r is Ok && forall|i: int| 0 <= i < 32 ==> hex_pair(b[2 * i], b[2 * i + 1]) == Some(
                        #[trigger] r->Ok_0@[i],
                    )
                }
            }),
    {
        let b = hex.as_bytes();
        if b.len() != 64 {
            let mut message = owned("invalid object ID: ");
            push_str(&mut message, hex);
            return Err(VfsError::InvalidArgs { message });
        }
        let mut id = [0u8; 32];
        let mut i: usize = 0;
        while i < 32
            invariant
                i <= 32,
                b@ == hex.spec_bytes(),
                b@.len() == 64,
                forall|j: int| 0 <= j < i ==> hex_pair(b@[2 * j], b@[2 * j + 1]) == Some(#[trigger] id@[j]),
            decreases 32 - i,
        {
            match hex_pair_of(b[2 * i], b[2 * i + 1]) {
                Some(v) => {
                    id[i] = v;
                },
                None => {
                    proof {
                        let k = i as int;
                        assert(0 <= k < 32 && hex_pair(b@[2 * k], b@[2 * k + 1]) is None);
                    }
                    let mut message = owned("invalid hex: ");
                    push_str(&mut message, hex);
                    return Err(VfsError::InvalidArgs { message });
                },
            }
            i += 1;
        }
        proof {
            let hb = hex.spec_bytes();
            assert forall|k: int| 0 <= k < 32 implies !(#[trigger] hex_pair(hb[2 * k], hb[2 * k + 1]) is None) by {
                assert(hex_pair(b@[2 * k], b@[2 * k + 1]) == Some(id@[k]));
            }
        }
        Ok(ObjectId(id))
    }
}

/// Whether a character is a lower-case hex digit.
pub open spec fn is_lower_hex(c: char) -> bool {
    ('0' <= c <= '9') || ('a' <= c <= 'f')
}

/// The hex rendering of a byte sequence is ASCII, and its UTF-8 bytes are
/// its characters one for one.
proof fn lemma_hex_bytes(id: Seq<u8>)
    ensures
        vstd::utf8::encode_utf8(hex_of(id)).len() == 2 * id.len(),
        forall|j: int|
            0 <= j < 2 * id.len() ==> #[trigger] vstd::utf8::encode_utf8(hex_of(id))[j] == hex_of(id)[j] as u8,
        forall|j: int| 0 <= j < 2 * id.len() ==> #[trigger] is_lower_hex(hex_of(id)[j]),
{
    let h = hex_of(id);
    crate::text::lemma_hex_of_len(id);
    assert forall|j: int| 0 <= j < h.len() implies is_lower_hex(#[trigger] h[j]) by {
        crate::text::lemma_hex_of_index(id, j / 2);
    }
    assert(vstd::utf8::is_ascii_chars(h));
    vstd::utf8::is_ascii_chars_encode_utf8(h);
}

/// The hex text of an id reads back as that id: its bytes are 64, every
/// even index is a character boundary, and each pair of bytes is read as
/// the byte it was written from. So `from_hex` of `to_hex` gives the id.
pub proof fn lemma_hex_round_trip(id: Seq<u8>)
    requires
        id.len() == 32,
    ensures
        ({
            let b = vstd::utf8::encode_utf8(hex_of(id));
            &&& b.len() == 64
            &&& forall|i: int| 0 <= i <= 32 ==> #[trigger] is_char_boundary(b, 2 * i)
            &&& forall|i: int| 0 <= i < 32 ==> #[trigger] hex_pair(b[2 * i], b[2 * i + 1]) == Some(id[i])
        }),
{
    let h = hex_of(id);
    let b = vstd::utf8::encode_utf8(h);
    lemma_hex_bytes(id);
    vstd::utf8::encode_utf8_valid_utf8(h);
    vstd::utf8::is_char_boundary_start_end_of_seq(b);
    assert forall|i: int| 0 <= i <= 32 implies #[trigger] is_char_boundary(b, 2 * i) by {
        if i < 32 {
            assert(is_lower_hex(h[2 * i]));
            vstd::utf8::is_char_boundary_iff_not_is_continuation_byte(b, 2 * i);
        }
    }
    assert forall|i: int| 0 <= i < 32 implies #[trigger] hex_pair(b[2 * i], b[2 * i + 1]) == Some(id[i]) by {
        crate::text::lemma_hex_of_index(id, i);
        assert(b[2 * i] == h[2 * i] as u8);
        assert(b[2 * i + 1] == h[2 * i + 1] as u8);
    }
}

/// Text of 64 lower-case hex digits is the hex of the id it is read as:
/// `to_hex` of what `from_hex` gives is the text again.
pub proof fn lemma_hex_read_back(text: Seq<char>, id: Seq<u8>)
    requires
        text.len() == 64,
        forall|j: int| 0 <= j < 64 ==> #[trigger] is_lower_hex(text[j]),
        id.len() == 32,
        forall|i: int|
            0 <= i < 32 ==> #[trigger] hex_pair(
                vstd::utf8::encode_utf8(text)[2 * i],
                vstd::utf8::encode_utf8(text)[2 * i + 1],
            ) == Some(id[i]),
    ensures
        hex_of(id) == text,
{
    let b = vstd::utf8::encode_utf8(text);
    assert(vstd::utf8::is_ascii_chars(text)) by {
        assert forall|j: int| 0 <= j < text.len() implies '\0' <= #[trigger] text[j] <= '\u{7f}' by {
            assert(is_lower_hex(text[j]));
        }
    }
    vstd::utf8::is_ascii_chars_encode_utf8(text);
    crate::text::lemma_hex_of_len(id);
    assert forall|j: int| 0 <= j < 64 implies #[trigger] hex_of(id)[j] == text[j] by {
        let i = j / 2;
        crate::text::lemma_hex_of_index(id, i);
        assert(hex_pair(b[2 * i], b[2 * i + 1]) == Some(id[i]));
        assert(is_lower_hex(text[2 * i]));
        assert(is_lower_hex(text[2 * i + 1]));
        assert(b[2 * i] == text[2 * i] as u8);
        assert(b[2 * i + 1] == text[2 * i + 1] as u8);
    }
    assert(hex_of(id) =~= text);
}

} // verus!
