//! A little-endian, length-prefixed byte format: integers of fixed width,
//! byte strings and text behind a 64-bit length, in the order of their
//! fields. Every reader gives back exactly what the matching writer wrote,
//! and refuses bytes that no value's encoding starts.

use vstd::prelude::*;
use vstd::utf8::{decode_utf8, encode_utf8, valid_utf8};

verus! {

broadcast use vstd::utf8::group_utf8_lib;

/// 256 to the power `k`.
pub open spec fn pow256(k: nat) -> nat
    decreases k,
{
    if k == 0 {
        1
    } else {
        256 * pow256((k - 1) as nat)
    }
}

/// The `k` low bytes of `n`, least significant first.
pub open spec fn le_bytes(n: nat, k: nat) -> Seq<u8>
    decreases k,
{
    if k == 0 {
        Seq::empty()
    } else {
        seq![(n % 256) as u8] + le_bytes(n / 256, (k - 1) as nat)
    }
}

/// `k` bytes it is.
pub proof fn lemma_le_len(n: nat, k: nat)
    ensures
        le_bytes(n, k).len() == k,
    decreases k,
{
    if k > 0 {
        lemma_le_len(n / 256, (k - 1) as nat);
    }
}

/// The number whose little-endian bytes are `s`.
pub open spec fn le_value(s: Seq<u8>) -> nat
    decreases s.len(),
{
    if s.len() == 0 {
        0
    } else {
        s[0] as nat + 256 * le_value(s.drop_first())
    }
}

/// Whether `e` stands in `b` from position `pos` on.
pub open spec fn at(b: Seq<u8>, pos: int, e: Seq<u8>) -> bool {
    0 <= pos && pos + e.len() <= b.len() && b.subrange(pos, pos + e.len()) == e
}

pub proof fn lemma_at_concat(b: Seq<u8>, pos: int, e1: Seq<u8>, e2: Seq<u8>)
    ensures
        at(b, pos, e1 + e2) <==> (at(b, pos, e1) && at(b, pos + e1.len(), e2)),
{
    let n1 = e1.len() as int;
    let n2 = e2.len() as int;
    if at(b, pos, e1 + e2) {
        let whole = b.subrange(pos, pos + n1 + n2);
        assert(whole == e1 + e2);
        assert(b.subrange(pos, pos + n1) =~= whole.subrange(0, n1));
        assert(whole.subrange(0, n1) =~= e1);
        assert(b.subrange(pos + n1, pos + n1 + n2) =~= whole.subrange(n1, n1 + n2));
        assert(whole.subrange(n1, n1 + n2) =~= e2);
    }
    if at(b, pos, e1) && at(b, pos + n1, e2) {
        assert(b.subrange(pos, pos + (e1 + e2).len()) =~= e1 + e2) by {
            assert forall|i: int| 0 <= i < n1 + n2 implies b.subrange(pos, pos + n1 + n2)[i] == (e1
                + e2)[i] by {
                if i < n1 {
                    assert(b.subrange(pos, pos + n1)[i] == e1[i]);
                } else {
                    assert(b.subrange(pos + n1, pos + n1 + n2)[i - n1] == e2[i - n1]);
                }
            }
        }
    }
}

pub proof fn lemma_pow256_pos(k: nat)
    ensures
        pow256(k) >= 1,
    decreases k,
{
    if k > 0 {
        lemma_pow256_pos((k - 1) as nat);
    }
}

pub proof fn lemma_pow256_values()
    ensures
        pow256(2) == 0x1_0000,
        pow256(4) == 0x1_0000_0000,
        pow256(8) == 0x1_0000_0000_0000_0000,
{
    reveal_with_fuel(pow256, 9);
}

/// The bytes of a number below `256^k` give it back.
pub proof fn lemma_le_roundtrip(n: nat, k: nat)
    requires
        n < pow256(k),
    ensures
        le_bytes(n, k).len() == k,
        le_value(le_bytes(n, k)) == n,
    decreases k,
{
    if k == 0 {
    } else {
        let q = n / 256;
        assert(q < pow256((k - 1) as nat)) by (nonlinear_arith)
            requires
                n < 256 * pow256((k - 1) as nat),
                q == n / 256,
        ;
        lemma_le_roundtrip(q, (k - 1) as nat);
        let s = le_bytes(n, k);
        assert(s.drop_first() =~= le_bytes(q, (k - 1) as nat));
        assert(n == (n % 256) + 256 * q) by (nonlinear_arith)
            requires
                q == n / 256,
        ;
    }
}

/// A number read from `k` bytes is below `256^k`.
pub proof fn lemma_le_value_bound(s: Seq<u8>)
    ensures
        le_value(s) < pow256(s.len()),
    decreases s.len(),
{
    if s.len() > 0 {
        lemma_le_value_bound(s.drop_first());
        let v = le_value(s.drop_first());
        let p = pow256((s.len() - 1) as nat);
        assert(s[0] as nat + 256 * v < 256 * p) by (nonlinear_arith)
            requires
                v < p,
                s[0] < 256,
        ;
    }
}

/// Bytes give back themselves through their number.
pub proof fn lemma_le_bytes_of_value(s: Seq<u8>)
    ensures
        le_bytes(le_value(s), s.len()) == s,
    decreases s.len(),
{
    if s.len() > 0 {
        let v = le_value(s.drop_first());
        let n = le_value(s);
        lemma_le_bytes_of_value(s.drop_first());
        assert(n % 256 == s[0] as nat && n / 256 == v) by (nonlinear_arith)
            requires
                n == s[0] as nat + 256 * v,
                s[0] < 256,
        ;
        assert(le_bytes(n, s.len()) =~= seq![s[0]] + s.drop_first());
        assert(seq![s[0]] + s.drop_first() =~= s);
    }
}

/// Two numbers below `256^k` with the same bytes are equal.
pub proof fn lemma_le_unique(a: nat, c: nat, k: nat)
    requires
        a < pow256(k),
        c < pow256(k),
        le_bytes(a, k) == le_bytes(c, k),
    ensures
        a == c,
{
    lemma_le_roundtrip(a, k);
    lemma_le_roundtrip(c, k);
}

/// Appends the `k` little-endian bytes of `v`.
pub fn push_le(out: &mut Vec<u8>, v: u64, k: usize)
    requires
        k <= 8,
        v < pow256(k as nat),
    ensures
        final(out)@ == old(out)@ + le_bytes(v as nat, k as nat),
{
    let mut x: u64 = v;
    let mut j: usize = 0;
    proof {
        assert(old(out)@ + le_bytes(v as nat, k as nat) =~= out@ + le_bytes(x as nat, k as nat));
    }
    while j < k
        invariant
            j <= k,
            out@ + le_bytes(x as nat, (k - j) as nat) == old(out)@ + le_bytes(v as nat, k as nat),
        decreases k - j,
    {
        proof {
            assert(le_bytes(x as nat, (k - j) as nat) == seq![(x % 256) as u8] + le_bytes(
                (x / 256) as nat,
                (k - j - 1) as nat,
            ));
            assert(out@.push((x % 256) as u8) + le_bytes((x / 256) as nat, (k - j - 1) as nat)
                =~= out@ + (seq![(x % 256) as u8] + le_bytes((x / 256) as nat, (k - j - 1) as nat)));
        }
        out.push((x % 256) as u8);
        x = x / 256;
        j += 1;
    }
    proof {
        assert(out@ + le_bytes(x as nat, 0) =~= out@);
    }
}

/// Reads a `k`-byte little-endian number at `pos`.
pub fn read_le(b: &[u8], pos: usize, k: usize) -> (r: Option<(u64, usize)>)
    requires
        1 <= k <= 8,
    ensures
        match r {
            Some((v, p)) => p == pos + k && p <= b@.len() && at(b@, pos as int, le_bytes(v as nat, k as nat))
                && v < pow256(k as nat),
            None => pos + k > b@.len(),
        },
{
    if pos > b.len() || b.len() - pos < k {
        return None;
    }
    let ghost s = b@.subrange(pos as int, pos + k);
    let mut v: u64 = 0;
    let mut j: usize = k;
    proof {
        lemma_pow256_values();
        assert(s.subrange(k as int, k as int) =~= Seq::<u8>::empty());
    }
    while j > 0
        invariant
            j <= k <= 8,
            pos + k <= b.len(),
            s == b@.subrange(pos as int, pos + k),
            v == le_value(s.subrange(j as int, k as int)),
            pow256(8) == 0x1_0000_0000_0000_0000,
        decreases j,
    {
        let ghost tail = s.subrange(j as int, k as int);
        proof {
            lemma_le_value_bound(tail);
            lemma_pow256_mono((k - j) as nat, (7) as nat);
            assert(s.subrange(j - 1, k as int).drop_first() =~= tail);
            assert(v < pow256(7)) by {
                reveal_with_fuel(pow256, 9);
            }
        }
        let byte = b[pos + j - 1];
        proof {
            assert(byte == s.subrange(j - 1, k as int)[0]);
            assert(pow256(7) == 0x100_0000_0000_0000) by {
                reveal_with_fuel(pow256, 9);
            }
        }
        v = (byte as u64) + 256 * v;
        j -= 1;
    }
    proof {
        assert(s.subrange(0, k as int) =~= s);
        lemma_le_bytes_of_value(s);
        lemma_le_value_bound(s);
    }
    Some((v, pos + k))
}

pub proof fn lemma_pow256_mono(a: nat, c: nat)
    requires
        a <= c,
    ensures
        pow256(a) <= pow256(c),
    decreases c,
{
    if a < c {
        lemma_pow256_mono(a, (c - 1) as nat);
        lemma_pow256_pos((c - 1) as nat);
    }
}


/// A byte string behind its 64-bit length.
pub open spec fn enc_bytes(d: Seq<u8>) -> Seq<u8> {
    le_bytes(d.len(), 8) + d
}

/// A text as the byte string of its UTF-8 encoding.
pub open spec fn enc_str(s: Seq<char>) -> Seq<u8> {
    enc_bytes(encode_utf8(s))
}

/// Appends a byte string behind its length.
pub fn push_bytes(out: &mut Vec<u8>, d: &[u8])
    ensures
        final(out)@ == old(out)@ + enc_bytes(d@),
{
    proof {
        lemma_pow256_values();
    }
    push_le(out, d.len() as u64, 8);
    let ghost mid = out@;
    let mut i: usize = 0;
    while i < d.len()
        invariant
            i <= d@.len(),
            out@ == mid + d@.subrange(0, i as int),
        decreases d.len() - i,
    {
        out.push(d[i]);
        proof {
            assert(d@.subrange(0, i + 1) =~= d@.subrange(0, i as int).push(d@[i as int]));
        }
        i += 1;
    }
    proof {
        assert(d@.subrange(0, d@.len() as int) =~= d@);
        assert(out@ =~= old(out)@ + (le_bytes(d@.len(), 8) + d@));
    }
}

/// Appends a text behind the length of its UTF-8 bytes.
pub fn push_text(out: &mut Vec<u8>, t: &str)
    ensures
        final(out)@ == old(out)@ + enc_str(t@),
{
    push_bytes(out, t.as_bytes());
}

/// Two byte strings standing at the same place are equal.
pub proof fn lemma_bytes_unique(b: Seq<u8>, pos: int, d1: Seq<u8>, d2: Seq<u8>)
    requires
        b.len() < pow256(8),
        at(b, pos, enc_bytes(d1)),
        at(b, pos, enc_bytes(d2)),
    ensures
        d1 == d2,
{
    lemma_pow256_values();
    lemma_at_concat(b, pos, le_bytes(d1.len(), 8), d1);
    lemma_at_concat(b, pos, le_bytes(d2.len(), 8), d2);
    lemma_le_roundtrip(d1.len(), 8);
    lemma_le_roundtrip(d2.len(), 8);
    lemma_le_unique(d1.len(), d2.len(), 8);
}

/// Reads a byte string behind its length at `pos`.
pub fn read_bytes(b: &[u8], pos: usize) -> (r: Option<(Vec<u8>, usize)>)
    ensures
        match r {
            Some((d, p)) => p == pos + enc_bytes(d@).len() && at(b@, pos as int, enc_bytes(d@)),
            None => forall|d: Seq<u8>| !at(b@, pos as int, #[trigger] enc_bytes(d)),
        },
{
    let blen = b.len();
    proof {
        lemma_pow256_values();
        assert(b@.len() == blen);
    }
    let (n, p) = match read_le(b, pos, 8) {
        Some(x) => x,
        None => {
            proof {
                assert forall|d: Seq<u8>| !at(b@, pos as int, #[trigger] enc_bytes(d)) by {
                    if at(b@, pos as int, enc_bytes(d)) {
                        lemma_at_concat(b@, pos as int, le_bytes(d.len(), 8), d);
                        lemma_le_roundtrip(d.len(), 8);
                    }
                }
            }
            return None;
        },
    };
    if n as u128 > (b.len() - p) as u128 {
        proof {
            assert forall|d: Seq<u8>| !at(b@, pos as int, #[trigger] enc_bytes(d)) by {
                if at(b@, pos as int, enc_bytes(d)) {
                    lemma_at_concat(b@, pos as int, le_bytes(d.len(), 8), d);
                    lemma_le_roundtrip(d.len(), 8);
                    lemma_le_roundtrip(n as nat, 8);
                    assert(le_bytes(d.len(), 8) == b@.subrange(pos as int, pos + 8));
                    assert(le_bytes(n as nat, 8) == b@.subrange(pos as int, pos + 8));
                    lemma_le_unique(d.len(), n as nat, 8);
                }
            }
        }
        return None;
    }
    let end = p + n as usize;
    let mut d: Vec<u8> = Vec::new();
    let mut i: usize = p;
    while i < end
        invariant
            p <= i <= end <= b@.len(),
            d@ == b@.subrange(p as int, i as int),
        decreases end - i,
    {
        d.push(b[i]);
        proof {
            assert(b@.subrange(p as int, i + 1) =~= b@.subrange(p as int, i as int).push(b@[i as int]));
        }
        i += 1;
    }
    proof {
        lemma_le_roundtrip(n as nat, 8);
        assert(d@.len() == n);
        lemma_at_concat(b@, pos as int, le_bytes(n as nat, 8), d@);
    }
    Some((d, end))
}

/// Decodes bytes as UTF-8 with `String::from_utf8`.
///
/// Claims what std documents: the result is `Some` exactly when the bytes
/// are valid UTF-8, and then it is the text they encode.
#[verifier::external_body]
pub fn utf8_text(bytes: Vec<u8>) -> (r: Option<String>)
    ensures
        r is Some <==> valid_utf8(bytes@),
        r matches Some(s) ==> s@ == decode_utf8(bytes@),
{
    String::from_utf8(bytes).ok()
}

/// Reads a text behind the length of its UTF-8 bytes at `pos`.
pub fn read_text(b: &[u8], pos: usize) -> (r: Option<(String, usize)>)
    ensures
        match r {
            Some((t, p)) => p == pos + enc_str(t@).len() && at(b@, pos as int, enc_str(t@)),
            None => forall|t: Seq<char>| !at(b@, pos as int, #[trigger] enc_str(t)),
        },
{
    let (d, p) = match read_bytes(b, pos) {
        Some(x) => x,
        None => {
            proof {
                assert forall|t: Seq<char>| !at(b@, pos as int, #[trigger] enc_str(t)) by {
                    assert(!at(b@, pos as int, enc_bytes(encode_utf8(t))));
                }
            }
            return None;
        },
    };
    let ghost dv = d@;
    match utf8_text(d) {
        Some(t) => {
            proof {
                assert(encode_utf8(t@) == dv);
            }
            Some((t, p))
        },
        None => {
            let blen = b.len();
            proof {
                lemma_pow256_values();
                assert(b@.len() == blen);
                assert forall|t: Seq<char>| !at(b@, pos as int, #[trigger] enc_str(t)) by {
                    if at(b@, pos as int, enc_str(t)) {
                        lemma_bytes_unique(b@, pos as int, dv, encode_utf8(t));
                    }
                }
            }
            None
        },
    }
}

} // verus!
