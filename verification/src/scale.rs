//! The SCALE wire encoding of the library's value types.
//!
//! Byte strings travel as a compact-encoded 32-bit length followed by the
//! bytes; a [`Content`] value travels as one tag byte (its variant index)
//! followed by its payload, if any; a [`Post`] as its 64-bit identifier in
//! little-endian order followed by its content.  The decoders accept exactly
//! the canonical encodings and consume the whole input, so every value round
//! trips byte for byte.

use vstd::prelude::*;
use vstd::arithmetic::div_mod::lemma_div_denominator;
use vstd::arithmetic::div_mod::lemma_fundamental_div_mod;
use vstd::arithmetic::div_mod::lemma_fundamental_div_mod_converse;
use vstd::arithmetic::div_mod::lemma_mod_multiples_vanish;
use crate::content::Content;
use crate::content::ContentModel;
use crate::content::Post;
use crate::content::PostModel;
use crate::content::spec_payload;

verus! {

/// The SCALE compact encoding of a 32-bit count.  The two low bits of the
/// first byte select the width: a single byte for values below `2^6`, two or
/// four little-endian bytes for values below `2^14` and `2^30`, and a marker
/// byte followed by four little-endian bytes for the rest.
pub open spec fn spec_compact(n: u32) -> Seq<u8> {
    let m: int = n as int;
    if n < 64 {
        seq![(m * 4) as u8]
    } else if n < 16384 {
        let v: int = m * 4 + 1;
        seq![(v % 256) as u8, (v / 256) as u8]
    } else if n < 0x4000_0000 {
        let v: int = m * 4 + 2;
        seq![
            (v % 256) as u8,
            ((v / 256) % 256) as u8,
            ((v / 0x10000) % 256) as u8,
            ((v / 0x1000000) % 256) as u8,
        ]
    } else {
        seq![
            3u8,
            (m % 256) as u8,
            ((m / 256) % 256) as u8,
            ((m / 0x10000) % 256) as u8,
            ((m / 0x1000000) % 256) as u8,
        ]
    }
}

/// Reads one compact-encoded 32-bit count from the front of `s`: the value
/// and how many bytes it took.  Only the canonical (shortest) encoding of
/// each value is accepted.
pub open spec fn spec_decode_compact(s: Seq<u8>) -> Option<(u32, int)> {
    if s.len() == 0 {
        None
    } else {
        let b0: int = s[0] as int;
        if b0 % 4 == 0 {
            Some(((b0 / 4) as u32, 1))
        } else if b0 % 4 == 1 {
            if s.len() < 2 {
                None
            } else {
                let v: int = (b0 + 256 * (s[1] as int)) / 4;
                if v >= 64 {
                    Some((v as u32, 2))
                } else {
                    None
                }
            }
        } else if b0 % 4 == 2 {
            if s.len() < 4 {
                None
            } else {
                let v: int = (b0 + 256 * (s[1] as int) + 0x10000 * (s[2] as int) + 0x1000000 * (
                s[3] as int)) / 4;
                if v >= 16384 {
                    Some((v as u32, 4))
                } else {
                    None
                }
            }
        } else {
            if b0 != 3 || s.len() < 5 {
                None
            } else {
                let v: int = (s[1] as int) + 256 * (s[2] as int) + 0x10000 * (s[3] as int)
                    + 0x1000000 * (s[4] as int);
                if v >= 0x4000_0000 {
                    Some((v as u32, 5))
                } else {
                    None
                }
            }
        }
    }
}

/// A byte string on the wire: its compact-encoded length, then its bytes.
pub open spec fn spec_encode_bytes(b: Seq<u8>) -> Seq<u8>
    recommends
        b.len() < 0x1_0000_0000,
{
    spec_compact(b.len() as u32) + b
}

/// Reads a whole byte string: the compact length must account for every
/// remaining byte.
pub open spec fn spec_decode_bytes(s: Seq<u8>) -> Option<Seq<u8>> {
    match spec_decode_compact(s) {
        Some((n, k)) => {
            if s.len() - k == n as int {
                Some(s.subrange(k, s.len() as int))
            } else {
                None
            }
        },
        None => None,
    }
}

/// A content value on the wire: the variant's tag byte, then its payload as
/// a byte string, if the variant carries one.
pub open spec fn spec_encode_content(c: ContentModel) -> Seq<u8> {
    match c {
        ContentModel::Empty => seq![0u8],
        ContentModel::Raw(b) => seq![1u8] + spec_encode_bytes(b),
        ContentModel::IPFS(b) => seq![2u8] + spec_encode_bytes(b),
        ContentModel::Hyper(b) => seq![3u8] + spec_encode_bytes(b),
    }
}

/// Reads a whole content value; trailing bytes are refused.
pub open spec fn spec_decode_content(s: Seq<u8>) -> Option<ContentModel> {
    if s.len() == 0 {
        None
    } else if s[0] == 0 {
        if s.len() == 1 {
            Some(ContentModel::Empty)
        } else {
            None
        }
    } else if s[0] == 1 {
        match spec_decode_bytes(s.skip(1)) {
            Some(b) => Some(ContentModel::Raw(b)),
            None => None,
        }
    } else if s[0] == 2 {
        match spec_decode_bytes(s.skip(1)) {
            Some(b) => Some(ContentModel::IPFS(b)),
            None => None,
        }
    } else if s[0] == 3 {
        match spec_decode_bytes(s.skip(1)) {
            Some(b) => Some(ContentModel::Hyper(b)),
            None => None,
        }
    } else {
        None
    }
}

/// A 64-bit value as eight little-endian bytes.
pub open spec fn spec_u64_le(n: u64) -> Seq<u8> {
    let m: int = n as int;
    seq![
        (m % 0x100) as u8,
        ((m / 0x100) % 0x100) as u8,
        ((m / 0x10000) % 0x100) as u8,
        ((m / 0x1000000) % 0x100) as u8,
        ((m / 0x100000000) % 0x100) as u8,
        ((m / 0x10000000000) % 0x100) as u8,
        ((m / 0x1000000000000) % 0x100) as u8,
        ((m / 0x100000000000000) % 0x100) as u8,
    ]
}

/// The value of eight little-endian bytes.
pub open spec fn spec_u64_of_le(s: Seq<u8>) -> u64
    recommends
        s.len() == 8,
{
    ((s[0] as int) + 0x100 * (s[1] as int) + 0x10000 * (s[2] as int) + 0x1000000 * (s[3] as int)
        + 0x100000000 * (s[4] as int) + 0x10000000000 * (s[5] as int) + 0x1000000000000 * (
    s[6] as int) + 0x100000000000000 * (s[7] as int)) as u64
}

/// A post on the wire: its identifier, then its content.
pub open spec fn spec_encode_post(p: PostModel) -> Seq<u8> {
    spec_u64_le(p.id) + spec_encode_content(p.content)
}

/// Reads a whole post; trailing bytes are refused.
pub open spec fn spec_decode_post(s: Seq<u8>) -> Option<PostModel> {
    if s.len() < 8 {
        None
    } else {
        match spec_decode_content(s.skip(8)) {
            Some(c) => Some(PostModel { id: spec_u64_of_le(s.subrange(0, 8)), content: c }),
            None => None,
        }
    }
}

/// The remainder of a value's lowest byte equals the value's own remainder
/// modulo four, because the higher bytes weigh multiples of four.
proof fn lemma_low_byte_mod4(v: int)
    requires
        0 <= v,
    ensures
        (v % 256) % 4 == v % 4,
{
    lemma_fundamental_div_mod(v, 256);
    lemma_mod_multiples_vanish(64 * (v / 256), v % 256, 4);
    assert(4 * (64 * (v / 256)) + v % 256 == v);
}

/// A value below `2^32` is the weighted sum of its four little-endian bytes.
proof fn lemma_le4_bytes(v: int)
    requires
        0 <= v < 0x1_0000_0000,
    ensures
        v / 0x1000000 < 256,
        (v / 0x1000000) % 256 == v / 0x1000000,
        v == v % 256 + 256 * ((v / 256) % 256) + 0x10000 * ((v / 0x10000) % 256) + 0x1000000 * ((
        v / 0x1000000) % 256),
{
    lemma_fundamental_div_mod(v, 256);
    lemma_fundamental_div_mod(v / 256, 256);
    lemma_div_denominator(v, 256, 256);
    lemma_fundamental_div_mod(v / 0x10000, 256);
    lemma_div_denominator(v, 0x10000, 256);
    lemma_fundamental_div_mod(v, 0x1000000);
    assert(v / 0x1000000 < 256);
    assert((v / 0x1000000) % 256 == v / 0x1000000) by {
        vstd::arithmetic::div_mod::lemma_small_mod((v / 0x1000000) as nat, 256);
    }
}

/// A value below `2^64` is the weighted sum of its eight little-endian bytes.
proof fn lemma_le8_bytes(v: int)
    requires
        0 <= v < 0x1_0000_0000_0000_0000,
    ensures
        v / 0x100000000000000 < 0x100,
        (v / 0x100000000000000) % 0x100 == v / 0x100000000000000,
        v == v % 0x100 + 0x100 * ((v / 0x100) % 0x100) + 0x10000 * ((v / 0x10000) % 0x100)
            + 0x1000000 * ((v / 0x1000000) % 0x100) + 0x100000000 * ((v / 0x100000000) % 0x100)
            + 0x10000000000 * ((v / 0x10000000000) % 0x100) + 0x1000000000000 * ((
        v / 0x1000000000000) % 0x100) + 0x100000000000000 * ((v / 0x100000000000000) % 0x100),
{
    lemma_fundamental_div_mod(v, 0x100);
    lemma_fundamental_div_mod(v / 0x100, 0x100);
    lemma_div_denominator(v, 0x100, 0x100);
    lemma_fundamental_div_mod(v / 0x10000, 0x100);
    lemma_div_denominator(v, 0x10000, 0x100);
    lemma_fundamental_div_mod(v / 0x1000000, 0x100);
    lemma_div_denominator(v, 0x1000000, 0x100);
    lemma_fundamental_div_mod(v / 0x100000000, 0x100);
    lemma_div_denominator(v, 0x100000000, 0x100);
    lemma_fundamental_div_mod(v / 0x10000000000, 0x100);
    lemma_div_denominator(v, 0x10000000000, 0x100);
    lemma_fundamental_div_mod(v / 0x1000000000000, 0x100);
    lemma_div_denominator(v, 0x1000000000000, 0x100);
    lemma_fundamental_div_mod(v, 0x100000000000000);
    assert(v / 0x100000000000000 < 0x100);
    assert((v / 0x100000000000000) % 0x100 == v / 0x100000000000000) by {
        vstd::arithmetic::div_mod::lemma_small_mod((v / 0x100000000000000) as nat, 0x100);
    }
}

/// Decoding a compact count from its own encoding, whatever follows, yields
/// the count back and consumes exactly the encoding.
pub proof fn lemma_compact_round_trip(n: u32, rest: Seq<u8>)
    ensures
        spec_decode_compact(spec_compact(n) + rest) == Some((n, spec_compact(n).len() as int)),
{
    let m: int = n as int;
    let s = spec_compact(n) + rest;
    if n < 64 {
        assert(s[0] as int == m * 4);
        lemma_fundamental_div_mod_converse(m * 4, 4, m, 0);
    } else if n < 16384 {
        let v: int = m * 4 + 1;
        lemma_fundamental_div_mod_converse(v, 4, m, 1);
        lemma_fundamental_div_mod(v, 256);
        assert(v / 256 < 256);
        assert(s[0] as int == v % 256);
        assert(s[1] as int == v / 256);
        lemma_low_byte_mod4(v);
        assert((s[0] as int) + 256 * (s[1] as int) == v);
    } else if n < 0x4000_0000 {
        let v: int = m * 4 + 2;
        lemma_fundamental_div_mod_converse(v, 4, m, 2);
        lemma_le4_bytes(v);
        lemma_low_byte_mod4(v);
        assert(s[0] as int == v % 256);
        assert(s[1] as int == (v / 256) % 256);
        assert(s[2] as int == (v / 0x10000) % 256);
        assert(s[3] as int == (v / 0x1000000) % 256);
        assert((s[0] as int) + 256 * (s[1] as int) + 0x10000 * (s[2] as int) + 0x1000000 * (
        s[3] as int) == v);
    } else {
        lemma_le4_bytes(m);
        assert(s[0] as int == 3);
        assert(s[1] as int == m % 256);
        assert(s[2] as int == (m / 256) % 256);
        assert(s[3] as int == (m / 0x10000) % 256);
        assert(s[4] as int == (m / 0x1000000) % 256);
        assert((s[1] as int) + 256 * (s[2] as int) + 0x10000 * (s[3] as int) + 0x1000000 * (
        s[4] as int) == m);
    }
}

/// Decoding a byte string from its own encoding yields the bytes back.
pub proof fn lemma_bytes_round_trip(b: Seq<u8>)
    requires
        b.len() < 0x1_0000_0000,
    ensures
        spec_decode_bytes(spec_encode_bytes(b)) == Some(b),
{
    let n: u32 = b.len() as u32;
    lemma_compact_round_trip(n, b);
    let s = spec_encode_bytes(b);
    let k: int = spec_compact(n).len() as int;
    assert(s.len() - k == n as int);
    assert(s.subrange(k, s.len() as int) =~= b);
}

/// Every content value, the empty one included, decodes from its own
/// encoding to itself.
pub proof fn lemma_content_round_trip(c: ContentModel)
    requires
        spec_payload(c).len() < 0x1_0000_0000,
    ensures
        spec_decode_content(spec_encode_content(c)) == Some(c),
{
    let s = spec_encode_content(c);
    match c {
        ContentModel::Empty => {
        },
        ContentModel::Raw(b) => {
            assert(s.skip(1) =~= spec_encode_bytes(b));
            lemma_bytes_round_trip(b);
        },
        ContentModel::IPFS(b) => {
            assert(s.skip(1) =~= spec_encode_bytes(b));
            lemma_bytes_round_trip(b);
        },
        ContentModel::Hyper(b) => {
            assert(s.skip(1) =~= spec_encode_bytes(b));
            lemma_bytes_round_trip(b);
        },
    }
}

/// Eight little-endian bytes of a 64-bit value recombine to the value.
pub proof fn lemma_u64_round_trip(n: u64)
    ensures
        spec_u64_of_le(spec_u64_le(n)) == n,
{
    lemma_le8_bytes(n as int);
}

/// A post decodes from its own encoding to itself.
pub proof fn lemma_post_round_trip(p: PostModel)
    requires
        spec_payload(p.content).len() < 0x1_0000_0000,
    ensures
        spec_decode_post(spec_encode_post(p)) == Some(p),
{
    let s = spec_encode_post(p);
    assert(s.subrange(0, 8) =~= spec_u64_le(p.id));
    lemma_u64_round_trip(p.id);
    assert(s.skip(8) =~= spec_encode_content(p.content));
    lemma_content_round_trip(p.content);
}

/// Writes the compact encoding of a 32-bit count.
pub fn encode_compact(n: u32) -> (r: Vec<u8>)
    ensures
        r@ == spec_compact(n),
{
    let mut r: Vec<u8> = Vec::new();
    if n < 64 {
        r.push((n * 4) as u8);
    } else if n < 16384 {
        let v: u32 = n * 4 + 1;
        r.push((v % 256) as u8);
        r.push((v / 256) as u8);
    } else if n < 0x4000_0000 {
        let v: u32 = n * 4 + 2;
        r.push((v % 256) as u8);
        r.push(((v / 256) % 256) as u8);
        r.push(((v / 0x10000) % 256) as u8);
        r.push(((v / 0x1000000) % 256) as u8);
    } else {
        r.push(3);
        r.push((n % 256) as u8);
        r.push(((n / 256) % 256) as u8);
        r.push(((n / 0x10000) % 256) as u8);
        r.push(((n / 0x1000000) % 256) as u8);
    }
    proof {
        assert(r@ =~= spec_compact(n));
    }
    r
}

/// Reads a compact-encoded count at position `at`: the value and how many
/// bytes it took.
pub fn decode_compact(s: &[u8], at: usize) -> (r: Option<(u32, usize)>)
    requires
        at <= s@.len(),
    ensures
        match r {
            Some(p) => {
                &&& spec_decode_compact(s@.skip(at as int)) == Some((p.0, p.1 as int))
                &&& 1 <= p.1 <= 5
                &&& at + p.1 <= s@.len()
            },
            None => spec_decode_compact(s@.skip(at as int)) is None,
        },
{
    let len = s.len();
    if at >= len {
        return None;
    }
    let rem = len - at;
    let b0 = s[at];
    if b0 % 4 == 0 {
        Some(((b0 / 4) as u32, 1))
    } else if b0 % 4 == 1 {
        if rem < 2 {
            return None;
        }
        let v: u32 = ((b0 as u32) + 256 * (s[at + 1] as u32)) / 4;
        if v >= 64 {
            Some((v, 2))
        } else {
            None
        }
    } else if b0 % 4 == 2 {
        if rem < 4 {
            return None;
        }
        let v: u32 = ((b0 as u32) + 256 * (s[at + 1] as u32) + 0x10000 * (s[at + 2] as u32)
            + 0x1000000 * (s[at + 3] as u32)) / 4;
        if v >= 16384 {
            Some((v, 4))
        } else {
            None
        }
    } else {
        if b0 != 3 || rem < 5 {
            return None;
        }
        let v: u32 = (s[at + 1] as u32) + 256 * (s[at + 2] as u32) + 0x10000 * (s[at + 3] as u32)
            + 0x1000000 * (s[at + 4] as u32);
        if v >= 0x4000_0000 {
            Some((v, 5))
        } else {
            None
        }
    }
}

/// Writes a byte string: its compact-encoded length, then its bytes.
pub fn encode_bytes(b: &[u8]) -> (r: Vec<u8>)
    requires
        b@.len() < 0x1_0000_0000,
    ensures
        r@ == spec_encode_bytes(b@),
{
    let n = b.len();
    let mut r = encode_compact(n as u32);
    let ghost pre = r@;
    let mut i: usize = 0;
    while i < n
        invariant
            n == b@.len(),
            i <= n,
            r@ == pre + b@.subrange(0, i as int),
        decreases n - i,
    {
        r.push(b[i]);
        proof {
            assert((pre + b@.subrange(0, i as int)).push(b@[i as int]) =~= pre + b@.subrange(
                0,
                i + 1,
            ));
        }
        i += 1;
    }
    proof {
        assert(b@.subrange(0, n as int) =~= b@);
    }
    r
}

/// Reads a byte string at position `at`; the encoded length must account for
/// every byte to the end of the input.
fn decode_bytes_at(s: &[u8], at: usize) -> (r: Option<Vec<u8>>)
    requires
        at <= s@.len(),
    ensures
        match r {
            Some(b) => spec_decode_bytes(s@.skip(at as int)) == Some(b@),
            None => spec_decode_bytes(s@.skip(at as int)) is None,
        },
{
    match decode_compact(s, at) {
        None => None,
        Some((n, k)) => {
            let len = s.len();
            let start = at + k;
            let rem = len - start;
            if rem != n as usize {
                return None;
            }
            let mut b: Vec<u8> = Vec::new();
            let mut i: usize = 0;
            while i < rem
                invariant
                    len == s@.len(),
                    start + rem == len,
                    i <= rem,
                    b@ == s@.subrange(start as int, start + i),
                decreases rem - i,
            {
                b.push(s[start + i]);
                proof {
                    assert(s@.subrange(start as int, start + i).push(s@[start + i]) =~= s@
                        .subrange(start as int, start + i + 1));
                }
                i += 1;
            }
            proof {
                let t = s@.skip(at as int);
                assert(b@ =~= t.subrange(k as int, t.len() as int));
            }
            Some(b)
        },
    }
}

/// Reads a byte string, consuming the whole input.
pub fn decode_bytes(s: &[u8]) -> (r: Option<Vec<u8>>)
    ensures
        match r {
            Some(b) => spec_decode_bytes(s@) == Some(b@),
            None => spec_decode_bytes(s@) is None,
        },
{
    proof {
        assert(s@.skip(0) =~= s@);
    }
    decode_bytes_at(s, 0)
}

/// Writes a content value: its tag byte, then its payload, if any.
pub fn encode_content(content: &Content) -> (r: Vec<u8>)
    requires
        spec_payload(content@).len() < 0x1_0000_0000,
    ensures
        r@ == spec_encode_content(content@),
{
    let mut r: Vec<u8> = Vec::new();
    match content {
        Content::Empty => {
            r.push(0);
        },
        Content::Raw(b) => {
            r.push(1);
            let mut e = encode_bytes(b.as_slice());
            r.append(&mut e);
        },
        Content::IPFS(b) => {
            r.push(2);
            let mut e = encode_bytes(b.as_slice());
            r.append(&mut e);
        },
        Content::Hyper(b) => {
            r.push(3);
            let mut e = encode_bytes(b.as_slice());
            r.append(&mut e);
        },
    }
    proof {
        assert(r@ =~= spec_encode_content(content@));
    }
    r
}

/// Reads a content value at position `at`, consuming the rest of the input.
fn decode_content_at(s: &[u8], at: usize) -> (r: Option<Content>)
    requires
        at <= s@.len(),
    ensures
        match r {
            Some(c) => spec_decode_content(s@.skip(at as int)) == Some(c@),
            None => spec_decode_content(s@.skip(at as int)) is None,
        },
{
    let len = s.len();
    if at >= len {
        return None;
    }
    let tag = s[at];
    proof {
        assert(s@.skip(at as int).skip(1) =~= s@.skip(at + 1));
    }
    if tag == 0 {
        if at + 1 == len {
            Some(Content::Empty)
        } else {
            None
        }
    } else if tag == 1 {
        match decode_bytes_at(s, at + 1) {
            Some(b) => Some(Content::Raw(b)),
            None => None,
        }
    } else if tag == 2 {
        match decode_bytes_at(s, at + 1) {
            Some(b) => Some(Content::IPFS(b)),
            None => None,
        }
    } else if tag == 3 {
        match decode_bytes_at(s, at + 1) {
            Some(b) => Some(Content::Hyper(b)),
            None => None,
        }
    } else {
        None
    }
}

/// Reads a content value, consuming the whole input.
pub fn decode_content(s: &[u8]) -> (r: Option<Content>)
    ensures
        match r {
            Some(c) => spec_decode_content(s@) == Some(c@),
            None => spec_decode_content(s@) is None,
        },
{
    proof {
        assert(s@.skip(0) =~= s@);
    }
    decode_content_at(s, 0)
}

/// Writes a 64-bit value as eight little-endian bytes.
pub fn encode_u64(n: u64) -> (r: Vec<u8>)
    ensures
        r@ == spec_u64_le(n),
{
    let mut r: Vec<u8> = Vec::new();
    r.push((n % 0x100) as u8);
    r.push(((n / 0x100) % 0x100) as u8);
    r.push(((n / 0x10000) % 0x100) as u8);
    r.push(((n / 0x1000000) % 0x100) as u8);
    r.push(((n / 0x100000000) % 0x100) as u8);
    r.push(((n / 0x10000000000) % 0x100) as u8);
    r.push(((n / 0x1000000000000) % 0x100) as u8);
    r.push(((n / 0x100000000000000) % 0x100) as u8);
    proof {
        assert(r@ =~= spec_u64_le(n));
    }
    r
}

/// Reads a 64-bit value from exactly eight little-endian bytes.
pub fn decode_u64(s: &[u8]) -> (r: Option<u64>)
    ensures
        match r {
            Some(n) => s@.len() == 8 && n == spec_u64_of_le(s@),
            None => s@.len() != 8,
        },
{
    if s.len() != 8 {
        return None;
    }
    let n: u64 = (s[0] as u64) + 0x100 * (s[1] as u64) + 0x10000 * (s[2] as u64) + 0x1000000 * (
    s[3] as u64) + 0x100000000 * (s[4] as u64) + 0x10000000000 * (s[5] as u64) + 0x1000000000000
        * (s[6] as u64) + 0x100000000000000 * (s[7] as u64);
    Some(n)
}

/// Writes a post: its identifier, then its content.
pub fn encode_post(post: &Post) -> (r: Vec<u8>)
    requires
        spec_payload(post.content@).len() < 0x1_0000_0000,
    ensures
        r@ == spec_encode_post(post@),
{
    let mut r = encode_u64(post.id);
    let mut e = encode_content(&post.content);
    r.append(&mut e);
    r
}

/// Reads a post, consuming the whole input.
pub fn decode_post(s: &[u8]) -> (r: Option<Post>)
    ensures
        match r {
            Some(p) => spec_decode_post(s@) == Some(p@),
            None => spec_decode_post(s@) is None,
        },
{
    if s.len() < 8 {
        return None;
    }
    let id: u64 = (s[0] as u64) + 0x100 * (s[1] as u64) + 0x10000 * (s[2] as u64) + 0x1000000 * (
    s[3] as u64) + 0x100000000 * (s[4] as u64) + 0x10000000000 * (s[5] as u64) + 0x1000000000000
        * (s[6] as u64) + 0x100000000000000 * (s[7] as u64);
    proof {
        assert(forall|j: int| 0 <= j < 8 ==> s@.subrange(0, 8)[j] == s@[j]);
        assert(id == spec_u64_of_le(s@.subrange(0, 8)));
    }
    match decode_content_at(s, 8) {
        Some(c) => Some(Post { id, content: c }),
        None => None,
    }
}

} // verus!
