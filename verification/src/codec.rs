//! The serialized form of a payload buffer: a stable, versioned,
//! little-endian encoding of a sequence of (metric key, value) pairs,
//! decodable independently of process identity.
//!
//! Layout: one version byte, an eight-byte entry count, then twelve bytes
//! per entry (four for the metric key, eight for the value). Values on the
//! wire are never negative, since only validated values are buffered; a
//! buffer carrying a value above `i64::MAX` is rejected as corrupted.

use vstd::arithmetic::div_mod::{
    lemma_fundamental_div_mod,
    lemma_fundamental_div_mod_converse_div,
    lemma_fundamental_div_mod_converse_mod,
};
use vstd::prelude::*;

verus! {

pub const FORMAT_VERSION: u8 = 1;

pub open spec fn u32_byte(x: u32, k: int) -> u8 {
    if k == 0 {
        (x & 0xff) as u8
    } else if k == 1 {
        ((x >> 8) & 0xff) as u8
    } else if k == 2 {
        ((x >> 16) & 0xff) as u8
    } else {
        ((x >> 24) & 0xff) as u8
    }
}

pub open spec fn u64_byte(x: u64, k: int) -> u8 {
    if k == 0 {
        (x & 0xff) as u8
    } else if k == 1 {
        ((x >> 8) & 0xff) as u8
    } else if k == 2 {
        ((x >> 16) & 0xff) as u8
    } else if k == 3 {
        ((x >> 24) & 0xff) as u8
    } else if k == 4 {
        ((x >> 32) & 0xff) as u8
    } else if k == 5 {
        ((x >> 40) & 0xff) as u8
    } else if k == 6 {
        ((x >> 48) & 0xff) as u8
    } else {
        ((x >> 56) & 0xff) as u8
    }
}

pub open spec fn u32_from(b0: u8, b1: u8, b2: u8, b3: u8) -> u32 {
    (b0 as u32) | ((b1 as u32) << 8) | ((b2 as u32) << 16) | ((b3 as u32) << 24)
}

pub open spec fn u64_from(b0: u8, b1: u8, b2: u8, b3: u8, b4: u8, b5: u8, b6: u8, b7: u8) -> u64 {
    (b0 as u64) | ((b1 as u64) << 8) | ((b2 as u64) << 16) | ((b3 as u64) << 24) | ((b4 as u64)
        << 32) | ((b5 as u64) << 40) | ((b6 as u64) << 48) | ((b7 as u64) << 56)
}

proof fn lemma_u32_le_round(x: u32)
    ensures
        u32_from(u32_byte(x, 0), u32_byte(x, 1), u32_byte(x, 2), u32_byte(x, 3)) == x,
{
    assert((((x & 0xff) as u8) as u32) | (((((x >> 8) & 0xff) as u8) as u32) << 8) | (((((x >> 16)
        & 0xff) as u8) as u32) << 16) | (((((x >> 24) & 0xff) as u8) as u32) << 24) == x)
        by (bit_vector);
}

proof fn lemma_u64_le_round(x: u64)
    ensures
        u64_from(
            u64_byte(x, 0),
            u64_byte(x, 1),
            u64_byte(x, 2),
            u64_byte(x, 3),
            u64_byte(x, 4),
            u64_byte(x, 5),
            u64_byte(x, 6),
            u64_byte(x, 7),
        ) == x,
{
    assert((((x & 0xff) as u8) as u64) | (((((x >> 8) & 0xff) as u8) as u64) << 8) | (((((x >> 16)
        & 0xff) as u8) as u64) << 16) | (((((x >> 24) & 0xff) as u8) as u64) << 24) | (((((x >> 32)
        & 0xff) as u8) as u64) << 32) | (((((x >> 40) & 0xff) as u8) as u64) << 40) | (((((x >> 48)
        & 0xff) as u8) as u64) << 48) | (((((x >> 56) & 0xff) as u8) as u64) << 56) == x)
        by (bit_vector);
}

/// Byte `k` (0 <= k < 12) of one encoded entry.
pub open spec fn entry_byte(key: u64, value: i64, k: int) -> u8 {
    if k < 4 {
        u32_byte(key as u32, k)
    } else {
        u64_byte(value as u64, k - 4)
    }
}

pub open spec fn enc_len(n: int) -> int {
    9 + 12 * n
}

/// Byte `j` of the encoding of `p`.
pub open spec fn enc_byte(p: Seq<(u64, i64)>, j: int) -> u8 {
    if j == 0 {
        FORMAT_VERSION
    } else if j < 9 {
        u64_byte(p.len() as u64, j - 1)
    } else {
        entry_byte(p[(j - 9) / 12].0, p[(j - 9) / 12].1, (j - 9) % 12)
    }
}

/// The encoding of a pair sequence.
pub open spec fn encode_pairs_spec(p: Seq<(u64, i64)>) -> Seq<u8> {
    Seq::new(enc_len(p.len() as int) as nat, |j: int| enc_byte(p, j))
}

/// The entry count a buffer claims.
pub open spec fn decoded_count(b: Seq<u8>) -> u64 {
    u64_from(b[1], b[2], b[3], b[4], b[5], b[6], b[7], b[8])
}

/// The metric key of entry `i` of a buffer.
pub open spec fn decoded_key(b: Seq<u8>, i: int) -> u64 {
    u32_from(b[9 + 12 * i], b[10 + 12 * i], b[11 + 12 * i], b[12 + 12 * i]) as u64
}

/// The raw (unsigned) value of entry `i` of a buffer.
pub open spec fn decoded_raw(b: Seq<u8>, i: int) -> u64 {
    u64_from(
        b[13 + 12 * i],
        b[14 + 12 * i],
        b[15 + 12 * i],
        b[16 + 12 * i],
        b[17 + 12 * i],
        b[18 + 12 * i],
        b[19 + 12 * i],
        b[20 + 12 * i],
    )
}

/// What a buffer decodes to: the entry sequence, or nothing if the buffer
/// is corrupted (wrong version, wrong length, or an out-of-range value).
pub open spec fn decode_spec(b: Seq<u8>) -> Option<Seq<(u64, i64)>> {
    if b.len() < 9 {
        None
    } else if b[0] != FORMAT_VERSION {
        None
    } else if b.len() != enc_len(decoded_count(b) as int) {
        None
    } else if exists|i: int| 0 <= i < decoded_count(b) && decoded_raw(b, i) > i64::MAX {
        None
    } else {
        Some(
            Seq::new(
                decoded_count(b) as nat,
                |i: int| (decoded_key(b, i), decoded_raw(b, i) as i64),
            ),
        )
    }
}

fn push_u32_le(out: &mut Vec<u8>, x: u32)
    ensures
        final(out)@ == old(out)@ + seq![
            u32_byte(x, 0),
            u32_byte(x, 1),
            u32_byte(x, 2),
            u32_byte(x, 3),
        ],
{
    proof {
        assert(x & 0xff < 256 && (x >> 8) & 0xff < 256 && (x >> 16) & 0xff < 256 && (x >> 24)
            & 0xff < 256) by (bit_vector);
    }
    out.push((x & 0xff) as u8);
    out.push(((x >> 8) & 0xff) as u8);
    out.push(((x >> 16) & 0xff) as u8);
    out.push(((x >> 24) & 0xff) as u8);
    proof {
        assert(out@ =~= old(out)@ + seq![
            u32_byte(x, 0),
            u32_byte(x, 1),
            u32_byte(x, 2),
            u32_byte(x, 3),
        ]);
    }
}

fn push_u64_le(out: &mut Vec<u8>, x: u64)
    ensures
        final(out)@ == old(out)@ + seq![
            u64_byte(x, 0),
            u64_byte(x, 1),
            u64_byte(x, 2),
            u64_byte(x, 3),
            u64_byte(x, 4),
            u64_byte(x, 5),
            u64_byte(x, 6),
            u64_byte(x, 7),
        ],
{
    proof {
        assert(x & 0xff < 256 && (x >> 8) & 0xff < 256 && (x >> 16) & 0xff < 256 && (x >> 24)
            & 0xff < 256 && (x >> 32) & 0xff < 256 && (x >> 40) & 0xff < 256 && (x >> 48) & 0xff
            < 256 && (x >> 56) & 0xff < 256) by (bit_vector);
    }
    out.push((x & 0xff) as u8);
    out.push(((x >> 8) & 0xff) as u8);
    out.push(((x >> 16) & 0xff) as u8);
    out.push(((x >> 24) & 0xff) as u8);
    out.push(((x >> 32) & 0xff) as u8);
    out.push(((x >> 40) & 0xff) as u8);
    out.push(((x >> 48) & 0xff) as u8);
    out.push(((x >> 56) & 0xff) as u8);
    proof {
        assert(out@ =~= old(out)@ + seq![
            u64_byte(x, 0),
            u64_byte(x, 1),
            u64_byte(x, 2),
            u64_byte(x, 3),
            u64_byte(x, 4),
            u64_byte(x, 5),
            u64_byte(x, 6),
            u64_byte(x, 7),
        ]);
    }
}

fn read_u32_le(b: &Vec<u8>, off: usize) -> (r: u32)
    requires
        off + 4 <= b@.len(),
    ensures
        r == u32_from(
            b@[off as int],
            b@[off as int + 1],
            b@[off as int + 2],
            b@[off as int + 3],
        ),
{
    let len: usize = b.len();
    assert(off + 4 <= len);
    (b[off] as u32) | ((b[off + 1] as u32) << 8) | ((b[off + 2] as u32) << 16) | ((b[off + 3]
        as u32) << 24)
}

fn read_u64_le(b: &Vec<u8>, off: usize) -> (r: u64)
    requires
        off + 8 <= b@.len(),
    ensures
        r == u64_from(
            b@[off as int],
            b@[off as int + 1],
            b@[off as int + 2],
            b@[off as int + 3],
            b@[off as int + 4],
            b@[off as int + 5],
            b@[off as int + 6],
            b@[off as int + 7],
        ),
{
    let len: usize = b.len();
    assert(off + 8 <= len);
    (b[off] as u64) | ((b[off + 1] as u64) << 8) | ((b[off + 2] as u64) << 16) | ((b[off + 3]
        as u64) << 24) | ((b[off + 4] as u64) << 32) | ((b[off + 5] as u64) << 40) | ((b[off + 6]
        as u64) << 48) | ((b[off + 7] as u64) << 56)
}

proof fn lemma_entry_offset(i: int, k: int)
    requires
        0 <= i,
        0 <= k < 12,
    ensures
        (12 * i + k) / 12 == i,
        (12 * i + k) % 12 == k,
{
    lemma_fundamental_div_mod_converse_div(12 * i + k, 12, i, k);
    lemma_fundamental_div_mod_converse_mod(12 * i + k, 12, i, k);
}

/// Serialize a pair vector. Keys fit in four bytes and values are
/// non-negative, as every buffered pair is.
pub fn encode_pairs(pairs: &Vec<(u64, i64)>) -> (r: Vec<u8>)
    requires
        forall|i: int|
            0 <= i < pairs@.len() ==> pairs@[i].0 < 0x1_0000_0000 && pairs@[i].1 >= 0,
    ensures
        r@ == encode_pairs_spec(pairs@),
{
    let mut out: Vec<u8> = Vec::new();
    out.push(FORMAT_VERSION);
    let n: usize = pairs.len();
    push_u64_le(&mut out, n as u64);
    proof {
        assert forall|j: int| 0 <= j < 9 implies out@[j] == enc_byte(pairs@, j) by {}
    }
    let mut i: usize = 0;
    while i < n
        invariant
            n == pairs@.len(),
            0 <= i <= n,
            forall|t: int|
                0 <= t < pairs@.len() ==> pairs@[t].0 < 0x1_0000_0000 && pairs@[t].1 >= 0,
            out@.len() == 9 + 12 * i,
            forall|j: int| 0 <= j < out@.len() ==> out@[j] == enc_byte(pairs@, j),
        decreases n - i,
    {
        let pair = pairs[i];
        let ghost pre = out@;
        push_u32_le(&mut out, pair.0 as u32);
        push_u64_le(&mut out, pair.1 as u64);
        proof {
            assert forall|j: int| 0 <= j < out@.len() implies out@[j] == enc_byte(pairs@, j) by {
                if j >= 9 + 12 * i {
                    lemma_entry_offset(i as int, j - 9 - 12 * i);
                }
            }
        }
        i = i + 1;
    }
    proof {
        assert(out@ =~= encode_pairs_spec(pairs@));
    }
    out
}

/// Parse a buffer back into its pair vector, exactly as [`decode_spec`]
/// says: a corrupted buffer yields nothing.
pub fn decode_pairs(b: &Vec<u8>) -> (r: Option<Vec<(u64, i64)>>)
    ensures
        match r {
            Some(v) => decode_spec(b@) == Some(v@),
            None => decode_spec(b@) is None,
        },
{
    let len: usize = b.len();
    if len < 9 {
        return None;
    }
    if b[0] != FORMAT_VERSION {
        return None;
    }
    let n64: u64 = read_u64_le(b, 1);
    proof {
        assert(n64 == decoded_count(b@));
    }
    let body: u64 = (len as u64) - 9;
    if n64 != body / 12 || body % 12 != 0 {
        proof {
            if len == 9 + 12 * (n64 as int) {
                lemma_fundamental_div_mod_converse_div(body as int, 12, n64 as int, 0);
                lemma_fundamental_div_mod_converse_mod(body as int, 12, n64 as int, 0);
            }
        }
        return None;
    }
    proof {
        lemma_fundamental_div_mod(body as int, 12);
        assert(len == 9 + 12 * (n64 as int));
        assert(n64 <= len as u64);
    }
    let n: usize = n64 as usize;
    let mut out: Vec<(u64, i64)> = Vec::new();
    let mut i: usize = 0;
    while i < n
        invariant
            b@.len() == 9 + 12 * n,
            b@.len() <= usize::MAX,
            n == decoded_count(b@),
            0 <= i <= n,
            out@ =~= Seq::new(i as nat, |j: int| (decoded_key(b@, j), decoded_raw(b@, j) as i64)),
            forall|j: int| 0 <= j < i ==> decoded_raw(b@, j) <= i64::MAX,
        decreases n - i,
    {
        let off: usize = 9 + 12 * i;
        let key: u32 = read_u32_le(b, off);
        let raw: u64 = read_u64_le(b, off + 4);
        if raw > 0x7fff_ffff_ffff_ffff {
            proof {
                assert(decoded_raw(b@, i as int) > i64::MAX);
            }
            return None;
        }
        out.push((key as u64, raw as i64));
        proof {
            assert(raw == decoded_raw(b@, i as int));
            assert(out@ =~= Seq::new(
                (i + 1) as nat,
                |j: int| (decoded_key(b@, j), decoded_raw(b@, j) as i64),
            ));
        }
        i = i + 1;
    }
    proof {
        let entries = Seq::new(
            decoded_count(b@) as nat,
            |j: int| (decoded_key(b@, j), decoded_raw(b@, j) as i64),
        );
        assert(out@ =~= entries);
    }
    Some(out)
}

/// Decoding inverts encoding: a buffer taken from a payload parses back to
/// exactly the pairs that were pending, in order.
pub proof fn lemma_encode_decode_round_trip(p: Seq<(u64, i64)>)
    requires
        p.len() <= u64::MAX,
        forall|i: int| 0 <= i < p.len() ==> p[i].0 < 0x1_0000_0000 && p[i].1 >= 0,
    ensures
        decode_spec(encode_pairs_spec(p)) == Some(p),
{
    let e = encode_pairs_spec(p);
    let n = p.len() as int;
    assert(e.len() == 9 + 12 * n);
    assert(e[0] == FORMAT_VERSION);
    lemma_u64_le_round(p.len() as u64);
    assert(decoded_count(e) == p.len() as u64);
    assert forall|i: int| 0 <= i < n implies decoded_key(e, i) == p[i].0 && decoded_raw(e, i)
        == p[i].1 by {
        assert forall|k: int| 0 <= k < 12 implies e[9 + 12 * i + k] == entry_byte(
            p[i].0,
            p[i].1,
            k,
        ) by {
            lemma_entry_offset(i, k);
        }
        let key32 = p[i].0 as u32;
        lemma_u32_le_round(key32);
        assert(decoded_key(e, i) == key32 as u64);
        let x = p[i].0;
        assert(x < 0x1_0000_0000 ==> ((x as u32) as u64) == x) by (bit_vector);
        let v64 = p[i].1 as u64;
        lemma_u64_le_round(v64);
        assert(decoded_raw(e, i) == v64);
    }
    assert(Seq::new(
        decoded_count(e) as nat,
        |i: int| (decoded_key(e, i), decoded_raw(e, i) as i64),
    ) =~= p);
}

} // verus!
