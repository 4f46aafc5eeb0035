//! Fixed-width integers as they lie in a byte sequence.
//!
//! The symbol database stores its integers little-endian, the packets on the
//! network store theirs big-endian. Both readings are defined here as
//! arithmetic on the bytes, together with the executable readers and writers
//! and the facts that relate them.

use vstd::prelude::*;

verus! {

/// The 16-bit number stored little-endian in `s[at]` and `s[at + 1]`.
pub open spec fn le16(s: Seq<u8>, at: int) -> u16 {
    (s[at] as int + 256 * (s[at + 1] as int)) as u16
}

/// The 32-bit number stored little-endian in `s[at] .. s[at + 3]`.
pub open spec fn le32(s: Seq<u8>, at: int) -> u32 {
    (s[at] as int + 256 * (s[at + 1] as int) + 65536 * (s[at + 2] as int) + 16777216 * (s[at
        + 3] as int)) as u32
}

/// The 16-bit number stored big-endian in `s[at]` and `s[at + 1]`.
pub open spec fn be16(s: Seq<u8>, at: int) -> u16 {
    (256 * (s[at] as int) + s[at + 1] as int) as u16
}

/// The 32-bit number stored big-endian in `s[at] .. s[at + 3]`.
pub open spec fn be32(s: Seq<u8>, at: int) -> u32 {
    (16777216 * (s[at] as int) + 65536 * (s[at + 1] as int) + 256 * (s[at + 2] as int) + s[at
        + 3] as int) as u32
}

/// The 64-bit number stored big-endian in `s[at] .. s[at + 7]`.
pub open spec fn be64(s: Seq<u8>, at: int) -> u64 {
    (4294967296 * (be32(s, at) as int) + be32(s, at + 4) as int) as u64
}

/// The two bytes that store `x` big-endian.
pub open spec fn be16_bytes(x: u16) -> Seq<u8> {
    seq![(x / 256) as u8, (x % 256) as u8]
}

/// The four bytes that store `x` big-endian.
pub open spec fn be32_bytes(x: u32) -> Seq<u8> {
    seq![
        (x / 16777216) as u8,
        ((x / 65536) % 256) as u8,
        ((x / 256) % 256) as u8,
        (x % 256) as u8,
    ]
}

/// The eight bytes that store `x` big-endian.
pub open spec fn be64_bytes(x: u64) -> Seq<u8> {
    be32_bytes((x / 4294967296) as u32) + be32_bytes((x % 4294967296) as u32)
}

/// The value of a 16-bit pattern read as a two's-complement number.
pub open spec fn signed16(x: u16) -> i16 {
    if x >= 32768 {
        (x - 65536) as i16
    } else {
        x as i16
    }
}

/// The 16-bit pattern of a two's-complement number.
pub open spec fn unsigned16(x: i16) -> u16 {
    if x < 0 {
        (x + 65536) as u16
    } else {
        x as u16
    }
}

/// `n` zero bytes.
pub open spec fn zeros(n: nat) -> Seq<u8> {
    Seq::new(n, |i: int| 0u8)
}

/// Reads a little-endian `u16` at `at`, or nothing if fewer than two bytes
/// are left there.
pub fn read_le16(data: &[u8], at: usize) -> (r: Option<u16>)
    ensures
        r == if at + 2 <= data@.len() {
            Some(le16(data@, at as int))
        } else {
            None
        },
{
    if data.len() < 2 || at > data.len() - 2 {
        return None;
    }
    let b0: u16 = data[at] as u16;
    let b1: u16 = data[at + 1] as u16;
    Some(b0 + 256 * b1)
}

/// Reads a little-endian `u32` at `at`, or nothing if fewer than four bytes
/// are left there.
pub fn read_le32(data: &[u8], at: usize) -> (r: Option<u32>)
    ensures
        r == if at + 4 <= data@.len() {
            Some(le32(data@, at as int))
        } else {
            None
        },
{
    if data.len() < 4 || at > data.len() - 4 {
        return None;
    }
    let b0: u32 = data[at] as u32;
    let b1: u32 = data[at + 1] as u32;
    let b2: u32 = data[at + 2] as u32;
    let b3: u32 = data[at + 3] as u32;
    Some(b0 + 256 * b1 + 65536 * b2 + 16777216 * b3)
}

/// Reads a big-endian `u16` at `at`, or nothing if fewer than two bytes are
/// left there.
pub fn read_be16(data: &[u8], at: usize) -> (r: Option<u16>)
    ensures
        r == if at + 2 <= data@.len() {
            Some(be16(data@, at as int))
        } else {
            None
        },
{
    if data.len() < 2 || at > data.len() - 2 {
        return None;
    }
    let b0: u16 = data[at] as u16;
    let b1: u16 = data[at + 1] as u16;
    Some(256 * b0 + b1)
}

/// Reads a big-endian `u32` at `at`, or nothing if fewer than four bytes are
/// left there.
pub fn read_be32(data: &[u8], at: usize) -> (r: Option<u32>)
    ensures
        r == if at + 4 <= data@.len() {
            Some(be32(data@, at as int))
        } else {
            None
        },
{
    if data.len() < 4 || at > data.len() - 4 {
        return None;
    }
    let b0: u32 = data[at] as u32;
    let b1: u32 = data[at + 1] as u32;
    let b2: u32 = data[at + 2] as u32;
    let b3: u32 = data[at + 3] as u32;
    Some(16777216 * b0 + 65536 * b1 + 256 * b2 + b3)
}

/// Reads a big-endian `u64` at `at`, or nothing if fewer than eight bytes
/// are left there.
pub fn read_be64(data: &[u8], at: usize) -> (r: Option<u64>)
    ensures
        r == if at + 8 <= data@.len() {
            Some(be64(data@, at as int))
        } else {
            None
        },
{
    if data.len() < 8 || at > data.len() - 8 {
        return None;
    }
    let hi: u64 = match read_be32(data, at) {
        Some(v) => v as u64,
        None => 0,
    };
    let lo: u64 = match read_be32(data, at + 4) {
        Some(v) => v as u64,
        None => 0,
    };
    Some(4294967296 * hi + lo)
}

/// Appends `x` big-endian.
pub fn push_be16(out: &mut Vec<u8>, x: u16)
    ensures
        final(out)@ == old(out)@ + be16_bytes(x),
{
    out.push((x / 256) as u8);
    out.push((x % 256) as u8);
    assert(out@ =~= old(out)@ + be16_bytes(x));
}

/// Appends `x` big-endian.
pub fn push_be32(out: &mut Vec<u8>, x: u32)
    ensures
        final(out)@ == old(out)@ + be32_bytes(x),
{
    out.push((x / 16777216) as u8);
    out.push(((x / 65536) % 256) as u8);
    out.push(((x / 256) % 256) as u8);
    out.push((x % 256) as u8);
    assert(out@ =~= old(out)@ + be32_bytes(x));
}

/// Appends `x` big-endian.
pub fn push_be64(out: &mut Vec<u8>, x: u64)
    ensures
        final(out)@ == old(out)@ + be64_bytes(x),
{
    let ghost before = out@;
    push_be32(out, (x / 4294967296) as u32);
    push_be32(out, (x % 4294967296) as u32);
    assert(out@ =~= before + be64_bytes(x));
}

/// Appends the bytes of `src`.
pub fn push_all(out: &mut Vec<u8>, src: &[u8])
    ensures
        final(out)@ == old(out)@ + src@,
{
    let mut i: usize = 0;
    while i < src.len()
        invariant
            i <= src@.len(),
            out@ == old(out)@ + src@.subrange(0, i as int),
        decreases src@.len() - i,
    {
        out.push(src[i]);
        i = i + 1;
        assert(out@ =~= old(out)@ + src@.subrange(0, i as int));
    }
    assert(src@.subrange(0, i as int) =~= src@);
}

/// Appends `n` zero bytes.
pub fn push_zeros(out: &mut Vec<u8>, n: usize)
    ensures
        final(out)@ == old(out)@ + zeros(n as nat),
{
    let mut i: usize = 0;
    while i < n
        invariant
            i <= n,
            out@ == old(out)@ + zeros(i as nat),
        decreases n - i,
    {
        out.push(0u8);
        i = i + 1;
        assert(out@ =~= old(out)@ + zeros(i as nat));
    }
}

/// A copy of `data[from .. to]`.
pub(crate) fn copy_range(data: &[u8], from: usize, to: usize) -> (r: Vec<u8>)
    requires
        from <= to <= data@.len(),
    ensures
        r@ == data@.subrange(from as int, to as int),
{
    let mut r: Vec<u8> = Vec::new();
    let mut i: usize = from;
    while i < to
        invariant
            from <= i <= to <= data@.len(),
            r@ == data@.subrange(from as int, i as int),
        decreases to - i,
    {
        r.push(data[i]);
        i = i + 1;
        assert(r@ =~= data@.subrange(from as int, i as int));
    }
    r
}

/// Reading back what `be16_bytes` wrote gives the number again, wherever the
/// two bytes stand.
pub proof fn lemma_be16_round_trip(s: Seq<u8>, at: int, x: u16)
    requires
        0 <= at,
        at + 2 <= s.len(),
        s.subrange(at, at + 2) == be16_bytes(x),
    ensures
        be16(s, at) == x,
{
    let b = be16_bytes(x);
    assert(s[at] == s.subrange(at, at + 2)[0]);
    assert(s[at + 1] == s.subrange(at, at + 2)[1]);
    assert(b[0] == (x / 256) as u8);
    assert(b[1] == (x % 256) as u8);
}

/// Reading back what `be32_bytes` wrote gives the number again, wherever the
/// four bytes stand.
pub proof fn lemma_be32_round_trip(s: Seq<u8>, at: int, x: u32)
    requires
        0 <= at,
        at + 4 <= s.len(),
        s.subrange(at, at + 4) == be32_bytes(x),
    ensures
        be32(s, at) == x,
{
    let b = be32_bytes(x);
    let t = s.subrange(at, at + 4);
    assert(s[at] == t[0]);
    assert(s[at + 1] == t[1]);
    assert(s[at + 2] == t[2]);
    assert(s[at + 3] == t[3]);
    assert(b[0] == (x / 16777216) as u8);
    assert(b[1] == ((x / 65536) % 256) as u8);
    assert(b[2] == ((x / 256) % 256) as u8);
    assert(b[3] == (x % 256) as u8);
}

/// Reading back what `be64_bytes` wrote gives the number again, wherever the
/// eight bytes stand.
pub proof fn lemma_be64_round_trip(s: Seq<u8>, at: int, x: u64)
    requires
        0 <= at,
        at + 8 <= s.len(),
        s.subrange(at, at + 8) == be64_bytes(x),
    ensures
        be64(s, at) == x,
{
    let t = s.subrange(at, at + 8);
    let hi = (x / 4294967296) as u32;
    let lo = (x % 4294967296) as u32;
    assert(s.subrange(at, at + 4) =~= t.subrange(0, 4));
    assert(s.subrange(at + 4, at + 8) =~= t.subrange(4, 8));
    assert(t.subrange(0, 4) =~= be32_bytes(hi));
    assert(t.subrange(4, 8) =~= be32_bytes(lo));
    lemma_be32_round_trip(s, at, hi);
    lemma_be32_round_trip(s, at + 4, lo);
}

} // verus!
