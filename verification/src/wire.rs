//! Big-endian fixed-width integers: their byte-level specification,
//! executable readers and writers, and the round-trip lemmas the codec
//! proofs rely on.

use vstd::prelude::*;

verus! {

/// The two big-endian bytes of a 16-bit integer.
pub open spec fn be2(n: u16) -> Seq<u8> {
    seq![((n >> 8) & 0xff) as u8, (n & 0xff) as u8]
}

/// The 16-bit integer spelled by two big-endian bytes.
pub open spec fn be2_val(b0: u8, b1: u8) -> u16 {
    ((b0 as u16) << 8) | (b1 as u16)
}

/// The four big-endian bytes of a 32-bit integer.
pub open spec fn be4(n: u32) -> Seq<u8> {
    seq![
        ((n >> 24) & 0xff) as u8,
        ((n >> 16) & 0xff) as u8,
        ((n >> 8) & 0xff) as u8,
        (n & 0xff) as u8,
    ]
}

/// The 32-bit integer spelled by four big-endian bytes.
pub open spec fn be4_val(b0: u8, b1: u8, b2: u8, b3: u8) -> u32 {
    ((b0 as u32) << 24) | ((b1 as u32) << 16) | ((b2 as u32) << 8) | (b3 as u32)
}

/// The eight big-endian bytes of a 64-bit integer.
pub open spec fn be8(n: u64) -> Seq<u8> {
    seq![
        ((n >> 56) & 0xff) as u8,
        ((n >> 48) & 0xff) as u8,
        ((n >> 40) & 0xff) as u8,
        ((n >> 32) & 0xff) as u8,
        ((n >> 24) & 0xff) as u8,
        ((n >> 16) & 0xff) as u8,
        ((n >> 8) & 0xff) as u8,
        (n & 0xff) as u8,
    ]
}

/// The 64-bit integer spelled by eight big-endian bytes.
pub open spec fn be8_val(b0: u8, b1: u8, b2: u8, b3: u8, b4: u8, b5: u8, b6: u8, b7: u8) -> u64 {
    ((b0 as u64) << 56) | ((b1 as u64) << 48) | ((b2 as u64) << 40) | ((b3 as u64) << 32)
        | ((b4 as u64) << 24) | ((b5 as u64) << 16) | ((b6 as u64) << 8) | (b7 as u64)
}

pub broadcast proof fn lemma_be2_round_trip(n: u16)
    ensures
        be2_val(#[trigger] be2(n)[0], be2(n)[1]) == n,
{
    assert(((((n >> 8) & 0xff) as u8 as u16) << 8) | ((n & 0xff) as u8 as u16) == n)
        by (bit_vector);
}

pub broadcast proof fn lemma_be4_round_trip(n: u32)
    ensures
        be4_val(#[trigger] be4(n)[0], be4(n)[1], be4(n)[2], be4(n)[3]) == n,
{
    assert(((((n >> 24) & 0xff) as u8 as u32) << 24) | ((((n >> 16) & 0xff) as u8 as u32) << 16)
        | ((((n >> 8) & 0xff) as u8 as u32) << 8) | ((n & 0xff) as u8 as u32) == n)
        by (bit_vector);
}

pub broadcast proof fn lemma_be8_round_trip(n: u64)
    ensures
        be8_val(
            #[trigger] be8(n)[0],
            be8(n)[1],
            be8(n)[2],
            be8(n)[3],
            be8(n)[4],
            be8(n)[5],
            be8(n)[6],
            be8(n)[7],
        ) == n,
{
    assert(((((n >> 56) & 0xff) as u8 as u64) << 56) | ((((n >> 48) & 0xff) as u8 as u64) << 48)
        | ((((n >> 40) & 0xff) as u8 as u64) << 40) | ((((n >> 32) & 0xff) as u8 as u64) << 32)
        | ((((n >> 24) & 0xff) as u8 as u64) << 24) | ((((n >> 16) & 0xff) as u8 as u64) << 16)
        | ((((n >> 8) & 0xff) as u8 as u64) << 8) | ((n & 0xff) as u8 as u64) == n)
        by (bit_vector);
}

/// A signed value that fits one byte survives the cast to `u8` and back.
pub broadcast proof fn lemma_i64_u8_round_trip(n: i64)
    requires
        -128 <= n <= 127,
    ensures
        (#[trigger] (n as u8)) as i8 as i64 == n,
{
    assert((-128 <= n && n <= 127) ==> (n as u8) as i8 as i64 == n) by (bit_vector);
}

/// A signed value that fits 16 bits survives the cast to `u16` and back.
pub broadcast proof fn lemma_i64_u16_round_trip(n: i64)
    requires
        -0x8000 <= n <= 0x7fff,
    ensures
        (#[trigger] (n as u16)) as i16 as i64 == n,
{
    assert((-0x8000 <= n && n <= 0x7fff) ==> (n as u16) as i16 as i64 == n) by (bit_vector);
}

/// A signed value that fits 32 bits survives the cast to `u32` and back.
pub broadcast proof fn lemma_i64_u32_round_trip(n: i64)
    requires
        -0x8000_0000 <= n <= 0x7fff_ffff,
    ensures
        (#[trigger] (n as u32)) as i32 as i64 == n,
{
    assert((-0x8000_0000 <= n && n <= 0x7fff_ffff) ==> (n as u32) as i32 as i64 == n)
        by (bit_vector);
}

/// Any signed 64-bit value survives the cast to `u64` and back.
pub broadcast proof fn lemma_i64_u64_round_trip(n: i64)
    ensures
        (#[trigger] (n as u64)) as i64 == n,
{
    assert((n as u64) as i64 == n) by (bit_vector);
}

/// Reads the 16-bit big-endian integer at `pos`.
pub fn read_be2(buf: &Vec<u8>, pos: usize) -> (r: u16)
    requires
        pos + 2 <= buf.len(),
    ensures
        r == be2_val(buf@[pos as int], buf@[pos + 1]),
{
    ((buf[pos] as u16) << 8) | (buf[pos + 1] as u16)
}

/// Reads the 32-bit big-endian integer at `pos`.
pub fn read_be4(buf: &Vec<u8>, pos: usize) -> (r: u32)
    requires
        pos + 4 <= buf.len(),
    ensures
        r == be4_val(buf@[pos as int], buf@[pos + 1], buf@[pos + 2], buf@[pos + 3]),
{
    ((buf[pos] as u32) << 24) | ((buf[pos + 1] as u32) << 16) | ((buf[pos + 2] as u32) << 8)
        | (buf[pos + 3] as u32)
}

/// Reads the 64-bit big-endian integer at `pos`.
pub fn read_be8(buf: &Vec<u8>, pos: usize) -> (r: u64)
    requires
        pos + 8 <= buf.len(),
    ensures
        r == be8_val(
            buf@[pos as int],
            buf@[pos + 1],
            buf@[pos + 2],
            buf@[pos + 3],
            buf@[pos + 4],
            buf@[pos + 5],
            buf@[pos + 6],
            buf@[pos + 7],
        ),
{
    ((buf[pos] as u64) << 56) | ((buf[pos + 1] as u64) << 48) | ((buf[pos + 2] as u64) << 40)
        | ((buf[pos + 3] as u64) << 32) | ((buf[pos + 4] as u64) << 24)
        | ((buf[pos + 5] as u64) << 16) | ((buf[pos + 6] as u64) << 8) | (buf[pos + 7] as u64)
}

/// Appends the two big-endian bytes of `n`.
pub fn push_be2(out: &mut Vec<u8>, n: u16)
    ensures
        final(out)@ == old(out)@ + be2(n),
{
    out.push(((n >> 8) & 0xff) as u8);
    out.push((n & 0xff) as u8);
    assert(out@ =~= old(out)@ + be2(n));
}

/// Appends the four big-endian bytes of `n`.
pub fn push_be4(out: &mut Vec<u8>, n: u32)
    ensures
        final(out)@ == old(out)@ + be4(n),
{
    out.push(((n >> 24) & 0xff) as u8);
    out.push(((n >> 16) & 0xff) as u8);
    out.push(((n >> 8) & 0xff) as u8);
    out.push((n & 0xff) as u8);
    assert(out@ =~= old(out)@ + be4(n));
}

/// Appends the eight big-endian bytes of `n`.
pub fn push_be8(out: &mut Vec<u8>, n: u64)
    ensures
        final(out)@ == old(out)@ + be8(n),
{
    out.push(((n >> 56) & 0xff) as u8);
    out.push(((n >> 48) & 0xff) as u8);
    out.push(((n >> 40) & 0xff) as u8);
    out.push(((n >> 32) & 0xff) as u8);
    out.push(((n >> 24) & 0xff) as u8);
    out.push(((n >> 16) & 0xff) as u8);
    out.push(((n >> 8) & 0xff) as u8);
    out.push((n & 0xff) as u8);
    assert(out@ =~= old(out)@ + be8(n));
}

} // verus!
