//! Little-endian field primitives: reading and writing the fixed-width
//! integer types that every record of the level format is built from.
//!
//! Signed fields travel on the wire as their unsigned two's-complement
//! images; `spec_i16_of_u16` and friends give that correspondence a name so
//! the record contracts can speak about the signed values directly.

use vstd::prelude::*;

verus! {

/// The signed value whose two's-complement image is `v`.
pub open spec fn spec_i16_of_u16(v: u16) -> i16 {
    if v < 0x8000 {
        v as i16
    } else {
        (v - 0x10000) as i16
    }
}

/// The two's-complement image of `v` in a `u16`.
pub open spec fn spec_u16_of_i16(v: i16) -> u16 {
    if v >= 0 {
        v as u16
    } else {
        (v + 0x10000) as u16
    }
}

/// The signed value whose two's-complement image is `v`.
pub open spec fn spec_i32_of_u32(v: u32) -> i32 {
    if v < 0x8000_0000 {
        v as i32
    } else {
        (v - 0x1_0000_0000) as i32
    }
}

/// The two's-complement image of `v` in a `u32`.
pub open spec fn spec_u32_of_i32(v: i32) -> u32 {
    if v >= 0 {
        v as u32
    } else {
        (v + 0x1_0000_0000) as u32
    }
}

pub proof fn lemma_i16_u16_round_trip()
    ensures
        forall|v: i16| #[trigger] spec_i16_of_u16(spec_u16_of_i16(v)) == v,
        forall|v: u16| #[trigger] spec_u16_of_i16(spec_i16_of_u16(v)) == v,
{
}

pub proof fn lemma_i32_u32_round_trip()
    ensures
        forall|v: i32| #[trigger] spec_i32_of_u32(spec_u32_of_i32(v)) == v,
        forall|v: u32| #[trigger] spec_u32_of_i32(spec_i32_of_u32(v)) == v,
{
}

/// The `u16` stored little-endian at byte offset `off` of `b`.
pub open spec fn le_u16(b: Seq<u8>, off: int) -> u16 {
    (b[off] as u16) | ((b[off + 1] as u16) << 8)
}

/// The `u32` stored little-endian at byte offset `off` of `b`.
pub open spec fn le_u32(b: Seq<u8>, off: int) -> u32 {
    (b[off] as u32) | ((b[off + 1] as u32) << 8) | ((b[off + 2] as u32) << 16) | ((b[off + 3]
        as u32) << 24)
}

/// The `i16` stored little-endian at byte offset `off` of `b`.
pub open spec fn le_i16(b: Seq<u8>, off: int) -> i16 {
    spec_i16_of_u16(le_u16(b, off))
}

/// The `i32` stored little-endian at byte offset `off` of `b`.
pub open spec fn le_i32(b: Seq<u8>, off: int) -> i32 {
    spec_i32_of_u32(le_u32(b, off))
}

/// The two little-endian bytes of `v`.
pub open spec fn spec_u16_le(v: u16) -> Seq<u8> {
    seq![(v & 0xff) as u8, ((v >> 8) & 0xff) as u8]
}

/// The four little-endian bytes of `v`.
pub open spec fn spec_u32_le(v: u32) -> Seq<u8> {
    seq![
        (v & 0xff) as u8,
        ((v >> 8) & 0xff) as u8,
        ((v >> 16) & 0xff) as u8,
        ((v >> 24) & 0xff) as u8,
    ]
}

/// A `u16` survives the trip through its little-endian bytes.
pub proof fn lemma_u16_le_round_trip(v: u16)
    ensures
        ((v & 0xff) as u8 as u16) | (((v >> 8) & 0xff) as u8 as u16) << 8 == v,
{
    assert(((v & 0xff) as u8 as u16) | (((v >> 8) & 0xff) as u8 as u16) << 8 == v)
        by (bit_vector);
}

/// A `u32` survives the trip through its little-endian bytes.
pub proof fn lemma_u32_le_round_trip(v: u32)
    ensures
        ((v & 0xff) as u8 as u32) | (((v >> 8) & 0xff) as u8 as u32) << 8 | (((v >> 16) & 0xff)
            as u8 as u32) << 16 | (((v >> 24) & 0xff) as u8 as u32) << 24 == v,
{
    assert(((v & 0xff) as u8 as u32) | (((v >> 8) & 0xff) as u8 as u32) << 8 | (((v >> 16) & 0xff)
        as u8 as u32) << 16 | (((v >> 24) & 0xff) as u8 as u32) << 24 == v) by (bit_vector);
}

/// Reading at `off` from a buffer that holds the bytes of `v` there gives
/// back `v`.
pub proof fn lemma_le_u16_of_bytes(b: Seq<u8>, off: int, v: u16)
    requires
        b[off] == spec_u16_le(v)[0],
        b[off + 1] == spec_u16_le(v)[1],
    ensures
        le_u16(b, off) == v,
{
    lemma_u16_le_round_trip(v);
}

/// Reading at `off` from a buffer that holds the bytes of `v` there gives
/// back `v`.
pub proof fn lemma_le_u32_of_bytes(b: Seq<u8>, off: int, v: u32)
    requires
        b[off] == spec_u32_le(v)[0],
        b[off + 1] == spec_u32_le(v)[1],
        b[off + 2] == spec_u32_le(v)[2],
        b[off + 3] == spec_u32_le(v)[3],
    ensures
        le_u32(b, off) == v,
{
    lemma_u32_le_round_trip(v);
}

/// Splitting a known window of `b` into its head and the remainder.
pub proof fn lemma_split_at(b: Seq<u8>, off: int, head: Seq<u8>, rest: Seq<u8>)
    requires
        0 <= off,
        b.len() >= off + head.len() + rest.len(),
        b.subrange(off, off + head.len() + rest.len()) == head + rest,
    ensures
        b.subrange(off, off + head.len()) == head,
        b.subrange(off + head.len(), off + head.len() + rest.len()) == rest,
{
    let window = b.subrange(off, off + head.len() + rest.len());
    assert forall|i: int| 0 <= i < head.len() implies b[off + i] == head[i] by {
        assert(window[i] == b[off + i]);
    }
    assert forall|i: int| 0 <= i < rest.len() implies b[off + head.len() + i] == rest[i] by {
        assert(window[head.len() + i] == b[off + head.len() + i]);
    }
    assert(b.subrange(off, off + head.len()) =~= head);
    assert(b.subrange(off + head.len(), off + head.len() + rest.len()) =~= rest);
}

/// A buffer holding the bytes of `v` in a two-byte window reads back as `v`.
pub proof fn lemma_le_u16_here(b: Seq<u8>, off: int, v: u16)
    requires
        0 <= off,
        off + 2 <= b.len(),
        b.subrange(off, off + 2) == spec_u16_le(v),
    ensures
        le_u16(b, off) == v,
{
    assert(b[off] == b.subrange(off, off + 2)[0]);
    assert(b[off + 1] == b.subrange(off, off + 2)[1]);
    lemma_le_u16_of_bytes(b, off, v);
}

/// A buffer holding the bytes of `v` in a four-byte window reads back as `v`.
pub proof fn lemma_le_u32_here(b: Seq<u8>, off: int, v: u32)
    requires
        0 <= off,
        off + 4 <= b.len(),
        b.subrange(off, off + 4) == spec_u32_le(v),
    ensures
        le_u32(b, off) == v,
{
    assert(b[off] == b.subrange(off, off + 4)[0]);
    assert(b[off + 1] == b.subrange(off, off + 4)[1]);
    assert(b[off + 2] == b.subrange(off, off + 4)[2]);
    assert(b[off + 3] == b.subrange(off, off + 4)[3]);
    lemma_le_u32_of_bytes(b, off, v);
}

/// The signed variant of `lemma_le_u16_here`.
pub proof fn lemma_le_i16_here(b: Seq<u8>, off: int, v: i16)
    requires
        0 <= off,
        off + 2 <= b.len(),
        b.subrange(off, off + 2) == spec_u16_le(spec_u16_of_i16(v)),
    ensures
        le_i16(b, off) == v,
{
    lemma_le_u16_here(b, off, spec_u16_of_i16(v));
    lemma_i16_u16_round_trip();
}

/// The signed variant of `lemma_le_u32_here`.
pub proof fn lemma_le_i32_here(b: Seq<u8>, off: int, v: i32)
    requires
        0 <= off,
        off + 4 <= b.len(),
        b.subrange(off, off + 4) == spec_u32_le(spec_u32_of_i32(v)),
    ensures
        le_i32(b, off) == v,
{
    lemma_le_u32_here(b, off, spec_u32_of_i32(v));
    lemma_i32_u32_round_trip();
}

pub fn read_u8(data: &Vec<u8>, off: usize) -> (r: u8)
    requires
        off < data@.len(),
    ensures
        r == data@[off as int],
{
    data[off]
}

pub fn read_u16(data: &Vec<u8>, off: usize) -> (r: u16)
    requires
        off + 2 <= data@.len(),
    ensures
        r == le_u16(data@, off as int),
{
    let n: usize = data.len();
    assert(off + 2 <= n);
    let b0 = data[off];
    let b1 = data[off + 1];
    (b0 as u16) | ((b1 as u16) << 8)
}

pub fn read_u32(data: &Vec<u8>, off: usize) -> (r: u32)
    requires
        off + 4 <= data@.len(),
    ensures
        r == le_u32(data@, off as int),
{
    let n: usize = data.len();
    assert(off + 4 <= n);
    let b0 = data[off];
    let b1 = data[off + 1];
    let b2 = data[off + 2];
    let b3 = data[off + 3];
    (b0 as u32) | ((b1 as u32) << 8) | ((b2 as u32) << 16) | ((b3 as u32) << 24)
}

pub fn read_i16(data: &Vec<u8>, off: usize) -> (r: i16)
    requires
        off + 2 <= data@.len(),
    ensures
        r == le_i16(data@, off as int),
{
    let v = read_u16(data, off);
    if v < 0x8000 {
        v as i16
    } else {
        ((v as i32) - 0x10000) as i16
    }
}

pub fn read_i32(data: &Vec<u8>, off: usize) -> (r: i32)
    requires
        off + 4 <= data@.len(),
    ensures
        r == le_i32(data@, off as int),
{
    let v = read_u32(data, off);
    if v < 0x8000_0000 {
        v as i32
    } else {
        ((v as i64) - 0x1_0000_0000) as i32
    }
}

pub fn push_u16(out: &mut Vec<u8>, v: u16)
    ensures
        final(out)@ == old(out)@ + spec_u16_le(v),
{
    out.push((v & 0xff) as u8);
    out.push(((v >> 8) & 0xff) as u8);
    assert(out@ =~= old(out)@ + spec_u16_le(v));
}

pub fn push_u32(out: &mut Vec<u8>, v: u32)
    ensures
        final(out)@ == old(out)@ + spec_u32_le(v),
{
    out.push((v & 0xff) as u8);
    out.push(((v >> 8) & 0xff) as u8);
    out.push(((v >> 16) & 0xff) as u8);
    out.push(((v >> 24) & 0xff) as u8);
    assert(out@ =~= old(out)@ + spec_u32_le(v));
}

pub fn push_i16(out: &mut Vec<u8>, v: i16)
    ensures
        final(out)@ == old(out)@ + spec_u16_le(spec_u16_of_i16(v)),
{
    let u: u16 = if v >= 0 {
        v as u16
    } else {
        ((v as i32) + 0x10000) as u16
    };
    push_u16(out, u);
}

pub fn push_i32(out: &mut Vec<u8>, v: i32)
    ensures
        final(out)@ == old(out)@ + spec_u32_le(spec_u32_of_i32(v)),
{
    let u: u32 = if v >= 0 {
        v as u32
    } else {
        ((v as i64) + 0x1_0000_0000) as u32
    };
    push_u32(out, u);
}

} // verus!
