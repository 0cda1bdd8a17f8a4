//! Little-endian byte primitives for the state-cache wire format.
//!
//! The on-disk format stores unsigned 24-bit and 32-bit integers in
//! little-endian order: low byte first, no padding.

use vstd::prelude::*;

verus! {

/// The 32-bit value laid out little-endian in the four bytes of `b`.
pub open spec fn u32_le_of(b: Seq<u8>) -> u32 {
    (b[0] + b[1] * 0x100 + b[2] * 0x1_0000 + b[3] * 0x100_0000) as u32
}

/// The four little-endian bytes of `v`.
pub open spec fn u32_le_bytes(v: u32) -> Seq<u8> {
    seq![
        (v % 0x100) as u8,
        ((v / 0x100) % 0x100) as u8,
        ((v / 0x1_0000) % 0x100) as u8,
        ((v / 0x100_0000) % 0x100) as u8,
    ]
}

/// The 24-bit value laid out little-endian in the three bytes of `b`.
pub open spec fn u24_le_of(b: Seq<u8>) -> u32 {
    (b[0] + b[1] * 0x100 + b[2] * 0x1_0000) as u32
}

/// The three little-endian bytes of `v`, which must fit in 24 bits.
pub open spec fn u24_le_bytes(v: u32) -> Seq<u8> {
    seq![(v % 0x100) as u8, ((v / 0x100) % 0x100) as u8, ((v / 0x1_0000) % 0x100) as u8]
}

/// Reading back the four bytes of a 32-bit value yields the value.
pub proof fn lemma_u32_le_round_trip(v: u32)
    ensures
        u32_le_bytes(v).len() == 4,
        u32_le_of(u32_le_bytes(v)) == v,
{
    assert(v % 0x100 + (v / 0x100) % 0x100 * 0x100 + (v / 0x1_0000) % 0x100 * 0x1_0000 + (v
        / 0x100_0000) % 0x100 * 0x100_0000 == v) by (bit_vector);
}

/// Re-encoding the 32-bit value read from four bytes yields those bytes.
pub proof fn lemma_u32_le_bytes_of(b: Seq<u8>)
    requires
        b.len() == 4,
    ensures
        u32_le_bytes(u32_le_of(b)) == b,
{
    let b0 = b[0];
    let b1 = b[1];
    let b2 = b[2];
    let b3 = b[3];
    let v = u32_le_of(b);
    assert(v == b0 as u32 + b1 as u32 * 0x100 + b2 as u32 * 0x1_0000 + b3 as u32 * 0x100_0000);
    assert({
        let v = b0 as u32 + b1 as u32 * 0x100 + b2 as u32 * 0x1_0000 + b3 as u32 * 0x100_0000;
        v % 0x100 == b0 as u32 && (v / 0x100) % 0x100 == b1 as u32 && (v / 0x1_0000) % 0x100
            == b2 as u32 && (v / 0x100_0000) % 0x100 == b3 as u32
    }) by (bit_vector);
    assert(u32_le_bytes(v) =~= b);
}

/// Reading back the three bytes of a 24-bit value yields the value.
pub proof fn lemma_u24_le_round_trip(v: u32)
    requires
        v < 0x100_0000,
    ensures
        u24_le_bytes(v).len() == 3,
        u24_le_of(u24_le_bytes(v)) == v,
{
    assert(v < 0x100_0000 ==> v % 0x100 + (v / 0x100) % 0x100 * 0x100 + (v / 0x1_0000) % 0x100
        * 0x1_0000 == v) by (bit_vector);
}

/// Re-encoding the 24-bit value read from three bytes yields those bytes,
/// and the value fits in 24 bits.
pub proof fn lemma_u24_le_bytes_of(b: Seq<u8>)
    requires
        b.len() == 3,
    ensures
        u24_le_of(b) < 0x100_0000,
        u24_le_bytes(u24_le_of(b)) == b,
{
    let b0 = b[0];
    let b1 = b[1];
    let b2 = b[2];
    let v = u24_le_of(b);
    assert(v == b0 as u32 + b1 as u32 * 0x100 + b2 as u32 * 0x1_0000);
    assert({
        let v = b0 as u32 + b1 as u32 * 0x100 + b2 as u32 * 0x1_0000;
        v < 0x100_0000 && v % 0x100 == b0 as u32 && (v / 0x100) % 0x100 == b1 as u32 && (v
            / 0x1_0000) % 0x100 == b2 as u32
    }) by (bit_vector);
    assert(u24_le_bytes(v) =~= b);
}

/// Reads the little-endian 32-bit integer at `pos`.
pub fn read_u32_le(b: &Vec<u8>, pos: usize) -> (v: u32)
    requires
        pos + 4 <= b@.len(),
    ensures
        v == u32_le_of(b@.subrange(pos as int, pos as int + 4)),
{
    // pins the length to a usize, so the index sums below cannot overflow
    let _n = b.len();
    let v = b[pos] as u32 + b[pos + 1] as u32 * 0x100 + b[pos + 2] as u32 * 0x1_0000 + b[pos
        + 3] as u32 * 0x100_0000;
    proof {
        let s = b@.subrange(pos as int, pos as int + 4);
        assert(s[0] == b@[pos as int] && s[1] == b@[pos as int + 1] && s[2] == b@[pos as int + 2]
            && s[3] == b@[pos as int + 3]);
    }
    v
}

/// Reads the little-endian 24-bit integer at `pos`.
pub fn read_u24_le(b: &Vec<u8>, pos: usize) -> (v: u32)
    requires
        pos + 3 <= b@.len(),
    ensures
        v == u24_le_of(b@.subrange(pos as int, pos as int + 3)),
        v < 0x100_0000,
{
    // pins the length to a usize, so the index sums below cannot overflow
    let _n = b.len();
    let v = b[pos] as u32 + b[pos + 1] as u32 * 0x100 + b[pos + 2] as u32 * 0x1_0000;
    proof {
        let s = b@.subrange(pos as int, pos as int + 3);
        assert(s[0] == b@[pos as int] && s[1] == b@[pos as int + 1] && s[2] == b@[pos as int + 2]);
    }
    v
}

/// Appends the four little-endian bytes of `v`.
pub fn write_u32_le(out: &mut Vec<u8>, v: u32)
    ensures
        final(out)@ == old(out)@ + u32_le_bytes(v),
{
    out.push((v % 0x100) as u8);
    out.push((v / 0x100 % 0x100) as u8);
    out.push((v / 0x1_0000 % 0x100) as u8);
    out.push((v / 0x100_0000 % 0x100) as u8);
    proof {
        assert(out@ =~= old(out)@ + u32_le_bytes(v));
    }
}

/// Appends the three little-endian bytes of `v`, which must fit in 24 bits.
pub fn write_u24_le(out: &mut Vec<u8>, v: u32)
    requires
        v < 0x100_0000,
    ensures
        final(out)@ == old(out)@ + u24_le_bytes(v),
{
    out.push((v % 0x100) as u8);
    out.push((v / 0x100 % 0x100) as u8);
    out.push((v / 0x1_0000 % 0x100) as u8);
    proof {
        assert(out@ =~= old(out)@ + u24_le_bytes(v));
    }
}

/// Copies the byte range `start..end` out of `b`.
pub fn copy_bytes(b: &Vec<u8>, start: usize, end: usize) -> (r: Vec<u8>)
    requires
        start <= end <= b@.len(),
    ensures
        r@ == b@.subrange(start as int, end as int),
{
    let mut r: Vec<u8> = Vec::new();
    let mut i: usize = start;
    while i < end
        invariant
            start <= i <= end <= b@.len(),
            r@ == b@.subrange(start as int, i as int),
        decreases end - i,
    {
        r.push(b[i]);
        i = i + 1;
        proof {
            assert(r@ =~= b@.subrange(start as int, i as int));
        }
    }
    r
}

/// Appends all of `src` to `out`.
pub fn append_bytes(out: &mut Vec<u8>, src: &Vec<u8>)
    ensures
        final(out)@ == old(out)@ + src@,
{
    let mut i: usize = 0;
    while i < src.len()
        invariant
            i <= src@.len(),
            out@ == old(out)@ + src@.subrange(0, i as int),
        decreases src@.len() - i,
    {
        out.push(src[i]);
        i = i + 1;
        proof {
            assert(out@ =~= old(out)@ + src@.subrange(0, i as int));
        }
    }
    proof {
        assert(out@ =~= old(out)@ + src@);
    }
}

/// Compares two byte vectors for equality of contents.
pub fn bytes_eq(a: &Vec<u8>, b: &Vec<u8>) -> (r: bool)
    ensures
        r == (a@ == b@),
{
    if a.len() != b.len() {
        return false;
    }
    let mut i: usize = 0;
    while i < a.len()
        invariant
            a@.len() == b@.len(),
            i <= a@.len(),
            forall|j: int| 0 <= j < i ==> a@[j] == b@[j],
        decreases a@.len() - i,
    {
        if a[i] != b[i] {
            return false;
        }
        i = i + 1;
    }
    proof {
        assert(a@ =~= b@);
    }
    true
}

} // verus!
