//! Little-endian 32-bit integers in a byte sequence.

use vstd::prelude::*;

verus! {

/// The integer that four bytes hold, least significant byte first.
pub open spec fn le_u32(b: Seq<u8>) -> u32 {
    (b[0] as u32) | ((b[1] as u32) << 8u32) | ((b[2] as u32) << 16u32) | ((b[3] as u32) << 24u32)
}

/// The four bytes of `x`, least significant first.
pub open spec fn le_bytes(x: u32) -> Seq<u8> {
    seq![
        (x & 0xff) as u8,
        ((x >> 8u32) & 0xff) as u8,
        ((x >> 16u32) & 0xff) as u8,
        (x >> 24u32) as u8,
    ]
}

/// Reading back the bytes of an integer gives the integer.
pub proof fn lemma_le_round_trip(x: u32)
    ensures
        le_bytes(x).len() == 4,
        le_u32(le_bytes(x)) == x,
{
    let b = le_bytes(x);
    let b0 = b[0];
    let b1 = b[1];
    let b2 = b[2];
    let b3 = b[3];
    assert((b0 as u32) | ((b1 as u32) << 8u32) | ((b2 as u32) << 16u32) | ((b3 as u32) << 24u32)
        == x) by (bit_vector)
        requires
            b0 == (x & 0xff) as u8,
            b1 == ((x >> 8u32) & 0xff) as u8,
            b2 == ((x >> 16u32) & 0xff) as u8,
            b3 == (x >> 24u32) as u8,
    ;
}

/// Writing out the integer that four bytes hold gives the bytes.
pub proof fn lemma_le_bytes_of_u32(b: Seq<u8>)
    requires
        b.len() == 4,
    ensures
        le_bytes(le_u32(b)) == b,
{
    let b0 = b[0];
    let b1 = b[1];
    let b2 = b[2];
    let b3 = b[3];
    let x = le_u32(b);
    assert(((x & 0xff) as u8 == b0 && ((x >> 8u32) & 0xff) as u8 == b1 && ((x >> 16u32) & 0xff)
        as u8 == b2 && (x >> 24u32) as u8 == b3)) by (bit_vector)
        requires
            x == (b0 as u32) | ((b1 as u32) << 8u32) | ((b2 as u32) << 16u32) | ((b3 as u32)
                << 24u32),
    ;
    assert(le_bytes(x) =~= b);
}

/// Reads the integer stored at `pos`.
pub fn read_u32_le(data: &[u8], pos: usize) -> (r: u32)
    requires
        pos + 4 <= data@.len(),
    ensures
        r == le_u32(data@.subrange(pos as int, pos + 4)),
{
    let b0 = data[pos] as u32;
    let b1 = data[pos + 1] as u32;
    let b2 = data[pos + 2] as u32;
    let b3 = data[pos + 3] as u32;
    b0 | (b1 << 8u32) | (b2 << 16u32) | (b3 << 24u32)
}

/// Appends the four bytes of `x`.
pub fn push_u32_le(out: &mut Vec<u8>, x: u32)
    ensures
        final(out)@ == old(out)@ + le_bytes(x),
{
    out.push((x & 0xff) as u8);
    out.push(((x >> 8u32) & 0xff) as u8);
    out.push(((x >> 16u32) & 0xff) as u8);
    out.push((x >> 24u32) as u8);
    assert(out@ =~= old(out)@ + le_bytes(x));
}

} // verus!
