use byteorder::{BigEndian, ByteOrder};
use vstd::prelude::*;

verus! {

/// Big-endian bytes of an unsigned 16-bit value `n` (0 <= n < 2^16).
pub open spec fn be16(n: int) -> Seq<u8> {
    seq![(n / 256) as u8, (n % 256) as u8]
}

/// Big-endian bytes of an unsigned 32-bit value `n` (0 <= n < 2^32).
pub open spec fn be32(n: int) -> Seq<u8> {
    seq![
        (n / 16777216) as u8,
        ((n / 65536) % 256) as u8,
        ((n / 256) % 256) as u8,
        (n % 256) as u8,
    ]
}

/// The unsigned value with the same 16-bit two's complement pattern as `v`.
pub open spec fn twos16(v: i16) -> int {
    if v < 0 { v + 65536 } else { v as int }
}

/// The unsigned value with the same 32-bit two's complement pattern as `v`.
pub open spec fn twos32(v: i32) -> int {
    if v < 0 { v + 4294967296 } else { v as int }
}

/// A run of `n` zero bytes.
pub open spec fn zeros(n: nat) -> Seq<u8> {
    Seq::new(n, |i: int| 0u8)
}

/// A slice of `pre + blk + post` that lies inside `blk` is that slice of
/// `blk`.
pub proof fn lemma_within(pre: Seq<u8>, blk: Seq<u8>, post: Seq<u8>, k: int, w: int)
    requires
        0 <= k,
        0 <= w,
        k + w <= blk.len(),
    ensures
        (pre + blk + post).subrange(pre.len() + k, pre.len() + k + w) == blk.subrange(k, k + w),
{
    assert((pre + blk + post).subrange(pre.len() + k, pre.len() + k + w) =~= blk.subrange(k, k + w));
}


/// Concatenation of sequences is associative.
pub proof fn lemma_add_assoc(a: Seq<u8>, b: Seq<u8>, c: Seq<u8>)
    ensures
        (a + b) + c == a + (b + c),
{
    assert((a + b) + c =~= a + (b + c));
}

/// `byteorder::BigEndian::write_u16` on a two-byte buffer: the buffer then
/// holds the most significant byte of `n` first.
#[verifier::external_body]
fn be_bytes_u16(n: u16) -> (b: [u8; 2])
    ensures
        b@ == be16(n as int),
{
    let mut buf = [0u8; 2];
    BigEndian::write_u16(&mut buf, n);
    buf
}

/// `byteorder::BigEndian::write_u32` on a four-byte buffer: the buffer then
/// holds the bytes of `n` from the most significant to the least.
#[verifier::external_body]
fn be_bytes_u32(n: u32) -> (b: [u8; 4])
    ensures
        b@ == be32(n as int),
{
    let mut buf = [0u8; 4];
    BigEndian::write_u32(&mut buf, n);
    buf
}

/// Appends `n` in big-endian order.
pub fn push_u16(out: &mut Vec<u8>, n: u16)
    ensures
        final(out)@ == old(out)@ + be16(n as int),
{
    let b = be_bytes_u16(n);
    out.push(b[0]);
    out.push(b[1]);
    assert(final(out)@ =~= old(out)@ + be16(n as int));
}

/// Appends `n` in big-endian order.
pub fn push_u32(out: &mut Vec<u8>, n: u32)
    ensures
        final(out)@ == old(out)@ + be32(n as int),
{
    let b = be_bytes_u32(n);
    out.push(b[0]);
    out.push(b[1]);
    out.push(b[2]);
    out.push(b[3]);
    assert(final(out)@ =~= old(out)@ + be32(n as int));
}

/// Appends the 16-bit two's complement pattern of `n` in big-endian order.
pub fn push_i16(out: &mut Vec<u8>, n: i16)
    ensures
        final(out)@ == old(out)@ + be16(twos16(n)),
{
    let u: u16 = if n < 0 { (n as i32 + 65536) as u16 } else { n as u16 };
    push_u16(out, u);
}

/// Appends the 32-bit two's complement pattern of `n` in big-endian order.
pub fn push_i32(out: &mut Vec<u8>, n: i32)
    ensures
        final(out)@ == old(out)@ + be32(twos32(n)),
{
    let u: u32 = if n < 0 { (n as i64 + 4294967296) as u32 } else { n as u32 };
    push_u32(out, u);
}

/// Appends `n` zero bytes.
pub fn push_zeros(out: &mut Vec<u8>, n: usize)
    ensures
        final(out)@ == old(out)@ + zeros(n as nat),
{
    let mut i: usize = 0;
    while i < n
        invariant
            i <= n,
            out@ == old(out)@ + zeros(i as nat),
        decreases n - i,
    {
        out.push(0u8);
        i = i + 1;
        assert(out@ =~= old(out)@ + zeros(i as nat));
    }
}

} // verus!
