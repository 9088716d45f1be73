//! Big-endian encodings of unsigned integers, and the calls into `byteorder`
//! that produce and decode them.
use byteorder::{BigEndian, ByteOrder};
use vstd::prelude::*;

verus! {

/// The number that `bytes` encodes, most significant byte first.
pub open spec fn be_value(bytes: Seq<u8>) -> nat
    decreases bytes.len(),
{
    if bytes.len() == 0 {
        0
    } else {
        be_value(bytes.drop_last()) * 256 + bytes.last() as nat
    }
}

/// The `width` low-order bytes of `value`, most significant byte first.
pub open spec fn be_bytes(value: nat, width: nat) -> Seq<u8>
    decreases width,
{
    if width == 0 {
        Seq::empty()
    } else {
        be_bytes(value / 256, (width - 1) as nat).push((value % 256) as u8)
    }
}

/// `256` raised to `width`: one more than the largest value that `width` bytes hold.
pub open spec fn byte_range(width: nat) -> nat
    decreases width,
{
    if width == 0 {
        1
    } else {
        256 * byte_range((width - 1) as nat)
    }
}

/// Encoding `width` bytes of a value that fits in them and decoding them again
/// gives the value back.
pub proof fn lemma_be_round_trip(value: nat, width: nat)
    requires
        value < byte_range(width),
    ensures
        be_bytes(value, width).len() == width,
        be_value(be_bytes(value, width)) == value,
    decreases width,
{
    if width > 0 {
        let w1 = (width - 1) as nat;
        assert(value / 256 < byte_range(w1)) by (nonlinear_arith)
            requires value < byte_range(width), byte_range(width) == 256 * byte_range(w1);
        lemma_be_round_trip(value / 256, w1);
        let s = be_bytes(value, width);
        assert(s.drop_last() =~= be_bytes(value / 256, w1));
        assert(value == (value / 256) * 256 + value % 256) by (nonlinear_arith);
    }
}

/// Calls `BigEndian::write_u16` of `byteorder`, which stores `n` in the first 2
/// bytes of `buf`, most significant byte first, and leaves the rest of `buf` as it was.
#[verifier::external_body]
pub(crate) fn be_write_u16(buf: &mut [u8], n: u16)
    requires
        old(buf)@.len() >= 2,
    ensures
        final(buf)@ == be_bytes(n as nat, 2) + old(buf)@.skip(2),
{
    BigEndian::write_u16(buf, n)
}

/// Calls `BigEndian::read_u16` of `byteorder`, which decodes the first 2 bytes
/// of `buf`, most significant byte first.
#[verifier::external_body]
pub(crate) fn be_read_u16(buf: &[u8]) -> (n: u16)
    requires
        buf@.len() >= 2,
    ensures
        n == be_value(buf@.take(2)),
{
    BigEndian::read_u16(buf)
}

/// Calls `BigEndian::write_u32` of `byteorder`, which stores `n` in the first 4
/// bytes of `buf`, most significant byte first, and leaves the rest of `buf` as it was.
#[verifier::external_body]
pub(crate) fn be_write_u32(buf: &mut [u8], n: u32)
    requires
        old(buf)@.len() >= 4,
    ensures
        final(buf)@ == be_bytes(n as nat, 4) + old(buf)@.skip(4),
{
    BigEndian::write_u32(buf, n)
}

/// Calls `BigEndian::read_u32` of `byteorder`, which decodes the first 4 bytes
/// of `buf`, most significant byte first.
#[verifier::external_body]
pub(crate) fn be_read_u32(buf: &[u8]) -> (n: u32)
    requires
        buf@.len() >= 4,
    ensures
        n == be_value(buf@.take(4)),
{
    BigEndian::read_u32(buf)
}

/// Calls `BigEndian::write_u64` of `byteorder`, which stores `n` in the first 8
/// bytes of `buf`, most significant byte first, and leaves the rest of `buf` as it was.
#[verifier::external_body]
pub(crate) fn be_write_u64(buf: &mut [u8], n: u64)
    requires
        old(buf)@.len() >= 8,
    ensures
        final(buf)@ == be_bytes(n as nat, 8) + old(buf)@.skip(8),
{
    BigEndian::write_u64(buf, n)
}

/// Calls `BigEndian::read_u64` of `byteorder`, which decodes the first 8 bytes
/// of `buf`, most significant byte first.
#[verifier::external_body]
pub(crate) fn be_read_u64(buf: &[u8]) -> (n: u64)
    requires
        buf@.len() >= 8,
    ensures
        n == be_value(buf@.take(8)),
{
    BigEndian::read_u64(buf)
}

} // verus!
