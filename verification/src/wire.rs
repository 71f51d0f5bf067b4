//! The byte-level vocabulary of the archive format: little-endian integers
//! and UTF-16 text, as mathematical functions and as executable conversions.

use byteorder::ByteOrder;
use vstd::prelude::*;

verus! {

/// The largest value that a length field of the format can hold.
pub const FIELD_MAX: usize = 0xFFFF_FFFF;

/// The number that four bytes spell in little-endian order.
pub open spec fn u32_from_le(b: Seq<u8>) -> int
    recommends
        b.len() == 4,
{
    b[0] as int + 0x100 * (b[1] as int) + 0x1_0000 * (b[2] as int) + 0x100_0000 * (b[3] as int)
}

/// The four bytes that spell `n` in little-endian order.
pub open spec fn u32_to_le(n: int) -> Seq<u8>
    recommends
        0 <= n <= 0xFFFF_FFFF,
{
    seq![
        (n % 0x100) as u8,
        (n / 0x100 % 0x100) as u8,
        (n / 0x1_0000 % 0x100) as u8,
        (n / 0x100_0000 % 0x100) as u8,
    ]
}

/// The 16-bit unit that two bytes spell in little-endian order.
pub open spec fn u16_from_le(b: Seq<u8>) -> u16
    recommends
        b.len() == 2,
{
    (b[0] as int + 0x100 * (b[1] as int)) as u16
}

/// The two bytes that spell `n` in little-endian order.
pub open spec fn u16_to_le(n: u16) -> Seq<u8> {
    seq![(n % 0x100) as u8, (n / 0x100) as u8]
}

/// The 16-bit units that a byte sequence of even length spells, two bytes each.
pub open spec fn units_from_le(b: Seq<u8>) -> Seq<u16> {
    Seq::new(b.len() / 2, |i: int| u16_from_le(b.subrange(2 * i, 2 * i + 2)))
}

/// The bytes that spell a sequence of 16-bit units, two bytes each.
pub open spec fn units_to_le(u: Seq<u16>) -> Seq<u8> {
    Seq::new(2 * u.len(), |i: int| u16_to_le(u[i / 2])[i % 2])
}

/// Reading back what `u32_to_le` spelled gives the number again.
pub proof fn lemma_u32_le_round_trip(n: int)
    requires
        0 <= n <= 0xFFFF_FFFF,
    ensures
        u32_to_le(n).len() == 4,
        u32_from_le(u32_to_le(n)) == n,
{
}

/// Reading back what `units_to_le` spelled gives the units again.
pub proof fn lemma_units_le_round_trip(u: Seq<u16>)
    ensures
        units_to_le(u).len() == 2 * u.len(),
        units_from_le(units_to_le(u)) == u,
{
    let b = units_to_le(u);
    assert forall|i: int| 0 <= i < u.len() implies #[trigger] units_from_le(b)[i] == u[i] by {
        let pair = b.subrange(2 * i, 2 * i + 2);
        assert(pair[0] == b[2 * i]);
        assert(pair[1] == b[2 * i + 1]);
        assert((2 * i) / 2 == i && (2 * i) % 2 == 0);
        assert((2 * i + 1) / 2 == i && (2 * i + 1) % 2 == 1);
    }
    assert(units_from_le(b) =~= u);
}

/// The bytes of a sequence of units with one more unit at its end are the
/// bytes of the sequence, then the two bytes of that unit.
pub proof fn lemma_units_to_le_push(u: Seq<u16>, x: u16)
    ensures
        units_to_le(u.push(x)) == units_to_le(u) + u16_to_le(x),
{
    let left = units_to_le(u.push(x));
    let right = units_to_le(u) + u16_to_le(x);
    assert(left.len() == right.len());
    assert forall|i: int| 0 <= i < left.len() implies left[i] == right[i] by {
        if i < 2 * u.len() {
            assert(i / 2 < u.len());
            assert(u.push(x)[i / 2] == u[i / 2]);
        } else {
            assert(i / 2 == u.len());
            assert(i - 2 * u.len() == i % 2);
        }
    }
    assert(left =~= right);
}

/// `byteorder::LittleEndian::read_u32` on a buffer of four bytes: the number
/// that the bytes spell, lowest byte first.
#[verifier::external_body]
pub(crate) fn le_read_u32(buf: &[u8]) -> (n: u32)
    requires
        buf@.len() == 4,
    ensures
        n as int == u32_from_le(buf@),
{
    byteorder::LittleEndian::read_u32(buf)
}

/// `byteorder::LittleEndian::write_u32` on a buffer of four bytes: the buffer
/// then spells `n`, lowest byte first.
#[verifier::external_body]
pub(crate) fn le_write_u32(buf: &mut [u8], n: u32)
    requires
        old(buf)@.len() == 4,
    ensures
        final(buf)@ == u32_to_le(n as int),
{
    byteorder::LittleEndian::write_u32(buf, n)
}

/// `byteorder::LittleEndian::read_u16` on a buffer of two bytes: the unit
/// that the bytes spell, lowest byte first.
#[verifier::external_body]
pub(crate) fn le_read_u16(buf: &[u8]) -> (n: u16)
    requires
        buf@.len() == 2,
    ensures
        n == u16_from_le(buf@),
{
    byteorder::LittleEndian::read_u16(buf)
}

/// `byteorder::LittleEndian::write_u16` on a buffer of two bytes: the buffer
/// then spells `n`, lowest byte first.
#[verifier::external_body]
pub(crate) fn le_write_u16(buf: &mut [u8], n: u16)
    requires
        old(buf)@.len() == 2,
    ensures
        final(buf)@ == u16_to_le(n),
{
    byteorder::LittleEndian::write_u16(buf, n)
}

} // verus!
