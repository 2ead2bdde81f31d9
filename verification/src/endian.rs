//! Fixed-width integers read from byte strings in either byte order.

use byteorder::{BigEndian, ByteOrder, LittleEndian};
use vstd::prelude::*;

verus! {

/// The number that a byte string spells with its least significant byte first.
pub open spec fn le_value(s: Seq<u8>) -> nat
    decreases s.len(),
{
    if s.len() == 0 {
        0
    } else {
        s[0] as nat + 256 * le_value(s.drop_first())
    }
}

/// The number that a byte string spells with its most significant byte first.
pub open spec fn be_value(s: Seq<u8>) -> nat
    decreases s.len(),
{
    if s.len() == 0 {
        0
    } else {
        256 * be_value(s.drop_last()) + s.last() as nat
    }
}

/// The first `n` bytes of `s`.
pub open spec fn head(s: Seq<u8>, n: int) -> Seq<u8> {
    s.subrange(0, n)
}

/// A 32-bit pattern read as a two's complement number.
pub open spec fn signed32(n: nat) -> int {
    if n >= 0x8000_0000 {
        n - 0x1_0000_0000
    } else {
        n as int
    }
}

/// A 64-bit pattern read as a two's complement number.
pub open spec fn signed64(n: nat) -> int {
    if n >= 0x8000_0000_0000_0000 {
        n - 0x1_0000_0000_0000_0000
    } else {
        n as int
    }
}

/// `byteorder::LittleEndian::read_u16`: the first two bytes of `buf`, least
/// significant first. The outside function panics on a shorter buffer.
#[verifier::external_body]
pub(crate) fn le_read_u16(buf: &[u8]) -> (r: u16)
    requires
        buf@.len() >= 2,
    ensures
        r as nat == le_value(head(buf@, 2)),
{
    LittleEndian::read_u16(buf)
}

/// `byteorder::LittleEndian::read_u32`: the first four bytes of `buf`, least
/// significant first. The outside function panics on a shorter buffer.
#[verifier::external_body]
pub(crate) fn le_read_u32(buf: &[u8]) -> (r: u32)
    requires
        buf@.len() >= 4,
    ensures
        r as nat == le_value(head(buf@, 4)),
{
    LittleEndian::read_u32(buf)
}

/// `byteorder::LittleEndian::read_u64`: the first eight bytes of `buf`, least
/// significant first. The outside function panics on a shorter buffer.
#[verifier::external_body]
pub(crate) fn le_read_u64(buf: &[u8]) -> (r: u64)
    requires
        buf@.len() >= 8,
    ensures
        r as nat == le_value(head(buf@, 8)),
{
    LittleEndian::read_u64(buf)
}

/// `byteorder::LittleEndian::read_u128`: the first sixteen bytes of `buf`, least
/// significant first. The outside function panics on a shorter buffer.
#[verifier::external_body]
pub(crate) fn le_read_u128(buf: &[u8]) -> (r: u128)
    requires
        buf@.len() >= 16,
    ensures
        r as nat == le_value(head(buf@, 16)),
{
    LittleEndian::read_u128(buf)
}

/// `byteorder::LittleEndian::read_i32`: what `read_u32` gives, read as a two's
/// complement number. The outside function panics on a shorter buffer.
#[verifier::external_body]
pub(crate) fn le_read_i32(buf: &[u8]) -> (r: i32)
    requires
        buf@.len() >= 4,
    ensures
        r as int == signed32(le_value(head(buf@, 4))),
{
    LittleEndian::read_i32(buf)
}

/// `byteorder::LittleEndian::read_i64`: what `read_u64` gives, read as a two's
/// complement number. The outside function panics on a shorter buffer.
#[verifier::external_body]
pub(crate) fn le_read_i64(buf: &[u8]) -> (r: i64)
    requires
        buf@.len() >= 8,
    ensures
        r as int == signed64(le_value(head(buf@, 8))),
{
    LittleEndian::read_i64(buf)
}

/// `byteorder::BigEndian::read_u16`: the first two bytes of `buf`, most
/// significant first. The outside function panics on a shorter buffer.
#[verifier::external_body]
pub(crate) fn be_read_u16(buf: &[u8]) -> (r: u16)
    requires
        buf@.len() >= 2,
    ensures
        r as nat == be_value(head(buf@, 2)),
{
    BigEndian::read_u16(buf)
}

/// `byteorder::BigEndian::read_u32`: the first four bytes of `buf`, most
/// significant first. The outside function panics on a shorter buffer.
#[verifier::external_body]
pub(crate) fn be_read_u32(buf: &[u8]) -> (r: u32)
    requires
        buf@.len() >= 4,
    ensures
        r as nat == be_value(head(buf@, 4)),
{
    BigEndian::read_u32(buf)
}

/// `byteorder::BigEndian::read_u64`: the first eight bytes of `buf`, most
/// significant first. The outside function panics on a shorter buffer.
#[verifier::external_body]
pub(crate) fn be_read_u64(buf: &[u8]) -> (r: u64)
    requires
        buf@.len() >= 8,
    ensures
        r as nat == be_value(head(buf@, 8)),
{
    BigEndian::read_u64(buf)
}

/// `byteorder::BigEndian::read_u128`: the first sixteen bytes of `buf`, most
/// significant first. The outside function panics on a shorter buffer.
#[verifier::external_body]
pub(crate) fn be_read_u128(buf: &[u8]) -> (r: u128)
    requires
        buf@.len() >= 16,
    ensures
        r as nat == be_value(head(buf@, 16)),
{
    BigEndian::read_u128(buf)
}

/// `byteorder::BigEndian::read_i32`: what `read_u32` gives, read as a two's
/// complement number. The outside function panics on a shorter buffer.
#[verifier::external_body]
pub(crate) fn be_read_i32(buf: &[u8]) -> (r: i32)
    requires
        buf@.len() >= 4,
    ensures
        r as int == signed32(be_value(head(buf@, 4))),
{
    BigEndian::read_i32(buf)
}

/// `byteorder::BigEndian::read_i64`: what `read_u64` gives, read as a two's
/// complement number. The outside function panics on a shorter buffer.
#[verifier::external_body]
pub(crate) fn be_read_i64(buf: &[u8]) -> (r: i64)
    requires
        buf@.len() >= 8,
    ensures
        r as int == signed64(be_value(head(buf@, 8))),
{
    BigEndian::read_i64(buf)
}

} // verus!
