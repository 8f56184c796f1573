//! Big-endian integer access into the raw byte buffer.
//!
//! The format stores every multi-byte integer big-endian.  The spec
//! functions here say, byte by byte, what integer a buffer position holds;
//! the executable reads go through `byteorder` and are trusted to match.

use byteorder::ByteOrder;
use vstd::prelude::*;

verus! {

/// The big-endian 16-bit value stored at `pos`.
pub open spec fn be_u16_at(d: Seq<u8>, pos: int) -> u16
    recommends
        0 <= pos,
        pos + 2 <= d.len(),
{
    (d[pos] as int * 0x100 + d[pos + 1] as int) as u16
}

/// The big-endian 32-bit value stored at `pos`.
pub open spec fn be_u32_at(d: Seq<u8>, pos: int) -> u32
    recommends
        0 <= pos,
        pos + 4 <= d.len(),
{
    (d[pos] as int * 0x1000000 + d[pos + 1] as int * 0x10000 + d[pos + 2] as int * 0x100 + d[pos
        + 3] as int) as u32
}

/// The big-endian 64-bit value stored at `pos`.
pub open spec fn be_u64_at(d: Seq<u8>, pos: int) -> u64
    recommends
        0 <= pos,
        pos + 8 <= d.len(),
{
    (be_u32_at(d, pos) as int * 0x100000000 + be_u32_at(d, pos + 4) as int) as u64
}

/// `v` reinterpreted as a two's-complement 16-bit signed integer.
pub open spec fn signed16(v: u16) -> int {
    if v < 0x8000 {
        v as int
    } else {
        v as int - 0x10000
    }
}

/// `v` reinterpreted as a two's-complement 32-bit signed integer.
pub open spec fn signed32(v: u32) -> int {
    if v < 0x80000000 {
        v as int
    } else {
        v as int - 0x100000000
    }
}

/// `v` reinterpreted as a two's-complement 64-bit signed integer.
pub open spec fn signed64(v: u64) -> int {
    if v < 0x8000000000000000 {
        v as int
    } else {
        v as int - 0x10000000000000000
    }
}

/// Relies on byteorder's `BigEndian::read_u16`: the first two bytes of the
/// slice, interpreted big-endian.
#[verifier::external_body]
pub(crate) fn read_be_u16(data: &Vec<u8>, pos: usize) -> (r: u16)
    requires
        pos + 2 <= data@.len(),
    ensures
        r == be_u16_at(data@, pos as int),
{
    byteorder::BigEndian::read_u16(&data[pos..pos + 2])
}

/// Relies on byteorder's `BigEndian::read_u32`: the first four bytes of the
/// slice, interpreted big-endian.
#[verifier::external_body]
pub(crate) fn read_be_u32(data: &Vec<u8>, pos: usize) -> (r: u32)
    requires
        pos + 4 <= data@.len(),
    ensures
        r == be_u32_at(data@, pos as int),
{
    byteorder::BigEndian::read_u32(&data[pos..pos + 4])
}

/// Relies on byteorder's `BigEndian::read_u64`: the first eight bytes of
/// the slice, interpreted big-endian.
#[verifier::external_body]
pub(crate) fn read_be_u64(data: &Vec<u8>, pos: usize) -> (r: u64)
    requires
        pos + 8 <= data@.len(),
    ensures
        r == be_u64_at(data@, pos as int),
{
    byteorder::BigEndian::read_u64(&data[pos..pos + 8])
}

/// Reinterpret an unsigned 16-bit value as signed, two's complement.
pub(crate) fn to_i16(v: u16) -> (r: i16)
    ensures
        r as int == signed16(v),
{
    if v < 0x8000 {
        v as i16
    } else {
        ((v as i32) - 0x10000) as i16
    }
}

/// Reinterpret an unsigned 32-bit value as signed, two's complement.
pub(crate) fn to_i32(v: u32) -> (r: i32)
    ensures
        r as int == signed32(v),
{
    if v < 0x80000000 {
        v as i32
    } else {
        ((v as i64) - 0x100000000) as i32
    }
}

/// Reinterpret an unsigned 64-bit value as signed, two's complement.
pub(crate) fn to_i64(v: u64) -> (r: i64)
    ensures
        r as int == signed64(v),
{
    if v < 0x8000000000000000 {
        v as i64
    } else {
        ((v as i128) - 0x10000000000000000) as i64
    }
}

} // verus!
