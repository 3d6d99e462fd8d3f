//! The calls into the `bytes` crate that read a record's fields from a byte
//! cursor and write them to a growing buffer. Each function here is believed,
//! not proved: its body is the outside call, and its contract restates what
//! the crate documents for that call.

use crate::endian::{le_bytes, le_value};
use bytes::{Buf, BufMut};
use vstd::prelude::*;

verus! {

/// `Buf::get_u8` on a byte slice: returns the first byte and moves the cursor
/// past it. The outside function panics on an empty cursor, which `requires`
/// rules out.
#[verifier::external_body]
pub(crate) fn get_u8(cursor: &mut &[u8]) -> (value: u8)
    requires
        old(cursor)@.len() >= 1,
    ensures
        value == old(cursor)@[0],
        final(cursor)@ == old(cursor)@.skip(1),
{
    cursor.get_u8()
}

/// `Buf::get_u16_le` on a byte slice: returns the number spelled by the first
/// two bytes, least significant first, and moves the cursor past them. The
/// outside function panics when fewer than two bytes remain.
#[verifier::external_body]
pub(crate) fn get_u16_le(cursor: &mut &[u8]) -> (value: u16)
    requires
        old(cursor)@.len() >= 2,
    ensures
        value as nat == le_value(old(cursor)@.take(2)),
        final(cursor)@ == old(cursor)@.skip(2),
{
    cursor.get_u16_le()
}

/// `Buf::get_u32_le` on a byte slice: returns the number spelled by the first
/// four bytes, least significant first, and moves the cursor past them. The
/// outside function panics when fewer than four bytes remain.
#[verifier::external_body]
pub(crate) fn get_u32_le(cursor: &mut &[u8]) -> (value: u32)
    requires
        old(cursor)@.len() >= 4,
    ensures
        value as nat == le_value(old(cursor)@.take(4)),
        final(cursor)@ == old(cursor)@.skip(4),
{
    cursor.get_u32_le()
}

/// `Buf::get_u64_le` on a byte slice: returns the number spelled by the first
/// eight bytes, least significant first, and moves the cursor past them. The
/// outside function panics when fewer than eight bytes remain.
#[verifier::external_body]
pub(crate) fn get_u64_le(cursor: &mut &[u8]) -> (value: u64)
    requires
        old(cursor)@.len() >= 8,
    ensures
        value as nat == le_value(old(cursor)@.take(8)),
        final(cursor)@ == old(cursor)@.skip(8),
{
    cursor.get_u64_le()
}

/// `Buf::copy_to_slice` on a byte slice, filling a fresh array: returns the
/// first `N` bytes and moves the cursor past them. The outside function
/// panics when fewer than `N` bytes remain.
#[verifier::external_body]
pub(crate) fn copy_to_array<const N: usize>(cursor: &mut &[u8]) -> (block: [u8; N])
    requires
        old(cursor)@.len() >= N,
    ensures
        block@ == old(cursor)@.take(N as int),
        final(cursor)@ == old(cursor)@.skip(N as int),
{
    let mut block = [0u8; N];
    cursor.copy_to_slice(&mut block);
    block
}

/// `BufMut::put_u8` on a vector: appends the byte.
#[verifier::external_body]
pub(crate) fn put_u8(buffer: &mut Vec<u8>, value: u8)
    ensures
        final(buffer)@ == old(buffer)@.push(value),
{
    buffer.put_u8(value)
}

/// `BufMut::put_slice` on a vector: appends the bytes of `block` in order.
#[verifier::external_body]
pub(crate) fn put_slice(buffer: &mut Vec<u8>, block: &[u8])
    ensures
        final(buffer)@ == old(buffer)@ + block@,
{
    buffer.put_slice(block)
}

/// `BufMut::put_u16_le` on a vector: appends the two bytes of `value`, least
/// significant first.
#[verifier::external_body]
pub(crate) fn put_u16_le(buffer: &mut Vec<u8>, value: u16)
    ensures
        final(buffer)@ == old(buffer)@ + le_bytes(value as nat, 2),
{
    buffer.put_u16_le(value)
}

/// `BufMut::put_u32_le` on a vector: appends the four bytes of `value`, least
/// significant first.
#[verifier::external_body]
pub(crate) fn put_u32_le(buffer: &mut Vec<u8>, value: u32)
    ensures
        final(buffer)@ == old(buffer)@ + le_bytes(value as nat, 4),
{
    buffer.put_u32_le(value)
}

/// `BufMut::put_u64_le` on a vector: appends the eight bytes of `value`, least
/// significant first.
#[verifier::external_body]
pub(crate) fn put_u64_le(buffer: &mut Vec<u8>, value: u64)
    ensures
        final(buffer)@ == old(buffer)@ + le_bytes(value as nat, 8),
{
    buffer.put_u64_le(value)
}

} // verus!
