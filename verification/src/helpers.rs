//! Constants of the container format, and the conversion between a 32-bit
//! number and its four little-endian bytes.

use crate::endian::{
    le_bytes, le_value, lemma_le_bytes_of_value, lemma_le_value_bound, lemma_le_value_of_bytes,
    lemma_radix_values,
};
use vstd::prelude::*;

verus! {

/// The size of one record in bytes.
pub const ENTRY_SIZE: u64 = 128;

/// The size of the header at the start of the container; the root directory's
/// record follows it directly.
pub const SKIP_HEADER_SIZE: u64 = 256;

/// The `kind` byte of a directory record.
pub const DIRECTORY: u8 = 1;

/// The `kind` byte of a file record.
pub const FILE: u8 = 2;

/// The number spelled by the first four bytes of `buffer`, least significant
/// byte first.
pub fn four_byte_to_u32(buffer: &[u8]) -> (number: u32)
    requires
        buffer@.len() >= 4,
    ensures
        number as nat == le_value(buffer@.subrange(0, 4)),
{
    let b0: u8 = buffer[0];
    let b1: u8 = buffer[1];
    let b2: u8 = buffer[2];
    let b3: u8 = buffer[3];
    let number: u32 = ((((b3 as u32) << 24) | ((b2 as u32) << 16)) | ((b1 as u32) << 8)) | (b0 as u32);
    proof {
        assert(number % 256 == b0 && (number / 256) % 256 == b1 && (number / 65536) % 256 == b2
            && number / 16777216 == b3) by (bit_vector)
            requires
                number == ((((b3 as u32) << 24) | ((b2 as u32) << 16)) | ((b1 as u32) << 8)) | (
                b0 as u32),
        ;
        let four = buffer@.subrange(0, 4);
        assert(four =~= seq![b0, b1, b2, b3]);
        lemma_le_value_of_four(b0, b1, b2, b3);
    }
    number
}

/// The four bytes of `number`, least significant byte first.
pub fn u32_to_slice(number: u32) -> (bytes: [u8; 4])
    ensures
        bytes@ == le_bytes(number as nat, 4),
{
    let b0: u8 = #[verifier::truncate] ((number >> 0x00) as u8);
    let b1: u8 = #[verifier::truncate] ((number >> 0x08) as u8);
    let b2: u8 = #[verifier::truncate] ((number >> 0x10) as u8);
    let b3: u8 = #[verifier::truncate] ((number >> 0x18) as u8);
    let bytes: [u8; 4] = [b0, b1, b2, b3];
    proof {
        assert(b0 == number % 256 && b1 == (number / 256) % 256 && b2 == (number / 65536) % 256
            && b3 == number / 16777216) by (bit_vector)
            requires
                b0 == (number >> 0x00) as u8,
                b1 == (number >> 0x08) as u8,
                b2 == (number >> 0x10) as u8,
                b3 == (number >> 0x18) as u8,
        ;
        lemma_le_value_of_four(b0, b1, b2, b3);
        lemma_radix_values();
        lemma_le_value_of_bytes(number as nat, 4);
        lemma_le_bytes_of_value(seq![b0, b1, b2, b3]);
        assert(bytes@ =~= seq![b0, b1, b2, b3]);
    }
    bytes
}

/// The value of four bytes, written out.
pub proof fn lemma_le_value_of_four(b0: u8, b1: u8, b2: u8, b3: u8)
    ensures
        le_value(seq![b0, b1, b2, b3]) == b0 + 256 * b1 + 65536 * b2 + 16777216 * b3,
{
    let s4 = seq![b0, b1, b2, b3];
    let s3 = seq![b1, b2, b3];
    let s2 = seq![b2, b3];
    let s1 = seq![b3];
    assert(s4.drop_first() =~= s3);
    assert(s3.drop_first() =~= s2);
    assert(s2.drop_first() =~= s1);
    assert(s1.drop_first() =~= Seq::<u8>::empty());
    reveal_with_fuel(le_value, 5);
}

/// Splitting a number into four bytes and joining them again gives the number
/// back, and joining four bytes and splitting the number gives the bytes back.
pub proof fn lemma_four_bytes_round_trip(number: u32, bytes: Seq<u8>)
    requires
        bytes.len() == 4,
    ensures
        le_value(le_bytes(number as nat, 4)) == number,
        le_value(bytes) <= u32::MAX,
        le_bytes(le_value(bytes), 4) == bytes,
{
    lemma_radix_values();
    lemma_le_value_of_bytes(number as nat, 4);
    lemma_le_bytes_of_value(bytes);
    lemma_le_value_bound(bytes);
}

} // verus!
