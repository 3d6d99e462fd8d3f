//! Little-endian numbers as mathematics: the value of a byte sequence and the
//! bytes of a value, with the facts that make them inverse to each other.

use vstd::prelude::*;

verus! {

/// The number of values that `width` bytes can tell apart: 256 to the power `width`.
pub open spec fn radix(width: nat) -> nat
    decreases width,
{
    if width == 0 {
        1
    } else {
        256 * radix((width - 1) as nat)
    }
}

/// The number that `bytes` spell when the first byte is the least significant.
pub open spec fn le_value(bytes: Seq<u8>) -> nat
    decreases bytes.len(),
{
    if bytes.len() == 0 {
        0
    } else {
        bytes[0] as nat + 256 * le_value(bytes.drop_first())
    }
}

/// The `width` low bytes of `value`, least significant first.
pub open spec fn le_bytes(value: nat, width: nat) -> Seq<u8>
    decreases width,
{
    if width == 0 {
        Seq::empty()
    } else {
        seq![(value % 256) as u8] + le_bytes(value / 256, (width - 1) as nat)
    }
}

/// The radix of the widths that the record format uses.
pub proof fn lemma_radix_values()
    ensures
        radix(0) == 1,
        radix(1) == 0x100,
        radix(2) == 0x1_0000,
        radix(4) == 0x1_0000_0000,
        radix(8) == 0x1_0000_0000_0000_0000,
{
    reveal_with_fuel(radix, 9);
}

/// `le_bytes` yields exactly `width` bytes.
pub proof fn lemma_le_bytes_len(value: nat, width: nat)
    ensures
        le_bytes(value, width).len() == width,
    decreases width,
{
    if width > 0 {
        lemma_le_bytes_len(value / 256, (width - 1) as nat);
    }
}

/// A sequence of bytes spells a number below the radix of its length.
pub proof fn lemma_le_value_bound(bytes: Seq<u8>)
    ensures
        le_value(bytes) < radix(bytes.len()),
    decreases bytes.len(),
{
    if bytes.len() > 0 {
        lemma_le_value_bound(bytes.drop_first());
        let rest = le_value(bytes.drop_first());
        let r = radix((bytes.len() - 1) as nat);
        assert(bytes[0] as nat + 256 * rest < 256 * r) by (nonlinear_arith)
            requires
                rest < r,
                (bytes[0] as nat) < 256,
        ;
    }
}

/// Writing out the value of a byte sequence, at the sequence's own length,
/// gives the sequence back.
pub proof fn lemma_le_bytes_of_value(bytes: Seq<u8>)
    ensures
        le_bytes(le_value(bytes), bytes.len()) == bytes,
    decreases bytes.len(),
{
    if bytes.len() == 0 {
        assert(le_bytes(le_value(bytes), bytes.len()) =~= bytes);
    } else {
        let rest = bytes.drop_first();
        lemma_le_bytes_of_value(rest);
        let v = le_value(bytes);
        assert(v % 256 == bytes[0] as nat && v / 256 == le_value(rest)) by (nonlinear_arith)
            requires
                v == bytes[0] as nat + 256 * le_value(rest),
                (bytes[0] as nat) < 256,
        ;
        assert(le_bytes(v, bytes.len()) =~= bytes);
    }
}

/// Reading back the bytes of a value that fits in `width` bytes gives the value.
pub proof fn lemma_le_value_of_bytes(value: nat, width: nat)
    requires
        value < radix(width),
    ensures
        le_value(le_bytes(value, width)) == value,
    decreases width,
{
    if width > 0 {
        let low = (value % 256) as u8;
        let high = value / 256;
        let r = radix((width - 1) as nat);
        assert(high < r && value == low as nat + 256 * high) by (nonlinear_arith)
            requires
                value < 256 * r,
                high == value / 256,
                low as nat == value % 256,
        ;
        lemma_le_value_of_bytes(high, (width - 1) as nat);
        lemma_le_bytes_len(high, (width - 1) as nat);
        let out = le_bytes(value, width);
        assert(out.drop_first() =~= le_bytes(high, (width - 1) as nat));
        assert(out[0] == low);
    }
}

} // verus!
