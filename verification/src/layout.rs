//! Fixed-width little-endian integers, the building block of the binary message layout.

use vstd::prelude::*;

verus! {

/// Number of values that `width` bytes can tell apart: 256 to the power of `width`.
pub open spec fn limit(width: nat) -> nat
    decreases width,
{
    if width == 0 {
        1
    } else {
        256 * limit((width - 1) as nat)
    }
}

/// The `width` least significant bytes of `value`, least significant first.
pub open spec fn le_bytes(value: nat, width: nat) -> Seq<u8>
    decreases width,
{
    if width == 0 {
        Seq::empty()
    } else {
        seq![(value % 256) as u8] + le_bytes(value / 256, (width - 1) as nat)
    }
}

/// The number that `bytes` spell, least significant byte first.
pub open spec fn le_value(bytes: Seq<u8>) -> nat
    decreases bytes.len(),
{
    if bytes.len() == 0 {
        0
    } else {
        bytes[0] as nat + 256 * le_value(bytes.skip(1))
    }
}

/// A number is written with as many bytes as were asked for.
pub proof fn lemma_le_bytes_len(value: nat, width: nat)
    ensures
        le_bytes(value, width).len() == width,
    decreases width,
{
    if width > 0 {
        lemma_le_bytes_len(value / 256, (width - 1) as nat);
    }
}

/// Reading back what was written gives the number, if the width was enough for it.
pub proof fn lemma_le_round_trip(value: nat, width: nat)
    requires
        value < limit(width),
    ensures
        le_value(le_bytes(value, width)) == value,
    decreases width,
{
    if width > 0 {
        let rest = le_bytes(value / 256, (width - 1) as nat);
        lemma_le_round_trip(value / 256, (width - 1) as nat);
        assert((seq![(value % 256) as u8] + rest).skip(1) =~= rest);
    }
}

/// Four bytes hold a `u32`, eight a `u64`.
pub proof fn lemma_limits()
    ensures
        limit(4) == 0x1_0000_0000,
        limit(8) == 0x1_0000_0000_0000_0000,
{
    reveal_with_fuel(limit, 9);
}

/// Appends `value` to `out` as four bytes.
pub fn put_u32(out: &mut Vec<u8>, value: u32)
    ensures
        final(out)@ == old(out)@ + le_bytes(value as nat, 4),
{
    let ghost start = out@;
    let mut rest: u32 = value;
    let mut i: usize = 0;
    while i < 4
        invariant
            i <= 4,
            out@ + le_bytes(rest as nat, (4 - i) as nat) == start + le_bytes(value as nat, 4),
        decreases 4 - i,
    {
        let ghost before = out@;
        out.push((rest % 256) as u8);
        proof {
            let tail = le_bytes((rest / 256) as nat, (4 - i - 1) as nat);
            assert(before + (seq![(rest % 256) as u8] + tail) =~= before.push((rest % 256) as u8)
                + tail);
        }
        rest = rest / 256;
        i += 1;
    }
    assert(out@ + Seq::<u8>::empty() =~= out@);
}

/// Appends `value` to `out` as eight bytes.
pub fn put_u64(out: &mut Vec<u8>, value: u64)
    ensures
        final(out)@ == old(out)@ + le_bytes(value as nat, 8),
{
    let ghost start = out@;
    let mut rest: u64 = value;
    let mut i: usize = 0;
    while i < 8
        invariant
            i <= 8,
            out@ + le_bytes(rest as nat, (8 - i) as nat) == start + le_bytes(value as nat, 8),
        decreases 8 - i,
    {
        let ghost before = out@;
        out.push((rest % 256) as u8);
        proof {
            let tail = le_bytes((rest / 256) as nat, (8 - i - 1) as nat);
            assert(before + (seq![(rest % 256) as u8] + tail) =~= before.push((rest % 256) as u8)
                + tail);
        }
        rest = rest / 256;
        i += 1;
    }
    assert(out@ + Seq::<u8>::empty() =~= out@);
}

/// Reads the four bytes that start at `at`.
pub fn take_u32(bytes: &[u8], at: usize) -> (value: u32)
    requires
        at + 4 <= bytes@.len(),
    ensures
        value == le_value(bytes@.subrange(at as int, at + 4)),
{
    let n: usize = bytes.len();
    let ghost word = bytes@.subrange(at as int, at + 4);
    let mut value: u32 = 0;
    let mut i: usize = 4;
    while i > 0
        invariant
            i <= 4,
            at + 4 <= n,
            n == bytes@.len(),
            word == bytes@.subrange(at as int, at + 4),
            value == le_value(word.skip(i as int)),
            value < limit((4 - i) as nat),
        decreases i,
    {
        i -= 1;
        proof {
            reveal_with_fuel(limit, 5);
            assert(word.skip(i as int).skip(1) =~= word.skip(i + 1));
        }
        value = value * 256 + bytes[at + i] as u32;
    }
    assert(word.skip(0) =~= word);
    value
}

/// Reads the eight bytes that start at `at`.
pub fn take_u64(bytes: &[u8], at: usize) -> (value: u64)
    requires
        at + 8 <= bytes@.len(),
    ensures
        value == le_value(bytes@.subrange(at as int, at + 8)),
{
    let n: usize = bytes.len();
    let ghost word = bytes@.subrange(at as int, at + 8);
    let mut value: u64 = 0;
    let mut i: usize = 8;
    while i > 0
        invariant
            i <= 8,
            at + 8 <= n,
            n == bytes@.len(),
            word == bytes@.subrange(at as int, at + 8),
            value == le_value(word.skip(i as int)),
            value < limit((8 - i) as nat),
        decreases i,
    {
        i -= 1;
        proof {
            reveal_with_fuel(limit, 9);
            assert(word.skip(i as int).skip(1) =~= word.skip(i + 1));
        }
        value = value * 256 + bytes[at + i] as u64;
    }
    assert(word.skip(0) =~= word);
    value
}

} // verus!
