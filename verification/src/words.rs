//! Byte buffers regrouped into words, in the byte order of the machine, the way a
//! typed view of a buffer shows them.

use vstd::prelude::*;

verus! {

/// The value of a 32-bit pattern read as a signed number.
pub open spec fn signed(pattern: int) -> int {
    if pattern >= 0x8000_0000 {
        pattern - 0x1_0000_0000
    } else {
        pattern
    }
}

/// `word` is what the two bytes spell in one of the two byte orders.
pub open spec fn spells_u16(word: u16, b0: u8, b1: u8) -> bool {
    word == b0 + 256 * b1 || word == b1 + 256 * b0
}

/// `word` is what the four bytes spell in one of the two byte orders.
pub open spec fn spells_i32(word: i32, b0: u8, b1: u8, b2: u8, b3: u8) -> bool {
    ||| word == signed(b0 + 256 * b1 + 65536 * b2 + 16777216 * b3)
    ||| word == signed(b3 + 256 * b2 + 65536 * b1 + 16777216 * b0)
}

/// Reads two bytes as a word with `u16::from_ne_bytes`. The byte order is the machine's,
/// so the contract only says that the word is spelled in one of the two orders.
#[verifier::external_body]
fn native_u16(b0: u8, b1: u8) -> (word: u16)
    ensures
        spells_u16(word, b0, b1),
{
    u16::from_ne_bytes([b0, b1])
}

/// Reads four bytes as a signed word with `i32::from_ne_bytes`. The byte order is the
/// machine's, so the contract only says that the word is spelled in one of the two
/// orders.
#[verifier::external_body]
fn native_i32(b0: u8, b1: u8, b2: u8, b3: u8) -> (word: i32)
    ensures
        spells_i32(word, b0, b1, b2, b3),
{
    i32::from_ne_bytes([b0, b1, b2, b3])
}

/// The 16-bit words of a buffer. A byte left over at the end is dropped.
pub fn vu8_to_vu16(vu8: &[u8]) -> (words: Vec<u16>)
    ensures
        words@.len() == vu8@.len() / 2,
        forall|i: int|
            0 <= i < words@.len() ==> spells_u16(
                #[trigger] words@[i],
                vu8@[2 * i],
                vu8@[2 * i + 1],
            ),
{
    let len: usize = vu8.len();
    let count: usize = len / 2;
    let mut words: Vec<u16> = Vec::new();
    let mut i: usize = 0;
    while i < count
        invariant
            i <= count,
            count == len / 2,
            len == vu8@.len(),
            words@.len() == i,
            forall|j: int|
                0 <= j < i ==> spells_u16(#[trigger] words@[j], vu8@[2 * j], vu8@[2 * j + 1]),
        decreases count - i,
    {
        words.push(native_u16(vu8[2 * i], vu8[2 * i + 1]));
        i += 1;
    }
    words
}

/// The signed 32-bit words of a buffer. Bytes left over at the end are dropped.
pub fn vu8_to_vi32(vu8: &[u8]) -> (words: Vec<i32>)
    ensures
        words@.len() == vu8@.len() / 4,
        forall|i: int|
            0 <= i < words@.len() ==> spells_i32(
                #[trigger] words@[i],
                vu8@[4 * i],
                vu8@[4 * i + 1],
                vu8@[4 * i + 2],
                vu8@[4 * i + 3],
            ),
{
    let len: usize = vu8.len();
    let count: usize = len / 4;
    let mut words: Vec<i32> = Vec::new();
    let mut i: usize = 0;
    while i < count
        invariant
            i <= count,
            count == len / 4,
            len == vu8@.len(),
            words@.len() == i,
            forall|j: int|
                0 <= j < i ==> spells_i32(
                    #[trigger] words@[j],
                    vu8@[4 * j],
                    vu8@[4 * j + 1],
                    vu8@[4 * j + 2],
                    vu8@[4 * j + 3],
                ),
        decreases count - i,
    {
        words.push(
            native_i32(vu8[4 * i], vu8[4 * i + 1], vu8[4 * i + 2], vu8[4 * i + 3]),
        );
        i += 1;
    }
    words
}

} // verus!
