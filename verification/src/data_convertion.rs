//! Codec between characters, bytes and 8-character bit strings: splitting
//! a byte into its two nibbles, mapping text to its byte values, and
//! reading a big-endian binary string as a byte.

use vstd::prelude::*;

use crate::all_binary;
use crate::is_binary_char;
use crate::KeyError;

verus! {

/// The byte value of a character: its code point, truncated to the low
/// 8 bits.  Exact for every character whose code point fits in one byte;
/// wider code points wrap, a documented limitation of the codec.
pub open spec fn byte_of_char(c: char) -> u8 {
    c as u8
}

/// The top 4 bits of a byte, kept in their high positions.
pub open spec fn high_nibble(b: u8) -> u8 {
    b & 0xF0
}

/// The bottom 4 bits of a byte.
pub open spec fn low_nibble(b: u8) -> u8 {
    b & 0x0F
}

/// A character's byte value, split into its two nibbles.  A field left at
/// `None` means that half was never set; reconstructing a character is
/// possible only once both halves are present.
#[derive(Debug, Clone, Copy)]
pub struct SplitedCharacter {
    /// The high nibble, already shifted into the top 4 bit positions.
    pub heavyweight_bits: Option<u8>,
    /// The low nibble.
    pub lightweight_bits: Option<u8>,
}

impl SplitedCharacter {
    /// Each field, when present, carries only the bits of its own nibble.
    pub open spec fn wf(self) -> bool {
        &&& (self.heavyweight_bits matches Some(h) ==> h & 0xF0 == h)
        &&& (self.lightweight_bits matches Some(l) ==> l & 0x0F == l)
    }

    /// The split of a byte: both nibbles present.
    pub open spec fn split_of_byte(b: u8) -> SplitedCharacter {
        SplitedCharacter {
            heavyweight_bits: Some(high_nibble(b)),
            lightweight_bits: Some(low_nibble(b)),
        }
    }

    /// The character a split reconstructs: the arithmetic sum of the two
    /// fields read as a code point, or nothing while either half is missing.
    pub open spec fn value_of(self) -> Option<char> {
        match (self.heavyweight_bits, self.lightweight_bits) {
            (Some(h), Some(l)) => Some(((h + l) as u8) as char),
            _ => None,
        }
    }

    /// An empty split: no half set yet.
    pub fn new() -> (result: Self)
        ensures
            result.heavyweight_bits is None,
            result.lightweight_bits is None,
            result.wf(),
    {
        Self { heavyweight_bits: None, lightweight_bits: None }
    }

    /// Splits a character's byte value into its two nibbles.
    pub fn from_character(character: &char) -> (result: Self)
        ensures
            result == Self::split_of_byte(byte_of_char(*character)),
            result.wf(),
    {
        let byte: u8 = #[verifier::truncate] (*character as u8);
        proof {
            lemma_nibble_masks(byte);
        }
        Self { heavyweight_bits: Some(byte & 0xF0), lightweight_bits: Some(byte & 0x0F) }
    }

    /// Splits a byte into its two nibbles.
    pub fn from_number(character: &u8) -> (result: Self)
        ensures
            result == Self::split_of_byte(*character),
            result.wf(),
    {
        proof {
            lemma_nibble_masks(*character);
        }
        Self {
            heavyweight_bits: Some(*character & 0xF0),
            lightweight_bits: Some(*character & 0x0F),
        }
    }

    /// Reconstructs the character whose code point is the sum of the two
    /// halves; `None` while either half is missing.
    pub fn get_value(self) -> (result: Option<char>)
        requires
            self.wf(),
        ensures
            result == self.value_of(),
            result is Some <==> (self.heavyweight_bits is Some && self.lightweight_bits is Some),
    {
        if self.heavyweight_bits.is_none() || self.lightweight_bits.is_none() {
            return None;
        }
        let h = self.heavyweight_bits.unwrap();
        let l = self.lightweight_bits.unwrap();
        proof {
            lemma_nibble_fields_bounded(h, l);
        }
        Some((h + l) as char)
    }
}

/// Masking a byte keeps each nibble's bits inside its own nibble, and the
/// two masks together cover the byte: the nibbles are disjoint, and both
/// their bitwise or and their arithmetic sum give the byte back.
proof fn lemma_nibble_masks(b: u8)
    ensures
        (b & 0xF0) & 0xF0 == b & 0xF0,
        (b & 0x0F) & 0x0F == b & 0x0F,
        (b & 0xF0) | (b & 0x0F) == b,
        (b & 0xF0) & (b & 0x0F) == 0,
        (b & 0xF0) + (b & 0x0F) == b,
{
    assert((b & 0xF0) & 0xF0 == b & 0xF0) by (bit_vector);
    assert((b & 0x0F) & 0x0F == b & 0x0F) by (bit_vector);
    assert((b & 0xF0) | (b & 0x0F) == b) by (bit_vector);
    assert((b & 0xF0) & (b & 0x0F) == 0) by (bit_vector);
    assert((b & 0xF0) + (b & 0x0F) == b) by (bit_vector);
}

/// Values that carry only their own nibble's bits stay small enough for
/// their sum to fit in a byte.
proof fn lemma_nibble_fields_bounded(h: u8, l: u8)
    requires
        h & 0xF0 == h,
        l & 0x0F == l,
    ensures
        h <= 240,
        l <= 15,
{
    assert(h & 0xF0 == h ==> h <= 240) by (bit_vector);
    assert(l & 0x0F == l ==> l <= 15) by (bit_vector);
}

/// Splitting a character whose code point fits in one byte and summing the
/// two halves back gives the same character.
pub proof fn lemma_character_round_trip(c: char)
    requires
        (c as nat) < 256,
    ensures
        SplitedCharacter::split_of_byte(byte_of_char(c)).value_of() == Some(c),
{
    let b = byte_of_char(c);
    lemma_nibble_masks(b);
    assert(b as nat == c as nat);
}

/// Splitting a byte never loses information: the bitwise or of the two
/// nibble fields gives the byte back, and the fields occupy disjoint bit
/// ranges.
pub proof fn lemma_split_recombines(b: u8)
    ensures
        high_nibble(b) | low_nibble(b) == b,
        high_nibble(b) & low_nibble(b) == 0,
{
    lemma_nibble_masks(b);
}

/// Maps text to the byte values of its characters, in order: the numeric
/// code point of each character, truncated to one byte (exact for
/// characters that fit in one byte).
pub fn string_to_number(string: &str) -> (result: Vec<u8>)
    ensures
        result@ == string@.map_values(|c: char| byte_of_char(c)),
{
    let length = string.unicode_len();
    let mut binary_data: Vec<u8> = Vec::new();
    let mut i: usize = 0;
    while i < length
        invariant
            i <= length,
            length == string@.len(),
            binary_data@.len() == i,
            forall|j: int| 0 <= j < i ==> binary_data@[j] == byte_of_char(#[trigger] string@[j]),
        decreases length - i,
    {
        let character = string.get_char(i);
        binary_data.push(#[verifier::truncate] (character as u8));
        i = i + 1;
    }
    proof {
        assert(binary_data@ =~= string@.map_values(|c: char| byte_of_char(c)));
    }
    binary_data
}

/// The power of two that a bit at position `e` (counted from the
/// least-significant end) contributes to a byte value.
pub open spec fn two_to(e: nat) -> nat
    decreases e,
{
    if e == 0 {
        1
    } else {
        2 * two_to((e - 1) as nat)
    }
}

/// The place values of the 8 bit positions of a byte.
pub proof fn lemma_two_to_values()
    ensures
        two_to(0) == 1,
        two_to(1) == 2,
        two_to(2) == 4,
        two_to(3) == 8,
        two_to(4) == 16,
        two_to(5) == 32,
        two_to(6) == 64,
        two_to(7) == 128,
{
    assert(two_to(0) == 1);
    assert(two_to(1) == 2);
    assert(two_to(2) == 4);
    assert(two_to(3) == 8);
    assert(two_to(4) == 16);
    assert(two_to(5) == 32);
    assert(two_to(6) == 64);
    assert(two_to(7) == 128);
}

/// Powers of two grow with the exponent.
pub proof fn lemma_two_to_monotone(e1: nat, e2: nat)
    requires
        e1 <= e2,
    ensures
        two_to(e1) <= two_to(e2),
    decreases e2,
{
    if e1 < e2 {
        lemma_two_to_monotone(e1, (e2 - 1) as nat);
    }
}

/// The place value of the bit at position `enumerate_index`, counted from
/// the least-significant digit: 2 to the power `enumerate_index`.
pub fn compute_binary_value(enumerate_index: u8) -> (result: u8)
    requires
        enumerate_index <= 7,
    ensures
        result as nat == two_to(enumerate_index as nat),
{
    if enumerate_index == 0 {
        return 1;
    }
    proof {
        lemma_two_to_values();
    }
    let mut result: u8 = 2;
    let mut i: u8 = 1;
    while i < enumerate_index
        invariant
            1 <= i <= enumerate_index <= 7,
            result as nat == two_to(i as nat),
        decreases enumerate_index - i,
    {
        proof {
            lemma_two_to_values();
            lemma_two_to_monotone(i as nat, 6);
        }
        result = result * 2;
        i = i + 1;
    }
    result
}

/// The value of a big-endian bit string: the leftmost character is the
/// most significant bit, and each character contributes one binary digit.
pub open spec fn binary_seq_value(s: Seq<char>) -> nat
    decreases s.len(),
{
    if s.len() == 0 {
        0
    } else {
        2 * binary_seq_value(s.drop_last()) + (if s.last() == '1' {
            1nat
        } else {
            0nat
        })
    }
}

/// A bit string of `n` characters holds a value below 2 to the `n`.
pub proof fn lemma_binary_seq_value_bound(s: Seq<char>)
    ensures
        binary_seq_value(s) < two_to(s.len()),
    decreases s.len(),
{
    if s.len() > 0 {
        lemma_binary_seq_value_bound(s.drop_last());
    }
}

/// Reads an 8-character big-endian bit string as a byte: fails with
/// `LengthError` when the input is not exactly 8 characters long, with
/// `FormatError` when any character is not a binary digit, and otherwise
/// returns the value the bits encode.
pub fn binary_string_to_number(binary_string: &str) -> (result: Result<u8, KeyError>)
    ensures
        binary_string@.len() != 8 ==> result == Err::<u8, KeyError>(KeyError::LengthError),
        binary_string@.len() == 8 && !all_binary(binary_string@) ==> result == Err::<
            u8,
            KeyError,
        >(KeyError::FormatError),
        binary_string@.len() == 8 && all_binary(binary_string@) ==> (result matches Ok(n)
            && n as nat == binary_seq_value(binary_string@)),
{
    let length = binary_string.unicode_len();
    if length != 8 {
        return Err(KeyError::LengthError);
    }
    let mut i: usize = 0;
    while i < 8
        invariant
            i <= 8,
            binary_string@.len() == 8,
            forall|j: int| 0 <= j < i ==> is_binary_char(#[trigger] binary_string@[j]),
        decreases 8 - i,
    {
        let character = binary_string.get_char(i);
        if character != '0' && character != '1' {
            return Err(KeyError::FormatError);
        }
        i = i + 1;
    }
    let mut number_convertion: u8 = 0;
    let mut i: usize = 0;
    while i < 8
        invariant
            i <= 8,
            binary_string@.len() == 8,
            all_binary(binary_string@),
            number_convertion as nat == binary_seq_value(binary_string@.take(i as int)),
        decreases 8 - i,
    {
        let character = binary_string.get_char(i);
        proof {
            lemma_two_to_values();
            assert(two_to(8) == 256);
            lemma_two_to_monotone((i + 1) as nat, 8);
            assert(binary_string@.take(i + 1).drop_last() =~= binary_string@.take(i as int));
            lemma_binary_seq_value_bound(binary_string@.take(i + 1));
        }
        let bit: u8 = if character == '1' {
            1
        } else {
            0
        };
        number_convertion = number_convertion * 2 + bit;
        i = i + 1;
    }
    proof {
        assert(binary_string@.take(8) =~= binary_string@);
    }
    Ok(number_convertion)
}

} // verus!
