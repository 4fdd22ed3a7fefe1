//! The scheme's combined interface: the byte/bit codec and the secret-line
//! locator under one roof, together with an in-place variant of the
//! character splitter whose two halves are always present.

use vstd::prelude::*;

use crate::all_binary;
use crate::data_convertion;
use crate::data_convertion::binary_seq_value;
use crate::data_convertion::byte_of_char;
use crate::data_convertion::high_nibble;
use crate::data_convertion::low_nibble;
use crate::data_convertion::two_to;
use crate::key_reader;
use crate::key_reader::all_slots_found;
use crate::key_reader::column;
use crate::key_reader::is_unit_column;
use crate::key_reader::last_match;
use crate::key_reader::matrix_well_formed;
use crate::key_reader::slot_of_column;
use crate::KeyError;

verus! {

/// A character's byte value split into its two nibbles, both always
/// present; splitting overwrites the previous contents in place.
pub struct SplitedCharacter {
    /// The high nibble, kept in the top 4 bit positions.
    pub heavyweight_bits: u8,
    /// The low nibble.
    pub lightweight_bits: u8,
}

impl SplitedCharacter {
    /// Overwrites both halves with the nibbles of the character's byte
    /// value (the code point truncated to one byte).
    pub fn split_character(&mut self, character: char)
        ensures
            final (self).heavyweight_bits == high_nibble(byte_of_char(character)),
            final (self).lightweight_bits == low_nibble(byte_of_char(character)),
    {
        let byte: u8 = #[verifier::truncate] (character as u8);
        self.heavyweight_bits = byte & 0xF0;
        self.lightweight_bits = byte & 0x0F;
    }

    /// Overwrites both halves with the nibbles of the given byte.
    pub fn split_number(&mut self, character: u8)
        ensures
            final (self).heavyweight_bits == high_nibble(character),
            final (self).lightweight_bits == low_nibble(character),
    {
        self.heavyweight_bits = character & 0xF0;
        self.lightweight_bits = character & 0x0F;
    }
}

/// Maps text to the byte values of its characters, in order.
pub fn string_to_number(string: &str) -> (result: Vec<u8>)
    ensures
        result@ == string@.map_values(|c: char| byte_of_char(c)),
{
    data_convertion::string_to_number(string)
}

/// The place value of the bit at position `enumerate_index`, counted from
/// the least-significant digit.
pub fn compute_binary_value(enumerate_index: u8) -> (result: u8)
    requires
        enumerate_index <= 7,
    ensures
        result as nat == two_to(enumerate_index as nat),
{
    data_convertion::compute_binary_value(enumerate_index)
}

/// Reads an 8-character big-endian bit string as a byte; see the codec's
/// own `binary_string_to_number` for the failure cases.
pub fn binary_string_to_number(binary_string: &str) -> (result: Result<u8, KeyError>)
    ensures
        binary_string@.len() != 8 ==> result == Err::<u8, KeyError>(KeyError::LengthError),
        binary_string@.len() == 8 && !all_binary(binary_string@) ==> result == Err::<
            u8,
            KeyError,
        >(KeyError::FormatError),
        binary_string@.len() == 8 && all_binary(binary_string@) ==> (result matches Ok(n)
            && n as nat == binary_seq_value(binary_string@)),
{
    data_convertion::binary_string_to_number(binary_string)
}

/// Recovers the secret permutation from a key matrix; see the locator's
/// own `get_secret_key_index` for the full contract.
pub fn get_secret_key_index(key_matrix: &[&str; 4]) -> (result: Result<[i8; 4], KeyError>)
    ensures
        !matrix_well_formed(*key_matrix) ==> result == Err::<[i8; 4], KeyError>(
            KeyError::InvalidMatrix,
        ),
        matrix_well_formed(*key_matrix) && !all_slots_found(*key_matrix) ==> result == Err::<
            [i8; 4],
            KeyError,
        >(KeyError::IncompleteKey),
        result is Ok <==> matrix_well_formed(*key_matrix) && all_slots_found(*key_matrix),
        result matches Ok(secret_lines) ==> forall|k: int|
            0 <= k < 4 ==> secret_lines@[k] == last_match(*key_matrix, k, 8) && is_unit_column(
                column(*key_matrix, secret_lines@[k] as int),
                k,
            ),
{
    key_reader::get_secret_key_index(key_matrix)
}

/// The matrix conforms to the key format: 4 rows of exactly 8 binary
/// digits each.
pub fn key_is_well_form(key_matrix: &[&str; 4]) -> (result: bool)
    ensures
        result == matrix_well_formed(*key_matrix),
{
    key_reader::key_is_well_form(key_matrix)
}

/// Classifies a vertical cross-section of the matrix as one of the 4
/// canonical unit vectors, or none.
pub fn check_secret_lines(current_bits: [char; 4]) -> (result: Option<u8>)
    ensures
        result == slot_of_column(current_bits@),
{
    key_reader::check_secret_lines(current_bits)
}

} // verus!
