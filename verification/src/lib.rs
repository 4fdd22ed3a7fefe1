//! Building blocks of a toy binary-matrix key scheme: a codec between
//! bytes and 8-character bit strings, a validator for 4x8 bit matrices,
//! a locator that recovers a secret permutation from the matrix's
//! unit-vector columns, and a parser for the fixed-length key-file
//! envelope that carries the matrix.

use vstd::prelude::*;

pub mod binary_matrix_encryption;
pub mod data_convertion;
pub mod key_reader;

verus! {

/// The ways a key, a bit string or a key file can be malformed, and the
/// one way a well-formed matrix can still fail to yield a key.
#[derive(Debug, Clone, Copy, PartialEq, Eq, Structural)]
pub enum KeyError {
    /// A bit string does not have exactly 8 characters.
    LengthError,
    /// A character is not a binary digit, or a key-file envelope does not
    /// carry the expected anchors.
    FormatError,
    /// A key matrix fails validation: a row of the wrong length or with a
    /// non-binary character.
    InvalidMatrix,
    /// The scan of a valid matrix ended with some unit vector never found
    /// in any column.
    IncompleteKey,
}

/// A binary digit: the only characters allowed inside a bit string.
pub open spec fn is_binary_char(c: char) -> bool {
    c == '0' || c == '1'
}

/// Every character of the sequence is a binary digit.
pub open spec fn all_binary(s: Seq<char>) -> bool {
    forall|i: int| 0 <= i < s.len() ==> is_binary_char(#[trigger] s[i])
}

} // verus!
