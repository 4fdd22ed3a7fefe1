//! Validation of a 4x8 bit matrix, recovery of the secret permutation
//! hidden in its unit-vector columns, and parsing of the fixed-length
//! key-file envelope that carries the matrix.

use vstd::prelude::*;

use crate::all_binary;
use crate::is_binary_char;
use crate::KeyError;

verus! {

/// A well-formed matrix row: exactly 8 characters, all binary digits.
pub open spec fn row_well_formed(s: Seq<char>) -> bool {
    s.len() == 8 && all_binary(s)
}

/// A well-formed key matrix: all 4 rows are well-formed.
pub open spec fn matrix_well_formed(m: [&str; 4]) -> bool {
    &&& row_well_formed(m[0]@)
    &&& row_well_formed(m[1]@)
    &&& row_well_formed(m[2]@)
    &&& row_well_formed(m[3]@)
}

/// The vertical cross-section of the matrix at column `i`: one bit from
/// each of the 4 rows, top to bottom.
pub open spec fn column(m: [&str; 4], i: int) -> Seq<char> {
    seq![m[0]@[i], m[1]@[i], m[2]@[i], m[3]@[i]]
}

/// The cross-section `bits` is the `k`-th canonical unit vector: a '1' in
/// row `k` and '0' everywhere else.
pub open spec fn is_unit_column(bits: Seq<char>, k: int) -> bool {
    &&& bits.len() == 4
    &&& bits[0] == (if k == 0 {
        '1'
    } else {
        '0'
    })
    &&& bits[1] == (if k == 1 {
        '1'
    } else {
        '0'
    })
    &&& bits[2] == (if k == 2 {
        '1'
    } else {
        '0'
    })
    &&& bits[3] == (if k == 3 {
        '1'
    } else {
        '0'
    })
}

/// The slot a cross-section selects: `Some(k)` when it is the `k`-th unit
/// vector, `None` when it is no unit vector at all.
pub open spec fn slot_of_column(bits: Seq<char>) -> Option<u8> {
    if is_unit_column(bits, 0) {
        Some(0u8)
    } else if is_unit_column(bits, 1) {
        Some(1u8)
    } else if is_unit_column(bits, 2) {
        Some(2u8)
    } else if is_unit_column(bits, 3) {
        Some(3u8)
    } else {
        None
    }
}

/// The column index recorded for slot `k` after scanning the first `n`
/// columns: the last matching column, or -1 while none has matched.
pub open spec fn last_match(m: [&str; 4], k: int, n: int) -> int
    decreases n,
{
    if n <= 0 {
        -1
    } else if is_unit_column(column(m, n - 1), k) {
        n - 1
    } else {
        last_match(m, k, n - 1)
    }
}

/// The `k`-th unit vector appears in one of the first `n` columns.
pub open spec fn slot_found_upto(m: [&str; 4], k: int, n: int) -> bool {
    exists|i: int| 0 <= i < n && is_unit_column(#[trigger] column(m, i), k)
}

/// The `k`-th unit vector appears in some column of the matrix.
pub open spec fn slot_found(m: [&str; 4], k: int) -> bool {
    slot_found_upto(m, k, 8)
}

/// Every one of the 4 unit vectors appears in some column of the matrix.
pub open spec fn all_slots_found(m: [&str; 4]) -> bool {
    forall|k: int| 0 <= k < 4 ==> #[trigger] slot_found(m, k)
}

/// A slot's recorded index stays -1 exactly as long as no column has
/// matched, and otherwise points at a matching column.
proof fn lemma_last_match_found(m: [&str; 4], k: int, n: int)
    requires
        0 <= n <= 8,
    ensures
        last_match(m, k, n) >= -1,
        last_match(m, k, n) >= 0 <==> slot_found_upto(m, k, n),
        last_match(m, k, n) >= 0 ==> last_match(m, k, n) < n && is_unit_column(
            column(m, last_match(m, k, n)),
            k,
        ),
    decreases n,
{
    if n > 0 {
        lemma_last_match_found(m, k, n - 1);
    }
}

/// A well-formed key-file envelope: exactly 41 characters, whose first 5
/// characters and last character together form the literal anchors
/// `G4C=[` and `]`.
pub open spec fn envelope_well_formed(s: Seq<char>) -> bool {
    &&& s.len() == 41
    &&& s[0] == 'G'
    &&& s[1] == '4'
    &&& s[2] == 'C'
    &&& s[3] == '='
    &&& s[4] == '['
    &&& s[40] == ']'
}

/// The key-file content carries the expected fixed-length envelope: 41
/// characters, anchored by the 5-character header and the closing bracket.
pub fn key_file_is_well_form(key_file_content: &String) -> (result: bool)
    ensures
        result == envelope_well_formed(key_file_content@),
{
    let content = key_file_content.as_str();
    if content.unicode_len() != 41 {
        return false;
    }
    content.get_char(0) == 'G' && content.get_char(1) == '4' && content.get_char(2) == 'C'
        && content.get_char(3) == '=' && content.get_char(4) == '[' && content.get_char(40) == ']'
}

/// Relies on std's `String::push`: appends the given character to the end
/// of the string.
#[verifier::external_body]
fn push_char(s: &mut String, character: char)
    ensures
        final (s)@ == old(s)@.push(character),
{
    s.push(character)
}

/// The content with every binary digit removed: what `read_key` hands back
/// for a well-formed envelope.
pub open spec fn stripped_of_digits(s: Seq<char>) -> Seq<char> {
    s.filter(|c: char| !is_binary_char(c))
}

/// Validates the key-file envelope and strips every binary digit from the
/// content, returning what remains (header, trailer and whitespace); fails
/// with `FormatError` when the envelope is malformed.  The digits of the
/// embedded matrix are what is removed, so a caller that needs the matrix
/// itself must keep the original content.
pub fn read_key(key_file_content: &String) -> (result: Result<String, KeyError>)
    ensures
        !envelope_well_formed(key_file_content@) ==> result == Err::<String, KeyError>(
            KeyError::FormatError,
        ),
        envelope_well_formed(key_file_content@) ==> (result matches Ok(stripped)
            && stripped@ == stripped_of_digits(key_file_content@)),
{
    if !key_file_is_well_form(key_file_content) {
        return Err(KeyError::FormatError);
    }
    let content = key_file_content.as_str();
    let length = content.unicode_len();
    let mut filtered_result = String::new();
    let mut i: usize = 0;
    proof {
        assert(stripped_of_digits(content@.take(0)) =~= Seq::<char>::empty()) by {
            reveal(Seq::filter);
        }
    }
    while i < length
        invariant
            i <= length,
            length == content@.len(),
            content@ == key_file_content@,
            filtered_result@ == stripped_of_digits(content@.take(i as int)),
        decreases length - i,
    {
        let character = content.get_char(i);
        proof {
            reveal(Seq::filter);
            assert(content@.take(i + 1).drop_last() =~= content@.take(i as int));
            assert(content@.take(i + 1).last() == content@[i as int]);
        }
        if character != '0' && character != '1' {
            push_char(&mut filtered_result, character);
        }
        i = i + 1;
    }
    proof {
        assert(content@.take(length as int) =~= content@);
    }
    Ok(filtered_result)
}

/// Classifies a vertical cross-section of the matrix: the slot index 0-3
/// when the 4 bits form the corresponding canonical unit vector, `None`
/// otherwise.
pub fn check_secret_lines(current_bits: [char; 4]) -> (result: Option<u8>)
    ensures
        result == slot_of_column(current_bits@),
{
    let b0 = current_bits[0];
    let b1 = current_bits[1];
    let b2 = current_bits[2];
    let b3 = current_bits[3];
    if b0 == '1' && b1 == '0' && b2 == '0' && b3 == '0' {
        Some(0)
    } else if b0 == '0' && b1 == '1' && b2 == '0' && b3 == '0' {
        Some(1)
    } else if b0 == '0' && b1 == '0' && b2 == '1' && b3 == '0' {
        Some(2)
    } else if b0 == '0' && b1 == '0' && b2 == '0' && b3 == '1' {
        Some(3)
    } else {
        None
    }
}

/// One row of the matrix is well-formed: exactly 8 characters, every one a
/// binary digit.
fn row_is_well_formed(row: &str) -> (result: bool)
    ensures
        result == row_well_formed(row@),
{
    let length = row.unicode_len();
    if length != 8 {
        return false;
    }
    let mut i: usize = 0;
    while i < 8
        invariant
            i <= 8,
            row@.len() == 8,
            forall|j: int| 0 <= j < i ==> is_binary_char(#[trigger] row@[j]),
        decreases 8 - i,
    {
        let character = row.get_char(i);
        if character != '0' && character != '1' {
            return false;
        }
        i = i + 1;
    }
    true
}

/// The matrix conforms to the key format: each of the 4 rows has exactly 8
/// characters and consists solely of binary digits.  One malformed row
/// anywhere invalidates the whole matrix.
pub fn key_is_well_form(key_matrix: &[&str; 4]) -> (result: bool)
    ensures
        result == matrix_well_formed(*key_matrix),
{
    row_is_well_formed(key_matrix[0]) && row_is_well_formed(key_matrix[1]) && row_is_well_formed(
        key_matrix[2],
    ) && row_is_well_formed(key_matrix[3])
}

/// Recovers the secret permutation from a key matrix: scans the 8 columns
/// left to right and records, for each of the 4 unit vectors, the column
/// where it appears; when a unit vector appears in several columns the last
/// one wins.  Fails with `InvalidMatrix` on a malformed matrix and with
/// `IncompleteKey` when some unit vector appears in no column.
pub fn get_secret_key_index(key_matrix: &[&str; 4]) -> (result: Result<[i8; 4], KeyError>)
    ensures
        !matrix_well_formed(*key_matrix) ==> result == Err::<[i8; 4], KeyError>(
            KeyError::InvalidMatrix,
        ),
        matrix_well_formed(*key_matrix) && !all_slots_found(*key_matrix) ==> result == Err::<
            [i8; 4],
            KeyError,
        >(KeyError::IncompleteKey),
        result is Ok <==> matrix_well_formed(*key_matrix) && all_slots_found(*key_matrix),
        result matches Ok(secret_lines) ==> forall|k: int|
            0 <= k < 4 ==> secret_lines@[k] == last_match(*key_matrix, k, 8) && is_unit_column(
                column(*key_matrix, secret_lines@[k] as int),
                k,
            ),
{
    if !key_is_well_form(key_matrix) {
        return Err(KeyError::InvalidMatrix);
    }
    let mut s0: i8 = -1;
    let mut s1: i8 = -1;
    let mut s2: i8 = -1;
    let mut s3: i8 = -1;
    let mut i: usize = 0;
    while i < 8
        invariant
            i <= 8,
            matrix_well_formed(*key_matrix),
            s0 == last_match(*key_matrix, 0, i as int),
            s1 == last_match(*key_matrix, 1, i as int),
            s2 == last_match(*key_matrix, 2, i as int),
            s3 == last_match(*key_matrix, 3, i as int),
        decreases 8 - i,
    {
        let current_bits: [char; 4] = [
            key_matrix[0].get_char(i),
            key_matrix[1].get_char(i),
            key_matrix[2].get_char(i),
            key_matrix[3].get_char(i),
        ];
        proof {
            assert(current_bits@ =~= column(*key_matrix, i as int));
        }
        match check_secret_lines(current_bits) {
            Some(0) => s0 = i as i8,
            Some(1) => s1 = i as i8,
            Some(2) => s2 = i as i8,
            Some(3) => s3 = i as i8,
            _ => (),
        }
        i = i + 1;
    }
    proof {
        lemma_last_match_found(*key_matrix, 0, 8);
        lemma_last_match_found(*key_matrix, 1, 8);
        lemma_last_match_found(*key_matrix, 2, 8);
        lemma_last_match_found(*key_matrix, 3, 8);
        assert(slot_found(*key_matrix, 0) <==> s0 >= 0);
        assert(slot_found(*key_matrix, 1) <==> s1 >= 0);
        assert(slot_found(*key_matrix, 2) <==> s2 >= 0);
        assert(slot_found(*key_matrix, 3) <==> s3 >= 0);
        if s0 >= 0 && s1 >= 0 && s2 >= 0 && s3 >= 0 {
            assert forall|k: int| 0 <= k < 4 implies #[trigger] slot_found(*key_matrix, k) by {
                if k == 0 {
                    assert(slot_found(*key_matrix, 0));
                } else if k == 1 {
                    assert(slot_found(*key_matrix, 1));
                } else if k == 2 {
                    assert(slot_found(*key_matrix, 2));
                } else {
                    assert(slot_found(*key_matrix, 3));
                }
            }
        }
    }
    if s0 == -1 || s1 == -1 || s2 == -1 || s3 == -1 {
        return Err(KeyError::IncompleteKey);
    }
    let secret_lines: [i8; 4] = [s0, s1, s2, s3];
    Ok(secret_lines)
}

} // verus!
