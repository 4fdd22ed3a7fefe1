use binary_matrix_key::data_convertion::binary_string_to_number;
use binary_matrix_key::data_convertion::compute_binary_value;
use binary_matrix_key::data_convertion::string_to_number;
use binary_matrix_key::data_convertion::SplitedCharacter;
use binary_matrix_key::KeyError;

#[test]
fn data_convertion_string_to_number_test() {
    let test_value = string_to_number("coucou");
    assert_eq!(test_value, [99, 111, 117, 99, 111, 117]);
}

#[test]
fn data_convertion_string_to_number_empty() {
    let test_value = string_to_number("");
    assert_eq!(test_value, []);
}

#[test]
fn data_convertion_compute_binary_value_test() {
    let test_value = compute_binary_value(7);
    assert_eq!(test_value, 128);
}

#[test]
fn data_convertion_compute_binary_value_0() {
    let test_value = compute_binary_value(0);
    assert_eq!(test_value, 1);
}

#[test]
fn data_convertion_binary_string_to_number_test() {
    let test_value = binary_string_to_number("01101111").unwrap();
    assert_eq!(test_value, 111);
}

#[test]
#[should_panic]
fn data_convertion_binary_string_to_number_empty() {
    let _test_value = binary_string_to_number("").unwrap();
}

#[test]
#[should_panic]
fn data_convertion_binary_string_to_number_too_many_character() {
    let _test_value = binary_string_to_number("000000000").unwrap();
}

#[test]
#[should_panic]
fn data_convertion_binary_string_to_number_not_enough_character() {
    let _test_value = binary_string_to_number("0000000").unwrap();
}

#[test]
fn data_convertion_binary_string_to_number_zero() {
    let test_value = binary_string_to_number("00000000").unwrap();
    assert_eq!(test_value, 0);
}

#[test]
fn data_convertion_binary_string_to_number_full() {
    let test_value = binary_string_to_number("11111111").unwrap();
    assert_eq!(test_value, 255);
}

#[test]
fn splited_character_from_character_test() {
    let character = SplitedCharacter::from_character(&'a');

    assert_eq!(character.heavyweight_bits.unwrap(), 96);
    assert_eq!(character.lightweight_bits.unwrap(), 1);
}

#[test]
fn splited_character_from_number_test() {
    let character = SplitedCharacter::from_number(&9);

    assert_eq!(character.heavyweight_bits.unwrap(), 0);
    assert_eq!(character.lightweight_bits.unwrap(), 9);
}

#[test]
fn splited_character_get_value() {
    let character = SplitedCharacter::from_character(&'b');

    assert_eq!(character.get_value().unwrap(), 'b');
}

#[test]
fn splited_character_new_is_empty() {
    let character = SplitedCharacter::new();

    assert!(character.heavyweight_bits.is_none());
    assert!(character.lightweight_bits.is_none());
    assert_eq!(character.get_value(), None);
}

#[test]
fn binary_string_to_number_length_errors() {
    assert_eq!(binary_string_to_number(""), Err(KeyError::LengthError));
    assert_eq!(binary_string_to_number("0000000"), Err(KeyError::LengthError));
    assert_eq!(binary_string_to_number("000000000"), Err(KeyError::LengthError));
}

#[test]
fn binary_string_to_number_format_error() {
    assert_eq!(binary_string_to_number("0110a111"), Err(KeyError::FormatError));
    assert_eq!(binary_string_to_number("21111111"), Err(KeyError::FormatError));
}

#[test]
fn splited_character_round_trip_all_bytes() {
    let mut byte: u8 = 0;
    loop {
        let character = SplitedCharacter::from_number(&byte);
        let heavy = character.heavyweight_bits.unwrap();
        let light = character.lightweight_bits.unwrap();
        assert_eq!(heavy | light, byte);
        assert_eq!(heavy & light, 0);
        assert_eq!(character.get_value().unwrap() as u32, byte as u32);
        if byte == 255 {
            break;
        }
        byte += 1;
    }
}

#[test]
fn get_value_inverts_from_character_for_one_byte_chars() {
    let mut code: u32 = 0;
    while code < 256 {
        let character = char::from_u32(code).unwrap();
        let split = SplitedCharacter::from_character(&character);
        assert_eq!(split.get_value(), Some(character));
        code += 1;
    }
}

#[test]
fn compute_binary_value_all_positions() {
    let expected: [u8; 8] = [1, 2, 4, 8, 16, 32, 64, 128];
    let mut index: u8 = 0;
    while index < 8 {
        assert_eq!(compute_binary_value(index), expected[index as usize]);
        index += 1;
    }
}

#[test]
fn string_to_number_wide_characters_truncate() {
    let test_value = string_to_number("é");
    assert_eq!(test_value, ['é' as u8]);
}
