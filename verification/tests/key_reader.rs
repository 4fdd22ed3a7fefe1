use binary_matrix_key::key_reader::check_secret_lines;
use binary_matrix_key::key_reader::get_secret_key_index;
use binary_matrix_key::key_reader::key_file_is_well_form;
use binary_matrix_key::key_reader::key_is_well_form;
use binary_matrix_key::key_reader::read_key;
use binary_matrix_key::KeyError;

#[test]
fn key_reader_get_secret_key_index_test() {
    let matrix_test = ["11011000", "11001011", "10001110", "10100000"];

    let test_value = get_secret_key_index(&matrix_test);
    assert_eq!([3, 7, 5, 2], test_value.unwrap());
}

#[test]
#[should_panic]
fn key_reader_get_secret_key_index_invalid_key_syntax() {
    let matrix_test = ["11011000", "11001011", "chocolatine", "10100000"];

    get_secret_key_index(&matrix_test).unwrap();
}

#[test]
#[should_panic]
fn key_reader_get_secret_key_index_no_secret_found() {
    let matrix_test = ["11011000", "11001011", "10001111", "10100000"];

    get_secret_key_index(&matrix_test).unwrap();
}

#[test]
fn key_reader_key_is_well_form_test() {
    let matrix_test = ["11011000", "11001011", "10001110", "10100000"];
    assert_eq!(key_is_well_form(&matrix_test), true);
}

#[test]
fn key_reader_key_is_well_form_not_good_number_of_bits() {
    let matrix_test = ["11011000", "11001011", "1000111", "10100000"];
    assert_eq!(key_is_well_form(&matrix_test), false);
}

#[test]
fn key_reader_key_is_well_form_not_binary_string() {
    let matrix_test = ["11011000", "michelfo", "1000111", "1010000"];
    assert_eq!(key_is_well_form(&matrix_test), false);
}

#[test]
fn key_reader_check_secret_lines_test_line_1() {
    let test_value = check_secret_lines(['1', '0', '0', '0']);
    assert_eq!(test_value, Some(0));
}

#[test]
fn key_reader_check_secret_lines_test_line_2() {
    let test_value = check_secret_lines(['0', '1', '0', '0']);
    assert_eq!(test_value, Some(1));
}

#[test]
fn key_reader_check_secret_lines_test_line_3() {
    let test_value = check_secret_lines(['0', '0', '1', '0']);
    assert_eq!(test_value, Some(2));
}

#[test]
fn key_reader_check_secret_lines_test_line_4() {
    let test_value = check_secret_lines(['0', '0', '0', '1']);
    assert_eq!(test_value, Some(3));
}

#[test]
fn key_reader_check_secret_lines_not_key_line() {
    let test_value = check_secret_lines(['1', '1', '0', '0']);
    assert_eq!(test_value, None);
}

#[test]
fn key_file_is_well_form_test() {
    let key_string = String::from("G4C=[11011000 11001011 10001110 10100000]");
    assert_eq!(key_file_is_well_form(&key_string), true);
}

#[test]
fn key_file_is_well_form_bad_header() {
    let key_string = String::from("G3C=[10101010 10101010 10101010 10101010]");
    assert_eq!(key_file_is_well_form(&key_string), false);
}

#[test]
fn key_file_is_well_form_missing_closure_character() {
    let key_string = String::from("G4C=[10101010 10101010 10101010 10101010");
    assert_eq!(key_file_is_well_form(&key_string), false);
}

#[test]
fn key_file_is_well_form_bad_number_of_characters() {
    let key_string = String::from("C=[10101010 10101010 10101010 10101010]");
    assert_eq!(key_file_is_well_form(&key_string), false);
}

#[test]
fn key_file_is_well_form_too_long() {
    let key_string = String::from("G4C=[10101010 10101010 10101010 101010100]");
    assert_eq!(key_file_is_well_form(&key_string), false);
}

#[test]
fn read_key_strips_the_matrix_digits() {
    let key_string = String::from("G4C=[11011000 11001011 10001110 10100000]");
    let stripped = read_key(&key_string).unwrap();
    assert_eq!(stripped, "G4C=[   ]");
}

#[test]
fn read_key_rejects_a_malformed_envelope() {
    let key_string = String::from("G4C=[10101010 10101010 10101010 10101010");
    assert_eq!(read_key(&key_string), Err(KeyError::FormatError));
}

#[test]
fn get_secret_key_index_invalid_matrix_error() {
    let matrix_test = ["11011000", "11001011", "chocolatine", "10100000"];
    assert_eq!(get_secret_key_index(&matrix_test), Err(KeyError::InvalidMatrix));
}

#[test]
fn get_secret_key_index_incomplete_key_error() {
    let matrix_test = ["11011000", "11001011", "10001111", "10100000"];
    assert_eq!(get_secret_key_index(&matrix_test), Err(KeyError::IncompleteKey));
}

#[test]
fn get_secret_key_index_last_column_wins_on_duplicates() {
    // Columns 0 and 3 both hold the first unit vector; the later one is kept.
    let matrix_test = ["10010000", "01000000", "00100000", "00001000"];
    let test_value = get_secret_key_index(&matrix_test).unwrap();
    assert_eq!(test_value, [3, 1, 2, 4]);
}
