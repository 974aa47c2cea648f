use xlsx_row::RowError;
use xlsx_row::column::{letters_to_number, number_to_letters};
use xlsx_row::reference::dec_string;

#[test]
fn round_trip_first_703() {
    for n in 1usize..=703 {
        let letters = number_to_letters(n);
        assert_eq!(letters_to_number(letters.as_str()), Ok(n));
    }
}

#[test]
fn round_trip_larger_values() {
    for n in [704usize, 1378, 16384, 18278, 18279, 475254, 1_000_000] {
        let letters = number_to_letters(n);
        assert_eq!(letters_to_number(letters.as_str()), Ok(n));
    }
}

#[test]
fn boundary_letter_strings() {
    assert_eq!(number_to_letters(1), "A");
    assert_eq!(number_to_letters(26), "Z");
    assert_eq!(number_to_letters(27), "AA");
    assert_eq!(number_to_letters(702), "ZZ");
    assert_eq!(number_to_letters(703), "AAA");
}

#[test]
fn boundary_letter_values() {
    assert_eq!(letters_to_number("A"), Ok(1));
    assert_eq!(letters_to_number("Z"), Ok(26));
    assert_eq!(letters_to_number("AA"), Ok(27));
    assert_eq!(letters_to_number("ZZ"), Ok(702));
    assert_eq!(letters_to_number("AAA"), Ok(703));
}

#[test]
fn letters_to_number_rejects_bad_strings() {
    assert_eq!(letters_to_number(""), Err(RowError::InvalidReference));
    assert_eq!(letters_to_number("a"), Err(RowError::InvalidReference));
    assert_eq!(letters_to_number("A1"), Err(RowError::InvalidReference));
    assert_eq!(letters_to_number("A B"), Err(RowError::InvalidReference));
    // Fourteen letters exceed what a column index can hold.
    assert_eq!(
        letters_to_number("ZZZZZZZZZZZZZZ"),
        Err(RowError::InvalidReference)
    );
}

#[test]
fn decimal_rendering() {
    assert_eq!(dec_string(0), "0");
    assert_eq!(dec_string(7), "7");
    assert_eq!(dec_string(10), "10");
    assert_eq!(dec_string(120), "120");
    assert_eq!(dec_string(90210), "90210");
}
