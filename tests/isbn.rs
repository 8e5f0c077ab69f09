use isbn_kit::isbn::{calculate_check_digit, InvalidIsbn, Isbn};

#[test]
fn can_correctly_calculate_check_digits() {
    let cases = [
        ([9_u8, 7, 8, 1, 8, 6, 1, 9, 7, 8, 7, 6], 9_u8),
        ([9_u8, 7, 8, 3, 1, 6, 1, 4, 8, 4, 1, 0], 0_u8),
    ];

    for (case, check) in cases.iter() {
        let actual = calculate_check_digit(case);
        println!("{:?} -> {}?  {}", &case, check, actual);
        assert_eq!(calculate_check_digit(case), *check)
    }
}

#[test]
fn check_digit_uses_only_the_first_twelve_digits() {
    let digits = [9_u8, 7, 8, 1, 8, 6, 1, 9, 7, 8, 7, 6, 9];
    assert_eq!(calculate_check_digit(&digits), 9);
}

#[test]
fn check_digit_matches_modular_formula() {
    let payloads: [[u8; 12]; 4] = [
        [0; 12],
        [9; 12],
        [1, 2, 3, 4, 5, 6, 7, 8, 9, 0, 1, 2],
        [9, 7, 8, 0, 1, 3, 4, 6, 8, 5, 9, 9],
    ];
    for p in payloads.iter() {
        let mut sum: u32 = 0;
        for (i, d) in p.iter().enumerate() {
            let w: u32 = if i % 2 == 0 { 1 } else { 3 };
            sum += (*d as u32) * w;
        }
        let expected = ((10 - sum % 10) % 10) as u8;
        assert_eq!(calculate_check_digit(p), expected);
    }
}

#[test]
fn parses_hyphenated_isbn() {
    let isbn = Isbn::from_str("978-1-86197-876-9").unwrap();
    assert_eq!(isbn.digits(), &[9, 7, 8, 1, 8, 6, 1, 9, 7, 8, 7, 6, 9]);
    assert_eq!(isbn.raw(), "978-1-86197-876-9");
}

#[test]
fn parses_isbn_with_zero_check_digit() {
    let isbn = Isbn::from_str("9783161484100").unwrap();
    assert_eq!(isbn.digits(), &[9, 7, 8, 3, 1, 6, 1, 4, 8, 4, 1, 0, 0]);
}

#[test]
fn display_is_the_raw_text() {
    let isbn = Isbn::from_str("978-1-86197-876-9").unwrap();
    assert_eq!(isbn.to_string(), "978-1-86197-876-9");
}

#[test]
fn twelve_digits_are_too_short() {
    assert_eq!(Isbn::from_str("978-0-13-46859"), Err(InvalidIsbn::TooShort));
}

#[test]
fn empty_text_is_too_short() {
    assert_eq!(Isbn::from_str(""), Err(InvalidIsbn::TooShort));
    assert_eq!(Isbn::from_str("---"), Err(InvalidIsbn::TooShort));
}

#[test]
fn fourteen_digits_are_too_long() {
    assert_eq!(Isbn::from_str("978-1-86197-876-91"), Err(InvalidIsbn::TooLong));
}

#[test]
fn altered_check_digit_fails_check() {
    assert_eq!(Isbn::from_str("9781861978768"), Err(InvalidIsbn::FailedCheck));
}

#[test]
fn invalid_character_reports_position() {
    assert_eq!(
        Isbn::from_str("978-1A6197876-9"),
        Err(InvalidIsbn::InvalidCharacter(5, 'A'))
    );
}

#[test]
fn invalid_character_wins_over_length() {
    assert_eq!(Isbn::from_str("97#8"), Err(InvalidIsbn::InvalidCharacter(2, '#')));
    assert_eq!(
        Isbn::from_str("978-1-86197-876-91234X"),
        Err(InvalidIsbn::InvalidCharacter(21, 'X'))
    );
    assert_eq!(
        Isbn::from_str("978 1-86197-876-9"),
        Err(InvalidIsbn::InvalidCharacter(3, ' '))
    );
}

#[test]
fn only_the_first_invalid_character_is_reported() {
    assert_eq!(
        Isbn::from_str("12a-b3"),
        Err(InvalidIsbn::InvalidCharacter(2, 'a'))
    );
}

#[test]
fn non_ascii_character_is_invalid() {
    assert_eq!(
        Isbn::from_str("978–1"),
        Err(InvalidIsbn::InvalidCharacter(3, '–'))
    );
}

#[test]
fn reparsing_raw_text_gives_equal_isbn() {
    let first = Isbn::from_str("978-1-86197-876-9").unwrap();
    let again = Isbn::from_str(first.raw()).unwrap();
    assert_eq!(first, again);
}

#[test]
fn parsing_is_deterministic() {
    for text in ["978-1-86197-876-9", "978-1A6197876-9", "9781861978768", "12", ""] {
        assert_eq!(Isbn::from_str(text), Isbn::from_str(text));
    }
}
