use isbn_kit::morse::{MorseCode, Pulse};

#[test]
fn encodes_a_and_b() {
    let actual_code = "ab".to_string().to_morse_code();
    let expected = vec![
        vec![Pulse::Short, Pulse::Long],
        vec![Pulse::Short, Pulse::Long, Pulse::Short, Pulse::Long],
    ];
    assert_eq!(actual_code, expected);
}

#[test]
fn skips_other_characters_and_ignores_case() {
    let actual_code = "xBz A".to_string().to_morse_code();
    let expected = vec![
        vec![Pulse::Short, Pulse::Long, Pulse::Short, Pulse::Long],
        vec![Pulse::Short, Pulse::Long],
    ];
    assert_eq!(actual_code, expected);
}

#[test]
fn empty_text_has_no_letters() {
    assert!(String::new().to_morse_code().is_empty());
}

#[test]
fn pulses_are_written_as_dot_and_underscore() {
    assert_eq!(Pulse::Short.to_string(), ".");
    assert_eq!(Pulse::Long.to_string(), "_");
}
