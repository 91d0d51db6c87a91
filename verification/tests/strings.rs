use osu_replay_parser::parser::{game_mode, osr_string, utf8_string};
use osu_replay_parser::{ErrorKind, GameMode};

#[test]
fn absent_string_is_empty_and_takes_one_byte() {
    let input = [0x00u8, 0x0B, 0x03, 0x61, 0x62, 0x63];
    let (rest, text) = osr_string(&input).unwrap();
    assert_eq!(text, "");
    assert_eq!(rest, &input[1..]);
    let (rest, text) = osr_string(&[0x00]).unwrap();
    assert_eq!(text, "");
    assert!(rest.is_empty());
    let (rest, text) = osr_string(&[0x00, 0xFF, 0xFF]).unwrap();
    assert_eq!(text, "");
    assert_eq!(rest, &[0xFFu8, 0xFF][..]);
}

#[test]
fn present_string_decodes_to_its_text() {
    let input = [0x0Bu8, 0x03, 0x61, 0x62, 0x63, 0x99];
    let (rest, text) = osr_string(&input).unwrap();
    assert_eq!(text, "abc");
    assert_eq!(rest, &[0x99u8][..]);
    assert_eq!(input.len() - rest.len(), 1 + 1 + 3);
}

#[test]
fn any_flag_but_zero_means_present() {
    for flag in [0x01u8, 0x0B, 0x7F, 0x80, 0xFF] {
        let input = [flag, 0x02, 0x68, 0x69];
        let (rest, text) = osr_string(&input).unwrap();
        assert_eq!(text, "hi");
        assert!(rest.is_empty());
    }
}

#[test]
fn present_string_of_length_zero() {
    let (rest, text) = osr_string(&[0x0B, 0x00, 0x41]).unwrap();
    assert_eq!(text, "");
    assert_eq!(rest, &[0x41u8][..]);
}

#[test]
fn string_with_multi_byte_characters() {
    let text = "h\u{e9}llo \u{4e16}\u{754c} \u{1f499}";
    let mut input = vec![0x0Bu8, text.len() as u8];
    input.extend_from_slice(text.as_bytes());
    input.push(0x00);
    let (rest, decoded) = osr_string(&input).unwrap();
    assert_eq!(decoded, text);
    assert_eq!(rest, &[0x00u8][..]);
    assert_eq!(input.len() - rest.len(), 1 + 1 + text.len());
}

#[test]
fn string_with_a_two_byte_length() {
    let text = "x".repeat(300);
    let mut input = vec![0x0Bu8, 0xAC, 0x02];
    input.extend_from_slice(text.as_bytes());
    input.extend_from_slice(&[1, 2, 3]);
    let (rest, decoded) = osr_string(&input).unwrap();
    assert_eq!(decoded, text);
    assert_eq!(rest, &[1u8, 2, 3][..]);
    assert_eq!(input.len() - rest.len(), 1 + 2 + 300);
}

#[test]
fn string_without_a_flag_is_end_of_input() {
    let error = osr_string(&[]).unwrap_err();
    assert_eq!(error.kind(), ErrorKind::UnexpectedEndOfInput);
    assert!(error.trace().is_empty());
}

#[test]
fn string_without_a_length_is_end_of_input() {
    let error = osr_string(&[0x0B]).unwrap_err();
    assert_eq!(error.kind(), ErrorKind::UnexpectedEndOfInput);
    assert_eq!(
        error.trace(),
        &vec!["Error parsing ULEB128 for String length"]
    );
    let error = osr_string(&[0x0B, 0x80]).unwrap_err();
    assert_eq!(error.kind(), ErrorKind::UnexpectedEndOfInput);
    assert_eq!(
        error.trace(),
        &vec!["Error parsing ULEB128 for String length"]
    );
}

#[test]
fn string_shorter_than_its_length_is_end_of_input() {
    let error = osr_string(&[0x0B, 0x04, 0x61, 0x62, 0x63]).unwrap_err();
    assert_eq!(error.kind(), ErrorKind::UnexpectedEndOfInput);
    assert_eq!(error.trace(), &vec!["Expected more bytes for string"]);
}

#[test]
fn string_of_ill_formed_bytes_is_invalid_utf8() {
    let error = osr_string(&[0x0B, 0x02, 0xC3, 0x28]).unwrap_err();
    assert_eq!(error.kind(), ErrorKind::InvalidUtf8);
    assert!(error.trace().is_empty());
    let error = osr_string(&[0x0B, 0x01, 0xFF, 0x00]).unwrap_err();
    assert_eq!(error.kind(), ErrorKind::InvalidUtf8);
    let error = osr_string(&[0x0B, 0x03, 0xED, 0xA0, 0x80]).unwrap_err();
    assert_eq!(error.kind(), ErrorKind::InvalidUtf8);
    let error = osr_string(&[0x0B, 0x02, 0xC0, 0x80]).unwrap_err();
    assert_eq!(error.kind(), ErrorKind::InvalidUtf8);
}

#[test]
fn utf8_string_accepts_well_formed_bytes_only() {
    assert_eq!(utf8_string(b"plain").unwrap(), "plain");
    assert_eq!(utf8_string("\u{e9}".as_bytes()).unwrap(), "\u{e9}");
    assert_eq!(utf8_string(&[]).unwrap(), "");
    for bytes in [
        &[0x80u8][..],
        &[0xE4, 0xB8][..],
        &[0xF4, 0x90, 0x80, 0x80][..],
        &[0x61, 0xFF][..],
    ] {
        let error = utf8_string(bytes).unwrap_err();
        assert_eq!(error.kind(), ErrorKind::InvalidUtf8);
        assert!(error.trace().is_empty());
    }
}

#[test]
fn game_mode_decoder_takes_one_byte() {
    let (rest, mode) = game_mode(&[2, 7]).unwrap();
    assert_eq!(mode, GameMode::CatchTheBeat);
    assert_eq!(rest, &[7u8][..]);
    let error = game_mode(&[4]).unwrap_err();
    assert_eq!(error.kind(), ErrorKind::InvalidEnumValue);
    assert!(error.trace().is_empty());
    let error = game_mode(&[]).unwrap_err();
    assert_eq!(error.kind(), ErrorKind::UnexpectedEndOfInput);
}
