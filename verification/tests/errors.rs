use osu_replay_parser::errors::context;
use osu_replay_parser::{ErrorKind, ReplayDataError};

#[test]
fn with_context_appends_outwards_and_keeps_the_kind() {
    let error = ReplayDataError::InvalidUtf8(Vec::new());
    assert!(error.trace().is_empty());
    let error = error.with_context("inner");
    assert_eq!(error.kind(), ErrorKind::InvalidUtf8);
    assert_eq!(error.trace(), &vec!["inner"]);
    let error = error.with_context("outer");
    assert_eq!(error.kind(), ErrorKind::InvalidUtf8);
    assert_eq!(error.trace(), &vec!["inner", "outer"]);
}

#[test]
fn context_labels_a_failure_and_passes_a_success() {
    let success: Result<u8, ReplayDataError> = Ok(7);
    assert_eq!(context("step", success).unwrap(), 7);
    let failure: Result<u8, ReplayDataError> =
        Err(ReplayDataError::MissingField(vec!["first"]));
    let error = context("second", failure).unwrap_err();
    assert_eq!(error.kind(), ErrorKind::MissingField);
    assert_eq!(error.trace(), &vec!["first", "second"]);
}

#[test]
fn every_variant_reports_its_kind() {
    assert_eq!(
        ReplayDataError::UnexpectedEndOfInput(vec![]).kind(),
        ErrorKind::UnexpectedEndOfInput
    );
    assert_eq!(
        ReplayDataError::InvalidEnumValue(vec![]).kind(),
        ErrorKind::InvalidEnumValue
    );
    assert_eq!(
        ReplayDataError::InvalidUtf8(vec![]).kind(),
        ErrorKind::InvalidUtf8
    );
    assert_eq!(
        ReplayDataError::MissingField(vec![]).kind(),
        ErrorKind::MissingField
    );
    assert_eq!(
        ReplayDataError::InvalidNumericLiteral(vec![]).kind(),
        ErrorKind::InvalidNumericLiteral
    );
    let cause = lzma_rs::error::Error::LzmaError(String::from("broken"));
    let error = ReplayDataError::DecompressionError(cause, vec![]);
    assert_eq!(error.kind(), ErrorKind::DecompressionError);
    let error = error.with_context("blob");
    assert_eq!(error.kind(), ErrorKind::DecompressionError);
    assert_eq!(error.trace(), &vec!["blob"]);
}

#[test]
fn description_of_each_kind() {
    assert_eq!(ErrorKind::UnexpectedEndOfInput.description(), "End of file");
    assert_eq!(ErrorKind::InvalidEnumValue.description(), "Invalid Game Mode");
    assert_eq!(
        ErrorKind::InvalidUtf8.description(),
        "Error converting bytes to UTF-8"
    );
    assert_eq!(
        ErrorKind::MissingField.description(),
        "Expected value in replay data not found"
    );
    assert_eq!(
        ErrorKind::InvalidNumericLiteral.description(),
        "Value in replay data is invalid"
    );
    assert_eq!(
        ErrorKind::DecompressionError.description(),
        "Error decompressing replay data"
    );
}

#[test]
fn describe_shows_the_steps_from_the_outside_in() {
    let error = ReplayDataError::UnexpectedEndOfInput(vec![
        "Error parsing ULEB128 for String length",
        "Error parsing beatmap MD5",
        "Error parsing replay file",
    ]);
    assert_eq!(
        error.describe(),
        "Error parsing replay file\n   Error parsing beatmap MD5\n      Error parsing ULEB128 for String length\n         End of file\n"
    );
}

#[test]
fn describe_without_steps_is_the_kind_alone() {
    let error = ReplayDataError::MissingField(Vec::new());
    assert_eq!(error.describe(), "Expected value in replay data not found\n");
}

#[test]
fn describe_of_a_header_failure() {
    let error = osu_replay_parser::Replay::parse(&[7]).unwrap_err();
    assert_eq!(
        error.describe(),
        "Error parsing replay file\n   Error parsing game mode\n      Invalid Game Mode\n"
    );
}

#[test]
fn cause_is_kept_for_decompression_failures_only() {
    let cause = lzma_rs::error::Error::LzmaError(String::from("broken"));
    let error = ReplayDataError::DecompressionError(cause, vec![]);
    assert_eq!(
        error.cause().map(|cause| cause.to_string()),
        Some(String::from("lzma error: broken"))
    );
    assert!(ReplayDataError::InvalidUtf8(Vec::new()).cause().is_none());
}
