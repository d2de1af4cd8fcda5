use crafty_novels::error::{Error, TokenizeError};
use crafty_novels::syntax::Token;

#[test]
fn malformed_shapes_are_reported_as_malformed() {
    for err in [
        Error::InvalidFormatCodeString("§ 0".to_string()),
        Error::NoSuchFormatCode('z'),
        Error::MissingFormatCode,
        Error::UnexpectedEndOfIter,
        Error::IncompleteOrMissingFrontmatter,
    ] {
        assert!(matches!(
            TokenizeError::from(err),
            TokenizeError::MalformedSyntaxItem
        ));
    }
}

#[test]
fn missing_character_literal_is_reported_as_no_such_item() {
    assert!(matches!(
        TokenizeError::from(Error::NoSuchCharLiteral('x')),
        TokenizeError::NoSuchSyntaxItem
    ));
}

#[test]
fn unexpected_token_is_reported_as_unexpected_item() {
    assert!(matches!(
        TokenizeError::from(Error::UnexpectedToken(Token::ThematicBreak)),
        TokenizeError::UnexpectedSyntaxItem
    ));
}

#[test]
fn io_fault_keeps_its_cause() {
    let cause = std::io::Error::new(std::io::ErrorKind::UnexpectedEof, "cut short");
    match TokenizeError::from(Error::Io(cause)) {
        TokenizeError::Io(e) => {
            assert_eq!(e.kind(), std::io::ErrorKind::UnexpectedEof);
            assert_eq!(e.to_string(), "cut short");
        }
        other => panic!("reported as {:?}", other),
    }
}

#[test]
fn fmt_fault_keeps_its_cause() {
    assert!(matches!(
        TokenizeError::from(Error::Fmt(std::fmt::Error)),
        TokenizeError::Fmt(std::fmt::Error)
    ));
}

#[test]
fn utf8_fault_keeps_its_cause() {
    let cause = String::from_utf8(vec![b'a', 0xff]).unwrap_err();
    match TokenizeError::from(Error::Utf8(cause)) {
        TokenizeError::Utf8(e) => assert_eq!(e.as_bytes(), &[b'a', 0xff]),
        other => panic!("reported as {:?}", other),
    }
}

#[test]
fn into_goes_through_the_same_table() {
    let kind: TokenizeError = Error::MissingFormatCode.into();
    assert!(matches!(kind, TokenizeError::MalformedSyntaxItem));
}
