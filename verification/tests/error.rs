use tessera::error::ProtocolErrorKind;
use tessera::TesseraError;

#[test]
fn error_codes_are_stable() {
    assert_eq!(TesseraError::UnknownLogin.code(), "unknown_login");
    assert_eq!(TesseraError::Protocol("x".into()).code(), "bad_request");
    // OPAQUE: a wrong-password rejection is an auth failure (401) and MUST stay
    // distinguishable on the wire from a malformed message (400) or an internal fault (500).
    assert_eq!(
        TesseraError::Opaque(ProtocolErrorKind::InvalidLoginError, String::new()).code(),
        "invalid_credentials"
    );
    assert_eq!(
        TesseraError::Opaque(ProtocolErrorKind::SerializationError, String::new()).code(),
        "bad_request"
    );
    assert_eq!(
        TesseraError::Opaque(ProtocolErrorKind::ReflectedValueError, String::new()).code(),
        "bad_request"
    );
    assert_eq!(TesseraError::Io("other error".into()).code(), "internal");
}

#[test]
fn remaining_error_codes() {
    assert_eq!(
        TesseraError::Opaque(ProtocolErrorKind::SizeError, String::new()).code(),
        "bad_request"
    );
    assert_eq!(
        TesseraError::Opaque(ProtocolErrorKind::LibraryError, String::new()).code(),
        "internal"
    );
    assert_eq!(TesseraError::Base64("bad".into()).code(), "bad_request");
    assert_eq!(TesseraError::Internal("x".into()).code(), "internal");
}

#[test]
fn error_messages_name_the_class_and_detail() {
    assert_eq!(TesseraError::UnknownLogin.message(), "unknown login id");
    assert_eq!(TesseraError::Protocol("x".into()).message(), "invalid wire message: x");
    assert_eq!(
        TesseraError::Opaque(ProtocolErrorKind::InvalidLoginError, "Error in validating credentials".into())
            .message(),
        "opaque protocol error: Error in validating credentials"
    );
    assert_eq!(TesseraError::Base64("Invalid padding".into()).message(), "invalid base64 input: Invalid padding");
    assert_eq!(TesseraError::Io("broken pipe".into()).message(), "I/O error: broken pipe");
    assert_eq!(TesseraError::Internal("sealing login state failed".into()).message(), "internal error: sealing login state failed");
}
