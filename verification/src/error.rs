//! The error taxonomy of every fallible Tessera operation, with its stable
//! wire codes.

use vstd::prelude::*;

verus! {

/// The class of an OPAQUE protocol failure, one per variant of the OPAQUE
/// library's protocol error.
#[derive(Clone, Copy, PartialEq, Eq, Debug)]
pub enum ProtocolErrorKind {
    /// An internal cryptographic fault inside the OPAQUE library.
    LibraryError,
    /// The credential check failed: the wrong password was proved.
    InvalidLoginError,
    /// A protocol message could not be (de)serialized.
    SerializationError,
    /// A protocol value had the wrong length.
    SizeError,
    /// The server reflected the client's OPRF value.
    ReflectedValueError,
}

/// All fallible Tessera operations return this error. Each variant carries
/// the human-readable detail of its cause.
#[derive(Debug)]
pub enum TesseraError {
    /// An OPAQUE protocol failure: its class and the library's own message.
    Opaque(ProtocolErrorKind, String),
    /// Input that is not valid base64, with the decoder's message.
    Base64(String),
    /// A malformed wire message.
    Protocol(String),
    /// An I/O failure, with its message.
    Io(String),
    /// A login id that names no live login.
    UnknownLogin,
    /// An internal fault that is not the caller's doing.
    Internal(String),
}

/// The stable wire code of an error: what a client branches on.
pub open spec fn spec_code(e: TesseraError) -> Seq<char> {
    match e {
        TesseraError::UnknownLogin => "unknown_login"@,
        TesseraError::Base64(_) => "bad_request"@,
        TesseraError::Protocol(_) => "bad_request"@,
        TesseraError::Opaque(kind, _) => match kind {
            ProtocolErrorKind::InvalidLoginError => "invalid_credentials"@,
            ProtocolErrorKind::SerializationError => "bad_request"@,
            ProtocolErrorKind::SizeError => "bad_request"@,
            ProtocolErrorKind::ReflectedValueError => "bad_request"@,
            ProtocolErrorKind::LibraryError => "internal"@,
        },
        TesseraError::Io(_) => "internal"@,
        TesseraError::Internal(_) => "internal"@,
    }
}

/// The human-readable message of an error: a fixed prefix naming the class,
/// followed by the carried detail.
pub open spec fn spec_message(e: TesseraError) -> Seq<char> {
    match e {
        TesseraError::Opaque(_, d) => "opaque protocol error: "@ + d@,
        TesseraError::Base64(d) => "invalid base64 input: "@ + d@,
        TesseraError::Protocol(d) => "invalid wire message: "@ + d@,
        TesseraError::Io(d) => "I/O error: "@ + d@,
        TesseraError::UnknownLogin => "unknown login id"@,
        TesseraError::Internal(d) => "internal error: "@ + d@,
    }
}

/// The wire code of an OPAQUE error depends on its kind alone, never on its
/// detail text; a failed credential check, and nothing else, is
/// `invalid_credentials`; and every error has one of the four stable codes.
pub proof fn lemma_code_by_class(e: TesseraError, kind: ProtocolErrorKind, d1: String, d2: String)
    ensures
        spec_code(TesseraError::Opaque(kind, d1)) == spec_code(TesseraError::Opaque(kind, d2)),
        spec_code(TesseraError::Opaque(ProtocolErrorKind::InvalidLoginError, d1)) == "invalid_credentials"@,
        spec_code(e) == "invalid_credentials"@ <==> (e matches TesseraError::Opaque(k, _) && k
            == ProtocolErrorKind::InvalidLoginError),
        spec_code(e) == "bad_request"@ || spec_code(e) == "invalid_credentials"@ || spec_code(e)
            == "unknown_login"@ || spec_code(e) == "internal"@,
        spec_code(e) == "unknown_login"@ <==> e is UnknownLogin,
{
    reveal_strlit("invalid_credentials");
    reveal_strlit("bad_request");
    reveal_strlit("unknown_login");
    reveal_strlit("internal");
    assert("invalid_credentials"@.len() == 19);
    assert("bad_request"@.len() == 11);
    assert("unknown_login"@.len() == 13);
    assert("internal"@.len() == 8);
}

impl TesseraError {
    /// Stable error code for the wire protocol. Lets clients branch on error
    /// class (e.g. HTTP 401 vs 400 vs 500) without matching on human-readable
    /// messages, which are not a stable contract. A failed credential check is
    /// an authentication failure distinct from a malformed or tampered message
    /// and from an internal crypto fault.
    pub fn code(&self) -> (r: &'static str)
        ensures
            r@ == spec_code(*self),
    {
        match self {
            TesseraError::UnknownLogin => "unknown_login",
            TesseraError::Base64(_) => "bad_request",
            TesseraError::Protocol(_) => "bad_request",
            TesseraError::Opaque(kind, _) => match kind {
                ProtocolErrorKind::InvalidLoginError => "invalid_credentials",
                ProtocolErrorKind::SerializationError => "bad_request",
                ProtocolErrorKind::SizeError => "bad_request",
                ProtocolErrorKind::ReflectedValueError => "bad_request",
                ProtocolErrorKind::LibraryError => "internal",
            },
            TesseraError::Io(_) => "internal",
            TesseraError::Internal(_) => "internal",
        }
    }

    /// The human-readable message of this error (what the error displays as).
    pub fn message(&self) -> (r: String)
        ensures
            r@ == spec_message(*self),
    {
        match self {
            TesseraError::Opaque(_, d) => String::from_str("opaque protocol error: ").concat(d.as_str()),
            TesseraError::Base64(d) => String::from_str("invalid base64 input: ").concat(d.as_str()),
            TesseraError::Protocol(d) => String::from_str("invalid wire message: ").concat(d.as_str()),
            TesseraError::Io(d) => String::from_str("I/O error: ").concat(d.as_str()),
            TesseraError::UnknownLogin => String::from_str("unknown login id"),
            TesseraError::Internal(d) => String::from_str("internal error: ").concat(d.as_str()),
        }
    }
}

} // verus!
