//! Tessera — the verified core of a zero-knowledge identity service built on
//! OPAQUE (RFC 9807): the sidecar wire format, the error taxonomy, the blind
//! index, the sealed login state, the table of in-flight logins and the
//! sidecar's request engine.

pub mod blind_index;
pub mod crypto;
pub mod encoding;
pub mod error;
pub mod login_state;
pub mod login_store;
pub mod protocol;
pub mod sidecar;

pub use error::TesseraError;
