//! The error type shared by all parts of the library.
use vstd::prelude::*;
use crate::at::{AtResultCode, AtValue};
use crate::pdu::MessageEncoding;

verus! {

/// Errors raised by this library.
#[derive(Debug, PartialEq, Eq)]
pub enum HuaweiError {
    /// The task that owns the modem connection is gone.
    FutureDied,
    /// The modem finished a command with a status other than `OK`.
    AtError(AtResultCode),
    /// Data from the modem did not follow the response grammar.
    ParseError,
    /// An information response with this name was expected but not given.
    ExpectedResponse(String),
    /// A value from the modem was of another kind than expected.
    TypeMismatch,
    /// A value from the modem was outside the range of the expected type.
    ValueOutOfRange(AtValue),
    /// A PDU could not be read, for the reason given.
    InvalidPdu(&'static str),
    /// User data in an encoding that cannot be decoded; the raw bytes are kept.
    UnsupportedEncoding(MessageEncoding, Vec<u8>),
}

/// Result type of this library.
pub type HuaweiResult<T> = Result<T, HuaweiError>;

} // verus!
