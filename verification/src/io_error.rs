//! `std::io::Error` as it appears in the error types of this crate.

use vstd::prelude::*;

verus! {

#[verifier::external_type_specification]
#[verifier::external_body]
pub struct ExIoError(std::io::Error);

/// Calls `std::io::Error::new(ErrorKind::UnexpectedEof, message)`.
/// Nothing is stated of the error value: its kind and message are not
/// visible to the contracts that use it.
#[verifier::external_body]
pub(crate) fn unexpected_eof(message: &str) -> std::io::Error {
    std::io::Error::new(std::io::ErrorKind::UnexpectedEof, message.to_string())
}

/// Calls `std::io::Error::new(ErrorKind::InvalidInput, message)`.
/// Nothing is stated of the error value: its kind and message are not
/// visible to the contracts that use it.
#[verifier::external_body]
pub(crate) fn invalid_input(message: &str) -> std::io::Error {
    std::io::Error::new(std::io::ErrorKind::InvalidInput, message.to_string())
}

/// Calls `std::io::Error::new(ErrorKind::InvalidData, message)`.
/// Nothing is stated of the error value: its kind and message are not
/// visible to the contracts that use it.
#[verifier::external_body]
pub(crate) fn invalid_data(message: String) -> std::io::Error {
    std::io::Error::new(std::io::ErrorKind::InvalidData, message)
}

/// Calls `ToString::to_string` on an I/O error: the text its `Display`
/// impl writes. Nothing is stated of the text: the error value is opaque
/// to the contracts, and an OS error's text comes from the system.
#[verifier::external_body]
pub(crate) fn io_error_text(e: &std::io::Error) -> String {
    e.to_string()
}

} // verus!
