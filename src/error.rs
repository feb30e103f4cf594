use vstd::prelude::*;

verus! {

/// The status code carried by an internal failure.
pub const INTERNAL_SERVER_ERROR: u16 = 500;

/// The status code carried by a refused collision.
pub const CONFLICT: u16 = 409;

/// A failure reported to a caller of the service: a status code and a message.
#[derive(Debug)]
pub struct AppError {
    pub error_code: u16,
    pub message: String,
}

impl AppError {
    /// An internal failure (status 500) with the given message.
    pub fn internal_error(message: String) -> (r: AppError)
        ensures
            r.error_code == INTERNAL_SERVER_ERROR,
            r.message@ == message@,
    {
        AppError { error_code: INTERNAL_SERVER_ERROR, message }
    }
}

/// A configuration that the service refuses to start with.
#[derive(PartialEq, Eq, Structural, Debug, Clone, Copy)]
pub enum ConfigError {
    /// The length of the generated codes is zero.
    ZeroLength,
    /// The port to listen on is zero.
    ZeroPort,
}

} // verus!
