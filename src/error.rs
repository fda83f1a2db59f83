use vstd::prelude::*;

verus! {

/// Status code carried by every error that the relay raises itself.
pub const INTERNAL_SERVER_ERROR: u16 = 500;

/// What kind of failure an error reports.
#[derive(Debug, Clone, Copy, PartialEq, Eq, Structural)]
pub enum ErrorKind {
    /// The record store failed.
    Storage,
    /// A setting cannot be used, such as a cron expression that does not
    /// parse.
    Configuration,
}

/// Error raised by the relay: its kind, a cause (what went wrong below) and a
/// message (what the relay was doing).
#[derive(Debug)]
pub struct OutboxPatternProcessorError {
    pub kind: ErrorKind,
    pub status_code: u16,
    pub cause: String,
    pub message: Option<String>,
}

impl OutboxPatternProcessorError {
    /// A storage error.
    pub fn new(cause: &str, message: &str) -> (r: Self)
        ensures
            r.kind == ErrorKind::Storage,
            r.status_code == INTERNAL_SERVER_ERROR,
            r.cause@ == cause@,
            r.message matches Some(m) && m@ == message@,
    {
        OutboxPatternProcessorError {
            kind: ErrorKind::Storage,
            status_code: INTERNAL_SERVER_ERROR,
            cause: String::from_str(cause),
            message: Some(String::from_str(message)),
        }
    }

    /// A configuration error.
    pub fn configuration(cause: &str, message: &str) -> (r: Self)
        ensures
            r.kind == ErrorKind::Configuration,
            r.status_code == INTERNAL_SERVER_ERROR,
            r.cause@ == cause@,
            r.message matches Some(m) && m@ == message@,
    {
        OutboxPatternProcessorError {
            kind: ErrorKind::Configuration,
            status_code: INTERNAL_SERVER_ERROR,
            cause: String::from_str(cause),
            message: Some(String::from_str(message)),
        }
    }

    /// The text shown for this error: its cause.
    pub fn to_string(&self) -> (r: String)
        ensures
            r@ == self.cause@,
    {
        self.cause.clone()
    }
}

/// Error of the relay's process surface (configuration and start-up):
/// same shape as the processor's error.
#[derive(Debug)]
pub struct AppError {
    pub status_code: u16,
    pub cause: String,
    pub message: Option<String>,
}

impl AppError {
    pub fn new(cause: &str, message: &str) -> (r: Self)
        ensures
            r.status_code == INTERNAL_SERVER_ERROR,
            r.cause@ == cause@,
            r.message matches Some(m) && m@ == message@,
    {
        AppError {
            status_code: INTERNAL_SERVER_ERROR,
            cause: String::from_str(cause),
            message: Some(String::from_str(message)),
        }
    }

    /// The text shown for this error: its cause.
    pub fn to_string(&self) -> (r: String)
        ensures
            r@ == self.cause@,
    {
        self.cause.clone()
    }
}

} // verus!
