//! Error taxonomy of the library.
//!
//! `Error` covers configuration, provider and service failures as surfaced to
//! a front end. `SupervisionError` covers the structured failures of the
//! supervision core: every rejected operation names the kind of rejection, so
//! callers can distinguish an operation rejected outright from an agent that
//! failed asynchronously.

use vstd::prelude::*;

verus! {

/// Application-level error.
#[derive(Debug)]
pub enum Error {
    /// Configuration errors
    Config(String),
    /// Provider errors (API calls, network, and the like)
    Provider(String),
    /// Service container errors
    Service(String),
    /// IO errors, carried as their message text
    Io(String),
    /// Other errors
    Other(String),
}

/// The display text of an `Error`.
pub open spec fn spec_error_message(e: Error) -> Seq<char> {
    match e {
        Error::Config(m) => "Configuration error: "@ + m@,
        Error::Provider(m) => "Provider error: "@ + m@,
        Error::Service(m) => "Service error: "@ + m@,
        Error::Io(m) => "IO error: "@ + m@,
        Error::Other(m) => "Error: "@ + m@,
    }
}

impl Error {
    /// The human-readable message, as the front end shows it.
    pub fn message(&self) -> (r: String)
        ensures
            r@ == spec_error_message(*self),
    {
        match self {
            Error::Config(m) => String::from_str("Configuration error: ").concat(m.as_str()),
            Error::Provider(m) => String::from_str("Provider error: ").concat(m.as_str()),
            Error::Service(m) => String::from_str("Service error: ").concat(m.as_str()),
            Error::Io(m) => String::from_str("IO error: ").concat(m.as_str()),
            Error::Other(m) => String::from_str("Error: ").concat(m.as_str()),
        }
    }

    /// The message of the underlying error, for errors that wrap one.
    pub fn source(&self) -> (r: Option<String>)
        ensures
            r is Some <==> self is Io,
            self matches Error::Io(m) ==> r matches Some(v) && v@ == m@,
    {
        match self {
            Error::Io(m) => Some(m.clone()),
            _ => None,
        }
    }

    /// Wraps an IO error, keeping its message text.
    pub fn from_io(e: std::io::Error) -> (r: Error)
        ensures
            r is Io,
    {
        Error::Io(io_error_message(&e))
    }
}

#[verifier::external_type_specification]
#[verifier::external_body]
pub struct ExIoError(std::io::Error);

/// Relies on std::io::Error's Display implementation for the message text.
#[verifier::external_body]
fn io_error_message(e: &std::io::Error) -> (r: String) {
    format!("{}", e)
}

/// Structured failure of a supervision operation.
#[derive(Debug)]
pub enum SupervisionError {
    /// An agent or supervisor with this identity is already registered.
    AlreadyExists(String),
    /// No agent or supervisor with this identity is registered.
    NotFound(String),
    /// The agent exists but has no live execution handle.
    NotRunning(String),
    /// The requested persona is not known.
    InvalidPersona(String),
    /// The sandboxed command failed or could not be started.
    SandboxFailure(String),
    /// A checkpoint tag did not resolve to a stored snapshot.
    CheckpointNotFound(String),
    /// A supervisor failed to answer a health check.
    Unresponsive(String),
}

/// The display text of a `SupervisionError`.
pub open spec fn spec_supervision_message(e: SupervisionError) -> Seq<char> {
    match e {
        SupervisionError::AlreadyExists(m) => "already exists: "@ + m@,
        SupervisionError::NotFound(m) => "not found: "@ + m@,
        SupervisionError::NotRunning(m) => "not running: "@ + m@,
        SupervisionError::InvalidPersona(m) => "invalid persona: "@ + m@,
        SupervisionError::SandboxFailure(m) => "sandbox failure: "@ + m@,
        SupervisionError::CheckpointNotFound(m) => "checkpoint not found: "@ + m@,
        SupervisionError::Unresponsive(m) => "unresponsive: "@ + m@,
    }
}

impl SupervisionError {
    /// The human-readable message, for display by a front end.
    pub fn message(&self) -> (r: String)
        ensures
            r@ == spec_supervision_message(*self),
    {
        match self {
            SupervisionError::AlreadyExists(m) => String::from_str("already exists: ").concat(
                m.as_str(),
            ),
            SupervisionError::NotFound(m) => String::from_str("not found: ").concat(m.as_str()),
            SupervisionError::NotRunning(m) => String::from_str("not running: ").concat(m.as_str()),
            SupervisionError::InvalidPersona(m) => String::from_str("invalid persona: ").concat(
                m.as_str(),
            ),
            SupervisionError::SandboxFailure(m) => String::from_str("sandbox failure: ").concat(
                m.as_str(),
            ),
            SupervisionError::CheckpointNotFound(m) => String::from_str(
                "checkpoint not found: ",
            ).concat(m.as_str()),
            SupervisionError::Unresponsive(m) => String::from_str("unresponsive: ").concat(
                m.as_str(),
            ),
        }
    }
}

} // verus!
