//! Errors that the library's own logic reports.
use vstd::prelude::*;

verus! {

/// An error of the analyzer. Failures of the HTTP client and of the database
/// belong to the program around the library; the message of an I/O or JSON
/// failure met while decoding telemetry is carried as text.
#[derive(Debug, Clone, PartialEq, Eq)]
pub enum AnalyzerError {
    ApiStatus { status: u16, message: String },
    Json(String),
    Io(String),
    InvalidTelemetry(String),
    InvalidConfiguration(String),
    MissingTelemetry(String),
    Cancelled,
    Task(String),
}

/// `Err(InvalidConfiguration(message))` with the given message text.
pub open spec fn is_configuration_error<T>(r: Result<T, AnalyzerError>, message: Seq<char>) -> bool {
    r matches Err(AnalyzerError::InvalidConfiguration(m)) && m@ == message
}

/// `Err(InvalidTelemetry(message))` with the given message text.
pub open spec fn is_telemetry_error<T>(r: Result<T, AnalyzerError>, message: Seq<char>) -> bool {
    r matches Err(AnalyzerError::InvalidTelemetry(m)) && m@ == message
}

} // verus!
