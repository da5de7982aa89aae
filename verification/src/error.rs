//! The engine's error kinds.
use vstd::prelude::*;

verus! {

/// The ways in which the engine can fail.
///
/// A log that was never written is no failure: it is reported as `None`.
#[derive(Clone, Copy, Debug, PartialEq, Eq, Structural)]
pub enum EngineError {
    /// A stored log or session marker exists but is not the encoding of any value.
    CorruptLog,
    /// An operation points outside the text it is applied to.
    OutOfRange,
    /// The repository or the storage could not be read or written.
    Io,
    /// Two writers tried to open a session at once. Never returned while
    /// writes are serialised by the caller.
    SessionConflict,
}

impl EngineError {
    /// A short sentence for the error, for messages.
    pub fn message(&self) -> (text: &'static str)
        ensures
            text@ == match *self {
                EngineError::CorruptLog => "stored data exists but cannot be decoded"@,
                EngineError::OutOfRange => "operation lies outside the text"@,
                EngineError::Io => "storage or repository access failed"@,
                EngineError::SessionConflict => "another session is being opened"@,
            },
    {
        match self {
            EngineError::CorruptLog => "stored data exists but cannot be decoded",
            EngineError::OutOfRange => "operation lies outside the text",
            EngineError::Io => "storage or repository access failed",
            EngineError::SessionConflict => "another session is being opened",
        }
    }
}

} // verus!
