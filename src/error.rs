//! Failures that the supervisor's commands report.
use vstd::prelude::*;

verus! {

/// Kinds of failure of a lifecycle command.
#[derive(Clone, Copy, Debug, PartialEq, Eq, Structural)]
pub enum WorkerError {
    /// A command line that cannot be split into words, or holds none.
    InvalidCommand,
    /// The state or log directory could not be read or written.
    IoError,
    /// A state record whose name or content cannot be read.
    CorruptState,
    /// The operating system could not start the job's program.
    SpawnFailed,
    /// A signal was refused.
    PermissionDenied,
    /// A signal went to a process that no longer exists.
    NoSuchProcess,
}

impl WorkerError {
    /// A short human-readable description.
    pub fn message(&self) -> (r: &'static str) {
        match self {
            WorkerError::InvalidCommand => "invalid command",
            WorkerError::IoError => "I/O error on the state or log directory",
            WorkerError::CorruptState => "corrupt state record",
            WorkerError::SpawnFailed => "could not start the process",
            WorkerError::PermissionDenied => "permission denied",
            WorkerError::NoSuchProcess => "no such process",
        }
    }
}

} // verus!
