//! The ways in which a synchronisation session fails.

use vstd::prelude::*;

verus! {

/// Every failure is fatal for the session in which it occurs. Nothing is
/// retried.
#[derive(Debug, Clone, Copy, PartialEq, Eq)]
pub enum SyncError {
    /// A call to the store came back without a success status.
    Network { status: u16 },
    /// A call to the store got no answer at all.
    Unreachable,
    /// A listing reported a checksum that is not 64 hexadecimal digits.
    ChecksumDecode,
    /// The content of a local file could not be read.
    LocalRead,
    /// The lock sentinel exists and the session was not told to override it.
    LockHeld,
    /// No access key was given, neither directly nor by the environment.
    MissingAccessKey,
}

impl SyncError {
    /// A sentence that tells the failure to a reader.
    pub fn summary(&self) -> (text: &'static str)
        ensures
            text@ == (match self {
                SyncError::Network { .. } => "The store answered without success"@,
                SyncError::Unreachable => "The store did not answer"@,
                SyncError::ChecksumDecode => "A listed checksum is malformed"@,
                SyncError::LocalRead => "A local file could not be read"@,
                SyncError::LockHeld => "A dangling lock prevents sync"@,
                SyncError::MissingAccessKey => "No access key was provided"@,
            }),
    {
        match self {
            SyncError::Network { .. } => "The store answered without success",
            SyncError::Unreachable => "The store did not answer",
            SyncError::ChecksumDecode => "A listed checksum is malformed",
            SyncError::LocalRead => "A local file could not be read",
            SyncError::LockHeld => "A dangling lock prevents sync",
            SyncError::MissingAccessKey => "No access key was provided",
        }
    }

    /// Whether the failure belongs to the network: the store did not answer,
    /// or answered without success.
    pub open spec fn is_network(&self) -> bool {
        self is Network || self is Unreachable
    }
}

} // verus!
