//! Errors returned by channel operations.

use vstd::prelude::*;

verus! {

/// Errors returned by channel operations.
#[derive(Debug)]
pub enum ZeroChannelError {
    /// Invalid parameters, or a segment header that does not match them.
    InvalidArgument(String),
    /// The operating system refused to create, open or map a segment.
    OsError(String),
    /// No slot is currently available: every ring slot is held by a reader.
    Busy(String),
    /// An exclusive role on the channel is already held by a live process.
    ///
    /// Distinct from `Busy`: `Busy` is transient and worth retrying, whereas a
    /// role conflict persists until the holder exits.
    RoleConflict(String),
}

impl ZeroChannelError {
    /// The text carried by the error.
    pub open spec fn text(&self) -> Seq<char> {
        match self {
            ZeroChannelError::InvalidArgument(msg) => msg@,
            ZeroChannelError::OsError(msg) => msg@,
            ZeroChannelError::Busy(msg) => msg@,
            ZeroChannelError::RoleConflict(msg) => msg@,
        }
    }

    /// The human-readable form of the error: its text, with nothing added.
    pub fn message(&self) -> (msg: String)
        ensures
            msg@ == self.text(),
    {
        match self {
            ZeroChannelError::InvalidArgument(msg) => msg.clone(),
            ZeroChannelError::OsError(msg) => msg.clone(),
            ZeroChannelError::Busy(msg) => msg.clone(),
            ZeroChannelError::RoleConflict(msg) => msg.clone(),
        }
    }
}

} // verus!
