//! The ways in which an operation of the history can fail.

use vstd::prelude::*;
use vstd::string::*;

verus! {

/// Why an operation did not go through.
#[derive(Clone, Copy, Debug, PartialEq, Eq, Structural)]
pub enum CrlError {
    /// The clipboard of the system could not be read or written.
    ClipboardUnavailable,
    /// The history could not be opened, read or extended.
    StorageUnavailable,
    /// An entry id that is no whole number.
    InvalidId,
    /// A command argument of the wrong shape.
    InvalidArgument,
    /// The daemon could not be detached for want of rights.
    PermissionDenied,
    /// The daemon could not be detached for another reason.
    DetachFailed,
}

impl CrlError {
    /// The text of `message`.
    pub open spec fn spec_message(self) -> Seq<char> {
        match self {
            CrlError::ClipboardUnavailable => "the clipboard is not available."@,
            CrlError::StorageUnavailable => "the crl history is not available."@,
            CrlError::InvalidId => "the id needs to be a whole number."@,
            CrlError::InvalidArgument => "limit argument needs to be a whole number."@,
            CrlError::PermissionDenied => "not permitted to start the daemon. run 'sudo crl start'."@,
            CrlError::DetachFailed => "the daemon could not be started."@,
        }
    }

    /// What to tell the user about this failure.
    pub fn message(&self) -> (r: String)
        ensures
            r@ == self.spec_message(),
    {
        match self {
            CrlError::ClipboardUnavailable => String::from_str("the clipboard is not available."),
            CrlError::StorageUnavailable => String::from_str("the crl history is not available."),
            CrlError::InvalidId => String::from_str("the id needs to be a whole number."),
            CrlError::InvalidArgument => String::from_str(
                "limit argument needs to be a whole number.",
            ),
            CrlError::PermissionDenied => String::from_str(
                "not permitted to start the daemon. run 'sudo crl start'.",
            ),
            CrlError::DetachFailed => String::from_str("the daemon could not be started."),
        }
    }
}

} // verus!
