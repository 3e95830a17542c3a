//! The ways in which a review can fail.

use vstd::prelude::*;

verus! {

/// Why `mutate` gave no response.
#[derive(Debug, Clone, Copy, PartialEq, Eq, Structural)]
pub enum MutateError {
    /// The review carries no request.
    Protocol,
    /// The Pod cannot be written as the patched document: its affinity tree
    /// has no place for a required term, or the patch could not be written
    /// as text.
    Serialization,
}

impl MutateError {
    /// The text that is reported for the error.
    pub fn message(&self) -> (text: String)
        ensures
            text@ == match *self {
                MutateError::Protocol => "No request in AdmissionReview found!"@,
                MutateError::Serialization => "Cannot serialize patch"@,
            },
    {
        match self {
            MutateError::Protocol => "No request in AdmissionReview found!".to_owned(),
            MutateError::Serialization => "Cannot serialize patch".to_owned(),
        }
    }
}

} // verus!
