use crate::serialize::SerializeError;
use vstd::prelude::*;

verus! {

/// Errors that can occur while an account is written into or read from a buffer. They are not
/// transmitted between client and server.
#[derive(Clone, Copy, Debug, PartialEq, Eq, Structural)]
pub enum CommParseError {
    /// A byte that was read is outside the values its field can take.
    UnknownSignature(u8),
    /// The buffer is too small for the data to be written or read.
    NotEnoughData,
    /// The value cannot be written within its reserved regions.
    EncodeOverflow,
    /// An identifier is listed both as a friend and as an invitation.
    ConflictingContacts,
}

impl CommParseError {
    /// The variant of the same name.
    pub open spec fn spec_from(e: SerializeError) -> CommParseError {
        match e {
            SerializeError::UnknownSignature(b) => CommParseError::UnknownSignature(b),
            SerializeError::NotEnoughData => CommParseError::NotEnoughData,
            SerializeError::EncodeOverflow => CommParseError::EncodeOverflow,
            SerializeError::ConflictingContacts => CommParseError::ConflictingContacts,
        }
    }
}

impl From<SerializeError> for CommParseError {
    fn from(e: SerializeError) -> CommParseError {
        match e {
            SerializeError::UnknownSignature(b) => CommParseError::UnknownSignature(b),
            SerializeError::NotEnoughData => CommParseError::NotEnoughData,
            SerializeError::EncodeOverflow => CommParseError::EncodeOverflow,
            SerializeError::ConflictingContacts => CommParseError::ConflictingContacts,
        }
    }
}

impl vstd::std_specs::convert::FromSpecImpl<SerializeError> for CommParseError {
    open spec fn obeys_from_spec() -> bool {
        true
    }

    open spec fn from_spec(e: SerializeError) -> CommParseError {
        CommParseError::spec_from(e)
    }
}

} // verus!
