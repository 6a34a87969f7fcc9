use crate::serialize::{Serialize, SerializeError};
use vstd::prelude::*;

verus! {

/// Reasons a request is rejected, carried by `Comm::Rejected`. On the wire each is one byte,
/// its ordinal.
#[derive(Clone, Copy, Debug, PartialEq, Eq, Structural)]
pub enum CommError {
    /// Used only during login procedure.
    BadLoginData,
    /// Used when last communication with UserID only failed.
    InvalidUserId,
    /// Used only when changing password.
    InvalidPassword,
    /// Other invalid operation.
    InvalidOperation,
    /// Unknown
    Unknown,
}

impl View for CommError {
    type V = CommError;

    open spec fn view(&self) -> CommError {
        *self
    }
}

impl CommError {
    /// The byte that stands for the error on the wire.
    pub open spec fn ordinal(self) -> u8 {
        match self {
            CommError::BadLoginData => 0,
            CommError::InvalidUserId => 1,
            CommError::InvalidPassword => 2,
            CommError::InvalidOperation => 3,
            CommError::Unknown => 4,
        }
    }

    /// The error that byte `b` stands for; any byte from 5 on stands for none.
    pub open spec fn spec_from_byte(b: u8) -> Result<CommError, SerializeError> {
        if b == 0 {
            Ok(CommError::BadLoginData)
        } else if b == 1 {
            Ok(CommError::InvalidUserId)
        } else if b == 2 {
            Ok(CommError::InvalidPassword)
        } else if b == 3 {
            Ok(CommError::InvalidOperation)
        } else if b == 4 {
            Ok(CommError::Unknown)
        } else {
            Err(SerializeError::UnknownSignature(b))
        }
    }

    pub(crate) fn to_byte(&self) -> (b: u8)
        ensures
            b == self.ordinal(),
    {
        match self {
            CommError::BadLoginData => 0,
            CommError::InvalidUserId => 1,
            CommError::InvalidPassword => 2,
            CommError::InvalidOperation => 3,
            CommError::Unknown => 4,
        }
    }

    pub(crate) fn from_byte(b: u8) -> (r: Result<CommError, SerializeError>)
        ensures
            r == CommError::spec_from_byte(b),
    {
        match b {
            0 => Ok(CommError::BadLoginData),
            1 => Ok(CommError::InvalidUserId),
            2 => Ok(CommError::InvalidPassword),
            3 => Ok(CommError::InvalidOperation),
            4 => Ok(CommError::Unknown),
            sig => Err(SerializeError::UnknownSignature(sig)),
        }
    }

    /// Every error is read back from the byte it is written as.
    pub proof fn lemma_round_trip(e: CommError)
        ensures
            CommError::spec_from_byte(e.ordinal()) == Ok::<CommError, SerializeError>(e),
    {
    }
}

impl Serialize for CommError {
    open spec fn fits(v: CommError) -> bool {
        true
    }

    open spec fn wire_len(v: CommError) -> nat {
        1
    }

    open spec fn is_wire_form(v: CommError, b: Seq<u8>) -> bool {
        b == seq![v.ordinal()]
    }

    open spec fn parse(b: Seq<u8>) -> Result<CommError, SerializeError> {
        if b.len() == 0 {
            Err(SerializeError::NotEnoughData)
        } else {
            CommError::spec_from_byte(b[0])
        }
    }

    /// Writes the error's ordinal to `buffer[0]`.
    fn serialize(&self, buffer: &mut [u8]) -> (r: Result<usize, SerializeError>) {
        if buffer.len() < 1 {
            return Err(SerializeError::NotEnoughData);
        }
        buffer[0] = self.to_byte();
        assert(buffer@.take(1) =~= seq![self.ordinal()]);
        assert(buffer@.skip(1) =~= old(buffer)@.skip(1));
        Ok(1)
    }

    /// Reads the error whose ordinal is `buffer[0]`.
    fn deserialize(buffer: &[u8]) -> (r: Result<CommError, SerializeError>) {
        if buffer.len() < 1 {
            Err(SerializeError::NotEnoughData)
        } else {
            CommError::from_byte(buffer[0])
        }
    }
}

} // verus!
