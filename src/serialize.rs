//! The contract that every value travelling between client and server keeps: it writes itself
//! into a byte buffer and is read back from one.
use vstd::prelude::*;

verus! {

/// Errors that can occur while a value is written into or read from a buffer. They are not
/// transmitted between client and server.
#[derive(Clone, Copy, Debug, PartialEq, Eq, Structural)]
pub enum SerializeError {
    /// A byte that was read is outside the values its field can take (a tag or an ordinal).
    UnknownSignature(u8),
    /// The buffer is too small for the data to be written or read.
    NotEnoughData,
    /// The value cannot be written within its reserved regions: a text that is longer than its
    /// region or holds a zero byte, or a contact list of more than 255 identifiers.
    EncodeOverflow,
    /// An account read from the buffer lists an identifier both as a friend and as an invitation.
    ConflictingContacts,
}

/// A value with a byte layout of its own.
///
/// `fits` says whether a value can be written at all; `wire_len` is the number of bytes it
/// takes; `is_wire_form` says which byte sequences are its encoding (where a layout leaves an
/// order open there are several); `parse` says what reading a buffer yields.
pub trait Serialize: Sized + View {
    spec fn fits(v: Self::V) -> bool;

    spec fn wire_len(v: Self::V) -> nat;

    spec fn is_wire_form(v: Self::V, b: Seq<u8>) -> bool;

    spec fn parse(b: Seq<u8>) -> Result<Self::V, SerializeError>;

    /// Writes the value to the start of `buffer` and returns the number of bytes written. On
    /// failure nothing is written: `EncodeOverflow` where the value cannot be written at all,
    /// else `NotEnoughData` where the buffer is too small.
    fn serialize(&self, buffer: &mut [u8]) -> (r: Result<usize, SerializeError>)
        ensures
            final(buffer)@.len() == old(buffer)@.len(),
            r is Ok <==> Self::fits(self@) && Self::wire_len(self@) <= old(buffer)@.len(),
            match r {
                Ok(n) => {
                    &&& n == Self::wire_len(self@)
                    &&& Self::is_wire_form(self@, final(buffer)@.take(n as int))
                    &&& final(buffer)@.skip(n as int) == old(buffer)@.skip(n as int)
                },
                Err(e) => {
                    &&& final(buffer)@ == old(buffer)@
                    &&& e == if Self::fits(self@) {
                        SerializeError::NotEnoughData
                    } else {
                        SerializeError::EncodeOverflow
                    }
                },
            },
    ;

    /// Reads a value from the start of `buffer`.
    fn deserialize(buffer: &[u8]) -> (r: Result<Self, SerializeError>)
        ensures
            Self::parse(buffer@) == match r {
                Ok(x) => Ok(x@),
                Err(e) => Err::<Self::V, SerializeError>(e),
            },
    ;
}

} // verus!
