//! Data types, constants and byte codecs shared by the chat client and the chat server.
//!
//! Every value that travels between the two is an envelope ([`Comm`]): one tag byte followed by
//! a payload whose layout depends on the tag. Integers travel as little-endian bytes, texts in
//! fixed regions padded with zero bytes.
use vstd::prelude::*;

mod comm;
mod message;
mod serialize;
mod user;
pub mod wire;

pub use comm::{Comm, CommError, CommParseError, CommView};
pub use message::{Message, MessageView};
pub use serialize::{Serialize, SerializeError};
pub use user::{User, UserView};

verus! {

/// Identifier of an account, assigned by the server at first contact.
pub type UserID = u64;

/// Size in bytes of a `UserID` on the wire.
pub const USER_ID_SIZE: usize = 8;

/// Port used for communication between client and server.
pub const COMM_PORT: u16 = 7878;

/// Size of the network buffer in bytes: the largest envelope on the wire.
pub const NET_BUFF_SIZE: usize = 512;

/// Minimum password length in characters, not bytes.
pub const MIN_PASS_CHAR_LEN: usize = 4;

/// Size in bytes of the region that holds a password on the wire. The UTF-8 form of a password
/// must fit in it.
pub const MAX_PASS_BYTE_LEN: usize = 30;

/// Maximum message length in bytes, not characters.
pub const MAX_MESSAGE_BYTE_LEN: usize = 128;

/// Returns the `UserID` held in the first `USER_ID_SIZE` bytes of `bytes`, little-endian.
pub fn parse_id_from_bytes(bytes: &[u8]) -> (id: UserID)
    requires
        bytes@.len() >= USER_ID_SIZE,
    ensures
        id == wire::u64_at(bytes@, 0),
{
    wire::read_u64(bytes, 0)
}

/// Returns the text held in `bytes`: the bytes before the first zero byte (all of them where there
/// is none), read as UTF-8. Where those bytes are not UTF-8 the result is empty.
pub fn parse_string_from_bytes(bytes: &[u8]) -> (s: &str)
    ensures
        s@ == wire::text_of(bytes@),
{
    let end = wire::find_text_end(bytes, 0, bytes.len());
    let head = vstd::slice::slice_subrange(bytes, 0, end);
    proof {
        assert(bytes@.subrange(0, bytes@.len() as int) =~= bytes@);
        assert(head@ =~= bytes@.take(wire::text_end(bytes@)));
    }
    match wire::str_from_utf8(head) {
        Some(s) => s,
        None => {
            proof {
                reveal_strlit("");
            }
            ""
        },
    }
}

/// Copies `bytes` to the start of `buffer` and returns the number of bytes written. The rest of
/// `buffer` is left as it was.
pub fn write_bytes_to_buffer(buffer: &mut [u8], bytes: &[u8]) -> (n: usize)
    requires
        bytes@.len() <= old(buffer)@.len(),
    ensures
        n == bytes@.len(),
        final(buffer)@ == bytes@ + old(buffer)@.skip(bytes@.len() as int),
{
    let len = buffer.len();
    let mut index: usize = 0;
    while index < bytes.len()
        invariant
            index <= bytes@.len() <= buffer@.len() == len == old(buffer)@.len(),
            forall|j: int|
                0 <= j < len ==> #[trigger] buffer@[j] == if j < index {
                    bytes@[j]
                } else {
                    old(buffer)@[j]
                },
        decreases bytes@.len() - index,
    {
        buffer[index] = bytes[index];
        index = index + 1;
    }
    assert(buffer@ =~= bytes@ + old(buffer)@.skip(bytes@.len() as int));
    index
}

} // verus!
