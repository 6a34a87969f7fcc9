//! The envelope exchanged between client and server, and its codec: one tag byte, then a
//! payload whose layout the tag decides.
mod comm_error;
mod comm_parse_error;

pub use comm_error::CommError;
pub use comm_parse_error::CommParseError;

use crate::message::{message_bytes, parse_message, Message, MessageView};
use crate::serialize::{Serialize, SerializeError};
use crate::user::{parse_account, User, UserView};
use crate::wire::{
    lemma_padded_text, lemma_u64_bytes, padded_text, put_front, read_text, read_u64, text_fits,
    text_fits_in, text_of, text_region, u64_at, u64_bytes,
};
use crate::{UserID, MAX_PASS_BYTE_LEN};
use vstd::bytes::u64_to_le_bytes;
use vstd::prelude::*;

verus! {

/// Communication interface between the client and the server.
#[derive(Debug, PartialEq)]
pub enum Comm {
    /// Sent by the server to every newly connected client that has not logged in: the ID
    /// reserved for it, should it want to create an account.
    Connected(UserID),
    /// Sent by the client every time it disconnects from the server.
    Disconnected(UserID),
    /// Sent every time the client wants to authenticate with the server.
    Login {
        /// This is `UserID`.
        id: UserID,
        /// This is `User` password.
        password: String,
    },
    /// Confirms an operation without returning any data.
    Accepted,
    /// Sent by the server when it cannot comply with a request.
    Rejected(CommError),
    /// Sent to the client after a successful login. A client never sends it: the server
    /// rejects it.
    User(User),
    /// Changes the password on the server, which answers `Accepted`, or
    /// `Rejected(CommError::InvalidPassword)`.
    ChangePassword {
        /// New `User` password.
        new_password: String,
        /// Current `User` password.
        old_password: String,
    },
    /// A message for another user. The server keeps it until the receiver acknowledges it with
    /// `Accepted`, and replays kept messages oldest first.
    Message(Message),
    /// Invites a user; sent by a logged-in client.
    AddInvitation(UserID),
    /// Withdraws an invitation; sent by a logged-in client.
    RemoveInvitation(UserID),
    /// Accepts an invitation; sent by a logged-in client.
    AddFriend(UserID),
    /// Removes a friend; sent by a logged-in client.
    RemoveFriend(UserID),
}

/// What a `Comm` holds, as mathematical values.
pub enum CommView {
    Connected(UserID),
    Disconnected(UserID),
    Login { id: UserID, password: Seq<char> },
    Accepted,
    Rejected(CommError),
    User(UserView),
    ChangePassword { new_password: Seq<char>, old_password: Seq<char> },
    Message(MessageView),
    AddInvitation(UserID),
    RemoveInvitation(UserID),
    AddFriend(UserID),
    RemoveFriend(UserID),
}

impl View for Comm {
    type V = CommView;

    open spec fn view(&self) -> CommView {
        match self {
            Comm::Connected(id) => CommView::Connected(*id),
            Comm::Disconnected(id) => CommView::Disconnected(*id),
            Comm::Login { id, password } => CommView::Login { id: *id, password: password@ },
            Comm::Accepted => CommView::Accepted,
            Comm::Rejected(e) => CommView::Rejected(*e),
            Comm::User(u) => CommView::User(u@),
            Comm::ChangePassword { new_password, old_password } => CommView::ChangePassword {
                new_password: new_password@,
                old_password: old_password@,
            },
            Comm::Message(m) => CommView::Message(m@),
            Comm::AddInvitation(id) => CommView::AddInvitation(*id),
            Comm::RemoveInvitation(id) => CommView::RemoveInvitation(*id),
            Comm::AddFriend(id) => CommView::AddFriend(*id),
            Comm::RemoveFriend(id) => CommView::RemoveFriend(*id),
        }
    }
}

impl CommView {
    /// The tag byte of the variant.
    pub open spec fn tag(self) -> u8 {
        match self {
            CommView::Connected(_) => 0,
            CommView::Disconnected(_) => 1,
            CommView::Login { .. } => 2,
            CommView::Accepted => 3,
            CommView::Rejected(_) => 4,
            CommView::User(_) => 5,
            CommView::ChangePassword { .. } => 6,
            CommView::Message(_) => 7,
            CommView::AddInvitation(_) => 8,
            CommView::RemoveInvitation(_) => 9,
            CommView::AddFriend(_) => 10,
            CommView::RemoveFriend(_) => 11,
        }
    }

    /// `p` is a payload of the envelope: the bytes that follow its tag.
    pub open spec fn is_payload(self, p: Seq<u8>) -> bool {
        match self {
            CommView::Connected(id) => p == u64_bytes(id),
            CommView::Disconnected(id) => p == u64_bytes(id),
            CommView::Login { id, password } => p == u64_bytes(id) + padded_text(
                password,
                MAX_PASS_BYTE_LEN as nat,
            ),
            CommView::Accepted => p == Seq::<u8>::empty(),
            CommView::Rejected(e) => p == seq![e.ordinal()],
            CommView::User(u) => User::is_wire_form(u, p),
            CommView::ChangePassword { new_password, old_password } => p == padded_text(
                new_password,
                MAX_PASS_BYTE_LEN as nat,
            ) + padded_text(old_password, MAX_PASS_BYTE_LEN as nat),
            CommView::Message(m) => p == message_bytes(m),
            CommView::AddInvitation(id) => p == u64_bytes(id),
            CommView::RemoveInvitation(id) => p == u64_bytes(id),
            CommView::AddFriend(id) => p == u64_bytes(id),
            CommView::RemoveFriend(id) => p == u64_bytes(id),
        }
    }

    /// The values that the envelope carries are valid: an account carried in it lists no
    /// identifier both as a friend and as an invitation.
    pub open spec fn valid(self) -> bool {
        match self {
            CommView::User(u) => u.friends.disjoint(u.invitations),
            _ => true,
        }
    }
}

/// The fewest bytes from which an envelope with tag `tag` can be read: the tag and the fixed
/// part of its payload.
pub open spec fn min_wire_len(tag: u8) -> nat {
    if tag == 2 {
        39
    } else if tag == 3 {
        1
    } else if tag == 4 {
        2
    } else if tag == 5 {
        41
    } else if tag == 6 {
        61
    } else if tag == 7 {
        25
    } else {
        9
    }
}

/// What reading the payload `p` of an envelope tagged `tag` yields.
pub open spec fn parse_payload(tag: u8, p: Seq<u8>) -> Result<CommView, SerializeError> {
    if tag == 3 {
        Ok(CommView::Accepted)
    } else if tag == 4 {
        match CommError::parse(p) {
            Ok(e) => Ok(CommView::Rejected(e)),
            Err(e) => Err(e),
        }
    } else if tag == 5 {
        match parse_account(p) {
            Ok(u) => Ok(CommView::User(u)),
            Err(e) => Err(e),
        }
    } else if tag == 7 {
        match parse_message(p) {
            Ok(m) => Ok(CommView::Message(m)),
            Err(e) => Err(e),
        }
    } else if tag == 6 {
        if p.len() < 60 {
            Err(SerializeError::NotEnoughData)
        } else {
            Ok(
                CommView::ChangePassword {
                    new_password: text_of(p.subrange(0, 30)),
                    old_password: text_of(p.subrange(30, 60)),
                },
            )
        }
    } else if tag == 2 {
        if p.len() < 38 {
            Err(SerializeError::NotEnoughData)
        } else {
            Ok(CommView::Login { id: u64_at(p, 0), password: text_of(p.subrange(8, 38)) })
        }
    } else if p.len() < 8 {
        Err(SerializeError::NotEnoughData)
    } else {
        let id = u64_at(p, 0);
        if tag == 0 {
            Ok(CommView::Connected(id))
        } else if tag == 1 {
            Ok(CommView::Disconnected(id))
        } else if tag == 8 {
            Ok(CommView::AddInvitation(id))
        } else if tag == 9 {
            Ok(CommView::RemoveInvitation(id))
        } else if tag == 10 {
            Ok(CommView::AddFriend(id))
        } else {
            Ok(CommView::RemoveFriend(id))
        }
    }
}

/// The tag byte `tag` followed by `payload`.
fn tagged(tag: u8, payload: Vec<u8>) -> (w: Vec<u8>)
    ensures
        w@.len() == 1 + payload@.len(),
        w@[0] == tag,
        w@.skip(1) == payload@,
{
    let mut w: Vec<u8> = Vec::new();
    w.push(tag);
    let mut rest = payload;
    w.append(&mut rest);
    assert(w@.skip(1) =~= payload@);
    w
}

/// Reads the identifier at the start of the payload `p`.
fn id_payload(p: &[u8]) -> (r: Result<UserID, SerializeError>)
    ensures
        match r {
            Ok(id) => p@.len() >= 8 && id == u64_at(p@, 0),
            Err(e) => p@.len() < 8 && e == SerializeError::NotEnoughData,
        },
{
    if p.len() < 8 {
        Err(SerializeError::NotEnoughData)
    } else {
        Ok(read_u64(p, 0))
    }
}

impl Comm {
    /// Whether the envelope can be written.
    fn fits_wire(&self) -> (r: bool)
        ensures
            r == Comm::fits(self@),
    {
        match self {
            Comm::Login { password, .. } => text_fits_in(password.as_str(), MAX_PASS_BYTE_LEN),
            Comm::User(u) => u.fits_wire(),
            Comm::ChangePassword { new_password, old_password } => text_fits_in(
                new_password.as_str(),
                MAX_PASS_BYTE_LEN,
            ) && text_fits_in(old_password.as_str(), MAX_PASS_BYTE_LEN),
            Comm::Message(m) => m.fits_wire(),
            _ => true,
        }
    }

    /// The bytes of the envelope.
    fn wire_bytes(&self) -> (w: Vec<u8>)
        requires
            Comm::fits(self@),
        ensures
            Comm::is_wire_form(self@, w@),
            w@.len() == Comm::wire_len(self@),
    {
        proof {
            lemma_wire_len_of_forms(self@);
        }
        match self {
            Comm::Connected(id) => tagged(0, u64_to_le_bytes(*id)),
            Comm::Disconnected(id) => tagged(1, u64_to_le_bytes(*id)),
            Comm::Login { id, password } => {
                let mut p = u64_to_le_bytes(*id);
                let mut region = text_region(password.as_str(), MAX_PASS_BYTE_LEN);
                p.append(&mut region);
                tagged(2, p)
            },
            Comm::Accepted => tagged(3, Vec::new()),
            Comm::Rejected(e) => {
                let mut p: Vec<u8> = Vec::new();
                p.push(e.to_byte());
                assert(p@ =~= seq![e.ordinal()]);
                tagged(4, p)
            },
            Comm::User(u) => tagged(5, u.wire_bytes()),
            Comm::ChangePassword { new_password, old_password } => {
                let mut p = text_region(new_password.as_str(), MAX_PASS_BYTE_LEN);
                let mut old = text_region(old_password.as_str(), MAX_PASS_BYTE_LEN);
                p.append(&mut old);
                tagged(6, p)
            },
            Comm::Message(m) => tagged(7, m.wire_bytes()),
            Comm::AddInvitation(id) => tagged(8, u64_to_le_bytes(*id)),
            Comm::RemoveInvitation(id) => tagged(9, u64_to_le_bytes(*id)),
            Comm::AddFriend(id) => tagged(10, u64_to_le_bytes(*id)),
            Comm::RemoveFriend(id) => tagged(11, u64_to_le_bytes(*id)),
        }
    }
}

/// Every encoding of an envelope that can be written is `wire_len` bytes long.
proof fn lemma_wire_len_of_forms(v: CommView)
    requires
        Comm::fits(v),
    ensures
        forall|b: Seq<u8>| Comm::is_wire_form(v, b) ==> b.len() == Comm::wire_len(v),
{
    assert forall|b: Seq<u8>| Comm::is_wire_form(v, b) implies b.len() == Comm::wire_len(v) by {
        let p = b.skip(1);
        assert(b =~= seq![b[0]] + p);
        match v {
            CommView::Login { id, password } => {
                lemma_u64_bytes(id);
                lemma_padded_text(password, MAX_PASS_BYTE_LEN as nat, Seq::empty());
            },
            CommView::ChangePassword { new_password, old_password } => {
                lemma_padded_text(new_password, MAX_PASS_BYTE_LEN as nat, Seq::empty());
                lemma_padded_text(old_password, MAX_PASS_BYTE_LEN as nat, Seq::empty());
            },
            CommView::User(u) => {
                User::lemma_wire_form_len(u, p);
            },
            CommView::Connected(id) => lemma_u64_bytes(id),
            CommView::Disconnected(id) => lemma_u64_bytes(id),
            CommView::AddInvitation(id) => lemma_u64_bytes(id),
            CommView::RemoveInvitation(id) => lemma_u64_bytes(id),
            CommView::AddFriend(id) => lemma_u64_bytes(id),
            CommView::RemoveFriend(id) => lemma_u64_bytes(id),
            CommView::Message(m) => {
                lemma_u64_bytes(m.from);
                lemma_u64_bytes(m.to);
                lemma_u64_bytes(m.time);
            },
            _ => {},
        }
    }
}

/// Round trip: an envelope that can be written is read back from any of its encodings,
/// whatever bytes follow it in the buffer.
pub proof fn lemma_round_trip(v: CommView, b: Seq<u8>, rest: Seq<u8>)
    requires
        Comm::fits(v),
        v.valid(),
        Comm::is_wire_form(v, b),
    ensures
        Comm::parse(b + rest) == Ok::<CommView, SerializeError>(v),
{
    let full = b + rest;
    let p = full.skip(1);
    assert(p =~= b.skip(1) + rest);
    match v {
        CommView::Login { id, password } => {
            lemma_u64_bytes(id);
            lemma_padded_text(password, MAX_PASS_BYTE_LEN as nat, rest);
            assert(p.subrange(0, 8) =~= u64_bytes(id));
            assert(p.subrange(8, 38) =~= padded_text(password, MAX_PASS_BYTE_LEN as nat));
        },
        CommView::Rejected(e) => {
            CommError::lemma_round_trip(e);
        },
        CommView::User(u) => {
            User::lemma_round_trip(u, b.skip(1), rest);
        },
        CommView::ChangePassword { new_password, old_password } => {
            lemma_padded_text(new_password, MAX_PASS_BYTE_LEN as nat, Seq::empty());
            lemma_padded_text(old_password, MAX_PASS_BYTE_LEN as nat, Seq::empty());
            assert(p.subrange(0, 30) =~= padded_text(new_password, MAX_PASS_BYTE_LEN as nat));
            assert(p.subrange(30, 60) =~= padded_text(old_password, MAX_PASS_BYTE_LEN as nat));
        },
        CommView::Message(m) => {
            Message::lemma_round_trip(m, rest);
        },
        CommView::Accepted => {},
        CommView::Connected(id) => {
            lemma_u64_bytes(id);
            assert(p.subrange(0, 8) =~= u64_bytes(id));
        },
        CommView::Disconnected(id) => {
            lemma_u64_bytes(id);
            assert(p.subrange(0, 8) =~= u64_bytes(id));
        },
        CommView::AddInvitation(id) => {
            lemma_u64_bytes(id);
            assert(p.subrange(0, 8) =~= u64_bytes(id));
        },
        CommView::RemoveInvitation(id) => {
            lemma_u64_bytes(id);
            assert(p.subrange(0, 8) =~= u64_bytes(id));
        },
        CommView::AddFriend(id) => {
            lemma_u64_bytes(id);
            assert(p.subrange(0, 8) =~= u64_bytes(id));
        },
        CommView::RemoveFriend(id) => {
            lemma_u64_bytes(id);
            assert(p.subrange(0, 8) =~= u64_bytes(id));
        },
    }
}

/// Every tag byte from 12 on is refused as an unknown signature, whatever follows it.
pub proof fn lemma_unknown_tag(b: Seq<u8>)
    requires
        b.len() >= 1,
        b[0] >= 12,
    ensures
        Comm::parse(b) == Err::<CommView, SerializeError>(SerializeError::UnknownSignature(b[0])),
{
}

/// A buffer shorter than the fewest bytes that an envelope of its tag needs is refused with
/// `NotEnoughData`.
pub proof fn lemma_short_buffer(b: Seq<u8>)
    requires
        b.len() == 0 || (b[0] < 12 && b.len() < min_wire_len(b[0])),
    ensures
        Comm::parse(b) == Err::<CommView, SerializeError>(SerializeError::NotEnoughData),
{
}

impl Serialize for Comm {
    /// The texts fit their regions and hold no zero byte, and a carried account or message can
    /// be written.
    open spec fn fits(v: CommView) -> bool {
        match v {
            CommView::Login { password, .. } => text_fits(password, MAX_PASS_BYTE_LEN as nat),
            CommView::User(u) => User::fits(u),
            CommView::ChangePassword { new_password, old_password } => text_fits(
                new_password,
                MAX_PASS_BYTE_LEN as nat,
            ) && text_fits(old_password, MAX_PASS_BYTE_LEN as nat),
            CommView::Message(m) => Message::fits(m),
            _ => true,
        }
    }

    open spec fn wire_len(v: CommView) -> nat {
        match v {
            CommView::Login { .. } => 39,
            CommView::Accepted => 1,
            CommView::Rejected(_) => 2,
            CommView::User(u) => 1 + User::wire_len(u),
            CommView::ChangePassword { .. } => 61,
            CommView::Message(m) => 1 + Message::wire_len(m),
            _ => 9,
        }
    }

    /// The tag byte, then a payload of the envelope.
    open spec fn is_wire_form(v: CommView, b: Seq<u8>) -> bool {
        b.len() >= 1 && b[0] == v.tag() && v.is_payload(b.skip(1))
    }

    /// The tag byte decides the payload's layout; a tag from 12 on stands for no envelope.
    open spec fn parse(b: Seq<u8>) -> Result<CommView, SerializeError> {
        if b.len() == 0 {
            Err(SerializeError::NotEnoughData)
        } else if b[0] >= 12 {
            Err(SerializeError::UnknownSignature(b[0]))
        } else {
            parse_payload(b[0], b.skip(1))
        }
    }

    /// Writes the tag byte at offset 0, then the payload from offset 1 on.
    fn serialize(&self, buffer: &mut [u8]) -> (r: Result<usize, SerializeError>) {
        if !self.fits_wire() {
            return Err(SerializeError::EncodeOverflow);
        }
        let w = self.wire_bytes();
        if buffer.len() < w.len() {
            return Err(SerializeError::NotEnoughData);
        }
        put_front(buffer, &w);
        Ok(w.len())
    }

    /// Reads `buffer[0]` as the tag and the payload after it.
    fn deserialize(buffer: &[u8]) -> (r: Result<Comm, SerializeError>) {
        if buffer.len() == 0 {
            return Err(SerializeError::NotEnoughData);
        }
        let tag = buffer[0];
        let p = vstd::slice::slice_subrange(buffer, 1, buffer.len());
        assert(p@ =~= buffer@.skip(1));
        match tag {
            0 => match id_payload(p) {
                Ok(id) => Ok(Comm::Connected(id)),
                Err(e) => Err(e),
            },
            1 => match id_payload(p) {
                Ok(id) => Ok(Comm::Disconnected(id)),
                Err(e) => Err(e),
            },
            2 => {
                if p.len() < 38 {
                    return Err(SerializeError::NotEnoughData);
                }
                let id = read_u64(p, 0);
                let password = read_text(p, 8, 38);
                Ok(Comm::Login { id, password })
            },
            3 => Ok(Comm::Accepted),
            4 => match CommError::deserialize(p) {
                Ok(e) => Ok(Comm::Rejected(e)),
                Err(e) => Err(e),
            },
            5 => match User::deserialize(p) {
                Ok(u) => Ok(Comm::User(u)),
                Err(e) => Err(e),
            },
            6 => {
                if p.len() < 60 {
                    return Err(SerializeError::NotEnoughData);
                }
                let new_password = read_text(p, 0, 30);
                let old_password = read_text(p, 30, 60);
                Ok(Comm::ChangePassword { new_password, old_password })
            },
            7 => match Message::deserialize(p) {
                Ok(m) => Ok(Comm::Message(m)),
                Err(e) => Err(e),
            },
            8 => match id_payload(p) {
                Ok(id) => Ok(Comm::AddInvitation(id)),
                Err(e) => Err(e),
            },
            9 => match id_payload(p) {
                Ok(id) => Ok(Comm::RemoveInvitation(id)),
                Err(e) => Err(e),
            },
            10 => match id_payload(p) {
                Ok(id) => Ok(Comm::AddFriend(id)),
                Err(e) => Err(e),
            },
            11 => match id_payload(p) {
                Ok(id) => Ok(Comm::RemoveFriend(id)),
                Err(e) => Err(e),
            },
            sig => Err(SerializeError::UnknownSignature(sig)),
        }
    }
}

} // verus!
