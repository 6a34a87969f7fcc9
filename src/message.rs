//! A chat message between two users, and its byte layout.
use crate::serialize::{Serialize, SerializeError};
use crate::wire::{
    lemma_text_read_back, lemma_u64_bytes, put_front, read_text, read_u64, text_has_no_zero,
    text_of, u64_at, u64_bytes,
};
use crate::UserID;
use vstd::bytes::u64_to_le_bytes;
use vstd::prelude::*;
use vstd::utf8::encode_utf8;

verus! {

/// Represents message that can be sent between users. The time of its creation travels with
/// it.
#[derive(Debug, PartialEq)]
pub struct Message {
    from: UserID,
    to: UserID,
    time: u64,
    content: String,
}

/// What a `Message` holds, as mathematical values.
pub struct MessageView {
    pub from: UserID,
    pub to: UserID,
    /// When the message was created, in nanoseconds since the Unix epoch.
    pub time: u64,
    pub content: Seq<char>,
}

impl View for Message {
    type V = MessageView;

    closed spec fn view(&self) -> MessageView {
        MessageView { from: self.from, to: self.to, time: self.time, content: self.content@ }
    }
}

/// The bytes of a message: from (8) | to (8) | time (8) | content in UTF-8 | a zero byte.
pub open spec fn message_bytes(m: MessageView) -> Seq<u8> {
    u64_bytes(m.from) + u64_bytes(m.to) + u64_bytes(m.time) + encode_utf8(m.content) + seq![0u8]
}

/// What reading a message from `b` yields. The content runs to the first zero byte after the
/// three numbers, or to the end of `b`.
pub open spec fn parse_message(b: Seq<u8>) -> Result<MessageView, SerializeError> {
    if b.len() < 24 {
        Err(SerializeError::NotEnoughData)
    } else {
        Ok(
            MessageView {
                from: u64_at(b, 0),
                to: u64_at(b, 8),
                time: u64_at(b, 16),
                content: text_of(b.skip(24)),
            },
        )
    }
}

/// Relies on std::time::SystemTime::now: the current time, in nanoseconds since the Unix epoch
/// (0 for a clock set before the epoch). Nothing is promised of the value.
#[verifier::external_body]
fn now_nanos() -> u64 {
    match std::time::SystemTime::now().duration_since(std::time::UNIX_EPOCH) {
        Ok(d) => d.as_nanos() as u64,
        Err(_) => 0,
    }
}

impl Message {
    /// Creates a message stamped with the current time.
    pub fn new(content: String, from: UserID, to: UserID) -> (m: Self)
        ensures
            m@.from == from,
            m@.to == to,
            m@.content == content@,
    {
        Self { from, to, time: now_nanos(), content }
    }

    /// Returns sender ID.
    pub fn from(&self) -> (id: &UserID)
        ensures
            *id == self@.from,
    {
        &self.from
    }

    /// Returns receiver ID.
    pub fn to(&self) -> (id: &UserID)
        ensures
            *id == self@.to,
    {
        &self.to
    }

    /// Time when the message was created, in nanoseconds since the Unix epoch.
    pub fn time(&self) -> (t: &u64)
        ensures
            *t == self@.time,
    {
        &self.time
    }

    /// Message contents.
    pub fn content(&self) -> (c: &String)
        ensures
            c@ == self@.content,
    {
        &self.content
    }

    /// Whether the message can be written: its content holds no zero byte.
    pub(crate) fn fits_wire(&self) -> (r: bool)
        ensures
            r == Message::fits(self@),
    {
        text_has_no_zero(self.content.as_str())
    }

    /// The bytes of the message.
    pub(crate) fn wire_bytes(&self) -> (w: Vec<u8>)
        ensures
            w@ == message_bytes(self@),
    {
        let mut w = u64_to_le_bytes(self.from);
        let mut to = u64_to_le_bytes(self.to);
        w.append(&mut to);
        let mut time = u64_to_le_bytes(self.time);
        w.append(&mut time);
        let mut content = vstd::slice::slice_to_vec(self.content.as_str().as_bytes());
        w.append(&mut content);
        w.push(0);
        assert(w@ =~= message_bytes(self@));
        w
    }

    /// A message is read back from its bytes, whatever bytes follow them.
    pub proof fn lemma_round_trip(m: MessageView, rest: Seq<u8>)
        requires
            Message::fits(m),
        ensures
            parse_message(message_bytes(m) + rest) == Ok::<MessageView, SerializeError>(m),
    {
        let b = message_bytes(m) + rest;
        lemma_u64_bytes(m.from);
        lemma_u64_bytes(m.to);
        lemma_u64_bytes(m.time);
        assert(b.subrange(0, 8) =~= u64_bytes(m.from));
        assert(b.subrange(8, 16) =~= u64_bytes(m.to));
        assert(b.subrange(16, 24) =~= u64_bytes(m.time));
        lemma_text_read_back(m.content, seq![0u8] + rest);
        assert(b.skip(24) =~= encode_utf8(m.content) + (seq![0u8] + rest));
    }
}

impl Serialize for Message {
    /// The content must hold no zero byte, which would end it early.
    open spec fn fits(v: MessageView) -> bool {
        !encode_utf8(v.content).contains(0u8)
    }

    open spec fn wire_len(v: MessageView) -> nat {
        25 + encode_utf8(v.content).len()
    }

    open spec fn is_wire_form(v: MessageView, b: Seq<u8>) -> bool {
        b == message_bytes(v)
    }

    open spec fn parse(b: Seq<u8>) -> Result<MessageView, SerializeError> {
        parse_message(b)
    }

    /// Writes the sender, the receiver, the time, then the content and a zero byte.
    fn serialize(&self, buffer: &mut [u8]) -> (r: Result<usize, SerializeError>) {
        if !self.fits_wire() {
            return Err(SerializeError::EncodeOverflow);
        }
        let w = self.wire_bytes();
        proof {
            lemma_u64_bytes(self.from);
            lemma_u64_bytes(self.to);
            lemma_u64_bytes(self.time);
        }
        if buffer.len() < w.len() {
            return Err(SerializeError::NotEnoughData);
        }
        put_front(buffer, &w);
        Ok(w.len())
    }

    /// Reads a message; its content runs to the first zero byte or to the end of the buffer.
    fn deserialize(buffer: &[u8]) -> (r: Result<Message, SerializeError>) {
        if buffer.len() < 24 {
            return Err(SerializeError::NotEnoughData);
        }
        let from = read_u64(buffer, 0);
        let to = read_u64(buffer, 8);
        let time = read_u64(buffer, 16);
        let content = read_text(buffer, 24, buffer.len());
        assert(buffer@.subrange(24, buffer@.len() as int) =~= buffer@.skip(24));
        Ok(Message { from, to, time, content })
    }
}

} // verus!
