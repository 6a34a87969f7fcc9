//! An account: its identifier, its password and its social graph, the friends and the pending
//! invitations. No identifier is ever both a friend and an invitation.
use crate::comm::CommParseError;
use crate::serialize::{Serialize, SerializeError};
use crate::wire::{
    ids_at, ids_bytes, ids_vec, u64_at, u64_bytes, lemma_u64_bytes, lemma_ids_bytes_len,
    lemma_ids_read_back, lemma_padded_text, padded_text, put_front, read_u64, read_text, text_eq,
    text_fits, text_fits_in, text_of, text_region,
};
use crate::{UserID, MAX_PASS_BYTE_LEN, USER_ID_SIZE};
use std::collections::HashSet;
use vstd::bytes::u64_to_le_bytes;
use vstd::prelude::*;

verus! {

broadcast use vstd::std_specs::hash::group_hash_axioms;

/// Represents user.
#[derive(Debug, PartialEq)]
pub struct User {
    id: UserID,
    password: String,
    friends: HashSet<UserID>,
    invitations: HashSet<UserID>,
}

/// What a `User` holds, as mathematical values.
pub struct UserView {
    pub id: UserID,
    pub password: Seq<char>,
    pub friends: Set<UserID>,
    pub invitations: Set<UserID>,
}

impl View for User {
    type V = UserView;

    closed spec fn view(&self) -> UserView {
        UserView {
            id: self.id,
            password: self.password@,
            friends: self.friends@,
            invitations: self.invitations@,
        }
    }
}

/// `ids` lists the members of `set`, each once.
pub open spec fn lists(ids: Seq<UserID>, set: Set<UserID>) -> bool {
    ids.no_duplicates() && ids.to_set() == set
}

/// The bytes of an account whose friends are listed in the order `fs` and whose invitations in
/// the order `is`: id (8) | password region (`MAX_PASS_BYTE_LEN`) | friend count (1) |
/// invitation count (1) | friends (8 each) | invitations (8 each).
pub open spec fn account_bytes(id: UserID, password: Seq<char>, fs: Seq<UserID>, is: Seq<UserID>) -> Seq<u8> {
    u64_bytes(id) + padded_text(password, MAX_PASS_BYTE_LEN as nat) + seq![fs.len() as u8, is.len() as u8]
        + ids_bytes(fs) + ids_bytes(is)
}

/// The members of `set`, each once, in the order in which the set yields them.
fn ids_of(set: &HashSet<UserID>) -> (ids: Vec<UserID>)
    ensures
        lists(ids@, set@),
{
    let mut ids: Vec<UserID> = Vec::new();
    if set.is_empty() {
        assert(ids@.to_set() =~= set@);
        return ids;
    }
    for id in it: set.iter()
        invariant
            set@.len() > 0,
            ids@.len() == it.index(),
            forall|k: int| 0 <= k < it.index() ==> ids@[k] == *it.seq()[k],
            it.seq().unref().to_set() == set@,
            it.seq().unref().no_duplicates(),
            it.index() == it.seq().len() ==> lists(ids@, set@),
    {
        ids.push(*id);
        assert(it.index() + 1 == it.seq().len() ==> ids@ =~= it.seq().unref());
    }
    ids
}

/// Reads the `n` identifiers that `buffer` holds from `pos` on.
fn read_ids(buffer: &[u8], pos: usize, n: usize) -> (set: HashSet<UserID>)
    requires
        pos + 8 * n <= buffer@.len(),
    ensures
        set@ == ids_at(buffer@, pos as int, n as nat).to_set(),
{
    let len = buffer.len();
    let mut set: HashSet<UserID> = HashSet::new();
    let mut i: usize = 0;
    assert(ids_at(buffer@, pos as int, 0).to_set() =~= Set::<UserID>::empty());
    while i < n
        invariant
            i <= n,
            pos + 8 * n <= buffer@.len() == len,
            set@ == ids_at(buffer@, pos as int, i as nat).to_set(),
        decreases n - i,
    {
        let x = read_u64(buffer, pos + 8 * i);
        set.insert(x);
        proof {
            let before = ids_at(buffer@, pos as int, i as nat);
            assert(ids_at(buffer@, pos as int, (i + 1) as nat) =~= before.push(x));
            before.lemma_push_to_set_commute(x);
        }
        i = i + 1;
    }
    set
}

/// What reading an account from `b` yields.
pub open spec fn parse_account(b: Seq<u8>) -> Result<UserView, SerializeError> {
    if b.len() < 40 {
        Err(SerializeError::NotEnoughData)
    } else {
        let nf = b[38] as int;
        let ni = b[39] as int;
        if b.len() < 40 + 8 * (nf + ni) {
            Err(SerializeError::NotEnoughData)
        } else {
            let friends = ids_at(b, 40, nf as nat).to_set();
            let invitations = ids_at(b, 40 + 8 * nf, ni as nat).to_set();
            if !friends.disjoint(invitations) {
                Err(SerializeError::ConflictingContacts)
            } else {
                Ok(
                    UserView {
                        id: u64_at(b, 0),
                        password: text_of(b.subrange(8, 38)),
                        friends,
                        invitations,
                    },
                )
            }
        }
    }
}

impl User {
    // id = 8, password = MAX_PASS_BYTE_LEN, friends and invitations both 1 byte each.
    const MIN_BYTE_LEN: usize = USER_ID_SIZE + MAX_PASS_BYTE_LEN + 2;

    #[verifier::type_invariant]
    spec fn contacts_disjoint(self) -> bool {
        self.friends@.disjoint(self.invitations@)
    }

    /// Creates a user with no friends and no invitations.
    pub fn new(id: UserID, password: String) -> (u: Self)
        ensures
            u@.id == id,
            u@.password == password@,
            u@.friends == Set::<UserID>::empty(),
            u@.invitations == Set::<UserID>::empty(),
    {
        Self { id, password, friends: HashSet::new(), invitations: HashSet::new() }
    }

    /// Returns the user's ID.
    pub fn id(&self) -> (id: UserID)
        ensures
            id == self@.id,
    {
        self.id
    }

    /// Returns the user's password.
    pub fn password(&self) -> (p: &String)
        ensures
            p@ == self@.password,
    {
        &self.password
    }

    /// Sets the password to `new_password` where `current_password` is the current one, and
    /// returns whether it did.
    pub fn change_password(&mut self, new_password: String, current_password: &str) -> (changed: bool)
        ensures
            changed == (current_password@ == old(self)@.password),
            final(self)@.password == if changed {
                new_password@
            } else {
                old(self)@.password
            },
            final(self)@.id == old(self)@.id,
            final(self)@.friends == old(self)@.friends,
            final(self)@.invitations == old(self)@.invitations,
    {
        proof {
            use_type_invariant(&*self);
        }
        if text_eq(self.password.as_str(), current_password) {
            self.password = new_password;
            true
        } else {
            false
        }
    }

    /// Returns the set of the user's friends.
    pub fn friends(&self) -> (f: &HashSet<UserID>)
        ensures
            f@ == self@.friends,
    {
        &self.friends
    }

    /// Returns whether `id` is a friend of the user.
    pub fn has_friend(&self, id: &UserID) -> (r: bool)
        ensures
            r == self@.friends.contains(*id),
    {
        self.friends.contains(id)
    }

    /// Accepts the invitation from `id`: `id` moves from the invitations to the friends. Returns
    /// false, and changes nothing, where there is no invitation from `id`.
    pub fn add_friend(&mut self, id: UserID) -> (added: bool)
        ensures
            added == old(self)@.invitations.contains(id),
            final(self)@.friends == if added {
                old(self)@.friends.insert(id)
            } else {
                old(self)@.friends
            },
            final(self)@.invitations == old(self)@.invitations.remove(id),
            final(self)@.id == old(self)@.id,
            final(self)@.password == old(self)@.password,
            !added ==> final(self)@ == old(self)@,
            final(self)@.friends.disjoint(final(self)@.invitations),
    {
        proof {
            use_type_invariant(&*self);
        }
        if !self.invitations.contains(&id) {
            assert(old(self)@.invitations.remove(id) =~= old(self)@.invitations);
            return false;
        }
        let mut invitations = HashSet::new();
        std::mem::swap(&mut invitations, &mut self.invitations);
        invitations.remove(&id);
        let mut friends = HashSet::new();
        std::mem::swap(&mut friends, &mut self.friends);
        friends.insert(id);
        self.friends = friends;
        self.invitations = invitations;
        proof {
            use_type_invariant(&*self);
        }
        true
    }

    /// Removes `id` from the friends. Returns whether it was a friend.
    pub fn remove_friend(&mut self, id: UserID) -> (removed: bool)
        ensures
            removed == old(self)@.friends.contains(id),
            final(self)@.friends == old(self)@.friends.remove(id),
            final(self)@.invitations == old(self)@.invitations,
            final(self)@.id == old(self)@.id,
            final(self)@.password == old(self)@.password,
            final(self)@.friends.disjoint(final(self)@.invitations),
    {
        proof {
            use_type_invariant(&*self);
        }
        let mut friends = HashSet::new();
        std::mem::swap(&mut friends, &mut self.friends);
        let removed = friends.remove(&id);
        self.friends = friends;
        proof {
            use_type_invariant(&*self);
        }
        removed
    }

    /// Returns the set of users that have sent an invitation.
    pub fn invitations(&self) -> (i: &HashSet<UserID>)
        ensures
            i@ == self@.invitations,
    {
        &self.invitations
    }

    /// Returns whether the user has an invitation from `id`.
    pub fn has_invitation(&self, id: &UserID) -> (r: bool)
        ensures
            r == self@.invitations.contains(*id),
    {
        self.invitations.contains(id)
    }

    /// Records an invitation from `id`, unless `id` is already a friend or has already invited.
    /// Returns whether it was recorded.
    pub fn add_invitation(&mut self, id: UserID) -> (added: bool)
        ensures
            added == !(old(self)@.friends.contains(id) || old(self)@.invitations.contains(id)),
            final(self)@.invitations == if added {
                old(self)@.invitations.insert(id)
            } else {
                old(self)@.invitations
            },
            final(self)@.friends == old(self)@.friends,
            final(self)@.id == old(self)@.id,
            final(self)@.password == old(self)@.password,
            final(self)@.friends.disjoint(final(self)@.invitations),
    {
        proof {
            use_type_invariant(&*self);
        }
        if self.friends.contains(&id) || self.invitations.contains(&id) {
            return false;
        }
        let mut invitations = HashSet::new();
        std::mem::swap(&mut invitations, &mut self.invitations);
        invitations.insert(id);
        self.invitations = invitations;
        proof {
            use_type_invariant(&*self);
        }
        true
    }

    /// Removes the invitation from `id`. Returns whether there was one.
    pub fn remove_invitation(&mut self, id: UserID) -> (removed: bool)
        ensures
            removed == old(self)@.invitations.contains(id),
            final(self)@.invitations == old(self)@.invitations.remove(id),
            final(self)@.friends == old(self)@.friends,
            final(self)@.id == old(self)@.id,
            final(self)@.password == old(self)@.password,
            final(self)@.friends.disjoint(final(self)@.invitations),
    {
        proof {
            use_type_invariant(&*self);
        }
        let mut invitations = HashSet::new();
        std::mem::swap(&mut invitations, &mut self.invitations);
        let removed = invitations.remove(&id);
        self.invitations = invitations;
        proof {
            use_type_invariant(&*self);
        }
        removed
    }

    /// Whether the account can be written: its password fits its region and holds no zero byte,
    /// and there are at most 255 friends and 255 invitations.
    pub(crate) fn fits_wire(&self) -> (r: bool)
        ensures
            r == User::fits(self@),
    {
        text_fits_in(self.password.as_str(), MAX_PASS_BYTE_LEN) && self.friends.len() <= 255
            && self.invitations.len() <= 255
    }

    /// The bytes of the account, with its friends and invitations in the order in which the
    /// sets yield them.
    pub(crate) fn wire_bytes(&self) -> (w: Vec<u8>)
        requires
            User::fits(self@),
        ensures
            User::is_wire_form(self@, w@),
            w@.len() == User::wire_len(self@),
    {
        let fs = ids_of(&self.friends);
        let is = ids_of(&self.invitations);
        proof {
            fs@.unique_seq_to_set();
            is@.unique_seq_to_set();
            lemma_ids_bytes_len(fs@);
            lemma_ids_bytes_len(is@);
            lemma_u64_bytes(self.id);
        }
        let mut w = u64_to_le_bytes(self.id);
        let mut p = text_region(self.password.as_str(), MAX_PASS_BYTE_LEN);
        w.append(&mut p);
        w.push(fs.len() as u8);
        w.push(is.len() as u8);
        let mut f = ids_vec(&fs);
        w.append(&mut f);
        let mut i = ids_vec(&is);
        w.append(&mut i);
        assert(w@ =~= account_bytes(self@.id, self@.password, fs@, is@));
        assert(lists(fs@, self@.friends) && lists(is@, self@.invitations));
        assert(User::is_wire_form(self@, w@));
        w
    }

    /// Writes the account to the start of `buffer` and returns the number of bytes written; see
    /// `Serialize::serialize`, whose errors this reports as `CommParseError`s.
    pub fn try_into(&self, buffer: &mut [u8]) -> (r: Result<usize, CommParseError>)
        ensures
            final(buffer)@.len() == old(buffer)@.len(),
            r is Ok <==> User::fits(self@) && User::wire_len(self@) <= old(buffer)@.len(),
            match r {
                Ok(n) => {
                    &&& n == User::wire_len(self@)
                    &&& User::is_wire_form(self@, final(buffer)@.take(n as int))
                    &&& final(buffer)@.skip(n as int) == old(buffer)@.skip(n as int)
                },
                Err(e) => {
                    &&& final(buffer)@ == old(buffer)@
                    &&& e == if User::fits(self@) {
                        CommParseError::NotEnoughData
                    } else {
                        CommParseError::EncodeOverflow
                    }
                },
            },
    {
        match self.serialize(buffer) {
            Ok(n) => Ok(n),
            Err(e) => Err(CommParseError::from(e)),
        }
    }

    /// Reads an account from the start of `buffer`; see `Serialize::deserialize`, whose errors
    /// this reports as `CommParseError`s.
    pub fn try_from(buffer: &[u8]) -> (r: Result<Self, CommParseError>)
        ensures
            match parse_account(buffer@) {
                Ok(v) => r matches Ok(u) && u@ == v,
                Err(e) => r == Err::<User, CommParseError>(CommParseError::spec_from(e)),
            },
    {
        match User::deserialize(buffer) {
            Ok(u) => Ok(u),
            Err(e) => Err(CommParseError::from(e)),
        }
    }

    /// Every encoding of an account that can be written is `wire_len` bytes long.
    pub proof fn lemma_wire_form_len(v: UserView, b: Seq<u8>)
        requires
            User::fits(v),
            User::is_wire_form(v, b),
        ensures
            b.len() == User::wire_len(v),
    {
        let (fs, is) = choose|fs: Seq<UserID>, is: Seq<UserID>|
            lists(fs, v.friends) && lists(is, v.invitations) && b == account_bytes(
                v.id,
                v.password,
                fs,
                is,
            );
        fs.unique_seq_to_set();
        is.unique_seq_to_set();
        lemma_ids_bytes_len(fs);
        lemma_ids_bytes_len(is);
        lemma_u64_bytes(v.id);
        lemma_padded_text(v.password, MAX_PASS_BYTE_LEN as nat, Seq::empty());
    }

    /// An account is read back from any of its encodings, whatever bytes follow it.
    pub proof fn lemma_round_trip(v: UserView, b: Seq<u8>, rest: Seq<u8>)
        requires
            User::fits(v),
            v.friends.disjoint(v.invitations),
            User::is_wire_form(v, b),
        ensures
            parse_account(b + rest) == Ok::<UserView, SerializeError>(v),
    {
        let (fs, is) = choose|fs: Seq<UserID>, is: Seq<UserID>|
            lists(fs, v.friends) && lists(is, v.invitations) && b == account_bytes(
                v.id,
                v.password,
                fs,
                is,
            );
        fs.unique_seq_to_set();
        is.unique_seq_to_set();
        lemma_ids_bytes_len(fs);
        lemma_ids_bytes_len(is);
        lemma_u64_bytes(v.id);
        lemma_padded_text(v.password, MAX_PASS_BYTE_LEN as nat, Seq::empty());
        let full = b + rest;
        let nf = fs.len() as int;
        assert(full.subrange(0, 8) =~= u64_bytes(v.id));
        assert(full.subrange(8, 38) =~= padded_text(v.password, MAX_PASS_BYTE_LEN as nat));
        assert(full[38] == fs.len() as u8);
        assert(full[39] == is.len() as u8);
        lemma_ids_read_back(fs, full.take(40), ids_bytes(is) + rest);
        assert(full =~= full.take(40) + ids_bytes(fs) + (ids_bytes(is) + rest));
        lemma_ids_read_back(is, full.take(40 + 8 * nf), rest);
        assert(full =~= full.take(40 + 8 * nf) + ids_bytes(is) + rest);
    }
}

impl Serialize for User {
    open spec fn fits(v: UserView) -> bool {
        &&& text_fits(v.password, MAX_PASS_BYTE_LEN as nat)
        &&& v.friends.len() <= 255
        &&& v.invitations.len() <= 255
    }

    open spec fn wire_len(v: UserView) -> nat {
        40 + 8 * (v.friends.len() + v.invitations.len())
    }

    /// The bytes of the account with its friends and its invitations each listed in some order.
    open spec fn is_wire_form(v: UserView, b: Seq<u8>) -> bool {
        exists|fs: Seq<UserID>, is: Seq<UserID>|
            lists(fs, v.friends) && lists(is, v.invitations) && b == account_bytes(
                v.id,
                v.password,
                fs,
                is,
            )
    }

    open spec fn parse(b: Seq<u8>) -> Result<UserView, SerializeError> {
        parse_account(b)
    }

    /// Writes the account: id, password region, the two counts, then the friends and the
    /// invitations.
    fn serialize(&self, buffer: &mut [u8]) -> (r: Result<usize, SerializeError>) {
        if !self.fits_wire() {
            return Err(SerializeError::EncodeOverflow);
        }
        let w = self.wire_bytes();
        if buffer.len() < w.len() {
            return Err(SerializeError::NotEnoughData);
        }
        put_front(buffer, &w);
        Ok(w.len())
    }

    /// Reads an account. The buffer must hold the two lists that the counts announce, and no
    /// identifier may be both a friend and an invitation.
    fn deserialize(buffer: &[u8]) -> (r: Result<User, SerializeError>) {
        if buffer.len() < User::MIN_BYTE_LEN {
            return Err(SerializeError::NotEnoughData);
        }
        let nf = buffer[38] as usize;
        let ni = buffer[39] as usize;
        if buffer.len() - 40 < 8 * (nf + ni) {
            return Err(SerializeError::NotEnoughData);
        }
        let id = read_u64(buffer, 0);
        let password = read_text(buffer, 8, 38);
        let friends = read_ids(buffer, 40, nf);
        let pos = 40 + 8 * nf;
        let ghost listed = ids_at(buffer@, pos as int, ni as nat);
        let len = buffer.len();
        let mut invitations: HashSet<UserID> = HashSet::new();
        let mut i: usize = 0;
        assert(ids_at(buffer@, pos as int, 0).to_set() =~= Set::<UserID>::empty());
        while i < ni
            invariant
                i <= ni,
                nf == buffer@[38],
                ni == buffer@[39],
                pos == 40 + 8 * nf,
                pos + 8 * ni <= buffer@.len() == len,
                friends@ == ids_at(buffer@, 40, nf as nat).to_set(),
                listed == ids_at(buffer@, pos as int, ni as nat),
                invitations@ == ids_at(buffer@, pos as int, i as nat).to_set(),
                friends@.disjoint(invitations@),
            decreases ni - i,
        {
            let x = read_u64(buffer, pos + 8 * i);
            if friends.contains(&x) {
                assert(listed[i as int] == x);
                assert(listed.to_set().contains(x));
                assert(!friends@.disjoint(listed.to_set()));
                return Err(SerializeError::ConflictingContacts);
            }
            invitations.insert(x);
            proof {
                let before = ids_at(buffer@, pos as int, i as nat);
                assert(ids_at(buffer@, pos as int, (i + 1) as nat) =~= before.push(x));
                before.lemma_push_to_set_commute(x);
            }
            i = i + 1;
        }
        Ok(User { id, password, friends, invitations })
    }
}

} // verus!
