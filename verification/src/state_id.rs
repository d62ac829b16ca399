//! Identifiers of states.

use vstd::prelude::*;
use vstd::string::StringExecFns;

use std::fmt::Debug;

use crate::base58::base58_text;
use crate::kind::{Coded, HashKind, Kind};

verus! {

/// Names one state machine: a [`Kind`] field, and the value of a UUID to be
/// used as a _distinguishing_ identifier.
#[derive(Debug, Hash, Eq, PartialEq)]
pub struct StateId<K: Kind> {
    pub kind: K,
    pub uuid: u128,
}

impl<K: Kind + Copy> Clone for StateId<K> {
    fn clone(&self) -> (id: Self)
        ensures
            id == *self,
    {
        *self
    }
}

impl<K: Kind + Copy> Copy for StateId<K> {

}

impl<K: Kind> std::ops::Deref for StateId<K> {
    type Target = K;

    fn deref(&self) -> (kind: &K)
        ensures
            *kind == self.kind,
    {
        &self.kind
    }
}

/// The value of the nil UUID.
pub const NIL_UUID: u128 = 0;

/// `uuid` carries the version and the variant of a random UUID.
pub open spec fn is_random_uuid(uuid: u128) -> bool {
    uuid & 0xF000_C000_0000_0000_0000 == 0x4000_8000_0000_0000_0000
}

/// The text of an id whose kind is written `kind`.
pub open spec fn id_text(kind: Seq<char>, uuid: u128) -> Seq<char> {
    kind + "<"@ + (if uuid == NIL_UUID {
        "NIL"@
    } else {
        crate::base58::base58(uuid)
    }) + ">"@
}

/// Calls `uuid::Uuid::new_v4` and `uuid::Uuid::as_u128`. Claims of the random
/// value that its version bits say four and its variant bits are those of
/// RFC 9562, which the call sets whatever it draws. The other bits are drawn
/// from the operating system, and nothing is said of them.
#[verifier::external_body]
fn random_uuid() -> (uuid: u128)
    ensures
        is_random_uuid(uuid),
{
    uuid::Uuid::new_v4().as_u128()
}

/// Calls `uuid::Uuid::nil` and `uuid::Uuid::as_u128`. Claims that the nil UUID
/// has all its bits clear.
#[verifier::external_body]
fn nil_uuid() -> (uuid: u128)
    ensures
        uuid == NIL_UUID,
{
    uuid::Uuid::nil().as_u128()
}

/// Calls `format!` with the `Debug` form of `kind`. That form is the one of
/// the type that the caller chose, and nothing is said of it.
#[verifier::external_body]
fn debug_text<K: Debug>(kind: &K) -> (text: String) {
    format!("{:?}", kind)
}

/// Writes an id whose kind is written `kind`.
pub fn write_id(kind: &str, uuid: u128) -> (text: String)
    ensures
        text@ == id_text(kind@, uuid),
{
    let mut text = kind.to_owned();
    text.append("<");
    if uuid == nil_uuid() {
        text.append("NIL");
    } else {
        let encoded = base58_text(uuid);
        text.append(encoded.as_str());
    }
    text.append(">");
    text
}

impl<K: Kind> StateId<K> {
    pub fn new(kind: K, uuid: u128) -> (id: Self)
        ensures
            id == (StateId { kind, uuid }),
    {
        Self { kind, uuid }
    }

    /// The UUID of this id is one that was drawn at random.
    pub closed spec fn drawn(self) -> bool {
        call_ensures(random_uuid, (), self.uuid)
    }

    /// Returns an id with a random UUID.
    pub fn new_rand(kind: K) -> (id: Self)
        ensures
            id.kind == kind,
            id.drawn(),
            is_random_uuid(id.uuid),
            !id.nil_id(),
    {
        let uuid = random_uuid();
        assert(uuid != 0) by (bit_vector)
            requires
                uuid & 0xF000_C000_0000_0000_0000 == 0x4000_8000_0000_0000_0000,
        ;
        Self::new(kind, uuid)
    }

    /// Returns the id of `kind` with the nil UUID.
    pub fn nil(kind: K) -> (id: Self)
        ensures
            id == (StateId { kind, uuid: NIL_UUID }),
            id.nil_id(),
    {
        Self::new(kind, nil_uuid())
    }

    /// The UUID of this id is the nil one.
    pub open spec fn nil_id(self) -> bool {
        self.uuid == NIL_UUID
    }

    pub fn is_nil(&self) -> (nil: bool)
        ensures
            nil == self.nil_id(),
    {
        self.uuid == nil_uuid()
    }

    /// for testing purposes, easily distinguish UUIDs
    /// by numerical value
    pub fn new_with_u128(kind: K, v: u128) -> (id: Self)
        ensures
            id == (StateId { kind, uuid: v }),
    {
        Self { kind, uuid: v }
    }

    /// `text` is a debug form of the kind of this id.
    pub closed spec fn debugs_as(self, text: String) -> bool {
        call_ensures(debug_text::<K>, (&self.kind,), text)
    }

    /// Writes this id: the debug form of the kind, and the UUID in base 58.
    pub fn to_string(&self) -> (text: String)
        ensures
            exists|kind: String| #[trigger]
                self.debugs_as(kind) && text@ == id_text(kind@, self.uuid),
    {
        let kind = debug_text(&self.kind);
        assert(self.debugs_as(kind));
        write_id(kind.as_str(), self.uuid)
    }
}

impl<K: HashKind> StateId<K> {
    /// The numbers that stand for this id in ordered and hashed collections.
    pub open spec fn key(self) -> (u64, u128) {
        (self.kind.number(), self.uuid)
    }

    pub fn get_key(&self) -> (key: (u64, u128))
        ensures
            key == self.key(),
    {
        (self.kind.code(), self.uuid)
    }

    /// Returns whether both name the same state.
    pub fn same(&self, other: &Self) -> (same: bool)
        ensures
            same == (*self == *other),
    {
        proof {
            if self.key() == other.key() {
                Self::key_injective(*self, *other);
            }
        }
        self.kind.code() == other.kind.code() && self.uuid == other.uuid
    }

    /// Ids with the same numbers are one id.
    pub proof fn key_injective(a: Self, b: Self)
        requires
            a.key() == b.key(),
        ensures
            a == b,
    {
        K::number_injective(a.kind, b.kind);
    }
}

/// Ids of one kind that are written the same have the same UUID.
pub proof fn id_text_injective(kind: Seq<char>, a: u128, b: u128)
    requires
        id_text(kind, a) == id_text(kind, b),
    ensures
        a == b,
{
    reveal_strlit("<");
    reveal_strlit(">");
    reveal_strlit("NIL");
    crate::base58::base58_len(a);
    crate::base58::base58_len(b);
    let start = kind.len() as int + 1;
    let end = id_text(kind, a).len() - 1;
    let x = id_text(kind, a).subrange(start, end);
    let y = id_text(kind, b).subrange(start, end);
    assert(x == y);
    assert(a != NIL_UUID ==> x =~= crate::base58::base58(a));
    assert(b != NIL_UUID ==> y =~= crate::base58::base58(b));
    assert(a == NIL_UUID ==> x.len() == 3);
    assert(b == NIL_UUID ==> y.len() == 3);
    if a != NIL_UUID && b != NIL_UUID {
        crate::base58::base58_injective(a, b);
    }
}

/// A random id has the very bits that were drawn for it, and an id is written
/// with the very debug form of its kind.
proof fn ids_come_from_what_was_drawn_and_written<K: Kind>(
    kind: K,
    drawn: StateId<K>,
    id: &StateId<K>,
    text: String,
)
    requires
        call_ensures(StateId::<K>::new_rand, (kind,), drawn),
        call_ensures(StateId::<K>::to_string, (id,), text),
    ensures
        call_ensures(random_uuid, (), drawn.uuid),
        exists|written: String| #[trigger]
            call_ensures(debug_text::<K>, (&id.kind,), written) && text@.take(
                written@.len() as int,
            ) == written@,
{
    let written = choose|written: String| #[trigger]
        id.debugs_as(written) && text@ == id_text(written@, id.uuid);
    assert(text@.take(written@.len() as int) =~= written@);
    assert(call_ensures(debug_text::<K>, (&id.kind,), written));
}

} // verus!
