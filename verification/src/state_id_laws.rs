//! What ids say and how they are told apart.

use vstd::prelude::*;

use crate::error::RexError;
use crate::kind::{HashKind, Kind};
use crate::state_id::StateId;

verus! {

/// An id has the kind and the UUID that it was made with.
pub proof fn ids_keep_kind_and_uuid<K: Kind>(
    kind: K,
    uuid: u128,
    made: StateId<K>,
    numbered: StateId<K>,
    nil: StateId<K>,
    drawn: StateId<K>,
)
    requires
        call_ensures(StateId::<K>::new, (kind, uuid), made),
        call_ensures(StateId::<K>::new_with_u128, (kind, uuid), numbered),
        call_ensures(StateId::<K>::nil, (kind,), nil),
        call_ensures(StateId::<K>::new_rand, (kind,), drawn),
    ensures
        made.kind == kind && made.uuid == uuid,
        numbered == made,
        nil.kind == kind && nil.uuid == 0,
        drawn.kind == kind && drawn.uuid != 0,
{
    let uuid = drawn.uuid;
    assert(uuid != 0) by (bit_vector)
        requires
            uuid & 0xF000_C000_0000_0000_0000 == 0x4000_8000_0000_0000_0000,
    ;
}

/// A random UUID says that it is of version four, in the four bits for that,
/// and of the variant whose two bits are one and zero.
pub proof fn random_ids_say_their_version<K: Kind>(kind: K, drawn: StateId<K>)
    requires
        call_ensures(StateId::<K>::new_rand, (kind,), drawn),
    ensures
        (drawn.uuid >> 76) & 0xF == 4,
        (drawn.uuid >> 62) & 3 == 2,
{
    let uuid = drawn.uuid;
    assert((uuid >> 76) & 0xF == 4 && (uuid >> 62) & 3 == 2) by (bit_vector)
        requires
            uuid & 0xF000_C000_0000_0000_0000 == 0x4000_8000_0000_0000_0000,
    ;
}

/// An id is nil exactly if its UUID has no bit set, whatever its kind.
pub proof fn nil_ids_have_no_bits<K: Kind>(id: &StateId<K>, nil: bool)
    requires
        call_ensures(StateId::<K>::is_nil, (id,), nil),
    ensures
        nil <==> id.uuid == 0,
{
}

/// Ids are told apart by their kinds and by all bits of their UUIDs: they are
/// the same exactly if both agree, and so are their keys.
pub proof fn ids_are_told_apart<K: HashKind>(
    a: &StateId<K>,
    b: &StateId<K>,
    same: bool,
    key: (u64, u128),
    other: (u64, u128),
)
    requires
        call_ensures(StateId::<K>::same, (a, b), same),
        call_ensures(StateId::<K>::get_key, (a,), key),
        call_ensures(StateId::<K>::get_key, (b,), other),
    ensures
        same <==> a.kind == b.kind && a.uuid == b.uuid,
        same <==> key == other,
        key.1 == a.uuid,
{
    if key == other {
        StateId::key_injective(*a, *b);
    }
}

/// An id is written as its kind and, in angle brackets, its UUID in base 58, or
/// else that it is nil.
pub proof fn ids_are_written_with_kind_and_uuid(kind: &str, uuid: u128, text: String)
    requires
        call_ensures(crate::state_id::write_id, (kind, uuid), text),
    ensures
        text@.len() >= kind@.len() + 5,
        text@.take(kind@.len() as int) == kind@,
        text@[kind@.len() as int] == '<',
        text@.last() == '>',
        text@.subrange(kind@.len() as int + 1, text@.len() - 1) == (if uuid == 0 {
            seq!['N', 'I', 'L']
        } else {
            crate::base58::base58(uuid)
        }),
{
    reveal_strlit("<");
    reveal_strlit(">");
    reveal_strlit("NIL");
    crate::base58::base58_len(uuid);
    assert("NIL"@ =~= seq!['N', 'I', 'L']);
    assert(text@.take(kind@.len() as int) =~= kind@);
    let inner = if uuid == 0 {
        seq!['N', 'I', 'L']
    } else {
        crate::base58::base58(uuid)
    };
    assert(text@.subrange(kind@.len() as int + 1, text@.len() - 1) =~= inner);
}

/// The same of an id, with a debug form of its kind.
pub proof fn ids_are_written_with_their_kind<K: Kind>(id: &StateId<K>, text: String)
    requires
        call_ensures(StateId::<K>::to_string, (id,), text),
    ensures
        exists|kind: String|
            {
                &&& #[trigger] id.debugs_as(kind)
                &&& text@.len() >= kind@.len() + 5
                &&& text@.take(kind@.len() as int) == kind@
                &&& text@[kind@.len() as int] == '<'
                &&& text@.last() == '>'
                &&& text@.subrange(kind@.len() as int + 1, text@.len() - 1) == (if id.uuid == 0 {
                    seq!['N', 'I', 'L']
                } else {
                    crate::base58::base58(id.uuid)
                })
            },
{
    let kind = choose|kind: String| #[trigger]
        id.debugs_as(kind) && text@ == crate::state_id::id_text(kind@, id.uuid);
    reveal_strlit("<");
    reveal_strlit(">");
    reveal_strlit("NIL");
    crate::base58::base58_len(id.uuid);
    assert("NIL"@ =~= seq!['N', 'I', 'L']);
    let inner = if id.uuid == 0 {
        seq!['N', 'I', 'L']
    } else {
        crate::base58::base58(id.uuid)
    };
    assert(text@.take(kind@.len() as int) =~= kind@);
    assert(text@.subrange(kind@.len() as int + 1, text@.len() - 1) =~= inner);
    assert(id.debugs_as(kind));
}

/// The target of an id is its kind, and a copy of an id is the same id.
pub proof fn ids_stand_for_their_kind<K: Kind + Copy>(
    id: &StateId<K>,
    kind: &K,
    copy: StateId<K>,
)
    requires
        call_ensures(<StateId<K> as std::ops::Deref>::deref, (id,), kind),
        call_ensures(<StateId<K> as Clone>::clone, (id,), copy),
    ensures
        *kind == id.kind,
        copy == *id,
{
}

/// The one error of state machines has one text.
pub proof fn errors_have_their_text(error: &RexError, text: String)
    requires
        call_ensures(RexError::to_string, (error,), text),
    ensures
        text@.len() == 17,
        text@ == "StateMachineError"@,
{
    reveal_strlit("StateMachineError");
}

} // verus!
