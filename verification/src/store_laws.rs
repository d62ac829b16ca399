//! What is read of a store after what was done to it, call by call.

use vstd::prelude::*;

use crate::kind::HashKind;
use crate::node::Node;
use crate::state_id::StateId;
use crate::storage::{Entry, NodeStore};

verus! {

/// In a new store no id has a tree.
pub proof fn new_stores_are_empty<K: HashKind>(
    store: NodeStore<StateId<K>, K::State>,
    id: StateId<K>,
    found: Option<&Node<StateId<K>, K::State>>,
)
    requires
        call_ensures(NodeStore::<StateId<K>, K::State>::new, (), store),
        call_ensures(NodeStore::<StateId<K>, K::State>::get, (&store, id), found),
    ensures
        found is None,
{
}

/// A tree made ready for a store and put under an id is read at that id, and
/// all other ids have the trees that they had.
pub proof fn inserted_entry_is_read_back<K: HashKind>(
    store: &mut NodeStore<StateId<K>, K::State>,
    id: StateId<K>,
    node: Node<StateId<K>, K::State>,
    entry: Entry<K, K::State>,
    other: StateId<K>,
    before: Option<&Node<StateId<K>, K::State>>,
    after: Option<&Node<StateId<K>, K::State>>,
)
    requires
        old(store).wf(),
        node.wf(),
        call_ensures(NodeStore::<StateId<K>, K::State>::new_entry, (node,), entry),
        call_ensures(NodeStore::<StateId<K>, K::State>::get, (&*old(store), other), before),
        call_ensures(NodeStore::<StateId<K>, K::State>::insert_entry, (store, id, entry), ()),
        call_ensures(NodeStore::<StateId<K>, K::State>::get, (&*final(store), other), after),
    ensures
        other == id ==> (after matches Some(found) && found.tree() == node.tree()),
        other != id ==> (after is Some <==> before is Some),
        other != id && before is Some ==> after.unwrap().tree() == before.unwrap().tree(),
{
    old(store).wf_placed();
    let tree = node.tree();
    crate::storage_laws::insert_then_tree(old(store)@, id, tree, final(store)@);
    if other != id {
        crate::storage_laws::insert_leaves_other_trees(old(store)@, id, tree, final(store)@, other);
    }
}

/// A tree that is put under an id has a place of its own: changes of it are not
/// seen through other ids, nor theirs through this one.
pub proof fn inserted_entry_stands_alone<K: HashKind>(
    store: &mut NodeStore<StateId<K>, K::State>,
    id: StateId<K>,
    entry: Entry<K, K::State>,
    other: StateId<K>,
)
    requires
        old(store).wf(),
        entry.wf(),
        call_ensures(NodeStore::<StateId<K>, K::State>::insert_entry, (store, id, entry), ()),
        other != id,
        final(store)@.entries.contains_key(other),
    ensures
        final(store)@.entries[id] != final(store)@.entries[other],
        old(store)@.entries.contains_key(other),
        final(store)@.entries[other] == old(store)@.entries[other],
{
    old(store).wf_placed();
    crate::storage_laws::insert_then_tree(old(store)@, id, entry.tree(), final(store)@);
}

/// Without its reference an id has no tree, and all other ids have the trees
/// that they had, at the places where they were.
pub proof fn removed_entry_is_gone<K: HashKind>(
    store: &mut NodeStore<StateId<K>, K::State>,
    id: StateId<K>,
    other: StateId<K>,
    before: Option<&Node<StateId<K>, K::State>>,
    after: Option<&Node<StateId<K>, K::State>>,
)
    requires
        old(store).wf(),
        call_ensures(NodeStore::<StateId<K>, K::State>::get, (&*old(store), other), before),
        call_ensures(NodeStore::<StateId<K>, K::State>::remove_entry, (store, id), ()),
        call_ensures(NodeStore::<StateId<K>, K::State>::get, (&*final(store), other), after),
    ensures
        other == id ==> after is None,
        other != id ==> (after is Some <==> before is Some),
        other != id && before is Some ==> {
            &&& after.unwrap().tree() == before.unwrap().tree()
            &&& final(store)@.entries[other] == old(store)@.entries[other]
        },
{
    old(store).wf_placed();
    if other != id {
        crate::storage_laws::remove_leaves_other_trees(old(store)@, id, other);
    }
}

/// Whatever is done to a store, it keeps a tree at exactly the places that ids
/// lead to: a tree goes with the last reference to it, and not before.
pub proof fn trees_go_with_their_last_reference<K: HashKind>(
    store: &mut NodeStore<StateId<K>, K::State>,
    id: StateId<K>,
    other: StateId<K>,
    entry: Entry<K, K::State>,
    shared: bool,
    place: usize,
)
    requires
        old(store).wf(),
        ({
            ||| call_ensures(NodeStore::<StateId<K>, K::State>::remove_entry, (store, id), ())
            ||| call_ensures(
                NodeStore::<StateId<K>, K::State>::insert_entry,
                (store, id, entry),
                (),
            )
            ||| call_ensures(
                NodeStore::<StateId<K>, K::State>::share_entry,
                (store, id, other),
                shared,
            )
        }),
    ensures
        final(store)@.trees.contains_key(place) <==> exists|x: StateId<K>| #[trigger]
            final(store)@.entries.contains_key(x) && final(store)@.entries[x] == place,
{
    final(store).wf_placed();
}

/// An id can come to share the tree of another one that has a tree, and of no
/// other. It then reads that tree, from the same place, and all other ids have
/// the trees that they had.
pub proof fn shared_entry_is_read_through_both<K: HashKind>(
    store: &mut NodeStore<StateId<K>, K::State>,
    id: StateId<K>,
    other: StateId<K>,
    shared: bool,
    source: Option<&Node<StateId<K>, K::State>>,
    third: StateId<K>,
    before: Option<&Node<StateId<K>, K::State>>,
    after: Option<&Node<StateId<K>, K::State>>,
)
    requires
        old(store).wf(),
        call_ensures(NodeStore::<StateId<K>, K::State>::get, (&*old(store), other), source),
        call_ensures(NodeStore::<StateId<K>, K::State>::get, (&*old(store), third), before),
        call_ensures(NodeStore::<StateId<K>, K::State>::share_entry, (store, id, other), shared),
        call_ensures(NodeStore::<StateId<K>, K::State>::get, (&*final(store), third), after),
    ensures
        shared <==> source is Some,
        shared && third == id ==> (after matches Some(found) && found.tree()
            == source.unwrap().tree()),
        shared ==> final(store)@.entries[id] == final(store)@.entries[other],
        !shared || third != id ==> (after is Some <==> before is Some),
        (!shared || third != id) && before is Some ==> after.unwrap().tree()
            == before.unwrap().tree(),
{
    old(store).wf_placed();
    if shared {
        if id == other {
            old(store)@.lemma_kept();
            assert(old(store)@.entries.insert(id, old(store)@.entries[id]) =~= old(
                store,
            )@.entries);
        } else {
            crate::storage_laws::share_then_tree(old(store)@, id, other, other);
        }
        if third != id {
            crate::storage_laws::share_then_tree(old(store)@, id, other, third);
        }
    }
}

/// A tree that is lent for changes is the one that is read at the id. What it
/// is left as is read through every id that leads to the same place, and all
/// other ids have the trees that they had.
pub proof fn changed_entry_is_read_through_all<K: HashKind>(
    store: &mut NodeStore<StateId<K>, K::State>,
    id: StateId<K>,
    node: &mut Node<StateId<K>, K::State>,
    other: StateId<K>,
    source: Option<&Node<StateId<K>, K::State>>,
    before: Option<&Node<StateId<K>, K::State>>,
    after: Option<&Node<StateId<K>, K::State>>,
)
    requires
        old(store).wf(),
        old(store)@.entries.contains_key(id),
        call_ensures(NodeStore::<StateId<K>, K::State>::get, (&*old(store), id), source),
        call_ensures(NodeStore::<StateId<K>, K::State>::get, (&*old(store), other), before),
        call_ensures(NodeStore::<StateId<K>, K::State>::get_mut, (store, id), node),
        call_ensures(NodeStore::<StateId<K>, K::State>::get, (&*final(store), other), after),
    ensures
        source matches Some(found) && old(node).tree() == found.tree(),
        after is Some <==> before is Some,
        before is Some ==> after.unwrap().tree() == (if old(store)@.entries[other] == old(
            store,
        )@.entries[id] {
            final(node).tree()
        } else {
            before.unwrap().tree()
        }),
{
}

/// In a default store no id has a tree.
pub proof fn default_stores_are_empty<K: HashKind>(
    store: NodeStore<StateId<K>, K::State>,
    id: StateId<K>,
    found: Option<&Node<StateId<K>, K::State>>,
)
    requires
        call_ensures(<NodeStore<StateId<K>, K::State> as Default>::default, (), store),
        call_ensures(NodeStore::<StateId<K>, K::State>::get, (&store, id), found),
    ensures
        found is None,
{
}

} // verus!
