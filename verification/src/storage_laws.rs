//! Laws of stored states.

use vstd::prelude::*;

use crate::storage::Stored;
use crate::tree::Tree;

verus! {

/// After an update, the id has the state that was set. Where the topmost state
/// of a tree has the name of one below it, lookups stop at the top and updates
/// go below, so that input is left out.
pub proof fn update_then_state<Id, S>(stored: Stored<Id, S>, id: Id, state: S)
    requires
        stored.placed(),
        stored.has(id),
        !(stored.tree_of(id).id == id && stored.tree_of(id).below(id)),
    ensures
        stored.with_state(id, state).state_of(id) == Some(state),
{
    crate::tree_laws::update_then_lookup(stored.tree_of(id), id, state);
}

/// An update leaves the states of all other ids, in the same tree and in others.
pub proof fn update_leaves_other_states<Id, S>(
    stored: Stored<Id, S>,
    id: Id,
    state: S,
    other: Id,
)
    requires
        stored.placed(),
        stored.has(id),
        other != id,
    ensures
        stored.with_state(id, state).state_of(other) == stored.state_of(other),
{
    crate::tree_laws::update_leaves_others(stored.tree_of(id), id, state, other);
}

/// An update of one id is seen through every id with the same entry, and
/// leaves the trees at all other entries.
pub proof fn update_is_shared<Id, S>(stored: Stored<Id, S>, id: Id, state: S, other: Id)
    requires
        stored.placed(),
        stored.has(id),
        stored.entries.contains_key(other),
    ensures
        stored.with_state(id, state).tree_of(other) == (if stored.entries[other]
            == stored.entries[id] {
            stored.tree_of(id).with_state(id, state)
        } else {
            stored.tree_of(other)
        }),
{
}

/// An update takes no id away and adds none.
pub proof fn update_keeps_stored_ids<Id, S>(stored: Stored<Id, S>, id: Id, state: S)
    requires
        stored.placed(),
        stored.has(id),
    ensures
        stored.with_state(id, state).placed(),
        forall|x: Id| #[trigger] stored.with_state(id, state).has(x) <==> stored.has(x),
{
    let after = stored.with_state(id, state);
    crate::tree_laws::update_keeps_ids(stored.tree_of(id), id, state);
    assert(stored.leads_to(stored.entries[id]));
    assert forall|p: usize| #[trigger] after.trees.contains_key(p) <==> after.leads_to(p) by {
        assert(after.entries == stored.entries);
        assert(after.leads_to(p) == stored.leads_to(p));
        assert(stored.trees.contains_key(p) <==> stored.leads_to(p));
    }
    assert forall|x: Id| #[trigger] after.has(x) <==> stored.has(x) by {
        if stored.entries.contains_key(x) && stored.entries[x] == stored.entries[id] {
            assert(after.tree_of(x).holds(x) <==> stored.tree_of(x).holds(x));
        }
    }
}

/// A tree put under an id is the tree of that id, which no other id leads to.
pub proof fn insert_then_tree<Id, S>(
    stored: Stored<Id, S>,
    id: Id,
    tree: Tree<Id, S>,
    after: Stored<Id, S>,
)
    requires
        stored.placed(),
        stored.inserted(id, tree, after),
    ensures
        after.placed(),
        after.entries.contains_key(id),
        after.tree_of(id) == tree,
        forall|other: Id| #[trigger]
            after.entries.contains_key(other) && other != id ==> after.entries[other]
                != after.entries[id],
{
    let place = choose|place: usize| #[trigger]
        stored.free_for(id, place) && after == (Stored {
            entries: stored.removed(id).entries.insert(id, place),
            trees: stored.removed(id).trees.insert(place, tree),
        });
    let rest = stored.removed(id);
    remove_keeps_placed(stored, id);
    assert forall|other: Id| #[trigger] after.entries.contains_key(other) && other != id implies
        after.entries[other] != place by {
        assert(rest.entries.contains_key(other));
        assert(rest.leads_to(rest.entries[other]));
    }
    assert forall|p: usize| #[trigger] after.trees.contains_key(p) <==> after.leads_to(p) by {
        if after.trees.contains_key(p) {
            if p == place {
                assert(after.entries.contains_key(id));
            } else {
                assert(rest.leads_to(p));
                let x = choose|x: Id| #[trigger]
                    rest.entries.contains_key(x) && rest.entries[x] == p;
                assert(after.entries.contains_key(x));
            }
        }
        if after.leads_to(p) && p != place {
            let x = choose|x: Id| #[trigger] after.entries.contains_key(x) && after.entries[x] == p;
            assert(rest.entries.contains_key(x));
            assert(rest.leads_to(p));
        }
    }
}

/// An id that is given a single state has that state.
pub proof fn create_then_state<Id, S>(
    stored: Stored<Id, S>,
    id: Id,
    state: S,
    after: Stored<Id, S>,
)
    requires
        stored.placed(),
        stored.inserted(id, Tree::leaf(id, state), after),
    ensures
        after.has(id),
        after.state_of(id) == Some(state),
{
    insert_then_tree(stored, id, Tree::leaf(id, state), after);
}

/// A tree put under an id leaves the trees of all other ids.
pub proof fn insert_leaves_other_trees<Id, S>(
    stored: Stored<Id, S>,
    id: Id,
    tree: Tree<Id, S>,
    after: Stored<Id, S>,
    other: Id,
)
    requires
        stored.placed(),
        stored.inserted(id, tree, after),
        other != id,
    ensures
        after.entries.contains_key(other) <==> stored.entries.contains_key(other),
        stored.entries.contains_key(other) ==> after.tree_of(other) == stored.tree_of(other),
        after.state_of(other) == stored.state_of(other),
{
    insert_then_tree(stored, id, tree, after);
    remove_leaves_other_trees(stored, id, other);
}

/// Without its reference an id has no state, and all other ids have their trees.
pub proof fn remove_leaves_other_trees<Id, S>(stored: Stored<Id, S>, id: Id, other: Id)
    requires
        stored.placed(),
        other != id,
    ensures
        stored.removed(id).state_of(id) is None,
        stored.removed(id).entries.contains_key(other) <==> stored.entries.contains_key(other),
        stored.entries.contains_key(other) ==> stored.removed(id).tree_of(other)
            == stored.tree_of(other),
        stored.removed(id).state_of(other) == stored.state_of(other),
{
    let rest = Stored { entries: stored.entries.remove(id), ..stored };
    if stored.entries.contains_key(other) {
        assert(rest.entries.contains_key(other));
        assert(rest.leads_to(stored.entries[other]));
        assert(stored.leads_to(stored.entries[other]));
    }
}

/// A tree goes with the last reference to it, and not before.
pub proof fn last_reference_keeps_the_tree<Id, S>(stored: Stored<Id, S>, id: Id)
    requires
        stored.placed(),
        stored.entries.contains_key(id),
    ensures
        stored.removed(id).trees.contains_key(stored.entries[id]) <==> exists|other: Id| #[trigger]
            stored.entries.contains_key(other) && other != id && stored.entries[other]
                == stored.entries[id],
{
    let place = stored.entries[id];
    let rest = Stored { entries: stored.entries.remove(id), ..stored };
    assert(stored.leads_to(place));
    if rest.leads_to(place) {
        let x = choose|x: Id| #[trigger] rest.entries.contains_key(x) && rest.entries[x] == place;
        assert(stored.entries.contains_key(x) && x != id);
    }
    if exists|other: Id| #[trigger]
        stored.entries.contains_key(other) && other != id && stored.entries[other] == place {
        let x = choose|other: Id| #[trigger]
            stored.entries.contains_key(other) && other != id && stored.entries[other] == place;
        assert(rest.entries.contains_key(x));
    }
}

/// Without a reference there is still a tree at exactly the places that ids
/// lead to.
pub proof fn remove_keeps_placed<Id, S>(stored: Stored<Id, S>, id: Id)
    requires
        stored.placed(),
    ensures
        stored.removed(id).placed(),
{
    let rest = Stored { entries: stored.entries.remove(id), ..stored };
    lemma_kept_placed(stored, rest);
}

/// Taking references away keeps every entry on a tree.
proof fn lemma_kept_placed<Id, S>(stored: Stored<Id, S>, rest: Stored<Id, S>)
    requires
        stored.placed(),
        rest.trees == stored.trees,
        forall|x: Id| #[trigger]
            rest.entries.contains_key(x) ==> stored.trees.contains_key(rest.entries[x]),
    ensures
        rest.kept().placed(),
{
    let kept = rest.kept();
    assert forall|p: usize| #[trigger] kept.trees.contains_key(p) <==> kept.leads_to(p) by {
        if rest.leads_to(p) {
            let x = choose|x: Id| #[trigger] rest.entries.contains_key(x) && rest.entries[x] == p;
            assert(kept.entries.contains_key(x));
        }
        if kept.leads_to(p) {
            let x = choose|x: Id| #[trigger] kept.entries.contains_key(x) && kept.entries[x] == p;
            assert(rest.entries.contains_key(x));
        }
    }
}

/// An id that shares the tree of another one leads to the same tree, and all
/// other ids keep theirs.
pub proof fn share_then_tree<Id, S>(stored: Stored<Id, S>, id: Id, other: Id, third: Id)
    requires
        stored.placed(),
        stored.entries.contains_key(other),
        third != id,
    ensures
        stored.shared(id, other).placed(),
        stored.shared(id, other).entries[id] == stored.shared(id, other).entries[other],
        stored.shared(id, other).tree_of(id) == stored.tree_of(other),
        stored.shared(id, other).entries.contains_key(third) <==> stored.entries.contains_key(
            third,
        ),
        stored.entries.contains_key(third) ==> stored.shared(id, other).tree_of(third)
            == stored.tree_of(third),
{
    let all = Stored { entries: stored.entries.insert(id, stored.entries[other]), ..stored };
    assert(stored.leads_to(stored.entries[other]));
    assert(all.entries.contains_key(id));
    assert(all.leads_to(stored.entries[other]));
    assert forall|x: Id| #[trigger] all.entries.contains_key(x) implies stored.trees.contains_key(
        all.entries[x],
    ) by {
        if x != id {
            assert(stored.entries.contains_key(x));
            assert(stored.leads_to(stored.entries[x]));
        }
    }
    lemma_kept_placed(stored, all);
    if stored.entries.contains_key(third) {
        assert(all.entries.contains_key(third));
        assert(all.leads_to(stored.entries[third]));
        assert(stored.leads_to(stored.entries[third]));
    }
}

/// Of two updates of one id the last one wins.
pub proof fn last_state_wins<Id, S>(stored: Stored<Id, S>, id: Id, first: S, second: S)
    requires
        stored.placed(),
        stored.has(id),
    ensures
        stored.with_state(id, first).with_state(id, second) == stored.with_state(id, second),
{
    crate::tree_laws::last_update_wins(stored.tree_of(id), id, first, second);
    assert(stored.with_state(id, first).with_state(id, second) =~= stored.with_state(id, second));
}

/// Updates of different ids can be made in any order, in one tree and in two.
pub proof fn states_commute<Id, S>(stored: Stored<Id, S>, a: Id, x: S, b: Id, y: S)
    requires
        stored.placed(),
        stored.has(a),
        stored.has(b),
        a != b,
    ensures
        stored.with_state(a, x).with_state(b, y) == stored.with_state(b, y).with_state(a, x),
{
    let p = stored.with_state(a, x).with_state(b, y);
    let q = stored.with_state(b, y).with_state(a, x);
    if stored.entries[a] == stored.entries[b] {
        let t = stored.tree_of(a);
        crate::tree_laws::updates_commute(t, a, x, b, y);
    }
    assert(p.trees =~= q.trees);
}

} // verus!
