//! What calls on state trees come to.

use vstd::prelude::*;

use crate::kind::HashKind;
use crate::node::{Insert, Node, Update, Zipper};
use crate::state_id::StateId;
use crate::tree::Tree;

verus! {

/// The tree of a node is what its fields hold.
pub proof fn trees_mirror_nodes<Id, S>(node: Node<Id, S>)
    ensures
        node.tree().id == node.id_here(),
        node.tree().state == node.state_here(),
        node.tree().children.len() == node.child_nodes().len(),
        forall|i: int|
            0 <= i < node.child_nodes().len() ==> #[trigger] node.tree().children[i]
                == node.child_nodes()[i].tree(),
{
}

/// A new node has the first state of its kind, and nothing below it.
pub proof fn new_nodes_stand_alone<K: HashKind>(
    id: StateId<K>,
    node: Node<StateId<K>, K::State>,
)
    requires
        call_ensures(Node::<StateId<K>, K::State>::new, (id,), node),
    ensures
        node.tree().id == id,
        node.tree().state == id.kind.initial(),
        node.tree().children.len() == 0,
{
}

/// A lookup finds the node at a place of that name, and nothing only where
/// there is no such place.
pub proof fn get_finds_the_place<K: HashKind>(
    node: &Node<StateId<K>, K::State>,
    id: StateId<K>,
    found: Option<&Node<StateId<K>, K::State>>,
)
    requires
        node.wf(),
        node.tree().names_once(),
        call_ensures(Node::<StateId<K>, K::State>::get, (node, id), found),
    ensures
        found is None <==> forall|path: Seq<int>| !#[trigger] node.tree().leads(path, id),
        found matches Some(n) ==> {
            &&& n.tree().id == id
            &&& forall|path: Seq<int>| #[trigger]
                node.tree().leads(path, id) ==> n.tree() == node.tree().at(path)
        },
{
    let t = node.tree();
    crate::path_laws::held_ids_have_places(t, id);
    crate::path_laws::lookups_end_at_the_place(t, id);
    if t.holds(id) {
        let path = choose|path: Seq<int>| #[trigger] t.leads(path, id);
    }
}

/// A lookup finds the topmost node where that has the name, and else the one at
/// the end of the way towards the id.
pub proof fn get_follows_the_way<K: HashKind>(
    node: &Node<StateId<K>, K::State>,
    id: StateId<K>,
    found: Option<&Node<StateId<K>, K::State>>,
    state: Option<&K::State>,
    path: Seq<int>,
)
    requires
        node.wf(),
        call_ensures(Node::<StateId<K>, K::State>::get, (node, id), found),
        call_ensures(Node::<StateId<K>, K::State>::get_state, (node, id), state),
        node.tree().walks(path, id),
    ensures
        found is Some <==> exists|p: Seq<int>| #[trigger] node.tree().leads(p, id),
        found matches Some(n) ==> n.tree() == (if node.tree().id == id {
            node.tree()
        } else {
            node.tree().at(path)
        }),
        state is Some <==> found is Some,
        found matches Some(n) ==> *state.unwrap() == n.tree().state,
{
    crate::path_laws::held_ids_have_places(node.tree(), id);
    if node.tree().holds(id) {
        crate::path_laws::lookups_follow_the_way(node.tree(), id, path);
    }
}

/// A lookup of a state gives the state at a place of that name, and nothing
/// only where there is no such place.
pub proof fn get_state_reads_the_place<K: HashKind>(
    node: &Node<StateId<K>, K::State>,
    id: StateId<K>,
    state: Option<&K::State>,
)
    requires
        node.wf(),
        node.tree().names_once(),
        call_ensures(Node::<StateId<K>, K::State>::get_state, (node, id), state),
    ensures
        state is None <==> forall|path: Seq<int>| !#[trigger] node.tree().leads(path, id),
        state matches Some(s) ==> forall|path: Seq<int>| #[trigger]
            node.tree().leads(path, id) ==> *s == node.tree().at(path).state,
{
    crate::path_laws::held_ids_have_places(node.tree(), id);
    crate::path_laws::lookups_end_at_the_place(node.tree(), id);
}

/// The parent of an id is the state that its path comes to last before it.
pub proof fn get_parent_id_looks_one_place_up<K: HashKind>(
    node: &Node<StateId<K>, K::State>,
    id: StateId<K>,
    parent: Option<StateId<K>>,
)
    requires
        node.wf(),
        node.tree().names_once(),
        call_ensures(Node::<StateId<K>, K::State>::get_parent_id, (node, id), parent),
    ensures
        forall|path: Seq<int>| #[trigger]
            node.tree().leads(path, id) && path.len() > 0 ==> parent == Some(
                node.tree().at(path.drop_last()).id,
            ),
        (forall|path: Seq<int>| #[trigger] node.tree().leads(path, id) ==> path.len() == 0)
            ==> parent is None,
{
    crate::path_laws::parents_are_one_place_up(node.tree(), id);
}

/// The child towards an id is the first one with a place of that name under it.
pub proof fn child_idx_is_the_first_on_the_way<K: HashKind>(
    node: &Node<StateId<K>, K::State>,
    id: StateId<K>,
    idx: Option<usize>,
    path: Seq<int>,
)
    requires
        node.wf(),
        call_ensures(Node::<StateId<K>, K::State>::child_idx, (node, id), idx),
        node.tree().leads(path, id),
        path.len() > 0,
    ensures
        idx matches Some(i) && i <= path[0] && i < node.tree().children.len() && exists|
            rest: Seq<int>,
        | #[trigger]
            node.tree().children[i as int].leads(rest, id),
{
    let t = node.tree();
    crate::path_laws::held_ids_have_places(t, id);
    let c = t.children[path[0]];
    assert(c.leads(path.drop_first(), id));
    crate::path_laws::held_ids_have_places(c, id);
    assert(c.holds(id));
    if let Some(i) = idx {
        assert(t.children[i as int].holds(id));
        crate::path_laws::held_ids_have_places(t.children[i as int], id);
    }
}

/// Without a place of that name below the top there is no child towards it.
pub proof fn no_child_leads_to_absent_ids<K: HashKind>(
    node: &Node<StateId<K>, K::State>,
    id: StateId<K>,
    idx: Option<usize>,
    child: Option<&Node<StateId<K>, K::State>>,
)
    requires
        node.wf(),
        call_ensures(Node::<StateId<K>, K::State>::child_idx, (node, id), idx),
        call_ensures(Node::<StateId<K>, K::State>::child, (node, id), child),
    ensures
        (forall|path: Seq<int>| #[trigger] node.tree().leads(path, id) ==> path.len() == 0) ==> idx
            is None && child is None,
        child is Some <==> idx is Some,
        child matches Some(c) ==> *c == node.child_nodes()[idx.unwrap() as int],
{
    let t = node.tree();
    crate::path_laws::held_ids_have_places(t, id);
    t.lemma_next(id);
    if let Some(i) = idx {
        t.lemma_next_unique(id, i as int);
    }
}

/// An update sets the state at the end of the way towards its id, which in a
/// tree without repeated ids is its one place. Every place keeps its id
/// and its children, and every other place its state.
pub proof fn update_sets_the_place<K: HashKind>(
    node: &mut Node<StateId<K>, K::State>,
    update: Update<StateId<K>, K::State>,
    place: Seq<int>,
    path: Seq<int>,
)
    requires
        old(node).wf(),
        old(node).tree().holds(update.id),
        old(node).tree().walks(place, update.id),
        call_ensures(Node::<StateId<K>, K::State>::update, (node, update), ()),
    ensures
        final(node).tree().has_path(path) == old(node).tree().has_path(path),
        old(node).tree().has_path(path) ==> {
            let before = old(node).tree().at(path);
            let after = final(node).tree().at(path);
            &&& after.id == before.id
            &&& after.children.len() == before.children.len()
            &&& after.state == (if path == place {
                update.state
            } else {
                before.state
            })
        },
{
    crate::path_laws::updates_set_one_place(
        old(node).tree(),
        update.id,
        update.state,
        place,
        path,
    );
}

/// The same of an update by value.
pub proof fn into_update_sets_the_place<K: HashKind>(
    node: Node<StateId<K>, K::State>,
    update: Update<StateId<K>, K::State>,
    updated: Node<StateId<K>, K::State>,
    place: Seq<int>,
    path: Seq<int>,
)
    requires
        node.wf(),
        node.tree().holds(update.id),
        node.tree().walks(place, update.id),
        call_ensures(Node::<StateId<K>, K::State>::into_update, (node, update), updated),
    ensures
        updated.tree().has_path(path) == node.tree().has_path(path),
        node.tree().has_path(path) ==> {
            let before = node.tree().at(path);
            let after = updated.tree().at(path);
            &&& after.id == before.id
            &&& after.children.len() == before.children.len()
            &&& after.state == (if path == place {
                update.state
            } else {
                before.state
            })
        },
{
    crate::path_laws::updates_set_one_place(
        node.tree(),
        update.id,
        update.state,
        place,
        path,
    );
}

/// The same of an update that tells the parent: that is the state one place up
/// on the path of the id.
pub proof fn update_and_get_parent_id_sets_the_place<K: HashKind>(
    node: &mut Node<StateId<K>, K::State>,
    update: Update<StateId<K>, K::State>,
    parent: Option<StateId<K>>,
    place: Seq<int>,
    path: Seq<int>,
)
    requires
        old(node).wf(),
        old(node).tree().holds(update.id),
        old(node).tree().walks(place, update.id),
        call_ensures(
            Node::<StateId<K>, K::State>::update_and_get_parent_id,
            (node, update),
            parent,
        ),
    ensures
        final(node).tree().has_path(path) == old(node).tree().has_path(path),
        old(node).tree().has_path(path) ==> {
            let before = old(node).tree().at(path);
            let after = final(node).tree().at(path);
            &&& after.id == before.id
            &&& after.children.len() == before.children.len()
            &&& after.state == (if path == place {
                update.state
            } else {
                before.state
            })
        },
        parent == (if place.len() == 0 {
            None
        } else {
            Some(old(node).tree().at(place.drop_last()).id)
        }),
{
    let t = old(node).tree();
    crate::path_laws::updates_set_one_place(t, update.id, update.state, place, path);
    crate::path_laws::parents_are_one_step_back(t, place, update.id);
}

/// An insertion puts a state in the first state of its kind last below the end
/// of the way towards the parent, and every place that there was keeps its id and its state.
pub proof fn insert_adds_the_place<K: HashKind>(
    node: &mut Node<StateId<K>, K::State>,
    insert: Insert<StateId<K>>,
    parent: StateId<K>,
    place: Seq<int>,
    path: Seq<int>,
)
    requires
        old(node).wf(),
        insert.parent_id == Some(parent),
        old(node).tree().holds(parent),
        old(node).tree().walks(place, parent),
        call_ensures(Node::<StateId<K>, K::State>::insert, (node, insert), ()),
    ensures
        ({
            let added = place.push(old(node).tree().at(place).children.len() as int);
            let after = final(node).tree();
            &&& after.has_path(path) == (old(node).tree().has_path(path) || path == added)
            &&& old(node).tree().has_path(path) ==> {
                &&& after.at(path).id == old(node).tree().at(path).id
                &&& after.at(path).state == old(node).tree().at(path).state
            }
            &&& path == added ==> {
                &&& after.at(path).id == insert.id
                &&& after.at(path).state == insert.id.kind.initial()
                &&& after.at(path).children.len() == 0
            }
        }),
{
    crate::path_laws::insertions_add_one_place(
        old(node).tree(),
        parent,
        Tree::leaf(insert.id, insert.id.kind.initial()),
        place,
        path,
    );
}

/// The same of an insertion by value.
pub proof fn into_insert_adds_the_place<K: HashKind>(
    node: Node<StateId<K>, K::State>,
    insert: Insert<StateId<K>>,
    grown: Node<StateId<K>, K::State>,
    parent: StateId<K>,
    place: Seq<int>,
    path: Seq<int>,
)
    requires
        node.wf(),
        insert.parent_id == Some(parent),
        node.tree().holds(parent),
        node.tree().walks(place, parent),
        call_ensures(Node::<StateId<K>, K::State>::into_insert, (node, insert), grown),
    ensures
        ({
            let added = place.push(node.tree().at(place).children.len() as int);
            let after = grown.tree();
            &&& after.has_path(path) == (node.tree().has_path(path) || path == added)
            &&& node.tree().has_path(path) ==> {
                &&& after.at(path).id == node.tree().at(path).id
                &&& after.at(path).state == node.tree().at(path).state
            }
            &&& path == added ==> {
                &&& after.at(path).id == insert.id
                &&& after.at(path).state == insert.id.kind.initial()
                &&& after.at(path).children.len() == 0
            }
        }),
{
    crate::path_laws::insertions_add_one_place(
        node.tree(),
        parent,
        Tree::leaf(insert.id, insert.id.kind.initial()),
        place,
        path,
    );
}

/// A closure that rewrites only the state of the node it is handed, by `g`,
/// gives each place of the tree the state that `g` makes of the id and the
/// state that were there, whatever stands below it.
pub proof fn update_all_fn_reaches_every_place<K: HashKind, F>(
    node: &mut Node<StateId<K>, K::State>,
    f: F,
    g: spec_fn(StateId<K>, K::State) -> K::State,
    path: Seq<int>,
) where F: Fn(Zipper<StateId<K>, K::State>) -> Node<StateId<K>, K::State>
    requires
        call_ensures(Node::<StateId<K>, K::State>::update_all_fn::<F>, (node, f), ()),
        forall|z: Zipper<StateId<K>, K::State>, n: Node<StateId<K>, K::State>|
            z.at_top() && #[trigger] f.ensures((z,), n) ==> n.has_other_state(
                z.focus(),
                g(z.focus().tree().id, z.focus().tree().state),
            ),
    ensures
        final(node).tree().has_path(path) == old(node).tree().has_path(path),
        old(node).tree().has_path(path) ==> {
            let before = old(node).tree().at(path);
            let after = final(node).tree().at(path);
            &&& after.id == before.id
            &&& after.children.len() == before.children.len()
            &&& after.state == g(before.id, before.state)
        },
{
    crate::node::update_all_rewrites_states(f, *old(node), *final(node), g);
    crate::path_laws::rewrites_reach_every_place(old(node).tree(), g, path);
}

/// After such a rewrite the state looked up at an id is what `g` makes of the
/// id and of the state that was looked up before.
pub proof fn update_all_fn_then_get_state<K: HashKind, F>(
    node: &mut Node<StateId<K>, K::State>,
    f: F,
    g: spec_fn(StateId<K>, K::State) -> K::State,
    id: StateId<K>,
    before: Option<&K::State>,
    after: Option<&K::State>,
) where F: Fn(Zipper<StateId<K>, K::State>) -> Node<StateId<K>, K::State>
    requires
        old(node).wf(),
        call_ensures(Node::<StateId<K>, K::State>::get_state, (&*old(node), id), before),
        call_ensures(Node::<StateId<K>, K::State>::update_all_fn::<F>, (node, f), ()),
        call_ensures(Node::<StateId<K>, K::State>::get_state, (&*final(node), id), after),
        forall|z: Zipper<StateId<K>, K::State>, n: Node<StateId<K>, K::State>|
            z.at_top() && #[trigger] f.ensures((z,), n) ==> n.has_other_state(
                z.focus(),
                g(z.focus().tree().id, z.focus().tree().state),
            ),
    ensures
        final(node).wf(),
        after is Some <==> before is Some,
        before matches Some(s) ==> *after.unwrap() == g(id, *s),
{
    crate::node::update_all_rewrites_states(f, *old(node), *final(node), g);
    crate::path_laws::rewritten_states_are_found(old(node).tree(), g, id);
    crate::tree_laws::map_states_keeps_ids(old(node).tree(), g);
}

/// From a cursor at the top, such a closure reaches every place of the tree as well.
pub proof fn finish_update_fn_reaches_every_place<K: HashKind, F>(
    z: Zipper<StateId<K>, K::State>,
    f: F,
    node: Node<StateId<K>, K::State>,
    g: spec_fn(StateId<K>, K::State) -> K::State,
    path: Seq<int>,
) where F: Fn(Zipper<StateId<K>, K::State>) -> Node<StateId<K>, K::State>
    requires
        call_ensures(Node::<StateId<K>, K::State>::zipper, (z.focus(),), z),
        call_ensures(Zipper::<StateId<K>, K::State>::finish_update_fn::<F>, (z, f), node),
        forall|z: Zipper<StateId<K>, K::State>, n: Node<StateId<K>, K::State>|
            z.at_top() && #[trigger] f.ensures((z,), n) ==> n.has_other_state(
                z.focus(),
                g(z.focus().tree().id, z.focus().tree().state),
            ),
    ensures
        node.tree().has_path(path) == z.focus().tree().has_path(path),
        z.focus().tree().has_path(path) ==> {
            let before = z.focus().tree().at(path);
            let after = node.tree().at(path);
            &&& after.id == before.id
            &&& after.children.len() == before.children.len()
            &&& after.state == g(before.id, before.state)
        },
{
    crate::node::update_all_rewrites_states(f, z.focus(), node, g);
    crate::path_laws::rewrites_reach_every_place(z.focus().tree(), g, path);
}

/// A cursor that did not move gives its node back.
pub proof fn zipper_then_finish_is_the_node<K: HashKind>(
    node: Node<StateId<K>, K::State>,
    z: Zipper<StateId<K>, K::State>,
    done: Node<StateId<K>, K::State>,
)
    requires
        call_ensures(Node::<StateId<K>, K::State>::zipper, (node,), z),
        call_ensures(Zipper::<StateId<K>, K::State>::finish_update, (z,), done),
    ensures
        done == node,
{
}

} // verus!
