//! What operations on state trees do, place by place.
//!
//! A place in a tree is told by the positions of the children on the way to it.

use vstd::prelude::*;

use crate::tree::Tree;

verus! {

impl<Id, S> Tree<Id, S> {
    /// There is a state at the end of `path`.
    pub open spec fn has_path(self, path: Seq<int>) -> bool
        decreases path.len(),
    {
        path.len() > 0 ==> 0 <= path[0] < self.children.len() && self.children[path[0]].has_path(
            path.drop_first(),
        )
    }

    /// The state at the end of `path`, with those below it.
    pub open spec fn at(self, path: Seq<int>) -> Self
        decreases path.len(),
    {
        if path.len() == 0 {
            self
        } else {
            self.children[path[0]].at(path.drop_first())
        }
    }

    /// `path` leads to a state named `id`.
    pub open spec fn leads(self, path: Seq<int>, id: Id) -> bool {
        self.has_path(path) && self.at(path).id == id
    }

    /// `path` is the way towards `id`: each time into the first child with a
    /// place of that name at it or below it, for as long as there is one.
    pub open spec fn walks(self, path: Seq<int>, id: Id) -> bool
        decreases path.len(),
    {
        if path.len() == 0 {
            forall|p: Seq<int>| #[trigger] self.leads(p, id) ==> p.len() == 0
        } else {
            &&& 0 <= path[0] < self.children.len()
            &&& exists|p: Seq<int>| #[trigger] self.children[path[0]].leads(p, id)
            &&& forall|j: int, p: Seq<int>|
                0 <= j < path[0] ==> !#[trigger] self.children[j].leads(p, id)
            &&& self.children[path[0]].walks(path.drop_first(), id)
        }
    }

    /// No two places have states of one name.
    pub open spec fn names_once(self) -> bool {
        forall|p: Seq<int>, q: Seq<int>, id: Id|
            #[trigger] self.leads(p, id) && #[trigger] self.leads(q, id) ==> p == q
    }
}

/// A place below a child is a place below its parent.
proof fn lemma_step<Id, S>(t: Tree<Id, S>, i: int, path: Seq<int>)
    requires
        0 <= i < t.children.len(),
    ensures
        (seq![i] + path).len() == path.len() + 1,
        (seq![i] + path)[0] == i,
        (seq![i] + path).drop_first() == path,
        t.has_path(seq![i] + path) == t.children[i].has_path(path),
        t.at(seq![i] + path) == t.children[i].at(path),
{
    assert((seq![i] + path).drop_first() =~= path);
}

/// A tree holds an id exactly where one of its places has a state of that name.
pub proof fn held_ids_have_places<Id, S>(t: Tree<Id, S>, id: Id)
    ensures
        t.holds(id) <==> exists|path: Seq<int>| #[trigger] t.leads(path, id),
        t.below(id) <==> exists|path: Seq<int>| #[trigger] t.leads(path, id) && path.len() > 0,
    decreases t,
{
    t.lemma_holds(id);
    if t.id == id {
        assert(t.leads(Seq::empty(), id));
    }
    if t.below(id) {
        let i = choose|i: int| 0 <= i < t.children.len() && (#[trigger] t.children[i]).holds(id);
        held_ids_have_places(t.children[i], id);
        let path = choose|path: Seq<int>| #[trigger] t.children[i].leads(path, id);
        lemma_step(t, i, path);
        assert(t.leads(seq![i] + path, id));
    }
    assert forall|path: Seq<int>| #[trigger] t.leads(path, id) && path.len() > 0 implies t.below(
        id,
    ) by {
        let c = t.children[path[0]];
        assert(c.leads(path.drop_first(), id));
        held_ids_have_places(c, id);
        assert(c.holds(id));
    }
    assert forall|path: Seq<int>| #[trigger] t.leads(path, id) && path.len() == 0 implies t.id
        == id by {
    }
}

/// No id names two states exactly where no two places have states of one name.
pub proof fn distinct_names_once<Id, S>(t: Tree<Id, S>)
    ensures
        t.distinct() <==> t.names_once(),
    decreases t,
{
    assert forall|i: int| 0 <= i < t.children.len() implies (#[trigger] t.children[i]).distinct()
        == t.children[i].names_once() by {
        distinct_names_once(t.children[i]);
    }
    if t.distinct() {
        assert forall|p: Seq<int>, q: Seq<int>, id: Id|
            #[trigger] t.leads(p, id) && #[trigger] t.leads(q, id) implies p == q by {
            held_ids_have_places(t, id);
            if p.len() > 0 && q.len() > 0 {
                let i = p[0];
                let j = q[0];
                held_ids_have_places(t.children[i], id);
                held_ids_have_places(t.children[j], id);
                assert(t.children[i].leads(p.drop_first(), id));
                assert(t.children[j].leads(q.drop_first(), id));
                assert(t.children[i].holds(id) && t.children[j].holds(id));
                assert(i == j);
                assert(t.children[i].names_once());
                assert(p.drop_first() == q.drop_first());
                assert(p =~= seq![i] + p.drop_first());
                assert(q =~= seq![i] + q.drop_first());
            } else if p.len() > 0 || q.len() > 0 {
                assert(t.id == id && t.below(id));
            } else {
                assert(p =~= q);
            }
        }
    }
    if t.names_once() {
        if t.below(t.id) {
            held_ids_have_places(t, t.id);
            let path = choose|path: Seq<int>| #[trigger] t.leads(path, t.id) && path.len() > 0;
            assert(t.leads(Seq::empty(), t.id));
            assert(false);
        }
        assert forall|i: int| 0 <= i < t.children.len() implies (
        #[trigger] t.children[i]).distinct() by {
            let c = t.children[i];
            assert forall|p: Seq<int>, q: Seq<int>, id: Id|
                #[trigger] c.leads(p, id) && #[trigger] c.leads(q, id) implies p == q by {
                lemma_step(t, i, p);
                lemma_step(t, i, q);
                assert(t.leads(seq![i] + p, id));
                assert(t.leads(seq![i] + q, id));
                assert((seq![i] + p).drop_first() =~= p);
                assert((seq![i] + q).drop_first() =~= q);
            }
        }
        assert forall|i: int, j: int, id: Id|
            0 <= i < j < t.children.len() && #[trigger] t.children[i].holds(id) implies !(
        #[trigger] t.children[j].holds(id)) by {
            if t.children[j].holds(id) {
                held_ids_have_places(t.children[i], id);
                held_ids_have_places(t.children[j], id);
                let p = choose|p: Seq<int>| #[trigger] t.children[i].leads(p, id);
                let q = choose|q: Seq<int>| #[trigger] t.children[j].leads(q, id);
                lemma_step(t, i, p);
                lemma_step(t, j, q);
                assert(t.leads(seq![i] + p, id));
                assert(t.leads(seq![j] + q, id));
                assert((seq![i] + p)[0] == (seq![j] + q)[0]);
            }
        }
    }
}

/// The walk towards an id starts into the first child of its path.
proof fn lemma_walk<Id, S>(t: Tree<Id, S>, path: Seq<int>, id: Id)
    requires
        t.holds(id),
        t.walks(path, id),
    ensures
        path.len() == 0 ==> !t.below(id) && t.id == id,
        path.len() > 0 ==> {
            &&& t.below(id)
            &&& t.is_next(id, path[0])
            &&& t.next(id) == path[0]
            &&& t.children[path[0]].holds(id)
            &&& t.children[path[0]].walks(path.drop_first(), id)
        },
{
    held_ids_have_places(t, id);
    t.lemma_holds(id);
    t.lemma_next(id);
    if path.len() > 0 {
        let i = path[0];
        held_ids_have_places(t.children[i], id);
        assert forall|j: int| 0 <= j < i implies !(#[trigger] t.children[j]).holds(id) by {
            held_ids_have_places(t.children[j], id);
        }
        assert(t.is_next(id, i));
        t.lemma_next_unique(id, i);
    }
}

/// In a tree without repeated ids, the way towards an id leads to its one place.
pub proof fn single_places_are_walked_to<Id, S>(t: Tree<Id, S>, path: Seq<int>, id: Id)
    requires
        t.names_once(),
        t.leads(path, id),
    ensures
        t.holds(id),
        t.walks(path, id),
    decreases path.len(),
{
    held_ids_have_places(t, id);
    if path.len() > 0 {
        let i = path[0];
        let c = t.children[i];
        let rest = path.drop_first();
        assert(c.leads(rest, id));
        distinct_names_once(t);
        distinct_names_once(c);
        single_places_are_walked_to(c, rest, id);
        assert forall|j: int, p: Seq<int>| 0 <= j < i implies !#[trigger] t.children[j].leads(
            p,
            id,
        ) by {
            if t.children[j].leads(p, id) {
                lemma_step(t, j, p);
                assert(t.leads(seq![j] + p, id));
                assert((seq![j] + p)[0] == path[0]);
            }
        }
    }
}

/// There is one way towards an id, and it ends at a state of that name if the
/// tree holds one.
pub proof fn every_id_has_one_way<Id, S>(t: Tree<Id, S>, id: Id)
    ensures
        exists|path: Seq<int>| #[trigger] t.walks(path, id),
        forall|p: Seq<int>, q: Seq<int>|
            #[trigger] t.walks(p, id) && #[trigger] t.walks(q, id) ==> p == q,
        forall|path: Seq<int>| #[trigger] t.walks(path, id) && t.holds(id) ==> t.leads(path, id),
    decreases t,
{
    held_ids_have_places(t, id);
    t.lemma_next(id);
    if t.below(id) {
        let i = t.next(id);
        let c = t.children[i];
        every_id_has_one_way(c, id);
        let rest = choose|path: Seq<int>| #[trigger] c.walks(path, id);
        let path = seq![i] + rest;
        assert(path.drop_first() =~= rest);
        held_ids_have_places(c, id);
        assert forall|j: int, p: Seq<int>| 0 <= j < i implies !#[trigger] t.children[j].leads(
            p,
            id,
        ) by {
            held_ids_have_places(t.children[j], id);
            assert(!t.children[j].holds(id));
        }
        assert(t.walks(path, id));
    } else {
        assert(t.walks(Seq::empty(), id));
    }
    assert forall|p: Seq<int>, q: Seq<int>|
        #[trigger] t.walks(p, id) && #[trigger] t.walks(q, id) implies p == q by {
        lemma_one_way(t, p, q, id);
    }
    assert forall|path: Seq<int>| #[trigger] t.walks(path, id) && t.holds(id) implies t.leads(
        path,
        id,
    ) by {
        lemma_way_leads(t, path, id);
    }
}

proof fn lemma_way_leads<Id, S>(t: Tree<Id, S>, path: Seq<int>, id: Id)
    requires
        t.holds(id),
        t.walks(path, id),
    ensures
        t.leads(path, id),
        t.find(id) == t.at(path),
    decreases path.len(),
{
    lemma_walk(t, path, id);
    t.lemma_next(id);
    if path.len() > 0 {
        lemma_way_leads(t.children[path[0]], path.drop_first(), id);
    }
}

proof fn lemma_one_way<Id, S>(t: Tree<Id, S>, p: Seq<int>, q: Seq<int>, id: Id)
    requires
        t.walks(p, id),
        t.walks(q, id),
    ensures
        p == q,
    decreases p.len(),
{
    held_ids_have_places(t, id);
    if t.below(id) {
        t.lemma_holds(id);
        lemma_walk(t, p, id);
        lemma_walk(t, q, id);
        lemma_one_way(t.children[p[0]], p.drop_first(), q.drop_first(), id);
        assert(p =~= seq![p[0]] + p.drop_first());
        assert(q =~= seq![q[0]] + q.drop_first());
    } else {
        if p.len() > 0 {
            held_ids_have_places(t.children[p[0]], id);
        }
        if q.len() > 0 {
            held_ids_have_places(t.children[q[0]], id);
        }
        assert(p =~= q);
    }
}

/// A lookup comes to the topmost state where that has the name, and else to the
/// state at the end of the way towards the id.
pub proof fn lookups_follow_the_way<Id, S>(t: Tree<Id, S>, id: Id, path: Seq<int>)
    requires
        t.holds(id),
        t.walks(path, id),
    ensures
        t.id == id ==> t.lookup(id) == Some(t),
        t.id != id ==> t.lookup(id) == Some(t.at(path)),
        t.find(id) == t.at(path),
{
    lemma_way_leads(t, path, id);
    t.lemma_holds(id);
}

/// In a tree without repeated ids, a lookup comes to the state at the one
/// place of that name, with all that is below it, and to nothing where there is
/// no such place.
pub proof fn lookups_end_at_the_place<Id, S>(t: Tree<Id, S>, id: Id)
    requires
        t.names_once(),
    ensures
        forall|path: Seq<int>| #[trigger]
            t.leads(path, id) ==> t.lookup(id) == Some(t.at(path)) && t.find(id) == t.at(path),
        (forall|path: Seq<int>| !#[trigger] t.leads(path, id)) ==> t.lookup(id) is None,
{
    held_ids_have_places(t, id);
    t.lemma_holds(id);
    assert forall|path: Seq<int>| #[trigger] t.leads(path, id) implies t.lookup(id) == Some(
        t.at(path),
    ) && t.find(id) == t.at(path) by {
        single_places_are_walked_to(t, path, id);
        lemma_way_leads(t, path, id);
        lemma_walk(t, path, id);
        if path.len() > 0 && t.id == id {
            assert(t.leads(Seq::empty(), id));
        }
    }
}

/// In a tree without repeated ids, the parent of an id is the state at the
/// place that its path comes to last before it. The topmost state has none, and
/// neither has an id that names no state.
pub proof fn parents_are_one_place_up<Id, S>(t: Tree<Id, S>, id: Id)
    requires
        t.names_once(),
    ensures
        forall|path: Seq<int>| #[trigger]
            t.leads(path, id) && path.len() > 0 ==> t.parent_of(id) == Some(
                t.at(path.drop_last()).id,
            ) && t.above_find(id) == Some(t.at(path.drop_last()).id),
        (forall|path: Seq<int>| #[trigger] t.leads(path, id) ==> path.len() == 0) ==> t.parent_of(
            id,
        ) is None && t.above_find(id) is None,
{
    held_ids_have_places(t, id);
    t.lemma_next(id);
    assert forall|path: Seq<int>| #[trigger] t.leads(path, id) && path.len() > 0 implies t.parent_of(
        id,
    ) == Some(t.at(path.drop_last()).id) && t.above_find(id) == Some(
        t.at(path.drop_last()).id,
    ) by {
        single_places_are_walked_to(t, path, id);
        parents_are_one_step_back(t, path, id);
        distinct_names_once(t);
        crate::tree_laws::distinct_met_once(t, id);
        crate::tree_laws::parents_agree(t, id);
    }
}

/// The state above the end of the way towards an id is the one that the way
/// comes to last before it.
pub proof fn parents_are_one_step_back<Id, S>(t: Tree<Id, S>, path: Seq<int>, id: Id)
    requires
        t.holds(id),
        t.walks(path, id),
    ensures
        path.len() == 0 ==> t.above_find(id) is None,
        path.len() > 0 ==> t.has_path(path.drop_last()) && t.above_find(id) == Some(
            t.at(path.drop_last()).id,
        ),
    decreases path.len(),
{
    lemma_walk(t, path, id);
    t.lemma_next(id);
    if path.len() > 0 {
        let c = t.children[path[0]];
        let rest = path.drop_first();
        lemma_walk(c, rest, id);
        if rest.len() > 0 {
            parents_are_one_step_back(c, rest, id);
            assert(path.drop_last().drop_first() =~= rest.drop_last());
            assert(path.drop_last()[0] == path[0]);
        } else {
            assert(path.drop_last() =~= Seq::<int>::empty());
        }
    }
}

/// An update sets the state at the end of the way towards its id. At every place there is the id that was there, with as many
/// children, and at every other place the state that was there.
pub proof fn updates_set_one_place<Id, S>(
    t: Tree<Id, S>,
    id: Id,
    state: S,
    place: Seq<int>,
    path: Seq<int>,
)
    requires
        t.holds(id),
        t.walks(place, id),
    ensures
        t.with_state(id, state).has_path(path) == t.has_path(path),
        t.has_path(path) ==> {
            let after = t.with_state(id, state).at(path);
            &&& after.id == t.at(path).id
            &&& after.children.len() == t.at(path).children.len()
            &&& after.state == (if path == place {
                state
            } else {
                t.at(path).state
            })
        },
    decreases place.len(),
{
    lemma_walk(t, place, id);
    lemma_way_leads(t, place, id);
    t.lemma_next(id);
    let after = t.with_state(id, state);
    if place.len() > 0 {
        let i = place[0];
        let c = t.children[i];
        assert(after == (Tree {
            children: t.children.update(i, c.with_state(id, state)),
            ..t
        }));
        if path.len() > 0 {
            updates_set_one_place(c, id, state, place.drop_first(), path.drop_first());
            if path == place {
                assert(path.drop_first() == place.drop_first());
            } else if path[0] == i && path.drop_first() == place.drop_first() {
                assert(path =~= seq![i] + path.drop_first());
                assert(place =~= seq![i] + place.drop_first());
            }
        }
    } else {
        assert(after == (Tree { state, ..t }));
        if path.len() == 0 {
            assert(path =~= place);
        }
    }
}

/// An update repeats no id, and an insertion of a new id repeats none.
pub proof fn changes_keep_names_apart<Id, S>(
    t: Tree<Id, S>,
    id: Id,
    state: S,
    added: Id,
    first: S,
)
    requires
        t.names_once(),
        t.holds(id),
    ensures
        t.with_state(id, state).names_once(),
        !t.holds(added) ==> t.with_child(id, Tree::leaf(added, first)).names_once(),
{
    distinct_names_once(t);
    crate::tree_laws::update_keeps_distinct(t, id, state);
    distinct_names_once(t.with_state(id, state));
    if !t.holds(added) {
        crate::tree_laws::insert_keeps_distinct(t, id, added, first);
        distinct_names_once(t.with_child(id, Tree::leaf(added, first)));
    }
}

/// An insertion puts a single new state last below the end of the way towards
/// the name of its parent. At every place that there
/// was, there are the id and the state that were there.
pub proof fn insertions_add_one_place<Id, S>(
    t: Tree<Id, S>,
    parent: Id,
    leaf: Tree<Id, S>,
    place: Seq<int>,
    path: Seq<int>,
)
    requires
        t.holds(parent),
        t.walks(place, parent),
        leaf.children.len() == 0,
    ensures
        ({
            let after = t.with_child(parent, leaf);
            let added = place.push(t.at(place).children.len() as int);
            &&& after.has_path(path) == (t.has_path(path) || path == added)
            &&& t.has_path(path) ==> after.at(path).id == t.at(path).id && after.at(path).state
                == t.at(path).state && path != added
            &&& path == added ==> after.at(path) == leaf
        }),
    decreases place.len(),
{
    lemma_walk(t, place, parent);
    lemma_way_leads(t, place, parent);
    t.lemma_next(parent);
    let after = t.with_child(parent, leaf);
    let n = t.at(place).children.len() as int;
    let added = place.push(n);
    if place.len() > 0 {
        let i = place[0];
        let c = t.children[i];
        let rest = place.drop_first();
        assert(after == (Tree {
            children: t.children.update(i, c.with_child(parent, leaf)),
            ..t
        }));
        assert(added.drop_first() =~= rest.push(n));
        if path.len() > 0 {
            insertions_add_one_place(c, parent, leaf, rest, path.drop_first());
            if path[0] == i && path.drop_first() == rest.push(n) {
                assert(path =~= seq![i] + path.drop_first());
                assert(added =~= seq![i] + added.drop_first());
                assert(path == added);
            }
            if path == added {
                assert(path[0] == i);
                assert(path.drop_first() == rest.push(n));
            }
        }
    } else {
        assert(after == (Tree { children: t.children.push(leaf), ..t }));
        assert(t.at(place) == t);
        assert(added =~= seq![n]);
        assert(added.drop_first() =~= Seq::<int>::empty());
        if path.len() > 0 {
            let rest = path.drop_first();
            assert(path =~= seq![path[0]] + rest);
            if path[0] == n {
                if rest.len() > 0 {
                    assert(!leaf.has_path(rest));
                    assert(path.len() != added.len());
                } else {
                    assert(path =~= added);
                    assert(leaf.has_path(rest));
                    assert(leaf.at(rest) == leaf);
                }
            } else if 0 <= path[0] < n {
                assert(after.children[path[0]] == t.children[path[0]]);
            }
        }
    }
}

/// Rewriting every state by `g` gives each place the state that `g` makes of
/// the id and the state that were there, whatever stands below it, and leaves
/// the places and the ids.
pub proof fn rewrites_reach_every_place<Id, S>(t: Tree<Id, S>, g: spec_fn(Id, S) -> S, path: Seq<int>)
    ensures
        t.map_states(g).has_path(path) == t.has_path(path),
        t.has_path(path) ==> {
            let after = t.map_states(g).at(path);
            &&& after.id == t.at(path).id
            &&& after.children.len() == t.at(path).children.len()
            &&& after.state == g(t.at(path).id, t.at(path).state)
        },
    decreases path.len(),
{
    if path.len() > 0 && 0 <= path[0] < t.children.len() {
        rewrites_reach_every_place(t.children[path[0]], g, path.drop_first());
    }
}

/// With every state rewritten by `g`, the state looked up at an id is what `g`
/// makes of the id and of the state that was looked up before. No id is found
/// that was not, and none is lost.
pub proof fn rewritten_states_are_found<Id, S>(t: Tree<Id, S>, g: spec_fn(Id, S) -> S, id: Id)
    ensures
        t.map_states(g).lookup(id) is Some <==> t.lookup(id) is Some,
        t.lookup(id) matches Some(before) ==> t.map_states(g).lookup(id) matches Some(after)
            && after.state == g(id, before.state) && after.id == id,
{
    crate::tree_laws::map_states_then_lookup(t, g, id);
    t.lemma_holds(id);
    if t.holds(id) {
        crate::tree_laws::find_ends_at_id(t, id);
    }
    if let Some(before) = t.lookup(id) {
        rewrites_reach_every_place(before, g, Seq::empty());
    }
}

} // verus!
