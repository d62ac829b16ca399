//! What holds of state trees across operations.

use vstd::prelude::*;

use crate::tree::Tree;

verus! {

impl<Id, S> Tree<Id, S> {
    /// No id names two states.
    pub open spec fn distinct(self) -> bool
        decreases self,
    {
        &&& !self.below(self.id)
        &&& forall|i: int, j: int, id: Id|
            0 <= i < j < self.children.len() && #[trigger] self.children[i].holds(id)
                ==> !#[trigger] self.children[j].holds(id)
        &&& forall|i: int| 0 <= i < self.children.len() ==> (#[trigger] self.children[i]).distinct()
    }

    /// The first state named `id` that the walk towards `id` comes to, below
    /// the topmost one, is the end of the walk.
    pub open spec fn met_once(self, id: Id) -> bool
        decreases self,
    {
        let i = self.next(id);
        self.is_next(id, i) ==> if self.children[i].id == id {
            !self.children[i].below(id)
        } else {
            self.children[i].met_once(id)
        }
    }
}

/// The walk towards an id that a tree holds ends at a state of that name, with
/// none below it.
pub proof fn find_ends_at_id<Id, S>(t: Tree<Id, S>, id: Id)
    requires
        t.holds(id),
    ensures
        t.find(id).id == id,
        !t.find(id).below(id),
        forall|x: Id| #[trigger] t.find(id).holds(x) ==> t.holds(x),
    decreases t,
{
    t.lemma_next(id);
    t.lemma_holds(id);
    let i = t.next(id);
    if t.is_next(id, i) {
        find_ends_at_id(t.children[i], id);
        assert forall|x: Id| #[trigger] t.find(id).holds(x) implies t.holds(x) by {
            assert(t.children[i].holds(x));
            t.lemma_holds(x);
        }
    }
}

/// Replacing the end of a walk by a tree that holds `extra` more changes what
/// the whole tree holds by `extra`.
proof fn lemma_replace_holds<Id, S>(t: Tree<Id, S>, id: Id, u: Tree<Id, S>, extra: Set<Id>)
    requires
        u.id == t.find(id).id,
        forall|x: Id| #[trigger] u.holds(x) <==> t.find(id).holds(x) || extra.contains(x),
    ensures
        t.replace(id, u).id == t.id,
        forall|x: Id| #[trigger] t.replace(id, u).holds(x) <==> t.holds(x) || extra.contains(x),
    decreases t,
{
    let i = t.next(id);
    if t.is_next(id, i) {
        let c = t.children[i];
        let r = t.replace(id, u);
        lemma_replace_holds(c, id, u, extra);
        assert forall|x: Id| #[trigger] r.holds(x) <==> t.holds(x) || extra.contains(x) by {
            t.lemma_holds(x);
            r.lemma_holds(x);
            assert(r.children[i].holds(x) <==> c.holds(x) || extra.contains(x));
            if t.below(x) {
                let j = choose|j: int|
                    0 <= j < t.children.len() && (#[trigger] t.children[j]).holds(x);
                assert(r.children[j].holds(x));
            }
            if r.below(x) {
                let j = choose|j: int|
                    0 <= j < r.children.len() && (#[trigger] r.children[j]).holds(x);
                if j != i {
                    assert(t.children[j].holds(x));
                }
            }
        }
    }
}

/// A child replaced by one that holds `x` if and only if it did leaves the
/// walk towards `x` on its way.
proof fn lemma_update_next<Id, S>(t: Tree<Id, S>, i: int, c: Tree<Id, S>, x: Id)
    requires
        0 <= i < t.children.len(),
        c.holds(x) <==> t.children[i].holds(x),
    ensures
        ({
            let r = Tree { children: t.children.update(i, c), ..t };
            &&& r.below(x) <==> t.below(x)
            &&& t.below(x) ==> r.next(x) == t.next(x) && r.is_next(x, t.next(x))
        }),
{
    let r = Tree { children: t.children.update(i, c), ..t };
    t.lemma_next(x);
    r.lemma_next(x);
    if t.below(x) {
        let k = t.next(x);
        assert forall|j: int| 0 <= j < k implies !(#[trigger] r.children[j]).holds(x) by {
            assert(!t.children[j].holds(x));
        }
        assert(r.children[k].holds(x));
        assert(r.is_next(x, k));
        r.lemma_next_unique(x, k);
    }
    if r.below(x) {
        let k = r.next(x);
        assert(t.children[k].holds(x));
    }
}

/// Replacing the end of the walk towards `id` by a tree of the same name, with
/// nothing of that name below, leaves the walk as it was.
proof fn lemma_replace_find<Id, S>(t: Tree<Id, S>, id: Id, u: Tree<Id, S>)
    requires
        t.holds(id),
        u.id == id,
        !u.below(id),
    ensures
        t.replace(id, u).find(id) == u,
        t.replace(id, u).holds(id),
        t.replace(id, u).id == t.id,
        t.replace(id, u).below(id) <==> t.below(id),
    decreases t,
{
    t.lemma_next(id);
    t.lemma_holds(id);
    u.lemma_next(id);
    u.lemma_holds(id);
    let i = t.next(id);
    if t.is_next(id, i) {
        let c = t.children[i].replace(id, u);
        lemma_replace_find(t.children[i], id, u);
        lemma_update_next(t, i, c, id);
        let r = t.replace(id, u);
        r.lemma_holds(id);
    }
}

/// Replacing the end of the walk towards `id` by a tree with the same children
/// first and no `x` in the others leaves the state found at another id `x`.
proof fn lemma_replace_find_other<Id, S>(t: Tree<Id, S>, id: Id, u: Tree<Id, S>, x: Id)
    requires
        t.holds(id),
        t.holds(x),
        x != id,
        u.id == id,
        u.children.len() >= t.find(id).children.len(),
        forall|j: int|
            0 <= j < t.find(id).children.len() ==> u.children[j] == #[trigger] t.find(
                id,
            ).children[j],
        forall|j: int|
            t.find(id).children.len() <= j < u.children.len() ==> !(
            #[trigger] u.children[j]).holds(x),
    ensures
        t.replace(id, u).holds(x),
        t.replace(id, u).below(x) <==> t.below(x),
        t.replace(id, u).find(x).state == t.find(x).state,
        t.replace(id, u).find(x).id == t.find(x).id,
    decreases t,
{
    t.lemma_next(id);
    t.lemma_holds(id);
    t.lemma_next(x);
    t.lemma_holds(x);
    let r = t.replace(id, u);
    r.lemma_holds(x);
    let i = t.next(id);
    if t.is_next(id, i) {
        let c = t.children[i];
        let d = c.replace(id, u);
        if c.holds(x) {
            lemma_replace_find_other(c, id, u, x);
        } else {
            lemma_replace_absent(c, id, u, x);
        }
        lemma_update_next(t, i, d, x);
        r.lemma_next(x);
    } else {
        assert(t.below(x));
        let k = t.next(x);
        assert(u.children[k] == t.find(id).children[k]);
        assert forall|j: int| 0 <= j < k implies !(#[trigger] u.children[j]).holds(x) by {
            assert(u.children[j] == t.find(id).children[j]);
            assert(!t.children[j].holds(x));
        }
        assert(u.is_next(x, k));
        u.lemma_next_unique(x, k);
        u.lemma_next(x);
    }
}

/// An id that a tree does not hold stays out when the end of a walk is
/// replaced by a tree that brings none of that name.
proof fn lemma_replace_absent<Id, S>(t: Tree<Id, S>, id: Id, u: Tree<Id, S>, x: Id)
    requires
        t.holds(id),
        !t.holds(x),
        x != id,
        u.id == id,
        u.children.len() >= t.find(id).children.len(),
        forall|j: int|
            0 <= j < t.find(id).children.len() ==> u.children[j] == #[trigger] t.find(
                id,
            ).children[j],
        forall|j: int|
            t.find(id).children.len() <= j < u.children.len() ==> !(
            #[trigger] u.children[j]).holds(x),
    ensures
        !t.replace(id, u).holds(x),
    decreases t,
{
    t.lemma_next(id);
    t.lemma_holds(id);
    t.lemma_holds(x);
    let r = t.replace(id, u);
    r.lemma_holds(x);
    let i = t.next(id);
    if t.is_next(id, i) {
        assert(!t.children[i].holds(x));
        lemma_replace_absent(t.children[i], id, u, x);
        lemma_update_next(t, i, t.children[i].replace(id, u), x);
    } else {
        if u.below(x) {
            let j = choose|j: int|
                0 <= j < u.children.len() && (#[trigger] u.children[j]).holds(x);
            assert(u.children[j] == t.find(id).children[j]);
        }
    }
}

/// After an update, the state found at the id is the one that was set. Where
/// the topmost state has the name of one below it, lookups stop at the top and
/// updates go below, so that input is left out.
pub proof fn update_then_lookup<Id, S>(t: Tree<Id, S>, id: Id, state: S)
    requires
        t.holds(id),
        !(t.id == id && t.below(id)),
    ensures
        t.with_state(id, state).lookup(id) == Some(Tree { state, ..t.lookup(id).unwrap() }),
{
    let f = t.find(id);
    let u = Tree { state, ..f };
    find_ends_at_id(t, id);
    f.lemma_same_children(u);
    lemma_replace_find(t, id, u);
    t.lemma_holds(id);
    t.lemma_next(id);
}

/// An update leaves the states found at all other ids.
pub proof fn update_leaves_others<Id, S>(t: Tree<Id, S>, id: Id, state: S, other: Id)
    requires
        t.holds(id),
        other != id,
    ensures
        t.with_state(id, state).lookup(other) is Some <==> t.lookup(other) is Some,
        t.lookup(other) matches Some(x) ==> (t.with_state(id, state).lookup(other) matches Some(y)
            && y.state == x.state && y.id == x.id),
{
    let f = t.find(id);
    let u = Tree { state, ..f };
    let r = t.with_state(id, state);
    find_ends_at_id(t, id);
    f.lemma_same_children(u);
    lemma_replace_holds(t, id, u, Set::empty());
    t.lemma_holds(other);
    r.lemma_holds(other);
    if t.holds(other) {
        lemma_replace_find_other(t, id, u, other);
        t.lemma_next(id);
        if t.id == other {
            assert(t.is_next(id, t.next(id))) by {
                t.lemma_holds(id);
            }
        }
    }
}

/// An update changes no id.
pub proof fn update_keeps_ids<Id, S>(t: Tree<Id, S>, id: Id, state: S)
    requires
        t.holds(id),
    ensures
        t.with_state(id, state).same_ids(t),
        t.with_state(id, state).id == t.id,
{
    let f = t.find(id);
    let u = Tree { state, ..f };
    f.lemma_same_children(u);
    lemma_replace_holds(t, id, u, Set::empty());
}

/// After an insertion the tree holds the new id beside those it held.
pub proof fn insert_adds_id<Id, S>(t: Tree<Id, S>, parent: Id, child: Id, state: S)
    requires
        t.holds(parent),
    ensures
        forall|x: Id| #[trigger]
            t.with_child(parent, Tree::leaf(child, state)).holds(x) <==> t.holds(x) || x == child,
{
    let f = t.find(parent);
    let leaf = Tree::leaf(child, state);
    let u = Tree { children: f.children.push(leaf), ..f };
    lemma_pushed_holds(f, leaf);
    assert forall|x: Id| #[trigger] u.holds(x) <==> f.holds(x) || set![child].contains(x) by {
        leaf.lemma_holds(x);
    }
    lemma_replace_holds(t, parent, u, set![child]);
    assert forall|x: Id| #[trigger]
        t.with_child(parent, Tree::leaf(child, state)).holds(x) <==> t.holds(x) || x == child by {
        assert(set![child].contains(x) <==> x == child);
    }
}

/// A tree with one more child holds what that child holds beside its own.
proof fn lemma_pushed_holds<Id, S>(f: Tree<Id, S>, leaf: Tree<Id, S>)
    ensures
        ({
            let u = Tree { children: f.children.push(leaf), ..f };
            &&& forall|x: Id| #[trigger] u.holds(x) <==> f.holds(x) || leaf.holds(x)
            &&& forall|x: Id| #[trigger] u.below(x) <==> f.below(x) || leaf.holds(x)
        }),
{
    let u = Tree { children: f.children.push(leaf), ..f };
    assert forall|x: Id| #[trigger] u.below(x) <==> f.below(x) || leaf.holds(x) by {
        if f.below(x) {
            let i = choose|i: int|
                0 <= i < f.children.len() && (#[trigger] f.children[i]).holds(x);
            assert(u.children[i].holds(x));
        }
        if leaf.holds(x) {
            assert(u.children[f.children.len() as int].holds(x));
        }
        if u.below(x) {
            let i = choose|i: int|
                0 <= i < u.children.len() && (#[trigger] u.children[i]).holds(x);
            if i < f.children.len() {
                assert(f.children[i].holds(x));
            }
        }
    }
    assert forall|x: Id| #[trigger] u.holds(x) <==> f.holds(x) || leaf.holds(x) by {
        f.lemma_holds(x);
        u.lemma_holds(x);
    }
}

/// A state inserted under a new id is found there, in its initial state, right
/// below the state it was inserted under.
pub proof fn insert_then_lookup<Id, S>(t: Tree<Id, S>, parent: Id, child: Id, state: S)
    requires
        t.holds(parent),
        !t.holds(child),
    ensures
        t.with_child(parent, Tree::leaf(child, state)).lookup(child) == Some(
            Tree::leaf(child, state),
        ),
        t.with_child(parent, Tree::leaf(child, state)).parent_of(child) == Some(parent),
        t.with_child(parent, Tree::leaf(child, state)).above_find(child) == Some(parent),
{
    let f = t.find(parent);
    let leaf = Tree::leaf(child, state);
    let u = Tree { children: f.children.push(leaf), ..f };
    find_ends_at_id(t, parent);
    lemma_inserted(t, parent, leaf);
    let r = t.with_child(parent, leaf);
    r.lemma_holds(child);
    t.lemma_holds(child);
    r.lemma_next(child);
}

proof fn lemma_inserted<Id, S>(t: Tree<Id, S>, parent: Id, leaf: Tree<Id, S>)
    requires
        t.holds(parent),
        !t.holds(leaf.id),
        leaf.children.len() == 0,
    ensures
        ({
            let f = t.find(parent);
            let r = t.replace(parent, Tree { children: f.children.push(leaf), ..f });
            &&& r.id == t.id
            &&& r.below(leaf.id)
            &&& r.find(leaf.id) == leaf
            &&& r.parent_of(leaf.id) == Some(parent)
            &&& r.above_find(leaf.id) == Some(parent)
        }),
    decreases t,
{
    let x = leaf.id;
    let f = t.find(parent);
    let u = Tree { children: f.children.push(leaf), ..f };
    let r = t.replace(parent, u);
    t.lemma_holds(x);
    t.lemma_holds(parent);
    t.lemma_next(parent);
    leaf.lemma_holds(x);
    leaf.lemma_next(x);
    let i = t.next(parent);
    if t.is_next(parent, i) {
        let c = t.children[i];
        let d = c.replace(parent, u);
        assert(!c.holds(x));
        c.lemma_holds(x);
        lemma_inserted(c, parent, leaf);
        d.lemma_holds(x);
        assert(r.children[i] == d);
        assert forall|j: int| 0 <= j < i implies !(#[trigger] r.children[j]).holds(x) by {
            assert(!t.children[j].holds(x));
        }
        assert(r.is_next(x, i));
        r.lemma_next_unique(x, i);
        assert(r.below(x));
        assert(r.find(x) == d.find(x));
        assert(r.parent_of(x) == d.parent_of(x));
        assert(r.above_find(x) == d.above_find(x));
    } else {
        let k = t.children.len() as int;
        assert(r.children[k] == leaf);
        assert forall|j: int| 0 <= j < k implies !(#[trigger] r.children[j]).holds(x) by {
            assert(!t.children[j].holds(x));
        }
        assert(r.is_next(x, k));
        r.lemma_next_unique(x, k);
        assert(r.below(x));
        assert(r.find(x) == leaf.find(x));
        assert(r.parent_of(x) == Some(r.id));
        assert(r.above_find(x) == Some(r.id));
    }
}

/// An insertion leaves the states found at all ids other than the new one.
pub proof fn insert_leaves_others<Id, S>(
    t: Tree<Id, S>,
    parent: Id,
    child: Id,
    state: S,
    other: Id,
)
    requires
        t.holds(parent),
        other != child,
    ensures
        t.with_child(parent, Tree::leaf(child, state)).lookup(other) is Some <==> t.lookup(
            other,
        ) is Some,
        t.lookup(other) matches Some(x) ==> (t.with_child(
            parent,
            Tree::leaf(child, state),
        ).lookup(other) matches Some(y) && y.state == x.state && y.id == x.id),
{
    let f = t.find(parent);
    let leaf = Tree::leaf(child, state);
    let u = Tree { children: f.children.push(leaf), ..f };
    let r = t.with_child(parent, leaf);
    find_ends_at_id(t, parent);
    insert_adds_id(t, parent, child, state);
    t.lemma_holds(other);
    r.lemma_holds(other);
    leaf.lemma_holds(other);
    assert(r.holds(other) <==> t.holds(other));
    t.lemma_next(parent);
    if t.holds(other) {
        if other == parent {
            lemma_pushed_holds(f, leaf);
            assert(!u.below(parent));
            lemma_replace_find(t, parent, u);
        } else {
            lemma_replace_find_other(t, parent, u, other);
        }
    }
}

/// Where a walk meets its id once, the state right above that id and the state
/// right above the end of the walk are one.
pub proof fn parents_agree<Id, S>(t: Tree<Id, S>, id: Id)
    requires
        t.met_once(id),
    ensures
        t.parent_of(id) == t.above_find(id),
    decreases t,
{
    let i = t.next(id);
    if t.is_next(id, i) {
        let c = t.children[i];
        c.lemma_holds(id);
        if c.id != id {
            parents_agree(c, id);
        }
    }
}

/// In a tree without repeated ids every walk meets its id once.
pub proof fn distinct_met_once<Id, S>(t: Tree<Id, S>, id: Id)
    requires
        t.distinct(),
    ensures
        t.met_once(id),
        !(t.id == id && t.below(id)),
    decreases t,
{
    let i = t.next(id);
    if t.is_next(id, i) {
        distinct_met_once(t.children[i], id);
    }
}

/// A single state is a tree without repeated ids.
pub proof fn leaf_distinct<Id, S>(id: Id, state: S)
    ensures
        Tree::leaf(id, state).distinct(),
{
}

/// Replacing the end of a walk by a tree without repeated ids, that holds
/// `extra` more, repeats no id if the whole tree held none of `extra`.
proof fn lemma_replace_distinct<Id, S>(t: Tree<Id, S>, id: Id, u: Tree<Id, S>, extra: Set<Id>)
    requires
        t.distinct(),
        u.distinct(),
        u.id == t.find(id).id,
        forall|x: Id| #[trigger] u.holds(x) <==> t.find(id).holds(x) || extra.contains(x),
        forall|x: Id| #[trigger] extra.contains(x) ==> !t.holds(x),
    ensures
        t.replace(id, u).distinct(),
    decreases t,
{
    let i = t.next(id);
    if t.is_next(id, i) {
        let c = t.children[i];
        let d = c.replace(id, u);
        let r = t.replace(id, u);
        assert forall|x: Id| #[trigger] extra.contains(x) implies !c.holds(x) by {
            t.lemma_holds(x);
        }
        lemma_replace_distinct(c, id, u, extra);
        lemma_replace_holds(c, id, u, extra);
        lemma_replace_holds(t, id, u, extra);
        assert(r.children[i] == d);
        t.lemma_holds(t.id);
        assert forall|j: int, k: int, x: Id|
            0 <= j < k < r.children.len() && #[trigger] r.children[j].holds(x)
                implies !#[trigger] r.children[k].holds(x) by {
            if r.children[k].holds(x) {
                if j == i {
                    assert(t.children[k].holds(x));
                    if extra.contains(x) {
                        t.lemma_holds(x);
                    }
                    assert(t.children[j].holds(x));
                } else if k == i {
                    assert(t.children[j].holds(x));
                    if extra.contains(x) {
                        t.lemma_holds(x);
                    }
                    assert(t.children[k].holds(x));
                } else {
                    assert(t.children[j].holds(x) && t.children[k].holds(x));
                }
            }
        }
        if r.below(t.id) {
            let j = choose|j: int|
                0 <= j < r.children.len() && (#[trigger] r.children[j]).holds(t.id);
            if j == i {
                assert(d.holds(t.id) <==> c.holds(t.id) || extra.contains(t.id));
            }
            assert(t.children[j].holds(t.id));
            assert(t.below(t.id));
        }
        assert forall|j: int| 0 <= j < r.children.len() implies (
        #[trigger] r.children[j]).distinct() by {
            if j != i {
                assert(t.children[j].distinct());
            }
        }
    }
}

/// The end of a walk in a tree without repeated ids repeats none.
proof fn lemma_find_distinct<Id, S>(t: Tree<Id, S>, id: Id)
    requires
        t.distinct(),
    ensures
        t.find(id).distinct(),
    decreases t,
{
    let i = t.next(id);
    if t.is_next(id, i) {
        lemma_find_distinct(t.children[i], id);
    }
}

/// An update repeats no id.
pub proof fn update_keeps_distinct<Id, S>(t: Tree<Id, S>, id: Id, state: S)
    requires
        t.distinct(),
    ensures
        t.with_state(id, state).distinct(),
{
    let f = t.find(id);
    let u = Tree { state, ..f };
    lemma_find_distinct(t, id);
    f.lemma_same_children(u);
    assert(u.distinct());
    lemma_replace_distinct(t, id, u, Set::empty());
}

/// An insertion under a new id repeats no id.
pub proof fn insert_keeps_distinct<Id, S>(t: Tree<Id, S>, parent: Id, child: Id, state: S)
    requires
        t.distinct(),
        t.holds(parent),
        !t.holds(child),
    ensures
        t.with_child(parent, Tree::leaf(child, state)).distinct(),
{
    let f = t.find(parent);
    let leaf = Tree::leaf(child, state);
    let u = Tree { children: f.children.push(leaf), ..f };
    let extra = set![child];
    find_ends_at_id(t, parent);
    lemma_find_distinct(t, parent);
    lemma_pushed_holds(f, leaf);
    assert forall|x: Id| #[trigger] leaf.holds(x) <==> x == child by {
        leaf.lemma_holds(x);
    }
    assert forall|x: Id| #[trigger] u.holds(x) <==> f.holds(x) || extra.contains(x) by {
        assert(leaf.holds(x) <==> x == child);
    }
    assert(!f.holds(child));
    assert(u.distinct()) by {
        assert forall|j: int, k: int, x: Id|
            0 <= j < k < u.children.len() && #[trigger] u.children[j].holds(x)
                implies !#[trigger] u.children[k].holds(x) by {
            assert(f.children[j].holds(x));
            if k < f.children.len() {
                assert(u.children[k] == f.children[k]);
            } else {
                assert(u.children[k] == leaf);
                f.lemma_holds(x);
                assert(f.below(x));
            }
        }
        f.lemma_holds(f.id);
        assert(!u.below(u.id));
        assert forall|j: int| 0 <= j < u.children.len() implies (
        #[trigger] u.children[j]).distinct() by {
            if j < f.children.len() {
                assert(f.children[j].distinct());
            }
        }
    }
    lemma_replace_distinct(t, parent, u, extra);
}

/// Rewriting every state changes no id.
pub proof fn map_states_keeps_ids<Id, S>(t: Tree<Id, S>, g: spec_fn(Id, S) -> S)
    ensures
        t.map_states(g).same_ids(t),
        forall|id: Id| #[trigger] t.map_states(g).below(id) <==> t.below(id),
    decreases t,
{
    let r = t.map_states(g);
    assert forall|i: int| 0 <= i < t.children.len() implies #[trigger] t.children[i].map_states(
        g,
    ).same_ids(t.children[i]) by {
        map_states_keeps_ids(t.children[i], g);
    }
    assert forall|id: Id| #[trigger] r.below(id) <==> t.below(id) by {
        if t.below(id) {
            let i = choose|i: int|
                0 <= i < t.children.len() && (#[trigger] t.children[i]).holds(id);
            assert(t.children[i].map_states(g).same_ids(t.children[i]));
            assert(r.children[i].holds(id));
        }
        if r.below(id) {
            let i = choose|i: int|
                0 <= i < r.children.len() && (#[trigger] r.children[i]).holds(id);
            assert(t.children[i].map_states(g).same_ids(t.children[i]));
            assert(t.children[i].holds(id));
        }
    }
    assert forall|id: Id| #[trigger] r.holds(id) <==> t.holds(id) by {
        t.lemma_holds(id);
        r.lemma_holds(id);
    }
}

/// Taking a child out of its place, the last one filling the gap, and putting
/// it back leaves the tree as it was.
pub proof fn plug_undoes_removal<Id, S>(t: Tree<Id, S>, idx: int)
    requires
        0 <= idx < t.children.len(),
    ensures
        (Tree { children: t.children.update(idx, t.children.last()).drop_last(), ..t }).plug(
            t.children[idx],
            idx,
        ) == t,
{
    let rest = Tree { children: t.children.update(idx, t.children.last()).drop_last(), ..t };
    assert(rest.plug(t.children[idx], idx).children =~= t.children);
}

/// Putting the end of a walk back in its place changes nothing.
pub proof fn replace_by_found<Id, S>(t: Tree<Id, S>, id: Id)
    ensures
        t.replace(id, t.find(id)) == t,
    decreases t,
{
    let i = t.next(id);
    if t.is_next(id, i) {
        replace_by_found(t.children[i], id);
        assert(t.children.update(i, t.children[i]) =~= t.children);
    }
}

/// Of two updates of one id the last one wins.
pub proof fn last_update_wins<Id, S>(t: Tree<Id, S>, id: Id, first: S, second: S)
    requires
        t.holds(id),
    ensures
        t.with_state(id, first).with_state(id, second) == t.with_state(id, second),
    decreases t,
{
    lemma_with_state(t, id, first);
    lemma_with_state(t, id, second);
    let u = t.with_state(id, first);
    update_keeps_ids(t, id, first);
    lemma_with_state(u, id, second);
    t.lemma_next(id);
    let i = t.next(id);
    if t.below(id) {
        let c = t.children[i];
        update_keeps_ids(c, id, first);
        lemma_update_next(t, i, c.with_state(id, first), id);
        last_update_wins(c, id, first, second);
        assert(u.with_state(id, second).children =~= t.with_state(id, second).children);
    } else {
        t.lemma_same_children(u);
        u.lemma_next(id);
    }
}

/// Updates of different ids can be made in any order.
pub proof fn updates_commute<Id, S>(t: Tree<Id, S>, a: Id, x: S, b: Id, y: S)
    requires
        t.holds(a),
        t.holds(b),
        a != b,
    ensures
        t.with_state(a, x).with_state(b, y) == t.with_state(b, y).with_state(a, x),
    decreases t,
{
    let u = t.with_state(a, x);
    let v = t.with_state(b, y);
    lemma_with_state(t, a, x);
    lemma_with_state(t, b, y);
    lemma_with_state(u, b, y);
    lemma_with_state(v, a, x);
    t.lemma_next(a);
    t.lemma_next(b);
    t.lemma_holds(a);
    t.lemma_holds(b);
    let i = t.next(a);
    let j = t.next(b);
    if t.below(a) {
        update_keeps_ids(t.children[i], a, x);
        lemma_update_next(t, i, t.children[i].with_state(a, x), b);
    } else {
        t.lemma_same_children(u);
        if t.below(b) {
            u.lemma_next_unique(b, j);
        }
    }
    if t.below(b) {
        update_keeps_ids(t.children[j], b, y);
        lemma_update_next(t, j, t.children[j].with_state(b, y), a);
    } else {
        t.lemma_same_children(v);
        if t.below(a) {
            v.lemma_next_unique(a, i);
        }
    }
    let p = u.with_state(b, y);
    let q = v.with_state(a, x);
    if t.below(a) && t.below(b) {
        if i == j {
            updates_commute(t.children[i], a, x, b, y);
        }
        assert(u.next(b) == j);
        assert(v.next(a) == i);
        assert(p.children =~= q.children);
    } else if t.below(a) {
        assert(!u.below(b));
        assert(p.children =~= q.children);
    } else {
        assert(!v.below(a));
        assert(p.children =~= q.children);
    }
}

/// An update rewrites the first child that holds the id, or else the top.
proof fn lemma_with_state<Id, S>(t: Tree<Id, S>, id: Id, state: S)
    ensures
        t.below(id) ==> t.with_state(id, state) == (Tree {
            children: t.children.update(
                t.next(id),
                t.children[t.next(id)].with_state(id, state),
            ),
            ..t
        }),
        !t.below(id) ==> t.with_state(id, state) == (Tree { state, ..t }),
{
    t.lemma_next(id);
}

impl<Id, S> Tree<Id, S> {
    /// Somewhere in this tree a state named `parent` has a child named `id`.
    pub open spec fn has_child(self, parent: Id, id: Id) -> bool
        decreases self,
    {
        ||| self.id == parent && exists|i: int|
            0 <= i < self.children.len() && (#[trigger] self.children[i]).id == id
        ||| exists|i: int|
            0 <= i < self.children.len() && (#[trigger] self.children[i]).has_child(parent, id)
    }

    /// Both trees have the same ids at the same places.
    pub open spec fn same_shape(self, other: Self) -> bool
        decreases self,
    {
        &&& self.id == other.id
        &&& self.children.len() == other.children.len()
        &&& forall|i: int|
            0 <= i < self.children.len() ==> (#[trigger] self.children[i]).same_shape(
                other.children[i],
            )
    }
}

/// In a tree without repeated ids, the parent of an id is the state that it is
/// a child of.
pub proof fn parent_has_child<Id, S>(t: Tree<Id, S>, parent: Id, id: Id)
    requires
        t.distinct(),
    ensures
        t.parent_of(id) == Some(parent) <==> t.has_child(parent, id),
    decreases t,
{
    t.lemma_next(id);
    let i = t.next(id);
    if t.is_next(id, i) {
        let c = t.children[i];
        parent_has_child(c, parent, id);
        c.lemma_holds(id);
        distinct_met_once(c, id);
    }
    if t.has_child(parent, id) {
        if t.id == parent && exists|k: int|
            0 <= k < t.children.len() && (#[trigger] t.children[k]).id == id {
            let k = choose|k: int| 0 <= k < t.children.len() && (#[trigger] t.children[k]).id == id;
            assert(t.children[k].holds(id));
            assert(i == k);
        } else {
            let k = choose|k: int|
                0 <= k < t.children.len() && (#[trigger] t.children[k]).has_child(parent, id);
            lemma_child_below(t.children[k], parent, id);
            t.children[k].lemma_holds(id);
            assert(t.children[k].holds(id));
            assert(i == k);
        }
    }
}

proof fn lemma_child_below<Id, S>(t: Tree<Id, S>, parent: Id, id: Id)
    requires
        t.has_child(parent, id),
    ensures
        t.below(id),
    decreases t,
{
    if t.id == parent && exists|k: int|
        0 <= k < t.children.len() && (#[trigger] t.children[k]).id == id {
        let k = choose|k: int| 0 <= k < t.children.len() && (#[trigger] t.children[k]).id == id;
        assert(t.children[k].holds(id));
    } else {
        let k = choose|k: int|
            0 <= k < t.children.len() && (#[trigger] t.children[k]).has_child(parent, id);
        lemma_child_below(t.children[k], parent, id);
        t.children[k].lemma_holds(id);
        assert(t.children[k].holds(id));
    }
}

/// An insertion keeps the parent of every id other than the new one.
pub proof fn insert_keeps_parents<Id, S>(
    t: Tree<Id, S>,
    parent: Id,
    child: Id,
    state: S,
    other: Id,
)
    requires
        t.holds(parent),
        other != child,
    ensures
        t.with_child(parent, Tree::leaf(child, state)).parent_of(other) == t.parent_of(other),
{
    let f = t.find(parent);
    let leaf = Tree::leaf(child, state);
    let u = Tree { children: f.children.push(leaf), ..f };
    lemma_pushed_holds(f, leaf);
    leaf.lemma_holds(other);
    assert(!leaf.holds(other));
    f.lemma_next(other);
    u.lemma_next(other);
    if f.below(other) {
        let i = f.next(other);
        assert forall|j: int| 0 <= j < i implies !(#[trigger] u.children[j]).holds(other) by {
            assert(u.children[j] == f.children[j]);
        }
        u.lemma_next_unique(other, i);
    }
    lemma_replace_parent(t, parent, u, other);
}

/// Replacing the end of a walk by a tree of the same name, in which `x` has
/// the same parent, leaves the parent of `x`.
proof fn lemma_replace_parent<Id, S>(t: Tree<Id, S>, id: Id, u: Tree<Id, S>, x: Id)
    requires
        u.id == t.find(id).id,
        u.holds(x) <==> t.find(id).holds(x),
        u.parent_of(x) == t.find(id).parent_of(x),
    ensures
        t.replace(id, u).id == t.id,
        t.replace(id, u).holds(x) <==> t.holds(x),
        t.replace(id, u).parent_of(x) == t.parent_of(x),
    decreases t,
{
    let i = t.next(id);
    if t.is_next(id, i) {
        let c = t.children[i];
        let d = c.replace(id, u);
        let r = t.replace(id, u);
        lemma_replace_parent(c, id, u, x);
        lemma_update_next(t, i, d, x);
        t.lemma_next(x);
        r.lemma_next(x);
        t.lemma_holds(x);
        r.lemma_holds(x);
    }
}

/// An update keeps the shape of a tree: the same ids at the same places, in the
/// same order at every level.
pub proof fn update_keeps_shape<Id, S>(t: Tree<Id, S>, id: Id, state: S)
    ensures
        t.with_state(id, state).same_shape(t),
    decreases t,
{
    lemma_with_state(t, id, state);
    t.lemma_next(id);
    let u = t.with_state(id, state);
    if t.below(id) {
        update_keeps_shape(t.children[t.next(id)], id, state);
    }
    assert forall|i: int| 0 <= i < u.children.len() implies (#[trigger] u.children[i]).same_shape(
        t.children[i],
    ) by {
        lemma_same_shape(t.children[i]);
    }
}

proof fn lemma_same_shape<Id, S>(t: Tree<Id, S>)
    ensures
        t.same_shape(t),
    decreases t,
{
    assert forall|i: int| 0 <= i < t.children.len() implies (#[trigger] t.children[i]).same_shape(
        t.children[i],
    ) by {
        lemma_same_shape(t.children[i]);
    }
}

/// Trees of one shape have the same parents.
pub proof fn shape_keeps_parents<Id, S>(t: Tree<Id, S>, u: Tree<Id, S>, id: Id)
    requires
        t.same_shape(u),
    ensures
        t.holds(id) <==> u.holds(id),
        t.parent_of(id) == u.parent_of(id),
    decreases t,
{
    assert forall|i: int| 0 <= i < t.children.len() implies {
        &&& (#[trigger] t.children[i]).holds(id) <==> u.children[i].holds(id)
        &&& t.children[i].parent_of(id) == u.children[i].parent_of(id)
        &&& t.children[i].id == u.children[i].id
    } by {
        shape_keeps_parents(t.children[i], u.children[i], id);
    }
    lemma_same_next(t, u, id);
    t.lemma_next(id);
    u.lemma_next(id);
    t.lemma_holds(id);
    u.lemma_holds(id);
    if t.below(id) {
        let c = t.children[t.next(id)];
        assert(c.parent_of(id) == u.children[t.next(id)].parent_of(id));
    }
}

/// Where the children hold an id alike, the walk towards it goes alike.
proof fn lemma_same_next<Id, S>(t: Tree<Id, S>, u: Tree<Id, S>, id: Id)
    requires
        t.children.len() == u.children.len(),
        forall|i: int|
            0 <= i < t.children.len() ==> ((#[trigger] t.children[i]).holds(id)
                <==> u.children[i].holds(id)),
    ensures
        t.below(id) <==> u.below(id),
        t.below(id) ==> t.next(id) == u.next(id),
{
    t.lemma_next(id);
    u.lemma_next(id);
    if t.below(id) {
        let i = t.next(id);
        assert(t.children[i].holds(id));
        assert forall|j: int| 0 <= j < i implies !(#[trigger] u.children[j]).holds(id) by {
            assert(!t.children[j].holds(id));
        }
        u.lemma_next_unique(id, i);
    }
    if u.below(id) {
        let i = u.next(id);
        assert(t.children[i].holds(id) <==> u.children[i].holds(id));
        assert(t.children[i].holds(id));
    }
}

/// With every state rewritten, a lookup finds what it found before, rewritten.
pub proof fn map_states_then_lookup<Id, S>(t: Tree<Id, S>, g: spec_fn(Id, S) -> S, id: Id)
    ensures
        t.map_states(g).lookup(id) == (match t.lookup(id) {
            Some(found) => Some(found.map_states(g)),
            None => None,
        }),
{
    map_states_keeps_ids(t, g);
    lemma_map_states_find(t, g, id);
}

proof fn lemma_map_states_find<Id, S>(t: Tree<Id, S>, g: spec_fn(Id, S) -> S, id: Id)
    ensures
        t.map_states(g).find(id) == t.find(id).map_states(g),
    decreases t,
{
    let r = t.map_states(g);
    assert forall|i: int| 0 <= i < t.children.len() implies ((#[trigger] t.children[i]).holds(id)
        <==> r.children[i].holds(id)) by {
        map_states_keeps_ids(t.children[i], g);
        assert(t.children[i].map_states(g).same_ids(t.children[i]));
    }
    lemma_same_next(t, r, id);
    t.lemma_next(id);
    r.lemma_next(id);
    if t.below(id) {
        lemma_map_states_find(t.children[t.next(id)], g, id);
    }
}

} // verus!
