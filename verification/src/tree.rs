//! The mathematical model of a state hierarchy: a tree of identified states.

use vstd::prelude::*;

verus! {

/// A state together with the states below it, in order.
#[verifier::ext_equal]
pub struct Tree<Id, S> {
    pub id: Id,
    pub state: S,
    pub children: Seq<Tree<Id, S>>,
}

impl<Id, S> Tree<Id, S> {
    /// A state with nothing below it.
    pub open spec fn leaf(id: Id, state: S) -> Self {
        Tree { id, state, children: Seq::empty() }
    }

    /// `id` names a state of this tree.
    pub open spec fn holds(self, id: Id) -> bool
        decreases self,
    {
        self.id == id || exists|i: int|
            0 <= i < self.children.len() && (#[trigger] self.children[i]).holds(id)
    }

    /// `id` names a state of this tree other than the topmost one.
    pub open spec fn below(self, id: Id) -> bool {
        exists|i: int| 0 <= i < self.children.len() && (#[trigger] self.children[i]).holds(id)
    }

    /// The child at `i` is the first one that holds `id`.
    pub open spec fn is_next(self, id: Id, i: int) -> bool {
        &&& 0 <= i < self.children.len()
        &&& self.children[i].holds(id)
        &&& forall|j: int| 0 <= j < i ==> !(#[trigger] self.children[j]).holds(id)
    }

    /// The position of the first child that holds `id`.
    pub open spec fn next(self, id: Id) -> int {
        choose|i: int| self.is_next(id, i)
    }

    /// The tree reached by walking from the top towards `id`, each time into
    /// the first child that holds it, for as long as there is one.
    pub open spec fn find(self, id: Id) -> Self
        decreases self,
    {
        let i = self.next(id);
        if self.is_next(id, i) {
            self.children[i].find(id)
        } else {
            self
        }
    }

    /// This tree with `t` in the place of `self.find(id)`.
    pub open spec fn replace(self, id: Id, t: Self) -> Self
        decreases self,
    {
        let i = self.next(id);
        if self.is_next(id, i) {
            Tree { children: self.children.update(i, self.children[i].replace(id, t)), ..self }
        } else {
            t
        }
    }

    /// This tree with the state at the end of the walk towards `id` set to `state`.
    pub open spec fn with_state(self, id: Id, state: S) -> Self {
        self.replace(id, Tree { state, ..self.find(id) })
    }

    /// This tree with one more last child under the end of the walk towards `parent`.
    pub open spec fn with_child(self, parent: Id, child: Self) -> Self {
        let at = self.find(parent);
        self.replace(parent, Tree { children: at.children.push(child), ..at })
    }

    /// What a lookup of `id` comes to: the topmost state where that is `id`,
    /// else the end of the walk towards `id`.
    pub open spec fn lookup(self, id: Id) -> Option<Self> {
        if self.id == id {
            Some(self)
        } else if self.below(id) {
            Some(self.find(id))
        } else {
            None
        }
    }

    /// The id of the state right above the end of the walk towards `id`.
    pub open spec fn above_find(self, id: Id) -> Option<Id>
        decreases self,
    {
        let i = self.next(id);
        if self.is_next(id, i) {
            if self.children[i].below(id) {
                self.children[i].above_find(id)
            } else {
                Some(self.id)
            }
        } else {
            None
        }
    }

    /// The id of the state right above the first state named `id` that the
    /// walk towards `id` comes to, below the topmost one.
    pub open spec fn parent_of(self, id: Id) -> Option<Id>
        decreases self,
    {
        let i = self.next(id);
        if self.is_next(id, i) {
            if self.children[i].id == id {
                Some(self.id)
            } else {
                self.children[i].parent_of(id)
            }
        } else {
            None
        }
    }

    /// This tree with each state rewritten by `g`.
    pub open spec fn map_states(self, g: spec_fn(Id, S) -> S) -> Self
        decreases self,
    {
        Tree {
            id: self.id,
            state: g(self.id, self.state),
            children: Seq::new(
                self.children.len(),
                |i: int|
                    if 0 <= i < self.children.len() {
                        self.children[i].map_states(g)
                    } else {
                        self
                    },
            ),
        }
    }

    /// This tree with `t` put back at `idx`: what stood there goes to the end.
    pub open spec fn plug(self, t: Self, idx: int) -> Self {
        let grown = self.children.push(t);
        let last = self.children.len() as int;
        Tree { children: grown.update(idx, t).update(last, grown[idx]), ..self }
    }

    /// Both trees hold the same ids.
    pub open spec fn same_ids(self, other: Self) -> bool {
        forall|id: Id| #[trigger] self.holds(id) <==> other.holds(id)
    }

    /// A tree holds the id of its top and the ids below it.
    pub proof fn lemma_holds(self, id: Id)
        ensures
            self.holds(id) <==> self.id == id || self.below(id),
    {
    }

    /// The state at the top has no part in which ids a tree holds.
    pub proof fn lemma_same_children(self, other: Self)
        requires
            self.id == other.id,
            self.children == other.children,
        ensures
            self.same_ids(other),
            forall|id: Id| #[trigger] self.below(id) <==> other.below(id),
    {
        assert forall|id: Id| #[trigger] self.below(id) <==> other.below(id) by {
            if self.below(id) {
                let i = choose|i: int|
                    0 <= i < self.children.len() && (#[trigger] self.children[i]).holds(id);
                assert(other.children[i].holds(id));
            }
            if other.below(id) {
                let i = choose|i: int|
                    0 <= i < other.children.len() && (#[trigger] other.children[i]).holds(id);
                assert(self.children[i].holds(id));
            }
        }
        assert forall|id: Id| #[trigger] self.holds(id) <==> other.holds(id) by {
            self.lemma_holds(id);
            other.lemma_holds(id);
        }
    }

    /// Among the children there is a first one that holds `id` as soon as
    /// there is any.
    pub proof fn lemma_next(self, id: Id)
        ensures
            self.below(id) <==> self.is_next(id, self.next(id)),
    {
        if self.below(id) {
            let i = choose|i: int|
                0 <= i < self.children.len() && (#[trigger] self.children[i]).holds(id);
            self.lemma_first_up_to(id, i);
        }
    }

    proof fn lemma_first_up_to(self, id: Id, i: int)
        requires
            0 <= i < self.children.len(),
            self.children[i].holds(id),
        ensures
            exists|k: int| self.is_next(id, k),
        decreases i,
    {
        if forall|j: int| 0 <= j < i ==> !(#[trigger] self.children[j]).holds(id) {
            assert(self.is_next(id, i));
        } else {
            let j = choose|j: int| 0 <= j < i && (#[trigger] self.children[j]).holds(id);
            self.lemma_first_up_to(id, j);
        }
    }

    /// There is no more than one first child that holds `id`.
    pub proof fn lemma_next_unique(self, id: Id, i: int)
        requires
            self.is_next(id, i),
        ensures
            self.next(id) == i,
    {
        let k = self.next(id);
        assert(self.is_next(id, k));
        if i < k {
            assert(!self.children[i].holds(id));
        }
        if k < i {
            assert(!self.children[k].holds(id));
        }
    }
}

} // verus!
