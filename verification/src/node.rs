//! State trees and the cursor that reads and rewrites them.

use vstd::prelude::*;

use std::collections::BTreeSet;

use crate::kind::{HashKind, Kind};
use crate::state_id::StateId;
use crate::tree::Tree;

verus! {

/// Asks for a new state `id` below the state `parent_id`.
#[derive(Debug)]
pub struct Insert<Id> {
    pub parent_id: Option<Id>,
    pub id: Id,
}

/// Asks for the state `id` to become `state`.
pub struct Update<Id, S> {
    pub id: Id,
    pub state: S,
}

/// A state and the states below it. Each node knows the numbers of the ids
/// below it, so that a walk towards an id takes no wrong turn.
#[derive(Debug)]
pub struct Node<Id, S> {
    pub id: Id,
    pub state: S,
    pub(crate) descendant_keys: BTreeSet<(u64, u128)>,
    pub children: Vec<Node<Id, S>>,
}

/// A cursor that stands at one node of a tree and is able to move down and up.
///
/// Example of a [`Zipper`] cursor traversing a [`Vec`],
/// the *focus* provides a view "Up" and "Down" the data:
/// ```text
/// [1, 2, 3, 4, 5] // array with 5 entries
///  1}[2, 3, 4, 5] // zipper starts with focus at first index
/// [1] 2}[3, 4, 5] // moving down the array
/// [2, 1] 3}[4, 5]
/// [3, 2, 1] 4}[5]
/// [4, 3, 2, 1]{5  // zipper travels back up the array
/// ```
///
/// Moving down takes a node out of the children of the one above it, and
/// moving up puts it back in its place.
pub struct Zipper<Id, S> {
    pub node: Node<Id, S>,
    pub parent: Option<Box<Zipper<Id, S>>>,
    pub(crate) self_idx: usize,
}

/// The trees that the nodes are the tops of, in order.
pub open(crate) spec fn trees<Id, S>(nodes: Seq<Node<Id, S>>) -> Seq<Tree<Id, S>> {
    nodes.map_values(|n: Node<Id, S>| n.tree())
}

impl<Id, S> Node<Id, S> {
    /// The tree that this node is the top of.
    pub open(crate) spec fn tree(self) -> Tree<Id, S>
        decreases self,
    {
        Tree {
            id: self.id,
            state: self.state,
            children: Seq::new(
                self.children@.len(),
                |i: int|
                    if 0 <= i < self.children@.len() {
                        self.children@[i].tree()
                    } else {
                        Tree::leaf(self.id, self.state)
                    },
            ),
        }
    }

    /// The id of this node.
    pub open(crate) spec fn id_here(self) -> Id {
        self.id
    }

    /// The state of this node.
    pub open(crate) spec fn state_here(self) -> S {
        self.state
    }

    /// The nodes right below this one, in order.
    pub open(crate) spec fn child_nodes(self) -> Seq<Self> {
        self.children@
    }

    /// This is `other` with the state `state`.
    pub open(crate) spec fn has_other_state(self, other: Self, state: S) -> bool {
        &&& self.id == other.id
        &&& self.state == state
        &&& self.descendant_keys == other.descendant_keys
        &&& self.children == other.children
    }

    /// This is `other` with the children `children`.
    pub open(crate) spec fn has_other_children(self, other: Self, children: Seq<Self>) -> bool {
        &&& self.id == other.id
        &&& self.state == other.state
        &&& self.descendant_keys == other.descendant_keys
        &&& self.children@ == children
    }

    proof fn lemma_tree(self)
        ensures
            self.tree() == (Tree { id: self.id, state: self.state, children: trees(self.children@) }),
    {
        assert(self.tree().children =~= trees(self.children@));
    }
}

impl<K: HashKind> Node<StateId<K>, K::State> {
    /// The keys below this node are those of the states below it, here and at
    /// every node below.
    pub open(crate) spec fn wf(self) -> bool
        decreases self,
    {
        &&& keys_match(self.descendant_keys@, self.tree())
        &&& forall|i: int| 0 <= i < self.children@.len() ==> (#[trigger] self.children@[i]).wf()
    }

    /// Returns a new state, with nothing below it.
    #[must_use]
    pub fn new(id: StateId<K>) -> (node: Self)
        ensures
            node.wf(),
            node.tree() == Tree::leaf(id, id.kind.initial()),
    {
        let node = Node {
            state: id.kind.new_state(),
            id,
            descendant_keys: BTreeSet::new(),
            children: Vec::new(),
        };
        proof {
            node.lemma_tree();
            assert(trees(node.children@) =~= Seq::empty());
        }
        node
    }

    /// Returns a cursor that stands at this node.
    #[must_use]
    pub fn zipper(self) -> (zipper: Zipper<StateId<K>, K::State>)
        ensures
            zipper == Zipper::<StateId<K>, K::State>::top(self),
    {
        Zipper { node: self, parent: None, self_idx: 0 }
    }

    /// Looks `id` up from this node down.
    #[must_use]
    pub fn get(&self, id: StateId<K>) -> (found: Option<&Self>)
        requires
            self.wf(),
        ensures
            found is Some <==> self.tree().holds(id),
            found matches Some(n) ==> n.wf() && self.tree().lookup(id) == Some(n.tree()),
            found is None ==> self.tree().lookup(id) is None,
    {
        proof {
            self.lemma_tree();
            self.tree().lemma_holds(id);
        }
        if self.id.same(&id) {
            return Some(self);
        }
        if !self.contains_below(&id) {
            return None;
        }
        let mut node = self;
        while node.contains_below(&id)
            invariant
                node.wf(),
                self.tree().find(id) == node.tree().find(id),
            ensures
                node.wf(),
                self.tree().find(id) == node.tree().find(id),
                !node.tree().below(id),
            decreases *node,
        {
            proof {
                node.tree().lemma_next(id);
            }
            node = node.child(id).unwrap();
        }
        proof {
            node.tree().lemma_next(id);
        }
        Some(node)
    }

    /// Looks the state of `id` up from this node down.
    #[must_use]
    pub fn get_state(&self, id: StateId<K>) -> (state: Option<&K::State>)
        requires
            self.wf(),
        ensures
            state is Some <==> self.tree().holds(id),
            state matches Some(s) ==> self.tree().lookup(id) matches Some(t) && *s == t.state,
    {
        match self.get(id) {
            Some(node) => {
                proof {
                    node.lemma_tree();
                }
                Some(&node.state)
            },
            None => None,
        }
    }

    /// Returns the id of the state right above the first state named `id` that
    /// the walk from this node down comes to.
    #[must_use]
    pub fn get_parent_id(&self, id: StateId<K>) -> (parent: Option<StateId<K>>)
        requires
            self.wf(),
        ensures
            parent == self.tree().parent_of(id),
            parent is Some <==> self.tree().below(id),
    {
        proof {
            self.tree().lemma_next(id);
        }
        let mut node = self;
        while node.contains_below(&id)
            invariant
                node.wf(),
                self.tree().parent_of(id) == node.tree().parent_of(id),
                self.tree().below(id) ==> node.tree().holds(id) && (node.tree().id == id ==> node
                    == self),
                !self.tree().below(id) ==> node == self,
            decreases *node,
        {
            proof {
                node.tree().lemma_next(id);
                node.lemma_tree();
            }
            let child_node = node.child(id).unwrap();
            proof {
                child_node.lemma_tree();
            }
            if child_node.id.same(&id) {
                return Some(node.id);
            }
            node = child_node;
        }
        proof {
            node.tree().lemma_next(id);
            node.tree().lemma_holds(id);
        }
        None
    }

    /// inserts a new node using self by value
    #[must_use]
    pub fn into_insert(self, insert: Insert<StateId<K>>) -> (node: Self)
        requires
            self.wf(),
            insert.parent_id matches Some(parent) && self.tree().holds(parent),
        ensures
            node.wf(),
            node.tree() == self.tree().with_child(
                insert.parent_id.unwrap(),
                Tree::leaf(insert.id, insert.id.kind.initial()),
            ),
    {
        let Insert { parent_id, id } = insert;
        // inserts at this point should be guaranteed Some(id)
        // since a parent_id.is_none() should be handled by the node
        // store through a new graph creation
        let parent_id = parent_id.unwrap();
        let at = self.zipper().by_id(parent_id);
        let ghost before = at.node.tree();
        let grown = at.insert_child(id);
        proof {
            let leaf = Tree::leaf(id, id.kind.initial());
            let after = grown.node.tree();
            assert forall|x: StateId<K>| #[trigger] after.below(x) <==> before.below(x) || x
                == id by {
                leaf.lemma_holds(x);
                if before.below(x) {
                    let i = choose|i: int|
                        0 <= i < before.children.len() && (#[trigger] before.children[i]).holds(x);
                    assert(after.children[i].holds(x));
                }
                if x == id {
                    assert(after.children[before.children.len() as int].holds(x));
                }
                if after.below(x) {
                    let i = choose|i: int|
                        0 <= i < after.children.len() && (#[trigger] after.children[i]).holds(x);
                    if i < before.children.len() {
                        assert(before.children[i].holds(x));
                    }
                }
            }
            grown.lemma_way_up(at);
        }
        grown.finish_insert(id, Ghost(before))
    }

    /// inserts a new node
    pub fn insert(&mut self, insert: Insert<StateId<K>>)
        requires
            old(self).wf(),
            insert.parent_id matches Some(parent) && old(self).tree().holds(parent),
        ensures
            final(self).wf(),
            final(self).tree() == old(self).tree().with_child(
                insert.parent_id.unwrap(),
                Tree::leaf(insert.id, insert.id.kind.initial()),
            ),
    {
        // temporary allocation to allow a drop in &mut implementation
        let mut swap_node = Node::new(self.id);
        std::mem::swap(&mut swap_node, self);
        swap_node = swap_node.into_insert(insert);
        std::mem::swap(&mut swap_node, self);
    }

    /// updates the state of a node
    pub fn update(&mut self, update: Update<StateId<K>, K::State>)
        requires
            old(self).wf(),
            old(self).tree().holds(update.id),
        ensures
            final(self).wf(),
            final(self).tree() == old(self).tree().with_state(update.id, update.state),
    {
        // see Node::insert
        let mut swap_node = Node::new(self.id);
        std::mem::swap(&mut swap_node, self);
        swap_node = swap_node.into_update(update);
        std::mem::swap(&mut swap_node, self);
    }

    /// update a given node's state and return the parent ID if it exists
    pub fn update_and_get_parent_id(&mut self, update: Update<StateId<K>, K::State>) -> (parent:
        Option<StateId<K>>)
        requires
            old(self).wf(),
            old(self).tree().holds(update.id),
        ensures
            final(self).wf(),
            final(self).tree() == old(self).tree().with_state(update.id, update.state),
            parent == old(self).tree().above_find(update.id),
    {
        let Update { id, state } = update;
        // see Node::insert
        let mut swap_node = Node::new(self.id);
        std::mem::swap(&mut swap_node, self);
        let ghost start = swap_node;
        let at = swap_node.zipper().by_id(id);
        let set = at.set_state(state);
        proof {
            set.lemma_seated(set.node.tree());
            set.lemma_way_up(at);
            start.tree().lemma_next(id);
        }
        let (parent_id, done) = set.finish_update_parent_id();
        let mut swap_node = done;
        std::mem::swap(&mut swap_node, self);
        parent_id
    }

    /// apply a closure to all nodes in a tree
    pub fn update_all_fn<F>(&mut self, f: F) where
        F: Fn(Zipper<StateId<K>, K::State>) -> Node<StateId<K>, K::State>,

        requires
            forall|z: Zipper<StateId<K>, K::State>| z.at_top() ==> #[trigger] f.requires((z,)),
        ensures
            updated_all(f, *old(self), *final(self)),
    {
        // see Node::insert
        let mut swap_node = Node::new(self.id);
        std::mem::swap(&mut swap_node, self);
        swap_node = swap_node.zipper().finish_update_fn(f);
        std::mem::swap(&mut swap_node, self);
    }

    /// updates the state of a node using self by value
    #[must_use]
    pub fn into_update(self, update: Update<StateId<K>, K::State>) -> (node: Self)
        requires
            self.wf(),
            self.tree().holds(update.id),
        ensures
            node.wf(),
            node.tree() == self.tree().with_state(update.id, update.state),
    {
        let Update { id, state } = update;
        let at = self.zipper().by_id(id);
        let set = at.set_state(state);
        proof {
            set.lemma_seated(set.node.tree());
            set.lemma_way_up(at);
        }
        set.finish_update()
    }

    /// Returns whether `id` names a state below this node.
    fn contains_below(&self, id: &StateId<K>) -> (below: bool)
        requires
            self.wf(),
        ensures
            below == self.tree().below(*id),
    {
        proof {
            assert(self.descendant_keys@.contains(id.key()) <==> self.tree().below(*id));
        }
        self.descendant_keys.contains(&id.get_key())
    }

    /// Returns whether this node is `id` or stands above it.
    fn leads_to(&self, id: &StateId<K>) -> (leads: bool)
        requires
            self.wf(),
        ensures
            leads == self.tree().holds(*id),
    {
        proof {
            self.lemma_tree();
            self.tree().lemma_holds(*id);
        }
        self.id.same(id) || self.contains_below(id)
    }

    /// Returns the position of the first child that is `id` or stands above it.
    #[must_use]
    pub fn child_idx(&self, id: StateId<K>) -> (idx: Option<usize>)
        requires
            self.wf(),
        ensures
            match idx {
                Some(i) => self.tree().is_next(id, i as int) && i == self.tree().next(id),
                None => !self.tree().below(id),
            },
    {
        let mut i: usize = 0;
        while i < self.children.len()
            invariant
                self.wf(),
                0 <= i <= self.children@.len(),
                forall|j: int| 0 <= j < i ==> !(#[trigger] self.tree().children[j]).holds(id),
            decreases self.children@.len() - i,
        {
            if self.children[i].leads_to(&id) {
                proof {
                    assert(self.tree().children[i as int].holds(id));
                    self.tree().lemma_next_unique(id, i as int);
                }
                return Some(i);
            }
            i += 1;
        }
        None
    }

    /// Returns the first child that is `id` or stands above it.
    #[must_use]
    pub fn child(&self, id: StateId<K>) -> (child: Option<&Self>)
        requires
            self.wf(),
        ensures
            match child {
                Some(c) => {
                    &&& self.tree().is_next(id, self.tree().next(id))
                    &&& *c == self.child_nodes()[self.tree().next(id)]
                },
                None => !self.tree().below(id),
            },
    {
        match self.child_idx(id) {
            Some(i) => Some(&self.children[i]),
            None => None,
        }
    }
}

impl<Id, S> Zipper<Id, S> {
    /// The cursor that stands at `node`, with nothing above it.
    pub open(crate) spec fn top(node: Node<Id, S>) -> Self {
        Zipper { node, parent: None, self_idx: 0 }
    }

    /// There is nothing above the cursor.
    pub open(crate) spec fn at_top(self) -> bool {
        self.parent is None
    }

    /// The node under the cursor.
    pub open(crate) spec fn focus(self) -> Node<Id, S> {
        self.node
    }

    /// The cursor, with `node` under it.
    pub open(crate) spec fn with_focus(self, node: Node<Id, S>) -> Self {
        Zipper { node, ..self }
    }

    /// The node right above the cursor.
    pub open(crate) spec fn above(self) -> Option<Node<Id, S>> {
        match self.parent {
            Some(p) => Some(p.node),
            None => None,
        }
    }

    /// Both cursors stand at the same place of the same tree.
    pub open(crate) spec fn same_place(self, other: Self) -> bool {
        self.parent == other.parent && self.self_idx == other.self_idx
    }

    /// The whole tree, if `t` stood where the cursor is.
    pub open(crate) spec fn root_with(self, t: Tree<Id, S>) -> Tree<Id, S>
        decreases self,
    {
        match self.parent {
            None => t,
            Some(p) => p.root_with(p.node.tree().plug(t, self.self_idx as int)),
        }
    }

    /// The whole tree that the cursor stands in.
    pub open(crate) spec fn root(self) -> Tree<Id, S> {
        self.root_with(self.node.tree())
    }

    /// `down` is this cursor moved to the child at `idx`, which the last child
    /// stands in for meanwhile.
    pub open(crate) spec fn moved_down(self, idx: int, down: Self) -> bool {
        let children = self.node.children@;
        &&& down.node == children[idx]
        &&& down.self_idx == idx
        &&& down.parent matches Some(p) && {
            &&& p.node.id == self.node.id
            &&& p.node.state == self.node.state
            &&& p.node.descendant_keys == self.node.descendant_keys
            &&& p.node.children@ == children.update(idx, children.last()).drop_last()
            &&& p.parent == self.parent
            &&& p.self_idx == self.self_idx
        }
    }

    /// `up` is this cursor moved to its parent, with the node under it put back
    /// in its place, and the child that stood in for it at the end.
    pub open(crate) spec fn moved_up(self, up: Self) -> bool {
        self.parent matches Some(p) && {
            let grown = p.node.children@.push(self.node);
            let idx = self.self_idx as int;
            &&& up.node.id == p.node.id
            &&& up.node.state == p.node.state
            &&& up.node.descendant_keys == p.node.descendant_keys
            &&& up.node.children@ == grown.update(idx, self.node).update(
                p.node.children@.len() as int,
                grown[idx],
            )
            &&& up.parent == p.parent
            &&& up.self_idx == p.self_idx
        }
    }

    /// Every node on the way up has a place for the one below it.
    pub open(crate) spec fn seated(self) -> bool
        decreases self,
    {
        match self.parent {
            None => true,
            Some(p) => self.self_idx <= p.node.children@.len() && p.seated(),
        }
    }
}

impl<K: HashKind> Zipper<StateId<K>, K::State> {
    /// Every node on the way up would be well-formed, if `t` stood where the cursor is.
    pub open(crate) spec fn linked(self, t: Tree<StateId<K>, K::State>) -> bool
        decreases self,
    {
        match self.parent {
            None => true,
            Some(p) => {
                let whole = p.node.tree().plug(t, self.self_idx as int);
                &&& self.self_idx <= p.node.children@.len()
                &&& forall|i: int|
                    0 <= i < p.node.children@.len() ==> (#[trigger] p.node.children@[i]).wf()
                &&& keys_match(p.node.descendant_keys@, whole)
                &&& p.linked(whole)
            },
        }
    }

    /// The cursor stands in a well-formed tree.
    pub open(crate) spec fn wf(self) -> bool {
        self.node.wf() && self.linked(self.node.tree())
    }

    /// `moved` is this cursor moved to the end of the walk towards `id`, in the
    /// same tree.
    pub open(crate) spec fn moved_to(self, id: StateId<K>, moved: Self) -> bool {
        let t = self.node.tree();
        &&& moved.wf()
        &&& moved.node.id == id
        &&& moved.node.tree() == t.find(id)
        &&& !moved.node.tree().below(id)
        &&& forall|u: Tree<StateId<K>, K::State>| #[trigger]
            moved.root_with(u) == self.root_with(t.replace(id, u))
        &&& !t.below(id) ==> moved == self
        &&& t.below(id) ==> (moved.parent matches Some(p) && Some(p.node.id) == t.above_find(id))
    }

    /// Moves the cursor from its place towards `id`, each time into the first
    /// child that holds it.
    fn by_id(self, id: StateId<K>) -> (moved: Self)
        requires
            self.wf(),
            self.node.tree().holds(id),
        ensures
            self.moved_to(id, moved),
    {
        let ghost start = self;
        let mut this = self;
        proof {
            this.node.tree().lemma_next(id);
        }
        while this.node.contains_below(&id)
            invariant
                this.wf(),
                this.node.tree().holds(id),
                this.node.tree().find(id) == start.node.tree().find(id),
                forall|t: Tree<StateId<K>, K::State>| #[trigger]
                    start.root_with(start.node.tree().replace(id, t)) == this.root_with(
                        this.node.tree().replace(id, t),
                    ),
                !start.node.tree().below(id) ==> this == start,
                this.node.tree().below(id) ==> start.node.tree().above_find(id)
                    == this.node.tree().above_find(id),
                start.node.tree().below(id) && !this.node.tree().below(id) ==> (
                this.parent matches Some(p) && Some(p.node.id) == start.node.tree().above_find(id)),
            decreases this.node,
        {
            let ghost prev = this;
            proof {
                prev.node.lemma_tree();
                prev.node.tree().lemma_next(id);
            }
            let idx: usize = this.node.child_idx(id).unwrap();
            this = this.child(idx);
            proof {
                assert forall|t: Tree<StateId<K>, K::State>| #[trigger]
                    start.root_with(start.node.tree().replace(id, t)) == this.root_with(
                        this.node.tree().replace(id, t),
                    ) by {
                    assert(this.root_with(this.node.tree().replace(id, t)) == prev.root_with(
                        prev.node.tree().replace(id, t),
                    ));
                }
            }
        }
        proof {
            this.node.lemma_tree();
            this.node.tree().lemma_next(id);
            this.node.tree().lemma_holds(id);
            assert forall|t: Tree<StateId<K>, K::State>| #[trigger]
                this.root_with(t) == start.root_with(start.node.tree().replace(id, t)) by {
                assert(this.node.tree().replace(id, t) == t);
            }
        }
        this
    }

    /// Gives the node under the cursor the state `state`.
    fn set_state(self, state: K::State) -> (set: Self)
        requires
            self.wf(),
        ensures
            set.wf(),
            set.node.tree() == (Tree { state, ..self.node.tree() }),
            set.parent == self.parent,
            set.self_idx == self.self_idx,
    {
        let ghost before = self;
        let mut this = self;
        this.node.state = state;
        proof {
            before.node.lemma_tree();
            this.node.lemma_tree();
            let t = before.node.tree();
            let u = this.node.tree();
            t.lemma_same_children(u);
            assert(this.node.wf());
            before.lemma_linked_same(t, u);
            this.lemma_way_up(before);
        }
        this
    }

    /// Which ids stand where the cursor is decides whether the way up is well-formed.
    proof fn lemma_linked_same(self, t: Tree<StateId<K>, K::State>, u: Tree<StateId<K>, K::State>)
        requires
            self.linked(t),
            t.same_ids(u),
        ensures
            self.linked(u),
        decreases self,
    {
        if let Some(p) = self.parent {
            let a = p.node.tree().plug(t, self.self_idx as int);
            let b = p.node.tree().plug(u, self.self_idx as int);
            lemma_plug_below(p.node.tree(), t, self.self_idx as int);
            lemma_plug_below(p.node.tree(), u, self.self_idx as int);
            p.node.lemma_tree();
            assert(a.same_ids(b)) by {
                assert forall|id: StateId<K>| #[trigger] a.holds(id) <==> b.holds(id) by {
                    a.lemma_holds(id);
                    b.lemma_holds(id);
                    assert(t.holds(id) <==> u.holds(id));
                    assert(a.below(id) <==> b.below(id));
                }
            }
            assert(keys_match(p.node.descendant_keys@, b)) by {
                assert forall|id: StateId<K>| #[trigger]
                    p.node.descendant_keys@.contains(id.key()) <==> b.below(id) by {
                    assert(t.holds(id) <==> u.holds(id));
                    assert(a.below(id) <==> b.below(id));
                }
            }
            p.lemma_linked_same(a, b);
        }
    }

    /// Adds a new last child under the cursor; the keys are left to `finish_insert`.
    fn insert_child(self, id: StateId<K>) -> (grown: Self)
        requires
            self.node.wf(),
        ensures
            grown.node.tree() == (Tree {
                children: self.node.tree().children.push(Tree::leaf(id, id.kind.initial())),
                ..self.node.tree()
            }),
            grown.node.descendant_keys == self.node.descendant_keys,
            forall|i: int|
                0 <= i < grown.node.children@.len() ==> (#[trigger] grown.node.children@[i]).wf(),
            grown.parent == self.parent,
            grown.self_idx == self.self_idx,
    {
        let ghost before = self;
        let mut this = self;
        let node = Node::new(id);
        this.node.children.push(node);
        proof {
            before.node.lemma_tree();
            this.node.lemma_tree();
            assert(trees(this.node.children@) =~= trees(before.node.children@).push(node.tree()));
        }
        this
    }

    /// Puts the node under the cursor back in its parent and moves there.
    fn parent(self) -> (up: Self)
        requires
            self.parent matches Some(p) && self.self_idx <= p.node.children@.len(),
        ensures
            self.moved_up(up),
            self.parent matches Some(p) && {
                &&& up.node.tree() == p.node.tree().plug(self.node.tree(), self.self_idx as int)
                &&& self.node.wf() && (forall|i: int|
                    0 <= i < p.node.children@.len() ==> (#[trigger] p.node.children@[i]).wf()) ==> (
                forall|i: int|
                    0 <= i < up.node.children@.len() ==> (#[trigger] up.node.children@[i]).wf())
            },
    {
        // Destructure this Zipper
        let Zipper { node, parent, self_idx } = self;
        // Destructure the parent Zipper
        let mut parent = *parent.unwrap();
        let ghost before = parent.node;
        // Insert the node of this Zipper back in its parent: the removal moved
        // the last child to its place, so that one returns to the end.
        parent.node.children.push(node);
        let displaced = parent.node.children.swap_remove(self_idx);
        parent.node.children.push(displaced);
        proof {
            before.lemma_tree();
            parent.node.lemma_tree();
            let grown = before.children@.push(node);
            assert(parent.node.children@ =~= grown.update(self_idx as int, node).update(
                before.children@.len() as int,
                grown[self_idx as int],
            ));
            assert(parent.node.tree().children =~= before.tree().plug(
                node.tree(),
                self_idx as int,
            ).children);
        }
        parent
    }

    /// Moves all the way up, and adds the key of the state `id` that the cursor
    /// was given as a child to every node on the way; `before` is the tree that
    /// stood there without it.
    fn finish_insert(
        self,
        id: StateId<K>,
        Ghost(before): Ghost<Tree<StateId<K>, K::State>>,
    ) -> (node: Node<StateId<K>, K::State>)
        requires
            self.linked(before),
            keys_match(self.node.descendant_keys@, before),
            self.node.tree().id == before.id,
            forall|x: StateId<K>| #[trigger]
                self.node.tree().below(x) <==> before.below(x) || x == id,
            forall|i: int|
                0 <= i < self.node.children@.len() ==> (#[trigger] self.node.children@[i]).wf(),
        ensures
            node.wf(),
            node.tree() == self.root(),
    {
        let ghost start = self;
        let ghost mut t = before;
        let mut this = self;
        proof {
            this.lemma_key_added(id, t, this.node.descendant_keys@.insert(id.key()));
        }
        this.node.descendant_keys.insert(id.get_key());
        proof {
            this.node.lemma_tree();
            start.node.lemma_tree();
            this.lemma_way_up(start);
        }
        while this.parent.is_some()
            invariant
                this.node.wf(),
                this.linked(t),
                this.node.tree().id == t.id,
                forall|x: StateId<K>| #[trigger]
                    this.node.tree().below(x) <==> t.below(x) || x == id,
                this.root() == start.root(),
            decreases this.parent,
        {
            let ghost prev = this;
            this = this.parent();
            let ghost up = this;
            let ghost whole = prev.parent.unwrap().node.tree().plug(t, prev.self_idx as int);
            proof {
                let p = prev.parent.unwrap();
                p.node.lemma_tree();
                lemma_plug_below(p.node.tree(), t, prev.self_idx as int);
                lemma_plug_below(p.node.tree(), prev.node.tree(), prev.self_idx as int);
                assert forall|x: StateId<K>| #[trigger]
                    up.node.tree().below(x) <==> whole.below(x) || x == id by {
                    t.lemma_holds(x);
                    prev.node.tree().lemma_holds(x);
                    assert(prev.node.tree().below(x) <==> t.below(x) || x == id);
                    assert(prev.node.tree().below(id));
                }
                up.lemma_key_added(id, whole, up.node.descendant_keys@.insert(id.key()));
                up.lemma_way_up(*p);
                assert(up.root() == prev.root());
            }
            this.node.descendant_keys.insert(id.get_key());
            proof {
                t = whole;
                this.node.lemma_tree();
                up.node.lemma_tree();
                this.lemma_way_up(up);
            }
        }
        this.node
    }

    /// With the key of `id` added, the keys are those of a tree that has `id`
    /// below its top beside what `before` has.
    proof fn lemma_key_added(
        self,
        id: StateId<K>,
        before: Tree<StateId<K>, K::State>,
        keys: Set<(u64, u128)>,
    )
        requires
            keys == self.node.descendant_keys@.insert(id.key()),
            keys_match(self.node.descendant_keys@, before),
            forall|x: StateId<K>| #[trigger]
                self.node.tree().below(x) <==> before.below(x) || x == id,
        ensures
            keys_match(keys, self.node.tree()),
    {
        assert forall|x: StateId<K>| #[trigger]
            keys.contains(x.key()) <==> self.node.tree().below(x) by {
            assert(self.node.descendant_keys@.contains(x.key()) <==> before.below(x));
            if x.key() == id.key() {
                StateId::key_injective(x, id);
            }
        }
    }

    /// Moves all the way up and returns the node at the top.
    #[must_use]
    pub fn finish_update(self) -> (node: Node<StateId<K>, K::State>)
        requires
            self.seated(),
        ensures
            node.tree() == self.root(),
            self.wf() ==> node.wf(),
            self.at_top() ==> node == self.focus(),
    {
        let ghost start = self;
        let mut this = self;
        while this.parent.is_some()
            invariant
                this.seated(),
                this.root() == start.root(),
                start.wf() ==> this.wf(),
                start.parent is None ==> this == start,
            decreases this.parent,
        {
            let ghost prev = this;
            this = this.parent();
            proof {
                this.lemma_way_up(*prev.parent.unwrap());
            }
        }
        this.node
    }

    /// Moves all the way up, and returns the id of the node right above the
    /// cursor beside the node at the top.
    fn finish_update_parent_id(self) -> (done: (
        Option<StateId<K>>,
        Node<StateId<K>, K::State>,
    ))
        requires
            self.wf(),
            self.seated(),
        ensures
            done.0 == (match self.parent {
                Some(p) => Some(p.node.id),
                None => None,
            }),
            done.1.tree() == self.root(),
            done.1.wf(),
    {
        let parent_id = match &self.parent {
            Some(z) => Some(z.node.id),
            None => None,
        };
        (parent_id, self.finish_update())
    }

    /// act on all nodes below the cursor, each after those below it, and then
    /// on the one under it
    pub fn finish_update_fn<F>(self, f: F) -> (node: Node<StateId<K>, K::State>) where
        F: Fn(Zipper<StateId<K>, K::State>) -> Node<StateId<K>, K::State>,

        requires
            forall|z: Zipper<StateId<K>, K::State>| z.at_top() ==> #[trigger] f.requires((z,)),
            forall|n: Node<StateId<K>, K::State>| f.requires((#[trigger] self.with_focus(n),)),
        ensures
            updated_under(f, self, node),
    {
        let this = self.update_children(&f);
        assert(this == self.with_focus(this.node));
        f(this)
    }

    /// Rewrites the nodes below the cursor, each after those below it.
    fn update_children<F>(self, f: &F) -> (rewritten: Self) where
        F: Fn(Zipper<StateId<K>, K::State>) -> Node<StateId<K>, K::State>,

        requires
            forall|z: Zipper<StateId<K>, K::State>| z.parent is None ==> #[trigger] f.requires((z,)),
        ensures
            updated_below(*f, self.node, rewritten.node),
            rewritten.parent == self.parent,
            rewritten.self_idx == self.self_idx,
        decreases self.node,
    {
        let ghost start = self.node;
        let Zipper { node, parent, self_idx } = self;
        let Node { id, state, descendant_keys, children } = node;
        let ghost before = children@;
        let mut rewritten: Vec<Node<StateId<K>, K::State>> = Vec::new();
        #[verifier::loop_isolation(false)]
        for child in it: children
            invariant
                it.seq() == before,
                rewritten@.len() == it.index(),
                forall|i: int|
                    0 <= i < rewritten@.len() ==> updated_all(
                        *f,
                        before[i],
                        #[trigger] rewritten@[i],
                    ),
        {
            assert(child == before[it.index()]);
            let below = child.zipper().update_children(f);
            let done = f(below);
            assert(updated_all(*f, child, done));
            rewritten.push(done);
        }
        Zipper {
            node: Node { id, state, descendant_keys, children: rewritten },
            parent,
            self_idx,
        }
    }

    /// What stands under the cursor has no part in the way up.
    proof fn lemma_way_up(self, other: Self)
        requires
            self.parent == other.parent,
            self.self_idx == other.self_idx,
        ensures
            self.seated() == other.seated(),
            forall|t: Tree<StateId<K>, K::State>| #[trigger]
                self.root_with(t) == other.root_with(t),
            forall|t: Tree<StateId<K>, K::State>| #[trigger] self.linked(t) == other.linked(t),
    {
    }

    /// A well-formed way up has a place for every node.
    proof fn lemma_seated(self, t: Tree<StateId<K>, K::State>)
        requires
            self.linked(t),
        ensures
            self.seated(),
        decreases self,
    {
        if let Some(p) = self.parent {
            p.lemma_seated(p.node.tree().plug(t, self.self_idx as int));
        }
    }

    /// Moves the cursor to the child at `idx`.
    fn child(self, idx: usize) -> (moved: Self)
        requires
            self.wf(),
            idx < self.node.children@.len(),
        ensures
            moved.wf(),
            self.moved_down(idx as int, moved),
            forall|t: Tree<StateId<K>, K::State>| #[trigger]
                moved.root_with(t) == self.root_with(
                    Tree {
                        children: self.node.tree().children.update(idx as int, t),
                        ..self.node.tree()
                    },
                ),
    {
        let ghost before = self;
        let mut this = self;
        // Remove the specified child from the node's children.
        let child = this.node.children.swap_remove(idx);
        let ghost rest = this.node;
        let moved = Zipper { node: child, parent: Some(Box::new(this)), self_idx: idx };
        proof {
            before.node.lemma_tree();
            rest.lemma_tree();
            let cs = before.node.tree().children;
            assert forall|t: Tree<StateId<K>, K::State>| #[trigger]
                rest.tree().plug(t, idx as int) == (Tree {
                    children: cs.update(idx as int, t),
                    ..before.node.tree()
                }) by {
                assert(rest.tree().plug(t, idx as int).children =~= cs.update(idx as int, t));
            }
            let whole = rest.tree().plug(child.tree(), idx as int);
            assert(cs.update(idx as int, child.tree()) =~= cs);
            assert(whole == before.node.tree());
            assert forall|t: Tree<StateId<K>, K::State>| #[trigger] moved.root_with(t)
                == before.root_with(
                Tree { children: cs.update(idx as int, t), ..before.node.tree() },
            ) by {
                let p = *moved.parent.unwrap();
                let w = p.node.tree().plug(t, idx as int);
                reveal_with_fuel(Zipper::root_with, 3);
                assert(moved.root_with(t) == p.root_with(w));
                assert(p.root_with(w) == before.root_with(w));
            }
            let p = *moved.parent.unwrap();
            assert(p.linked(whole) == before.linked(whole)) by {
                reveal_with_fuel(Zipper::linked, 3);
            }
        }
        moved
    }
}

/// `new` is what `f` made of the node under the cursor `z`, with the nodes
/// below it rewritten by `f` first.
pub open(crate) spec fn updated_under<K: HashKind, F>(
    f: F,
    z: Zipper<StateId<K>, K::State>,
    new: Node<StateId<K>, K::State>,
) -> bool where F: Fn(Zipper<StateId<K>, K::State>) -> Node<StateId<K>, K::State> {
    exists|mid: Node<StateId<K>, K::State>|
        updated_below(f, z.node, mid) && #[trigger] f.ensures(
            (Zipper { node: mid, parent: z.parent, self_idx: z.self_idx },),
            new,
        )
}

/// `mid` is `old` with each of its children rewritten by `f`.
pub open(crate) spec fn updated_below<K: HashKind, F>(
    f: F,
    old: Node<StateId<K>, K::State>,
    mid: Node<StateId<K>, K::State>,
) -> bool where F: Fn(Zipper<StateId<K>, K::State>) -> Node<StateId<K>, K::State>
    decreases old, 0int,
{
    &&& mid.id == old.id
    &&& mid.state == old.state
    &&& mid.descendant_keys == old.descendant_keys
    &&& mid.children@.len() == old.children@.len()
    &&& forall|i: int|
        0 <= i < old.children@.len() ==> updated_all(
            f,
            #[trigger] old.children@[i],
            mid.children@[i],
        )
}

/// `new` is `old` rewritten by `f` from the bottom up: each node is handed to
/// `f` under a cursor of its own, after the nodes below it.
pub open(crate) spec fn updated_all<K: HashKind, F>(
    f: F,
    old: Node<StateId<K>, K::State>,
    new: Node<StateId<K>, K::State>,
) -> bool where F: Fn(Zipper<StateId<K>, K::State>) -> Node<StateId<K>, K::State>
    decreases old, 1int,
{
    exists|mid: Node<StateId<K>, K::State>|
        updated_below(f, old, mid) && #[trigger] f.ensures(
            (Zipper { node: mid, parent: None, self_idx: 0 },),
            new,
        )
}

/// Below the top of a plugged tree stand the ids that stood there and those plugged in.
proof fn lemma_plug_below<Id, S>(parent: Tree<Id, S>, t: Tree<Id, S>, idx: int)
    requires
        0 <= idx <= parent.children.len(),
    ensures
        forall|id: Id| #[trigger]
            parent.plug(t, idx).below(id) <==> parent.below(id) || t.holds(id),
{
    let whole = parent.plug(t, idx);
    let last = parent.children.len() as int;
    assert forall|id: Id| #[trigger] whole.below(id) <==> parent.below(id) || t.holds(id) by {
        if parent.below(id) {
            let i = choose|i: int|
                0 <= i < parent.children.len() && (#[trigger] parent.children[i]).holds(id);
            let k = if i == idx { last } else { i };
            assert(whole.children[k] == parent.children[i]);
        }
        if t.holds(id) {
            assert(whole.children[idx] == t);
        }
        if whole.below(id) {
            let k = choose|k: int|
                0 <= k < whole.children.len() && (#[trigger] whole.children[k]).holds(id);
            if k == last && idx < last {
                assert(whole.children[k] == parent.children[idx]);
            } else if k != idx {
                assert(whole.children[k] == parent.children[k]);
            }
        }
    }
}

/// A closure that rewrites only the state of the node it is handed makes
/// `update_all_fn` rewrite every state and nothing else.
pub proof fn update_all_rewrites_states<K: HashKind, F>(
    f: F,
    before: Node<StateId<K>, K::State>,
    after: Node<StateId<K>, K::State>,
    g: spec_fn(StateId<K>, K::State) -> K::State,
) where F: Fn(Zipper<StateId<K>, K::State>) -> Node<StateId<K>, K::State>
    requires
        updated_all(f, before, after),
        forall|z: Zipper<StateId<K>, K::State>, n: Node<StateId<K>, K::State>|
            z.at_top() && #[trigger] f.ensures((z,), n) ==> n.has_other_state(
                z.focus(),
                g(z.focus().tree().id, z.focus().tree().state),
            ),
    ensures
        after.tree() == before.tree().map_states(g),
        before.wf() ==> after.wf(),
    decreases before,
{
    let mid = choose|mid: Node<StateId<K>, K::State>|
        updated_below(f, before, mid) && #[trigger] f.ensures(
            (Zipper { node: mid, parent: None, self_idx: 0 },),
            after,
        );
    assert forall|i: int| 0 <= i < before.children@.len() implies {
        &&& (#[trigger] after.children@[i]).tree() == before.children@[i].tree().map_states(g)
        &&& before.children@[i].wf() ==> after.children@[i].wf()
    } by {
        assert(updated_all(f, before.children@[i], mid.children@[i]));
        update_all_rewrites_states(f, before.children@[i], after.children@[i], g);
    }
    before.lemma_tree();
    after.lemma_tree();
    assert(after.tree().children =~= before.tree().map_states(g).children);
    crate::tree_laws::map_states_keeps_ids(before.tree(), g);
}

/// Moving down to a child and up again gives the cursor back: the same node, in
/// the same place, with the same children in the same order. Only the child
/// that the cursor was at is what was left there.
pub proof fn down_then_up<Id, S>(
    z: Zipper<Id, S>,
    idx: int,
    down: Zipper<Id, S>,
    left: Node<Id, S>,
    up: Zipper<Id, S>,
)
    requires
        0 <= idx < z.focus().child_nodes().len(),
        z.moved_down(idx, down),
        down.with_focus(left).moved_up(up),
    ensures
        up.focus().has_other_children(z.focus(), z.focus().child_nodes().update(idx, left)),
        up.same_place(z),
        left == down.focus() ==> up.focus().has_other_children(
            z.focus(),
            z.focus().child_nodes(),
        ),
{
    assert(up.node.children@ =~= z.node.children@.update(idx, left));
    assert(z.node.children@.update(idx, z.node.children@[idx]) =~= z.node.children@);
}

/// In a tree without repeated ids, a cursor moved from the top to an id stands
/// at the one node of that name, with all that is below it. It is at the top if
/// the id is the topmost one, and else right below the parent of the id.
/// Finishing there gives the tree back.
pub proof fn move_then_finish<K: HashKind>(
    node: Node<StateId<K>, K::State>,
    id: StateId<K>,
    moved: Zipper<StateId<K>, K::State>,
)
    requires
        node.tree().holds(id),
        node.tree().distinct(),
        Zipper::<StateId<K>, K::State>::top(node).moved_to(id, moved),
    ensures
        moved.focus().tree().id == id,
        node.tree().lookup(id) == Some(moved.focus().tree()),
        moved.at_top() <==> node.tree().id == id,
        moved.at_top() <==> moved.above() is None,
        moved.above() matches Some(p) ==> node.tree().parent_of(id) == Some(p.tree().id),
        moved.root() == node.tree(),
{
    let t = node.tree();
    t.lemma_holds(id);
    t.lemma_next(id);
    crate::tree_laws::distinct_met_once(t, id);
    crate::tree_laws::parents_agree(t, id);
    crate::tree_laws::replace_by_found(t, id);
}

/// `keys` holds the keys of the states below the top of `t`, and of no others.
pub open(crate) spec fn keys_match<K: HashKind>(
    keys: Set<(u64, u128)>,
    t: Tree<StateId<K>, K::State>,
) -> bool {
    forall|id: StateId<K>| #[trigger] keys.contains(id.key()) <==> t.below(id)
}

} // verus!
