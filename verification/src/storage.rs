//! Where the state trees are kept.

use vstd::prelude::*;

use dashmap::DashMap;

use crate::kind::HashKind;
use crate::node::Node;
use crate::state_id::StateId;
use crate::tree::Tree;

verus! {

#[verifier::external_type_specification]
#[verifier::external_body]
#[verifier::reject_recursive_types(K)]
#[verifier::reject_recursive_types(V)]
#[verifier::reject_recursive_types(S)]
pub struct ExDashMap<K, V, S>(DashMap<K, V, S>);

/// What a concurrent map holds, by key.
pub uninterp spec fn held(map: DashMap<(u64, u128), usize>) -> Map<(u64, u128), usize>;

/// Calls `dashmap::DashMap::new`. Claims that a new map holds nothing.
#[verifier::external_body]
fn new_map() -> (map: DashMap<(u64, u128), usize>)
    ensures
        forall|key: (u64, u128)| !held(map).contains_key(key),
{
    DashMap::new()
}

/// Calls `dashmap::DashMap::insert`. Claims that the map then holds `place`
/// under `key`, in place of what it held there, which is returned, and is
/// otherwise unchanged.
#[verifier::external_body]
fn map_insert(
    map: &mut DashMap<(u64, u128), usize>,
    key: (u64, u128),
    place: usize,
) -> (replaced: Option<usize>)
    ensures
        held(*final(map)) == held(*old(map)).insert(key, place),
        replaced == (if held(*old(map)).contains_key(key) {
            Some(held(*old(map))[key])
        } else {
            None
        }),
{
    map.insert(key, place)
}

/// Calls `dashmap::DashMap::remove`, and drops the key of the pair that it
/// returns. Claims that the map then holds nothing under `key`, that what it
/// held there is returned, and that it is otherwise unchanged.
#[verifier::external_body]
fn map_remove(map: &mut DashMap<(u64, u128), usize>, key: (u64, u128)) -> (removed: Option<usize>)
    ensures
        held(*final(map)) == held(*old(map)).remove(key),
        removed == (if held(*old(map)).contains_key(key) {
            Some(held(*old(map))[key])
        } else {
            None
        }),
{
    map.remove(&key).map(|pair| pair.1)
}

/// Calls `dashmap::DashMap::get`, and copies the value out of the guard that it
/// returns with `dashmap::mapref::one::Ref::value`. Claims that this is what
/// the map holds under `key`.
#[verifier::external_body]
fn map_get(map: &DashMap<(u64, u128), usize>, key: (u64, u128)) -> (place: Option<usize>)
    ensures
        place == (if held(*map).contains_key(key) {
            Some(held(*map)[key])
        } else {
            None
        }),
{
    map.get(&key).map(|place| *place.value())
}

/// A tree on its way into a [`NodeStore`].
///
/// Entries are distinguished from nodes: every state in a particular tree
/// should be represented by an additional entry in a given [`NodeStore`],
/// indexed by that particular node's `id` field.
pub type Entry<K, S> = Box<Node<StateId<K>, S>>;

/// A place for a tree.
struct Slot<Id, S> {
    /// The ids that lead to the tree.
    ids: Vec<Id>,
    /// The tree, for as long as an id leads to it.
    node: Option<Box<Node<Id, S>>>,
}

/// [`NodeStore`] is the storage layer for all state machines associated with a given manager.
/// Every state tree has a place of its own, so that separate state hierarchies
/// are acted upon separately. A tree is kept for as long as an id leads to it.
pub struct NodeStore<Id, S> {
    trees: DashMap<(u64, u128), usize>,
    slots: Vec<Slot<Id, S>>,
    // the places without a tree
    free: Vec<usize>,
}

/// What a store holds.
#[verifier::ext_equal]
#[verifier::reject_recursive_types(Id)]
pub struct Stored<Id, S> {
    /// The places that ids lead to.
    pub entries: Map<Id, usize>,
    /// The trees, by place.
    pub trees: Map<usize, Tree<Id, S>>,
}

impl<Id, S> Stored<Id, S> {
    pub open spec fn empty() -> Self {
        Stored { entries: Map::empty(), trees: Map::empty() }
    }

    /// The tree that `id` leads to.
    pub open spec fn tree_of(self, id: Id) -> Tree<Id, S> {
        self.trees[self.entries[id]]
    }

    /// An id leads to `place`.
    pub open spec fn leads_to(self, place: usize) -> bool {
        exists|id: Id| #[trigger] self.entries.contains_key(id) && self.entries[id] == place
    }

    /// There is a tree at exactly the places that ids lead to.
    pub open spec fn placed(self) -> bool {
        forall|place: usize| #[trigger] self.trees.contains_key(place) <==> self.leads_to(place)
    }

    /// Without the trees that no id leads to.
    pub open spec fn kept(self) -> Self {
        Stored {
            trees: self.trees.restrict(Set::new(|place: usize| self.leads_to(place))),
            ..self
        }
    }

    /// `id` leads to a tree, and the tree holds it.
    pub open spec fn has(self, id: Id) -> bool {
        self.entries.contains_key(id) && self.tree_of(id).holds(id)
    }

    /// The state of `id`, if it has one.
    pub open spec fn state_of(self, id: Id) -> Option<S> {
        if self.entries.contains_key(id) {
            match self.tree_of(id).lookup(id) {
                Some(found) => Some(found.state),
                None => None,
            }
        } else {
            None
        }
    }

    /// With `tree` in the place of the tree that `id` leads to.
    pub open spec fn with_tree(self, id: Id, tree: Tree<Id, S>) -> Self {
        Stored { trees: self.trees.insert(self.entries[id], tree), ..self }
    }

    /// With `state` as the state of `id`.
    pub open spec fn with_state(self, id: Id, state: S) -> Self {
        self.with_tree(id, self.tree_of(id).with_state(id, state))
    }

    /// Without the reference of `id` to its tree: the tree goes with the last
    /// reference to it.
    pub open spec fn removed(self, id: Id) -> Self {
        (Stored { entries: self.entries.remove(id), ..self }).kept()
    }

    /// `after` is this with `tree` under `id`, in a place of its own, and
    /// without the earlier reference of `id`.
    pub open spec fn inserted(self, id: Id, tree: Tree<Id, S>, after: Self) -> bool {
        let rest = self.removed(id);
        exists|place: usize| #[trigger]
            self.free_for(id, place) && after == (Stored {
                entries: rest.entries.insert(id, place),
                trees: rest.trees.insert(place, tree),
            })
    }

    /// Every id of `before` but `id` has the tree that it had there.
    pub open spec fn leaves_others(self, before: Self, id: Id) -> bool {
        forall|other: Id|
            other != id && before.entries.contains_key(other) ==> #[trigger] self.tree_of(other)
                == before.tree_of(other)
    }

    /// There is no tree at `place` once the reference of `id` is gone.
    pub open spec fn free_for(self, id: Id, place: usize) -> bool {
        !self.removed(id).trees.contains_key(place)
    }

    /// Where there is no tree without an id that leads to it, all are kept.
    pub proof fn lemma_kept(self)
        requires
            self.placed(),
        ensures
            self.kept() == self,
    {
        assert forall|place: usize| self.trees.contains_key(place) implies self.leads_to(place) by {
        }
        assert(self.kept().trees =~= self.trees);
    }

    /// With `id` leading to the tree that `other` leads to.
    pub open spec fn shared(self, id: Id, other: Id) -> Self {
        (Stored { entries: self.entries.insert(id, self.entries[other]), ..self }).kept()
    }
}

impl<K: HashKind> View for NodeStore<StateId<K>, K::State> {
    type V = Stored<StateId<K>, K::State>;

    closed spec fn view(&self) -> Stored<StateId<K>, K::State> {
        Stored {
            entries: Map::new(
                |id: StateId<K>| held(self.trees).contains_key(id.key()),
                |id: StateId<K>| held(self.trees)[id.key()],
            ),
            trees: Map::new(
                |place: usize| place < self.slots@.len() && self.slots@[place as int].node is Some,
                |place: usize| self.slots@[place as int].node.unwrap().tree(),
            ),
        }
    }
}

impl<K: HashKind> NodeStore<StateId<K>, K::State> {
    /// `id` is listed among the ids that lead to `place`.
    spec fn listed(self, id: StateId<K>, place: usize) -> bool {
        place < self.slots@.len() && self.slots@[place as int].ids@.contains(id)
    }

    /// The ids that lead to a place are those listed there, each once. There is
    /// a tree, well-formed, where an id is listed, and the other places are free.
    pub closed spec fn wf(self) -> bool {
        &&& forall|id: StateId<K>, place: usize| #[trigger]
            self.listed(id, place) <==> self@.entries.contains_key(id) && self@.entries[id] == place
        &&& forall|i: int|
            0 <= i < self.slots@.len() ==> {
                let slot = #[trigger] self.slots@[i];
                &&& slot.ids@.no_duplicates()
                &&& slot.node is Some <==> slot.ids@.len() > 0
                &&& slot.node matches Some(node) ==> node.wf()
            }
        &&& self.free@.no_duplicates()
        &&& forall|place: usize| #[trigger]
            self.free@.contains(place) <==> place < self.slots@.len()
                && self.slots@[place as int].node is None
    }

    /// In a well-formed store there is a tree at exactly the places that ids
    /// lead to.
    pub proof fn wf_placed(self)
        requires
            self.wf(),
        ensures
            self@.placed(),
    {
        assert forall|place: usize| #[trigger] self@.trees.contains_key(place) <==> self@.leads_to(
            place,
        ) by {
            if self@.trees.contains_key(place) {
                let slot = self.slots@[place as int];
                assert(slot.ids@.contains(slot.ids@[0]));
                assert(self.listed(slot.ids@[0], place));
            }
            if self@.leads_to(place) {
                let id = choose|id: StateId<K>| #[trigger]
                    self@.entries.contains_key(id) && self@.entries[id] == place;
                assert(self.listed(id, place));
            }
        }
    }

    pub fn new() -> (store: Self)
        ensures
            store.wf(),
            store@ == Stored::<StateId<K>, K::State>::empty(),
    {
        let store = Self { trees: new_map(), slots: Vec::new(), free: Vec::new() };
        assert(store@ =~= Stored::<StateId<K>, K::State>::empty());
        store
    }

    /// Makes a tree ready for a store.
    pub fn new_entry(node: Node<StateId<K>, K::State>) -> (entry: Entry<K, K::State>)
        ensures
            *entry == node,
    {
        Box::new(node)
    }

    /// Takes the reference of `id` to its tree. The tree goes with the last
    /// reference to it.
    pub fn remove_entry(&mut self, id: StateId<K>)
        requires
            old(self).wf(),
        ensures
            final(self).wf(),
            final(self)@ == old(self)@.removed(id),
            final(self)@.leaves_others(old(self)@, id),
    {
        proof {
            old(self).wf_placed();
            let rest = old(self)@.removed(id);
            assert(rest.leaves_others(old(self)@, id)) by {
                assert forall|other: StateId<K>|
                    other != id && old(self)@.entries.contains_key(other) implies #[trigger] rest.tree_of(
                    other,
                ) == old(self)@.tree_of(other) by {
                    crate::storage_laws::remove_leaves_other_trees(old(self)@, id, other);
                }
            }
            assert forall|x: StateId<K>| x.key() == id.key() implies x == id by {
                StateId::key_injective(x, id);
            }
        }
        let place = map_remove(&mut self.trees, id.get_key());
        assert(self@.entries =~= old(self)@.entries.remove(id));
        if let Some(place) = place {
            assert(old(self).listed(id, place));
            self.unlist(id, place);
            proof {
                self.lemma_unlisted(*old(self), id, place);
            }
        } else {
            assert(self@.trees =~= old(self)@.trees);
            proof {
                old(self)@.lemma_kept();
                assert(old(self)@.entries.remove(id) =~= old(self)@.entries);
            }
            assert(self.wf()) by {
                assert forall|x: StateId<K>, p: usize| #[trigger]
                    self.listed(x, p) <==> self@.entries.contains_key(x) && self@.entries[x] == p by {
                    assert(old(self).listed(x, p) == self.listed(x, p));
                }
            }
        }
    }

    /// Takes `id` off the list of those that lead to `place`, and gives the
    /// tree there up if that was the last one.
    fn unlist(&mut self, id: StateId<K>, place: usize)
        requires
            place < old(self).slots@.len(),
            old(self).slots@[place as int].ids@.contains(id),
            old(self).slots@[place as int].ids@.no_duplicates(),
        ensures
            final(self).trees == old(self).trees,
            final(self).slots@.len() == old(self).slots@.len(),
            forall|i: int|
                0 <= i < old(self).slots@.len() && i != place ==> final(self).slots@[i] == old(
                    self,
                ).slots@[i],
            ({
                let before = old(self).slots@[place as int];
                let after = final(self).slots@[place as int];
                &&& after.ids@.no_duplicates()
                &&& forall|x: StateId<K>| #[trigger]
                    after.ids@.contains(x) <==> before.ids@.contains(x) && x != id
                &&& after.ids@.len() > 0 ==> after.node == before.node && final(self).free == old(
                    self,
                ).free
                &&& after.ids@.len() == 0 ==> after.node is None && final(self).free@ == old(
                    self,
                ).free@.push(place)
            }),
    {
        let ghost before = self.slots@[place as int].ids@;
        let len: usize = self.slots[place].ids.len();
        let mut i: usize = 0;
        while !self.slots[place].ids[i].same(&id)
            invariant
                len == before.len(),
                *self == *old(self),
                place < self.slots@.len(),
                before == self.slots@[place as int].ids@,
                before.contains(id),
                i < before.len(),
                forall|j: int| 0 <= j < i ==> before[j] != id,
            decreases before.len() - i,
        {
            proof {
                let k = choose|k: int| 0 <= k < before.len() && before[k] == id;
                assert(k > i);
            }
            i += 1;
        }
        self.slots[place].ids.swap_remove(i);
        proof {
            crate::lists::lemma_swap_removed(
                before,
                self.slots@[place as int].ids@,
                id,
                i as int,
            );
        }
        if self.slots[place].ids.len() == 0 {
            self.slots[place].node = None;
            self.free.push(place);
        }
    }

    /// A store with the reference of `id` taken off its list.
    proof fn lemma_unlisted(self, before: Self, id: StateId<K>, place: usize)
        requires
            before.wf(),
            before.listed(id, place),
            self@.entries == before@.entries.remove(id),
            self.slots@.len() == before.slots@.len(),
            forall|i: int|
                0 <= i < before.slots@.len() && i != place ==> self.slots@[i] == before.slots@[i],
            ({
                let old_slot = before.slots@[place as int];
                let new_slot = self.slots@[place as int];
                &&& new_slot.ids@.no_duplicates()
                &&& forall|x: StateId<K>| #[trigger]
                    new_slot.ids@.contains(x) <==> old_slot.ids@.contains(x) && x != id
                &&& new_slot.ids@.len() > 0 ==> new_slot.node == old_slot.node && self.free
                    == before.free
                &&& new_slot.ids@.len() == 0 ==> new_slot.node is None && self.free@
                    == before.free@.push(place)
            }),
        ensures
            self.wf(),
            self@ == before@.removed(id),
    {
        let old_slot = before.slots@[place as int];
        let new_slot = self.slots@[place as int];
        assert(old_slot.ids@.len() > 0) by {
            assert(old_slot.ids@.contains(id));
        }
        crate::lists::lemma_push_contains(before.free@, place);
        assert(!before.free@.contains(place));
        assert forall|x: StateId<K>, p: usize| #[trigger]
            self.listed(x, p) <==> self@.entries.contains_key(x) && self@.entries[x] == p by {
            assert(before.listed(x, p) <==> before@.entries.contains_key(x) && before@.entries[x]
                == p);
        }
        assert forall|p: usize| #[trigger]
            self.free@.contains(p) <==> p < self.slots@.len() && self.slots@[p as int].node is None
            by {
            assert(before.free@.contains(p) <==> p < before.slots@.len()
                && before.slots@[p as int].node is None);
        }
        assert(self.wf());
        self.wf_placed();
        before.wf_placed();
        let rest = Stored { entries: before@.entries.remove(id), ..before@ };
        assert forall|p: usize| #[trigger] self@.trees.contains_key(p) <==> rest.leads_to(p)
            && before@.trees.contains_key(p) by {
            if self@.leads_to(p) {
                let x = choose|x: StateId<K>| #[trigger]
                    self@.entries.contains_key(x) && self@.entries[x] == p;
                assert(rest.entries.contains_key(x));
                assert(before@.entries.contains_key(x));
            }
            if rest.leads_to(p) {
                let x = choose|x: StateId<K>| #[trigger]
                    rest.entries.contains_key(x) && rest.entries[x] == p;
                assert(self@.entries.contains_key(x));
            }
        }
        assert(self@.trees =~= rest.kept().trees);
    }

    /// Puts a tree under `id`, in a place of its own. The earlier reference of
    /// `id`, if it has one, goes.
    pub fn insert_entry(&mut self, id: StateId<K>, entry: Entry<K, K::State>)
        requires
            old(self).wf(),
            entry.wf(),
        ensures
            final(self).wf(),
            old(self)@.inserted(id, entry.tree(), final(self)@),
            final(self)@.entries.contains_key(id),
            final(self)@.tree_of(id) == entry.tree(),
            final(self)@.leaves_others(old(self)@, id),
    {
        self.remove_entry(id);
        let ghost rest = *self;
        let place: usize = match self.free.pop() {
            Some(place) => {
                assert(rest.free@.contains(rest.free@[rest.free@.len() - 1]));
                place
            },
            None => {
                let place: usize = self.slots.len();
                self.slots.push(Slot { ids: Vec::new(), node: None });
                place
            },
        };
        let ghost tree = entry.tree();
        self.slots[place].ids.push(id);
        self.slots[place].node = Some(entry);
        map_insert(&mut self.trees, id.get_key(), place);
        proof {
            assert forall|x: StateId<K>| x.key() == id.key() implies x == id by {
                StateId::key_injective(x, id);
            }
            assert(self@.entries =~= rest@.entries.insert(id, place));
            assert(self.slots@[place as int].ids@ =~= seq![id]);
            self.lemma_inserted(rest, id, place);
            assert(self@ =~= (Stored {
                entries: rest@.entries.insert(id, place),
                trees: rest@.trees.insert(place, tree),
            }));
            assert(old(self)@.free_for(id, place));
            old(self).wf_placed();
            assert forall|other: StateId<K>|
                other != id && old(self)@.entries.contains_key(other) implies #[trigger] self@.tree_of(
                other,
            ) == old(self)@.tree_of(other) by {
                crate::storage_laws::insert_leaves_other_trees(old(self)@, id, tree, self@, other);
            }
        }
    }

    /// insert entry creates a new reference to the same node: has `id` lead to
    /// the tree that `other` leads to, and returns whether there is one. The
    /// earlier reference of `id`, if it has one, goes.
    pub fn share_entry(&mut self, id: StateId<K>, other: StateId<K>) -> (shared: bool)
        requires
            old(self).wf(),
        ensures
            final(self).wf(),
            shared == old(self)@.entries.contains_key(other),
            final(self)@ == (if shared {
                old(self)@.shared(id, other)
            } else {
                old(self)@
            }),
            shared ==> final(self)@.tree_of(id) == old(self)@.tree_of(other),
            final(self)@.leaves_others(old(self)@, id),
    {
        let place: usize = match map_get(&self.trees, other.get_key()) {
            Some(place) => place,
            None => return false,
        };
        proof {
            old(self).wf_placed();
            assert(old(self)@.entries.contains_key(other));
        }
        if id.same(&other) {
            proof {
                old(self)@.lemma_kept();
                assert(old(self)@.entries.insert(id, place) =~= old(self)@.entries);
            }
            return true;
        }
        self.remove_entry(id);
        let ghost rest = *self;
        proof {
            assert(rest@.entries.contains_key(other));
            assert(rest.listed(other, place));
        }
        self.slots[place].ids.push(id);
        map_insert(&mut self.trees, id.get_key(), place);
        proof {
            assert forall|x: StateId<K>| x.key() == id.key() implies x == id by {
                StateId::key_injective(x, id);
            }
            assert(self@.entries =~= rest@.entries.insert(id, place));
            self.lemma_shared(rest, id, place);
            let all = Stored { entries: old(self)@.entries.insert(id, place), ..old(self)@ };
            self.wf_placed();
            assert(self@.entries =~= all.entries);
            assert forall|p: usize| #[trigger] self@.trees.contains_key(p) <==> all.leads_to(p)
                && all.trees.contains_key(p) by {
                if self@.leads_to(p) {
                    let x = choose|x: StateId<K>| #[trigger]
                        self@.entries.contains_key(x) && self@.entries[x] == p;
                    assert(all.entries.contains_key(x));
                }
                if all.leads_to(p) {
                    let x = choose|x: StateId<K>| #[trigger]
                        all.entries.contains_key(x) && all.entries[x] == p;
                    assert(self@.entries.contains_key(x));
                }
            }
            assert(self@.trees =~= all.kept().trees);
            crate::storage_laws::share_then_tree(old(self)@, id, other, other);
            assert forall|third: StateId<K>|
                third != id && old(self)@.entries.contains_key(third) implies #[trigger] self@.tree_of(
                third,
            ) == old(self)@.tree_of(third) by {
                crate::storage_laws::share_then_tree(old(self)@, id, other, third);
            }
        }
        true
    }

    /// A store with a tree in a free place, under `id`.
    proof fn lemma_inserted(self, rest: Self, id: StateId<K>, place: usize)
        requires
            rest.wf(),
            !rest@.entries.contains_key(id),
            self@.entries == rest@.entries.insert(id, place),
            rest.free@.len() > 0 ==> place == rest.free@.last() && self.free@
                == rest.free@.drop_last() && self.slots@.len() == rest.slots@.len(),
            rest.free@.len() == 0 ==> place == rest.slots@.len() && self.free@ == rest.free@
                && self.slots@.len() == rest.slots@.len() + 1,
            forall|i: int|
                0 <= i < rest.slots@.len() && i != place ==> self.slots@[i] == rest.slots@[i],
            self.slots@[place as int].ids@ == seq![id],
            self.slots@[place as int].node matches Some(node) && node.wf(),
        ensures
            self.wf(),
            !rest@.trees.contains_key(place),
    {
        if rest.free@.len() > 0 {
            assert(rest.free@.contains(rest.free@.last()));
        }
        assert forall|x: StateId<K>, p: usize| #[trigger]
            self.listed(x, p) <==> self@.entries.contains_key(x) && self@.entries[x] == p by {
            assert(rest.listed(x, p) <==> rest@.entries.contains_key(x) && rest@.entries[x] == p);
            assert(seq![id].contains(x) <==> x == id) by {
                assert(seq![id][0] == id);
            }
            assert(!rest.listed(x, place));
        }
        assert forall|p: usize| #[trigger]
            self.free@.contains(p) <==> p < self.slots@.len() && self.slots@[p as int].node is None
            by {
            assert(rest.free@.contains(p) <==> p < rest.slots@.len()
                && rest.slots@[p as int].node is None);
            if rest.free@.len() > 0 {
                let fewer = rest.free@.drop_last();
                crate::lists::lemma_push_contains(fewer, place);
                assert(fewer.push(place) =~= rest.free@);
                if fewer.contains(place) {
                    let k = choose|k: int| 0 <= k < fewer.len() && fewer[k] == place;
                    assert(rest.free@[k] == rest.free@[rest.free@.len() - 1]);
                }
            }
        }
    }

    /// A store with one more id listed at a place with a tree.
    proof fn lemma_shared(self, rest: Self, id: StateId<K>, place: usize)
        requires
            rest.wf(),
            !rest@.entries.contains_key(id),
            self@.entries == rest@.entries.insert(id, place),
            place < rest.slots@.len(),
            rest.slots@[place as int].node is Some,
            self.free == rest.free,
            self.slots@.len() == rest.slots@.len(),
            forall|i: int|
                0 <= i < rest.slots@.len() && i != place ==> self.slots@[i] == rest.slots@[i],
            self.slots@[place as int].ids@ == rest.slots@[place as int].ids@.push(id),
            self.slots@[place as int].node == rest.slots@[place as int].node,
        ensures
            self.wf(),
            self@.trees == rest@.trees,
    {
        let ids = rest.slots@[place as int].ids@;
        crate::lists::lemma_push_contains(ids, id);
        assert(!rest.listed(id, place));
        assert forall|x: StateId<K>, p: usize| #[trigger]
            self.listed(x, p) <==> self@.entries.contains_key(x) && self@.entries[x] == p by {
            assert(rest.listed(x, p) <==> rest@.entries.contains_key(x) && rest@.entries[x] == p);
            assert(!rest.listed(id, p));
        }
        assert forall|p: usize| #[trigger]
            self.free@.contains(p) <==> p < self.slots@.len() && self.slots@[p as int].node is None
            by {
            assert(rest.free@.contains(p) <==> p < rest.slots@.len()
                && rest.slots@[p as int].node is None);
        }
        assert(self@.trees =~= rest@.trees);
    }

    /// Reads the tree that `id` leads to.
    pub fn get(&self, id: StateId<K>) -> (node: Option<&Node<StateId<K>, K::State>>)
        requires
            self.wf(),
        ensures
            node is Some <==> self@.entries.contains_key(id),
            node matches Some(n) ==> n.wf() && n.tree() == self@.tree_of(id),
    {
        match map_get(&self.trees, id.get_key()) {
            Some(place) => {
                assert(self@.entries.contains_key(id));
                assert(self.listed(id, place));
                match &self.slots[place].node {
                    Some(node) => Some(node),
                    None => None,
                }
            },
            None => None,
        }
    }

    /// Lends the tree that `id` leads to for changes.
    pub fn get_mut(&mut self, id: StateId<K>) -> (node: &mut Node<StateId<K>, K::State>)
        requires
            old(self).wf(),
            old(self)@.entries.contains_key(id),
        ensures
            node.wf(),
            node.tree() == old(self)@.tree_of(id),
            final(node).wf() ==> final(self).wf(),
            final(self)@ == old(self)@.with_tree(id, final(node).tree()),
    {
        let place: usize = map_get(&self.trees, id.get_key()).unwrap();
        assert(self.listed(id, place));
        proof {
            self.lemma_replaced(place);
        }
        match &mut self.slots[place].node {
            Some(node) => node,
            None => vstd::pervasive::unreached(),
        }
    }

    /// A well-formed tree may stand in the place of another.
    proof fn lemma_replaced(self, place: usize)
        requires
            self.wf(),
            place < self.slots@.len(),
            self.slots@[place as int].node is Some,
        ensures
            forall|after: Self|
                #![trigger after.wf()]
                #![trigger after@]
                self.replaced(place, after) ==> {
                    &&& after.slots@[place as int].node.unwrap().wf() ==> after.wf()
                    &&& after@.entries == self@.entries
                    &&& after@.trees == self@.trees.insert(
                        place,
                        after.slots@[place as int].node.unwrap().tree(),
                    )
                },
    {
        assert forall|after: Self| self.replaced(place, after) implies {
            &&& after.slots@[place as int].node.unwrap().wf() ==> after.wf()
            &&& after@.entries == self@.entries
            &&& after@.trees == self@.trees.insert(
                place,
                after.slots@[place as int].node.unwrap().tree(),
            )
        } by {
            assert(after@.entries =~= self@.entries);
            assert(after@.trees =~= self@.trees.insert(
                place,
                after.slots@[place as int].node.unwrap().tree(),
            ));
            if after.slots@[place as int].node.unwrap().wf() {
                assert forall|x: StateId<K>, p: usize| #[trigger]
                    after.listed(x, p) <==> after@.entries.contains_key(x) && after@.entries[x]
                        == p by {
                    assert(self.listed(x, p) == after.listed(x, p));
                }
                assert forall|p: usize| #[trigger]
                    after.free@.contains(p) <==> p < after.slots@.len()
                        && after.slots@[p as int].node is None by {
                    assert(self.free@.contains(p) <==> p < self.slots@.len()
                        && self.slots@[p as int].node is None);
                }
            }
        }
    }

    /// `after` is this store with another tree at `place`.
    spec fn replaced(self, place: usize, after: Self) -> bool {
        &&& after.trees == self.trees
        &&& after.free == self.free
        &&& after.slots@ == self.slots@.update(place as int, after.slots@[place as int])
        &&& after.slots@[place as int].ids == self.slots@[place as int].ids
        &&& after.slots@[place as int].node is Some
    }
}

impl<K: HashKind> Default for NodeStore<StateId<K>, K::State> {
    fn default() -> (store: Self)
        ensures
            store.wf(),
            store@ == Stored::<StateId<K>, K::State>::empty(),
    {
        Self::new()
    }
}

} // verus!
