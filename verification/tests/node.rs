use rex::node::{Insert, Node, Update, Zipper};
use rex::{Coded, Kind, State, StateId};

#[allow(dead_code)]
#[derive(Clone, Copy, Debug, Eq, PartialEq)]
pub enum Alice {
    New,
    Awaiting,
    Completed,
    Failed,
}

impl Alice {
    fn step(self) -> u64 {
        match self {
            Alice::New => 0,
            Alice::Awaiting => 1,
            Alice::Completed => 2,
            Alice::Failed => 3,
        }
    }
}

#[allow(dead_code)]
#[derive(Clone, Copy, Debug, Eq, PartialEq)]
pub enum Bob {
    New,
    Awaiting,
    Completed,
    Failed,
}

impl Bob {
    fn step(self) -> u64 {
        match self {
            Bob::New => 0,
            Bob::Awaiting => 1,
            Bob::Completed => 2,
            Bob::Failed => 3,
        }
    }
}

#[allow(dead_code)]
#[derive(Clone, Copy, Debug, Eq, PartialEq)]
pub enum Charlie {
    New,
    Awaiting,
    Completed,
    Failed,
}

impl Charlie {
    fn step(self) -> u64 {
        match self {
            Charlie::New => 0,
            Charlie::Awaiting => 1,
            Charlie::Completed => 2,
            Charlie::Failed => 3,
        }
    }
}

#[allow(dead_code)]
#[derive(Clone, Copy, Debug, Eq, PartialEq)]
pub enum Dave {
    New,
    Awaiting,
    Completed,
    Failed,
}

impl Dave {
    fn step(self) -> u64 {
        match self {
            Dave::New => 0,
            Dave::Awaiting => 1,
            Dave::Completed => 2,
            Dave::Failed => 3,
        }
    }
}

#[allow(dead_code)]
#[derive(Clone, Copy, Debug, Eq, PartialEq)]
pub enum Eve {
    New,
    Awaiting,
    Completed,
    Failed,
}

impl Eve {
    fn step(self) -> u64 {
        match self {
            Eve::New => 0,
            Eve::Awaiting => 1,
            Eve::Completed => 2,
            Eve::Failed => 3,
        }
    }
}

#[derive(Debug, Clone, Copy, Eq, PartialEq, Hash)]
pub enum NodeKind {
    Alice,
    Bob,
    Charlie,
    Dave,
    Eve,
}

#[derive(Clone, Copy, Debug, Eq, PartialEq)]
pub enum NodeState {
    Alice(Alice),
    Bob(Bob),
    Charlie(Charlie),
    Dave(Dave),
    Eve(Eve),
}

impl Coded for NodeKind {
    fn number(self) -> u64 {
        self.code()
    }

    fn number_injective(_a: Self, _b: Self) {}

    fn code(&self) -> u64 {
        match self {
            NodeKind::Alice => 0,
            NodeKind::Bob => 1,
            NodeKind::Charlie => 2,
            NodeKind::Dave => 3,
            NodeKind::Eve => 4,
        }
    }
}

impl Coded for NodeState {
    fn number(self) -> u64 {
        self.code()
    }

    fn number_injective(_a: Self, _b: Self) {}

    fn code(&self) -> u64 {
        match self {
            NodeState::Alice(s) => 0 + s.step(),
            NodeState::Bob(s) => 4 + s.step(),
            NodeState::Charlie(s) => 8 + s.step(),
            NodeState::Dave(s) => 12 + s.step(),
            NodeState::Eve(s) => 16 + s.step(),
        }
    }
}

impl State for NodeState {
    type Input = ();
}

impl Kind for NodeKind {
    type State = NodeState;
    type Input = ();

    fn initial(self) -> NodeState {
        self.new_state()
    }

    fn failed(self) -> NodeState {
        self.failed_state()
    }

    fn completed(self) -> NodeState {
        self.completed_state()
    }

    fn owner(state: NodeState) -> NodeKind {
        NodeKind::of_state(&state)
    }

    fn new_state(&self) -> NodeState {
        match self {
            NodeKind::Alice => NodeState::Alice(Alice::New),
            NodeKind::Bob => NodeState::Bob(Bob::New),
            NodeKind::Charlie => NodeState::Charlie(Charlie::New),
            NodeKind::Dave => NodeState::Dave(Dave::New),
            NodeKind::Eve => NodeState::Eve(Eve::New),
        }
    }

    fn failed_state(&self) -> NodeState {
        match self {
            NodeKind::Alice => NodeState::Alice(Alice::Failed),
            NodeKind::Bob => NodeState::Bob(Bob::Failed),
            NodeKind::Charlie => NodeState::Charlie(Charlie::Failed),
            NodeKind::Dave => NodeState::Dave(Dave::Failed),
            NodeKind::Eve => NodeState::Eve(Eve::Failed),
        }
    }

    fn completed_state(&self) -> NodeState {
        match self {
            NodeKind::Alice => NodeState::Alice(Alice::Completed),
            NodeKind::Bob => NodeState::Bob(Bob::Completed),
            NodeKind::Charlie => NodeState::Charlie(Charlie::Completed),
            NodeKind::Dave => NodeState::Dave(Dave::Completed),
            NodeKind::Eve => NodeState::Eve(Eve::Completed),
        }
    }

    fn of_state(state: &NodeState) -> NodeKind {
        match state {
            NodeState::Alice(_) => NodeKind::Alice,
            NodeState::Bob(_) => NodeKind::Bob,
            NodeState::Charlie(_) => NodeKind::Charlie,
            NodeState::Dave(_) => NodeKind::Dave,
            NodeState::Eve(_) => NodeKind::Eve,
        }
    }
}

#[test]
fn insert_child_state() {
    let alice_id = StateId::new_rand(NodeKind::Alice);
    let bob_id = StateId::new_rand(NodeKind::Bob);
    let charlie_id = StateId::new_rand(NodeKind::Charlie);
    let dave_id = StateId::new_rand(NodeKind::Dave);
    let eve_id = StateId::new_rand(NodeKind::Eve);

    let mut tree = Node::new(alice_id);

    // =================================================
    // Graph should look like this after four insertions:
    //
    //       (Alice)
    //       /      \
    //     (Bob) (Charlie)
    //            /
    //       (Dave)
    //       /
    //  (Eve)
    // =================================================
    tree.insert(Insert {
        parent_id: Some(alice_id),
        id: bob_id,
    });
    tree.insert(Insert {
        parent_id: Some(alice_id),
        id: charlie_id,
    });
    tree.insert(Insert {
        parent_id: Some(charlie_id),
        id: dave_id,
    });
    tree.insert(Insert {
        parent_id: Some(dave_id),
        id: eve_id,
    });

    // Bob
    let mut bob = tree.get_state(bob_id).unwrap();
    assert_eq!(bob, &NodeState::Bob(Bob::New));
    tree = tree.into_update(Update {
        id: bob_id,
        state: NodeState::Bob(Bob::Awaiting),
    });
    bob = tree.get_state(bob_id).unwrap();
    assert_eq!(bob, &NodeState::Bob(Bob::Awaiting));

    // Charlie
    let mut charlie = tree.get_state(charlie_id).unwrap();
    assert_eq!(charlie, &NodeState::Charlie(Charlie::New));
    tree = tree.into_update(Update {
        id: charlie_id,
        state: NodeState::Charlie(Charlie::Awaiting),
    });
    charlie = tree.get_state(charlie_id).unwrap();
    assert_eq!(charlie, &NodeState::Charlie(Charlie::Awaiting));

    // Dave
    let mut dave = tree.get_state(dave_id).unwrap();
    assert_eq!(dave, &NodeState::Dave(Dave::New));
    // Dave finished whatever it was that Dave was doing
    tree = tree.into_update(Update {
        id: dave_id,
        state: NodeState::Dave(Dave::Completed),
    });
    dave = tree.get_state(dave_id).unwrap();
    assert_eq!(dave, &NodeState::Dave(Dave::Completed));

    // Eve
    let mut eve = tree.get_state(eve_id).unwrap();
    assert_eq!(eve, &NodeState::Eve(Eve::New));
    // Fail Eve (simulating timeout)
    tree = tree.into_update(Update {
        id: eve_id,
        state: NodeState::Eve(Eve::Failed),
    });
    eve = tree.get_state(eve_id).unwrap();
    assert_eq!(eve, &NodeState::Eve(Eve::Failed));

    // Eve failed! Fail everyone!
    // ...except for Dave, he is in "Completed" state
    tree = tree.zipper().finish_update_fn(|mut z| {
        let kind = NodeKind::of_state(&z.node.state);
        if !(z.node.state == kind.completed_state()) {
            z.node.state = kind.failed_state();
        }
        z.finish_update()
    });
    assert_eq!(&tree.state, &NodeState::Alice(Alice::Failed));
    assert_eq!(
        tree.get_state(bob_id).unwrap(),
        &NodeState::Bob(Bob::Failed)
    );
    assert_eq!(
        tree.get_state(charlie_id).unwrap(),
        &NodeState::Charlie(Charlie::Failed)
    );
    assert_eq!(
        tree.get_state(dave_id).unwrap(),
        &NodeState::Dave(Dave::Completed)
    );
    assert_eq!(
        tree.get_state(eve_id).unwrap(),
        &NodeState::Eve(Eve::Failed)
    );
}

/// Alice above Bob and Charlie, Charlie above Dave, Dave above Eve.
fn family() -> Node<StateId<NodeKind>, NodeState> {
    let alice = id(NodeKind::Alice);
    let charlie = id(NodeKind::Charlie);
    let dave = id(NodeKind::Dave);
    Node::new(alice)
        .into_insert(Insert {
            parent_id: Some(alice),
            id: id(NodeKind::Bob),
        })
        .into_insert(Insert {
            parent_id: Some(alice),
            id: charlie,
        })
        .into_insert(Insert {
            parent_id: Some(charlie),
            id: dave,
        })
        .into_insert(Insert {
            parent_id: Some(dave),
            id: id(NodeKind::Eve),
        })
}

fn id(kind: NodeKind) -> StateId<NodeKind> {
    StateId::new_with_u128(kind, 7)
}

#[test]
fn new_state_stands_right_below_its_parent() {
    let tree = family();
    assert_eq!(tree.get_parent_id(id(NodeKind::Alice)), None);
    assert_eq!(tree.get_parent_id(id(NodeKind::Bob)), Some(id(NodeKind::Alice)));
    assert_eq!(tree.get_parent_id(id(NodeKind::Charlie)), Some(id(NodeKind::Alice)));
    assert_eq!(tree.get_parent_id(id(NodeKind::Dave)), Some(id(NodeKind::Charlie)));
    assert_eq!(tree.get_parent_id(id(NodeKind::Eve)), Some(id(NodeKind::Dave)));
    assert_eq!(tree.get_parent_id(StateId::new_with_u128(NodeKind::Eve, 8)), None);
}

#[test]
fn children_keep_their_order() {
    let tree = family();
    assert_eq!(tree.children.len(), 2);
    assert_eq!(tree.children[0].id, id(NodeKind::Bob));
    assert_eq!(tree.children[1].id, id(NodeKind::Charlie));
    // walks that take the first child out of its place put it back there
    let tree = tree.into_update(Update {
        id: id(NodeKind::Bob),
        state: NodeState::Bob(Bob::Awaiting),
    });
    assert_eq!(tree.children[0].id, id(NodeKind::Bob));
    assert_eq!(tree.children[1].id, id(NodeKind::Charlie));
}

#[test]
fn lookups_find_what_is_held_and_nothing_else() {
    let tree = family();
    assert_eq!(tree.get(id(NodeKind::Dave)).unwrap().children.len(), 1);
    assert_eq!(tree.get(id(NodeKind::Eve)).unwrap().id, id(NodeKind::Eve));
    assert!(tree.get(StateId::nil(NodeKind::Dave)).is_none());
    assert!(tree.get_state(StateId::nil(NodeKind::Alice)).is_none());
}

#[test]
fn child_leads_towards_an_id() {
    let tree = family();
    assert_eq!(tree.child_idx(id(NodeKind::Bob)), Some(0));
    assert_eq!(tree.child_idx(id(NodeKind::Eve)), Some(1));
    assert_eq!(tree.child_idx(id(NodeKind::Alice)), None);
    assert_eq!(tree.child(id(NodeKind::Eve)).unwrap().id, id(NodeKind::Charlie));
    assert!(tree.child(id(NodeKind::Alice)).is_none());
}

#[test]
fn update_touches_one_state() {
    let mut tree = family();
    tree.update(Update {
        id: id(NodeKind::Dave),
        state: NodeState::Dave(Dave::Awaiting),
    });
    assert_eq!(
        tree.get_state(id(NodeKind::Dave)),
        Some(&NodeState::Dave(Dave::Awaiting))
    );
    assert_eq!(tree.state, NodeState::Alice(Alice::New));
    assert_eq!(tree.get_state(id(NodeKind::Bob)), Some(&NodeState::Bob(Bob::New)));
    assert_eq!(
        tree.get_state(id(NodeKind::Charlie)),
        Some(&NodeState::Charlie(Charlie::New))
    );
    assert_eq!(tree.get_state(id(NodeKind::Eve)), Some(&NodeState::Eve(Eve::New)));
}

#[test]
fn update_tells_the_parent() {
    let mut tree = family();
    let parent = tree.update_and_get_parent_id(Update {
        id: id(NodeKind::Eve),
        state: NodeState::Eve(Eve::Failed),
    });
    assert_eq!(parent, Some(id(NodeKind::Dave)));
    assert_eq!(tree.get_state(id(NodeKind::Eve)), Some(&NodeState::Eve(Eve::Failed)));
    let parent = tree.update_and_get_parent_id(Update {
        id: id(NodeKind::Alice),
        state: NodeState::Alice(Alice::Completed),
    });
    assert_eq!(parent, None);
    assert_eq!(tree.state, NodeState::Alice(Alice::Completed));
}

#[test]
fn update_all_rewrites_every_state() {
    let mut tree = family();
    tree.update_all_fn(|mut z: Zipper<StateId<NodeKind>, NodeState>| {
        z.node.state = NodeKind::of_state(&z.node.state).completed_state();
        z.finish_update()
    });
    assert_eq!(tree.state, NodeState::Alice(Alice::Completed));
    assert_eq!(
        tree.get_state(id(NodeKind::Eve)),
        Some(&NodeState::Eve(Eve::Completed))
    );
    assert_eq!(tree.get_parent_id(id(NodeKind::Eve)), Some(id(NodeKind::Dave)));
}

/// The ids and states of a tree, from the top down, each with its depth.
fn outline(
    node: &Node<StateId<NodeKind>, NodeState>,
    depth: usize,
) -> Vec<(usize, StateId<NodeKind>, NodeState)> {
    let mut lines = vec![(depth, node.id, node.state)];
    for child in &node.children {
        lines.extend(outline(child, depth + 1));
    }
    lines
}

#[test]
fn moving_to_an_id_and_finishing_gives_the_tree_back() {
    for kind in [
        NodeKind::Alice,
        NodeKind::Bob,
        NodeKind::Charlie,
        NodeKind::Dave,
        NodeKind::Eve,
    ] {
        // the cursor goes down to the id and up again, and leaves the state that is there
        let tree = family().into_update(Update {
            id: id(kind),
            state: kind.new_state(),
        });
        assert_eq!(outline(&tree, 0), outline(&family(), 0));
    }
    assert_eq!(
        outline(&family().zipper().finish_update(), 0),
        outline(&family(), 0)
    );
}

/// The ids of a tree, from the top down, each with the id right above it.
fn parents(
    node: &Node<StateId<NodeKind>, NodeState>,
    parent: Option<StateId<NodeKind>>,
) -> Vec<(StateId<NodeKind>, Option<StateId<NodeKind>>)> {
    let mut lines = vec![(node.id, parent)];
    for child in &node.children {
        lines.extend(parents(child, Some(node.id)));
    }
    lines
}

#[test]
fn the_parent_is_the_state_right_above() {
    let tree = family();
    for (id, parent) in parents(&tree, None) {
        assert_eq!(tree.get_parent_id(id), parent);
    }
}

#[test]
fn a_new_state_leaves_the_parents_of_the_others() {
    let before = family();
    for kind in [NodeKind::Alice, NodeKind::Bob, NodeKind::Dave] {
        let added = StateId::new_with_u128(NodeKind::Bob, 9);
        let tree = family().into_insert(Insert {
            parent_id: Some(id(kind)),
            id: added,
        });
        assert_eq!(tree.get_parent_id(added), Some(id(kind)));
        for (other, parent) in parents(&before, None) {
            assert_eq!(tree.get_parent_id(other), parent);
        }
    }
}

#[test]
fn updates_leave_the_shape() {
    let before = parents(&family(), None);
    for kind in [NodeKind::Alice, NodeKind::Bob, NodeKind::Charlie, NodeKind::Eve] {
        let tree = family().into_update(Update {
            id: id(kind),
            state: kind.failed_state(),
        });
        assert_eq!(parents(&tree, None), before);
    }
}

#[test]
fn lookups_after_a_rewrite_find_the_rewritten() {
    let rewrite = |node: &mut Node<StateId<NodeKind>, NodeState>| {
        node.update_all_fn(|mut z: Zipper<StateId<NodeKind>, NodeState>| {
            z.node.state = z.node.id.failed_state();
            z.finish_update()
        });
    };
    let mut tree = family();
    rewrite(&mut tree);
    let kinds = [NodeKind::Alice, NodeKind::Bob, NodeKind::Charlie, NodeKind::Dave, NodeKind::Eve];
    for kind in kinds {
        let found = outline(tree.get(id(kind)).unwrap(), 0);
        let mut rest = family();
        for kind in kinds {
            rest.update(Update {
                id: id(kind),
                state: kind.failed_state(),
            });
        }
        assert_eq!(found, outline(rest.get(id(kind)).unwrap(), 0));
    }
    assert!(tree.get(StateId::nil(NodeKind::Dave)).is_none());
}

#[test]
fn updates_of_different_ids_commute() {
    let bob = |tree: Node<StateId<NodeKind>, NodeState>| {
        tree.into_update(Update {
            id: id(NodeKind::Bob),
            state: NodeState::Bob(Bob::Awaiting),
        })
    };
    let eve = |tree: Node<StateId<NodeKind>, NodeState>| {
        tree.into_update(Update {
            id: id(NodeKind::Eve),
            state: NodeState::Eve(Eve::Failed),
        })
    };
    assert_eq!(
        outline(&bob(eve(family())), 0),
        outline(&eve(bob(family())), 0)
    );
}

#[test]
fn the_last_update_wins() {
    let mut tree = family();
    for state in [Dave::Awaiting, Dave::Failed, Dave::Completed] {
        tree.update(Update {
            id: id(NodeKind::Dave),
            state: NodeState::Dave(state),
        });
    }
    let once = family().into_update(Update {
        id: id(NodeKind::Dave),
        state: NodeState::Dave(Dave::Completed),
    });
    assert_eq!(outline(&tree, 0), outline(&once, 0));
}

#[test]
fn lookups_of_a_repeated_id_stop_at_the_top() {
    // below the top there is a second state with the name of the top
    let alice = id(NodeKind::Alice);
    let mut tree = Node::new(alice).into_insert(Insert {
        parent_id: Some(alice),
        id: alice,
    });
    tree.update(Update {
        id: alice,
        state: NodeState::Alice(Alice::Failed),
    });
    assert_eq!(tree.get_state(alice), Some(&NodeState::Alice(Alice::New)));
    assert_eq!(tree.children[0].state, NodeState::Alice(Alice::Failed));
}

#[test]
fn ended_states_are_terminal() {
    assert!(NodeKind::is_terminal(NodeState::Bob(Bob::Failed)));
    assert!(NodeKind::is_terminal(NodeState::Bob(Bob::Completed)));
    assert!(!NodeKind::is_terminal(NodeState::Bob(Bob::New)));
    assert!(!NodeKind::is_terminal(NodeState::Bob(Bob::Awaiting)));
}
