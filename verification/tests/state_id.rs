use rex::state_id::write_id;
use rex::{Coded, Kind, State, StateId};

#[derive(Debug, Clone, Copy, PartialEq)]
struct Lamp;

#[derive(Debug, Clone, Copy, PartialEq)]
enum Light {
    Off,
    Broken,
    Burnt,
}

impl Coded for Lamp {
    fn number(self) -> u64 {
        self.code()
    }

    fn number_injective(_a: Self, _b: Self) {}

    fn code(&self) -> u64 {
        0
    }
}

impl Coded for Light {
    fn number(self) -> u64 {
        self.code()
    }

    fn number_injective(_a: Self, _b: Self) {}

    fn code(&self) -> u64 {
        match self {
            Light::Off => 0,
            Light::Broken => 1,
            Light::Burnt => 2,
        }
    }
}

impl State for Light {
    type Input = ();
}

impl Kind for Lamp {
    type State = Light;
    type Input = ();

    fn initial(self) -> Light {
        self.new_state()
    }

    fn failed(self) -> Light {
        self.failed_state()
    }

    fn completed(self) -> Light {
        self.completed_state()
    }

    fn owner(state: Light) -> Lamp {
        Lamp::of_state(&state)
    }

    fn new_state(&self) -> Light {
        Light::Off
    }

    fn failed_state(&self) -> Light {
        Light::Broken
    }

    fn completed_state(&self) -> Light {
        Light::Burnt
    }

    fn of_state(_state: &Light) -> Lamp {
        Lamp
    }
}

#[test]
fn random_ids_differ_and_are_not_nil() {
    let a = StateId::new_rand(Lamp);
    let b = StateId::new_rand(Lamp);
    assert!(!a.is_nil());
    assert_ne!(a.uuid, b.uuid);
    // the version and the variant of a random UUID
    assert_eq!((a.uuid >> 76) & 0xF, 4);
    assert_eq!((a.uuid >> 62) & 0x3, 2);
}

#[test]
fn nil_ids_are_nil() {
    let id = StateId::nil(Lamp);
    assert!(id.is_nil());
    assert_eq!(id.uuid, 0);
    assert!(!StateId::new_with_u128(Lamp, 1).is_nil());
}

#[test]
fn ids_are_written_in_base_58() {
    assert_eq!(StateId::nil(Lamp).to_string(), "Lamp<NIL>");
    assert_eq!(
        StateId::new_with_u128(Lamp, 1).to_string(),
        "Lamp<1111111111111112>"
    );
    // 58 takes the digits one and zero
    assert_eq!(write_id("K", 58), "K<11111111111111121>");
    assert_eq!(
        StateId::new(Lamp, u128::MAX).to_string(),
        "Lamp<YcVfxkQb6JRzqk5kF2tNLv>"
    );
}

#[test]
fn different_ids_are_written_differently() {
    let mut texts: Vec<String> = [0, 1, 57, 58, 255, 256, 1 << 64, u128::MAX]
        .iter()
        .map(|uuid| StateId::new(Lamp, *uuid).to_string())
        .collect();
    texts.sort();
    texts.dedup();
    assert_eq!(texts.len(), 8);
}

#[test]
fn ids_are_equal_where_kind_and_uuid_are() {
    let a = StateId::new(Lamp, 5);
    let copy = a;
    assert!(a.same(&copy));
    assert_eq!(a, copy);
    assert!(!a.same(&StateId::new(Lamp, 6)));
    assert_eq!(a.get_key(), (0, 5));
}

#[test]
fn ids_lend_their_kind() {
    let id = StateId::new(Lamp, 5);
    assert_eq!(*id, Lamp);
    assert_eq!(id.new_state(), Light::Off);
}
