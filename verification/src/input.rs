//! Input: which actions the keys that are held down ask for.

use vstd::prelude::*;

verus! {

/// What a player can ask the game to do.
#[derive(Debug, Clone, Copy, PartialEq, Eq, Hash, Structural)]
pub enum Action {
    MoveForward,
    MoveBackward,
    StrafeLeft,
    StrafeRight,
    RotateLeft,
    RotateRight,
    Shoot,
    Reload,
    SwitchWeapon1,
    SwitchWeapon2,
    SwitchWeapon3,
    RespawnEnemies,
    RespawnPlayer,
    ToggleFPS,
    Sprint,
    Quit,
    NoAction,
}

/// The keys that the game reads. Every other key is `Other`.
#[derive(Debug, Clone, Copy, PartialEq, Eq, Hash, Structural)]
pub enum Key {
    Up,
    Down,
    Left,
    Right,
    W,
    A,
    S,
    D,
    Q,
    E,
    R,
    P,
    F,
    C,
    Key1,
    Key2,
    Key3,
    Space,
    LShift,
    RShift,
    LControl,
    RControl,
    Other,
}

/// Whether the keys `keys`, held down together, ask for `action`.
pub open spec fn asks_for(keys: Seq<Key>, action: Action) -> bool {
    match action {
        Action::MoveForward => keys.contains(Key::Up) || keys.contains(Key::W),
        Action::MoveBackward => keys.contains(Key::Down) || keys.contains(Key::S),
        Action::StrafeLeft => keys.contains(Key::Left) || keys.contains(Key::A),
        Action::StrafeRight => keys.contains(Key::Right) || keys.contains(Key::D),
        Action::RotateLeft => keys.contains(Key::Q),
        Action::RotateRight => keys.contains(Key::E),
        Action::Shoot => keys.contains(Key::Space),
        Action::Reload => keys.contains(Key::R),
        Action::SwitchWeapon1 => keys.contains(Key::Key1),
        Action::SwitchWeapon2 => keys.contains(Key::Key2),
        Action::SwitchWeapon3 => keys.contains(Key::Key3),
        Action::RespawnEnemies => keys.contains(Key::P),
        Action::RespawnPlayer => false,
        Action::ToggleFPS => keys.contains(Key::F),
        Action::Sprint => keys.contains(Key::LShift) || keys.contains(Key::RShift),
        Action::Quit => (keys.contains(Key::LControl) || keys.contains(Key::RControl)) && keys.contains(
            Key::C,
        ),
        Action::NoAction => false,
    }
}

/// The actions that are asked for at the moment.
pub struct InputManager {
    pub active_actions: Vec<Action>,
}

impl InputManager {
    /// Whether `action` is asked for at the moment.
    pub open spec fn is_on(&self, action: Action) -> bool {
        self.active_actions@.contains(action)
    }

    /// An input manager with no action asked for.
    pub fn new() -> (m: Self)
        ensures
            forall|action: Action| !m.is_on(action),
    {
        InputManager { active_actions: Vec::new() }
    }

    /// Whether `keys` holds `key`.
    pub fn holds(keys: &Vec<Key>, key: Key) -> (r: bool)
        ensures
            r == keys@.contains(key),
    {
        let mut i: usize = 0;
        while i < keys.len()
            invariant
                i <= keys@.len(),
                forall|k: int| 0 <= k < i ==> keys@[k] != key,
            decreases keys@.len() - i,
        {
            if keys[i] == key {
                return true;
            }
            i += 1;
        }
        false
    }

    /// Notes `action` as asked for where `on` says so.
    fn note(&mut self, action: Action, on: bool)
        ensures
            forall|a: Action|
                final(self).is_on(a) == (old(self).is_on(a) || (on && a == action)),
    {
        if on {
            self.active_actions.push(action);
            assert forall|a: Action| final(self).is_on(a) == (old(self).is_on(a) || a == action) by {
                let before = old(self).active_actions@;
                let after = self.active_actions@;
                if before.contains(a) {
                    let k = choose|k: int| 0 <= k < before.len() && before[k] == a;
                    assert(after[k] == a);
                }
                if a == action {
                    assert(after[after.len() - 1] == a);
                }
            }
        }
    }

    /// Takes the keys that are held down and works out the actions that they
    /// ask for; what was asked for before is forgotten.
    pub fn update(&mut self, keys: &Vec<Key>)
        ensures
            forall|action: Action| final(self).is_on(action) == asks_for(keys@, action),
    {
        self.active_actions.clear();
        self.note(Action::MoveForward, Self::holds(keys, Key::Up) || Self::holds(keys, Key::W));
        self.note(Action::MoveBackward, Self::holds(keys, Key::Down) || Self::holds(keys, Key::S));
        self.note(Action::StrafeLeft, Self::holds(keys, Key::Left) || Self::holds(keys, Key::A));
        self.note(Action::StrafeRight, Self::holds(keys, Key::Right) || Self::holds(keys, Key::D));
        self.note(Action::RotateLeft, Self::holds(keys, Key::Q));
        self.note(Action::RotateRight, Self::holds(keys, Key::E));
        self.note(Action::SwitchWeapon1, Self::holds(keys, Key::Key1));
        self.note(Action::SwitchWeapon2, Self::holds(keys, Key::Key2));
        self.note(Action::SwitchWeapon3, Self::holds(keys, Key::Key3));
        self.note(Action::Shoot, Self::holds(keys, Key::Space));
        self.note(Action::Reload, Self::holds(keys, Key::R));
        self.note(Action::RespawnEnemies, Self::holds(keys, Key::P));
        self.note(Action::ToggleFPS, Self::holds(keys, Key::F));
        self.note(Action::Sprint, Self::holds(keys, Key::LShift) || Self::holds(keys, Key::RShift));
        let ctrl: bool = Self::holds(keys, Key::LControl) || Self::holds(keys, Key::RControl);
        self.note(Action::Quit, ctrl && Self::holds(keys, Key::C));
    }

    /// Whether `action` is asked for at the moment.
    pub fn is_active(&self, action: Action) -> (r: bool)
        ensures
            r == self.is_on(action),
    {
        let mut i: usize = 0;
        while i < self.active_actions.len()
            invariant
                i <= self.active_actions@.len(),
                forall|k: int| 0 <= k < i ==> self.active_actions@[k] != action,
            decreases self.active_actions@.len() - i,
        {
            if self.active_actions[i] == action {
                return true;
            }
            i += 1;
        }
        false
    }
}

} // verus!
