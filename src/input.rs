//! Keyboard state sampled once per tick: which keys are held, and which
//! went down since the previous tick.
use vstd::prelude::*;

use crate::interfaces::Initializable;

verus! {

/// How many keys are tracked.
pub const KEY_COUNT: usize = 6;

/// The keys the game reads. `Size` is not a key: it counts them.
#[derive(Clone, Copy, Debug, PartialEq, Eq, Structural)]
pub enum Keys {
    Left,
    Right,
    Up,
    Down,
    Enter,
    Esc,
    Size,
}

impl Keys {
    pub open spec fn index_spec(&self) -> int {
        match self {
            Keys::Left => 0,
            Keys::Right => 1,
            Keys::Up => 2,
            Keys::Down => 3,
            Keys::Enter => 4,
            Keys::Esc => 5,
            Keys::Size => 6,
        }
    }

    /// The slot of the key in the state table; `Size` gives the count.
    pub fn index(&self) -> (r: usize)
        ensures
            r == self.index_spec(),
    {
        match self {
            Keys::Left => 0,
            Keys::Right => 1,
            Keys::Up => 2,
            Keys::Down => 3,
            Keys::Enter => 4,
            Keys::Esc => 5,
            Keys::Size => 6,
        }
    }
}

/// A key's state at the previous tick and at this one.
#[derive(Clone, Copy, Debug, Default, PartialEq, Eq, Structural)]
struct PreviousCurrentValue {
    previous_value: bool,
    current_value: bool,
}

/// Something that reads the keyboard state each tick.
pub trait InputConsumer {
    fn handle_input(&mut self, input: &Input);
}

pub struct Input {
    key_states: Vec<PreviousCurrentValue>,
}

impl View for Input {
    /// For each key slot: (held at the previous tick, held now).
    type V = Seq<(bool, bool)>;

    closed spec fn view(&self) -> Seq<(bool, bool)> {
        self.key_states@.map_values(|s: PreviousCurrentValue| (s.previous_value, s.current_value))
    }
}

impl Input {
    /// An input with no key slots yet; `initialize` creates them.
    pub fn new() -> (r: Self)
        ensures
            r@.len() == 0,
    {
        Self { key_states: Vec::new() }
    }

    /// How many key slots there are: `KEY_COUNT` once initialized.
    pub fn key_count(&self) -> (r: usize)
        ensures
            r == self@.len(),
    {
        self.key_states.len()
    }

    /// Every key has a slot.
    pub open spec fn is_initialized(&self) -> bool {
        self@.len() == KEY_COUNT
    }

    /// Whether `key` is held now.
    pub fn is_pressed(&self, key: Keys) -> (r: bool)
        requires
            self.is_initialized(),
            key != Keys::Size,
        ensures
            r == self@[key.index_spec()].1,
    {
        let index = key.index();
        self.key_states[index].current_value
    }

    /// Whether `key` is held now and was not at the previous tick.
    pub fn just_pressed(&self, key: Keys) -> (r: bool)
        requires
            self.is_initialized(),
            key != Keys::Size,
        ensures
            r == (self@[key.index_spec()].1 && !self@[key.index_spec()].0),
    {
        let index = key.index();
        let state = self.key_states[index];
        state.current_value && !state.previous_value
    }

    /// Records `pressed[k]` as the current state of key slot `k`.
    fn update_current_key_states(&mut self, pressed: &Vec<bool>)
        requires
            old(self).is_initialized(),
            pressed.len() == KEY_COUNT,
        ensures
            final(self)@.len() == KEY_COUNT,
            forall|k: int|
                0 <= k < KEY_COUNT ==> #[trigger] final(self)@[k] == (old(self)@[k].0, pressed[k]),
    {
        let mut i: usize = 0;
        while i < KEY_COUNT
            invariant
                self.key_states.len() == KEY_COUNT,
                pressed.len() == KEY_COUNT,
                i <= KEY_COUNT,
                forall|k: int|
                    0 <= k < i ==> #[trigger] self.key_states[k] == (PreviousCurrentValue {
                        previous_value: old(self).key_states[k].previous_value,
                        current_value: pressed[k],
                    }),
                forall|k: int|
                    i <= k < KEY_COUNT ==> #[trigger] self.key_states[k] == old(self).key_states[k],
            decreases KEY_COUNT - i,
        {
            let previous_value = self.key_states[i].previous_value;
            self.key_states.set(i, PreviousCurrentValue { previous_value, current_value: pressed[i] });
            i = i + 1;
        }
    }

    /// Moves the current state of every key into its previous state.
    fn update_previous_key_states(&mut self)
        requires
            old(self).is_initialized(),
        ensures
            final(self)@.len() == KEY_COUNT,
            forall|k: int|
                0 <= k < KEY_COUNT ==> #[trigger] final(self)@[k] == (old(self)@[k].1, old(self)@[k].1),
    {
        let mut i: usize = 0;
        while i < KEY_COUNT
            invariant
                self.key_states.len() == KEY_COUNT,
                i <= KEY_COUNT,
                forall|k: int|
                    0 <= k < i ==> #[trigger] self.key_states[k] == (PreviousCurrentValue {
                        previous_value: old(self).key_states[k].current_value,
                        current_value: old(self).key_states[k].current_value,
                    }),
                forall|k: int|
                    i <= k < KEY_COUNT ==> #[trigger] self.key_states[k] == old(self).key_states[k],
            decreases KEY_COUNT - i,
        {
            let current_value = self.key_states[i].current_value;
            self.key_states.set(i, PreviousCurrentValue { previous_value: current_value, current_value });
            i = i + 1;
        }
    }

    /// Starts a new tick: what was current becomes previous, and
    /// `pressed[k]`, sampled from the keyboard, becomes current.
    pub fn update(&mut self, pressed: &Vec<bool>)
        requires
            old(self).is_initialized(),
            pressed.len() == KEY_COUNT,
        ensures
            final(self).is_initialized(),
            forall|k: int|
                0 <= k < KEY_COUNT ==> #[trigger] final(self)@[k] == (old(self)@[k].1, pressed[k]),
    {
        self.update_previous_key_states();
        self.update_current_key_states(pressed);
    }
}

impl Initializable for Input {
    /// Gives every key a slot, released at both ticks.
    fn initialize(&mut self)
        ensures
            final(self).is_initialized(),
            forall|k: int| 0 <= k < KEY_COUNT ==> #[trigger] final(self)@[k] == (false, false),
    {
        let mut key_states: Vec<PreviousCurrentValue> = Vec::new();
        let mut i: usize = 0;
        while i < KEY_COUNT
            invariant
                key_states.len() == i,
                i <= KEY_COUNT,
                forall|k: int|
                    0 <= k < i ==> !(#[trigger] key_states[k]).previous_value
                        && !key_states[k].current_value,
            decreases KEY_COUNT - i,
        {
            key_states.push(PreviousCurrentValue { previous_value: false, current_value: false });
            i = i + 1;
        }
        self.key_states = key_states;
    }
}

} // verus!
