//! Which keys are held down, as told by a stream of key events.

use crate::sequence::{first_index, lemma_first_index_is};
use vstd::prelude::*;

verus! {

/// Whether a key went down or came up.
#[derive(Clone, Copy, Debug, PartialEq, Eq, Structural)]
pub enum ElementState {
    Pressed,
    Released,
}

/// One key event: the key's code, where the platform could name the key,
/// and what happened to it.
#[derive(Clone, Copy, Debug, PartialEq, Eq, Structural)]
pub struct KeyboardInput {
    pub virtual_keycode: Option<u32>,
    pub state: ElementState,
}

/// The keys that are down, in the order in which they went down. A key
/// that repeats while held is listed once per event.
#[derive(Debug)]
pub struct Keyboard {
    pressed_keys: Vec<u32>,
}

impl View for Keyboard {
    type V = Seq<u32>;

    closed spec fn view(&self) -> Seq<u32> {
        self.pressed_keys@
    }
}

/// The effect of one key event on the list of keys that are down: a press
/// appends the key, a release removes the key's earliest entry, and an
/// event without a key code does nothing.
pub open spec fn after_input(keys: Seq<u32>, input: KeyboardInput) -> Seq<u32> {
    match input.virtual_keycode {
        Some(key) => match input.state {
            ElementState::Pressed => keys.push(key),
            ElementState::Released => if first_index(keys, key) < keys.len() {
                keys.remove(first_index(keys, key))
            } else {
                keys
            },
        },
        None => keys,
    }
}

impl Keyboard {
    /// A keyboard with no key down.
    pub fn new() -> (keyboard: Self)
        ensures
            keyboard@ == Seq::<u32>::empty(),
    {
        Self { pressed_keys: Vec::new() }
    }

    /// Takes note of one key event; see [`after_input`].
    pub fn handle_input(&mut self, input: &KeyboardInput)
        ensures
            final(self)@ == after_input(old(self)@, *input),
    {
        if let Some(keycode) = input.virtual_keycode {
            match input.state {
                ElementState::Pressed => {
                    self.pressed_keys.push(keycode);
                },
                ElementState::Released => {
                    let mut index: usize = 0;
                    while index < self.pressed_keys.len()
                        invariant
                            index <= self.pressed_keys@.len(),
                            self.pressed_keys@ == old(self).pressed_keys@,
                            input.virtual_keycode == Some(keycode),
                            input.state == ElementState::Released,
                            forall|k: int| 0 <= k < index ==> self.pressed_keys@[k] != keycode,
                        decreases self.pressed_keys@.len() - index,
                    {
                        if self.pressed_keys[index] == keycode {
                            proof {
                                lemma_first_index_is(self.pressed_keys@, keycode, index as int);
                            }
                            self.pressed_keys.remove(index);
                            return ;
                        }
                        index += 1;
                    }
                    proof {
                        lemma_first_index_is(self.pressed_keys@, keycode, index as int);
                    }
                },
            }
        }
    }

    /// Whether `key` is down.
    pub fn is_key_pressed(&self, key: u32) -> (pressed: bool)
        ensures
            pressed == self@.contains(key),
    {
        let mut index: usize = 0;
        while index < self.pressed_keys.len()
            invariant
                index <= self.pressed_keys@.len(),
                forall|k: int| 0 <= k < index ==> self.pressed_keys@[k] != key,
            decreases self.pressed_keys@.len() - index,
        {
            if self.pressed_keys[index] == key {
                return true;
            }
            index += 1;
        }
        false
    }
}

} // verus!
