//! Keyboard & virtual input state.

pub mod keyboard;
pub mod universal;

use vstd::prelude::*;

verus! {

broadcast use vstd::array::group_array_axioms;

/// Number of key slots tracked by the keyboard state tables.
pub const KEY_COUNT: usize = 512;

/// Whether a key went down or came up.
#[derive(Clone, Copy, Debug, PartialEq, Eq)]
pub enum ElementState {
    Pressed,
    Released,
}

/// A keyboard event: the virtual key code (when the platform reported one)
/// and whether the key was pressed or released.
#[derive(Clone, Copy, Debug)]
pub struct KeyboardInput {
    pub virtual_keycode: Option<u32>,
    pub state: ElementState,
}

/// A key code can index the key tables when it is below `KEY_COUNT`.
pub open spec fn valid_key(key: u32) -> bool {
    (key as int) < KEY_COUNT as int
}

/// An event can be handled when its key code (if any) is a valid key.
pub open spec fn valid_event(event: KeyboardInput) -> bool {
    match event.virtual_keycode {
        Some(k) => valid_key(k),
        None => true,
    }
}

/// The table of key states after `event` was applied to `keys`.
pub open spec fn apply_key_event(keys: Seq<bool>, event: KeyboardInput) -> Seq<bool> {
    match event.virtual_keycode {
        Some(k) => keys.update(k as int, event.state == ElementState::Pressed),
        None => keys,
    }
}

/// A table in which no key is held down.
pub open spec fn all_released(keys: Seq<bool>) -> bool {
    keys.len() == KEY_COUNT && forall|i: int| 0 <= i < KEY_COUNT ==> !#[trigger] keys[i]
}


/// Keyboard-only input tracker: which keys are held down right now.
pub struct Input {
    key_state: [bool; 512],
    pub input_enabled: bool,
}

impl Input {
    /// Key states of the current moment.
    pub closed spec fn keys(&self) -> Seq<bool> {
        self.key_state@
    }

    /// Whether keyboard events are currently handled.
    pub closed spec fn enabled(&self) -> bool {
        self.input_enabled
    }
}

impl Default for Input {
    fn default() -> (input: Self)
        ensures
            input.enabled(),
            all_released(input.keys()),
    {
        Self { key_state: [false; 512], input_enabled: true }
    }
}

impl Input {
    /// Enables or disables handling of keyboard events; disabling releases
    /// every key (we lose focus).
    pub fn set_input_enabled(&mut self, input_enabled: bool)
        ensures
            final(self).enabled() == input_enabled,
            input_enabled ==> final(self).keys() == old(self).keys(),
            !input_enabled ==> all_released(final(self).keys()),
    {
        // when we lose focus we disable all inputs
        if !input_enabled {
            self.key_state = [false; 512];
        }
        self.input_enabled = input_enabled;
    }

    /// Whether `key` is held down.
    pub fn is_key_down(&self, key: u32) -> (r: bool)
        requires
            valid_key(key),
        ensures
            r == self.keys()[key as int],
    {
        self.key_state[key as usize]
    }

    /// Whether `key` is up.
    pub fn is_key_up(&self, key: u32) -> (r: bool)
        requires
            valid_key(key),
        ensures
            r == !self.keys()[key as int],
    {
        !self.key_state[key as usize]
    }

    /// Applies a keyboard event when input is enabled.
    pub fn handle_event(&mut self, event: KeyboardInput)
        requires
            valid_event(event),
        ensures
            final(self).enabled() == old(self).enabled(),
            old(self).enabled() ==> final(self).keys() == apply_key_event(old(self).keys(), event),
            !old(self).enabled() ==> final(self).keys() == old(self).keys(),
    {
        if !self.input_enabled {
            return;
        }
        if let Some(t) = event.virtual_keycode {
            match event.state {
                ElementState::Pressed => self.key_state[t as usize] = true,
                ElementState::Released => self.key_state[t as usize] = false,
            }
        }
    }
}

} // verus!
