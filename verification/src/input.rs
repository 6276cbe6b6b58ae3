//! Discrete window-input state: which keys and mouse buttons are down, and
//! which kinds of input changed since they were last polled. The float-based
//! parts of input handling (scroll accumulation, motion sensitivity) belong
//! to the windowing layer, which feeds plain key codes and button states in.

use vstd::prelude::*;
use vstd::pervasive::VecAdditionalExecFns;

verus! {

/// How many distinct change kinds are tracked.
pub const MAX_STATE_CHANGES: usize = 4;

/// How many key slots exist; key codes must stay below this.
pub const MAX_KEYS: usize = 255;

/// How many mouse-button slots exist; button indices must stay below this.
pub const MAX_BUTTONS: usize = 255;

/// One kind of input-state change, polled independently of the others.
#[derive(Clone, Copy, PartialEq, Eq, Structural, Debug)]
pub enum StateChange {
    Keyboard,
    MouseButton,
    MouseScroll,
    MouseMotion,
}

/// The slot a change kind occupies in the change-flag table.
pub open spec fn state_index(s: StateChange) -> int {
    match s {
        StateChange::Keyboard => 0,
        StateChange::MouseButton => 1,
        StateChange::MouseScroll => 2,
        StateChange::MouseMotion => 3,
    }
}

/// Whether a key or button is down or up.
#[derive(Clone, Copy, PartialEq, Eq, Structural, Debug)]
pub enum KeyState {
    Pressed,
    Released,
}

/// A mouse button as the windowing layer reports it.
#[derive(Clone, Copy, PartialEq, Eq, Structural, Debug)]
pub enum MouseButton {
    Left,
    Right,
    Middle,
    Other(u8),
}

/// The slot a button occupies in the button-state table.
pub open spec fn button_index(b: MouseButton) -> int {
    match b {
        MouseButton::Left => 0,
        MouseButton::Right => 1,
        MouseButton::Middle => 2,
        MouseButton::Other(v) => v as int,
    }
}

/// A keyboard event: the resolved key code, if any, and the key's new state.
#[derive(Clone, Copy, PartialEq, Eq, Structural, Debug)]
pub struct KeyboardInput {
    pub virtual_keycode: Option<u8>,
    pub state: KeyState,
}

/// What a `WinInput` holds, seen from a specification.
#[verifier::ext_equal]
pub ghost struct InputView {
    /// Which change kinds fired since they were last polled.
    pub changes: Seq<bool>,
    /// Every key slot's current state.
    pub keys: Seq<KeyState>,
    /// Every button slot's current state.
    pub buttons: Seq<KeyState>,
}

/// Tracks key and button states and flags each kind of change once until it
/// is polled with `updated`.
pub struct WinInput {
    states_changes: Vec<bool>,
    keys_states: Vec<KeyState>,
    buttons_states: Vec<KeyState>,
}

impl View for WinInput {
    type V = InputView;

    closed spec fn view(&self) -> InputView {
        InputView {
            changes: self.states_changes@,
            keys: self.keys_states@,
            buttons: self.buttons_states@,
        }
    }
}

impl WinInput {
    /// The three tables have their fixed sizes.
    pub open spec fn wf(&self) -> bool {
        &&& self@.changes.len() == MAX_STATE_CHANGES
        &&& self@.keys.len() == MAX_KEYS
        &&& self@.buttons.len() == MAX_BUTTONS
    }

    /// Everything released, nothing flagged as changed.
    pub fn new() -> (t: WinInput)
        ensures
            t.wf(),
            forall|j: int| 0 <= j < MAX_STATE_CHANGES ==> !t@.changes[j],
            forall|j: int| 0 <= j < MAX_KEYS ==> t@.keys[j] == KeyState::Released,
            forall|j: int| 0 <= j < MAX_BUTTONS ==> t@.buttons[j] == KeyState::Released,
    {
        let mut states_changes: Vec<bool> = Vec::new();
        let mut i: usize = 0;
        while i < MAX_STATE_CHANGES
            invariant
                i <= MAX_STATE_CHANGES,
                states_changes@.len() == i,
                forall|j: int| 0 <= j < i ==> !states_changes@[j],
            decreases MAX_STATE_CHANGES - i,
        {
            states_changes.push(false);
            i = i + 1;
        }
        let mut keys_states: Vec<KeyState> = Vec::new();
        i = 0;
        while i < MAX_KEYS
            invariant
                i <= MAX_KEYS,
                keys_states@.len() == i,
                forall|j: int| 0 <= j < i ==> keys_states@[j] == KeyState::Released,
            decreases MAX_KEYS - i,
        {
            keys_states.push(KeyState::Released);
            i = i + 1;
        }
        let mut buttons_states: Vec<KeyState> = Vec::new();
        i = 0;
        while i < MAX_BUTTONS
            invariant
                i <= MAX_BUTTONS,
                buttons_states@.len() == i,
                forall|j: int| 0 <= j < i ==> buttons_states@[j] == KeyState::Released,
            decreases MAX_BUTTONS - i,
        {
            buttons_states.push(KeyState::Released);
            i = i + 1;
        }
        WinInput { states_changes, keys_states, buttons_states }
    }

    fn state_slot(&self, state: StateChange) -> (r: usize)
        ensures
            r == state_index(state),
    {
        match state {
            StateChange::Keyboard => 0,
            StateChange::MouseButton => 1,
            StateChange::MouseScroll => 2,
            StateChange::MouseMotion => 3,
        }
    }

    /// Flags a change kind so that the next `updated` poll reports it. The
    /// windowing layer calls this for the kinds it tracks itself, such as
    /// scroll and motion.
    pub fn set_state_updated(&mut self, state: StateChange)
        requires
            old(self).wf(),
        ensures
            final(self).wf(),
            final(self)@ =~= (InputView {
                changes: old(self)@.changes.update(state_index(state), true),
                ..old(self)@
            }),
    {
        let slot = self.state_slot(state);
        self.states_changes.set(slot, true);
    }

    /// Reports whether the given change kind fired since the last poll, and
    /// clears the flag: two polls in a row never both report a change.
    pub fn updated(&mut self, state: StateChange) -> (r: bool)
        requires
            old(self).wf(),
        ensures
            final(self).wf(),
            r == old(self)@.changes[state_index(state)],
            final(self)@ =~= (InputView {
                changes: old(self)@.changes.update(state_index(state), false),
                ..old(self)@
            }),
    {
        let slot = self.state_slot(state);
        if self.states_changes[slot] {
            self.states_changes.set(slot, false);
            true
        } else {
            proof {
                assert(old(self)@.changes.update(state_index(state), false) =~= old(
                    self,
                )@.changes);
            }
            false
        }
    }

    /// Whether the key with code `k` is currently down.
    pub fn is_pressed(&self, k: u8) -> (r: bool)
        requires
            self.wf(),
            (k as int) < MAX_KEYS,
        ensures
            r == (self@.keys[k as int] == KeyState::Pressed),
    {
        self.keys_states[k as usize] == KeyState::Pressed
    }

    fn button_id(&self, button: MouseButton) -> (r: usize)
        ensures
            r == button_index(button),
    {
        match button {
            MouseButton::Left => 0,
            MouseButton::Right => 1,
            MouseButton::Middle => 2,
            MouseButton::Other(v) => v as usize,
        }
    }

    /// Whether the given mouse button is currently down.
    pub fn is_button_pressed(&self, k: MouseButton) -> (r: bool)
        requires
            self.wf(),
            button_index(k) < MAX_BUTTONS,
        ensures
            r == (self@.buttons[button_index(k)] == KeyState::Pressed),
    {
        let id = self.button_id(k);
        self.buttons_states[id] == KeyState::Pressed
    }

    /// Takes a button event: stores the new state and flags a button change,
    /// but only if the state really differs from the stored one.
    pub fn on_mouse_input(&mut self, input: MouseButton, state: KeyState)
        requires
            old(self).wf(),
            button_index(input) < MAX_BUTTONS,
        ensures
            final(self).wf(),
            final(self)@ =~= if old(self)@.buttons[button_index(input)] != state {
                InputView {
                    buttons: old(self)@.buttons.update(button_index(input), state),
                    changes: old(self)@.changes.update(
                        state_index(StateChange::MouseButton),
                        true,
                    ),
                    ..old(self)@
                }
            } else {
                old(self)@
            },
    {
        let k = self.button_id(input);
        if state != self.buttons_states[k] {
            self.buttons_states.set(k, state);
            self.set_state_updated(StateChange::MouseButton);
        }
    }

    /// Takes a keyboard event: if it carries a resolved key code, stores the
    /// new state and flags a keyboard change, but only if the state really
    /// differs from the stored one.
    pub fn on_keyboard_input(&mut self, input: KeyboardInput)
        requires
            old(self).wf(),
            input.virtual_keycode matches Some(k) ==> (k as int) < MAX_KEYS,
        ensures
            final(self).wf(),
            final(self)@ =~= if input.virtual_keycode matches Some(k)
                && old(self)@.keys[k as int] != input.state {
                InputView {
                    keys: old(self)@.keys.update(
                        input.virtual_keycode->0 as int,
                        input.state,
                    ),
                    changes: old(self)@.changes.update(state_index(StateChange::Keyboard), true),
                    ..old(self)@
                }
            } else {
                old(self)@
            },
    {
        if let Some(k) = input.virtual_keycode {
            let idx = k as usize;
            if input.state != self.keys_states[idx] {
                self.keys_states.set(idx, input.state);
                self.set_state_updated(StateChange::Keyboard);
            }
        }
    }
}

impl Default for WinInput {
    /// The same state `new` gives: everything released, nothing flagged.
    fn default() -> (t: Self)
        ensures
            t.wf(),
            forall|j: int| 0 <= j < MAX_STATE_CHANGES ==> !t@.changes[j],
            forall|j: int| 0 <= j < MAX_KEYS ==> t@.keys[j] == KeyState::Released,
            forall|j: int| 0 <= j < MAX_BUTTONS ==> t@.buttons[j] == KeyState::Released,
    {
        WinInput::new()
    }
}

} // verus!
