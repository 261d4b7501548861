//! The state of the keyboard, as the window loop reports it.

use crate::keyed::Key;
use crate::keyed::KeyMap;
use vstd::prelude::*;
use winit::keyboard::KeyCode;

verus! {

/// `winit::keyboard::KeyCode`, the code of a physical key. Opaque here:
/// all that is done with two codes is to compare them.
#[verifier::external_type_specification]
#[verifier::external_body]
pub struct ExKeyCode(KeyCode);

/// `==` on `KeyCode`: whether the two are the same key.
#[verifier::external_body]
fn same_key_code(first: &KeyCode, second: &KeyCode) -> (same: bool)
    ensures
        same == (*first == *second),
{
    first == second
}

impl Key for KeyCode {
    fn same(&self, other: &Self) -> (same: bool) {
        same_key_code(self, other)
    }
}

/// What is known of a key: it went down, it went up, or it went up before
/// the event before this one.
#[derive(Debug, Clone, Copy, PartialEq, Eq, Structural)]
pub enum KeyboardKeyState {
    Pressed,
    Released,
    Idle,
}

impl KeyboardKeyState {
    /// The state one event later, if the key is not heard of: a released
    /// key becomes idle, and every other state stays.
    pub open spec fn settled(self) -> Self {
        if self == KeyboardKeyState::Released {
            KeyboardKeyState::Idle
        } else {
            self
        }
    }
}

/// A key, named by its place on the keyboard or by the character it types.
#[derive(Debug, Clone, Copy, PartialEq, Eq)]
pub enum KeyboardKey {
    Code(KeyCode),
    Symbol(char),
}

/// What a keyboard state holds: the state of each key that was ever heard
/// of, and for each character the key that last typed it.
pub struct KeyboardInputView {
    pub keys_state: Map<KeyCode, KeyboardKeyState>,
    pub symbols_to_codes: Map<char, KeyCode>,
}

impl KeyboardInputView {
    /// The physical key that `key` names, if it names one: a code names
    /// itself, and a character names the key that last typed it.
    pub open spec fn code_of(self, key: KeyboardKey) -> Option<KeyCode> {
        match key {
            KeyboardKey::Code(code) => Some(code),
            KeyboardKey::Symbol(symbol) => if self.symbols_to_codes.contains_key(symbol) {
                Some(self.symbols_to_codes[symbol])
            } else {
                None
            },
        }
    }

    /// Whether `key` names a key that is known to be in `state`.
    pub open spec fn key_is(self, key: KeyboardKey, state: KeyboardKeyState) -> bool {
        match self.code_of(key) {
            Some(code) => self.keys_state.contains_key(code) && self.keys_state[code] == state,
            None => false,
        }
    }

    /// The keyboard after the key `code`, typing `symbol` if it types
    /// anything, was reported in `state`.
    pub open spec fn with_key(self, code: KeyCode, symbol: Option<char>, state: KeyboardKeyState) -> Self {
        KeyboardInputView {
            keys_state: self.keys_state.insert(code, state),
            symbols_to_codes: match symbol {
                Some(symbol) => self.symbols_to_codes.insert(symbol, code),
                None => self.symbols_to_codes,
            },
        }
    }

    /// The keyboard one event later: every released key is idle.
    pub open spec fn settled(self) -> Self {
        KeyboardInputView {
            keys_state: self.keys_state.map_values(|state: KeyboardKeyState| state.settled()),
            ..self
        }
    }

    /// A key is reported as released for one event: after the next event
    /// it is neither pressed nor released, until it is heard of again.
    pub proof fn lemma_release_lasts_one_event(self, code: KeyCode, symbol: Option<char>)
        ensures
            self.with_key(code, symbol, KeyboardKeyState::Released).key_is(
                KeyboardKey::Code(code),
                KeyboardKeyState::Released,
            ),
            !self.with_key(code, symbol, KeyboardKeyState::Released).settled().key_is(
                KeyboardKey::Code(code),
                KeyboardKeyState::Released,
            ),
            !self.with_key(code, symbol, KeyboardKeyState::Released).settled().key_is(
                KeyboardKey::Code(code),
                KeyboardKeyState::Pressed,
            ),
            self.with_key(code, symbol, KeyboardKeyState::Released).settled().settled() == self.with_key(
                code,
                symbol,
                KeyboardKeyState::Released,
            ).settled(),
    {
        let once = self.with_key(code, symbol, KeyboardKeyState::Released).settled();
        assert(once.settled().keys_state =~= once.keys_state);
    }

    /// A pressed key stays pressed until it is reported anew, and can be
    /// asked for by the character it typed.
    pub proof fn lemma_press_lasts(self, code: KeyCode, symbol: char)
        ensures
            self.with_key(code, Some(symbol), KeyboardKeyState::Pressed).settled().key_is(
                KeyboardKey::Code(code),
                KeyboardKeyState::Pressed,
            ),
            self.with_key(code, Some(symbol), KeyboardKeyState::Pressed).settled().key_is(
                KeyboardKey::Symbol(symbol),
                KeyboardKeyState::Pressed,
            ),
    {
    }
}

/// The state of the keyboard.
pub struct KeyboardInput {
    keys_state: KeyMap<KeyCode, KeyboardKeyState>,
    symbols_to_codes: KeyMap<char, KeyCode>,
}

impl View for KeyboardInput {
    type V = KeyboardInputView;

    closed spec fn view(&self) -> KeyboardInputView {
        KeyboardInputView { keys_state: self.keys_state@, symbols_to_codes: self.symbols_to_codes@ }
    }
}

impl KeyboardInput {
    /// The invariant of a keyboard state. `new` establishes it and every
    /// method keeps it.
    pub closed spec fn wf(&self) -> bool {
        self.keys_state.wf() && self.symbols_to_codes.wf()
    }

    /// A keyboard of which nothing is known.
    pub fn new() -> (keyboard: Self)
        ensures
            keyboard.wf(),
            keyboard@.keys_state == Map::<KeyCode, KeyboardKeyState>::empty(),
            keyboard@.symbols_to_codes == Map::<char, KeyCode>::empty(),
    {
        Self { keys_state: KeyMap::new(), symbols_to_codes: KeyMap::new() }
    }

    /// Records that the key `key_code` is in `state`, and that it types
    /// `key_symbol`, if it types anything.
    pub fn set_key_state(&mut self, key_code: KeyCode, key_symbol: Option<char>, state: KeyboardKeyState)
        requires
            old(self).wf(),
        ensures
            final(self).wf(),
            final(self)@ == old(self)@.with_key(key_code, key_symbol, state),
    {
        self.keys_state.insert(key_code, state);
        if let Some(sym) = key_symbol {
            self.symbols_to_codes.insert(sym, key_code);
        }
    }

    /// Lets one event pass: every released key becomes idle.
    pub fn set_released_keys_to_idle(&mut self)
        requires
            old(self).wf(),
        ensures
            final(self).wf(),
            final(self)@ == old(self)@.settled(),
    {
        let settle = |state: KeyboardKeyState| -> (settled: KeyboardKeyState)
            ensures
                settled == state.settled(),
            {
                match state {
                    KeyboardKeyState::Released => KeyboardKeyState::Idle,
                    other => other,
                }
            };
        self.keys_state.map_values(settle);
        assert(self@.keys_state =~= old(self)@.settled().keys_state);
    }

    /// Whether `key` is down.
    pub fn is_key_pressed(&self, key: KeyboardKey) -> (pressed: bool)
        requires
            self.wf(),
        ensures
            pressed == self@.key_is(key, KeyboardKeyState::Pressed),
    {
        self.check_key_state(key, KeyboardKeyState::Pressed)
    }

    /// Whether `key` went up with the last event.
    pub fn is_key_released(&self, key: KeyboardKey) -> (released: bool)
        requires
            self.wf(),
        ensures
            released == self@.key_is(key, KeyboardKeyState::Released),
    {
        self.check_key_state(key, KeyboardKeyState::Released)
    }

    fn check_key_state(&self, key: KeyboardKey, key_state: KeyboardKeyState) -> (matches: bool)
        requires
            self.wf(),
        ensures
            matches == self@.key_is(key, key_state),
    {
        let key_code = match key {
            KeyboardKey::Code(key_code) => Some(key_code),
            KeyboardKey::Symbol(symbole) => match self.symbols_to_codes.get(&symbole) {
                Some(key_code) => Some(*key_code),
                None => None,
            },
        };
        match key_code {
            Some(key_code) => match self.keys_state.get(&key_code) {
                Some(state) => *state == key_state,
                None => false,
            },
            None => false,
        }
    }
}

/// What the user does with the input devices.
pub struct Input {
    pub keyboard_input: KeyboardInput,
}

impl Input {
    /// Input of which nothing is known.
    pub fn new() -> (input: Self)
        ensures
            input.keyboard_input.wf(),
            input.keyboard_input@.keys_state == Map::<KeyCode, KeyboardKeyState>::empty(),
            input.keyboard_input@.symbols_to_codes == Map::<char, KeyCode>::empty(),
    {
        Self { keyboard_input: KeyboardInput::new() }
    }
}

} // verus!
