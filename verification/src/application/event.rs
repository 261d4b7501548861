//! Events handed to an application and the signals it answers with.

use crate::keyed::Key;
use vstd::prelude::*;
use winit::keyboard::KeyCode;

verus! {

/// A key of a key event: its place on the keyboard and the character it
/// types, if it types one.
#[derive(Debug)]
pub struct KeyInfo {
    pub physical_key_code: KeyCode,
    pub symbol: Option<char>,
}

impl KeyInfo {
    /// The key at `physical_key_code` that types `symbol`.
    pub fn new(physical_key_code: KeyCode, symbol: Option<char>) -> (key_info: Self)
        ensures
            key_info.physical_key_code == physical_key_code,
            key_info.symbol == symbol,
    {
        Self { physical_key_code, symbol }
    }

    /// Whether this is the key at `key_code`.
    pub fn is_key_code(&self, key_code: KeyCode) -> (same: bool)
        ensures
            same == (self.physical_key_code == key_code),
    {
        self.physical_key_code.same(&key_code)
    }

    /// Whether this key types `sym`.
    pub fn is_char(&self, sym: char) -> (same: bool)
        ensures
            same == (self.symbol == Some(sym)),
    {
        match self.symbol {
            Some(symbol) => symbol == sym,
            None => false,
        }
    }
}

/// An event of the window, as the application sees it.
#[derive(Debug)]
pub enum ApplicationEvent {
    /// The drawable area of the window changed to `width` by `height`.
    Resized { width: u32, height: u32 },
    /// A key went down, or is held down long enough to repeat.
    KeyPressed { key_info: KeyInfo, repeat: bool },
    /// A key went up.
    KeyReleased(KeyInfo),
}

/// What an application asks of the loop after each callback.
pub enum ApplicationSignal {
    Exit,
    Continue,
}

} // verus!
