//! Key and modifier definitions for the keystroke injector.

use vstd::prelude::*;

verus! {

/// Keyboard modifiers.
#[derive(Debug, Clone, Copy, PartialEq, Eq, Structural)]
pub enum Modifier {
    Ctrl,
}

impl Modifier {
    /// The ydotool key name of this modifier.
    pub open spec fn spec_ydotool(self) -> Seq<char> {
        match self {
            Modifier::Ctrl => "LEFTCTRL"@,
        }
    }

    /// The ydotool key name for this modifier.
    pub fn to_ydotool(self) -> (r: &'static str)
        ensures
            r@ == self.spec_ydotool(),
    {
        match self {
            Modifier::Ctrl => "LEFTCTRL",
        }
    }
}

/// Special keys the voice commands press.
#[derive(Debug, Clone, Copy, PartialEq, Eq, Structural)]
pub enum Key {
    A,
    C,
    V,
    X,
    Enter,
}

impl Key {
    /// The ydotool key name of this key.
    pub open spec fn spec_ydotool(self) -> Seq<char> {
        match self {
            Key::A => "A"@,
            Key::C => "C"@,
            Key::V => "V"@,
            Key::X => "X"@,
            Key::Enter => "ENTER"@,
        }
    }

    /// The ydotool key name.
    pub fn to_ydotool(self) -> (r: &'static str)
        ensures
            r@ == self.spec_ydotool(),
    {
        match self {
            Key::A => "A",
            Key::C => "C",
            Key::V => "V",
            Key::X => "X",
            Key::Enter => "ENTER",
        }
    }
}

} // verus!
