//! What the library is told about the keyboard.
//!
//! Keys and modifiers are plain numbers: a key is named by the code the
//! windowing layer gives it, modifiers are a set of bits.

use vstd::prelude::*;

verus! {

/// The code of a key.
pub type KeyCode = u32;

/// The modifiers held down, one bit each.
pub type KeyMods = u8;

/// A key together with the modifiers it was pressed with.
pub type Input = (KeyCode, KeyMods);

/// The code of the `A` key.
pub const KEY_A: KeyCode = 10;

/// The code of the `D` key.
pub const KEY_D: KeyCode = 13;

/// The code of the escape key.
pub const KEY_ESCAPE: KeyCode = 36;

/// No modifier is held down.
pub const MODS_NONE: KeyMods = 0;

/// The state of the keyboard at one moment.
pub struct Keyboard {
    /// The keys that are held down, in the order they are to be looked at.
    pub pressed: Vec<KeyCode>,
    /// The modifiers that are held down.
    pub mods: KeyMods,
}

/// Anything that reacts to the keyboard.
pub trait HandleInput {
    /// Reacts to the keys that are held down and to the keys that were
    /// pressed since the last tick.
    fn handle_input(&mut self, keyboard: &Keyboard, fire_once_key_buffer: &Vec<Input>);
}

/// What the game does with a key that was pressed.
#[derive(Clone, Copy, Debug, PartialEq, Eq, Structural)]
pub enum KeyReaction {
    /// A key that repeats because it is held down: nothing happens.
    Ignored,
    /// The escape key: the game loop stops.
    Quit,
    /// Any other key: it waits in the buffer for the next tick.
    Buffered,
}

} // verus!
