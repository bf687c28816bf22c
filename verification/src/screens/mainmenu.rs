//! The main menu. It shows nothing and reacts to nothing so far.

use vstd::prelude::*;
use crate::inputs::{HandleInput, Input, Keyboard};

verus! {

/// The state of the main menu.
#[derive(Clone, Copy, Debug, PartialEq, Eq, Structural)]
pub struct MainMenuData {

}

impl MainMenuData {
    /// One tick of the main menu: nothing changes.
    pub fn handle_update(&mut self)
        ensures
            *final(self) == *old(self),
    {
    }
}

impl HandleInput for MainMenuData {
    /// The main menu ignores the keyboard.
    fn handle_input(&mut self, keyboard: &Keyboard, fire_once_key_buffer: &Vec<Input>)
        ensures
            *final(self) == *old(self),
    {
    }
}

} // verus!
