//! The screens of the game and what each of them does in one tick.

pub mod battle;
pub mod mainmenu;

use vstd::prelude::*;
use crate::inputs::{HandleInput, Input, Keyboard};
use crate::physics::vector::Vec2;
use crate::screens::battle::arena::Arena;
use crate::screens::battle::BattleData;
use crate::screens::mainmenu::MainMenuData;

verus! {

/// The state of the screen that is shown.
#[derive(Debug)]
pub enum Screen {
    /// The state for the core gameplay screen/loop.
    Battle(BattleData),
    /// Main menu for game.
    MainMenu(MainMenuData),
}

impl Screen {
    /// A battle is ready for its next tick; other screens always are.
    pub open spec fn wf(&self) -> bool {
        match self {
            Screen::Battle(data) => data.wf(),
            Screen::MainMenu(_) => true,
        }
    }

    /// One tick of whatever screen is shown.
    pub fn handle_update(&mut self)
        requires
            old(self).wf(),
        ensures
            final(self).wf(),
            match (*old(self), *final(self)) {
                (Screen::Battle(before), Screen::Battle(after)) => before.ticked(&after),
                (Screen::MainMenu(before), Screen::MainMenu(after)) => before == after,
                _ => false,
            },
    {
        match self {
            Screen::Battle(data) => data.handle_update(),
            Screen::MainMenu(data) => data.handle_update(),
        }
    }

    /// The screen of the first battle, fought in `arena`.
    pub fn first_battle(arena: Arena) -> (screen: Screen)
        requires
            forall|j: int|
                0 <= j < arena.platforms@.len() ==> (#[trigger] arena.platforms@[j]).body.in_world(),
        ensures
            screen.wf(),
            screen matches Screen::Battle(battle) && battle.arena == arena && battle.gravity == (
            Vec2 { x: 0, y: 10_000 }) && battle.players@.len() == 1,
    {
        Screen::Battle(BattleData::load_first_arena_and_test_player(arena))
    }
}

impl HandleInput for Screen {
    /// Hands the keyboard to whatever screen is shown.
    fn handle_input(&mut self, keyboard: &Keyboard, fire_once_key_buffer: &Vec<Input>)
        ensures
            old(self).wf() ==> final(self).wf(),
            match (*old(self), *final(self)) {
                (Screen::Battle(before), Screen::Battle(after)) => before.reacted(
                    &after,
                    keyboard,
                ),
                (Screen::MainMenu(before), Screen::MainMenu(after)) => before == after,
                _ => false,
            },
    {
        match self {
            Screen::Battle(data) => data.handle_input(keyboard, fire_once_key_buffer),
            Screen::MainMenu(data) => data.handle_input(keyboard, fire_once_key_buffer),
        }
    }
}

} // verus!
