//! The game as a whole: the screen that is shown and the keys that wait
//! for the next tick.

use vstd::prelude::*;
use crate::inputs::{HandleInput, Input, KeyCode, KeyMods, KeyReaction, Keyboard, KEY_ESCAPE};
use crate::screens::battle::arena::Arena;
use crate::screens::battle::BattleData;
use crate::screens::Screen;

verus! {

/// This is the global game state.
#[derive(Debug)]
pub struct Walpurgis {
    /// Screen specific state.
    pub screen: Screen,
    /// The keys pressed since the last tick.
    pub fire_once_key_buffer: Vec<Input>,
}

impl Walpurgis {
    /// Create a new game state: the first battle in `arena`, no key pressed.
    pub fn new(arena: Arena) -> (game: Walpurgis)
        requires
            forall|j: int|
                0 <= j < arena.platforms@.len() ==> (#[trigger] arena.platforms@[j]).body.in_world(),
        ensures
            game.screen.wf(),
            game.screen matches Screen::Battle(battle) && battle.arena == arena,
            game.fire_once_key_buffer@ == Seq::<Input>::empty(),
    {
        Walpurgis { screen: Screen::first_battle(arena), fire_once_key_buffer: Vec::new() }
    }

    /// One tick: the screen reacts to the keyboard, the keys that waited
    /// are forgotten, and the screen advances.
    pub fn update(&mut self, keyboard: &Keyboard)
        requires
            old(self).screen.wf(),
        ensures
            final(self).screen.wf(),
            final(self).fire_once_key_buffer@ == Seq::<Input>::empty(),
            match (old(self).screen, final(self).screen) {
                (Screen::Battle(before), Screen::Battle(after)) => exists|between: BattleData|
                    #[trigger] before.reacted(&between, keyboard) && between.ticked(&after),
                (Screen::MainMenu(before), Screen::MainMenu(after)) => before == after,
                _ => false,
            },
    {
        self.screen.handle_input(keyboard, &self.fire_once_key_buffer);
        self.fire_once_key_buffer.clear();
        self.screen.handle_update();
    }

    /// Decides what a pressed key does and, for a key that is not the
    /// escape key, appends it to the keys that wait for the next tick.
    pub fn key_down_event(&mut self, key: KeyCode, mods: KeyMods, repeat: bool) -> (reaction:
        KeyReaction)
        ensures
            reaction == if repeat {
                KeyReaction::Ignored
            } else if key == KEY_ESCAPE {
                KeyReaction::Quit
            } else {
                KeyReaction::Buffered
            },
            final(self).screen == old(self).screen,
            final(self).fire_once_key_buffer@ == if reaction == KeyReaction::Buffered {
                old(self).fire_once_key_buffer@.push((key, mods))
            } else {
                old(self).fire_once_key_buffer@
            },
    {
        if repeat {
            return KeyReaction::Ignored;
        }
        if key == KEY_ESCAPE {
            KeyReaction::Quit
        } else {
            self.fire_once_key_buffer.push((key, mods));
            KeyReaction::Buffered
        }
    }
}

} // verus!
