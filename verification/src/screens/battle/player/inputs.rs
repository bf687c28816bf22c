//! From keys to actions.
//!
//! Keys that are held down act in every tick; keys that fire once act in the
//! tick after they were pressed.

use vstd::prelude::*;
use crate::inputs::{Input, KeyCode, KeyMods, Keyboard, KEY_A, KEY_D, MODS_NONE};
use crate::screens::battle::player::action::Action;
use crate::screens::battle::player::stance::HorizontalStance;

verus! {

/// The keys of one player.
#[derive(Clone, Copy, Debug)]
pub struct InputScheme {
    pub continuous: ContinuousScheme,
    pub fire_once: FireOnceScheme,
}

/// The keys that act for as long as they are held down.
#[derive(Clone, Copy, Debug)]
pub struct ContinuousScheme {
    pub walk_left: (KeyCode, KeyMods),
    pub walk_right: (KeyCode, KeyMods),
}

/// The keys that act once when pressed. None are bound so far.
#[derive(Clone, Copy, Debug)]
pub struct FireOnceScheme;

/// The actions that one held key stands for: walking left if it is the key
/// for that, then walking right if it is the key for that.
pub open spec fn actions_of_key(scheme: ContinuousScheme, key: KeyCode, mods: KeyMods) -> Seq<
    Action,
> {
    let left = if (key, mods) == scheme.walk_left {
        seq![Action::Walk(HorizontalStance::Left)]
    } else {
        Seq::empty()
    };
    let right = if (key, mods) == scheme.walk_right {
        seq![Action::Walk(HorizontalStance::Right)]
    } else {
        Seq::empty()
    };
    left + right
}

/// The actions that the held keys stand for, key by key.
pub open spec fn actions_of_keys(
    scheme: ContinuousScheme,
    pressed: Seq<KeyCode>,
    mods: KeyMods,
) -> Seq<Action>
    decreases pressed.len(),
{
    if pressed.len() == 0 {
        Seq::empty()
    } else {
        actions_of_keys(scheme, pressed.drop_last(), mods) + actions_of_key(
            scheme,
            pressed.last(),
            mods,
        )
    }
}

impl ContinuousScheme {
    /// The actions that the keys held down ask for, in the order of the keys.
    pub fn get_possible_actions(&self, keyboard: &Keyboard) -> (actions: Vec<Action>)
        ensures
            actions@ == actions_of_keys(*self, keyboard.pressed@, keyboard.mods),
    {
        let mut actions: Vec<Action> = Vec::new();
        let mods = keyboard.mods;
        let mut i: usize = 0;
        while i < keyboard.pressed.len()
            invariant
                i <= keyboard.pressed@.len(),
                mods == keyboard.mods,
                actions@ == actions_of_keys(*self, keyboard.pressed@.take(i as int), mods),
            decreases keyboard.pressed@.len() - i,
        {
            let key = keyboard.pressed[i];
            let ghost before = actions@;
            if key == self.walk_left.0 && mods == self.walk_left.1 {
                actions.push(Action::Walk(HorizontalStance::Left));
            }
            if key == self.walk_right.0 && mods == self.walk_right.1 {
                actions.push(Action::Walk(HorizontalStance::Right));
            }
            proof {
                let next = keyboard.pressed@.take(i + 1);
                assert(next.drop_last() =~= keyboard.pressed@.take(i as int));
                assert(actions@ =~= before + actions_of_key(*self, key, mods));
            }
            i = i + 1;
        }
        assert(keyboard.pressed@.take(i as int) =~= keyboard.pressed@);
        actions
    }
}

impl FireOnceScheme {
    /// The actions that the keys pressed since the last tick ask for.
    pub fn get_possible_actions(
        &self,
        keyboard: &Keyboard,
        fire_once_key_buffer: &Vec<Input>,
    ) -> (actions: Vec<Action>)
        ensures
            actions@ == Seq::<Action>::empty(),
    {
        Vec::new()
    }
}

impl InputScheme {
    /// All actions that the keyboard asks for: those of the keys held down,
    /// then those of the keys that fire once.
    pub fn get_possible_actions(
        &self,
        keyboard: &Keyboard,
        fire_once_key_buffer: &Vec<Input>,
    ) -> (all_actions: Vec<Action>)
        ensures
            all_actions@ == actions_of_keys(self.continuous, keyboard.pressed@, keyboard.mods),
    {
        let mut all_actions = self.continuous.get_possible_actions(keyboard);
        let mut once = self.fire_once.get_possible_actions(keyboard, fire_once_key_buffer);
        all_actions.append(&mut once);
        all_actions
    }
}

impl Default for InputScheme {
    /// `A` walks left and `D` walks right.
    fn default() -> (scheme: Self)
        ensures
            scheme == (InputScheme {
                continuous: ContinuousScheme {
                    walk_left: (KEY_A, MODS_NONE),
                    walk_right: (KEY_D, MODS_NONE),
                },
                fire_once: FireOnceScheme,
            }),
    {
        InputScheme {
            continuous: ContinuousScheme {
                walk_left: (KEY_A, MODS_NONE),
                walk_right: (KEY_D, MODS_NONE),
            },
            fire_once: FireOnceScheme,
        }
    }
}

} // verus!
