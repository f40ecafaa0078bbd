//! From the keys that a player holds to the actions of a tick.
//!
//! A key that moves or turns the piece acts in the first tick in which it is
//! held, and again in every tick once it has been held for longer than
//! [`DAS_DELAY`] ticks.

use crate::tetris::game::Action;
use vstd::prelude::*;

verus! {

/// The ticks for which a key is held before it repeats.
pub const DAS_DELAY: u8 = 15;

/// The keys that are held in one tick.
#[derive(Debug, Clone, Copy, PartialEq, Eq, Structural)]
pub struct FrameInputs {
    pub left: bool,
    pub right: bool,
    pub cw: bool,
    pub ccw: bool,
    pub hold: bool,
    pub hard_drop: bool,
    pub soft_drop: bool,
}

impl FrameInputs {
    pub fn new(
        left: bool,
        right: bool,
        cw: bool,
        ccw: bool,
        hold: bool,
        hard_drop: bool,
        soft_drop: bool,
    ) -> (r: Self)
        ensures
            r == (FrameInputs { left, right, cw, ccw, hold, hard_drop, soft_drop }),
    {
        Self { left, right, cw, ccw, hold, hard_drop, soft_drop }
    }
}

/// For how many ticks in a row each repeating key has been held, as a
/// mathematical value.
pub struct HeldView {
    pub left: u8,
    pub right: u8,
    pub cw: u8,
    pub ccw: u8,
}

/// The count of a key after a tick: one more if the key is held, starting
/// over after 255, and nothing if it is not.
pub open spec fn held_for(count: u8, pressed: bool) -> u8 {
    if !pressed {
        0
    } else if count == u8::MAX {
        0
    } else {
        (count + 1) as u8
    }
}

/// Whether a key acts in the tick after which its count is `count`.
pub open spec fn key_acts(count: u8, pressed: bool) -> bool {
    pressed && (count == 1 || count > DAS_DELAY)
}

/// The one action, or none.
pub open spec fn action_if(acts: bool, action: Action) -> Seq<Action> {
    if acts {
        seq![action]
    } else {
        Seq::empty()
    }
}

impl HeldView {
    /// The counts after a tick in which the keys `inputs` are held.
    pub open spec fn after(self, inputs: FrameInputs) -> HeldView {
        HeldView {
            left: held_for(self.left, inputs.left),
            right: held_for(self.right, inputs.right),
            cw: held_for(self.cw, inputs.cw),
            ccw: held_for(self.ccw, inputs.ccw),
        }
    }

    /// The actions of a tick in which the keys `inputs` are held, in the
    /// order in which the match is to apply them: the moves to the side, a
    /// counter-clockwise turn for as long as its key is held, the hold, a
    /// drop (the hard one if both are asked for), and the turns.
    pub open spec fn actions(self, inputs: FrameInputs) -> Seq<Action> {
        let after = self.after(inputs);
        action_if(key_acts(after.left, inputs.left), Action::Left) + action_if(
            key_acts(after.right, inputs.right),
            Action::Right,
        ) + action_if(inputs.ccw, Action::Ccw) + action_if(inputs.hold, Action::Hold) + action_if(
            inputs.hard_drop,
            Action::HardDrop,
        ) + action_if(!inputs.hard_drop && inputs.soft_drop, Action::SoftDrop) + action_if(
            key_acts(after.cw, inputs.cw),
            Action::Cw,
        ) + action_if(key_acts(after.ccw, inputs.ccw), Action::Ccw)
    }
}

/// Remembers for how long the repeating keys have been held.
#[derive(Debug)]
pub struct InputManager {
    left_frames: u8,
    right_frames: u8,
    cw: u8,
    ccw: u8,
}

impl View for InputManager {
    type V = HeldView;

    closed spec fn view(&self) -> HeldView {
        HeldView { left: self.left_frames, right: self.right_frames, cw: self.cw, ccw: self.ccw }
    }
}

/// Counts one more tick for a key and tells whether the key acts in it.
fn count_key(count: &mut u8, pressed: bool) -> (acts: bool)
    ensures
        *final(count) == held_for(*old(count), pressed),
        acts == key_acts(*final(count), pressed),
{
    if pressed {
        *count = count.wrapping_add(1);
        *count == 1 || *count > DAS_DELAY
    } else {
        *count = 0;
        false
    }
}

impl InputManager {
    pub fn new() -> (r: Self)
        ensures
            r@ == (HeldView { left: 0, right: 0, cw: 0, ccw: 0 }),
    {
        Self { left_frames: 0, right_frames: 0, cw: 0, ccw: 0 }
    }

    /// Takes the keys of one tick and gives the actions of that tick.
    pub fn update(&mut self, inputs: FrameInputs) -> (actions: Vec<Action>)
        ensures
            final(self)@ == old(self)@.after(inputs),
            actions@ == old(self)@.actions(inputs),
            actions@.len() <= 7,
    {
        let mut actions: Vec<Action> = Vec::new();
        let ghost after = self@.after(inputs);
        let ghost mut expected: Seq<Action> = Seq::empty();

        if count_key(&mut self.left_frames, inputs.left) {
            actions.push(Action::Left);
        }
        proof {
            expected = expected + action_if(key_acts(after.left, inputs.left), Action::Left);
            assert(actions@ =~= expected);
        }
        if count_key(&mut self.right_frames, inputs.right) {
            actions.push(Action::Right);
        }
        proof {
            expected = expected + action_if(key_acts(after.right, inputs.right), Action::Right);
            assert(actions@ =~= expected);
        }
        if inputs.ccw {
            actions.push(Action::Ccw);
        }
        proof {
            expected = expected + action_if(inputs.ccw, Action::Ccw);
            assert(actions@ =~= expected);
        }
        if inputs.hold {
            actions.push(Action::Hold);
        }
        proof {
            expected = expected + action_if(inputs.hold, Action::Hold);
            assert(actions@ =~= expected);
        }
        if inputs.hard_drop {
            actions.push(Action::HardDrop);
        } else if inputs.soft_drop {
            actions.push(Action::SoftDrop);
        }
        proof {
            expected = expected + action_if(inputs.hard_drop, Action::HardDrop) + action_if(
                !inputs.hard_drop && inputs.soft_drop,
                Action::SoftDrop,
            );
            assert(actions@ =~= expected);
        }
        if count_key(&mut self.cw, inputs.cw) {
            actions.push(Action::Cw);
        }
        proof {
            expected = expected + action_if(key_acts(after.cw, inputs.cw), Action::Cw);
            assert(actions@ =~= expected);
        }
        if count_key(&mut self.ccw, inputs.ccw) {
            actions.push(Action::Ccw);
        }
        proof {
            expected = expected + action_if(key_acts(after.ccw, inputs.ccw), Action::Ccw);
            assert(actions@ =~= expected);
            assert(expected =~= old(self)@.actions(inputs));
        }
        actions
    }
}

} // verus!
