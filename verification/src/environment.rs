//! A match as an agent meets it: a state to look at and a step to take.

use crate::agent::{Action, RewardTerms, reward_terms, state_codes, step_inner, stepped, to_state};
use crate::tetris::game::{Game, GameConfig, GameSettings};
use crate::tetris::rules::{MAX_GAIN, MAX_SCORE};
use vstd::prelude::*;

verus! {

/// What an agent gets back for a step.
#[derive(Debug)]
pub struct Snapshot {
    /// The match as the agent sees it after the step.
    pub state: Vec<u8>,
    /// The counts by which the step is judged; none once the match is over.
    pub reward: Option<RewardTerms>,
    /// Whether the match is over.
    pub done: bool,
}

/// A match for an agent to play.
#[derive(Debug)]
pub struct Environment {
    pub game: Game,
}

impl Environment {
    /// An environment with a new match, with the default settings and
    /// without a seed.
    pub fn new() -> (r: Self)
        ensures
            r.game@.wf(),
            r.game@.opening(
                GameSettings { jupiter: false, easy: false, nes: false, random: false },
            ),
    {
        Self { game: Game::new(GameConfig::default()) }
    }

    /// Starts over with a new match.
    pub fn reset(&mut self)
        ensures
            final(self).game@.wf(),
            final(self).game@.opening(
                GameSettings { jupiter: false, easy: false, nes: false, random: false },
            ),
    {
        self.game = Game::new(GameConfig::default());
    }

    /// The match as an agent sees it.
    pub fn state(&self) -> (state: Vec<u8>)
        requires
            self.game@.wf(),
        ensures
            state@ == state_codes(self.game@),
    {
        to_state(&self.game)
    }

    /// Takes a step in the match and tells what came of it.
    pub fn step(&mut self, action: &Action) -> (snapshot: Snapshot)
        requires
            old(self).game@.wf(),
            old(self).game@.score <= MAX_SCORE - MAX_GAIN,
        ensures
            final(self).game@.wf(),
            stepped(old(self).game@, action.actions(), final(self).game@),
            final(self).game@.score <= old(self).game@.score + 2 * MAX_GAIN,
            snapshot.state@ == state_codes(final(self).game@),
            snapshot.done == final(self).game@.done,
            snapshot.done ==> snapshot.reward is None,
            !snapshot.done ==> snapshot.reward is Some && snapshot.reward->0@ == reward_terms(
                final(self).game@,
                *action,
                old(self).game@.piece.x,
                old(self).game@.piece.rotation,
            ),
    {
        let (reward, done) = step_inner(&mut self.game, action);
        Snapshot { state: to_state(&self.game), reward, done }
    }
}

} // verus!
