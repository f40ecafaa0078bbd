//! How two players come to a match: one waits, a second joins, both connect,
//! and the match runs. The server holds one of these states for each match
//! and acts on what the players do; here is what it decides.
//!
//! The type `S` is whatever the server holds of a connection. Nothing here
//! looks into it.

use crate::tetris::game::{GameConfig, GameSettings};
use crate::tetris::rng::RandomSeed;
use vstd::prelude::*;
use vstd::string::StringExecFns;

verus! {

/// The time, in milliseconds, after which a player who has sent nothing is
/// given up.
pub const TIMEOUT: u64 = 15_000;

/// The time, in milliseconds, between two looks at whether a player is still
/// there.
pub const HB_INTERVAL: u64 = 5_000;

/// A player of a running match.
#[derive(Debug)]
pub struct Player<S> {
    pub session: S,
    pub id: String,
}

/// The state of a match on the server.
#[allow(inconsistent_fields)]
#[derive(Debug)]
pub enum Lobby<S> {
    /// One player waits for a second.
    Waiting { p1: S, id: String, settings: GameSettings },
    /// A second player has joined; the two have yet to connect under their
    /// names.
    Ready {
        p1: Option<S>,
        p1_id: String,
        p2: Option<S>,
        p2_id: String,
        id: String,
        settings: GameSettings,
    },
    /// Both players have connected, and the match has started.
    Running { p1: Player<S>, p2: Player<S>, id: String, config: GameConfig },
}

/// Whether a player who sent the last message at `last`, and nothing since,
/// is given up at `now`, both in milliseconds: when more than [`TIMEOUT`] has
/// gone by.
pub fn timed_out(last: u64, now: u64) -> (out: bool)
    ensures
        out == (now - last > TIMEOUT),
{
    now > last && now - last > TIMEOUT
}

/// The text that tells the waiting player that a second one has joined.
pub fn ready_text(id: &String, p1_id: &String) -> (text: String)
    ensures
        text@ == "ready "@ + id@ + "/"@ + p1_id@,
{
    let mut text = String::from_str("ready ");
    text.append(id.as_str());
    text.append("/");
    text.append(p1_id.as_str());
    text
}

/// The text that tells the player who joins under which name to connect.
pub fn join_text(id: &String, p2_id: &String) -> (text: String)
    ensures
        text@ == id@ + "/"@ + p2_id@,
{
    let mut text = String::from_str(id.as_str());
    text.append("/");
    text.append(p2_id.as_str());
    text
}

/// The text that tells a player in which match that player waits.
pub fn lobby_text(id: &String) -> (text: String)
    ensures
        text@ == "lobby "@ + id@,
{
    let mut text = String::from_str("lobby ");
    text.append(id.as_str());
    text
}

/// The text that tells a player that the match is called off, and why.
pub fn cancel_text(reason: &str) -> (text: String)
    ensures
        text@ == "cancel "@ + reason@,
{
    let mut text = String::from_str("cancel ");
    text.append(reason);
    text
}

impl<S> Lobby<S> {
    /// The name of the match.
    pub open spec fn spec_id(&self) -> String {
        match self {
            Lobby::Waiting { id, .. } => *id,
            Lobby::Ready { id, .. } => *id,
            Lobby::Running { id, .. } => *id,
        }
    }

    /// The settings of the match.
    pub open spec fn spec_settings(&self) -> GameSettings {
        match self {
            Lobby::Waiting { settings, .. } => *settings,
            Lobby::Ready { settings, .. } => *settings,
            Lobby::Running { config, .. } => config.settings,
        }
    }

    /// The name of the match.
    pub fn get_id(&self) -> (id: &String)
        ensures
            *id == self.spec_id(),
    {
        match self {
            Lobby::Waiting { id, .. } => id,
            Lobby::Ready { id, .. } => id,
            Lobby::Running { id, .. } => id,
        }
    }

    /// The settings of the match.
    pub fn get_settings(&self) -> (settings: &GameSettings)
        ensures
            *settings == self.spec_settings(),
    {
        match self {
            Lobby::Waiting { settings, .. } => settings,
            Lobby::Ready { settings, .. } => settings,
            Lobby::Running { config, .. } => &config.settings,
        }
    }

    /// Whether the match is shown to those who look for one to join: while
    /// its first player waits.
    pub fn is_listed(&self) -> (listed: bool)
        ensures
            listed == (self is Waiting),
    {
        matches!(self, Lobby::Waiting { .. })
    }

    /// A second player joins. From `Waiting` the match becomes `Ready`,
    /// with the two names under which the players are to connect and nobody
    /// connected yet; the connection of the player who waited is handed back,
    /// to be told of it. In any other state the match stays as it is.
    pub fn join(self, p1_id: String, p2_id: String) -> (r: Result<(Self, S), Self>)
        ensures
            match self {
                Lobby::Waiting { p1, id, settings } => r == Ok::<(Self, S), Self>(
                    (
                        Lobby::Ready { p1: None, p1_id, p2: None, p2_id, id, settings },
                        p1,
                    ),
                ),
                _ => r == Err::<(Self, S), Self>(self),
            },
    {
        match self {
            Lobby::Waiting { p1, id, settings } => Ok(
                (Lobby::Ready { p1: None, p1_id, p2: None, p2_id, id, settings }, p1),
            ),
            other => Err(other),
        }
    }

    /// The seat that is free for a player who connects under the name
    /// `player_id`: the first, if nobody has it and the name is that of the
    /// first player; else the second, on the like terms; else none. A match
    /// that is not `Ready` has no free seat.
    pub open spec fn spec_seat(&self, player_id: Seq<char>) -> Option<bool> {
        match self {
            Lobby::Ready { p1, p1_id, p2, p2_id, .. } => if p1 is None && p1_id@ == player_id {
                Some(true)
            } else if p2 is None && p2_id@ == player_id {
                Some(false)
            } else {
                None
            },
            _ => None,
        }
    }

    /// The seat that is free for a player who connects under the name
    /// `player_id`: `true` for the first, `false` for the second.
    pub fn seat(&self, player_id: &String) -> (seat: Option<bool>)
        ensures
            seat == self.spec_seat(player_id@),
    {
        match self {
            Lobby::Ready { p1, p1_id, p2, p2_id, .. } => {
                if p1.is_none() && *p1_id == *player_id {
                    Some(true)
                } else if p2.is_none() && *p2_id == *player_id {
                    Some(false)
                } else {
                    None
                }
            },
            _ => None,
        }
    }

    /// A player takes a seat with a connection. If the other seat is taken
    /// the match runs, with `seed` for its seed; if not, it stays `Ready`
    /// with this seat taken.
    pub fn connect(self, is_p1: bool, session: S, seed: RandomSeed) -> (r: Self)
        requires
            self is Ready,
        ensures
            match self {
                Lobby::Ready { p1, p1_id, p2, p2_id, id, settings } => if is_p1 {
                    match p2 {
                        Some(existing) => r == (Lobby::Running {
                            p1: Player { session, id: p1_id },
                            p2: Player { session: existing, id: p2_id },
                            id,
                            config: GameConfig { settings, seed: Some(seed) },
                        }),
                        None => r == (Lobby::Ready {
                            p1: Some(session),
                            p1_id,
                            p2,
                            p2_id,
                            id,
                            settings,
                        }),
                    }
                } else {
                    match p1 {
                        Some(existing) => r == (Lobby::Running {
                            p1: Player { session: existing, id: p1_id },
                            p2: Player { session, id: p2_id },
                            id,
                            config: GameConfig { settings, seed: Some(seed) },
                        }),
                        None => r == (Lobby::Ready {
                            p1,
                            p1_id,
                            p2: Some(session),
                            p2_id,
                            id,
                            settings,
                        }),
                    }
                },
                _ => true,
            },
    {
        match self {
            Lobby::Ready { p1, p1_id, p2, p2_id, id, settings } => {
                if is_p1 {
                    match p2 {
                        Some(existing) => Lobby::Running {
                            p1: Player { session, id: p1_id },
                            p2: Player { session: existing, id: p2_id },
                            id,
                            config: GameConfig::with_seed(settings, seed),
                        },
                        None => Lobby::Ready { p1: Some(session), p1_id, p2, p2_id, id, settings },
                    }
                } else {
                    match p1 {
                        Some(existing) => Lobby::Running {
                            p1: Player { session: existing, id: p1_id },
                            p2: Player { session, id: p2_id },
                            id,
                            config: GameConfig::with_seed(settings, seed),
                        },
                        None => Lobby::Ready { p1, p1_id, p2: Some(session), p2_id, id, settings },
                    }
                }
            },
            other => other,
        }
    }

    /// Whether, in a running match, the player with the name `id` is the
    /// first: a message of that player goes to the second, and a message of
    /// anybody else to the first.
    pub fn is_first(&self, id: &String) -> (first: bool)
        requires
            self is Running,
        ensures
            self matches Lobby::Running { p1, .. } && first == (p1.id@ == id@),
    {
        match self {
            Lobby::Running { p1, .. } => p1.id == *id,
            _ => false,
        }
    }
}

} // verus!
