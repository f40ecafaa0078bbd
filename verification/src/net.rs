//! What two matches tell each other, and what a player tells the keeper of
//! the high scores. The engine neither sends nor receives: it gives these
//! values to whoever does.

use crate::tetris::board::Board;
use crate::tetris::field::empty_field;
use crate::tetris::game::{Event, Game, GameConfig, GameSettings};
use crate::tetris::rules::GameView;
use vstd::prelude::*;

verus! {

/// A message between a player and the server, or from one player to the
/// other by way of the server.
#[derive(Debug)]
pub enum Message {
    /// From the server: the match starts, with this configuration.
    Start(GameConfig),
    /// This many rows of garbage are sent to the opponent.
    LineSend(u8),
    /// The sender's field, for the opponent to look at.
    GameState(Box<Board>),
    /// The sender's match is over.
    Gameover,
    /// The sender has left.
    Disconnect,
}

impl Message {
    /// Whether the server hands a message of this kind, which it got from one
    /// player, on to the other. Only the server itself starts a match.
    pub fn is_relayed(&self) -> (relayed: bool)
        ensures
            relayed == !(self is Start),
    {
        match self {
            Message::Start(_) => false,
            _ => true,
        }
    }
}

/// The rows of garbage that a player sends to the opponent for clearing
/// `rows` rows at once: one for two rows, two for three, four for four, and
/// none otherwise.
pub open spec fn spec_lines_sent(rows: u8) -> u8 {
    if rows == 2 {
        1
    } else if rows == 3 {
        2
    } else if rows == 4 {
        4
    } else {
        0
    }
}

/// The rows of garbage that a player sends to the opponent for clearing
/// `rows` rows at once.
pub fn lines_sent(rows: u8) -> (lines: u8)
    ensures
        lines == spec_lines_sent(rows),
{
    match rows {
        2 => 1,
        3 => 2,
        4 => 4,
        _ => 0,
    }
}

/// A request to enter a score into the list of high scores.
#[derive(Debug)]
pub struct HighscoreReq {
    pub auth: String,
    pub name: String,
    pub settings: GameSettings,
    pub was_multiplayer: bool,
    pub score: u32,
}

/// What a player tells the opponent after a tick with the given events, in
/// their order: of rows cleared, the rows of garbage that they send; of the
/// end of the match, that it is over, and nothing after that.
pub open spec fn spec_reports(events: Seq<Event>) -> Seq<Message>
    decreases events.len(),
{
    if events.len() == 0 {
        Seq::empty()
    } else {
        match events[0] {
            Event::Gameover => seq![Message::Gameover],
            Event::Completion(rows) => seq![Message::LineSend(spec_lines_sent(rows))] + spec_reports(
                events.drop_first(),
            ),
        }
    }
}

/// What a player tells the opponent after a tick with the given events, and
/// whether the match goes on.
pub fn reports(events: &Vec<Event>) -> (r: (Vec<Message>, bool))
    ensures
        r.0@ == spec_reports(events@),
        r.1 == !events@.contains(Event::Gameover),
{
    let mut messages: Vec<Message> = Vec::new();
    let mut i: usize = 0;
    proof {
        assert(events@.skip(0) =~= events@);
    }
    while i < events.len()
        invariant
            i <= events@.len(),
            spec_reports(events@) == messages@ + spec_reports(events@.skip(i as int)),
            forall|k: int| 0 <= k < i ==> events@[k] != Event::Gameover,
        decreases events@.len() - i,
    {
        proof {
            assert(events@.skip(i as int).drop_first() =~= events@.skip(i + 1));
            assert(events@.skip(i as int)[0] == events@[i as int]);
        }
        match events[i] {
            Event::Gameover => {
                messages.push(Message::Gameover);
                proof {
                    assert(messages@ =~= spec_reports(events@));
                }
                return (messages, false);
            },
            Event::Completion(rows) => {
                let ghost sent = messages@;
                messages.push(Message::LineSend(lines_sent(rows)));
                proof {
                    assert(messages@ + spec_reports(events@.skip(i + 1)) =~= sent + spec_reports(
                        events@.skip(i as int),
                    ));
                }
            },
        }
        i += 1;
    }
    proof {
        assert(events@.skip(events@.len() as int) =~= Seq::empty());
        assert(messages@ =~= spec_reports(events@));
    }
    (messages, true)
}

/// The ticks after which a player shows the opponent the own field again.
pub const SHARE_COOLDOWN: u8 = 15;

/// Counts the ticks to the next time that a player shows the opponent the
/// own field.
#[derive(Debug)]
pub struct ShareClock {
    left: u8,
}

impl ShareClock {
    /// The ticks that are left, between 1 and [`SHARE_COOLDOWN`].
    pub closed spec fn left(&self) -> int {
        self.left as int
    }

    /// The invariant of the clock.
    pub closed spec fn wf(&self) -> bool {
        1 <= self.left <= SHARE_COOLDOWN
    }

    /// A clock with all its ticks left.
    pub fn new() -> (r: Self)
        ensures
            r.wf(),
            r.left() == SHARE_COOLDOWN,
    {
        Self { left: SHARE_COOLDOWN }
    }

    /// Counts a tick, and tells whether the field is to be shown in it: in
    /// every fifteenth tick.
    pub fn tick(&mut self) -> (share: bool)
        requires
            old(self).wf(),
        ensures
            final(self).wf(),
            share == (old(self).left() == 1),
            share ==> final(self).left() == SHARE_COOLDOWN,
            !share ==> final(self).left() == old(self).left() - 1,
    {
        self.left -= 1;
        if self.left == 0 {
            self.left = SHARE_COOLDOWN;
            true
        } else {
            false
        }
    }
}

/// What a message from the opponent does to a player's own match and to the
/// opponent's field as the player sees it: rows of garbage are owed to the
/// match, if one is played; a start makes a new match; a field is the
/// opponent's new field; and when the opponent's match is over or the
/// opponent has left, the opponent's field is empty.
pub fn receive(game: &mut Option<Game>, opponent: &mut Option<Board>, message: Message)
    requires
        message matches Message::LineSend(lines) ==> (*old(game) matches Some(played)
            ==> played@.garbage_acc + lines <= u8::MAX),
    ensures
        match message {
            Message::LineSend(lines) => {
                &&& *final(opponent) == *old(opponent)
                &&& match *old(game) {
                    Some(played) => *final(game) matches Some(owing) && owing@ == (GameView {
                        garbage_acc: played@.garbage_acc + lines,
                        ..played@
                    }),
                    None => *final(game) is None,
                }
            },
            Message::Start(config) => {
                &&& *final(opponent) == *old(opponent)
                &&& *final(game) matches Some(made) && made@.wf() && made@.opening(config.settings)
            },
            Message::Gameover | Message::Disconnect => {
                &&& *final(game) == *old(game)
                &&& *final(opponent) matches Some(board) && board@ == empty_field()
            },
            Message::GameState(board) => {
                &&& *final(game) == *old(game)
                &&& *final(opponent) == Some(*board)
            },
        },
{
    match message {
        Message::LineSend(lines) => {
            match game {
                Some(played) => {
                    played.accumulate_garbage(lines);
                },
                None => {},
            }
        },
        Message::Start(config) => {
            *game = Some(Game::new(config));
        },
        Message::Gameover | Message::Disconnect => {
            *opponent = Some(Board::default());
        },
        Message::GameState(board) => {
            *opponent = Some(*board);
        },
    }
}

} // verus!
