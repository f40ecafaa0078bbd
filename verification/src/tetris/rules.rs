//! The rules of a match, as mathematics: the state of a match as a value, and
//! what one tick makes of it.
//!
//! Everything here is specification. The executable match is held to these
//! rules by its contracts.

use super::field::{
    BOARD_HEIGHT, Field, cleared, dropped, empty_field, field_wf, fits, full_rows, garbage_row,
    kicked, placed, top_rows_empty,
};
use super::game::{Action, Event, GameSettings, Phase};
use super::piece::{Direction, Mino, PieceView, grid_is_square};
use vstd::prelude::*;

verus! {

/// The ticks for which a piece that has touched down may rest before it locks.
pub const LOCKDOWN_START: u8 = 30;

/// A soft drop takes one less than this off the fall timer.
pub const SOFT_FALL_MULT: u8 = 10;

/// The moves and rotations that renew the rest of a piece that has touched
/// down.
pub const LOCKDOWN_MOVES: u8 = 5;

/// The rows to clear for the next level.
pub const LEVEL_GOAL: i8 = 5;

/// The ticks between the locking of a piece and the coming of the next.
pub const GENERATION_DELAY: u8 = 12;

/// The pieces that wait in the queue.
pub const QUEUE_LEN: usize = 5;

/// The most actions that a tick applies. A tick of a phase that does not
/// apply the actions takes any number of them.
pub const MAX_ACTIONS: usize = 100;

/// The highest score from which a tick can be played: a tick adds less than
/// what is left between this and the largest score that can be held.
pub const MAX_SCORE: u32 = 4_000_000_000;

/// The most that one hard drop adds to the score: 2 for each row between the
/// highest row in which a piece can stand and the lowest.
pub const MAX_DROP_GAIN: u32 = 284;

/// The most that one tick adds to the score: more than the hard drops of
/// [`MAX_ACTIONS`] actions and the clearing of all rows at the highest level
/// add together.
pub const MAX_GAIN: u32 = 240_000;

/// The state of a match as a mathematical value.
pub struct GameView {
    pub board: Field,
    pub piece: PieceView,
    pub ghost_piece: PieceView,
    pub score: int,
    pub level: int,
    /// The pool of the seven kinds, in the order in which they are drawn.
    pub bag: Seq<Mino>,
    /// The cursor into the pool: the next kind to draw, or 7 when the pool is
    /// used up.
    pub bag_idx: int,
    pub queue: Seq<PieceView>,
    pub hold: Option<PieceView>,
    pub can_hold: bool,
    pub phase: Phase,
    pub lockdown_timer: int,
    pub lockdown_moves: int,
    /// The lowest row that the piece has reached.
    pub lockdown_y: int,
    pub level_goal: int,
    pub done: bool,
    pub garbage_slot: int,
    pub garbage_acc: int,
    pub events: Seq<Event>,
    pub settings: GameSettings,
}

/// What one draw from the randomizer gives: the kind drawn, and the pool and
/// its cursor after the draw.
pub struct Draw {
    pub kind: Mino,
    pub bag: Seq<Mino>,
    pub bag_idx: int,
}

/// Whether the pool holds each of the seven kinds of piece exactly once.
pub open spec fn is_full_bag(bag: Seq<Mino>) -> bool {
    &&& bag.len() == 7
    &&& forall|i: int| 0 <= i < 7 ==> (#[trigger] bag[i]).is_piece()
    &&& forall|i: int, j: int| 0 <= i < j < 7 ==> bag[i] != bag[j]
    &&& forall|kind: Mino| #[trigger] kind.is_piece() ==> bag.contains(kind)
}

/// The pool with which a match starts.
pub open spec fn first_bag() -> Seq<Mino> {
    seq![Mino::O, Mino::I, Mino::J, Mino::L, Mino::S, Mino::Z, Mino::T]
}

/// The pool with the kinds at the places `i` and `j` exchanged.
pub open spec fn swapped(bag: Seq<Mino>, i: int, j: int) -> Seq<Mino> {
    bag.update(i, bag[j]).update(j, bag[i])
}

/// The pool after the first `count` steps of a shuffle: in step `i` the kind
/// at the place `i` changes places with the kind at the place `draws[i]`.
pub open spec fn swap_chain(bag: Seq<Mino>, draws: Seq<int>, count: int) -> Seq<Mino>
    decreases count,
{
    if count <= 0 {
        bag
    } else {
        swapped(swap_chain(bag, draws, count - 1), count - 1, draws[count - 1])
    }
}

/// Whether `draws` can be the places drawn in a shuffle: seven of them, the
/// one of step `i` not before the place `i`.
pub open spec fn shuffle_draws(draws: Seq<int>) -> bool {
    &&& draws.len() == 7
    &&& forall|i: int| 0 <= i < 7 ==> i <= #[trigger] draws[i] < 7
}

/// Whether `shuffled` can be the pool `bag` after a shuffle: a chain of seven
/// exchanges, whatever places are drawn for them.
pub open spec fn is_shuffle(bag: Seq<Mino>, shuffled: Seq<Mino>) -> bool {
    exists|draws: Seq<int>| shuffle_draws(draws) && shuffled == #[trigger] swap_chain(bag, draws, 7)
}

/// Whether `draw` can come out of the randomizer when its pool is `bag` and
/// its cursor `bag_idx`.
///
/// With the setting `random`, any kind of the pool can be drawn, and the pool
/// stays as it is. Otherwise the kind under the cursor is drawn; when the pool
/// is used up it is first shuffled, by a chain of seven exchanges, and its
/// first kind drawn.
pub open spec fn draw_allowed(random: bool, bag: Seq<Mino>, bag_idx: int, draw: Draw) -> bool {
    if random {
        &&& draw.bag == bag
        &&& draw.bag_idx == bag_idx
        &&& bag.contains(draw.kind)
    } else if bag_idx < 7 {
        &&& draw.bag == bag
        &&& draw.bag_idx == bag_idx + 1
        &&& draw.kind == bag[bag_idx]
    } else {
        &&& is_shuffle(bag, draw.bag)
        &&& draw.bag_idx == 1
        &&& draw.kind == draw.bag[0]
    }
}

/// The column at which a piece of the given kind comes in.
pub open spec fn spawn_x(kind: Mino) -> int {
    match kind {
        Mino::Empty | Mino::Garbage => 0,
        Mino::O => 4,
        _ => 3,
    }
}

/// The row at which a piece of the given kind comes in.
pub open spec fn spawn_y(kind: Mino) -> int {
    match kind {
        Mino::Empty | Mino::Garbage => 0,
        Mino::I => 19,
        _ => 18,
    }
}

/// The ticks that a piece takes to fall by one row at the given level.
pub open spec fn gravity(level: int) -> int {
    if level == 1 {
        30
    } else if level == 2 {
        20
    } else if level == 3 {
        15
    } else if level == 4 {
        10
    } else if level == 5 {
        8
    } else if level == 6 {
        6
    } else if level == 7 {
        5
    } else if level == 8 {
        4
    } else if level == 9 {
        3
    } else if level == 10 {
        2
    } else {
        1
    }
}

/// The score for clearing `rows` rows at once, at level 1.
pub open spec fn line_score(rows: int) -> int {
    if rows == 1 {
        100
    } else if rows == 2 {
        300
    } else if rows == 3 {
        550
    } else if rows == 4 {
        800
    } else {
        0
    }
}

/// Whether the row is a row of garbage: one of its ten cells is empty, and
/// the nine others hold garbage.
pub open spec fn is_garbage_row(row: Seq<Mino>) -> bool {
    exists|slot: int| 0 <= slot < 10 && row == #[trigger] garbage_row(slot)
}

/// The field after `amount` rows of garbage have come in at the bottom: what
/// was on the field stands `amount` rows higher, and the row that is `i` rows
/// above the bottom is a garbage row with its gap in column `slots[i]`.
pub open spec fn with_garbage(field: Field, amount: int, slots: Seq<int>) -> Field {
    Seq::new(
        BOARD_HEIGHT as nat,
        |y: int|
            if y + amount < BOARD_HEIGHT {
                field[y + amount]
            } else {
                garbage_row(slots[BOARD_HEIGHT - 1 - y])
            },
    )
}

/// Whether `slots` can be the gaps of `amount` rows of garbage that come in
/// when the gap stands in column `slot`, and `last` the column in which the
/// gap stands afterwards. The first row has its gap where the gap stood;
/// after each row the gap may move to any column.
pub open spec fn garbage_allowed(slot: int, amount: int, slots: Seq<int>, last: int) -> bool {
    &&& slots.len() == if amount < BOARD_HEIGHT {
        amount
    } else {
        BOARD_HEIGHT as int
    }
    &&& forall|i: int| 0 <= i < slots.len() ==> 0 <= #[trigger] slots[i] < 10
    &&& amount > 0 ==> slots[0] == slot
    &&& amount == 0 ==> last == slot
    &&& 0 <= last < 10
}

impl GameView {
    /// Whether the piece is a piece of one of the seven kinds: a square grid
    /// with a cell in it.
    pub open spec fn piece_ok(piece: PieceView) -> bool {
        &&& piece.kind.is_piece()
        &&& grid_is_square(piece.grid)
        &&& piece.has_cell()
    }

    /// Whether the piece is one as it waits in the queue or in the hold.
    pub open spec fn waiting_ok(piece: PieceView) -> bool {
        &&& piece.kind.is_piece()
        &&& piece == PieceView::fresh(piece.kind, 0, 0)
    }

    /// The invariant of a match between two ticks.
    pub open spec fn wf(self) -> bool {
        &&& field_wf(self.board)
        &&& Self::piece_ok(self.piece)
        &&& self.queue.len() == QUEUE_LEN
        &&& forall|i: int| 0 <= i < self.queue.len() ==> Self::waiting_ok(#[trigger] self.queue[i])
        &&& self.hold matches Some(held) ==> Self::waiting_ok(held)
        &&& is_full_bag(self.bag)
        &&& 0 <= self.bag_idx <= 7
        &&& 1 <= self.level_goal <= LEVEL_GOAL
        &&& 0 <= self.garbage_slot < 10
        &&& !self.done && (self.phase is Falling || self.phase is Lock) ==> fits(
            self.board,
            self.piece,
        )
    }

    /// What holds of a match while the actions of a tick are applied, after
    /// at most `depth` of them. The piece may stand where it does not fit, one
    /// row higher for each hard drop that found it so; then it has just been
    /// locked and cannot go down.
    pub open spec fn in_play(self, depth: int) -> bool {
        &&& field_wf(self.board)
        &&& Self::piece_ok(self.piece)
        &&& -3 <= self.piece.x <= 9
        &&& -3 - depth <= self.piece.y <= 39
        &&& self.piece.y < 0 || self.piece.in_bounds()
        &&& fits(self.board, self.piece) || (self.phase is Completion && !fits(
            self.board,
            self.piece.shifted(0, 1),
        ))
        &&& self.queue.len() == QUEUE_LEN
        &&& forall|i: int| 0 <= i < self.queue.len() ==> Self::waiting_ok(#[trigger] self.queue[i])
        &&& self.hold matches Some(held) ==> Self::waiting_ok(held)
        &&& is_full_bag(self.bag)
        &&& 0 <= self.bag_idx <= 7
        &&& 1 <= self.level_goal <= LEVEL_GOAL
        &&& 0 <= self.garbage_slot < 10
    }

    /// Whether the match is as a match is made, with the given settings: an
    /// empty field, no score, level 1, nothing held, and the first piece
    /// come in already. Without the setting `random`, the first piece and the
    /// five of the queue are the first six kinds of the pool, in their order.
    pub open spec fn opening(self, settings: GameSettings) -> bool {
        &&& self.board == empty_field()
        &&& self.score == 0
        &&& self.level == 1
        &&& self.hold is None
        &&& self.can_hold
        &&& self.phase == (Phase::Generation { frames_left: 0 })
        &&& self.lockdown_timer == LOCKDOWN_START
        &&& self.lockdown_moves == LOCKDOWN_MOVES
        &&& self.level_goal == LEVEL_GOAL
        &&& !self.done
        &&& self.events == Seq::<Event>::empty()
        &&& self.garbage_acc == 0
        &&& 1 <= self.garbage_slot < 9
        &&& self.settings == settings
        &&& self.piece == PieceView::fresh(
            self.piece.kind,
            spawn_x(self.piece.kind),
            spawn_y(self.piece.kind),
        )
        &&& self.ghost_piece == dropped(self.board, self.piece)
        &&& self.lockdown_y == self.piece.y
        &&& if settings.random {
            &&& self.bag == first_bag()
            &&& self.bag_idx == 7
        } else {
            &&& self.bag_idx == 6
            &&& self.piece.kind == self.bag[0]
            &&& forall|i: int| 0 <= i < QUEUE_LEN ==> (#[trigger] self.queue[i]).kind == self.bag[i + 1]
        }
    }

    /// The draw that a match shows after a piece has joined its queue: the
    /// kind of that piece, and the pool and its cursor.
    pub open spec fn last_draw(self) -> Draw {
        Draw { kind: self.queue.last().kind, bag: self.bag, bag_idx: self.bag_idx }
    }

    /// The match once it is over: the Gameover event is added.
    pub open spec fn gameover(self) -> GameView {
        GameView { done: true, events: self.events.push(Event::Gameover), ..self }
    }

    /// The match after `piece` has come in. The piece is put at the place
    /// where its kind comes in, and stands there. If it does not fit there or
    /// one row further down, or cannot fall from the row further down, the
    /// match is over and the piece that was there stays.
    pub open spec fn spawn(self, piece: PieceView) -> GameView {
        let first = piece.at(spawn_x(piece.kind), spawn_y(piece.kind));
        let second = first.shifted(0, 1);
        if !fits(self.board, first) || !fits(self.board, second) {
            self.gameover()
        } else if dropped(self.board, second).y == second.y {
            self.gameover()
        } else {
            GameView {
                piece: first,
                ghost_piece: dropped(self.board, first),
                lockdown_y: first.y,
                ..self
            }
        }
    }

    /// The match after the first piece of the queue has left it and a piece
    /// of the kind drawn has joined it at the end.
    pub open spec fn refill(self, draw: Draw) -> GameView {
        GameView {
            queue: self.queue.drop_first().push(PieceView::fresh(draw.kind, 0, 0)),
            bag: draw.bag,
            bag_idx: draw.bag_idx,
            ..self
        }
    }

    /// The match after the first piece of the queue has come in.
    pub open spec fn spawn_next(self, draw: Draw) -> GameView {
        self.refill(draw).spawn(self.queue[0])
    }

    /// The match after an attempt to move or turn the piece. While the piece
    /// waits to be locked, each of the first five attempts that succeed
    /// renews its rest; once they are used up, the rest is over.
    pub open spec fn land(self, success: bool) -> GameView {
        let renewed = success && self.phase is Lock && self.lockdown_moves > 0;
        let moves = if renewed {
            self.lockdown_moves - 1
        } else {
            self.lockdown_moves
        };
        GameView {
            lockdown_moves: moves,
            lockdown_timer: if moves == 0 {
                0
            } else if renewed {
                LOCKDOWN_START as int
            } else {
                self.lockdown_timer
            },
            ..self
        }
    }

    /// The match with its piece replaced, and the ghost under the new piece.
    pub open spec fn with_piece(self, piece: PieceView) -> GameView {
        GameView { piece, ghost_piece: dropped(self.board, piece), ..self }
    }

    /// The match after the action `Left` (`dx` is -1) or `Right` (`dx` is 1).
    pub open spec fn shift(self, dx: int) -> GameView {
        let target = self.piece.shifted(dx, 0);
        if fits(self.board, target) {
            self.with_piece(target).land(true)
        } else {
            self.with_piece(self.piece).land(false)
        }
    }

    /// The match after the action `Cw` or `Ccw`.
    pub open spec fn turn(self, direction: Direction) -> GameView {
        let (success, piece) = kicked(self.board, self.piece, direction);
        self.with_piece(piece).land(success)
    }

    /// Whether the action `Hold` draws from the randomizer: it does when it
    /// is allowed and nothing is held yet.
    pub open spec fn hold_draws(self) -> bool {
        self.can_hold && self.hold is None
    }

    /// The match after the action `Hold`. It has an effect once for each
    /// piece that comes in: the piece goes into the hold, as it was made, and
    /// the piece that was held comes in; if none was, the next of the queue.
    pub open spec fn hold(self, draw: Draw) -> GameView {
        if !self.can_hold {
            self
        } else {
            let kept = GameView {
                can_hold: false,
                hold: Some(PieceView::fresh(self.piece.kind, 0, 0)),
                ..self
            };
            match self.hold {
                None => kept.spawn_next(draw),
                Some(held) => kept.spawn(held),
            }
        }
    }

    /// The match after the piece has been locked where a drop leaves it. A
    /// piece whose offset lies above the field leaves no cells on it.
    pub open spec fn locked(self) -> GameView {
        let piece = dropped(self.board, self.piece);
        GameView {
            piece,
            board: if piece.y < 0 {
                self.board
            } else {
                placed(self.board, piece)
            },
            phase: Phase::Completion,
            lockdown_timer: LOCKDOWN_START as int,
            ..self
        }
    }

    /// The match after the action `HardDrop`: the piece is locked where a
    /// drop leaves it, and each row that it fell scores 2.
    pub open spec fn hard_drop(self) -> GameView {
        let fall = dropped(self.board, self.piece).y - self.piece.y;
        GameView {
            score: self.score + 2 * if fall > 0 {
                fall
            } else {
                0
            },
            ..self.locked()
        }
    }

    /// The match after the action `SoftDrop`: the fall timer loses 9 ticks, or
    /// all that it has.
    pub open spec fn soft_drop(self) -> GameView {
        match self.phase {
            Phase::Falling { timer } => GameView {
                phase: Phase::Falling {
                    timer: if timer >= SOFT_FALL_MULT - 1 {
                        (timer - (SOFT_FALL_MULT - 1)) as u8
                    } else {
                        0
                    },
                },
                ..self
            },
            _ => self,
        }
    }

    /// Whether `after` can be the match after the one action `action`.
    pub open spec fn act(self, action: Action, after: GameView) -> bool {
        match action {
            Action::Left => after == self.shift(-1),
            Action::Right => after == self.shift(1),
            Action::Cw => after == self.turn(Direction::Cw),
            Action::Ccw => after == self.turn(Direction::Ccw),
            Action::HardDrop => after == self.hard_drop(),
            Action::SoftDrop => after == self.soft_drop(),
            Action::Hold => exists|draw: Draw|
                {
                    &&& self.hold_draws() ==> draw_allowed(
                        self.settings.random,
                        self.bag,
                        self.bag_idx,
                        draw,
                    )
                    &&& after == #[trigger] self.hold(draw)
                },
        }
    }

    /// Whether `after` can be the match after the actions have been applied
    /// one after the other, in their order.
    pub open spec fn acts(self, actions: Seq<Action>, after: GameView) -> bool
        decreases actions.len(),
    {
        if actions.len() == 0 {
            after == self
        } else {
            exists|before: GameView|
                {
                    &&& self.acts(actions.drop_last(), before)
                    &&& #[trigger] before.act(actions.last(), after)
                }
        }
    }

    /// The match after the soft drop that the setting `jupiter` forces in a
    /// tick in which the player asked for none.
    pub open spec fn forced_drop(self, actions: Seq<Action>) -> GameView {
        if self.settings.jupiter && !actions.contains(Action::SoftDrop) {
            self.soft_drop()
        } else {
            self
        }
    }

    /// Whether `after` can be the match after the actions of one tick.
    pub open spec fn input(self, actions: Seq<Action>, after: GameView) -> bool {
        exists|applied: GameView|
            {
                &&& #[trigger] self.acts(actions, applied)
                &&& after == applied.forced_drop(actions)
            }
    }

    /// The match with a new fall timer, for its level.
    pub open spec fn start_fall(self) -> GameView {
        GameView { phase: Phase::Falling { timer: gravity(self.level) as u8 }, ..self }
    }

    /// A tick of the phase `Generation` in which the next piece comes in.
    pub open spec fn generate(self, draw: Draw) -> GameView {
        GameView {
            can_hold: true,
            lockdown_moves: LOCKDOWN_MOVES as int,
            ..self.spawn_next(draw).start_fall()
        }
    }

    /// The rest of a tick of the phase `Falling`, after the actions. A hard
    /// drop has ended the tick. Otherwise, when the timer has run down, the
    /// piece falls by one row if it fits there, a soft drop of this tick
    /// scores the level, a piece that is lower than it ever was gets its five
    /// moves back, and the timer starts again; when it has not, it loses one
    /// tick. A piece that then cannot fall further waits to be locked.
    pub open spec fn fall(self, soft: bool) -> GameView {
        match self.phase {
            Phase::Falling { timer } => {
                let fallen = if timer == 0 {
                    let target = self.piece.shifted(0, 1);
                    let piece = if fits(self.board, target) {
                        target
                    } else {
                        self.piece
                    };
                    let deeper = piece.y > self.lockdown_y;
                    GameView {
                        score: self.score + if soft {
                            self.level
                        } else {
                            0
                        },
                        piece,
                        lockdown_y: if deeper {
                            piece.y
                        } else {
                            self.lockdown_y
                        },
                        lockdown_moves: if deeper {
                            LOCKDOWN_MOVES as int
                        } else {
                            self.lockdown_moves
                        },
                        ..self.start_fall()
                    }
                } else {
                    GameView { phase: Phase::Falling { timer: (timer - 1) as u8 }, ..self }
                };
                if fits(fallen.board, fallen.piece.shifted(0, 1)) {
                    fallen
                } else {
                    GameView { phase: Phase::Lock, ..fallen }
                }
            },
            _ => self,
        }
    }

    /// The rest of a tick of the phase `Lock`, after the actions: a piece
    /// that can fall again falls; one that cannot has one tick less to rest.
    pub open spec fn settle(self) -> GameView {
        if fits(self.board, self.piece.shifted(0, 1)) {
            self.start_fall()
        } else {
            GameView {
                lockdown_timer: if self.lockdown_timer > 0 {
                    self.lockdown_timer - 1
                } else {
                    0
                },
                ..self
            }
        }
    }

    /// The match after its full rows have been cleared and scored, at the
    /// level that it had. Unless the setting `easy` is on, the rows cleared
    /// count towards the next level; when the goal is met the level rises by
    /// one, up to 255, and the goal is set anew.
    pub open spec fn clear_rows(self) -> GameView {
        let rows = full_rows(self.board);
        let goal_met = !self.settings.easy && self.level_goal - rows <= 0;
        GameView {
            board: cleared(self.board),
            score: self.score + self.level * line_score(rows),
            level: if goal_met && self.level < 255 {
                self.level + 1
            } else {
                self.level
            },
            level_goal: if self.settings.easy {
                self.level_goal
            } else if goal_met {
                LEVEL_GOAL as int
            } else {
                self.level_goal - rows
            },
            events: self.events.push(Event::Completion(rows as u8)),
            ..self
        }
    }

    /// The match after the garbage that is owed has come in, with its gaps
    /// in the columns `slots`; nothing is owed any more. If the garbage pushes
    /// a cell that is not empty off the top of the field, the match is over.
    pub open spec fn receive_garbage(self, slots: Seq<int>, last_slot: int) -> GameView {
        let received = GameView {
            board: with_garbage(self.board, self.garbage_acc, slots),
            garbage_slot: last_slot,
            garbage_acc: 0,
            ..self
        };
        if top_rows_empty(self.board, self.garbage_acc) {
            received
        } else {
            received.gameover()
        }
    }

    /// A tick of the phase `Completion`: the full rows are cleared, the
    /// garbage comes in, and the next piece is 12 ticks away.
    pub open spec fn complete(self, slots: Seq<int>, last_slot: int) -> GameView {
        GameView {
            phase: Phase::Generation { frames_left: GENERATION_DELAY },
            ..self.clear_rows().receive_garbage(slots, last_slot)
        }
    }

    /// Whether a tick applies the actions of the player: it does while the
    /// piece falls, and while it waits to be locked and is not locked in this
    /// tick.
    pub open spec fn reads_actions(self) -> bool {
        &&& !self.done
        &&& self.phase is Falling || (self.phase is Lock && !self.settings.nes
            && self.lockdown_timer != 0)
    }

    /// Whether a tick with the given actions may draw from the generator for
    /// pieces: it may when it brings the next piece in, and when it applies a
    /// `Hold` while nothing is held and holding is allowed.
    pub open spec fn may_draw_piece(self, actions: Seq<Action>) -> bool {
        &&& !self.done
        &&& self.phase == (Phase::Generation { frames_left: 0 }) || (self.reads_actions()
            && actions.contains(Action::Hold) && self.hold_draws())
    }

    /// Whether a tick may draw from the generator for garbage: it may when it
    /// lets garbage in.
    pub open spec fn may_draw_gap(self) -> bool {
        &&& !self.done
        &&& self.phase is Completion
        &&& self.garbage_acc > 0
    }

    /// The match at the start of a tick: the events of the tick before are
    /// gone.
    pub open spec fn fresh_tick(self) -> GameView {
        GameView { events: Seq::empty(), ..self }
    }

    /// Whether `after` can be the match one tick after `self`, when the
    /// player's actions in that tick are `actions`.
    ///
    /// A match that is over stays as it is. Otherwise the tick is one of the
    /// phase that the match is in. What the tick draws from the randomizer is
    /// not fixed; everything else is.
    pub open spec fn tick(self, actions: Seq<Action>, after: GameView) -> bool {
        let start = self.fresh_tick();
        if self.done {
            after == start
        } else {
            match self.phase {
                Phase::Generation { frames_left } => if frames_left == 0 {
                    exists|draw: Draw|
                        {
                            &&& draw_allowed(self.settings.random, self.bag, self.bag_idx, draw)
                            &&& after == #[trigger] start.generate(draw)
                        }
                } else {
                    after == GameView {
                        phase: Phase::Generation { frames_left: (frames_left - 1) as u8 },
                        ..start
                    }
                },
                Phase::Falling { .. } => exists|moved: GameView|
                    {
                        &&& #[trigger] start.input(actions, moved)
                        &&& after == moved.fall(actions.contains(Action::SoftDrop))
                    },
                Phase::Lock => if self.settings.nes || self.lockdown_timer == 0 {
                    after == start.locked()
                } else {
                    exists|moved: GameView|
                        {
                            &&& #[trigger] start.input(actions, moved)
                            &&& after == moved.settle()
                        }
                },
                Phase::Completion => exists|slots: Seq<int>|
                    {
                        &&& garbage_allowed(
                            self.garbage_slot,
                            self.garbage_acc,
                            slots,
                            after.garbage_slot,
                        )
                        &&& after == #[trigger] start.complete(slots, after.garbage_slot)
                    },
            }
        }
    }

    /// Whether `after` can be the match after the wait for the next piece
    /// has been skipped: in the phase `Completion`, the tick of that phase is
    /// played and the next piece comes with the tick after it; in any other
    /// phase nothing happens.
    pub open spec fn skip(self, after: GameView) -> bool {
        if self.phase is Completion {
            exists|ticked: GameView|
                {
                    &&& #[trigger] self.tick(Seq::empty(), ticked)
                    &&& after == GameView { phase: Phase::Generation { frames_left: 0 }, ..ticked }
                }
        } else {
            after == self
        }
    }
}

} // verus!
