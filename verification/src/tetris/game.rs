//! A match: one board, the piece that falls on it, the pieces that wait, and
//! the state machine that a caller advances tick by tick.

use rand::rngs::SmallRng;
use std::collections::VecDeque;
use super::board::Board;
use super::field::{
    BOARD_HEIGHT, empty_field, fits, free_fall, garbage_row, kicked, kind_kicks,
    lemma_dropped_from_above, lemma_fits_on_empty_field, lemma_fits_range, lemma_free_fall,
    lemma_kept_rows_len, lemma_kicked, lifted,
};
use super::invariants::{
    lemma_complete_wf, lemma_fall_wf, lemma_first_bag, lemma_generate_wf, lemma_hold_in_play,
    lemma_locked_in_play, lemma_locked_wf, lemma_settle_wf, lemma_shift_in_play,
    lemma_soft_drop_in_play, lemma_swap_chain_prefix, lemma_swap_full_bag, lemma_turn_in_play,
    lemma_wf_in_play,
};
use super::piece::{
    Direction, Mino, PieceView, Tetrimino, lemma_fresh_has_cell, lemma_has_cell_anywhere,
};
use super::rng::{RandomSeed, getrandom, random_index, random_ratio, random_u8, seeded};
use super::rules::{
    Draw, GENERATION_DELAY, GameView, LEVEL_GOAL, LOCKDOWN_MOVES, LOCKDOWN_START, MAX_ACTIONS,
    MAX_DROP_GAIN, MAX_GAIN, MAX_SCORE, QUEUE_LEN, SOFT_FALL_MULT, draw_allowed, first_bag,
    garbage_allowed, is_full_bag, shuffle_draws, spawn_x, spawn_y, swap_chain, swapped,
    with_garbage,
};
use vstd::prelude::*;

verus! {

/// The four switches of a match.
#[derive(Debug, Clone, Copy, PartialEq, Eq, Structural)]
pub struct GameSettings {
    /// The piece falls fast all the time, as if the player held the soft drop.
    pub jupiter: bool,
    /// The level never rises.
    pub easy: bool,
    /// A piece that touches down locks at once, without a grace period.
    pub nes: bool,
    /// Each piece is drawn uniformly, with replacement, and not from a bag.
    pub random: bool,
}

impl GameSettings {
    pub fn new(jupiter: bool, easy: bool, nes: bool, random: bool) -> (r: Self)
        ensures
            r == (GameSettings { jupiter, easy, nes, random }),
    {
        Self { jupiter, easy, nes, random }
    }
}

impl Default for GameSettings {
    fn default() -> (r: Self)
        ensures
            r == (GameSettings { jupiter: false, easy: false, nes: false, random: false }),
    {
        Self { jupiter: false, easy: false, nes: false, random: false }
    }
}

/// What a match is made from: its settings, and a seed where the match is to
/// be replayable.
#[derive(Debug, Clone, Copy, PartialEq, Eq)]
pub struct GameConfig {
    pub settings: GameSettings,
    pub seed: Option<RandomSeed>,
}

impl GameConfig {
    /// A configuration without a seed: the match draws from the operating
    /// system's randomness.
    pub fn default_seed(settings: GameSettings) -> (r: Self)
        ensures
            r.settings == settings,
            r.seed is None,
    {
        Self { settings, seed: None }
    }

    /// A configuration with a seed: two matches made from it see the same
    /// pieces.
    pub fn with_seed(settings: GameSettings, seed: RandomSeed) -> (r: Self)
        ensures
            r.settings == settings,
            r.seed == Some(seed),
    {
        Self { settings, seed: Some(seed) }
    }
}

impl Default for GameConfig {
    fn default() -> (r: Self)
        ensures
            r.settings == (GameSettings { jupiter: false, easy: false, nes: false, random: false }),
            r.seed is None,
    {
        Self { settings: GameSettings::default(), seed: None }
    }
}

/// What happened in a tick.
#[derive(Debug, Clone, Copy, PartialEq, Eq, Structural)]
pub enum Event {
    /// A piece was locked and this many rows were cleared.
    Completion(u8),
    /// The match is over.
    Gameover,
}

/// What a player asks for.
#[derive(Debug, Clone, Copy, PartialEq, Eq, Structural)]
pub enum Action {
    Left,
    Right,
    Cw,
    Ccw,
    Hold,
    HardDrop,
    SoftDrop,
}

/// The phase of a piece's life that a match is in.
#[derive(Debug, Clone, Copy, PartialEq, Eq, Structural)]
pub enum Phase {
    /// The next piece comes after this many more ticks.
    Generation { frames_left: u8 },
    /// The piece falls by one row when the timer has run down.
    Falling { timer: u8 },
    /// The piece has touched down and waits to be locked.
    Lock,
    /// The piece is locked; full rows are about to be cleared.
    Completion,
}

/// A match.
#[derive(Debug)]
pub struct Game {
    pub board: Board,
    /// The piece that falls.
    pub piece: Tetrimino,
    /// The falling piece where a drop would leave it.
    pub ghost_piece: Tetrimino,
    pub score: u32,
    pub level: u8,
    bag: [Mino; 7],
    bag_idx: usize,
    pub next_queue: VecDeque<Tetrimino>,
    pub hold: Option<Tetrimino>,
    can_hold: bool,
    pub phase: Phase,
    lockdown_timer: u8,
    lockdown_moves: u8,
    lockdown_y: i8,
    level_goal: i8,
    piece_rng: SmallRng,
    garbage_rng: SmallRng,
    /// Whether the match is over.
    pub done: bool,
    /// The column of the gap in the next row of garbage.
    pub garbage_slot: u8,
    /// The rows of garbage that are owed to this match.
    pub garbage_acc: u8,
    /// What happened in the last tick.
    pub events: Vec<Event>,
    pub settings: GameSettings,
}

impl View for Game {
    type V = GameView;

    closed spec fn view(&self) -> GameView {
        GameView {
            board: self.board@,
            piece: self.piece@,
            ghost_piece: self.ghost_piece@,
            score: self.score as int,
            level: self.level as int,
            bag: self.bag@,
            bag_idx: self.bag_idx as int,
            queue: Seq::new(self.next_queue@.len(), |i: int| self.next_queue@[i]@),
            hold: match self.hold {
                Some(held) => Some(held@),
                None => None,
            },
            can_hold: self.can_hold,
            phase: self.phase,
            lockdown_timer: self.lockdown_timer as int,
            lockdown_moves: self.lockdown_moves as int,
            lockdown_y: self.lockdown_y as int,
            level_goal: self.level_goal as int,
            done: self.done,
            garbage_slot: self.garbage_slot as int,
            garbage_acc: self.garbage_acc as int,
            events: self.events@,
            settings: self.settings,
        }
    }
}

impl Game {
    /// The generator from which the match draws its pieces.
    pub closed spec fn piece_generator(&self) -> SmallRng {
        self.piece_rng
    }

    /// The generator from which the match draws the gaps of its garbage.
    pub closed spec fn garbage_generator(&self) -> SmallRng {
        self.garbage_rng
    }

    /// Makes a match: an empty field, the queue filled, and the first piece
    /// come in. With a seed in `config` the pieces and the garbage are those of
    /// every match made from that seed; without one they are drawn from the
    /// operating system's randomness.
    pub fn new(config: GameConfig) -> (game: Self)
        ensures
            game@.wf(),
            game@.opening(config.settings),
            config.seed matches Some(seed) ==> game.garbage_generator() == seeded(seed@),
    {
        let mut new = Self {
            board: Board::default(),
            piece: Tetrimino::new(Mino::I, 0, 0),
            ghost_piece: Tetrimino::new(Mino::I, 0, 0),
            score: 0,
            bag: [Mino::O, Mino::I, Mino::J, Mino::L, Mino::S, Mino::Z, Mino::T],
            next_queue: VecDeque::with_capacity(5),
            bag_idx: 7,
            hold: None,
            can_hold: true,
            level: 1,
            phase: Phase::Generation { frames_left: 0 },
            lockdown_timer: LOCKDOWN_START,
            lockdown_moves: LOCKDOWN_MOVES,
            lockdown_y: 0,
            level_goal: LEVEL_GOAL,
            piece_rng: getrandom(config.seed),
            garbage_rng: getrandom(config.seed),
            done: false,
            events: Vec::new(),
            garbage_slot: 0,
            garbage_acc: 0,
            settings: config.settings,
        };
        let mut rng = getrandom(config.seed);
        new.garbage_slot = random_u8(&mut rng, 1, 9);
        let ghost made = new@;
        proof {
            assert(new@.bag =~= first_bag());
            lemma_first_bag();
            assert(new@.queue =~= Seq::empty());
        }
        let mut i: usize = 0;
        while i < 5
            invariant
                i <= 5,
                new@ == (GameView {
                    queue: new@.queue,
                    bag: new@.bag,
                    bag_idx: new@.bag_idx,
                    ..made
                }),
                made.settings == config.settings,
                made.board == empty_field(),
                config.seed matches Some(seed) ==> new.garbage_rng == seeded(seed@),
                is_full_bag(new@.bag),
                new@.queue.len() == i,
                new.next_queue@.len() == i,
                forall|k: int| 0 <= k < i ==> GameView::waiting_ok(#[trigger] new@.queue[k]),
                if config.settings.random {
                    new@.bag == first_bag() && new@.bag_idx == 7
                } else {
                    &&& new@.bag_idx == if i == 0 {
                        7
                    } else {
                        i as int
                    }
                    &&& forall|k: int| 0 <= k < i ==> (#[trigger] new@.queue[k]).kind == new@.bag[k]
                },
            decreases 5 - i,
        {
            let ghost before = new@;
            let next_kind = new.next_kind();
            proof {
                assert forall|k: int| 0 <= k < i implies (#[trigger] new.next_queue@[k])@
                    == before.queue[k] by {
                    assert(new@.queue[k] == new.next_queue@[k]@);
                }
            }
            new.next_queue.push_back(Tetrimino::new(next_kind, 0, 0));
            proof {
                assert(new@.queue =~= before.queue.push(PieceView::fresh(next_kind, 0, 0)));
            }
            i += 1;
        }
        let ghost queued = new@;
        let piece = new.get_next_piece();
        let ghost filled = new@;
        proof {
            let kind = piece@.kind;
            assert(GameView::waiting_ok(queued.queue[0]));
            lemma_fresh_has_cell(kind, 0, 0);
            let first = piece@.at(spawn_x(kind), spawn_y(kind));
            let second = first.shifted(0, 1);
            let third = second.shifted(0, 1);
            lemma_fits_on_empty_field(first);
            lemma_fits_on_empty_field(second);
            lemma_fits_on_empty_field(third);
            lemma_has_cell_anywhere(piece@, first);
            lemma_has_cell_anywhere(piece@, second);
            lemma_has_cell_anywhere(piece@, third);
            lemma_free_fall(empty_field(), third);
            assert(free_fall(empty_field(), second) >= 2);
            assert forall|k: int| 0 <= k < QUEUE_LEN implies (#[trigger] filled.queue[k]).kind == (
            if k < 4 {
                queued.queue[k + 1].kind
            } else {
                filled.last_draw().kind
            }) by {}
        }
        new.next_piece(piece);
        new
    }

    /// The field of the match.
    pub fn board(&self) -> (board: &Board)
        ensures
            board@ == self@.board,
    {
        &self.board
    }

    /// The piece that falls.
    pub fn piece(&self) -> (piece: &Tetrimino)
        ensures
            piece@ == self@.piece,
    {
        &self.piece
    }

    /// The falling piece where a drop would leave it.
    pub fn ghost_piece(&self) -> (piece: &Tetrimino)
        ensures
            piece@ == self@.ghost_piece,
    {
        &self.ghost_piece
    }

    /// The kind of the piece that is held, if one is.
    pub fn hold_kind(&self) -> (kind: Option<Mino>)
        ensures
            kind == match self@.hold {
                Some(held) => Some(held.kind),
                None => None,
            },
    {
        match &self.hold {
            Some(held) => Some(held.kind),
            None => None,
        }
    }

    /// The kinds of the pieces that wait, the next one first.
    pub fn queue_kinds(&self) -> (kinds: Vec<Mino>)
        ensures
            kinds@.len() == self@.queue.len(),
            forall|i: int| 0 <= i < kinds@.len() ==> #[trigger] kinds@[i] == self@.queue[i].kind,
    {
        let mut kinds: Vec<Mino> = Vec::new();
        let mut i: usize = 0;
        while i < self.next_queue.len()
            invariant
                i <= self.next_queue@.len(),
                kinds@.len() == i,
                forall|k: int| 0 <= k < i ==> #[trigger] kinds@[k] == self.next_queue@[k].kind,
            decreases self.next_queue@.len() - i,
        {
            kinds.push(self.next_queue[i].kind);
            i += 1;
        }
        kinds
    }

    /// The score.
    pub fn score(&self) -> (score: u32)
        ensures
            score == self@.score,
    {
        self.score
    }

    /// The level.
    pub fn level(&self) -> (level: u8)
        ensures
            level == self@.level,
    {
        self.level
    }

    /// Whether the match is over.
    pub fn is_done(&self) -> (done: bool)
        ensures
            done == self@.done,
    {
        self.done
    }

    /// The phase that the match is in.
    pub fn phase(&self) -> (phase: Phase)
        ensures
            phase == self@.phase,
    {
        self.phase
    }

    /// What happened in the last tick.
    pub fn events(&self) -> (events: &Vec<Event>)
        ensures
            events@ == self@.events,
    {
        &self.events
    }

    /// The rows of garbage that are owed to this match.
    pub fn garbage_owed(&self) -> (rows: u8)
        ensures
            rows == self@.garbage_acc,
    {
        self.garbage_acc
    }

    fn gameover(&mut self)
        ensures
            final(self)@ == old(self)@.gameover(),
            final(self).piece_rng == old(self).piece_rng,
            final(self).garbage_rng == old(self).garbage_rng,
    {
        self.done = true;
        self.events.push(Event::Gameover);
    }

    fn place_next_piece(tetrimino: &mut Tetrimino)
        ensures
            final(tetrimino)@ == old(tetrimino)@.at(
                spawn_x(old(tetrimino).kind),
                spawn_y(old(tetrimino).kind),
            ),
    {
        let (x, y): (i8, i8) = match tetrimino.kind {
            Mino::Empty | Mino::Garbage => (0, 0),
            Mino::O => (4, 18),
            Mino::I => (3, 19),
            Mino::L | Mino::J | Mino::S | Mino::Z | Mino::T => (3, 18),
        };
        tetrimino.offset_x = x;
        tetrimino.offset_y = y;
    }

    fn next_piece(&mut self, piece: Tetrimino)
        requires
            piece.wf(),
            piece@.has_cell(),
        ensures
            final(self)@ == old(self)@.spawn(piece@),
            final(self).piece_rng == old(self).piece_rng,
            final(self).garbage_rng == old(self).garbage_rng,
    {
        let ghost given = piece@;
        let mut piece = piece;
        Self::place_next_piece(&mut piece);
        if !self.board.can_place(&piece) {
            self.gameover();
            return ;
        }
        let can_fall = self.board.can_move_down(&mut piece);
        if !can_fall {
            self.gameover();
            return ;
        }
        let mut ghost_piece = piece.clone();
        proof {
            lemma_has_cell_anywhere(given, ghost_piece@);
            lemma_dropped_from_above(self@.board, piece@);
        }
        self.board.drop(&mut ghost_piece);
        // no drop below the next row: the piece would lock above the visible field
        if ghost_piece.offset_x == piece.offset_x && ghost_piece.offset_y == piece.offset_y + 1 {
            self.gameover();
            return ;
        }
        self.ghost_piece = ghost_piece;
        self.lockdown_y = piece.offset_y;
        self.piece = piece;
    }

    fn start_fall(&mut self)
        ensures
            final(self)@ == old(self)@.start_fall(),
            final(self).piece_rng == old(self).piece_rng,
            final(self).garbage_rng == old(self).garbage_rng,
    {
        self.phase = Phase::Falling {
            timer: match self.level {
                1 => 30,
                2 => 20,
                3 => 15,
                4 => 10,
                5 => 8,
                6 => 6,
                7 => 5,
                8 => 4,
                9 => 3,
                10 => 2,
                _ => 1,
            },
        }
    }

    fn movement(&mut self, move_success: bool)
        ensures
            final(self)@ == old(self)@.land(move_success),
            final(self).piece_rng == old(self).piece_rng,
            final(self).garbage_rng == old(self).garbage_rng,
    {
        if move_success && self.phase == Phase::Lock && self.lockdown_moves > 0 {
            self.lockdown_timer = LOCKDOWN_START;
            self.lockdown_moves -= 1;
        }
        if self.lockdown_moves == 0 {
            self.lockdown_timer = 0;
        }
    }

    fn update_ghost(&mut self)
        requires
            old(self).piece.wf(),
            old(self)@.piece.has_cell(),
            old(self)@.piece.y > i8::MIN,
        ensures
            final(self)@ == old(self)@.with_piece(old(self)@.piece),
            final(self).piece_rng == old(self).piece_rng,
            final(self).garbage_rng == old(self).garbage_rng,
    {
        let mut clone = self.piece.clone();
        self.board.drop(&mut clone);
        self.ghost_piece = clone;
    }

    fn move_x(&mut self, offset: i8) -> (success: bool)
        requires
            old(self).piece.wf(),
            old(self)@.piece.has_cell(),
            old(self)@.piece.y > i8::MIN,
            i8::MIN <= old(self)@.piece.x + offset <= i8::MAX,
        ensures
            success == fits(old(self)@.board, old(self)@.piece.shifted(offset as int, 0)),
            final(self)@ == old(self)@.with_piece(
                if success {
                    old(self)@.piece.shifted(offset as int, 0)
                } else {
                    old(self)@.piece
                },
            ),
            final(self).piece_rng == old(self).piece_rng,
            final(self).garbage_rng == old(self).garbage_rng,
    {
        let success = self.board.move_x(&mut self.piece, offset);
        proof {
            lemma_has_cell_anywhere(old(self)@.piece, self@.piece);
        }
        self.update_ghost();
        success
    }

    fn rotate(&mut self, direction: Direction) -> (success: bool)
        requires
            old(self).piece.wf(),
            old(self)@.piece.has_cell(),
            i8::MIN + 2 <= old(self)@.piece.x <= i8::MAX - 2,
            i8::MIN + 3 <= old(self)@.piece.y <= i8::MAX - 2,
        ensures
            (success, final(self)@.piece) == kicked(
                old(self)@.board,
                old(self)@.piece,
                direction,
            ),
            final(self)@ == old(self)@.with_piece(final(self)@.piece),
            final(self).piece_rng == old(self).piece_rng,
            final(self).garbage_rng == old(self).garbage_rng,
    {
        let success = self.board.rotate(&mut self.piece, direction);
        proof {
            lemma_kicked(old(self)@.board, old(self)@.piece, direction);
            if success && kind_kicks(old(self)@.piece.kind) {
                lemma_fits_range(self@.board, self@.piece);
            }
        }
        self.update_ghost();
        success
    }

    fn next_kind(&mut self) -> (kind: Mino)
        requires
            is_full_bag(old(self)@.bag),
            0 <= old(self)@.bag_idx <= 7,
        ensures
            draw_allowed(
                old(self)@.settings.random,
                old(self)@.bag,
                old(self)@.bag_idx,
                Draw { kind, bag: final(self)@.bag, bag_idx: final(self)@.bag_idx },
            ),
            final(self)@ == (GameView {
                bag: final(self)@.bag,
                bag_idx: final(self)@.bag_idx,
                ..old(self)@
            }),
            is_full_bag(final(self)@.bag),
            0 <= final(self)@.bag_idx <= 7,
            kind.is_piece(),
            final(self).garbage_rng == old(self).garbage_rng,
    {
        if self.settings.random {
            let at = random_index(&mut self.piece_rng, 0, 7);
            return pick_kind(&self.bag, at);
        }
        if self.bag_idx < 7 {
            let next = self.bag[self.bag_idx];
            self.bag_idx += 1;
            return next;
        }
        let ghost mut draws: Seq<int> = Seq::empty();
        let mut i: usize = 0;
        while i < 7
            invariant
                i <= 7,
                is_full_bag(self@.bag),
                self@ == (GameView { bag: self@.bag, ..old(self)@ }),
                draws.len() == i,
                forall|k: int| 0 <= k < i ==> k <= #[trigger] draws[k] < 7,
                self@.bag == swap_chain(old(self)@.bag, draws, i as int),
                self.garbage_rng == old(self).garbage_rng,
            decreases 7 - i,
        {
            let swap = random_index(&mut self.piece_rng, i, 7);
            proof {
                lemma_swap_full_bag(self@.bag, i as int, swap as int);
                lemma_swap_chain_prefix(old(self)@.bag, draws, draws.push(swap as int), i as int);
                draws = draws.push(swap as int);
            }
            swap_kinds(&mut self.bag, i, swap);
            i += 1;
        }
        proof {
            assert(shuffle_draws(draws));
            assert(self@.bag == swap_chain(old(self)@.bag, draws, 7));
        }
        self.bag_idx = 1;
        self.bag[0]
    }

    fn get_next_piece(&mut self) -> (piece: Tetrimino)
        requires
            old(self)@.queue.len() == QUEUE_LEN,
            forall|i: int|
                0 <= i < old(self)@.queue.len() ==> GameView::waiting_ok(
                    #[trigger] old(self)@.queue[i],
                ),
            is_full_bag(old(self)@.bag),
            0 <= old(self)@.bag_idx <= 7,
        ensures
            piece@ == old(self)@.queue[0],
            draw_allowed(
                old(self)@.settings.random,
                old(self)@.bag,
                old(self)@.bag_idx,
                final(self)@.last_draw(),
            ),
            final(self)@ == old(self)@.refill(final(self)@.last_draw()),
            final(self)@.queue.len() == QUEUE_LEN,
            forall|i: int|
                0 <= i < final(self)@.queue.len() ==> GameView::waiting_ok(
                    #[trigger] final(self)@.queue[i],
                ),
            is_full_bag(final(self)@.bag),
            0 <= final(self)@.bag_idx <= 7,
            final(self).garbage_rng == old(self).garbage_rng,
    {
        let piece = match self.next_queue.pop_front() {
            Some(piece) => piece,
            None => vstd::pervasive::unreached(),
        };
        proof {
            assert(piece@ == old(self)@.queue[0]);
            assert(self@.queue =~= old(self)@.queue.drop_first());
        }
        let kind = self.next_kind();
        let ghost rest = self.next_queue@;
        proof {
            assert forall|i: int| 0 <= i < rest.len() implies (#[trigger] rest[i])@ == old(
                self,
            )@.queue[i + 1] by {
                assert(self@.queue[i] == rest[i]@);
            }
        }
        self.next_queue.push_back(Tetrimino::new(kind, 0, 0));
        proof {
            assert(self@.queue =~= old(self)@.queue.drop_first().push(
                PieceView::fresh(kind, 0, 0),
            ));
        }
        piece
    }

    /// Locks the piece where a drop leaves it.
    fn lock_down(&mut self, Ghost(depth): Ghost<int>)
        requires
            old(self)@.in_play(depth),
            0 <= depth <= MAX_ACTIONS,
        ensures
            final(self)@ == old(self)@.locked(),
            final(self).piece_rng == old(self).piece_rng,
            final(self).garbage_rng == old(self).garbage_rng,
    {
        proof {
            lemma_locked_in_play(self@, depth);
        }
        self.board.drop(&mut self.piece);
        self.board.place(&self.piece);
        self.phase = Phase::Completion;
        self.lockdown_timer = LOCKDOWN_START;
    }

    fn hard_drop(&mut self, Ghost(depth): Ghost<int>)
        requires
            old(self)@.in_play(depth),
            0 <= depth <= MAX_ACTIONS,
            old(self)@.score + MAX_DROP_GAIN <= u32::MAX,
        ensures
            final(self)@ == old(self)@.hard_drop(),
            final(self)@.score <= old(self)@.score + MAX_DROP_GAIN,
            final(self).piece_rng == old(self).piece_rng,
            final(self).garbage_rng == old(self).garbage_rng,
    {
        proof {
            lemma_locked_in_play(self@, depth);
        }
        let before = self.piece.offset_y;
        self.lock_down(Ghost(depth));
        let fall = self.piece.offset_y as i16 - before as i16;
        if fall > 0 {
            self.score += 2 * (fall as u32);
        }
    }

    fn soft_drop(&mut self)
        ensures
            final(self)@ == old(self)@.soft_drop(),
            final(self).piece_rng == old(self).piece_rng,
            final(self).garbage_rng == old(self).garbage_rng,
    {
        if let Phase::Falling { timer } = self.phase {
            let new = timer.saturating_sub(SOFT_FALL_MULT - 1);
            self.phase = Phase::Falling { timer: new };
        }
    }

    /// Exchanges the piece with the held one, if that is still allowed for
    /// this piece.
    fn hold_piece(&mut self, Ghost(depth): Ghost<int>)
        requires
            old(self)@.in_play(depth),
            0 <= depth <= MAX_ACTIONS,
        ensures
            old(self)@.hold_draws() ==> draw_allowed(
                old(self)@.settings.random,
                old(self)@.bag,
                old(self)@.bag_idx,
                final(self)@.last_draw(),
            ),
            final(self)@ == old(self)@.hold(final(self)@.last_draw()),
            final(self).garbage_rng == old(self).garbage_rng,
            !old(self)@.hold_draws() ==> final(self).piece_rng == old(self).piece_rng,
    {
        if !self.can_hold {
            return ;
        }
        self.can_hold = false;
        let kept = Tetrimino::new(self.piece.kind, 0, 0);
        match self.hold.take() {
            None => {
                self.hold = Some(kept);
                let ghost stored = self@;
                let piece = self.get_next_piece();
                let ghost filled = self@;
                proof {
                    lemma_fresh_has_cell(piece@.kind, 0, 0);
                    assert(GameView::waiting_ok(stored.queue[0]));
                }
                self.next_piece(piece);
                proof {
                    let draw = filled.last_draw();
                    assert(self@.queue == filled.queue);
                    assert(self@.last_draw() == draw);
                }
            },
            Some(held) => {
                self.hold = Some(kept);
                proof {
                    lemma_fresh_has_cell(held@.kind, 0, 0);
                }
                self.next_piece(held);
            },
        }
    }

    /// Applies one action of the player.
    fn apply_action(&mut self, action: Action, Ghost(depth): Ghost<int>)
        requires
            old(self)@.in_play(depth),
            0 <= depth < MAX_ACTIONS,
            old(self)@.score + MAX_DROP_GAIN <= u32::MAX,
        ensures
            old(self)@.act(action, final(self)@),
            final(self)@.in_play(depth + 1),
            final(self)@.score <= old(self)@.score + MAX_DROP_GAIN,
            final(self)@.phase is Completion || (final(self)@.phase is Falling && old(
                self,
            )@.phase is Falling) || final(self)@.phase == old(self)@.phase,
            final(self).garbage_rng == old(self).garbage_rng,
            !(action == Action::Hold && old(self)@.hold_draws())
                ==> final(self).piece_rng == old(self).piece_rng,
            !old(self)@.hold_draws() ==> !final(self)@.hold_draws(),
            action != Action::Hold ==> final(self)@.hold_draws() == old(self)@.hold_draws(),
    {
        let ghost prev = self@;
        match action {
            Action::Left => {
                let move_success = self.move_x(-1);
                self.movement(move_success);
                proof {
                    lemma_shift_in_play(prev, -1, depth);
                    assert(self@ == prev.shift(-1));
                }
            },
            Action::Right => {
                let move_success = self.move_x(1);
                self.movement(move_success);
                proof {
                    lemma_shift_in_play(prev, 1, depth);
                    assert(self@ == prev.shift(1));
                }
            },
            Action::Cw => {
                let move_success = self.rotate(Direction::Cw);
                self.movement(move_success);
                proof {
                    lemma_turn_in_play(prev, Direction::Cw, depth);
                    assert(self@ == prev.turn(Direction::Cw));
                }
            },
            Action::Ccw => {
                let move_success = self.rotate(Direction::Ccw);
                self.movement(move_success);
                proof {
                    lemma_turn_in_play(prev, Direction::Ccw, depth);
                    assert(self@ == prev.turn(Direction::Ccw));
                }
            },
            Action::Hold => {
                self.hold_piece(Ghost(depth));
                proof {
                    let draw = self@.last_draw();
                    lemma_hold_in_play(prev, draw, depth);
                    assert(self@ == prev.hold(draw));
                }
            },
            Action::HardDrop => {
                self.hard_drop(Ghost(depth));
                proof {
                    lemma_locked_in_play(prev, depth);
                }
            },
            Action::SoftDrop => {
                self.soft_drop();
                proof {
                    lemma_soft_drop_in_play(prev, depth);
                }
            },
        }
    }

    /// Applies the actions of one tick, in their order, and then the soft
    /// drop that the setting `jupiter` forces.
    fn process_input(&mut self, actions: &Vec<Action>)
        requires
            old(self)@.in_play(0),
            fits(old(self)@.board, old(self)@.piece),
            actions@.len() <= MAX_ACTIONS,
            old(self)@.score <= MAX_SCORE,
        ensures
            old(self)@.input(actions@, final(self)@),
            final(self)@.in_play(actions@.len() as int),
            final(self)@.score <= old(self)@.score + MAX_DROP_GAIN * actions@.len(),
            final(self)@.phase is Completion || (final(self)@.phase is Falling && old(
                self,
            )@.phase is Falling) || final(self)@.phase == old(self)@.phase,
            final(self).garbage_rng == old(self).garbage_rng,
            !(actions@.contains(Action::Hold) && old(self)@.hold_draws())
                ==> final(self).piece_rng == old(self).piece_rng,
    {
        let mut i: usize = 0;
        proof {
            assert(actions@.take(0) =~= Seq::empty());
        }
        while i < actions.len()
            invariant
                i <= actions@.len() <= MAX_ACTIONS,
                old(self)@.score <= MAX_SCORE,
                old(self)@.acts(actions@.take(i as int), self@),
                self@.in_play(i as int),
                self@.score <= old(self)@.score + MAX_DROP_GAIN * i,
                self@.phase is Completion || (self@.phase is Falling && old(self)@.phase is Falling)
                    || self@.phase == old(self)@.phase,
                self.garbage_rng == old(self).garbage_rng,
                !old(self)@.hold_draws() ==> !self@.hold_draws() && self.piece_rng == old(
                    self,
                ).piece_rng,
                (forall|k: int| 0 <= k < i ==> actions@[k] != Action::Hold) ==> self@.hold_draws()
                    == old(self)@.hold_draws() && self.piece_rng == old(self).piece_rng,
            decreases actions@.len() - i,
        {
            let ghost prev = self@;
            let action = actions[i];
            self.apply_action(action, Ghost(i as int));
            proof {
                assert(actions@.take(i + 1).drop_last() =~= actions@.take(i as int));
                assert(actions@.take(i + 1).last() == action);
                assert(prev.act(actions@.take(i + 1).last(), self@));
            }
            i += 1;
        }
        proof {
            assert(actions@.take(actions@.len() as int) =~= actions@);
        }
        let ghost applied = self@;
        if self.settings.jupiter && !has_soft_drop(actions) {
            self.soft_drop();
            proof {
                lemma_soft_drop_in_play(applied, actions@.len() as int);
            }
        }
        proof {
            assert(self@ == applied.forced_drop(actions@));
        }
    }

    /// Lets the garbage that is owed come in at the bottom of the field. The
    /// gap of each row stands where the gap of the row before it stood, or,
    /// with a chance of 3 in 10, in a column drawn anew. Returns the columns of
    /// the gaps, from the bottom row up.
    fn add_garbage(&mut self) -> (slots: Ghost<Seq<int>>)
        requires
            0 <= old(self)@.garbage_slot < 10,
        ensures
            garbage_allowed(
                old(self)@.garbage_slot,
                old(self)@.garbage_acc,
                slots@,
                final(self)@.garbage_slot,
            ),
            final(self)@ == old(self)@.receive_garbage(slots@, final(self)@.garbage_slot),
            final(self).piece_rng == old(self).piece_rng,
            old(self)@.garbage_acc == 0 ==> final(self).garbage_rng == old(self).garbage_rng,
    {
        let overflow = self.board.push_up(self.garbage_acc);
        let amount: u8 = if self.garbage_acc < 40 {
            self.garbage_acc
        } else {
            40
        };
        let ghost lifted_field = self@.board;
        let ghost mut slots: Seq<int> = Seq::empty();
        let mut i: u8 = 0;
        while i < amount
            invariant
                i <= amount <= 40,
                amount == if old(self)@.garbage_acc < 40 {
                    old(self)@.garbage_acc
                } else {
                    40
                },
                lifted_field == lifted(old(self)@.board, old(self)@.garbage_acc),
                slots.len() == i,
                forall|k: int| 0 <= k < i ==> 0 <= #[trigger] slots[k] < 10,
                i > 0 ==> slots[0] == old(self)@.garbage_slot,
                i == 0 ==> self@.garbage_slot == old(self)@.garbage_slot,
                0 <= self@.garbage_slot < 10,
                self@.board.len() == BOARD_HEIGHT,
                forall|y: int|
                    0 <= y < BOARD_HEIGHT - i ==> #[trigger] self@.board[y] == lifted_field[y],
                forall|y: int|
                    BOARD_HEIGHT - i <= y < BOARD_HEIGHT ==> #[trigger] self@.board[y]
                        == garbage_row(slots[BOARD_HEIGHT - 1 - y]),
                self@ == (GameView {
                    board: self@.board,
                    garbage_slot: self@.garbage_slot,
                    ..old(self)@
                }),
                self.piece_rng == old(self).piece_rng,
                i == 0 ==> self.garbage_rng == old(self).garbage_rng,
            decreases amount - i,
        {
            let layer = 40 - i - 1;
            self.board.add_garbage(layer, self.garbage_slot);
            proof {
                slots = slots.push(self.garbage_slot as int);
            }
            if random_ratio(&mut self.garbage_rng, 3, 10) {
                self.garbage_slot = random_u8(&mut self.garbage_rng, 0, 10);
            }
            i += 1;
        }
        self.garbage_acc = 0;
        proof {
            let field = old(self)@.board;
            let owed = old(self)@.garbage_acc;
            assert forall|y: int| 0 <= y < BOARD_HEIGHT implies #[trigger] self@.board[y]
                == with_garbage(field, owed, slots)[y] by {
                if y + owed < BOARD_HEIGHT {
                    assert(self@.board[y] == lifted_field[y]);
                }
            }
            assert(self@.board =~= with_garbage(field, owed, slots));
        }
        if overflow {
            self.gameover();
        }
        Ghost(slots)
    }

    /// A tick of the phase `Generation`.
    fn generation_tick(&mut self, frames_left: u8)
        requires
            old(self)@.wf(),
            old(self)@.phase == (Phase::Generation { frames_left }),
        ensures
            final(self)@.wf(),
            frames_left == 0 ==> draw_allowed(
                old(self)@.settings.random,
                old(self)@.bag,
                old(self)@.bag_idx,
                final(self)@.last_draw(),
            ) && final(self)@ == old(self)@.generate(final(self)@.last_draw()),
            frames_left != 0 ==> final(self)@ == (GameView {
                phase: Phase::Generation { frames_left: (frames_left - 1) as u8 },
                ..old(self)@
            }),
            final(self)@.score == old(self)@.score,
            final(self).garbage_rng == old(self).garbage_rng,
            frames_left != 0 ==> final(self).piece_rng == old(self).piece_rng,
    {
        if frames_left == 0 {
            let ghost start = self@;
            let piece = self.get_next_piece();
            let ghost draw = self@.last_draw();
            proof {
                lemma_fresh_has_cell(piece@.kind, 0, 0);
                assert(GameView::waiting_ok(start.queue[0]));
                lemma_generate_wf(start, draw);
            }
            self.next_piece(piece);
            self.start_fall();
            self.can_hold = true;
            self.lockdown_moves = LOCKDOWN_MOVES;
            proof {
                assert(self@.last_draw() == draw);
                assert(self@ == start.generate(draw));
            }
        } else {
            self.phase = Phase::Generation { frames_left: frames_left - 1 };
        }
    }

    /// The rest of a tick of the phase `Falling`, after the actions: the
    /// piece falls by one row when the timer has run down, and waits to be
    /// locked when it cannot fall further. After a hard drop nothing is left
    /// to do.
    fn fall(&mut self, soft: bool, Ghost(depth): Ghost<int>)
        requires
            old(self)@.in_play(depth),
            old(self)@.phase is Completion || fits(old(self)@.board, old(self)@.piece),
            old(self)@.score + u8::MAX <= u32::MAX,
        ensures
            final(self)@ == old(self)@.fall(soft),
            final(self)@.wf(),
            final(self)@.score <= old(self)@.score + u8::MAX,
            final(self).piece_rng == old(self).piece_rng,
            final(self).garbage_rng == old(self).garbage_rng,
    {
        proof {
            lemma_fall_wf(self@, soft, depth);
        }
        let timer = match self.phase {
            Phase::Falling { timer } => timer,
            _ => { return ; },
        };
        if timer == 0 {
            if soft {
                self.score += self.level as u32;
            }
            self.board.move_down(&mut self.piece);
            if self.piece.offset_y > self.lockdown_y {
                self.lockdown_y = self.piece.offset_y;
                self.lockdown_moves = LOCKDOWN_MOVES;
            }
            self.start_fall();
        } else {
            self.phase = Phase::Falling { timer: timer - 1 };
        }
        proof {
            lemma_fits_range(self@.board, self@.piece);
        }
        if !self.board.can_move_down(&mut self.piece) {
            self.phase = Phase::Lock;
        }
    }

    /// A tick of the phase `Falling`.
    fn falling_tick(&mut self, user_actions: &Vec<Action>) -> (moved: Ghost<GameView>)
        requires
            old(self)@.wf(),
            !old(self)@.done,
            old(self)@.phase is Falling,
            user_actions@.len() <= MAX_ACTIONS,
            old(self)@.score <= MAX_SCORE,
        ensures
            final(self)@.wf(),
            old(self)@.input(user_actions@, moved@),
            final(self)@ == moved@.fall(user_actions@.contains(Action::SoftDrop)),
            final(self)@.score <= old(self)@.score + MAX_GAIN,
            final(self).garbage_rng == old(self).garbage_rng,
            !(user_actions@.contains(Action::Hold) && old(self)@.hold_draws())
                ==> final(self).piece_rng == old(self).piece_rng,
    {
        proof {
            lemma_wf_in_play(self@);
        }
        self.process_input(user_actions);
        let ghost moved = self@;
        let soft = has_soft_drop(user_actions);
        self.fall(soft, Ghost(user_actions@.len() as int));
        Ghost(moved)
    }

    /// A tick of the phase `Lock`.
    fn lock_tick(&mut self, user_actions: &Vec<Action>) -> (moved: Ghost<GameView>)
        requires
            old(self)@.wf(),
            !old(self)@.done,
            old(self)@.phase is Lock,
            old(self)@.reads_actions() ==> user_actions@.len() <= MAX_ACTIONS,
            old(self)@.score <= MAX_SCORE,
        ensures
            final(self)@.wf(),
            old(self)@.settings.nes || old(self)@.lockdown_timer == 0 ==> final(self)@ == old(
                self,
            )@.locked(),
            !(old(self)@.settings.nes || old(self)@.lockdown_timer == 0) ==> old(self)@.input(
                user_actions@,
                moved@,
            ) && final(self)@ == moved@.settle(),
            final(self)@.score <= old(self)@.score + MAX_GAIN,
            final(self).garbage_rng == old(self).garbage_rng,
            !(old(self)@.reads_actions() && user_actions@.contains(Action::Hold) && old(
                self,
            )@.hold_draws()) ==> final(self).piece_rng == old(self).piece_rng,
    {
        proof {
            lemma_wf_in_play(self@);
        }
        if self.settings.nes || self.lockdown_timer == 0 {
            proof {
                lemma_locked_wf(self@, 0);
            }
            self.lock_down(Ghost(0));
            Ghost(self@)
        } else {
            self.process_input(user_actions);
            let ghost moved = self@;
            proof {
                lemma_settle_wf(moved, user_actions@.len() as int);
            }
            if self.board.can_move_down(&mut self.piece) {
                self.start_fall();
            } else {
                self.lockdown_timer = self.lockdown_timer.saturating_sub(1);
            }
            Ghost(moved)
        }
    }

    /// A tick of the phase `Completion`.
    fn completion_tick(&mut self) -> (slots: Ghost<Seq<int>>)
        requires
            old(self)@.wf(),
            old(self)@.score <= MAX_SCORE,
        ensures
            final(self)@.wf(),
            garbage_allowed(
                old(self)@.garbage_slot,
                old(self)@.garbage_acc,
                slots@,
                final(self)@.garbage_slot,
            ),
            final(self)@ == old(self)@.complete(slots@, final(self)@.garbage_slot),
            final(self)@.score <= old(self)@.score + MAX_GAIN,
            final(self).piece_rng == old(self).piece_rng,
            old(self)@.garbage_acc == 0 ==> final(self).garbage_rng == old(self).garbage_rng,
    {
        let ghost start = self@;
        proof {
            lemma_kept_rows_len(start.board);
        }
        let rows = self.board.clear_lines();
        let gain: u32 = match rows {
            1 => 100,
            2 => 300,
            3 => 550,
            4 => 800,
            _ => 0,
        };
        self.score += (self.level as u32) * gain;
        self.events.push(Event::Completion(rows));
        if !self.settings.easy {
            self.level_goal -= rows as i8;
            if self.level_goal <= 0 {
                self.level = self.level.saturating_add(1);
                self.level_goal = LEVEL_GOAL;
            }
        }
        proof {
            assert(self@ == start.clear_rows());
        }
        let slots = self.add_garbage();
        self.phase = Phase::Generation { frames_left: GENERATION_DELAY };
        proof {
            lemma_complete_wf(start, slots@, self@.garbage_slot);
        }
        slots
    }

    /// Advances the match by one tick, in which the player asks for
    /// `user_actions`, in this order. Afterwards `events` tells what happened
    /// in the tick.
    ///
    /// A match that is over ignores the tick: only its events are cleared.
    ///
    /// A tick that applies the actions takes at most [`MAX_ACTIONS`] of
    /// them, so that the offset of the piece stays in the range of its type
    /// whatever they are; a tick that does not apply them takes any number.
    /// The generator for pieces is drawn from only where the next piece comes
    /// in or a `Hold` fetches one, and the generator for garbage only where
    /// garbage comes in.
    pub fn user_actions(&mut self, user_actions: Vec<Action>)
        requires
            old(self)@.wf(),
            old(self)@.reads_actions() ==> user_actions@.len() <= MAX_ACTIONS,
            old(self)@.score <= MAX_SCORE,
        ensures
            final(self)@.wf(),
            old(self)@.tick(user_actions@, final(self)@),
            final(self)@.score <= old(self)@.score + MAX_GAIN,
            !old(self)@.may_draw_piece(user_actions@)
                ==> final(self).piece_generator() == old(self).piece_generator(),
            !old(self)@.may_draw_gap()
                ==> final(self).garbage_generator() == old(self).garbage_generator(),
    {
        self.events.clear();
        let ghost start = self@;
        assert(start == old(self)@.fresh_tick());
        if self.done {
            return ;
        }
        match self.phase {
            Phase::Generation { frames_left } => {
                self.generation_tick(frames_left);
                proof {
                    if frames_left == 0 {
                        assert(self@ == start.generate(self@.last_draw()));
                    }
                }
            },
            Phase::Falling { .. } => {
                let moved = self.falling_tick(&user_actions);
                proof {
                    assert(start.input(user_actions@, moved@));
                }
            },
            Phase::Lock => {
                let moved = self.lock_tick(&user_actions);
                proof {
                    if !(start.settings.nes || start.lockdown_timer == 0) {
                        assert(start.input(user_actions@, moved@));
                    }
                }
            },
            Phase::Completion => {
                let slots = self.completion_tick();
                proof {
                    assert(self@ == start.complete(slots@, self@.garbage_slot));
                }
            },
        }
    }

    /// Notes that an opponent has sent `lines` more rows of garbage. They come
    /// in at the end of the next tick of the phase `Completion`.
    pub fn accumulate_garbage(&mut self, lines: u8)
        requires
            old(self)@.garbage_acc + lines <= u8::MAX,
        ensures
            final(self)@ == (GameView {
                garbage_acc: old(self)@.garbage_acc + lines,
                ..old(self)@
            }),
            final(self).piece_generator() == old(self).piece_generator(),
            final(self).garbage_generator() == old(self).garbage_generator(),
    {
        self.garbage_acc += lines;
    }

    /// In the phase `Completion`, plays the tick of that phase and brings the
    /// next piece in with the tick after it, without the wait between them.
    /// In any other phase nothing happens.
    pub fn skip_completion(&mut self)
        requires
            old(self)@.wf(),
            old(self)@.score <= MAX_SCORE,
        ensures
            final(self)@.wf(),
            old(self)@.skip(final(self)@),
            final(self)@.score <= old(self)@.score + MAX_GAIN,
            final(self).piece_generator() == old(self).piece_generator(),
            !old(self)@.may_draw_gap()
                ==> final(self).garbage_generator() == old(self).garbage_generator(),
    {
        if let Phase::Completion = self.phase {
            self.user_actions(Vec::new());
            let ghost ticked = self@;
            self.phase = Phase::Generation { frames_left: 0 };
            proof {
                assert(old(self)@.tick(Seq::empty(), ticked));
            }
        }
    }
}

/// A draw with replacement: the kind at the place `drawn` of the pool.
pub fn pick_kind(bag: &[Mino; 7], drawn: usize) -> (kind: Mino)
    requires
        drawn < 7,
    ensures
        kind == bag@[drawn as int],
{
    bag[drawn]
}

/// One step of a shuffle: the kinds at the places `i` and `drawn` of the pool
/// change places.
pub fn swap_kinds(bag: &mut [Mino; 7], i: usize, drawn: usize)
    requires
        i <= drawn < 7,
    ensures
        final(bag)@ == swapped(old(bag)@, i as int, drawn as int),
{
    let here = bag[i];
    let there = bag[drawn];
    bag[i] = there;
    bag[drawn] = here;
    assert(bag@ =~= swapped(old(bag)@, i as int, drawn as int));
}

/// Whether the player asked for a soft drop.
fn has_soft_drop(actions: &Vec<Action>) -> (found: bool)
    ensures
        found == actions@.contains(Action::SoftDrop),
{
    let mut i: usize = 0;
    while i < actions.len()
        invariant
            i <= actions@.len(),
            forall|k: int| 0 <= k < i ==> actions@[k] != Action::SoftDrop,
        decreases actions@.len() - i,
    {
        if actions[i] == Action::SoftDrop {
            return true;
        }
        i += 1;
    }
    false
}

} // verus!
