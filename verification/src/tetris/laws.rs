//! Laws of the engine: what follows, for every board, every piece and every
//! match, from the rules.

use super::field::{
    BOARD_HEIGHT, Field, cleared, dropped, empty_row, field_wf, fits, free_fall, full_rows,
    garbage_row, kept_rows, kicked, kind_kicks, lemma_dropped, lemma_free_fall, lemma_kept_rows,
    lemma_kept_rows_len, lemma_kept_rows_sized, lemma_kicks_start_in_place, placed, row_full,
};
use super::game::{Action, Event, GameSettings, Phase};
use super::invariants::lemma_shuffle_full;
use super::piece::{Direction, Mino, PieceView, grid_is_square, lemma_grid_turned_back, turned};
use super::rules::{LOCKDOWN_MOVES, gravity, spawn_x, spawn_y};
use super::rules::{
    Draw, GENERATION_DELAY, GameView, LOCKDOWN_START, draw_allowed, garbage_allowed, is_full_bag,
    is_garbage_row, line_score, with_garbage,
};
use vstd::prelude::*;

verus! {

/// A piece that has room to turn in place comes back to where it was when it
/// is turned a quarter and then a quarter in the opposite sense: if the piece
/// fits where it stands, and its turned shape fits there too, then both
/// rotations succeed, and after them the piece has its first offset, its first
/// orientation and its first grid.
pub proof fn lemma_rotate_there_and_back(field: Field, piece: PieceView, direction: Direction)
    requires
        grid_is_square(piece.grid),
        fits(field, piece),
        fits(field, turned(piece, direction)),
    ensures
        kicked(field, piece, direction).0,
        kicked(field, kicked(field, piece, direction).1, direction.reversed()) == (true, piece),
{
    if kind_kicks(piece.kind) {
        let goal = turned(piece, direction);
        lemma_kicks_start_in_place(piece.kind, piece.rotation, direction);
        assert(goal.shifted(0, 0) == goal);
        assert(kicked(field, piece, direction) == (true, goal));
        lemma_grid_turned_back(piece.grid, direction);
        let home = turned(goal, direction.reversed());
        assert(home == piece);
        lemma_kicks_start_in_place(goal.kind, goal.rotation, direction.reversed());
        assert(home.shifted(0, 0) == home);
    }
}

/// Clearing the lines of a field without a full row removes nothing and leaves
/// the field as it is.
pub proof fn lemma_clear_without_full_row(field: Field)
    requires
        forall|y: int| 0 <= y < field.len() ==> !row_full(#[trigger] field[y]),
    ensures
        full_rows(field) == 0,
        cleared(field) == field,
{
    lemma_kept_rows(field);
    assert(cleared(field) =~= field);
}

/// Clearing lines a second time changes nothing: after the first time no row
/// is full.
pub proof fn lemma_clear_twice(field: Field)
    requires
        field_wf(field),
    ensures
        field_wf(cleared(field)),
        full_rows(cleared(field)) == 0,
        cleared(cleared(field)) == cleared(field),
{
    lemma_kept_rows(field);
    lemma_kept_rows_len(field);
    lemma_kept_rows_sized(field);
    let once = cleared(field);
    assert(!row_full(empty_row())) by {
        assert(empty_row()[0] == Mino::Empty);
    }
    assert forall|y: int| 0 <= y < once.len() implies !row_full(#[trigger] once[y]) by {
        if y >= full_rows(field) {
            assert(once[y] == kept_rows(field)[y - full_rows(field)]);
        }
    }
    lemma_clear_without_full_row(once);
}

/// Whether `draws` can be what the randomizer gives, without the setting
/// `random`, in as many draws one after the other, when its pool is `bag` and
/// its cursor `bag_idx` before the first of them.
pub open spec fn draws_follow(bag: Seq<Mino>, bag_idx: int, draws: Seq<Draw>) -> bool
    decreases draws.len(),
{
    if draws.len() == 0 {
        true
    } else {
        &&& draw_allowed(false, bag, bag_idx, draws[0])
        &&& draws_follow(draws[0].bag, draws[0].bag_idx, draws.drop_first())
    }
}

/// From the second draw of a used-up pool on, the draws walk through the pool
/// as the first draw shuffled it.
proof fn lemma_draws_walk(bag: Seq<Mino>, bag_idx: int, draws: Seq<Draw>)
    requires
        draws_follow(bag, bag_idx, draws),
        0 <= bag_idx,
        bag_idx + draws.len() <= 7,
    ensures
        forall|i: int|
            0 <= i < draws.len() ==> (#[trigger] draws[i]).kind == bag[bag_idx + i] && draws[i].bag
                == bag && draws[i].bag_idx == bag_idx + i + 1,
    decreases draws.len(),
{
    if draws.len() > 0 {
        let rest = draws.drop_first();
        lemma_draws_walk(draws[0].bag, draws[0].bag_idx, rest);
        assert forall|i: int| 0 <= i < draws.len() implies (#[trigger] draws[i]).kind
            == bag[bag_idx + i] && draws[i].bag == bag && draws[i].bag_idx == bag_idx + i + 1 by {
            if i > 0 {
                assert(draws[i] == rest[i - 1]);
            }
        }
    }
}

/// With the bag, seven draws in a row that start on a used-up pool give each
/// of the seven kinds of piece exactly once, and use the pool up again. So
/// the draws of a match fall into windows of seven, the first of which starts
/// with the first draw, and each window holds each kind once.
pub proof fn lemma_bag_window(bag: Seq<Mino>, draws: Seq<Draw>)
    requires
        is_full_bag(bag),
        draws.len() == 7,
        draws_follow(bag, 7, draws),
    ensures
        forall|kind: Mino| #[trigger]
            kind.is_piece() ==> exists|i: int| 0 <= i < 7 && (#[trigger] draws[i]).kind == kind,
        forall|i: int| 0 <= i < 7 ==> (#[trigger] draws[i]).kind.is_piece(),
        forall|i: int, j: int| 0 <= i < j < 7 ==> draws[i].kind != draws[j].kind,
        draws[6].bag_idx == 7,
        is_full_bag(draws[6].bag),
{
    let pool = draws[0].bag;
    let rest = draws.drop_first();
    lemma_shuffle_full(bag, pool);
    lemma_draws_walk(pool, 1, rest);
    assert forall|i: int| 0 <= i < 7 implies (#[trigger] draws[i]).kind == pool[i] by {
        if i > 0 {
            assert(draws[i] == rest[i - 1]);
        }
    }
    assert(draws[6] == rest[5]);
    assert forall|kind: Mino| #[trigger] kind.is_piece() implies exists|i: int|
        0 <= i < 7 && (#[trigger] draws[i]).kind == kind by {
        assert(pool.contains(kind));
        let at = choose|at: int| 0 <= at < pool.len() && pool[at] == kind;
        assert(draws[at].kind == kind);
    }
}

/// A row of garbage has exactly one empty cell, and garbage in its nine other
/// cells.
pub proof fn lemma_garbage_row(slot: int)
    requires
        0 <= slot < 10,
    ensures
        garbage_row(slot).len() == 10,
        garbage_row(slot)[slot] == Mino::Empty,
        forall|x: int| 0 <= x < 10 && x != slot ==> #[trigger] garbage_row(slot)[x] == Mino::Garbage,
{
}

/// The first window of a match that plays with the bag: the first piece,
/// the five pieces of the first queue and the piece that is drawn next are of
/// the seven kinds, each of them once.
pub proof fn lemma_first_window(game: GameView, settings: GameSettings, next: Draw)
    requires
        game.wf(),
        game.opening(settings),
        !settings.random,
        draw_allowed(false, game.bag, game.bag_idx, next),
    ensures
        ({
            let kinds = seq![
                game.piece.kind,
                game.queue[0].kind,
                game.queue[1].kind,
                game.queue[2].kind,
                game.queue[3].kind,
                game.queue[4].kind,
                next.kind,
            ];
            &&& kinds == game.bag
            &&& is_full_bag(kinds)
            &&& next.bag_idx == 7
        }),
{
    let kinds = seq![
        game.piece.kind,
        game.queue[0].kind,
        game.queue[1].kind,
        game.queue[2].kind,
        game.queue[3].kind,
        game.queue[4].kind,
        next.kind,
    ];
    assert(kinds =~= game.bag);
}

/// After a tick of the phase `Completion` in which `owed` rows of garbage
/// were owed, no more than the field has rows, each of the `owed` rows at the
/// bottom of the field has one empty cell and nine cells of garbage, and the
/// rows above them are those that the field had when its full rows were
/// cleared, each `owed` rows higher than it was. Nothing is owed any more.
pub proof fn lemma_garbage_arrives(
    before: GameView,
    actions: Seq<Action>,
    after: GameView,
    owed: int,
)
    requires
        before.wf(),
        !before.done,
        before.phase is Completion,
        before.garbage_acc == owed,
        0 <= owed <= BOARD_HEIGHT,
        before.tick(actions, after),
    ensures
        forall|y: int|
            BOARD_HEIGHT - owed <= y < BOARD_HEIGHT ==> is_garbage_row(#[trigger] after.board[y]),
        forall|y: int|
            0 <= y < BOARD_HEIGHT - owed ==> #[trigger] after.board[y] == cleared(before.board)[y
                + owed],
        after.garbage_acc == 0,
{
    let start = before.fresh_tick();
    let slots = choose|slots: Seq<int>|
        garbage_allowed(before.garbage_slot, before.garbage_acc, slots, after.garbage_slot)
            && after == #[trigger] start.complete(slots, after.garbage_slot);
    lemma_clear_twice(before.board);
    assert forall|y: int| BOARD_HEIGHT - owed <= y < BOARD_HEIGHT implies is_garbage_row(
        #[trigger] after.board[y],
    ) by {
        let slot = slots[BOARD_HEIGHT - 1 - y];
        assert(after.board[y] == garbage_row(slot));
    }
}

/// What the one action `action` makes of a match that applies its actions:
/// the tick applies it to the match as it starts the tick, and forces a soft
/// drop where the setting `jupiter` asks for one.
proof fn lemma_one_action(start: GameView, action: Action, moved: GameView)
    requires
        start.input(seq![action], moved),
    ensures
        exists|applied: GameView| #[trigger]
            start.act(action, applied) && moved == applied.forced_drop(seq![action]),
{
    let actions = seq![action];
    let applied = choose|applied: GameView| #[trigger]
        start.acts(actions, applied) && moved == applied.forced_drop(actions);
    let first = choose|first: GameView|
        start.acts(actions.drop_last(), first) && #[trigger] first.act(actions.last(), applied);
    assert(actions.drop_last() =~= Seq::empty());
    assert(first == start);
    assert(start.act(action, applied));
}

/// A hard drop, for every match whose piece falls: the tick leaves the piece
/// in the lowest row that it reaches by falling through rows in which it
/// fits, scores 2 for each row that it fell, writes its cells into the field
/// and ends in the phase `Completion`, without an event.
pub proof fn lemma_hard_drop(before: GameView, after: GameView)
    requires
        before.wf(),
        !before.done,
        before.phase is Falling,
        before.tick(seq![Action::HardDrop], after),
    ensures
        ({
            let fall = free_fall(before.board, before.piece) - 1;
            &&& fall >= 0
            &&& forall|k: int|
                0 <= k <= fall ==> fits(before.board, #[trigger] before.piece.shifted(0, k))
            &&& !fits(before.board, before.piece.shifted(0, fall + 1))
            &&& after.piece == before.piece.shifted(0, fall)
            &&& after.score == before.score + 2 * fall
            &&& after.board == if after.piece.y < 0 {
                before.board
            } else {
                placed(before.board, after.piece)
            }
            &&& after.phase is Completion
            &&& after.events == Seq::<Event>::empty()
            &&& !after.done
        }),
{
    let start = before.fresh_tick();
    let actions = seq![Action::HardDrop];
    let moved = choose|moved: GameView| #[trigger]
        start.input(actions, moved) && after == moved.fall(actions.contains(Action::SoftDrop));
    lemma_one_action(start, Action::HardDrop, moved);
    let applied = choose|applied: GameView| #[trigger]
        start.act(Action::HardDrop, applied) && moved == applied.forced_drop(actions);
    assert(applied == start.hard_drop());
    lemma_free_fall(before.board, before.piece);
    assert(before.piece.shifted(0, 0) == before.piece);
}

/// The phase `Completion`, for every match and every batch of actions: the
/// tick scores the full rows at the level that the match had, tells of them
/// in its first event, leaves the level alone with the setting `easy`, and
/// ends with the next piece 12 ticks away. Where no garbage is owed, the
/// field is the one with the full rows cleared, and that is all.
pub proof fn lemma_completion(before: GameView, actions: Seq<Action>, after: GameView)
    requires
        before.wf(),
        !before.done,
        before.phase is Completion,
        before.tick(actions, after),
    ensures
        after.score == before.score + before.level * line_score(full_rows(before.board)),
        after.events.len() >= 1,
        after.events[0] == Event::Completion(full_rows(before.board) as u8),
        after.events.len() == if after.done {
            2nat
        } else {
            1nat
        },
        after.phase == (Phase::Generation { frames_left: GENERATION_DELAY }),
        before.settings.easy ==> after.level == before.level,
        after.piece == before.piece,
        before.garbage_acc == 0 ==> after.board == cleared(before.board) && !after.done
            && after.garbage_slot == before.garbage_slot,
{
    let start = before.fresh_tick();
    let slots = choose|slots: Seq<int>|
        garbage_allowed(before.garbage_slot, before.garbage_acc, slots, after.garbage_slot)
            && after == #[trigger] start.complete(slots, after.garbage_slot);
    lemma_clear_twice(before.board);
    if before.garbage_acc == 0 {
        assert(with_garbage(cleared(before.board), 0, slots) =~= cleared(before.board));
    }
}

/// A piece that waits to be locked, with the setting `nes` or with its rest
/// used up, for every match and every batch of actions: the tick ignores the
/// actions, locks the piece where a drop leaves it, which is a place in which
/// it fits, and ends in the phase `Completion`; the score and the level stay,
/// there is no event, and the rest is 30 ticks again.
pub proof fn lemma_lock_at_once(before: GameView, actions: Seq<Action>, after: GameView)
    requires
        before.wf(),
        !before.done,
        before.phase is Lock,
        before.settings.nes || before.lockdown_timer == 0,
        before.tick(actions, after),
    ensures
        after == before.fresh_tick().locked(),
        after.piece == dropped(before.board, before.piece),
        fits(before.board, after.piece),
        !fits(before.board, after.piece.shifted(0, 1)),
        after.board == if after.piece.y < 0 {
            before.board
        } else {
            placed(before.board, after.piece)
        },
        after.phase is Completion,
        after.events == Seq::<Event>::empty(),
        after.score == before.score,
        after.level == before.level,
        after.lockdown_timer == LOCKDOWN_START,
{
    lemma_dropped(before.board, before.piece);
}

/// The last of the five moves of a piece that waits to be locked: a move to
/// the side that succeeds and leaves the piece on the ground uses the rest
/// up, however much of it was left, and the tick after it locks the piece,
/// whatever the actions of that tick.
pub proof fn lemma_last_move_ends_the_rest(
    before: GameView,
    to_the_left: bool,
    moved: GameView,
    actions: Seq<Action>,
    after: GameView,
)
    requires
        before.wf(),
        !before.done,
        before.phase is Lock,
        !before.settings.nes,
        before.lockdown_timer > 0,
        before.lockdown_moves == 1,
        ({
            let dx: int = if to_the_left {
                -1
            } else {
                1
            };
            &&& fits(before.board, before.piece.shifted(dx, 0))
            &&& !fits(before.board, before.piece.shifted(dx, 0).shifted(0, 1))
        }),
        before.tick(
            seq![
                if to_the_left {
                    Action::Left
                } else {
                    Action::Right
                },
            ],
            moved,
        ),
        moved.tick(actions, after),
    ensures
        moved.phase is Lock,
        moved.lockdown_moves == 0,
        moved.lockdown_timer == 0,
        !moved.done,
        after == moved.fresh_tick().locked(),
        after.phase is Completion,
{
    let start = before.fresh_tick();
    let action = if to_the_left {
        Action::Left
    } else {
        Action::Right
    };
    let batch = seq![action];
    let applied_all = choose|applied_all: GameView| #[trigger]
        start.input(batch, applied_all) && moved == applied_all.settle();
    lemma_one_action(start, action, applied_all);
    let applied = choose|applied: GameView| #[trigger]
        start.act(action, applied) && applied_all == applied.forced_drop(batch);
    assert(applied == start.shift(if to_the_left { -1int } else { 1int }));
}

/// The tick that brings the next piece in, for every match and every batch
/// of actions: the first piece of the queue leaves it, the others move up, and
/// a piece of a kind that the randomizer can give joins them. Unless the
/// match ends, the piece that left the queue stands at the place where its
/// kind comes in, in a place in which it fits, its ghost where a drop would
/// leave it, and it starts to fall; it can be held, and has its five moves.
pub proof fn lemma_next_piece_comes(before: GameView, actions: Seq<Action>, after: GameView)
    requires
        before.wf(),
        !before.done,
        before.phase == (Phase::Generation { frames_left: 0 }),
        before.tick(actions, after),
    ensures
        after.queue.len() == before.queue.len(),
        forall|i: int| 0 <= i < 4 ==> #[trigger] after.queue[i] == before.queue[i + 1],
        after.queue[4] == PieceView::fresh(after.queue[4].kind, 0, 0),
        draw_allowed(before.settings.random, before.bag, before.bag_idx, after.last_draw()),
        after.bag == after.last_draw().bag,
        after.phase == (Phase::Falling { timer: gravity(before.level) as u8 }),
        after.can_hold,
        after.lockdown_moves == LOCKDOWN_MOVES,
        after.score == before.score,
        after.board == before.board,
        !after.done ==> {
            let kind = before.queue[0].kind;
            &&& after.piece == PieceView::fresh(kind, spawn_x(kind), spawn_y(kind))
            &&& fits(before.board, after.piece)
            &&& after.ghost_piece == dropped(before.board, after.piece)
            &&& after.events == Seq::<Event>::empty()
        },
        after.done ==> after.piece == before.piece && after.events == seq![Event::Gameover],
{
    let start = before.fresh_tick();
    let draw = choose|draw: Draw|
        draw_allowed(before.settings.random, before.bag, before.bag_idx, draw)
            && after == #[trigger] start.generate(draw);
    let filled = start.refill(draw);
    assert(filled.queue.last() == PieceView::fresh(draw.kind, 0, 0));
    assert(after.queue == filled.queue);
    assert(after.last_draw() == draw);
    assert(GameView::waiting_ok(before.queue[0]));
}

/// Two actions, one after the other: the tick applies the first to the match
/// as it starts the tick and the second to what the first made of it.
proof fn lemma_two_actions(start: GameView, first: Action, second: Action, moved: GameView)
    requires
        start.input(seq![first, second], moved),
    ensures
        exists|once: GameView, twice: GameView|
            #![trigger start.act(first, once), once.act(second, twice)]
            start.act(first, once) && once.act(second, twice) && moved == twice.forced_drop(
                seq![first, second],
            ),
{
    let actions = seq![first, second];
    let twice = choose|twice: GameView| #[trigger]
        start.acts(actions, twice) && moved == twice.forced_drop(actions);
    let once = choose|once: GameView|
        start.acts(actions.drop_last(), once) && #[trigger] once.act(actions.last(), twice);
    let head = actions.drop_last();
    assert(head =~= seq![first]);
    let none = choose|none: GameView|
        start.acts(head.drop_last(), none) && #[trigger] none.act(head.last(), once);
    assert(head.drop_last() =~= Seq::empty());
    assert(none == start);
    assert(start.act(first, once) && once.act(second, twice));
}

/// `Hold`, for every match whose piece falls and can be held: the piece goes
/// into the hold as it was made. If a piece was held it comes in, and the
/// queue stays; if none was, the first piece of the queue comes in and the
/// queue moves up. Unless the match ends, the piece that comes in stands at
/// the place where its kind comes in. A second `Hold` in the same tick
/// changes nothing.
pub proof fn lemma_hold(before: GameView, once: GameView, twice: GameView)
    requires
        before.wf(),
        !before.done,
        before.phase is Falling,
        before.can_hold,
        before.fresh_tick().input(seq![Action::Hold], once),
        before.fresh_tick().input(seq![Action::Hold, Action::Hold], twice),
        once.queue == twice.queue,
        once.bag == twice.bag,
        once.bag_idx == twice.bag_idx,
    ensures
        once == twice,
        once.hold == Some(PieceView::fresh(before.piece.kind, 0, 0)),
        !once.can_hold,
        before.hold matches Some(held) ==> once.queue == before.queue && (!once.done ==> once.piece
            == PieceView::fresh(held.kind, spawn_x(held.kind), spawn_y(held.kind))),
        before.hold is None ==> {
            let kind = before.queue[0].kind;
            &&& forall|i: int| 0 <= i < 4 ==> #[trigger] once.queue[i] == before.queue[i + 1]
            &&& !once.done ==> once.piece == PieceView::fresh(
                kind,
                spawn_x(kind),
                spawn_y(kind),
            )
        },
{
    let start = before.fresh_tick();
    lemma_one_action(start, Action::Hold, once);
    let held = choose|held: GameView| #[trigger]
        start.act(Action::Hold, held) && once == held.forced_drop(seq![Action::Hold]);
    lemma_two_actions(start, Action::Hold, Action::Hold, twice);
    let (first, second) = choose|first: GameView, second: GameView|
        #![trigger start.act(Action::Hold, first), first.act(Action::Hold, second)]
        start.act(Action::Hold, first) && first.act(Action::Hold, second) && twice
            == second.forced_drop(seq![Action::Hold, Action::Hold]);
    let draw = choose|draw: Draw|
        (start.hold_draws() ==> draw_allowed(start.settings.random, start.bag, start.bag_idx, draw))
            && held == #[trigger] start.hold(draw);
    let other = choose|other: Draw|
        (start.hold_draws() ==> draw_allowed(
            start.settings.random,
            start.bag,
            start.bag_idx,
            other,
        )) && first == #[trigger] start.hold(other);
    assert(!first.can_hold);
    assert(second == first);
    assert(seq![Action::Hold].contains(Action::SoftDrop) == seq![
        Action::Hold,
        Action::Hold,
    ].contains(Action::SoftDrop)) by {
        if seq![Action::Hold, Action::Hold].contains(Action::SoftDrop) {
            let at = choose|at: int|
                0 <= at < 2 && seq![Action::Hold, Action::Hold][at] == Action::SoftDrop;
        }
        if seq![Action::Hold].contains(Action::SoftDrop) {
            let at = choose|at: int| 0 <= at < 1 && seq![Action::Hold][at] == Action::SoftDrop;
        }
    }
    match before.hold {
        Some(waiting) => {
            assert(GameView::waiting_ok(waiting));
        },
        None => {
            assert(GameView::waiting_ok(before.queue[0]));
            assert(held.queue.last() == PieceView::fresh(draw.kind, 0, 0));
            assert(first.queue.last() == PieceView::fresh(other.kind, 0, 0));
            assert(draw.kind == other.kind);
            assert(draw == other);
        },
    }
}

} // verus!
