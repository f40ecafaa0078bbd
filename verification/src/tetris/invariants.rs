//! What stays true of a match from tick to tick, and while the actions of a
//! tick are applied.

use super::field::{
    Field, cleared, dropped, field_wf, fits, kicked, kind_kicks, lemma_dropped, lemma_fits_range,
    lemma_kept_rows_len, lemma_kicked, lemma_placed_keeps_blocked, lemma_placed_wf,
};
use super::laws::lemma_clear_twice;
use super::piece::{
    Direction, Mino, PieceView, lemma_fresh_has_cell, lemma_has_cell_anywhere, lemma_in_bounds_up,
    lemma_shifted_covers,
};
use super::rules::{
    Draw, GameView, draw_allowed, first_bag, is_full_bag, is_shuffle, shuffle_draws, spawn_x,
    spawn_y, swap_chain, swapped, with_garbage,
};
use vstd::prelude::*;

verus! {

/// A pool that holds each kind once still does after two of its places are
/// exchanged.
pub proof fn lemma_swap_full_bag(bag: Seq<Mino>, i: int, j: int)
    requires
        is_full_bag(bag),
        0 <= i < 7,
        0 <= j < 7,
    ensures
        is_full_bag(swapped(bag, i, j)),
{
    let swapped = swapped(bag, i, j);
    assert forall|kind: Mino| #[trigger] kind.is_piece() implies swapped.contains(kind) by {
        assert(bag.contains(kind));
        let at = choose|at: int| 0 <= at < bag.len() && bag[at] == kind;
        let then = if at == i {
            j
        } else if at == j {
            i
        } else {
            at
        };
        assert(swapped[then] == kind);
    }
}

/// A pool that holds each kind once still does after any steps of a shuffle.
pub proof fn lemma_swap_chain_full(bag: Seq<Mino>, draws: Seq<int>, count: int)
    requires
        is_full_bag(bag),
        0 <= count <= 7,
        forall|i: int| 0 <= i < count ==> i <= #[trigger] draws[i] < 7,
    ensures
        is_full_bag(swap_chain(bag, draws, count)),
    decreases count,
{
    if count > 0 {
        lemma_swap_chain_full(bag, draws, count - 1);
        lemma_swap_full_bag(swap_chain(bag, draws, count - 1), count - 1, draws[count - 1]);
    }
}

/// The first steps of a shuffle go by the first places drawn alone.
pub proof fn lemma_swap_chain_prefix(bag: Seq<Mino>, draws: Seq<int>, more: Seq<int>, count: int)
    requires
        0 <= count <= draws.len() <= more.len(),
        forall|i: int| 0 <= i < draws.len() ==> draws[i] == more[i],
    ensures
        swap_chain(bag, more, count) == swap_chain(bag, draws, count),
    decreases count,
{
    if count > 0 {
        lemma_swap_chain_prefix(bag, draws, more, count - 1);
    }
}

/// A pool that holds each kind once still does after a shuffle.
pub proof fn lemma_shuffle_full(bag: Seq<Mino>, shuffled: Seq<Mino>)
    requires
        is_full_bag(bag),
        is_shuffle(bag, shuffled),
    ensures
        is_full_bag(shuffled),
{
    let draws = choose|draws: Seq<int>|
        shuffle_draws(draws) && shuffled == #[trigger] swap_chain(bag, draws, 7);
    lemma_swap_chain_full(bag, draws, 7);
}

/// The pool with which a match starts holds each kind once.
pub proof fn lemma_first_bag()
    ensures
        is_full_bag(first_bag()),
{
    let bag = first_bag();
    assert forall|kind: Mino| #[trigger] kind.is_piece() implies bag.contains(kind) by {
        let at: int = match kind {
            Mino::O => 0,
            Mino::I => 1,
            Mino::J => 2,
            Mino::L => 3,
            Mino::S => 4,
            Mino::Z => 5,
            _ => 6,
        };
        assert(bag[at] == kind);
    }
}

/// A kind that can be drawn is one of the seven kinds of piece, and the pool
/// after the draw holds each of them once.
pub proof fn lemma_draw_allowed(random: bool, bag: Seq<Mino>, bag_idx: int, draw: Draw)
    requires
        is_full_bag(bag),
        0 <= bag_idx <= 7,
        draw_allowed(random, bag, bag_idx, draw),
    ensures
        draw.kind.is_piece(),
        is_full_bag(draw.bag),
        0 <= draw.bag_idx <= 7,
{
    if random {
        let at = choose|at: int| 0 <= at < bag.len() && bag[at] == draw.kind;
        assert(bag[at].is_piece());
    } else if bag_idx >= 7 {
        lemma_shuffle_full(bag, draw.bag);
    }
}

/// Between two ticks, a match whose piece falls or waits to be locked is in
/// play, and its piece fits.
pub proof fn lemma_wf_in_play(game: GameView)
    requires
        game.wf(),
        !game.done,
        game.phase is Falling || game.phase is Lock,
    ensures
        game.in_play(0),
        fits(game.board, game.piece),
{
    lemma_fits_range(game.board, game.piece);
}

/// A match in play stays in play when its piece is moved to the side.
pub proof fn lemma_shift_in_play(game: GameView, dx: int, depth: int)
    requires
        game.in_play(depth),
        depth >= 0,
    ensures
        game.shift(dx).in_play(depth),
        game.shift(dx).phase == game.phase,
        game.shift(dx).score == game.score,
        game.shift(dx).done == game.done,
{
    let target = game.piece.shifted(dx, 0);
    if fits(game.board, target) {
        lemma_shifted_covers(game.piece, dx, 0);
        lemma_fits_range(game.board, target);
    }
}

/// A match in play stays in play when its piece is turned.
pub proof fn lemma_turn_in_play(game: GameView, direction: Direction, depth: int)
    requires
        game.in_play(depth),
        depth >= 0,
    ensures
        game.turn(direction).in_play(depth),
        game.turn(direction).phase == game.phase,
        game.turn(direction).score == game.score,
        game.turn(direction).done == game.done,
{
    lemma_kicked(game.board, game.piece, direction);
    let (success, piece) = kicked(game.board, game.piece, direction);
    if success && kind_kicks(game.piece.kind) {
        lemma_fits_range(game.board, piece);
    }
}

/// A match in play stays in play when a piece that waited comes in.
pub proof fn lemma_spawn_in_play(game: GameView, piece: PieceView, depth: int)
    requires
        game.in_play(depth),
        depth >= 0,
        GameView::waiting_ok(piece),
    ensures
        game.spawn(piece).in_play(depth),
        game.spawn(piece).phase == game.phase,
        game.spawn(piece).score == game.score,
        game.done ==> game.spawn(piece).done,
        !game.spawn(piece).done ==> fits(game.spawn(piece).board, game.spawn(piece).piece),
{
    let first = piece.at(spawn_x(piece.kind), spawn_y(piece.kind));
    let second = first.shifted(0, 1);
    lemma_fresh_has_cell(piece.kind, 0, 0);
    lemma_has_cell_anywhere(piece, first);
    if fits(game.board, first) {
        lemma_fits_range(game.board, first);
    }
}

/// A match in play stays in play through the action `Hold`, whatever is
/// drawn.
pub proof fn lemma_hold_in_play(game: GameView, draw: Draw, depth: int)
    requires
        game.in_play(depth),
        depth >= 0,
        game.hold_draws() ==> draw_allowed(game.settings.random, game.bag, game.bag_idx, draw),
    ensures
        game.hold(draw).in_play(depth),
        game.hold(draw).phase == game.phase,
        game.hold(draw).score == game.score,
        game.done ==> game.hold(draw).done,
{
    if game.can_hold {
        let kept = GameView {
            can_hold: false,
            hold: Some(PieceView::fresh(game.piece.kind, 0, 0)),
            ..game
        };
        assert(kept.in_play(depth));
        match game.hold {
            None => {
                lemma_draw_allowed(game.settings.random, game.bag, game.bag_idx, draw);
                let filled = kept.refill(draw);
                assert forall|i: int| 0 <= i < filled.queue.len() implies GameView::waiting_ok(
                    #[trigger] filled.queue[i],
                ) by {
                    if i < 4 {
                        assert(filled.queue[i] == kept.queue[i + 1]);
                    }
                }
                assert(filled.in_play(depth));
                lemma_spawn_in_play(filled, game.queue[0], depth);
            },
            Some(held) => {
                lemma_spawn_in_play(kept, held, depth);
            },
        }
    }
}

/// What locking the piece does to a match in play: the piece may then stand
/// one row higher than any piece did before, and it cannot go down.
pub proof fn lemma_locked_in_play(game: GameView, depth: int)
    requires
        game.in_play(depth),
        depth >= 0,
    ensures
        game.locked().in_play(depth + 1),
        game.locked().piece.y >= game.piece.y - 1,
        fits(game.board, game.piece) ==> game.locked().piece.y >= game.piece.y
            && game.locked().piece.in_bounds(),
        game.locked().piece.y < 0 || game.locked().piece.in_bounds(),
        game.locked().done == game.done,
{
    let piece = dropped(game.board, game.piece);
    lemma_dropped(game.board, game.piece);
    lemma_has_cell_anywhere(game.piece, piece);
    if fits(game.board, game.piece) {
        lemma_fits_range(game.board, piece);
    } else {
        if game.piece.y >= 1 {
            lemma_in_bounds_up(game.piece);
        }
    }
    if piece.y >= 0 {
        lemma_placed_keeps_blocked(game.board, piece, piece.shifted(0, 1));
        lemma_placed_wf(game.board, piece);
    }
}

/// A match in play stays in play through a soft drop.
pub proof fn lemma_soft_drop_in_play(game: GameView, depth: int)
    requires
        game.in_play(depth),
    ensures
        game.soft_drop().in_play(depth),
        game.soft_drop().score == game.score,
        game.soft_drop().done == game.done,
        game.phase is Falling == game.soft_drop().phase is Falling,
        !(game.phase is Falling) ==> game.soft_drop() == game,
{
}

/// The invariant of a match holds after the rest of a tick of the phase
/// `Falling`.
pub proof fn lemma_fall_wf(game: GameView, soft: bool, depth: int)
    requires
        game.in_play(depth),
        game.phase is Completion || fits(game.board, game.piece),
    ensures
        game.fall(soft).wf(),
{
    if game.phase is Falling {
        let target = game.piece.shifted(0, 1);
        if fits(game.board, target) {
            lemma_shifted_covers(game.piece, 0, 1);
        }
    }
}

/// The invariant of a match holds after the rest of a tick of the phase
/// `Lock`.
pub proof fn lemma_settle_wf(game: GameView, depth: int)
    requires
        game.in_play(depth),
    ensures
        game.settle().wf(),
{
}

/// The invariant of a match holds after a tick that brings in the next
/// piece.
pub proof fn lemma_generate_wf(game: GameView, draw: Draw)
    requires
        game.wf(),
        draw_allowed(game.settings.random, game.bag, game.bag_idx, draw),
    ensures
        game.generate(draw).wf(),
{
    lemma_draw_allowed(game.settings.random, game.bag, game.bag_idx, draw);
    let filled = game.refill(draw);
    assert forall|i: int| 0 <= i < filled.queue.len() implies GameView::waiting_ok(
        #[trigger] filled.queue[i],
    ) by {
        if i < 4 {
            assert(filled.queue[i] == game.queue[i + 1]);
        }
    }
    let piece = game.queue[0];
    let first = piece.at(spawn_x(piece.kind), spawn_y(piece.kind));
    let second = first.shifted(0, 1);
    lemma_fresh_has_cell(piece.kind, 0, 0);
    lemma_has_cell_anywhere(piece, first);
}

/// A field into which garbage has come is a field.
pub proof fn lemma_with_garbage_wf(field: Field, amount: int, slots: Seq<int>)
    requires
        field_wf(field),
        amount >= 0,
    ensures
        field_wf(with_garbage(field, amount, slots)),
{
}

/// The invariant of a match holds after a tick of the phase `Completion`.
pub proof fn lemma_complete_wf(game: GameView, slots: Seq<int>, last_slot: int)
    requires
        game.wf(),
        game.garbage_acc >= 0,
        0 <= last_slot < 10,
    ensures
        game.complete(slots, last_slot).wf(),
{
    lemma_clear_twice(game.board);
    lemma_kept_rows_len(game.board);
    lemma_with_garbage_wf(cleared(game.board), game.garbage_acc, slots);
}

/// The invariant of a match holds after its piece has been locked.
pub proof fn lemma_locked_wf(game: GameView, depth: int)
    requires
        game.in_play(depth),
        depth >= 0,
    ensures
        game.locked().wf(),
{
    lemma_locked_in_play(game, depth);
}

} // verus!
