//! The field as a mathematical value, and what the rules of the board say
//! of it: where a piece fits, where a drop leaves it, how it turns with wall
//! kicks, which rows are cleared and how garbage comes in.
//!
//! The field is a grid of 40 rows and 10 columns. Row 0 is the topmost row;
//! rows 0 to 19 are a hidden buffer above the 20 visible rows.

use super::piece::{
    Direction, Mino, PieceView, Rotation, grid_is_square, lemma_shifted_covers,
    lemma_turned_has_cell, turned,
};
use vstd::prelude::*;

verus! {

/// The number of columns of the field.
pub const BOARD_WIDTH: usize = 10;

/// The number of rows of the field, the hidden ones included.
pub const BOARD_HEIGHT: usize = 40;

/// The contents of a field as a mathematical value: 40 rows of 10 cells each.
pub type Field = Seq<Seq<Mino>>;

/// Whether `field` has the dimensions of a field.
pub open spec fn field_wf(field: Field) -> bool {
    &&& field.len() == BOARD_HEIGHT
    &&& forall|y: int| 0 <= y < BOARD_HEIGHT ==> (#[trigger] field[y]).len() == BOARD_WIDTH
}

/// A row without any piece on it.
pub open spec fn empty_row() -> Seq<Mino> {
    Seq::new(BOARD_WIDTH as nat, |x: int| Mino::Empty)
}

/// The field without any piece on it.
pub open spec fn empty_field() -> Field {
    Seq::new(BOARD_HEIGHT as nat, |y: int| empty_row())
}

/// Whether row `y`, column `x` is a cell of the field and is empty.
pub open spec fn cell_free(field: Field, y: int, x: int) -> bool {
    &&& 0 <= y < BOARD_HEIGHT
    &&& 0 <= x < BOARD_WIDTH
    &&& field[y][x] == Mino::Empty
}

/// Whether the piece can stand where it is: every cell that it occupies is a
/// cell of the field, and is empty.
pub open spec fn fits(field: Field, piece: PieceView) -> bool {
    forall|y: int, x: int| #[trigger] piece.covers(y, x) ==> cell_free(field, y, x)
}

/// The field with the piece's cells written into it, in the piece's colour.
pub open spec fn placed(field: Field, piece: PieceView) -> Field {
    Seq::new(
        BOARD_HEIGHT as nat,
        |y: int|
            Seq::new(
                BOARD_WIDTH as nat,
                |x: int|
                    if piece.covers(y, x) {
                        piece.kind
                    } else {
                        field[y][x]
                    },
            ),
    )
}

/// How many positions in a row, counted from where the piece stands and going
/// down one row at a time, the piece fits in.
pub open spec fn free_fall(field: Field, piece: PieceView) -> int
    decreases BOARD_HEIGHT - piece.y,
{
    if fits(field, piece) && piece.y < BOARD_HEIGHT {
        1 + free_fall(field, piece.shifted(0, 1))
    } else {
        0
    }
}

/// The piece where a drop leaves it: one row above the first position, from
/// its own downwards, in which it does not fit.
pub open spec fn dropped(field: Field, piece: PieceView) -> PieceView {
    piece.shifted(0, free_fall(field, piece) - 1)
}

/// Whether `to` is one quarter turn away from `from`. Only such pairs occur
/// in a rotation.
pub open spec fn is_quarter_turn(from: Rotation, to: Rotation) -> bool {
    to == from.spec_cw() || to == from.spec_ccw()
}

/// The offsets that are tried in turn, as `(columns, rows)`, when a piece
/// three cells wide (`J`, `L`, `S`, `Z` or `T`) turns from `from` to `to`.
pub open spec fn three_kicks(from: Rotation, to: Rotation) -> Seq<(int, int)> {
    match (from, to) {
        (Rotation::Zero, Rotation::Right) | (Rotation::Two, Rotation::Right) => seq![
            (0, 0),
            (-1, 0),
            (-1, -1),
            (0, 2),
            (-1, 2),
        ],
        (Rotation::Right, Rotation::Zero) | (Rotation::Right, Rotation::Two) => seq![
            (0, 0),
            (1, 0),
            (1, 1),
            (0, -2),
            (1, -2),
        ],
        (Rotation::Zero, Rotation::Left) | (Rotation::Two, Rotation::Left) => seq![
            (0, 0),
            (1, 0),
            (1, -1),
            (0, 2),
            (1, 2),
        ],
        (Rotation::Left, Rotation::Zero) | (Rotation::Left, Rotation::Two) => seq![
            (0, 0),
            (-1, 0),
            (-1, 1),
            (0, -2),
            (-1, -2),
        ],
        _ => seq![],
    }
}

/// The offsets that are tried in turn, as `(columns, rows)`, when a piece of
/// kind `I` turns from `from` to `to`.
pub open spec fn i_kicks(from: Rotation, to: Rotation) -> Seq<(int, int)> {
    match (from, to) {
        (Rotation::Zero, Rotation::Right) | (Rotation::Left, Rotation::Two) => seq![
            (0, 0),
            (-2, 0),
            (1, 0),
            (-2, 1),
            (1, -2),
        ],
        (Rotation::Right, Rotation::Zero) | (Rotation::Two, Rotation::Left) => seq![
            (0, 0),
            (2, 0),
            (-1, 0),
            (2, -1),
            (-1, 2),
        ],
        (Rotation::Right, Rotation::Two) | (Rotation::Zero, Rotation::Left) => seq![
            (0, 0),
            (-1, 0),
            (2, 0),
            (-1, -2),
            (2, 1),
        ],
        (Rotation::Two, Rotation::Right) | (Rotation::Left, Rotation::Zero) => seq![
            (0, 0),
            (1, 0),
            (-2, 0),
            (1, 2),
            (-2, -1),
        ],
        _ => seq![],
    }
}

/// Whether a piece of this kind turns with one of the two kick tables. The
/// other kinds stay as they are when they are turned.
pub open spec fn kind_kicks(kind: Mino) -> bool {
    kind != Mino::O && kind.is_piece()
}

/// The kick table for a piece of the given kind.
pub open spec fn kicks_for(kind: Mino, from: Rotation, to: Rotation) -> Seq<(int, int)> {
    if kind == Mino::I {
        i_kicks(from, to)
    } else {
        three_kicks(from, to)
    }
}

/// The table of an array of offsets as a mathematical value.
pub open spec fn kicks_view(offsets: [(i8, i8); 5]) -> Seq<(int, int)> {
    Seq::new(5, |k: int| (offsets[k].0 as int, offsets[k].1 as int))
}

/// The index of the first offset, from index `start` on, at which the piece
/// fits; the length of the table if there is none.
pub open spec fn first_fit(field: Field, piece: PieceView, kicks: Seq<(int, int)>, start: int) -> int
    decreases kicks.len() - start,
{
    if start < 0 || start >= kicks.len() {
        kicks.len() as int
    } else if fits(field, piece.shifted(kicks[start].0, kicks[start].1)) {
        start
    } else {
        first_fit(field, piece, kicks, start + 1)
    }
}

/// What a rotation with wall kicks does to a piece: whether it succeeds, and
/// the piece after it. The turned piece is tried at each offset of its kick
/// table in turn and stays at the first at which it fits; if it fits at none,
/// the rotation fails and the piece is as before. A piece that has no kick
/// table always succeeds and stays as it is.
pub open spec fn kicked(field: Field, piece: PieceView, direction: Direction) -> (bool, PieceView) {
    if kind_kicks(piece.kind) {
        let to = piece.rotation.spec_rotate(direction);
        let kicks = kicks_for(piece.kind, piece.rotation, to);
        let goal = turned(piece, direction);
        let k = first_fit(field, goal, kicks, 0);
        if k < kicks.len() {
            (true, goal.shifted(kicks[k].0, kicks[k].1))
        } else {
            (false, piece)
        }
    } else {
        (true, piece)
    }
}

/// Whether no cell of the row is empty.
pub open spec fn row_full(row: Seq<Mino>) -> bool {
    forall|x: int| 0 <= x < row.len() ==> #[trigger] row[x] != Mino::Empty
}

/// The rows of `field` that are not full, in their order.
pub open spec fn kept_rows(field: Field) -> Field
    decreases field.len(),
{
    if field.len() == 0 {
        Seq::empty()
    } else if row_full(field.last()) {
        kept_rows(field.drop_last())
    } else {
        kept_rows(field.drop_last()).push(field.last())
    }
}

/// The number of full rows of `field`.
pub open spec fn full_rows(field: Field) -> int {
    field.len() - kept_rows(field).len()
}

/// The field after its full rows are removed: the rows that are not full keep
/// their order and stand at the bottom, below as many empty rows as there were
/// full ones.
pub open spec fn cleared(field: Field) -> Field {
    Seq::new(full_rows(field) as nat, |y: int| empty_row()) + kept_rows(field)
}

/// The field moved up by `amount` rows: the rows that leave it at the top are
/// lost, and as many empty rows come in at the bottom.
pub open spec fn lifted(field: Field, amount: int) -> Field {
    Seq::new(
        BOARD_HEIGHT as nat,
        |y: int|
            if y + amount < BOARD_HEIGHT {
                field[y + amount]
            } else {
                empty_row()
            },
    )
}

/// Whether the topmost `amount` rows of the field are empty.
pub open spec fn top_rows_empty(field: Field, amount: int) -> bool {
    forall|y: int, x: int|
        0 <= y < amount && y < BOARD_HEIGHT && 0 <= x < BOARD_WIDTH ==> (#[trigger] field[y][x])
            == Mino::Empty
}

/// A row of garbage: every cell is `Garbage` but the one in column `slot`,
/// which is empty.
pub open spec fn garbage_row(slot: int) -> Seq<Mino> {
    Seq::new(
        BOARD_WIDTH as nat,
        |x: int|
            if x == slot {
                Mino::Empty
            } else {
                Mino::Garbage
            },
    )
}

/// Whether a piece fits depends only on the cells that it occupies.
pub proof fn lemma_fits_same_cells(field: Field, a: PieceView, b: PieceView)
    requires
        a.grid == b.grid,
        a.x == b.x,
        a.y == b.y,
    ensures
        fits(field, a) == fits(field, b),
        a.in_bounds() == b.in_bounds(),
        a.has_cell() == b.has_cell(),
{
    assert forall|y: int, x: int| a.covers(y, x) == b.covers(y, x) by {}
    if a.has_cell() {
        let (y, x) = choose|y: int, x: int| a.covers(y, x);
        assert(b.covers(y, x));
    }
    if b.has_cell() {
        let (y, x) = choose|y: int, x: int| b.covers(y, x);
        assert(a.covers(y, x));
    }
    if fits(field, a) {
        assert forall|y: int, x: int| #[trigger] b.covers(y, x) implies cell_free(field, y, x) by {
            assert(a.covers(y, x));
        }
    }
    if fits(field, b) {
        assert forall|y: int, x: int| #[trigger] a.covers(y, x) implies cell_free(field, y, x) by {
            assert(b.covers(y, x));
        }
    }
    if a.in_bounds() {
        assert forall|y: int, x: int| #[trigger] b.covers(y, x) implies 0 <= y < BOARD_HEIGHT
            && 0 <= x < BOARD_WIDTH by {
            assert(a.covers(y, x));
        }
    }
    if b.in_bounds() {
        assert forall|y: int, x: int| #[trigger] a.covers(y, x) implies 0 <= y < BOARD_HEIGHT
            && 0 <= x < BOARD_WIDTH by {
            assert(b.covers(y, x));
        }
    }
}

/// A piece that occupies a cell and fits stands above the bottom of the field.
pub proof fn lemma_fits_above_bottom(field: Field, piece: PieceView)
    requires
        piece.has_cell(),
        fits(field, piece),
    ensures
        piece.y < BOARD_HEIGHT,
{
    let (y, x) = choose|y: int, x: int| piece.covers(y, x);
    assert(piece.covers(y, x));
}

/// `free_fall` counts exactly the positions that fit: the piece fits in each
/// of the first `free_fall` positions, and not in the one after them.
pub proof fn lemma_free_fall(field: Field, piece: PieceView)
    requires
        piece.has_cell(),
    ensures
        0 <= free_fall(field, piece),
        forall|k: int|
            0 <= k < free_fall(field, piece) ==> fits(field, #[trigger] piece.shifted(0, k)),
        !fits(field, piece.shifted(0, free_fall(field, piece))),
    decreases BOARD_HEIGHT - piece.y,
{
    assert(piece.shifted(0, 0) == piece);
    if fits(field, piece) {
        lemma_fits_above_bottom(field, piece);
        let next = piece.shifted(0, 1);
        let (y, x) = choose|y: int, x: int| piece.covers(y, x);
        assert(next.covers(y + 1, x));
        lemma_free_fall(field, next);
        assert forall|k: int| 0 <= k < free_fall(field, piece) implies fits(
            field,
            #[trigger] piece.shifted(0, k),
        ) by {
            if k > 0 {
                assert(next.shifted(0, k - 1) == piece.shifted(0, k));
            }
        }
        assert(next.shifted(0, free_fall(field, next)) == piece.shifted(
            0,
            free_fall(field, piece),
        ));
    }
}

/// Where a drop leaves a piece that has a cell: as far down as the piece
/// fits, or one row up if it does not fit where it stands. In either case the
/// piece cannot go one row further down from there.
pub proof fn lemma_dropped(field: Field, piece: PieceView)
    requires
        piece.has_cell(),
    ensures
        dropped(field, piece).y >= piece.y - 1,
        fits(field, piece) ==> fits(field, dropped(field, piece)) && dropped(field, piece).y
            >= piece.y,
        !fits(field, piece) ==> dropped(field, piece) == piece.shifted(0, -1),
        !fits(field, dropped(field, piece).shifted(0, 1)),
        dropped(field, piece).has_cell(),
{
    lemma_free_fall(field, piece);
    let fall = free_fall(field, piece);
    lemma_shifted_covers(piece, 0, fall - 1);
    assert(dropped(field, piece).shifted(0, 1) == piece.shifted(0, fall));
    if fits(field, piece) {
        assert(piece.shifted(0, 0) == piece);
        if fall == 0 {
            assert(false);
        }
        assert(fits(field, piece.shifted(0, fall - 1)));
    } else {
        assert(piece.shifted(0, 0) == piece);
        if fall > 0 {
            assert(fits(field, piece.shifted(0, 0)));
        }
    }
}

/// A piece that occupies a cell and fits lies on the field, so its offset is
/// at most three cells to the left of the field or above it.
pub proof fn lemma_fits_range(field: Field, piece: PieceView)
    requires
        grid_is_square(piece.grid),
        piece.has_cell(),
        fits(field, piece),
    ensures
        piece.in_bounds(),
        -3 <= piece.x <= 9,
        -3 <= piece.y <= 39,
{
    let (y, x) = choose|y: int, x: int| piece.covers(y, x);
    assert(piece.covers(y, x));
    assert(piece.grid[y - piece.y].len() == piece.grid.len());
}

/// A piece fits wherever its whole grid lies on empty cells of the field.
pub proof fn lemma_fits_in_free_box(field: Field, piece: PieceView)
    requires
        grid_is_square(piece.grid),
        forall|y: int, x: int|
            piece.y <= y < piece.y + piece.grid.len() && piece.x <= x < piece.x
                + piece.grid.len() ==> #[trigger] cell_free(field, y, x),
    ensures
        fits(field, piece),
{
    assert forall|y: int, x: int| #[trigger] piece.covers(y, x) implies cell_free(field, y, x) by {
        assert(piece.grid[y - piece.y].len() == piece.grid.len());
    }
}

/// On the empty field a piece fits wherever its whole grid lies on the field.
pub proof fn lemma_fits_on_empty_field(piece: PieceView)
    requires
        grid_is_square(piece.grid),
        0 <= piece.x,
        piece.x + piece.grid.len() <= BOARD_WIDTH,
        0 <= piece.y,
        piece.y + piece.grid.len() <= BOARD_HEIGHT,
    ensures
        fits(empty_field(), piece),
{
    lemma_fits_in_free_box(empty_field(), piece);
}

/// Writing a piece of one of the seven kinds into a field takes no room away
/// that was not there: where a piece did not fit before, it does not fit
/// after.
pub proof fn lemma_placed_keeps_blocked(field: Field, written: PieceView, piece: PieceView)
    requires
        written.kind != Mino::Empty,
        !fits(field, piece),
    ensures
        !fits(placed(field, written), piece),
{
    let (y, x) = choose|y: int, x: int| piece.covers(y, x) && !cell_free(field, y, x);
    assert(piece.covers(y, x));
    assert(!cell_free(placed(field, written), y, x));
}

/// Writing a piece into a field gives a field.
pub proof fn lemma_placed_wf(field: Field, written: PieceView)
    ensures
        field_wf(placed(field, written)),
{
}

/// Each kick table starts with the offset `(0, 0)`: a rotation first tries the
/// piece where it stands.
pub proof fn lemma_kicks_start_in_place(kind: Mino, from: Rotation, direction: Direction)
    ensures
        kicks_for(kind, from, from.spec_rotate(direction)).len() == 5,
        kicks_for(kind, from, from.spec_rotate(direction))[0] == (0int, 0int),
{
}

/// `first_fit` finds the first offset at which the piece fits: the piece fits
/// at the offset found, if one is found, and at none before it.
pub proof fn lemma_first_fit(field: Field, piece: PieceView, kicks: Seq<(int, int)>, start: int)
    requires
        0 <= start <= kicks.len(),
    ensures
        start <= first_fit(field, piece, kicks, start) <= kicks.len(),
        first_fit(field, piece, kicks, start) < kicks.len() ==> fits(
            field,
            piece.shifted(
                kicks[first_fit(field, piece, kicks, start)].0,
                kicks[first_fit(field, piece, kicks, start)].1,
            ),
        ),
        forall|k: int|
            start <= k < first_fit(field, piece, kicks, start) ==> !fits(
                field,
                piece.shifted((#[trigger] kicks[k]).0, kicks[k].1),
            ),
    decreases kicks.len() - start,
{
    if start < kicks.len() && !fits(field, piece.shifted(kicks[start].0, kicks[start].1)) {
        lemma_first_fit(field, piece, kicks, start + 1);
    }
}

/// Each offset of the kick tables moves a piece by at most two cells.
pub proof fn lemma_kicks_small(kind: Mino, from: Rotation, to: Rotation)
    ensures
        forall|k: int|
            0 <= k < kicks_for(kind, from, to).len() ==> -2 <= (#[trigger] kicks_for(
                kind,
                from,
                to,
            )[k]).0 <= 2 && -2 <= kicks_for(kind, from, to)[k].1 <= 2,
{
}

/// What a rotation leaves is a piece as the one it was given: of the same
/// kind, with a square grid, and with a cell if that had one, and at most two
/// cells away from where it was. After a rotation that succeeded on a piece
/// with a kick table, the piece fits.
pub proof fn lemma_kicked(field: Field, piece: PieceView, direction: Direction)
    requires
        grid_is_square(piece.grid),
    ensures
        kicked(field, piece, direction).1.kind == piece.kind,
        grid_is_square(kicked(field, piece, direction).1.grid),
        kicked(field, piece, direction).1.has_cell() == piece.has_cell(),
        !kind_kicks(piece.kind) ==> kicked(field, piece, direction) == (true, piece),
        kind_kicks(piece.kind) && kicked(field, piece, direction).0 ==> fits(
            field,
            kicked(field, piece, direction).1,
        ),
        !kicked(field, piece, direction).0 ==> kicked(field, piece, direction).1 == piece,
        piece.x - 2 <= kicked(field, piece, direction).1.x <= piece.x + 2,
        piece.y - 2 <= kicked(field, piece, direction).1.y <= piece.y + 2,
{
    if kind_kicks(piece.kind) {
        let to = piece.rotation.spec_rotate(direction);
        let kicks = kicks_for(piece.kind, piece.rotation, to);
        lemma_kicks_small(piece.kind, piece.rotation, to);
        let goal = turned(piece, direction);
        lemma_first_fit(field, goal, kicks, 0);
        lemma_turned_has_cell(piece, direction);
        let k = first_fit(field, goal, kicks, 0);
        if k < kicks.len() {
            lemma_shifted_covers(goal, kicks[k].0, kicks[k].1);
        }
    }
}

/// There are never more rows kept than there are rows.
pub proof fn lemma_kept_rows_len(field: Field)
    ensures
        kept_rows(field).len() <= field.len(),
        0 <= full_rows(field) <= field.len(),
    decreases field.len(),
{
    if field.len() > 0 {
        lemma_kept_rows_len(field.drop_last());
    }
}

/// None of the rows kept is full, and a field without a full row keeps all
/// its rows.
pub proof fn lemma_kept_rows(field: Field)
    ensures
        forall|y: int| 0 <= y < kept_rows(field).len() ==> !row_full(#[trigger] kept_rows(field)[y]),
        (forall|y: int| 0 <= y < field.len() ==> !row_full(#[trigger] field[y])) ==> kept_rows(
            field,
        ) == field,
    decreases field.len(),
{
    if field.len() > 0 {
        let rest = field.drop_last();
        lemma_kept_rows(rest);
        assert forall|y: int| 0 <= y < kept_rows(field).len() implies !row_full(
            #[trigger] kept_rows(field)[y],
        ) by {
            if !row_full(field.last()) && y < kept_rows(rest).len() {
                assert(kept_rows(field)[y] == kept_rows(rest)[y]);
            }
        }
        if forall|y: int| 0 <= y < field.len() ==> !row_full(#[trigger] field[y]) {
            assert forall|y: int| 0 <= y < rest.len() implies !row_full(#[trigger] rest[y]) by {
                assert(rest[y] == field[y]);
            }
            assert(!row_full(field[field.len() - 1]));
            assert(kept_rows(field) =~= field);
        }
    } else {
        assert(kept_rows(field) =~= field);
    }
}

/// The rows kept have the width of the rows they come from.
pub proof fn lemma_kept_rows_sized(field: Field)
    requires
        forall|y: int| 0 <= y < field.len() ==> (#[trigger] field[y]).len() == BOARD_WIDTH,
    ensures
        forall|y: int|
            0 <= y < kept_rows(field).len() ==> (#[trigger] kept_rows(field)[y]).len()
                == BOARD_WIDTH,
    decreases field.len(),
{
    if field.len() > 0 {
        let rest = field.drop_last();
        assert forall|y: int| 0 <= y < rest.len() implies (#[trigger] rest[y]).len()
            == BOARD_WIDTH by {
            assert(rest[y] == field[y]);
        }
        lemma_kept_rows_sized(rest);
        assert forall|y: int| 0 <= y < kept_rows(field).len() implies (#[trigger] kept_rows(
            field,
        )[y]).len() == BOARD_WIDTH by {
            if !row_full(field.last()) && y < kept_rows(rest).len() {
                assert(kept_rows(field)[y] == kept_rows(rest)[y]);
            }
        }
    }
}

/// A drop leaves a piece that fits where it stands, and one row further
/// down, where a drop from that row leaves it.
pub proof fn lemma_dropped_from_above(field: Field, piece: PieceView)
    requires
        piece.has_cell(),
        fits(field, piece),
        fits(field, piece.shifted(0, 1)),
    ensures
        dropped(field, piece) == dropped(field, piece.shifted(0, 1)),
{
    lemma_fits_above_bottom(field, piece);
    let next = piece.shifted(0, 1);
    assert(next.shifted(0, free_fall(field, next) - 1) == piece.shifted(
        0,
        free_fall(field, piece) - 1,
    ));
}

} // verus!
