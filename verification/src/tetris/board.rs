//! The playing field and the operations on it.

use super::field::{
    BOARD_HEIGHT, BOARD_WIDTH, Field, cell_free, cleared, dropped, empty_field, empty_row,
    first_fit, fits, free_fall, full_rows, garbage_row, i_kicks, is_quarter_turn, kept_rows, kicked,
    kicks_for, kicks_view, kind_kicks, lemma_dropped, lemma_fits_above_bottom,
    lemma_fits_same_cells, lemma_free_fall, lemma_kept_rows, lemma_kept_rows_len, lemma_kicked,
    lifted, placed, row_full, three_kicks, top_rows_empty,
};
use super::piece::{Direction, Mino, Rotation, Tetrimino, lemma_has_cell_anywhere, turned};
use vstd::prelude::*;

verus! {

/// The playing field.
#[derive(Debug)]
pub struct Board {
    pub buffer: [[Mino; 10]; 40],
}

impl View for Board {
    type V = Field;

    open spec fn view(&self) -> Field {
        Seq::new(BOARD_HEIGHT as nat, |y: int| self.buffer[y]@)
    }
}

/// A row without any piece on it.
fn blank_row() -> (row: [Mino; 10])
    ensures
        row@ == empty_row(),
{
    let row = [
        Mino::Empty,
        Mino::Empty,
        Mino::Empty,
        Mino::Empty,
        Mino::Empty,
        Mino::Empty,
        Mino::Empty,
        Mino::Empty,
        Mino::Empty,
        Mino::Empty,
    ];
    assert(row@ =~= empty_row());
    row
}

impl Default for Board {
    fn default() -> (r: Self)
        ensures
            r@ == empty_field(),
    {
        let row = blank_row();
        let mut r = Board { buffer: [row;40] };
        // Each row is written once more, so that the proof knows it.
        let mut y: usize = 0;
        while y < 40
            invariant
                y <= 40,
                row@ == empty_row(),
                forall|j: int| 0 <= j < y ==> #[trigger] r.buffer@[j] == row,
            decreases 40 - y,
        {
            r.buffer[y] = row;
            y += 1;
        }
        proof {
            assert forall|y: int| 0 <= y < BOARD_HEIGHT implies #[trigger] r@[y] == empty_row() by {
                assert(r.buffer@[y] == row);
            }
            assert(r@ =~= empty_field());
        }
        r
    }
}

fn row_is_full(row: &[Mino; 10]) -> (full: bool)
    ensures
        full == row_full(row@),
{
    let mut x: usize = 0;
    while x < 10
        invariant
            x <= 10,
            forall|j: int| 0 <= j < x ==> #[trigger] row@[j] != Mino::Empty,
        decreases 10 - x,
    {
        if row[x] == Mino::Empty {
            return false;
        }
        x += 1;
    }
    true
}

fn row_is_empty(row: &[Mino; 10]) -> (empty: bool)
    ensures
        empty == (forall|x: int| 0 <= x < BOARD_WIDTH ==> #[trigger] row@[x] == Mino::Empty),
{
    let mut x: usize = 0;
    while x < 10
        invariant
            x <= 10,
            forall|j: int| 0 <= j < x ==> #[trigger] row@[j] == Mino::Empty,
        decreases 10 - x,
    {
        if row[x] != Mino::Empty {
            return false;
        }
        x += 1;
    }
    true
}

impl Board {
    /// Bakes the piece's cells into the field. A piece whose offset lies above
    /// the field leaves the field as it is.
    pub fn place(&mut self, tetrimino: &Tetrimino)
        requires
            tetrimino.wf(),
            tetrimino.offset_y < 0 || tetrimino@.in_bounds(),
        ensures
            tetrimino.offset_y < 0 ==> final(self)@ == old(self)@,
            tetrimino.offset_y >= 0 ==> final(self)@ == placed(old(self)@, tetrimino@),
    {
        if tetrimino.offset_y < 0 {
            return ;
        }
        let ghost piece = tetrimino@;
        let n = tetrimino.grid.len();
        let mut gy: usize = 0;
        while gy < n
            invariant
                tetrimino.wf(),
                tetrimino@ == piece,
                piece.in_bounds(),
                n == tetrimino.grid.len(),
                gy <= n,
                forall|y: int, x: int|
                    0 <= y < BOARD_HEIGHT && 0 <= x < BOARD_WIDTH ==> #[trigger] self.buffer[y][x]
                        == if piece.covers(y, x) && y - piece.y < gy {
                        piece.kind
                    } else {
                        old(self).buffer[y][x]
                    },
            decreases n - gy,
        {
            let mut gx: usize = 0;
            while gx < n
                invariant
                    tetrimino.wf(),
                    tetrimino@ == piece,
                    piece.in_bounds(),
                    n == tetrimino.grid.len(),
                    gy < n,
                    gx <= n,
                    forall|y: int, x: int|
                        0 <= y < BOARD_HEIGHT && 0 <= x < BOARD_WIDTH
                            ==> #[trigger] self.buffer[y][x] == if piece.covers(y, x) && (y
                            - piece.y < gy || (y - piece.y == gy && x - piece.x < gx)) {
                            piece.kind
                        } else {
                            old(self).buffer[y][x]
                        },
                decreases n - gx,
            {
                assert(piece.grid[gy as int].len() == n);
                if tetrimino.grid[gy][gx] {
                    assert(piece.covers(piece.y + gy, piece.x + gx));
                    let y = (gy as i16 + tetrimino.offset_y as i16) as usize;
                    let x = (gx as i16 + tetrimino.offset_x as i16) as usize;
                    self.buffer[y][x] = tetrimino.kind;
                }
                gx += 1;
            }
            gy += 1;
        }
        proof {
            assert forall|y: int| 0 <= y < BOARD_HEIGHT implies #[trigger] self@[y] =~= placed(
                old(self)@,
                piece,
            )[y] by {}
            assert(self@ =~= placed(old(self)@, piece));
        }
    }

    /// Whether some cell that the piece occupies is taken on the field.
    fn check_collisions(&self, tetrimino: &Tetrimino) -> (hit: bool)
        requires
            tetrimino.wf(),
            tetrimino@.in_bounds(),
        ensures
            hit == !fits(self@, tetrimino@),
    {
        let ghost piece = tetrimino@;
        let n = tetrimino.grid.len();
        let mut gy: usize = 0;
        while gy < n
            invariant
                tetrimino.wf(),
                tetrimino@ == piece,
                piece.in_bounds(),
                n == tetrimino.grid.len(),
                gy <= n,
                forall|y: int, x: int|
                    #[trigger] piece.covers(y, x) && y - piece.y < gy ==> cell_free(self@, y, x),
            decreases n - gy,
        {
            let mut gx: usize = 0;
            while gx < n
                invariant
                    tetrimino.wf(),
                    tetrimino@ == piece,
                    piece.in_bounds(),
                    n == tetrimino.grid.len(),
                    gy < n,
                    gx <= n,
                    forall|y: int, x: int|
                        #[trigger] piece.covers(y, x) && (y - piece.y < gy || (y - piece.y == gy
                            && x - piece.x < gx)) ==> cell_free(self@, y, x),
                decreases n - gx,
            {
                assert(piece.grid[gy as int].len() == n);
                if tetrimino.grid[gy][gx] {
                    assert(piece.covers(piece.y + gy, piece.x + gx));
                    let y = (gy as i16 + tetrimino.offset_y as i16) as usize;
                    let x = (gx as i16 + tetrimino.offset_x as i16) as usize;
                    if self.buffer[y][x] != Mino::Empty {
                        return true;
                    }
                }
                gx += 1;
            }
            gy += 1;
        }
        false
    }

    /// Whether some cell that the piece occupies lies off the field.
    fn check_oob(tetrimino: &Tetrimino) -> (oob: bool)
        requires
            tetrimino.wf(),
        ensures
            oob == !tetrimino@.in_bounds(),
    {
        let ghost piece = tetrimino@;
        let n = tetrimino.grid.len();
        let mut gy: usize = 0;
        while gy < n
            invariant
                tetrimino.wf(),
                tetrimino@ == piece,
                n == tetrimino.grid.len(),
                gy <= n,
                forall|y: int, x: int|
                    #[trigger] piece.covers(y, x) && y - piece.y < gy ==> 0 <= y < BOARD_HEIGHT
                        && 0 <= x < BOARD_WIDTH,
            decreases n - gy,
        {
            let mut gx: usize = 0;
            while gx < n
                invariant
                    tetrimino.wf(),
                    tetrimino@ == piece,
                    n == tetrimino.grid.len(),
                    gy < n,
                    gx <= n,
                    forall|y: int, x: int|
                        #[trigger] piece.covers(y, x) && (y - piece.y < gy || (y - piece.y == gy
                            && x - piece.x < gx)) ==> 0 <= y < BOARD_HEIGHT && 0 <= x
                            < BOARD_WIDTH,
                decreases n - gx,
            {
                assert(piece.grid[gy as int].len() == n);
                if tetrimino.grid[gy][gx] {
                    assert(piece.covers(piece.y + gy, piece.x + gx));
                    let x = gx as i16 + tetrimino.offset_x as i16;
                    if x < 0 || x >= 10 {
                        return true;
                    }
                    let y = gy as i16 + tetrimino.offset_y as i16;
                    if y < 0 || y >= 40 {
                        return true;
                    }
                }
                gx += 1;
            }
            gy += 1;
        }
        false
    }

    /// Whether the piece can stand where it is: every cell that it occupies
    /// is a cell of the field, and is empty.
    pub fn can_place(&self, tetrimino: &Tetrimino) -> (ok: bool)
        requires
            tetrimino.wf(),
        ensures
            ok == fits(self@, tetrimino@),
    {
        !Self::check_oob(tetrimino) && !self.check_collisions(tetrimino)
    }

    /// Lets the piece fall as far as it fits: it moves down while it fits,
    /// and then back up by one row.
    pub fn drop(&self, tetrimino: &mut Tetrimino)
        requires
            old(tetrimino).wf(),
            old(tetrimino)@.has_cell(),
            old(tetrimino).offset_y > i8::MIN,
        ensures
            final(tetrimino).wf(),
            final(tetrimino)@.has_cell(),
            final(tetrimino)@ == dropped(self@, old(tetrimino)@),
            final(tetrimino).offset_x == old(tetrimino).offset_x,
            fits(self@, old(tetrimino)@) ==> fits(self@, final(tetrimino)@) && old(
                tetrimino,
            ).offset_y <= final(tetrimino).offset_y < BOARD_HEIGHT,
            !fits(self@, old(tetrimino)@) ==> final(tetrimino).offset_y == old(tetrimino).offset_y
                - 1,
            forall|k: int|
                0 <= k <= final(tetrimino).offset_y - old(tetrimino).offset_y ==> fits(
                    self@,
                    #[trigger] old(tetrimino)@.shifted(0, k),
                ),
            !fits(self@, final(tetrimino)@.shifted(0, 1)),
    {
        let ghost start = tetrimino@;
        proof {
            lemma_free_fall(self@, start);
            lemma_dropped(self@, start);
            if fits(self@, start) {
                lemma_fits_above_bottom(self@, dropped(self@, start));
            }
        }
        while self.can_place(tetrimino)
            invariant
                tetrimino.wf(),
                start.has_cell(),
                start.y > i8::MIN,
                tetrimino.offset_y >= start.y,
                tetrimino@ == start.shifted(0, tetrimino.offset_y - start.y),
                tetrimino.offset_y - start.y <= free_fall(self@, start),
                forall|k: int|
                    0 <= k < free_fall(self@, start) ==> fits(
                        self@,
                        #[trigger] start.shifted(0, k),
                    ),
                !fits(self@, start.shifted(0, free_fall(self@, start))),
            decreases BOARD_HEIGHT - tetrimino.offset_y,
        {
            proof {
                let (y, x) = choose|y: int, x: int| start.covers(y, x);
                assert(tetrimino@.covers(y + tetrimino.offset_y - start.y, x));
                lemma_fits_above_bottom(self@, tetrimino@);
            }
            tetrimino.offset_y += 1;
        }
        tetrimino.offset_y -= 1;
    }

    /// Moves the piece by `offset` columns if it fits there, and tells whether
    /// it did.
    pub fn move_x(&self, tetrimino: &mut Tetrimino, offset: i8) -> (moved: bool)
        requires
            old(tetrimino).wf(),
            i8::MIN <= old(tetrimino).offset_x + offset <= i8::MAX,
        ensures
            final(tetrimino).wf(),
            moved == fits(self@, old(tetrimino)@.shifted(offset as int, 0)),
            moved ==> final(tetrimino)@ == old(tetrimino)@.shifted(offset as int, 0),
            !moved ==> final(tetrimino)@ == old(tetrimino)@,
            final(tetrimino)@.has_cell() == old(tetrimino)@.has_cell(),
    {
        proof {
            lemma_has_cell_anywhere(tetrimino@, tetrimino@.shifted(offset as int, 0));
        }
        tetrimino.offset_x += offset;
        if self.can_place(tetrimino) {
            return true;
        }
        tetrimino.offset_x -= offset;
        false
    }

    /// Moves the piece down by one row if it fits there, and tells whether it
    /// did.
    pub fn move_down(&self, tetrimino: &mut Tetrimino) -> (moved: bool)
        requires
            old(tetrimino).wf(),
            old(tetrimino).offset_y < i8::MAX,
        ensures
            final(tetrimino).wf(),
            moved == fits(self@, old(tetrimino)@.shifted(0, 1)),
            moved ==> final(tetrimino)@ == old(tetrimino)@.shifted(0, 1),
            !moved ==> final(tetrimino)@ == old(tetrimino)@,
            final(tetrimino)@.has_cell() == old(tetrimino)@.has_cell(),
    {
        proof {
            lemma_has_cell_anywhere(tetrimino@, tetrimino@.shifted(0, 1));
        }
        tetrimino.offset_y += 1;
        if self.can_place(tetrimino) {
            return true;
        }
        tetrimino.offset_y -= 1;
        false
    }

    /// Whether the piece fits one row further down. The piece is left as it
    /// was.
    pub fn can_move_down(&self, tetrimino: &mut Tetrimino) -> (can_move: bool)
        requires
            old(tetrimino).wf(),
            old(tetrimino).offset_y < i8::MAX,
        ensures
            final(tetrimino).wf(),
            can_move == fits(self@, old(tetrimino)@.shifted(0, 1)),
            final(tetrimino)@ == old(tetrimino)@,
    {
        tetrimino.offset_y += 1;
        let can_move = self.can_place(tetrimino);
        tetrimino.offset_y -= 1;
        can_move
    }
}

impl Board {
    fn get_three_offsets(from: Rotation, to: Rotation) -> (r: [(i8, i8); 5])
        requires
            is_quarter_turn(from, to),
        ensures
            kicks_view(r) == three_kicks(from, to),
    {
        let r: [(i8, i8); 5] = match (from, to) {
            (Rotation::Zero, Rotation::Right) | (Rotation::Two, Rotation::Right) => [
                (0, 0),
                (-1, 0),
                (-1, -1),
                (0, 2),
                (-1, 2),
            ],
            (Rotation::Right, Rotation::Zero) | (Rotation::Right, Rotation::Two) => [
                (0, 0),
                (1, 0),
                (1, 1),
                (0, -2),
                (1, -2),
            ],
            (Rotation::Zero, Rotation::Left) | (Rotation::Two, Rotation::Left) => [
                (0, 0),
                (1, 0),
                (1, -1),
                (0, 2),
                (1, 2),
            ],
            (Rotation::Left, Rotation::Zero) | (Rotation::Left, Rotation::Two) => [
                (0, 0),
                (-1, 0),
                (-1, 1),
                (0, -2),
                (-1, -2),
            ],
            _ => vstd::pervasive::unreached(),
        };
        assert(kicks_view(r) =~= three_kicks(from, to));
        r
    }

    fn get_i_offsets(from: Rotation, to: Rotation) -> (r: [(i8, i8); 5])
        requires
            is_quarter_turn(from, to),
        ensures
            kicks_view(r) == i_kicks(from, to),
    {
        let r: [(i8, i8); 5] = match (from, to) {
            (Rotation::Zero, Rotation::Right) | (Rotation::Left, Rotation::Two) => [
                (0, 0),
                (-2, 0),
                (1, 0),
                (-2, 1),
                (1, -2),
            ],
            (Rotation::Right, Rotation::Zero) | (Rotation::Two, Rotation::Left) => [
                (0, 0),
                (2, 0),
                (-1, 0),
                (2, -1),
                (-1, 2),
            ],
            (Rotation::Right, Rotation::Two) | (Rotation::Zero, Rotation::Left) => [
                (0, 0),
                (-1, 0),
                (2, 0),
                (-1, -2),
                (2, 1),
            ],
            (Rotation::Two, Rotation::Right) | (Rotation::Left, Rotation::Zero) => [
                (0, 0),
                (1, 0),
                (-2, 0),
                (1, 2),
                (-2, -1),
            ],
            _ => vstd::pervasive::unreached(),
        };
        assert(kicks_view(r) =~= i_kicks(from, to));
        r
    }

    /// Turns the piece a quarter with wall kicks, and tells whether the
    /// rotation succeeded. On failure the piece is left as it was.
    pub fn rotate(&self, tetrimino: &mut Tetrimino, direction: Direction) -> (ok: bool)
        requires
            old(tetrimino).wf(),
            i8::MIN + 2 <= old(tetrimino).offset_x <= i8::MAX - 2,
            i8::MIN + 2 <= old(tetrimino).offset_y <= i8::MAX - 2,
        ensures
            final(tetrimino).wf(),
            (ok, final(tetrimino)@) == kicked(self@, old(tetrimino)@, direction),
            final(tetrimino)@.has_cell() == old(tetrimino)@.has_cell(),
            !ok ==> final(tetrimino)@ == old(tetrimino)@,
            ok && kind_kicks(old(tetrimino).kind) ==> fits(self@, final(tetrimino)@),
            old(tetrimino).offset_x - 2 <= final(tetrimino).offset_x <= old(tetrimino).offset_x
                + 2,
            old(tetrimino).offset_y - 2 <= final(tetrimino).offset_y <= old(tetrimino).offset_y
                + 2,
    {
        proof {
            lemma_kicked(self@, tetrimino@, direction);
        }
        let to = tetrimino.rotation.rotate(direction);
        let offsets = match tetrimino.kind {
            Mino::J | Mino::L | Mino::S | Mino::Z | Mino::T => Self::get_three_offsets(
                tetrimino.rotation,
                to,
            ),
            Mino::I => Self::get_i_offsets(tetrimino.rotation, to),
            _ => { return true; },
        };
        let ghost kicks = kicks_for(tetrimino.kind, tetrimino.rotation, to);
        let ghost goal = turned(tetrimino@, direction);

        let mut clone = tetrimino.clone();
        clone.rotate_grid(direction);

        let mut i: usize = 0;
        while i < 5
            invariant
                i <= 5,
                kicks.len() == 5,
                kicks == kicks_view(offsets),
                tetrimino.wf(),
                *tetrimino == *old(tetrimino),
                kind_kicks(tetrimino.kind),
                to == tetrimino.rotation.spec_rotate(direction),
                kicks == kicks_for(tetrimino.kind, tetrimino.rotation, to),
                goal == turned(tetrimino@, direction),
                i8::MIN + 2 <= tetrimino.offset_x <= i8::MAX - 2,
                i8::MIN + 2 <= tetrimino.offset_y <= i8::MAX - 2,
                clone.wf(),
                clone@ == tetrimino@.with_grid_turned(direction),
                clone.offset_x == tetrimino.offset_x,
                clone.offset_y == tetrimino.offset_y,
                first_fit(self@, goal, kicks, 0) == first_fit(self@, goal, kicks, i as int),
            decreases 5 - i,
        {
            let (x, y) = offsets[i];
            assert(kicks[i as int] == (x as int, y as int));
            assert(-2 <= x <= 2 && -2 <= y <= 2);
            clone.offset_x += x;
            clone.offset_y += y;
            proof {
                lemma_fits_same_cells(self@, clone@, goal.shifted(x as int, y as int));
            }
            if !self.can_place(&clone) {
                clone.offset_x -= x;
                clone.offset_y -= y;
                i += 1;
                continue ;
            }
            proof {
                lemma_kicked(self@, tetrimino@, direction);
            }
            tetrimino.rotate_grid(direction);
            tetrimino.offset_x += x;
            tetrimino.offset_y += y;
            tetrimino.rotation = to;
            return true;
        }

        false
    }

    /// Removes every full row: the rows above it move down by one and an
    /// empty row comes in at the top. Returns the number of rows removed.
    pub fn clear_lines(&mut self) -> (count: u8)
        ensures
            count == full_rows(old(self)@),
            final(self)@ == cleared(old(self)@),
            forall|y: int| 0 <= y < BOARD_HEIGHT ==> !row_full(#[trigger] final(self)@[y]),
            (forall|y: int| 0 <= y < BOARD_HEIGHT ==> !row_full(#[trigger] old(self)@[y])) ==> count
                == 0 && final(self)@ == old(self)@,
    {
        let ghost before = self@;
        let mut count: u8 = 0;
        let mut i: usize = 0;
        assert(before.take(0) =~= Seq::empty());
        while i < 40
            invariant
                i <= 40,
                before == old(self)@,
                before.len() == BOARD_HEIGHT,
                count + kept_rows(before.take(i as int)).len() == i,
                forall|y: int| 0 <= y < count ==> (#[trigger] self.buffer@[y])@ == empty_row(),
                forall|y: int|
                    count <= y < i ==> (#[trigger] self.buffer@[y])@ == kept_rows(
                        before.take(i as int),
                    )[y - count],
                forall|y: int|
                    i <= y < BOARD_HEIGHT ==> (#[trigger] self.buffer@[y])@ == before[y],
            decreases 40 - i,
        {
            let ghost current = self.buffer@;
            let row = self.buffer[i];
            proof {
                assert(before.take(i + 1).drop_last() =~= before.take(i as int));
                assert(before.take(i + 1).last() == before[i as int]);
                assert(row@ == before[i as int]);
            }
            if row_is_full(&row) {
                count += 1;
                let mut j: usize = i;
                while j > 0
                    invariant
                        j <= i < 40,
                        current.len() == BOARD_HEIGHT,
                        forall|y: int| j < y <= i ==> #[trigger] self.buffer@[y] == current[y - 1],
                        forall|y: int|
                            0 <= y <= j || i < y < BOARD_HEIGHT ==> #[trigger] self.buffer@[y]
                                == current[y],
                    decreases j,
                {
                    let copy = self.buffer[j - 1];
                    self.buffer[j] = copy;
                    j -= 1;
                }
                self.buffer[0] = blank_row();
                assert forall|y: int| count <= y < i + 1 implies (#[trigger] self.buffer@[y])@
                    == kept_rows(before.take(i + 1))[y - count] by {
                    assert(self.buffer@[y] == current[y - 1]);
                }
            } else {
                assert forall|y: int| count <= y < i + 1 implies (#[trigger] self.buffer@[y])@
                    == kept_rows(before.take(i + 1))[y - count] by {
                    assert(self.buffer@[y] == current[y]);
                }
            }
            i += 1;
        }
        proof {
            assert(before.take(40) =~= before);
            assert forall|y: int| 0 <= y < BOARD_HEIGHT implies #[trigger] self@[y] == cleared(
                before,
            )[y] by {
                assert(self@[y] == self.buffer@[y]@);
            }
            assert(self@ =~= cleared(before));
            lemma_kept_rows(before);
            lemma_kept_rows_len(before);
            if forall|y: int| 0 <= y < BOARD_HEIGHT ==> !row_full(#[trigger] before[y]) {
                assert(cleared(before) =~= before);
            }
            assert(!row_full(empty_row())) by {
                assert(empty_row()[0] == Mino::Empty);
            }
        }
        count
    }

    /// Moves the whole field up by `amount` rows to make room at the bottom.
    /// Returns whether a cell that was not empty left the field at the top.
    pub fn push_up(&mut self, amount: u8) -> (overflow: bool)
        ensures
            overflow == !top_rows_empty(old(self)@, amount as int),
            final(self)@ == lifted(old(self)@, amount as int),
    {
        let amount = amount as usize;
        let mut overflow = false;
        let mut i: usize = 0;
        while i < 40 && i < amount
            invariant
                i <= 40,
                i <= amount,
                *self == *old(self),
                overflow == !top_rows_empty(self@, i as int),
            decreases 40 - i,
        {
            let row = self.buffer[i];
            assert(row@ == self@[i as int]);
            if !row_is_empty(&row) {
                overflow = true;
                proof {
                    let x = choose|x: int| 0 <= x < BOARD_WIDTH && row@[x] != Mino::Empty;
                    assert(self@[i as int][x] != Mino::Empty);
                }
            } else {
                assert forall|y: int, x: int|
                    0 <= y < i + 1 && y < BOARD_HEIGHT && 0 <= x < BOARD_WIDTH && top_rows_empty(
                        self@,
                        i as int,
                    ) implies (#[trigger] self@[y][x]) == Mino::Empty by {
                    if y == i {
                        assert(row@[x] == Mino::Empty);
                    }
                }
            }
            i += 1;
        }
        assert(top_rows_empty(self@, i as int) == top_rows_empty(self@, amount as int));
        let ghost before = self.buffer@;
        let mut i: usize = 0;
        while i < 40
            invariant
                i <= 40,
                before == old(self).buffer@,
                forall|y: int|
                    0 <= y < i ==> (#[trigger] self.buffer@[y])@ == lifted(
                        old(self)@,
                        amount as int,
                    )[y],
                forall|y: int| i <= y < BOARD_HEIGHT ==> #[trigger] self.buffer@[y] == before[y],
            decreases 40 - i,
        {
            if amount < 40 - i {
                let copy = self.buffer[i + amount];
                assert(copy == before[i + amount]);
                assert(old(self)@[i + amount] == before[i + amount]@);
                self.buffer[i] = copy;
            } else {
                self.buffer[i] = blank_row();
            }
            i += 1;
        }
        assert forall|y: int| 0 <= y < BOARD_HEIGHT implies #[trigger] self@[y] == lifted(
            old(self)@,
            amount as int,
        )[y] by {
            assert(self@[y] == self.buffer@[y]@);
        }
        assert(self@ =~= lifted(old(self)@, amount as int));
        overflow
    }

    /// Fills row `row` with garbage, leaving the cell in column `slot` empty.
    pub fn add_garbage(&mut self, row: u8, slot: u8)
        requires
            row < BOARD_HEIGHT,
            slot < BOARD_WIDTH,
        ensures
            final(self)@ == old(self)@.update(row as int, garbage_row(slot as int)),
    {
        let row = row as usize;
        let ghost before = self.buffer@;
        let mut i: usize = 0;
        while i < 10
            invariant
                i <= 10,
                row < 40,
                before == old(self).buffer@,
                forall|y: int|
                    0 <= y < BOARD_HEIGHT && y != row ==> #[trigger] self.buffer@[y] == before[y],
                forall|x: int| 0 <= x < i ==> #[trigger] self.buffer@[row as int]@[x] == Mino::Garbage,
            decreases 10 - i,
        {
            self.buffer[row][i] = Mino::Garbage;
            i += 1;
        }
        self.buffer[row][slot as usize] = Mino::Empty;
        assert(self.buffer@[row as int]@ =~= garbage_row(slot as int));
        assert forall|y: int| 0 <= y < BOARD_HEIGHT implies #[trigger] self@[y] == old(
            self,
        )@.update(row as int, garbage_row(slot as int))[y] by {
            assert(self@[y] == self.buffer@[y]@);
            assert(old(self)@[y] == before[y]@);
        }
        assert(self@ =~= old(self)@.update(row as int, garbage_row(slot as int)));
    }
}

} // verus!
