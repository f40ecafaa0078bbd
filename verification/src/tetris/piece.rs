//! The pieces: their kinds, their orientations and their shapes.
//!
//! A piece is an occupancy grid, square and at most 4 cells wide, together
//! with the offset of the grid's top-left corner on the field. Rows count
//! downwards.

use super::field::{BOARD_HEIGHT, BOARD_WIDTH, lemma_fits_same_cells};
use vstd::prelude::*;

verus! {

/// The colour of one cell, of the field or of a piece.
///
/// `Empty` marks a free cell. `Garbage` fills the rows that an opponent sends;
/// it never is the kind of a moving piece.
#[derive(Debug, Copy, Clone, PartialEq, Eq, Structural)]
pub enum Mino {
    Empty,
    I,
    O,
    J,
    L,
    S,
    Z,
    T,
    Garbage,
}

impl Default for Mino {
    fn default() -> (r: Self)
        ensures
            r == Mino::Empty,
    {
        Mino::Empty
    }
}

impl Mino {
    /// Whether this is one of the seven kinds a moving piece can have.
    pub open spec fn is_piece(self) -> bool {
        self != Mino::Empty && self != Mino::Garbage
    }
}

/// The four orientations of a piece, in clockwise order.
#[derive(Debug, Copy, Clone, PartialEq, Eq, Structural)]
pub enum Rotation {
    Zero,
    Right,
    Two,
    Left,
}

impl Default for Rotation {
    fn default() -> (r: Self)
        ensures
            r == Rotation::Zero,
    {
        Rotation::Zero
    }
}

/// The sense of a quarter turn.
#[derive(Debug, Copy, Clone, PartialEq, Eq, Structural)]
pub enum Direction {
    Cw,
    Ccw,
}

impl Direction {
    /// The opposite sense.
    pub open spec fn reversed(self) -> Direction {
        match self {
            Direction::Cw => Direction::Ccw,
            Direction::Ccw => Direction::Cw,
        }
    }
}

impl Rotation {
    /// The orientation one quarter turn clockwise from this one.
    pub open spec fn spec_cw(self) -> Rotation {
        match self {
            Rotation::Zero => Rotation::Right,
            Rotation::Right => Rotation::Two,
            Rotation::Two => Rotation::Left,
            Rotation::Left => Rotation::Zero,
        }
    }

    /// The orientation one quarter turn counter-clockwise from this one.
    pub open spec fn spec_ccw(self) -> Rotation {
        match self {
            Rotation::Zero => Rotation::Left,
            Rotation::Right => Rotation::Zero,
            Rotation::Two => Rotation::Right,
            Rotation::Left => Rotation::Two,
        }
    }

    /// The orientation one quarter turn from this one, in the given sense.
    pub open spec fn spec_rotate(self, direction: Direction) -> Rotation {
        match direction {
            Direction::Cw => self.spec_cw(),
            Direction::Ccw => self.spec_ccw(),
        }
    }

    fn cw(self) -> (r: Self)
        ensures
            r == self.spec_cw(),
    {
        match self {
            Rotation::Zero => Rotation::Right,
            Rotation::Right => Rotation::Two,
            Rotation::Two => Rotation::Left,
            Rotation::Left => Rotation::Zero,
        }
    }

    fn ccw(self) -> (r: Self)
        ensures
            r == self.spec_ccw(),
    {
        match self {
            Rotation::Zero => Rotation::Left,
            Rotation::Right => Rotation::Zero,
            Rotation::Two => Rotation::Right,
            Rotation::Left => Rotation::Two,
        }
    }

    /// Advances the orientation by one step of the cycle in the given sense.
    pub fn rotate(self, direction: Direction) -> (r: Self)
        ensures
            r == self.spec_rotate(direction),
    {
        match direction {
            Direction::Cw => self.cw(),
            Direction::Ccw => self.ccw(),
        }
    }
}

/// A square occupancy grid as a mathematical value: `grid[y][x]` tells whether
/// the cell in row `y` and column `x` belongs to the piece.
pub type Grid = Seq<Seq<bool>>;

/// Whether `grid` is square, with a side of at most 4.
pub open spec fn grid_is_square(grid: Grid) -> bool {
    &&& grid.len() <= 4
    &&& forall|i: int| 0 <= i < grid.len() ==> (#[trigger] grid[i]).len() == grid.len()
}

/// The grid turned a quarter clockwise: the cell at `(y, x)` comes from
/// `(n - 1 - x, y)`.
pub open spec fn grid_cw(grid: Grid) -> Grid {
    let n = grid.len() as int;
    Seq::new(n as nat, |y: int| Seq::new(n as nat, |x: int| grid[n - 1 - x][y]))
}

/// The grid turned a quarter counter-clockwise: the cell at `(y, x)` comes
/// from `(x, n - 1 - y)`.
pub open spec fn grid_ccw(grid: Grid) -> Grid {
    let n = grid.len() as int;
    Seq::new(n as nat, |y: int| Seq::new(n as nat, |x: int| grid[x][n - 1 - y]))
}

/// The grid turned a quarter in the given sense.
pub open spec fn grid_turned(grid: Grid, direction: Direction) -> Grid {
    match direction {
        Direction::Cw => grid_cw(grid),
        Direction::Ccw => grid_ccw(grid),
    }
}

/// The grid with which a piece of the given kind starts, in orientation
/// `Zero`. The two kinds that are no pieces have the empty grid.
pub open spec fn spawn_grid(kind: Mino) -> Grid {
    match kind {
        Mino::Empty | Mino::Garbage => seq![],
        Mino::O => seq![seq![true, true], seq![true, true]],
        Mino::I => seq![
            seq![false, false, false, false],
            seq![true, true, true, true],
            seq![false, false, false, false],
            seq![false, false, false, false],
        ],
        Mino::T => seq![
            seq![false, true, false],
            seq![true, true, true],
            seq![false, false, false],
        ],
        Mino::L => seq![
            seq![false, false, true],
            seq![true, true, true],
            seq![false, false, false],
        ],
        Mino::J => seq![
            seq![true, false, false],
            seq![true, true, true],
            seq![false, false, false],
        ],
        Mino::S => seq![
            seq![false, true, true],
            seq![true, true, false],
            seq![false, false, false],
        ],
        Mino::Z => seq![
            seq![true, true, false],
            seq![false, true, true],
            seq![false, false, false],
        ],
    }
}

/// A piece as a mathematical value.
pub struct PieceView {
    pub kind: Mino,
    pub rotation: Rotation,
    pub grid: Grid,
    /// The column of the field on which column 0 of the grid lies.
    pub x: int,
    /// The row of the field on which row 0 of the grid lies.
    pub y: int,
}

impl PieceView {
    /// A piece of the given kind as it is created, at the given offset.
    pub open spec fn fresh(kind: Mino, x: int, y: int) -> PieceView {
        PieceView { kind, rotation: Rotation::Zero, grid: spawn_grid(kind), x, y }
    }

    /// Whether the piece occupies the cell in row `y` and column `x` of the
    /// field.
    pub open spec fn covers(self, y: int, x: int) -> bool {
        let gy = y - self.y;
        let gx = x - self.x;
        &&& 0 <= gy < self.grid.len()
        &&& 0 <= gx < self.grid[gy].len()
        &&& self.grid[gy][gx]
    }

    /// Whether the piece occupies any cell at all.
    pub open spec fn has_cell(self) -> bool {
        exists|y: int, x: int| self.covers(y, x)
    }

    /// Whether every cell that the piece occupies lies on the field.
    pub open spec fn in_bounds(self) -> bool {
        forall|y: int, x: int| #[trigger]
            self.covers(y, x) ==> 0 <= y < BOARD_HEIGHT && 0 <= x < BOARD_WIDTH
    }

    /// The piece moved by `dx` columns to the right and `dy` rows down.
    pub open spec fn shifted(self, dx: int, dy: int) -> PieceView {
        PieceView { x: self.x + dx, y: self.y + dy, ..self }
    }

    /// The piece at the given offset.
    pub open spec fn at(self, x: int, y: int) -> PieceView {
        PieceView { x, y, ..self }
    }

    /// The piece with its grid turned a quarter, its orientation and its
    /// offset unchanged. A piece of kind `O` keeps its grid.
    pub open spec fn with_grid_turned(self, direction: Direction) -> PieceView {
        if self.kind == Mino::O {
            self
        } else {
            PieceView { grid: grid_turned(self.grid, direction), ..self }
        }
    }
}

/// The piece after a quarter turn in place: its grid is turned and its
/// orientation advanced.
pub open spec fn turned(piece: PieceView, direction: Direction) -> PieceView {
    PieceView {
        rotation: piece.rotation.spec_rotate(direction),
        ..piece.with_grid_turned(direction)
    }
}

/// The mathematical value of an occupancy grid held in vectors.
pub open spec fn grid_view(grid: &Vec<Vec<bool>>) -> Grid {
    Seq::new(grid@.len(), |y: int| grid@[y]@)
}

/// A piece: the one that falls, its ghost, a held piece or one that waits in
/// the queue.
#[derive(Debug)]
pub struct Tetrimino {
    pub kind: Mino,
    pub rotation: Rotation,
    pub grid: Vec<Vec<bool>>,
    pub offset_x: i8,
    pub offset_y: i8,
}

impl View for Tetrimino {
    type V = PieceView;

    open spec fn view(&self) -> PieceView {
        PieceView {
            kind: self.kind,
            rotation: self.rotation,
            grid: grid_view(&self.grid),
            x: self.offset_x as int,
            y: self.offset_y as int,
        }
    }
}

/// A copy of an occupancy grid.
fn copy_grid(grid: &Vec<Vec<bool>>) -> (r: Vec<Vec<bool>>)
    ensures
        grid_view(&r) == grid_view(grid),
{
    let mut rows: Vec<Vec<bool>> = Vec::new();
    let mut y: usize = 0;
    while y < grid.len()
        invariant
            y <= grid.len(),
            rows.len() == y,
            forall|i: int| 0 <= i < y ==> (#[trigger] rows@[i])@ == grid@[i]@,
        decreases grid.len() - y,
    {
        let mut row: Vec<bool> = Vec::new();
        let mut x: usize = 0;
        while x < grid[y].len()
            invariant
                y < grid.len(),
                x <= grid@[y as int].len(),
                row.len() == x,
                forall|j: int| 0 <= j < x ==> #[trigger] row@[j] == grid@[y as int]@[j],
            decreases grid@[y as int].len() - x,
        {
            row.push(grid[y][x]);
            x += 1;
        }
        assert(row@ =~= grid@[y as int]@);
        rows.push(row);
        y += 1;
    }
    assert(grid_view(&rows) =~= grid_view(grid));
    rows
}

impl Clone for Tetrimino {
    fn clone(&self) -> (r: Self)
        ensures
            r@ == self@,
            r.offset_x == self.offset_x,
            r.offset_y == self.offset_y,
    {
        Tetrimino {
            kind: self.kind,
            rotation: self.rotation,
            grid: copy_grid(&self.grid),
            offset_x: self.offset_x,
            offset_y: self.offset_y,
        }
    }
}

impl Tetrimino {
    /// The invariant of a piece: its grid is square, with a side of at most 4.
    pub open spec fn wf(&self) -> bool {
        grid_is_square(self@.grid)
    }

    /// Creates a piece of the given kind in orientation `Zero` at the given
    /// offset.
    pub fn new(kind: Mino, x: i8, y: i8) -> (r: Self)
        ensures
            r@ == PieceView::fresh(kind, x as int, y as int),
            r.wf(),
            kind.is_piece() ==> r@.has_cell(),
    {
        proof {
            if kind.is_piece() {
                lemma_fresh_has_cell(kind, x as int, y as int);
            }
        }
        let grid: Vec<Vec<bool>> = match kind {
            Mino::Empty | Mino::Garbage => Vec::new(),
            Mino::O => vec![vec![true, true], vec![true, true]],
            Mino::I => vec![
                vec![false, false, false, false],
                vec![true, true, true, true],
                vec![false, false, false, false],
                vec![false, false, false, false],
            ],
            Mino::T => vec![
                vec![false, true, false],
                vec![true, true, true],
                vec![false, false, false],
            ],
            Mino::L => vec![
                vec![false, false, true],
                vec![true, true, true],
                vec![false, false, false],
            ],
            Mino::J => vec![
                vec![true, false, false],
                vec![true, true, true],
                vec![false, false, false],
            ],
            Mino::S => vec![
                vec![false, true, true],
                vec![true, true, false],
                vec![false, false, false],
            ],
            Mino::Z => vec![
                vec![true, true, false],
                vec![false, true, true],
                vec![false, false, false],
            ],
        };
        proof {
            let g = grid_view(&grid);
            let s = spawn_grid(kind);
            assert(g.len() == s.len());
            assert forall|i: int| 0 <= i < g.len() implies g[i] =~= s[i] by {}
            assert(g =~= s);
        }
        Tetrimino { kind, rotation: Rotation::Zero, grid, offset_x: x, offset_y: y }
    }

    /// Turns the grid a quarter in the given sense. The orientation and the
    /// offset stay as they are.
    pub fn rotate_grid(&mut self, direction: Direction)
        requires
            old(self).wf(),
        ensures
            final(self)@ == old(self)@.with_grid_turned(direction),
            final(self).wf(),
            final(self)@.has_cell() == old(self)@.has_cell(),
            final(self).offset_x == old(self).offset_x,
            final(self).offset_y == old(self).offset_y,
    {
        proof {
            lemma_turned_has_cell(self@, direction);
            lemma_has_cell_anywhere(turned(self@, direction), self@.with_grid_turned(direction));
        }
        match direction {
            Direction::Cw => self.rotate_grid_cw(),
            Direction::Ccw => self.rotate_grid_ccw(),
        }
    }

    fn rotate_grid_cw(&mut self)
        requires
            old(self).wf(),
        ensures
            final(self)@ == old(self)@.with_grid_turned(Direction::Cw),
            final(self).wf(),
            final(self).offset_x == old(self).offset_x,
            final(self).offset_y == old(self).offset_y,
    {
        if self.kind == Mino::O {
            return ;
        }
        let n = self.grid.len();
        let mut rows: Vec<Vec<bool>> = Vec::new();
        let mut y: usize = 0;
        while y < n
            invariant
                self.wf(),
                n == self.grid.len(),
                y <= n,
                rows.len() == y,
                forall|i: int| 0 <= i < y ==> (#[trigger] rows@[i])@ == grid_cw(self@.grid)[i],
            decreases n - y,
        {
            let mut row: Vec<bool> = Vec::new();
            let mut x: usize = 0;
            while x < n
                invariant
                    self.wf(),
                    n == self.grid.len(),
                    y < n,
                    x <= n,
                    row.len() == x,
                    forall|j: int|
                        0 <= j < x ==> #[trigger] row@[j] == self@.grid[n - 1 - j][y as int],
                decreases n - x,
            {
                assert(self@.grid[n - 1 - x].len() == n);
                row.push(self.grid[n - 1 - x][y]);
                x += 1;
            }
            assert(row@ =~= grid_cw(self@.grid)[y as int]);
            rows.push(row);
            y += 1;
        }
        assert(grid_view(&rows) =~= grid_cw(self@.grid));
        self.grid = rows;
    }

    fn rotate_grid_ccw(&mut self)
        requires
            old(self).wf(),
        ensures
            final(self)@ == old(self)@.with_grid_turned(Direction::Ccw),
            final(self).wf(),
            final(self).offset_x == old(self).offset_x,
            final(self).offset_y == old(self).offset_y,
    {
        if self.kind == Mino::O {
            return ;
        }
        let n = self.grid.len();
        let mut rows: Vec<Vec<bool>> = Vec::new();
        let mut y: usize = 0;
        while y < n
            invariant
                self.wf(),
                n == self.grid.len(),
                y <= n,
                rows.len() == y,
                forall|i: int| 0 <= i < y ==> (#[trigger] rows@[i])@ == grid_ccw(self@.grid)[i],
            decreases n - y,
        {
            let mut row: Vec<bool> = Vec::new();
            let mut x: usize = 0;
            while x < n
                invariant
                    self.wf(),
                    n == self.grid.len(),
                    y < n,
                    x <= n,
                    row.len() == x,
                    forall|j: int|
                        0 <= j < x ==> #[trigger] row@[j] == self@.grid[j][n - 1 - y],
                decreases n - x,
            {
                assert(self@.grid[x as int].len() == n);
                row.push(self.grid[x][n - 1 - y]);
                x += 1;
            }
            assert(row@ =~= grid_ccw(self@.grid)[y as int]);
            rows.push(row);
            y += 1;
        }
        assert(grid_view(&rows) =~= grid_ccw(self@.grid));
        self.grid = rows;
    }
}

/// Turning a square grid a quarter and then back gives the grid itself.
pub proof fn lemma_grid_turned_back(grid: Grid, direction: Direction)
    requires
        grid_is_square(grid),
    ensures
        grid_is_square(grid_turned(grid, direction)),
        grid_turned(grid_turned(grid, direction), direction.reversed()) == grid,
{
    let there = grid_turned(grid, direction);
    let back = grid_turned(there, direction.reversed());
    assert(back.len() == grid.len());
    assert forall|y: int| 0 <= y < grid.len() implies #[trigger] back[y] =~= grid[y] by {
        assert(grid[y].len() == grid.len());
    }
    assert(back =~= grid);
}

/// Whether a piece has a cell depends on its grid alone.
pub proof fn lemma_has_cell_anywhere(a: PieceView, b: PieceView)
    requires
        a.grid == b.grid,
    ensures
        a.has_cell() == b.has_cell(),
{
    if a.has_cell() {
        let (y, x) = choose|y: int, x: int| a.covers(y, x);
        assert(b.covers(y - a.y + b.y, x - a.x + b.x));
    }
    if b.has_cell() {
        let (y, x) = choose|y: int, x: int| b.covers(y, x);
        assert(a.covers(y - b.y + a.y, x - b.x + a.x));
    }
}

/// Moving a piece moves the cells that it occupies.
pub proof fn lemma_shifted_covers(piece: PieceView, dx: int, dy: int)
    ensures
        forall|y: int, x: int| #[trigger]
            piece.shifted(dx, dy).covers(y, x) == piece.covers(y - dy, x - dx),
        piece.shifted(dx, dy).has_cell() == piece.has_cell(),
{
    let moved = piece.shifted(dx, dy);
    if piece.has_cell() {
        let (y, x) = choose|y: int, x: int| piece.covers(y, x);
        assert(moved.covers(y + dy, x + dx));
    }
    if moved.has_cell() {
        let (y, x) = choose|y: int, x: int| moved.covers(y, x);
        assert(piece.covers(y - dy, x - dx));
    }
}

/// A piece that lies on the field with its offset below the top row still
/// lies on the field one row higher.
pub proof fn lemma_in_bounds_up(piece: PieceView)
    requires
        piece.in_bounds(),
        piece.y >= 1,
    ensures
        piece.shifted(0, -1).in_bounds(),
{
    let up = piece.shifted(0, -1);
    assert forall|y: int, x: int| #[trigger] up.covers(y, x) implies 0 <= y < BOARD_HEIGHT && 0
        <= x < BOARD_WIDTH by {
        assert(piece.covers(y + 1, x));
    }
}

/// A turned grid has a cell where the grid had one.
pub proof fn lemma_turned_has_cell(piece: PieceView, direction: Direction)
    requires
        grid_is_square(piece.grid),
    ensures
        grid_is_square(turned(piece, direction).grid),
        turned(piece, direction).has_cell() == piece.has_cell(),
{
    let goal = turned(piece, direction);
    let n = piece.grid.len() as int;
    lemma_grid_turned_back(piece.grid, direction);
    if piece.kind == Mino::O {
        lemma_fits_same_cells(Seq::empty(), piece, goal);
    } else {
        if piece.has_cell() {
            let (y, x) = choose|y: int, x: int| piece.covers(y, x);
            let gy = y - piece.y;
            let gx = x - piece.x;
            assert(piece.grid[gy].len() == n);
            match direction {
                Direction::Cw => {
                    assert(goal.covers(piece.y + gx, piece.x + (n - 1 - gy)));
                },
                Direction::Ccw => {
                    assert(goal.covers(piece.y + (n - 1 - gx), piece.x + gy));
                },
            }
        }
        if goal.has_cell() {
            let (y, x) = choose|y: int, x: int| goal.covers(y, x);
            let gy = y - piece.y;
            let gx = x - piece.x;
            match direction {
                Direction::Cw => {
                    assert(piece.grid[n - 1 - gx].len() == n);
                    assert(piece.covers(piece.y + (n - 1 - gx), piece.x + gy));
                },
                Direction::Ccw => {
                    assert(piece.grid[gx].len() == n);
                    assert(piece.covers(piece.y + gx, piece.x + (n - 1 - gy)));
                },
            }
        }
    }
}

/// A piece of one of the seven kinds, as it is created, has a square grid
/// with a cell in it.
pub proof fn lemma_fresh_has_cell(kind: Mino, x: int, y: int)
    requires
        kind.is_piece(),
    ensures
        grid_is_square(PieceView::fresh(kind, x, y).grid),
        PieceView::fresh(kind, x, y).has_cell(),
{
    let piece = PieceView::fresh(kind, x, y);
    assert(piece.grid[1][1]);
    assert(piece.covers(y + 1, x + 1));
}

} // verus!
