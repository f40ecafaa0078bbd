//! The moves of an agent that learns to play, what it sees of a match, and
//! the counts by which a step is judged.

use crate::tetris::board::Board;
use crate::tetris::field::{BOARD_HEIGHT as FULL_BOARD_HEIGHT, BOARD_WIDTH, Field};
use crate::tetris::game::{Action as TetrisAction, Game};
use crate::tetris::piece::{Mino, PieceView, Rotation as PieceRotation, grid_is_square, grid_view};
use crate::tetris::rng::random_upto;
use crate::tetris::rules::{GameView, MAX_GAIN, MAX_SCORE};
use vstd::prelude::*;

verus! {

/// What an agent does to the piece sideways in one step.
#[derive(Debug, Clone, Copy, PartialEq, Eq, Structural)]
pub enum HorizontalMove {
    Left,
    Right,
    Stay,
}

/// How an agent turns the piece in one step.
#[derive(Debug, Clone, Copy, PartialEq, Eq, Structural)]
pub enum Rotation {
    Cw,
    Ccw,
    Keep,
}

/// What else an agent does with the piece in one step.
#[derive(Debug, Clone, Copy, PartialEq, Eq, Structural)]
pub enum PieceAction {
    HardDrop,
    SoftDrop,
    Hold,
    Wait,
}

/// What an agent does in one step: at most one move, one turn and one other
/// action.
#[derive(Debug, Clone, Copy, PartialEq, Eq, Structural)]
pub struct Action {
    pub horizontal: HorizontalMove,
    pub rotation: Rotation,
    pub action: PieceAction,
}

impl HorizontalMove {
    /// The move with the number `choice`; the numbers from 2 on stand for
    /// none.
    pub open spec fn spec_from_choice(choice: i32) -> HorizontalMove {
        if choice == 0 {
            HorizontalMove::Left
        } else if choice == 1 {
            HorizontalMove::Right
        } else {
            HorizontalMove::Stay
        }
    }

    /// The place of the move among the ten outputs of a model.
    pub open spec fn spec_index(self) -> int {
        match self {
            HorizontalMove::Left => 0,
            HorizontalMove::Right => 1,
            HorizontalMove::Stay => 2,
        }
    }
}

impl Rotation {
    /// The turn with the number `choice`; the numbers from 2 on stand for
    /// none.
    pub open spec fn spec_from_choice(choice: i32) -> Rotation {
        if choice == 0 {
            Rotation::Cw
        } else if choice == 1 {
            Rotation::Ccw
        } else {
            Rotation::Keep
        }
    }

    /// The place of the turn among the ten outputs of a model.
    pub open spec fn spec_index(self) -> int {
        match self {
            Rotation::Cw => 3,
            Rotation::Ccw => 4,
            Rotation::Keep => 5,
        }
    }
}

impl PieceAction {
    /// The action with the number `choice` as a model gives it; the numbers
    /// from 3 on stand for none.
    pub open spec fn spec_from_choice(choice: i32) -> PieceAction {
        if choice == 0 {
            PieceAction::HardDrop
        } else if choice == 1 {
            PieceAction::SoftDrop
        } else if choice == 2 {
            PieceAction::Hold
        } else {
            PieceAction::Wait
        }
    }

    /// The action with the number `draw` as it is drawn at random: a soft
    /// drop has two numbers, and the numbers from 4 on stand for none.
    pub open spec fn spec_from_draw(draw: i32) -> PieceAction {
        if draw == 0 {
            PieceAction::HardDrop
        } else if 1 <= draw <= 2 {
            PieceAction::SoftDrop
        } else if draw == 3 {
            PieceAction::Hold
        } else {
            PieceAction::Wait
        }
    }

    /// The place of the action among the ten outputs of a model.
    pub open spec fn spec_index(self) -> int {
        match self {
            PieceAction::HardDrop => 6,
            PieceAction::SoftDrop => 7,
            PieceAction::Hold => 8,
            PieceAction::Wait => 9,
        }
    }
}

impl Action {
    /// The action for which the three strongest outputs of a model stand:
    /// the number of the strongest of the three moves, of the three turns and
    /// of the four other actions.
    pub fn from_output(horizontal: i32, rotation: i32, action: i32) -> (r: Self)
        ensures
            r.horizontal == HorizontalMove::spec_from_choice(horizontal),
            r.rotation == Rotation::spec_from_choice(rotation),
            r.action == PieceAction::spec_from_choice(action),
    {
        let horizontal = match horizontal {
            0 => HorizontalMove::Left,
            1 => HorizontalMove::Right,
            _ => HorizontalMove::Stay,
        };
        let rotation = match rotation {
            0 => Rotation::Cw,
            1 => Rotation::Ccw,
            _ => Rotation::Keep,
        };
        let action = match action {
            0 => PieceAction::HardDrop,
            1 => PieceAction::SoftDrop,
            2 => PieceAction::Hold,
            _ => PieceAction::Wait,
        };
        Self { horizontal, rotation, action }
    }

    /// The step in which nothing is done.
    pub fn no_op() -> (r: Self)
        ensures
            r == (Action {
                horizontal: HorizontalMove::Stay,
                rotation: Rotation::Keep,
                action: PieceAction::Wait,
            }),
    {
        Self {
            horizontal: HorizontalMove::Stay,
            rotation: Rotation::Keep,
            action: PieceAction::Wait,
        }
    }

    /// What three numbers drawn at random make of a step. The third is drawn
    /// from 0 to 3 where the first two gave neither a move nor a turn, so
    /// that something is done, and from 0 to 8 otherwise.
    pub fn from_draws(horizontal: i32, rotation: i32, action: i32) -> (r: Self)
        ensures
            r.horizontal == HorizontalMove::spec_from_choice(horizontal),
            r.rotation == Rotation::spec_from_choice(rotation),
            r.action == PieceAction::spec_from_draw(action),
    {
        let horizontal = match horizontal {
            0 => HorizontalMove::Left,
            1 => HorizontalMove::Right,
            _ => HorizontalMove::Stay,
        };
        let rotation = match rotation {
            0 => Rotation::Cw,
            1 => Rotation::Ccw,
            _ => Rotation::Keep,
        };
        let action = match action {
            0 => PieceAction::HardDrop,
            1..=2 => PieceAction::SoftDrop,
            3 => PieceAction::Hold,
            _ => PieceAction::Wait,
        };
        Self { horizontal, rotation, action }
    }

    /// A step drawn at random. A step without a move and without a turn has
    /// another action.
    pub fn random() -> (r: Self)
        ensures
            r.horizontal is Stay && r.rotation is Keep ==> !(r.action is Wait),
    {
        let horizontal = random_upto(2);
        let rotation = random_upto(3);
        let do_something = rotation >= 2 && horizontal >= 2;
        let action = random_upto(
            if do_something {
                3
            } else {
                8
            },
        );
        Self::from_draws(horizontal, rotation, action)
    }

    /// The step as ten numbers, one for each output of a model: a one at the
    /// places of its move, its turn and its other action, and zeros
    /// elsewhere.
    pub open spec fn spec_to_tensor(self) -> Seq<i32> {
        Seq::new(
            10,
            |i: int|
                if i == self.horizontal.spec_index() || i == self.rotation.spec_index() || i
                    == self.action.spec_index() {
                    1i32
                } else {
                    0i32
                },
        )
    }

    /// The step as ten numbers, one for each output of a model.
    pub fn to_tensor(&self) -> (tensor: [i32; 10])
        ensures
            tensor@ == self.spec_to_tensor(),
    {
        let mut tensor: [i32; 10] = [0, 0, 0, 0, 0, 0, 0, 0, 0, 0];
        let horizontal: usize = match self.horizontal {
            HorizontalMove::Left => 0,
            HorizontalMove::Right => 1,
            HorizontalMove::Stay => 2,
        };
        let rotation: usize = match self.rotation {
            Rotation::Cw => 3,
            Rotation::Ccw => 4,
            Rotation::Keep => 5,
        };
        let action: usize = match self.action {
            PieceAction::HardDrop => 6,
            PieceAction::SoftDrop => 7,
            PieceAction::Hold => 8,
            PieceAction::Wait => 9,
        };
        tensor[horizontal] = 1;
        tensor[rotation] = 1;
        tensor[action] = 1;
        assert(tensor@ =~= self.spec_to_tensor());
        tensor
    }

    /// The actions that the step asks of a match, in the order in which the
    /// match is to apply them: the move, the turn, the other action.
    pub open spec fn actions(self) -> Seq<TetrisAction> {
        (match self.horizontal {
            HorizontalMove::Left => seq![TetrisAction::Left],
            HorizontalMove::Right => seq![TetrisAction::Right],
            HorizontalMove::Stay => Seq::empty(),
        }) + (match self.rotation {
            Rotation::Cw => seq![TetrisAction::Cw],
            Rotation::Ccw => seq![TetrisAction::Ccw],
            Rotation::Keep => Seq::empty(),
        }) + (match self.action {
            PieceAction::HardDrop => seq![TetrisAction::HardDrop],
            PieceAction::SoftDrop => seq![TetrisAction::SoftDrop],
            PieceAction::Hold => seq![TetrisAction::Hold],
            PieceAction::Wait => Seq::empty(),
        })
    }

    /// The actions that the step asks of a match.
    pub fn to_actions(&self) -> (actions: Vec<TetrisAction>)
        ensures
            actions@ == self.actions(),
            actions@.len() <= 3,
    {
        let mut actions: Vec<TetrisAction> = Vec::new();
        match self.horizontal {
            HorizontalMove::Left => {
                actions.push(TetrisAction::Left);
            },
            HorizontalMove::Right => {
                actions.push(TetrisAction::Right);
            },
            HorizontalMove::Stay => {},
        }
        match self.rotation {
            Rotation::Cw => {
                actions.push(TetrisAction::Cw);
            },
            Rotation::Ccw => {
                actions.push(TetrisAction::Ccw);
            },
            Rotation::Keep => {},
        }
        match self.action {
            PieceAction::HardDrop => {
                actions.push(TetrisAction::HardDrop);
            },
            PieceAction::SoftDrop => {
                actions.push(TetrisAction::SoftDrop);
            },
            PieceAction::Hold => {
                actions.push(TetrisAction::Hold);
            },
            PieceAction::Wait => {},
        }
        assert(actions@ =~= self.actions());
        actions
    }
}

/// The rows of the field that an agent sees: the lowest ones.
pub const BOARD_HEIGHT: usize = 24;

/// The layers of an agent's view: the field, the piece and its ghost.
pub const BOARD_CHANNELS: usize = 3;

/// The numbers for the pieces that do not lie on the field: the held one and
/// the five that wait.
pub const PIECE_INPUTS: usize = 6;

/// The cells of one layer.
pub const LAYER_SIZE: usize = BOARD_HEIGHT * BOARD_WIDTH;

/// The numbers of which an agent's view consists.
pub const STATE_SIZE: usize = BOARD_CHANNELS * BOARD_HEIGHT * BOARD_WIDTH + PIECE_INPUTS;

/// The number that stands for a kind in an agent's view.
pub open spec fn mino_code(mino: Mino) -> u8 {
    match mino {
        Mino::Empty => 0,
        Mino::I => 1,
        Mino::O => 2,
        Mino::T => 3,
        Mino::S => 4,
        Mino::Z => 5,
        Mino::J => 6,
        Mino::L => 7,
        Mino::Garbage => 8,
    }
}

/// The number that stands for a kind in an agent's view.
pub fn mino_mapping(mino: Mino) -> (code: u8)
    ensures
        code == mino_code(mino),
{
    match mino {
        Mino::Empty => 0,
        Mino::I => 1,
        Mino::O => 2,
        Mino::T => 3,
        Mino::S => 4,
        Mino::Z => 5,
        Mino::J => 6,
        Mino::L => 7,
        Mino::Garbage => 8,
    }
}

/// The place in a layer of the cell in row `y` and column `x` of the field.
/// The layer goes row by row through the rows that an agent sees. A column
/// off the field has the place of a cell in the row above or below.
pub open spec fn cell_place(y: int, x: int) -> int {
    x + (y + BOARD_HEIGHT - FULL_BOARD_HEIGHT) * BOARD_WIDTH
}

/// The field as an agent sees it: the numbers of its cells.
pub open spec fn field_layer(field: Field) -> Seq<u8> {
    Seq::new(
        LAYER_SIZE as nat,
        |k: int|
            mino_code(
                field[FULL_BOARD_HEIGHT - BOARD_HEIGHT + k / (BOARD_WIDTH as int)][k % (
                BOARD_WIDTH as int)],
            ),
    )
}

/// A piece as an agent sees it: the number of its kind at the places of its
/// cells, and zeros elsewhere.
pub open spec fn piece_layer(piece: PieceView) -> Seq<u8> {
    Seq::new(
        LAYER_SIZE as nat,
        |k: int|
            if exists|y: int, x: int| #[trigger] piece.covers(y, x) && cell_place(y, x) == k {
                mino_code(piece.kind)
            } else {
                0
            },
    )
}

/// A match as an agent sees it: the field, the piece, the piece at the
/// height of its ghost, the held piece and the five pieces that wait.
pub open spec fn state_codes(game: GameView) -> Seq<u8> {
    field_layer(game.board) + piece_layer(game.piece) + piece_layer(
        game.piece.at(game.piece.x, game.ghost_piece.y),
    ) + seq![
        match game.hold {
            Some(held) => mino_code(held.kind),
            None => 0,
        },
    ] + Seq::new(5, |i: int| mino_code(game.queue[i].kind))
}

/// Two cells of a grid have different places in a layer.
proof fn lemma_places_differ(x1: int, y1: int, x2: int, y2: int, ox: int, oy: int)
    requires
        0 <= x1 < 4,
        0 <= x2 < 4,
        x1 != x2 || y1 != y2,
    ensures
        cell_place(oy + y1, ox + x1) != cell_place(oy + y2, ox + x2),
{
}

/// The layer of a piece with the given grid and kind at the given offset.
fn layer_of(grid: &Vec<Vec<bool>>, kind: Mino, offset_x: i8, offset_y: i8) -> (layer: Vec<u8>)
    requires
        grid_is_square(grid_view(grid)),
    ensures
        layer@ == piece_layer(
            PieceView {
                kind,
                rotation: crate::tetris::piece::Rotation::Zero,
                grid: grid_view(grid),
                x: offset_x as int,
                y: offset_y as int,
            },
        ),
{
    let ghost piece = PieceView {
        kind,
        rotation: crate::tetris::piece::Rotation::Zero,
        grid: grid_view(grid),
        x: offset_x as int,
        y: offset_y as int,
    };
    let mut layer: Vec<u8> = Vec::new();
    let mut k: usize = 0;
    while k < LAYER_SIZE
        invariant
            k <= LAYER_SIZE,
            layer@.len() == k,
            forall|j: int| 0 <= j < k ==> #[trigger] layer@[j] == 0,
        decreases LAYER_SIZE - k,
    {
        layer.push(0);
        k += 1;
    }
    let n = grid.len();
    let code = mino_mapping(kind);
    let mut y: usize = 0;
    while y < n
        invariant
            y <= n,
            n == grid@.len(),
            n <= 4,
            grid_is_square(grid_view(grid)),
            piece.grid == grid_view(grid),
            piece.x == offset_x,
            piece.y == offset_y,
            piece.kind == kind,
            code == mino_code(kind),
            layer@.len() == LAYER_SIZE,
            forall|j: int|
                0 <= j < LAYER_SIZE ==> #[trigger] layer@[j] == if exists|cy: int, cx: int|
                 #[trigger]
                    piece.covers(cy, cx) && cy - piece.y < y && cell_place(cy, cx) == j {
                    code
                } else {
                    0
                },
        decreases n - y,
    {
        let mut x: usize = 0;
        while x < n
            invariant
                y < n,
                x <= n,
                n == grid@.len(),
                n <= 4,
                grid_is_square(grid_view(grid)),
                piece.grid == grid_view(grid),
                piece.x == offset_x,
                piece.y == offset_y,
                piece.kind == kind,
                code == mino_code(kind),
                layer@.len() == LAYER_SIZE,
                forall|j: int|
                    0 <= j < LAYER_SIZE ==> #[trigger] layer@[j] == if exists|cy: int, cx: int|
                     #[trigger]
                        piece.covers(cy, cx) && (cy - piece.y < y || (cy - piece.y == y && cx
                            - piece.x < x)) && cell_place(cy, cx) == j {
                        code
                    } else {
                        0
                    },
            decreases n - x,
        {
            assert(grid_view(grid)[y as int].len() == n);
            let index: i64 = x as i64 + offset_x as i64 + (y as i64 + offset_y as i64 + 24 - 40)
                * 10;
            let ghost before = layer@;
            let cell = grid[y][x];
            if 0 <= index && index < 240 {
                layer[index as usize] = if cell {
                    code
                } else {
                    0
                };
            }
            proof {
                let py = piece.y + y;
                let px = piece.x + x;
                assert(cell_place(py, px) == index);
                assert(piece.covers(py, px) == cell);
                assert forall|j: int| 0 <= j < LAYER_SIZE implies #[trigger] layer@[j]
                    == if exists|cy: int, cx: int|
                     #[trigger]
                    piece.covers(cy, cx) && (cy - piece.y < y || (cy - piece.y == y && cx - piece.x
                        < x + 1)) && cell_place(cy, cx) == j {
                    code
                } else {
                    0
                } by {
                    let now = exists|cy: int, cx: int|
                     #[trigger]
                        piece.covers(cy, cx) && (cy - piece.y < y || (cy - piece.y == y && cx
                            - piece.x < x + 1)) && cell_place(cy, cx) == j;
                    let then = exists|cy: int, cx: int|
                     #[trigger]
                        piece.covers(cy, cx) && (cy - piece.y < y || (cy - piece.y == y && cx
                            - piece.x < x)) && cell_place(cy, cx) == j;
                    if j == index {
                        if cell {
                            assert(piece.covers(py, px));
                        } else {
                            if now {
                                let (cy, cx) = choose|cy: int, cx: int|
                                 #[trigger]
                                    piece.covers(cy, cx) && (cy - piece.y < y || (cy - piece.y
                                        == y && cx - piece.x < x + 1)) && cell_place(cy, cx) == j;
                                if cy != py || cx != px {
                                    lemma_places_differ(
                                        cx - piece.x,
                                        cy - piece.y,
                                        x as int,
                                        y as int,
                                        piece.x,
                                        piece.y,
                                    );
                                }
                            }
                        }
                    } else {
                        if now {
                            let (cy, cx) = choose|cy: int, cx: int|
                             #[trigger]
                                piece.covers(cy, cx) && (cy - piece.y < y || (cy - piece.y == y
                                    && cx - piece.x < x + 1)) && cell_place(cy, cx) == j;
                            assert(piece.covers(cy, cx) && (cy - piece.y < y || (cy - piece.y
                                == y && cx - piece.x < x)) && cell_place(cy, cx) == j);
                        }
                        if then {
                            let (cy, cx) = choose|cy: int, cx: int|
                             #[trigger]
                                piece.covers(cy, cx) && (cy - piece.y < y || (cy - piece.y == y
                                    && cx - piece.x < x)) && cell_place(cy, cx) == j;
                            assert(piece.covers(cy, cx) && (cy - piece.y < y || (cy - piece.y
                                == y && cx - piece.x < x + 1)) && cell_place(cy, cx) == j);
                        }
                    }
                }
            }
            x += 1;
        }
        proof {
            assert forall|j: int| 0 <= j < LAYER_SIZE implies #[trigger] layer@[j]
                == if exists|cy: int, cx: int|
                 #[trigger]
                piece.covers(cy, cx) && cy - piece.y < y + 1 && cell_place(cy, cx) == j {
                code
            } else {
                0
            } by {
                let full = exists|cy: int, cx: int|
                 #[trigger]
                    piece.covers(cy, cx) && cy - piece.y < y + 1 && cell_place(cy, cx) == j;
                let part = exists|cy: int, cx: int|
                 #[trigger]
                    piece.covers(cy, cx) && (cy - piece.y < y || (cy - piece.y == y && cx
                        - piece.x < n)) && cell_place(cy, cx) == j;
                if full {
                    let (cy, cx) = choose|cy: int, cx: int|
                     #[trigger]
                        piece.covers(cy, cx) && cy - piece.y < y + 1 && cell_place(cy, cx) == j;
                    assert(piece.grid[cy - piece.y].len() == n);
                    assert(piece.covers(cy, cx) && (cy - piece.y < y || (cy - piece.y == y && cx
                        - piece.x < n)) && cell_place(cy, cx) == j);
                }
                if part {
                    let (cy, cx) = choose|cy: int, cx: int|
                     #[trigger]
                        piece.covers(cy, cx) && (cy - piece.y < y || (cy - piece.y == y && cx
                            - piece.x < n)) && cell_place(cy, cx) == j;
                    assert(piece.covers(cy, cx) && cy - piece.y < y + 1 && cell_place(cy, cx)
                        == j);
                }
            }
        }
        y += 1;
    }
    proof {
        assert forall|j: int| 0 <= j < LAYER_SIZE implies #[trigger] layer@[j] == piece_layer(
            piece,
        )[j] by {
            let all = exists|cy: int, cx: int| #[trigger]
                piece.covers(cy, cx) && cell_place(cy, cx) == j;
            let done = exists|cy: int, cx: int|
             #[trigger]
                piece.covers(cy, cx) && cy - piece.y < n && cell_place(cy, cx) == j;
            if all {
                let (cy, cx) = choose|cy: int, cx: int| #[trigger]
                    piece.covers(cy, cx) && cell_place(cy, cx) == j;
                assert(piece.covers(cy, cx) && cy - piece.y < n && cell_place(cy, cx) == j);
            }
            if done {
                let (cy, cx) = choose|cy: int, cx: int|
                 #[trigger]
                    piece.covers(cy, cx) && cy - piece.y < n && cell_place(cy, cx) == j;
                assert(piece.covers(cy, cx) && cell_place(cy, cx) == j);
            }
        }
        assert(layer@ =~= piece_layer(piece));
    }
    layer
}

/// Writes `codes` at the end of `out`.
fn push_codes(out: &mut Vec<u8>, codes: &Vec<u8>)
    ensures
        final(out)@ == old(out)@ + codes@,
{
    let mut i: usize = 0;
    while i < codes.len()
        invariant
            i <= codes@.len(),
            out@ == old(out)@ + codes@.take(i as int),
        decreases codes@.len() - i,
    {
        out.push(codes[i]);
        proof {
            assert(out@ =~= old(out)@ + codes@.take(i + 1));
        }
        i += 1;
    }
    proof {
        assert(codes@.take(codes@.len() as int) =~= codes@);
    }
}

/// How a piece looks to an agent depends on its kind, its grid and its
/// offset alone.
proof fn lemma_piece_layer(a: PieceView, b: PieceView)
    requires
        a.kind == b.kind,
        a.grid == b.grid,
        a.x == b.x,
        a.y == b.y,
    ensures
        piece_layer(a) == piece_layer(b),
{
    assert forall|k: int| 0 <= k < LAYER_SIZE implies #[trigger] piece_layer(a)[k] == piece_layer(
        b,
    )[k] by {
        let in_a = exists|y: int, x: int| #[trigger] a.covers(y, x) && cell_place(y, x) == k;
        let in_b = exists|y: int, x: int| #[trigger] b.covers(y, x) && cell_place(y, x) == k;
        if in_a {
            let (y, x) = choose|y: int, x: int| #[trigger] a.covers(y, x) && cell_place(y, x) == k;
            assert(b.covers(y, x));
        }
        if in_b {
            let (y, x) = choose|y: int, x: int| #[trigger] b.covers(y, x) && cell_place(y, x) == k;
            assert(a.covers(y, x));
        }
    }
    assert(piece_layer(a) =~= piece_layer(b));
}

/// A match as an agent sees it: `STATE_SIZE` numbers.
pub fn to_state(game: &Game) -> (state: Vec<u8>)
    requires
        game@.wf(),
    ensures
        state@ == state_codes(game@),
        state@.len() == STATE_SIZE,
{
    let mut state: Vec<u8> = Vec::new();
    let board = game.board();
    let mut y: usize = FULL_BOARD_HEIGHT - BOARD_HEIGHT;
    while y < FULL_BOARD_HEIGHT
        invariant
            FULL_BOARD_HEIGHT - BOARD_HEIGHT <= y <= FULL_BOARD_HEIGHT,
            board@ == game@.board,
            state@.len() == (y - (FULL_BOARD_HEIGHT - BOARD_HEIGHT)) * BOARD_WIDTH,
            forall|k: int| 0 <= k < state@.len() ==> #[trigger] state@[k] == field_layer(board@)[k],
        decreases FULL_BOARD_HEIGHT - y,
    {
        let mut x: usize = 0;
        while x < BOARD_WIDTH
            invariant
                FULL_BOARD_HEIGHT - BOARD_HEIGHT <= y < FULL_BOARD_HEIGHT,
                x <= BOARD_WIDTH,
                state@.len() == (y - (FULL_BOARD_HEIGHT - BOARD_HEIGHT)) * BOARD_WIDTH + x,
                forall|k: int|
                    0 <= k < state@.len() ==> #[trigger] state@[k] == field_layer(board@)[k],
            decreases BOARD_WIDTH - x,
        {
            let ghost k = state@.len() as int;
            assert(k / 10 == y - 16 && k % 10 == x);
            state.push(mino_mapping(board.buffer[y][x]));
            x += 1;
        }
        y += 1;
    }
    assert(state@ =~= field_layer(game@.board));
    let piece = game.piece();
    let shown = layer_of(&piece.grid, piece.kind, piece.offset_x, piece.offset_y);
    push_codes(&mut state, &shown);
    let ghost_piece = game.ghost_piece();
    let shadow = layer_of(&piece.grid, piece.kind, piece.offset_x, ghost_piece.offset_y);
    push_codes(&mut state, &shadow);
    let hold_value = match game.hold_kind() {
        Some(kind) => mino_mapping(kind),
        None => 0,
    };
    state.push(hold_value);
    let kinds = game.queue_kinds();
    let ghost before = state@;
    let mut i: usize = 0;
    while i < 5
        invariant
            i <= 5,
            kinds@.len() == 5,
            forall|k: int| 0 <= k < 5 ==> #[trigger] kinds@[k] == game@.queue[k].kind,
            state@ == before + Seq::new(i as nat, |k: int| mino_code(game@.queue[k].kind)),
        decreases 5 - i,
    {
        state.push(mino_mapping(kinds[i]));
        proof {
            assert(state@ =~= before + Seq::new(
                (i + 1) as nat,
                |k: int| mino_code(game@.queue[k].kind),
            ));
        }
        i += 1;
    }
    proof {
        let zero = crate::tetris::piece::Rotation::Zero;
        let view = game@;
        lemma_piece_layer(
            PieceView {
                kind: view.piece.kind,
                rotation: zero,
                grid: view.piece.grid,
                x: view.piece.x,
                y: view.piece.y,
            },
            view.piece,
        );
        lemma_piece_layer(
            PieceView {
                kind: view.piece.kind,
                rotation: zero,
                grid: view.piece.grid,
                x: view.piece.x,
                y: view.ghost_piece.y,
            },
            view.piece.at(view.piece.x, view.ghost_piece.y),
        );
        assert(state@ =~= state_codes(view));
    }
    state
}

/// The first row, from the row `from` downwards, in which the column `x` of
/// the field has a cell that is not empty; the number of rows if there is
/// none.
pub open spec fn column_top(field: Field, x: int, from: int) -> int
    decreases FULL_BOARD_HEIGHT - from,
{
    if from < 0 || from >= FULL_BOARD_HEIGHT {
        FULL_BOARD_HEIGHT as int
    } else if field[from][x] != Mino::Empty {
        from
    } else {
        column_top(field, x, from + 1)
    }
}

/// The height to which the column `x` of the field is filled: from its
/// topmost cell that is not empty down to the floor.
pub open spec fn column_height(field: Field, x: int) -> int {
    FULL_BOARD_HEIGHT - column_top(field, x, 0)
}

/// The heights of the ten columns.
pub open spec fn column_heights(field: Field) -> Seq<int> {
    Seq::new(BOARD_WIDTH as nat, |x: int| column_height(field, x))
}

/// The largest of the heights; 0 if there are none.
pub open spec fn highest(heights: Seq<int>) -> int
    decreases heights.len(),
{
    if heights.len() == 0 {
        0
    } else if heights.last() > highest(heights.drop_last()) {
        heights.last()
    } else {
        highest(heights.drop_last())
    }
}

/// The sum of the heights.
pub open spec fn total(heights: Seq<int>) -> int
    decreases heights.len(),
{
    if heights.len() == 0 {
        0
    } else {
        total(heights.drop_last()) + heights.last()
    }
}

/// The empty cells of the column `x` of the field in the rows from `from`
/// downwards.
pub open spec fn empty_from(field: Field, x: int, from: int) -> int
    decreases FULL_BOARD_HEIGHT - from,
{
    if from < 0 || from >= FULL_BOARD_HEIGHT {
        0
    } else if field[from][x] == Mino::Empty {
        1 + empty_from(field, x, from + 1)
    } else {
        empty_from(field, x, from + 1)
    }
}

/// The holes that are counted against a field, in its first `columns`
/// columns: in each column, the empty cells in the rows whose number is
/// larger than the height of the column.
pub open spec fn holes(field: Field, columns: int) -> int
    decreases columns,
{
    if columns <= 0 {
        0
    } else {
        holes(field, columns - 1) + empty_from(
            field,
            columns - 1,
            column_height(field, columns - 1) + 1,
        )
    }
}

/// The outlines of the ground on which a piece of the given kind lies flat:
/// each is the list of the steps, in height, from the column under the
/// piece's left end to the columns to the right of it.
pub open spec fn shapes(kind: Mino) -> Seq<Seq<int>> {
    match kind {
        Mino::Empty | Mino::Garbage | Mino::I => seq![],
        Mino::O => seq![seq![0]],
        Mino::J => seq![seq![0], seq![0, 0], seq![0, -1], seq![2]],
        Mino::L => seq![seq![0], seq![0, 0], seq![1, 1], seq![-2]],
        Mino::S => seq![seq![0, 1], seq![-1]],
        Mino::Z => seq![seq![-1, -1], seq![1]],
        Mino::T => seq![seq![1], seq![-1], seq![-1, 0], seq![0, 0]],
    }
}

/// Whether the ground has the step with the number `dx` of the outline
/// `shape`, to the right of the column `col`: the column `dx + 1` columns to
/// the right of it is a column of the field, and higher than it by that
/// step.
pub open spec fn step_fits(heights: Seq<int>, col: int, shape: Seq<int>, dx: int) -> bool {
    col + dx + 1 < BOARD_WIDTH && heights[col] + shape[dx] == heights[col + dx + 1]
}

/// Whether the ground to the right of the column `col` has the outline
/// `shape`.
pub open spec fn shape_fits(heights: Seq<int>, col: int, shape: Seq<int>) -> bool {
    forall|dx: int| 0 <= dx < shape.len() ==> #[trigger] step_fits(heights, col, shape, dx)
}

/// Whether a piece of the given kind can lie flat with its left end on the
/// column `col`.
pub open spec fn can_lie(heights: Seq<int>, col: int, kind: Mino) -> bool {
    exists|s: int| 0 <= s < shapes(kind).len() && shape_fits(heights, col, #[trigger] shapes(kind)[s])
}

/// In how many of the first `columns` columns a piece of the given kind can
/// lie flat with its left end.
pub open spec fn places(heights: Seq<int>, kind: Mino, columns: int) -> int
    decreases columns,
{
    if columns <= 0 {
        0
    } else if can_lie(heights, columns - 1, kind) {
        places(heights, kind, columns - 1) + 1
    } else {
        places(heights, kind, columns - 1)
    }
}

/// What a number of places is worth.
pub open spec fn place_score(places: int) -> int {
    if places == 0 {
        -30
    } else if places == 1 {
        -5
    } else if places == 2 {
        0
    } else if places == 3 {
        1
    } else if places == 4 {
        2
    } else {
        3
    }
}

/// The weight of the piece that waits at the place `idx` of the queue.
pub open spec fn queue_weight(idx: int) -> int {
    if idx == 0 {
        5
    } else if idx == 1 {
        2
    } else {
        1
    }
}

/// What the piece that waits at the place `idx` of the queue adds to the
/// judgement of a field: its weight times what its places are worth. A
/// piece of kind `I` is always worth the most.
pub open spec fn placement(heights: Seq<int>, kind: Mino, idx: int) -> int {
    if kind == Mino::I {
        queue_weight(idx) * 3
    } else {
        queue_weight(idx) * place_score(places(heights, kind, BOARD_WIDTH - 1))
    }
}

/// The counts by which a step is judged, as mathematical values.
pub struct TermsView {
    pub max_height: int,
    pub height_sum: int,
    pub misstep: bool,
    pub placements: Seq<int>,
    pub holes: int,
    pub offset: int,
}

/// The counts by which a step is judged.
#[derive(Debug, Clone, Copy, PartialEq, Eq)]
pub struct RewardTerms {
    /// The height of the highest column.
    pub max_height: usize,
    /// The sum of the heights of the columns.
    pub height_sum: usize,
    /// Whether the step asked for a turn that left the orientation as it
    /// was or, without a turn, for a move that left the piece in its column.
    pub misstep: bool,
    /// What each of the five pieces that wait adds.
    pub placements: [i32; 5],
    /// The holes of the field.
    pub holes: usize,
    /// The square of the distance of the piece's offset from column 3.
    pub offset: i32,
}

impl View for RewardTerms {
    type V = TermsView;

    open spec fn view(&self) -> TermsView {
        TermsView {
            max_height: self.max_height as int,
            height_sum: self.height_sum as int,
            misstep: self.misstep,
            placements: Seq::new(5, |i: int| self.placements[i] as int),
            holes: self.holes as int,
            offset: self.offset as int,
        }
    }
}

/// Whether a step is a misstep: the step asked for a turn and the piece has
/// the orientation it had, or it asked for a move and no turn and the piece
/// has the column it had.
pub open spec fn is_misstep(
    action: Action,
    before_x: int,
    before: PieceRotation,
    piece: PieceView,
) -> bool {
    if !(action.rotation is Keep) {
        before == piece.rotation
    } else {
        !(action.horizontal is Stay) && before_x == piece.x
    }
}

/// The counts by which a step is judged: those of the match after the step,
/// of the action taken, and of the column and the orientation that the piece
/// had before it.
pub open spec fn reward_terms(
    game: GameView,
    action: Action,
    before_x: int,
    before: PieceRotation,
) -> TermsView {
    let heights = column_heights(game.board);
    TermsView {
        max_height: highest(heights),
        height_sum: total(heights),
        misstep: is_misstep(action, before_x, before, game.piece),
        placements: Seq::new(5, |i: int| placement(heights, game.queue[i].kind, i)),
        holes: holes(game.board, BOARD_WIDTH as int),
        offset: (game.piece.x - 3) * (game.piece.x - 3),
    }
}

/// The height of a column lies between nothing and the height of the field.
proof fn lemma_column_top(field: Field, x: int, from: int)
    requires
        0 <= from <= FULL_BOARD_HEIGHT,
    ensures
        from <= column_top(field, x, from) <= FULL_BOARD_HEIGHT,
    decreases FULL_BOARD_HEIGHT - from,
{
    if from < FULL_BOARD_HEIGHT && field[from][x] == Mino::Empty {
        lemma_column_top(field, x, from + 1);
    }
}

/// There are no more empty cells in a column than it has rows.
proof fn lemma_empty_from(field: Field, x: int, from: int)
    requires
        0 <= from,
    ensures
        0 <= empty_from(field, x, from) <= FULL_BOARD_HEIGHT,
        from <= FULL_BOARD_HEIGHT ==> empty_from(field, x, from) <= FULL_BOARD_HEIGHT - from,
    decreases FULL_BOARD_HEIGHT - from,
{
    if from < FULL_BOARD_HEIGHT {
        lemma_empty_from(field, x, from + 1);
    }
}

/// The heights of the columns of a field.
fn heights_of(board: &Board) -> (heights: [usize; 10])
    ensures
        forall|x: int| 0 <= x < 10 ==> #[trigger] heights@[x] == column_height(board@, x),
        forall|x: int| 0 <= x < 10 ==> #[trigger] heights@[x] <= FULL_BOARD_HEIGHT,
{
    let mut heights: [usize; 10] = [0, 0, 0, 0, 0, 0, 0, 0, 0, 0];
    let mut x: usize = 0;
    while x < 10
        invariant
            x <= 10,
            forall|j: int| 0 <= j < x ==> #[trigger] heights@[j] == column_height(board@, j),
            forall|j: int| 0 <= j < x ==> #[trigger] heights@[j] <= FULL_BOARD_HEIGHT,
        decreases 10 - x,
    {
        let mut y: usize = 0;
        let mut height: usize = 0;
        while y < FULL_BOARD_HEIGHT
            invariant_except_break
                y <= FULL_BOARD_HEIGHT,
                x < 10,
                height == 0,
                column_top(board@, x as int, 0) == column_top(board@, x as int, y as int),
            ensures
                height == column_height(board@, x as int),
                height <= FULL_BOARD_HEIGHT,
            decreases FULL_BOARD_HEIGHT - y,
        {
            assert(board@[y as int][x as int] == board.buffer[y as int][x as int]);
            if board.buffer[y][x] != Mino::Empty {
                height = FULL_BOARD_HEIGHT - y;
                break ;
            }
            y += 1;
        }
        heights[x] = height;
        x += 1;
    }
    heights
}

/// The outlines of the ground on which a piece of the given kind lies flat.
fn get_mino_shapes(mino: Mino) -> (r: Vec<Vec<i8>>)
    ensures
        r@.len() == shapes(mino).len(),
        forall|s: int|
            0 <= s < r@.len() ==> (#[trigger] r@[s])@.len() == shapes(mino)[s].len() && forall|
                dx: int,
            |
                0 <= dx < r@[s]@.len() ==> #[trigger] r@[s]@[dx] == shapes(mino)[s][dx],
{
    match mino {
        Mino::Empty | Mino::Garbage | Mino::I => Vec::new(),
        Mino::O => vec![vec![0]],
        Mino::J => vec![vec![0], vec![0, 0], vec![0, -1], vec![2]],
        Mino::L => vec![vec![0], vec![0, 0], vec![1, 1], vec![-2]],
        Mino::S => vec![vec![0, 1], vec![-1]],
        Mino::Z => vec![vec![-1, -1], vec![1]],
        Mino::T => vec![vec![1], vec![-1], vec![-1, 0], vec![0, 0]],
    }
}

/// The heights as mathematical values.
pub open spec fn heights_view(heights: [usize; 10]) -> Seq<int> {
    Seq::new(10, |x: int| heights[x] as int)
}

/// An outline as a mathematical value.
pub open spec fn shape_view(shape: &Vec<i8>) -> Seq<int> {
    Seq::new(shape@.len(), |dx: int| shape@[dx] as int)
}

/// Whether the ground to the right of the column `col` has the outline
/// `shape`.
fn fits_shape(heights: &[usize; 10], col: usize, shape: &Vec<i8>) -> (fits: bool)
    requires
        col < 10,
        forall|x: int| 0 <= x < 10 ==> #[trigger] heights@[x] <= FULL_BOARD_HEIGHT,
        forall|dx: int| 0 <= dx < shape@.len() ==> -2 <= #[trigger] shape@[dx] <= 2,
    ensures
        fits == shape_fits(heights_view(*heights), col as int, shape_view(shape)),
{
    let ghost hs = heights_view(*heights);
    let ghost sh = shape_view(shape);
    let orig = heights[col];
    let mut dx: usize = 0;
    while dx < shape.len()
        invariant
            dx <= shape@.len(),
            col < 10,
            orig == heights@[col as int],
            hs == heights_view(*heights),
            sh == shape_view(shape),
            forall|x: int| 0 <= x < 10 ==> #[trigger] heights@[x] <= FULL_BOARD_HEIGHT,
            forall|k: int| 0 <= k < shape@.len() ==> -2 <= #[trigger] shape@[k] <= 2,
            forall|k: int| 0 <= k < dx ==> #[trigger] step_fits(hs, col as int, sh, k),
        decreases shape@.len() - dx,
    {
        let dy = shape[dx];
        assert(sh[dx as int] == dy);
        assert(hs[col as int] == orig);
        if dx >= 10 || col + dx + 1 >= BOARD_WIDTH {
            assert(!step_fits(hs, col as int, sh, dx as int));
            return false;
        }
        let x = col + dx + 1;
        let target_height = orig as i8 + dy;
        assert(hs[x as int] == heights@[x as int]);
        if target_height != heights[x] as i8 {
            assert(!step_fits(hs, col as int, sh, dx as int));
            return false;
        }
        assert(step_fits(hs, col as int, sh, dx as int));
        dx += 1;
    }
    true
}

/// Whether a piece with the given outlines can lie flat with its left end
/// on the column `col`.
fn lies_at(heights: &[usize; 10], col: usize, kind: Mino, outlines: &Vec<Vec<i8>>) -> (lies: bool)
    requires
        col < 10,
        forall|x: int| 0 <= x < 10 ==> #[trigger] heights@[x] <= FULL_BOARD_HEIGHT,
        outlines@.len() == shapes(kind).len(),
        forall|s: int| 0 <= s < outlines@.len() ==> shape_view(#[trigger] &outlines@[s]) == shapes(
            kind,
        )[s],
    ensures
        lies == can_lie(heights_view(*heights), col as int, kind),
{
    let mut s: usize = 0;
    while s < outlines.len()
        invariant
            s <= outlines@.len(),
            col < 10,
            forall|x: int| 0 <= x < 10 ==> #[trigger] heights@[x] <= FULL_BOARD_HEIGHT,
            outlines@.len() == shapes(kind).len(),
            forall|i: int|
                0 <= i < outlines@.len() ==> shape_view(#[trigger] &outlines@[i]) == shapes(
                    kind,
                )[i],
            forall|i: int|
                0 <= i < s ==> !shape_fits(
                    heights_view(*heights),
                    col as int,
                    #[trigger] shapes(kind)[i],
                ),
        decreases outlines@.len() - s,
    {
        let shape = &outlines[s];
        proof {
            assert(shape_view(shape) == shapes(kind)[s as int]);
            lemma_shapes_small(kind);
            assert forall|dx: int| 0 <= dx < shape@.len() implies -2 <= #[trigger] shape@[dx]
                <= 2 by {
                assert(shape_view(shape)[dx] == shape@[dx]);
                assert(shapes(kind)[s as int][dx] == shape@[dx]);
            }
        }
        if fits_shape(heights, col, shape) {
            return true;
        }
        s += 1;
    }
    false
}

/// The steps of the outlines are at most two cells high.
proof fn lemma_shapes_small(kind: Mino)
    ensures
        forall|s: int, dx: int|
            0 <= s < shapes(kind).len() && 0 <= dx < shapes(kind)[s].len() ==> -2 <= #[trigger] shapes(
                kind,
            )[s][dx] <= 2,
        shapes(kind).len() <= 4,
{
}

/// What the piece that waits at the place `idx` of the queue adds to the
/// judgement of a field with the given heights.
fn placement_of(heights: &[usize; 10], kind: Mino, idx: usize) -> (value: i32)
    requires
        idx < 5,
        forall|x: int| 0 <= x < 10 ==> #[trigger] heights@[x] <= FULL_BOARD_HEIGHT,
    ensures
        value == placement(heights_view(*heights), kind, idx as int),
{
    let weight: i32 = match idx {
        0 => 5,
        1 => 2,
        _ => 1,
    };
    if kind == Mino::I {
        return weight * 3;
    }
    let outlines = get_mino_shapes(kind);
    proof {
        assert forall|s: int| 0 <= s < outlines@.len() implies shape_view(
            #[trigger] &outlines@[s],
        ) == shapes(kind)[s] by {
            assert(shape_view(&outlines@[s]) =~= shapes(kind)[s]);
        }
    }
    let mut found: i32 = 0;
    let mut col: usize = 0;
    while col < BOARD_WIDTH - 1
        invariant
            col <= BOARD_WIDTH - 1,
            0 <= found <= col,
            found == places(heights_view(*heights), kind, col as int),
            forall|x: int| 0 <= x < 10 ==> #[trigger] heights@[x] <= FULL_BOARD_HEIGHT,
            outlines@.len() == shapes(kind).len(),
            forall|s: int|
                0 <= s < outlines@.len() ==> shape_view(#[trigger] &outlines@[s]) == shapes(
                    kind,
                )[s],
        decreases BOARD_WIDTH - 1 - col,
    {
        if lies_at(heights, col, kind, &outlines) {
            found += 1;
        }
        col += 1;
    }
    let place_score: i32 = match found {
        0 => -30,
        1 => -5,
        2 => 0,
        3 => 1,
        4 => 2,
        _ => 3,
    };
    weight * place_score
}

/// The empty cells of a column of the field in the rows from `from`
/// downwards.
fn count_empty_from(board: &Board, x: usize, from: usize) -> (count: usize)
    requires
        x < 10,
    ensures
        count == empty_from(board@, x as int, from as int),
        count <= FULL_BOARD_HEIGHT,
{
    let mut count: usize = 0;
    let mut row: usize = from;
    proof {
        lemma_empty_from(board@, x as int, from as int);
    }
    while row < FULL_BOARD_HEIGHT
        invariant
            from <= row,
            x < 10,
            row <= FULL_BOARD_HEIGHT || from > FULL_BOARD_HEIGHT,
            count + empty_from(board@, x as int, row as int) == empty_from(
                board@,
                x as int,
                from as int,
            ),
            empty_from(board@, x as int, from as int) <= FULL_BOARD_HEIGHT,
        decreases FULL_BOARD_HEIGHT - row,
    {
        proof {
            lemma_empty_from(board@, x as int, row + 1);
            assert(board@[row as int][x as int] == board.buffer[row as int][x as int]);
        }
        if board.buffer[row][x] == Mino::Empty {
            count += 1;
        }
        row += 1;
    }
    count
}

/// The sum of the heights is at most the area of the field, and the largest
/// of them at most its height.
proof fn lemma_heights_bounded(heights: Seq<int>)
    requires
        forall|x: int| 0 <= x < heights.len() ==> 0 <= #[trigger] heights[x] <= FULL_BOARD_HEIGHT,
    ensures
        0 <= total(heights) <= FULL_BOARD_HEIGHT * heights.len(),
        0 <= highest(heights) <= FULL_BOARD_HEIGHT,
    decreases heights.len(),
{
    if heights.len() > 0 {
        let rest = heights.drop_last();
        assert forall|x: int| 0 <= x < rest.len() implies 0 <= #[trigger] rest[x]
            <= FULL_BOARD_HEIGHT by {
            assert(rest[x] == heights[x]);
        }
        lemma_heights_bounded(rest);
    }
}

/// The counts by which a field and a queue are judged.
fn judge(
    board: &Board,
    kinds: &Vec<Mino>,
    misstep: bool,
    offset_x: i8,
) -> (terms: RewardTerms)
    requires
        kinds@.len() == 5,
    ensures
        terms@.max_height == highest(column_heights(board@)),
        terms@.height_sum == total(column_heights(board@)),
        terms@.misstep == misstep,
        terms@.placements == Seq::new(
            5,
            |i: int| placement(column_heights(board@), kinds@[i], i),
        ),
        terms@.holes == holes(board@, BOARD_WIDTH as int),
        terms@.offset == (offset_x - 3) * (offset_x - 3),
{
    let heights = heights_of(board);
    let ghost hs = column_heights(board@);
    proof {
        assert(heights_view(heights) =~= hs);
    }
    let mut max_height: usize = 0;
    let mut height_sum: usize = 0;
    let mut x: usize = 0;
    proof {
        assert(hs.take(0) =~= Seq::empty());
    }
    while x < 10
        invariant
            x <= 10,
            hs == column_heights(board@),
            heights_view(heights) == hs,
            forall|j: int| 0 <= j < 10 ==> #[trigger] heights@[j] <= FULL_BOARD_HEIGHT,
            max_height == highest(hs.take(x as int)),
            height_sum == total(hs.take(x as int)),
            max_height <= FULL_BOARD_HEIGHT,
            height_sum <= FULL_BOARD_HEIGHT * x,
        decreases 10 - x,
    {
        proof {
            assert(hs.take(x + 1).drop_last() =~= hs.take(x as int));
            assert(hs.take(x + 1).last() == hs[x as int]);
            assert(hs[x as int] == heights@[x as int]);
        }
        if heights[x] > max_height {
            max_height = heights[x];
        }
        height_sum += heights[x];
        x += 1;
    }
    proof {
        assert(hs.take(10) =~= hs);
    }
    let mut placements: [i32; 5] = [0, 0, 0, 0, 0];
    let mut idx: usize = 0;
    while idx < 5
        invariant
            idx <= 5,
            kinds@.len() == 5,
            heights_view(heights) == hs,
            forall|j: int| 0 <= j < 10 ==> #[trigger] heights@[j] <= FULL_BOARD_HEIGHT,
            forall|i: int| 0 <= i < idx ==> #[trigger] placements@[i] == placement(hs, kinds@[i], i),
        decreases 5 - idx,
    {
        placements[idx] = placement_of(&heights, kinds[idx], idx);
        idx += 1;
    }
    let mut holes_found: usize = 0;
    let mut col: usize = 0;
    while col < 10
        invariant
            col <= 10,
            heights_view(heights) == hs,
            hs == column_heights(board@),
            forall|j: int| 0 <= j < 10 ==> #[trigger] heights@[j] <= FULL_BOARD_HEIGHT,
            holes_found == holes(board@, col as int),
            holes_found <= FULL_BOARD_HEIGHT * col,
        decreases 10 - col,
    {
        proof {
            assert(hs[col as int] == heights@[col as int]);
        }
        let found = count_empty_from(board, col, heights[col] + 1);
        holes_found += found;
        col += 1;
    }
    let distance: i32 = offset_x as i32 - 3;
    assert(0 <= distance * distance <= 17161) by (nonlinear_arith)
        requires
            -131 <= distance <= 124,
    ;
    let terms = RewardTerms {
        max_height,
        height_sum,
        misstep,
        placements,
        holes: holes_found,
        offset: distance * distance,
    };
    proof {
        assert(terms@.placements =~= Seq::new(5, |i: int| placement(hs, kinds@[i], i)));
        assert(distance * distance == (offset_x - 3) * (offset_x - 3));
    }
    terms
}

/// What is remembered of the piece from before a step.
#[derive(Debug, Clone, Copy)]
pub struct Previous {
    pub piece_x: i8,
    pub piece_rotation: PieceRotation,
}

impl Previous {
    /// The column and the orientation of the piece of a match.
    pub fn get(game: &Game) -> (r: Self)
        ensures
            r.piece_x == game@.piece.x,
            r.piece_rotation == game@.piece.rotation,
    {
        let piece = game.piece();
        Self { piece_x: piece.offset_x, piece_rotation: piece.rotation }
    }
}

/// The counts by which a step is judged, once the step is taken: those of
/// the match as it now is, of the action that was taken and of the piece as
/// it was before. A match that is over is not judged.
pub fn get_reward(game: &Game, action: &Action, prev: Previous) -> (terms: Option<RewardTerms>)
    requires
        game@.wf(),
    ensures
        game@.done ==> terms is None,
        !game@.done ==> terms is Some && terms->0@ == reward_terms(
            game@,
            *action,
            prev.piece_x as int,
            prev.piece_rotation,
        ),
{
    if game.is_done() {
        return None;
    }
    let piece = game.piece();
    let misstep = if !matches!(action.rotation, Rotation::Keep) {
        prev.piece_rotation == piece.rotation
    } else {
        !matches!(action.horizontal, HorizontalMove::Stay) && prev.piece_x == piece.offset_x
    };
    let kinds = game.queue_kinds();
    let terms = judge(game.board(), &kinds, misstep, piece.offset_x);
    proof {
        let heights = column_heights(game@.board);
        assert(terms@.placements =~= Seq::new(
            5,
            |i: int| placement(heights, game@.queue[i].kind, i),
        ));
    }
    Some(terms)
}

/// Whether `after` can be the match after a step in which the player asks
/// for `actions`: one tick, and the wait for the next piece skipped.
pub open spec fn stepped(before: GameView, actions: Seq<TetrisAction>, after: GameView) -> bool {
    exists|ticked: GameView| #[trigger] before.tick(actions, ticked) && ticked.skip(after)
}

/// Takes a step in a match: plays one tick with the actions of the step and
/// skips the wait for the next piece. Returns the counts by which the step is
/// judged, and whether the match is over.
pub fn step_inner(game: &mut Game, action: &Action) -> (r: (Option<RewardTerms>, bool))
    requires
        old(game)@.wf(),
        old(game)@.score <= MAX_SCORE - MAX_GAIN,
    ensures
        final(game)@.wf(),
        stepped(old(game)@, action.actions(), final(game)@),
        final(game)@.score <= old(game)@.score + 2 * MAX_GAIN,
        r.1 == final(game)@.done,
        final(game)@.done ==> r.0 is None,
        !final(game)@.done ==> r.0 is Some && r.0->0@ == reward_terms(
            final(game)@,
            *action,
            old(game)@.piece.x,
            old(game)@.piece.rotation,
        ),
{
    let actions = action.to_actions();
    let previous = Previous::get(game);
    game.user_actions(actions);
    let ghost ticked = game@;
    game.skip_completion();
    proof {
        assert(old(game)@.tick(action.actions(), ticked) && ticked.skip(game@));
    }
    let terms = get_reward(game, action, previous);
    let done = game.is_done();
    (terms, done)
}

} // verus!
