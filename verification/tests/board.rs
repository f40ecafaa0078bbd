use tetris_core::tetris::{Board, Direction, Mino, Rotation, Tetrimino};

fn grid_of(rows: &[&[u8]]) -> Vec<Vec<bool>> {
    rows.iter()
        .map(|row| row.iter().map(|cell| *cell == 1).collect())
        .collect()
}

fn filled_board() -> Board {
    let mut board = Board::default();
    for y in 0..40 {
        for x in 0..10 {
            board.buffer[y][x] = Mino::Garbage;
        }
    }
    board
}

fn count_cells(board: &Board, kind: Mino) -> usize {
    let mut count = 0;
    for row in board.buffer.iter() {
        for cell in row.iter() {
            if *cell == kind {
                count += 1;
            }
        }
    }
    count
}

#[test]
fn default_mino_is_empty() {
    assert_eq!(Mino::default(), Mino::Empty);
    assert_eq!(Rotation::default(), Rotation::Zero);
}

#[test]
fn default_board_is_empty() {
    let board = Board::default();
    assert_eq!(count_cells(&board, Mino::Empty), 400);
}

#[test]
fn rotation_cycles_clockwise() {
    assert_eq!(Rotation::Zero.rotate(Direction::Cw), Rotation::Right);
    assert_eq!(Rotation::Right.rotate(Direction::Cw), Rotation::Two);
    assert_eq!(Rotation::Two.rotate(Direction::Cw), Rotation::Left);
    assert_eq!(Rotation::Left.rotate(Direction::Cw), Rotation::Zero);
}

#[test]
fn rotation_cycles_counter_clockwise() {
    assert_eq!(Rotation::Zero.rotate(Direction::Ccw), Rotation::Left);
    assert_eq!(Rotation::Left.rotate(Direction::Ccw), Rotation::Two);
    assert_eq!(Rotation::Two.rotate(Direction::Ccw), Rotation::Right);
    assert_eq!(Rotation::Right.rotate(Direction::Ccw), Rotation::Zero);
}

#[test]
fn rotation_there_and_back_is_identity() {
    for rotation in [Rotation::Zero, Rotation::Right, Rotation::Two, Rotation::Left] {
        assert_eq!(rotation.rotate(Direction::Cw).rotate(Direction::Ccw), rotation);
        assert_eq!(rotation.rotate(Direction::Ccw).rotate(Direction::Cw), rotation);
    }
}

#[test]
fn new_pieces_have_their_grids() {
    assert_eq!(Tetrimino::new(Mino::O, 0, 0).grid, grid_of(&[&[1, 1], &[1, 1]]));
    assert_eq!(
        Tetrimino::new(Mino::I, 0, 0).grid,
        grid_of(&[&[0, 0, 0, 0], &[1, 1, 1, 1], &[0, 0, 0, 0], &[0, 0, 0, 0]])
    );
    assert_eq!(
        Tetrimino::new(Mino::T, 0, 0).grid,
        grid_of(&[&[0, 1, 0], &[1, 1, 1], &[0, 0, 0]])
    );
    assert_eq!(
        Tetrimino::new(Mino::L, 0, 0).grid,
        grid_of(&[&[0, 0, 1], &[1, 1, 1], &[0, 0, 0]])
    );
    assert_eq!(
        Tetrimino::new(Mino::J, 0, 0).grid,
        grid_of(&[&[1, 0, 0], &[1, 1, 1], &[0, 0, 0]])
    );
    assert_eq!(
        Tetrimino::new(Mino::S, 0, 0).grid,
        grid_of(&[&[0, 1, 1], &[1, 1, 0], &[0, 0, 0]])
    );
    assert_eq!(
        Tetrimino::new(Mino::Z, 0, 0).grid,
        grid_of(&[&[1, 1, 0], &[0, 1, 1], &[0, 0, 0]])
    );
}

#[test]
fn new_piece_keeps_kind_offset_and_orientation() {
    let piece = Tetrimino::new(Mino::S, -2, 17);
    assert_eq!(piece.kind, Mino::S);
    assert_eq!(piece.rotation, Rotation::Zero);
    assert_eq!(piece.offset_x, -2);
    assert_eq!(piece.offset_y, 17);
}

#[test]
fn kinds_that_are_no_pieces_have_no_cells() {
    assert!(Tetrimino::new(Mino::Empty, 0, 0).grid.is_empty());
    assert!(Tetrimino::new(Mino::Garbage, 0, 0).grid.is_empty());
}

#[test]
fn clone_copies_every_field() {
    let mut piece = Tetrimino::new(Mino::L, 3, 7);
    piece.rotate_grid(Direction::Cw);
    piece.rotation = Rotation::Right;
    let copy = piece.clone();
    assert_eq!(copy.kind, Mino::L);
    assert_eq!(copy.rotation, Rotation::Right);
    assert_eq!(copy.grid, piece.grid);
    assert_eq!(copy.offset_x, 3);
    assert_eq!(copy.offset_y, 7);
}

#[test]
fn rotate_grid_turns_the_t_piece() {
    let mut piece = Tetrimino::new(Mino::T, 0, 0);
    piece.rotate_grid(Direction::Cw);
    assert_eq!(piece.grid, grid_of(&[&[0, 1, 0], &[0, 1, 1], &[0, 1, 0]]));
    piece.rotate_grid(Direction::Cw);
    assert_eq!(piece.grid, grid_of(&[&[0, 0, 0], &[1, 1, 1], &[0, 1, 0]]));
    piece.rotate_grid(Direction::Cw);
    assert_eq!(piece.grid, grid_of(&[&[0, 1, 0], &[1, 1, 0], &[0, 1, 0]]));
    piece.rotate_grid(Direction::Cw);
    assert_eq!(piece.grid, grid_of(&[&[0, 1, 0], &[1, 1, 1], &[0, 0, 0]]));
    assert_eq!(piece.rotation, Rotation::Zero);
}

#[test]
fn rotate_grid_counter_clockwise_turns_the_other_way() {
    let mut piece = Tetrimino::new(Mino::T, 0, 0);
    piece.rotate_grid(Direction::Ccw);
    assert_eq!(piece.grid, grid_of(&[&[0, 1, 0], &[1, 1, 0], &[0, 1, 0]]));
    let mut piece = Tetrimino::new(Mino::L, 0, 0);
    piece.rotate_grid(Direction::Ccw);
    assert_eq!(piece.grid, grid_of(&[&[1, 1, 0], &[0, 1, 0], &[0, 1, 0]]));
}

#[test]
fn rotate_grid_turns_the_i_piece_into_a_column() {
    let mut piece = Tetrimino::new(Mino::I, 0, 0);
    piece.rotate_grid(Direction::Cw);
    assert_eq!(
        piece.grid,
        grid_of(&[&[0, 0, 1, 0], &[0, 0, 1, 0], &[0, 0, 1, 0], &[0, 0, 1, 0]])
    );
    let mut piece = Tetrimino::new(Mino::I, 0, 0);
    piece.rotate_grid(Direction::Ccw);
    assert_eq!(
        piece.grid,
        grid_of(&[&[0, 1, 0, 0], &[0, 1, 0, 0], &[0, 1, 0, 0], &[0, 1, 0, 0]])
    );
}

#[test]
fn rotate_grid_leaves_the_o_piece() {
    let mut piece = Tetrimino::new(Mino::O, 4, 4);
    piece.rotate_grid(Direction::Cw);
    assert_eq!(piece.grid, grid_of(&[&[1, 1], &[1, 1]]));
    piece.rotate_grid(Direction::Ccw);
    assert_eq!(piece.grid, grid_of(&[&[1, 1], &[1, 1]]));
}

#[test]
fn rotate_grid_there_and_back_restores_every_grid() {
    for kind in [Mino::I, Mino::O, Mino::J, Mino::L, Mino::S, Mino::Z, Mino::T] {
        let fresh = Tetrimino::new(kind, 0, 0);
        let mut piece = fresh.clone();
        piece.rotate_grid(Direction::Cw);
        piece.rotate_grid(Direction::Ccw);
        assert_eq!(piece.grid, fresh.grid);
        piece.rotate_grid(Direction::Ccw);
        piece.rotate_grid(Direction::Cw);
        assert_eq!(piece.grid, fresh.grid);
    }
}

#[test]
fn can_place_accepts_a_piece_on_empty_cells() {
    let board = Board::default();
    assert!(board.can_place(&Tetrimino::new(Mino::T, 3, 18)));
    assert!(board.can_place(&Tetrimino::new(Mino::O, 0, 0)));
    assert!(board.can_place(&Tetrimino::new(Mino::O, 8, 38)));
}

#[test]
fn can_place_counts_only_occupied_cells() {
    let board = Board::default();
    // the cells of the flat I piece lie in row 1 of its grid
    assert!(board.can_place(&Tetrimino::new(Mino::I, 0, -1)));
    assert!(board.can_place(&Tetrimino::new(Mino::I, 6, 38)));
    // row 2 of the T piece is empty
    assert!(board.can_place(&Tetrimino::new(Mino::T, 0, 38)));
}

#[test]
fn can_place_rejects_cells_off_the_field() {
    let board = Board::default();
    assert!(!board.can_place(&Tetrimino::new(Mino::O, -1, 5)));
    assert!(!board.can_place(&Tetrimino::new(Mino::O, 9, 5)));
    assert!(!board.can_place(&Tetrimino::new(Mino::O, 4, -1)));
    assert!(!board.can_place(&Tetrimino::new(Mino::O, 4, 39)));
    assert!(!board.can_place(&Tetrimino::new(Mino::I, -1, 5)));
    assert!(!board.can_place(&Tetrimino::new(Mino::I, 7, 5)));
    assert!(!board.can_place(&Tetrimino::new(Mino::I, 0, -2)));
    assert!(!board.can_place(&Tetrimino::new(Mino::I, 0, 39)));
}

#[test]
fn can_place_rejects_far_offsets() {
    let board = Board::default();
    assert!(!board.can_place(&Tetrimino::new(Mino::O, 127, 127)));
    assert!(!board.can_place(&Tetrimino::new(Mino::O, -128, -128)));
    assert!(!board.can_place(&Tetrimino::new(Mino::I, 126, 0)));
}

#[test]
fn can_place_rejects_an_overlap() {
    let mut board = Board::default();
    board.buffer[19][4] = Mino::Z;
    assert!(!board.can_place(&Tetrimino::new(Mino::T, 3, 18)));
    // the corner of the T piece's grid is no cell of the piece
    let mut board = Board::default();
    board.buffer[18][3] = Mino::Z;
    assert!(board.can_place(&Tetrimino::new(Mino::T, 3, 18)));
}

#[test]
fn can_place_agrees_with_a_cell_by_cell_check() {
    let mut board = Board::default();
    board.buffer[5][5] = Mino::Garbage;
    board.buffer[6][2] = Mino::L;
    board.buffer[0][0] = Mino::I;
    for kind in [Mino::I, Mino::O, Mino::J, Mino::L, Mino::S, Mino::Z, Mino::T] {
        for y in -4i8..42 {
            for x in -4i8..12 {
                let piece = Tetrimino::new(kind, x, y);
                let mut expected = true;
                for (gy, row) in piece.grid.iter().enumerate() {
                    for (gx, cell) in row.iter().enumerate() {
                        if !*cell {
                            continue;
                        }
                        let by = y as i32 + gy as i32;
                        let bx = x as i32 + gx as i32;
                        if by < 0 || by >= 40 || bx < 0 || bx >= 10 {
                            expected = false;
                        } else if board.buffer[by as usize][bx as usize] != Mino::Empty {
                            expected = false;
                        }
                    }
                }
                assert_eq!(board.can_place(&piece), expected);
            }
        }
    }
}

#[test]
fn place_writes_the_cells_of_the_piece() {
    let mut board = Board::default();
    board.place(&Tetrimino::new(Mino::T, 3, 18));
    assert_eq!(board.buffer[18][4], Mino::T);
    assert_eq!(board.buffer[19][3], Mino::T);
    assert_eq!(board.buffer[19][4], Mino::T);
    assert_eq!(board.buffer[19][5], Mino::T);
    assert_eq!(count_cells(&board, Mino::T), 4);
    assert_eq!(count_cells(&board, Mino::Empty), 396);
}

#[test]
fn place_overwrites_what_was_there() {
    let mut board = filled_board();
    board.place(&Tetrimino::new(Mino::O, 4, 10));
    assert_eq!(count_cells(&board, Mino::O), 4);
    assert_eq!(count_cells(&board, Mino::Garbage), 396);
}

#[test]
fn place_does_nothing_above_the_field() {
    let mut board = Board::default();
    board.place(&Tetrimino::new(Mino::I, 3, -1));
    assert_eq!(count_cells(&board, Mino::Empty), 400);
}

#[test]
fn place_with_negative_column_offset() {
    let mut board = Board::default();
    let mut piece = Tetrimino::new(Mino::I, -2, 10);
    piece.rotate_grid(Direction::Cw);
    assert!(board.can_place(&piece));
    board.place(&piece);
    for y in 10..14 {
        assert_eq!(board.buffer[y][0], Mino::I);
    }
    assert_eq!(count_cells(&board, Mino::I), 4);
}

#[test]
fn drop_rests_on_the_floor() {
    let board = Board::default();
    let mut piece = Tetrimino::new(Mino::O, 4, 19);
    board.drop(&mut piece);
    assert_eq!((piece.offset_x, piece.offset_y), (4, 38));
    let mut piece = Tetrimino::new(Mino::I, 3, 20);
    board.drop(&mut piece);
    assert_eq!((piece.offset_x, piece.offset_y), (3, 38));
    let mut piece = Tetrimino::new(Mino::T, 0, 0);
    board.drop(&mut piece);
    assert_eq!((piece.offset_x, piece.offset_y), (0, 38));
}

#[test]
fn drop_rests_on_the_stack() {
    let mut board = Board::default();
    board.buffer[30][5] = Mino::Garbage;
    let mut piece = Tetrimino::new(Mino::O, 4, 19);
    board.drop(&mut piece);
    assert_eq!(piece.offset_y, 28);
    let mut piece = Tetrimino::new(Mino::O, 6, 19);
    board.drop(&mut piece);
    assert_eq!(piece.offset_y, 38);
}

#[test]
fn drop_leaves_a_resting_piece() {
    let board = Board::default();
    let mut piece = Tetrimino::new(Mino::O, 4, 38);
    board.drop(&mut piece);
    assert_eq!(piece.offset_y, 38);
}

#[test]
fn drop_steps_back_from_a_place_that_is_taken() {
    let mut board = Board::default();
    board.buffer[20][4] = Mino::Garbage;
    let mut piece = Tetrimino::new(Mino::O, 4, 20);
    board.drop(&mut piece);
    assert_eq!(piece.offset_y, 19);
}

#[test]
fn move_x_moves_where_there_is_room() {
    let board = Board::default();
    let mut piece = Tetrimino::new(Mino::O, 4, 20);
    assert!(board.move_x(&mut piece, 1));
    assert_eq!((piece.offset_x, piece.offset_y), (5, 20));
    assert!(board.move_x(&mut piece, -3));
    assert_eq!((piece.offset_x, piece.offset_y), (2, 20));
}

#[test]
fn move_x_stops_at_the_walls() {
    let board = Board::default();
    let mut piece = Tetrimino::new(Mino::O, 0, 20);
    assert!(!board.move_x(&mut piece, -1));
    assert_eq!(piece.offset_x, 0);
    let mut piece = Tetrimino::new(Mino::O, 8, 20);
    assert!(!board.move_x(&mut piece, 1));
    assert_eq!(piece.offset_x, 8);
}

#[test]
fn move_x_stops_at_a_taken_cell() {
    let mut board = Board::default();
    board.buffer[21][6] = Mino::J;
    let mut piece = Tetrimino::new(Mino::O, 4, 20);
    assert!(!board.move_x(&mut piece, 1));
    assert_eq!(piece.offset_x, 4);
    assert!(board.move_x(&mut piece, -1));
    assert_eq!(piece.offset_x, 3);
}

#[test]
fn move_down_moves_one_row() {
    let board = Board::default();
    let mut piece = Tetrimino::new(Mino::T, 3, 18);
    assert!(board.move_down(&mut piece));
    assert_eq!((piece.offset_x, piece.offset_y), (3, 19));
}

#[test]
fn move_down_stops_on_the_floor() {
    let board = Board::default();
    let mut piece = Tetrimino::new(Mino::T, 3, 38);
    assert!(!board.move_down(&mut piece));
    assert_eq!(piece.offset_y, 38);
}

#[test]
fn can_move_down_leaves_the_piece() {
    let board = Board::default();
    let mut piece = Tetrimino::new(Mino::T, 3, 18);
    assert!(board.can_move_down(&mut piece));
    assert_eq!((piece.offset_x, piece.offset_y), (3, 18));
    let mut piece = Tetrimino::new(Mino::T, 3, 38);
    assert!(!board.can_move_down(&mut piece));
    assert_eq!((piece.offset_x, piece.offset_y), (3, 38));
}

#[test]
fn rotate_in_free_space_keeps_the_offset() {
    let board = Board::default();
    for kind in [Mino::I, Mino::J, Mino::L, Mino::S, Mino::Z, Mino::T] {
        let mut piece = Tetrimino::new(kind, 3, 20);
        assert!(board.rotate(&mut piece, Direction::Cw));
        assert_eq!(piece.rotation, Rotation::Right);
        assert_eq!((piece.offset_x, piece.offset_y), (3, 20));
        assert!(board.rotate(&mut piece, Direction::Cw));
        assert_eq!(piece.rotation, Rotation::Two);
        assert!(board.rotate(&mut piece, Direction::Cw));
        assert_eq!(piece.rotation, Rotation::Left);
        assert!(board.rotate(&mut piece, Direction::Cw));
        assert_eq!(piece.rotation, Rotation::Zero);
        assert_eq!((piece.offset_x, piece.offset_y), (3, 20));
        assert_eq!(piece.grid, Tetrimino::new(kind, 0, 0).grid);
    }
}

#[test]
fn rotate_clockwise_then_back_restores_the_piece() {
    let board = Board::default();
    for kind in [Mino::I, Mino::O, Mino::J, Mino::L, Mino::S, Mino::Z, Mino::T] {
        for turns in 0..4 {
            let mut piece = Tetrimino::new(kind, 3, 20);
            for _ in 0..turns {
                assert!(board.rotate(&mut piece, Direction::Cw));
            }
            let before = piece.clone();
            assert!(board.rotate(&mut piece, Direction::Cw));
            assert!(board.rotate(&mut piece, Direction::Ccw));
            assert_eq!(piece.rotation, before.rotation);
            assert_eq!((piece.offset_x, piece.offset_y), (3, 20));
            assert_eq!(piece.grid, before.grid);
            assert!(board.rotate(&mut piece, Direction::Ccw));
            assert!(board.rotate(&mut piece, Direction::Cw));
            assert_eq!(piece.rotation, before.rotation);
            assert_eq!((piece.offset_x, piece.offset_y), (3, 20));
            assert_eq!(piece.grid, before.grid);
        }
    }
}

#[test]
fn rotate_leaves_the_o_piece_as_it_is() {
    let board = filled_board();
    let mut piece = Tetrimino::new(Mino::O, 4, 20);
    assert!(board.rotate(&mut piece, Direction::Cw));
    assert_eq!(piece.rotation, Rotation::Zero);
    assert_eq!((piece.offset_x, piece.offset_y), (4, 20));
    assert_eq!(piece.grid, Tetrimino::new(Mino::O, 0, 0).grid);
}

#[test]
fn rotate_kicks_the_t_piece_off_the_left_wall() {
    let board = Board::default();
    let mut piece = Tetrimino::new(Mino::T, 0, 20);
    assert!(board.rotate(&mut piece, Direction::Cw));
    assert!(board.move_x(&mut piece, -1));
    assert_eq!(piece.offset_x, -1);
    // turning back needs column -1: the second offset of the table, one to
    // the right, is the first that fits
    assert!(board.rotate(&mut piece, Direction::Ccw));
    assert_eq!(piece.rotation, Rotation::Zero);
    assert_eq!((piece.offset_x, piece.offset_y), (0, 20));
}

#[test]
fn rotate_kicks_the_t_piece_off_the_right_wall() {
    let board = Board::default();
    let mut piece = Tetrimino::new(Mino::T, 7, 20);
    assert!(board.rotate(&mut piece, Direction::Ccw));
    assert_eq!(piece.rotation, Rotation::Left);
    assert!(board.move_x(&mut piece, 1));
    assert_eq!(piece.offset_x, 8);
    // from Left to Zero the table goes (0,0), (-1,0), ...
    assert!(board.rotate(&mut piece, Direction::Cw));
    assert_eq!(piece.rotation, Rotation::Zero);
    assert_eq!((piece.offset_x, piece.offset_y), (7, 20));
}

#[test]
fn rotate_kicks_the_i_piece_off_the_left_wall() {
    let board = Board::default();
    let mut piece = Tetrimino::new(Mino::I, 3, 20);
    assert!(board.rotate(&mut piece, Direction::Cw));
    assert_eq!((piece.offset_x, piece.offset_y), (3, 20));
    assert!(board.move_x(&mut piece, -5));
    assert_eq!(piece.offset_x, -2);
    // from Right to Two the table goes (0,0), (-1,0), (2,0), ...
    assert!(board.rotate(&mut piece, Direction::Cw));
    assert_eq!(piece.rotation, Rotation::Two);
    assert_eq!((piece.offset_x, piece.offset_y), (0, 20));
}

#[test]
fn rotate_kicks_the_t_piece_up_from_the_floor() {
    let board = Board::default();
    let mut piece = Tetrimino::new(Mino::T, 3, 38);
    assert!(board.can_place(&piece));
    // Zero to Right: (0,0) and (-1,0) need row 40; (-1,-1) fits
    assert!(board.rotate(&mut piece, Direction::Cw));
    assert_eq!(piece.rotation, Rotation::Right);
    assert_eq!((piece.offset_x, piece.offset_y), (2, 37));
}

#[test]
fn rotate_fails_when_no_offset_fits() {
    let mut board = filled_board();
    let piece = Tetrimino::new(Mino::T, 3, 20);
    board.buffer[20][4] = Mino::Empty;
    board.buffer[21][3] = Mino::Empty;
    board.buffer[21][4] = Mino::Empty;
    board.buffer[21][5] = Mino::Empty;
    assert!(board.can_place(&piece));
    for direction in [Direction::Cw, Direction::Ccw] {
        let mut turning = piece.clone();
        assert!(!board.rotate(&mut turning, direction));
        assert_eq!(turning.rotation, Rotation::Zero);
        assert_eq!((turning.offset_x, turning.offset_y), (3, 20));
        assert_eq!(turning.grid, piece.grid);
    }
}

#[test]
fn rotate_takes_the_first_offset_that_fits() {
    // Zero to Right tries (0,0), (-1,0), (-1,-1), (0,2), (-1,2)
    let mut board = Board::default();
    board.buffer[22][4] = Mino::Garbage;
    board.buffer[22][3] = Mino::Garbage;
    let mut piece = Tetrimino::new(Mino::T, 3, 20);
    assert!(board.can_place(&piece));
    assert!(board.rotate(&mut piece, Direction::Cw));
    assert_eq!(piece.rotation, Rotation::Right);
    assert_eq!((piece.offset_x, piece.offset_y), (2, 19));
    assert_eq!(piece.grid[0], vec![false, true, false]);
    assert_eq!(piece.grid[1], vec![false, true, true]);
    assert_eq!(piece.grid[2], vec![false, true, false]);
}

#[test]
fn rotate_takes_the_last_offset_when_the_others_are_blocked() {
    let mut board = Board::default();
    board.buffer[22][4] = Mino::Garbage;
    board.buffer[20][3] = Mino::Garbage;
    let mut piece = Tetrimino::new(Mino::T, 3, 20);
    assert!(board.can_place(&piece));
    assert!(board.rotate(&mut piece, Direction::Cw));
    assert_eq!(piece.rotation, Rotation::Right);
    assert_eq!((piece.offset_x, piece.offset_y), (2, 22));
}

#[test]
fn rotate_walks_the_table_of_the_i_piece() {
    // Zero to Right tries (0,0), (-2,0), (1,0), (-2,1), (1,-2); the column
    // of the turned piece is column 2 of its grid
    let mut board = Board::default();
    board.buffer[23][5] = Mino::Garbage;
    let mut piece = Tetrimino::new(Mino::I, 3, 20);
    assert!(board.can_place(&piece));
    assert!(board.rotate(&mut piece, Direction::Cw));
    assert_eq!(piece.rotation, Rotation::Right);
    assert_eq!((piece.offset_x, piece.offset_y), (1, 20));
    let mut board = Board::default();
    board.buffer[23][5] = Mino::Garbage;
    board.buffer[23][3] = Mino::Garbage;
    let mut piece = Tetrimino::new(Mino::I, 3, 20);
    assert!(board.rotate(&mut piece, Direction::Cw));
    assert_eq!((piece.offset_x, piece.offset_y), (4, 20));
}

#[test]
fn clear_lines_without_a_full_row_changes_nothing() {
    let mut board = Board::default();
    board.buffer[39] = [Mino::Garbage; 10];
    board.buffer[39][3] = Mino::Empty;
    board.buffer[38][0] = Mino::T;
    board.buffer[0][9] = Mino::I;
    let before = board.buffer;
    assert_eq!(board.clear_lines(), 0);
    assert_eq!(board.buffer, before);
    assert_eq!(board.clear_lines(), 0);
    assert_eq!(board.buffer, before);
}

#[test]
fn clear_lines_on_an_empty_board() {
    let mut board = Board::default();
    assert_eq!(board.clear_lines(), 0);
    assert_eq!(count_cells(&board, Mino::Empty), 400);
}

#[test]
fn clear_lines_removes_a_full_row() {
    let mut board = Board::default();
    board.buffer[39] = [Mino::Z; 10];
    board.buffer[38][2] = Mino::T;
    board.buffer[37][7] = Mino::L;
    assert_eq!(board.clear_lines(), 1);
    assert_eq!(board.buffer[39][2], Mino::T);
    assert_eq!(board.buffer[38][7], Mino::L);
    assert_eq!(count_cells(&board, Mino::Empty), 398);
}

#[test]
fn clear_lines_removes_rows_that_are_apart() {
    let mut board = Board::default();
    board.buffer[39] = [Mino::Z; 10];
    board.buffer[38][1] = Mino::T;
    board.buffer[37] = [Mino::S; 10];
    board.buffer[36][4] = Mino::L;
    board.buffer[35] = [Mino::Garbage; 10];
    board.buffer[34][6] = Mino::J;
    assert_eq!(board.clear_lines(), 3);
    assert_eq!(board.buffer[39][1], Mino::T);
    assert_eq!(board.buffer[38][4], Mino::L);
    assert_eq!(board.buffer[37][6], Mino::J);
    assert_eq!(count_cells(&board, Mino::Empty), 397);
    assert_eq!(board.clear_lines(), 0);
}

#[test]
fn clear_lines_counts_a_full_board() {
    let mut board = filled_board();
    assert_eq!(board.clear_lines(), 40);
    assert_eq!(count_cells(&board, Mino::Empty), 400);
}

#[test]
fn clear_lines_counts_a_row_of_mixed_kinds_as_full() {
    let mut board = Board::default();
    board.buffer[20] = [
        Mino::I,
        Mino::O,
        Mino::J,
        Mino::L,
        Mino::S,
        Mino::Z,
        Mino::T,
        Mino::Garbage,
        Mino::I,
        Mino::O,
    ];
    board.buffer[10][0] = Mino::T;
    assert_eq!(board.clear_lines(), 1);
    assert_eq!(board.buffer[11][0], Mino::T);
    assert_eq!(count_cells(&board, Mino::Empty), 399);
}

#[test]
fn push_up_moves_every_row_up() {
    let mut board = Board::default();
    board.buffer[39][0] = Mino::T;
    board.buffer[30][5] = Mino::L;
    assert!(!board.push_up(3));
    assert_eq!(board.buffer[36][0], Mino::T);
    assert_eq!(board.buffer[27][5], Mino::L);
    assert_eq!(count_cells(&board, Mino::Empty), 398);
    for y in 37..40 {
        assert_eq!(board.buffer[y], [Mino::Empty; 10]);
    }
}

#[test]
fn push_up_by_nothing_changes_nothing() {
    let mut board = Board::default();
    board.buffer[0][0] = Mino::T;
    board.buffer[39][9] = Mino::L;
    let before = board.buffer;
    assert!(!board.push_up(0));
    assert_eq!(board.buffer, before);
}

#[test]
fn push_up_tells_when_cells_leave_the_field() {
    let mut board = Board::default();
    board.buffer[2][4] = Mino::T;
    board.buffer[3][4] = Mino::L;
    assert!(board.push_up(3));
    assert_eq!(board.buffer[0][4], Mino::L);
    assert_eq!(count_cells(&board, Mino::Empty), 399);
}

#[test]
fn push_up_looks_only_at_the_rows_that_leave() {
    let mut board = Board::default();
    board.buffer[3][4] = Mino::L;
    assert!(!board.push_up(3));
    assert_eq!(board.buffer[0][4], Mino::L);
    assert!(board.push_up(1));
    assert_eq!(count_cells(&board, Mino::Empty), 400);
}

#[test]
fn push_up_by_more_than_the_field_empties_it() {
    let mut board = Board::default();
    board.buffer[39][0] = Mino::T;
    assert!(board.push_up(40));
    assert_eq!(count_cells(&board, Mino::Empty), 400);
    let mut board = Board::default();
    assert!(!board.push_up(255));
    assert_eq!(count_cells(&board, Mino::Empty), 400);
    board.buffer[20][0] = Mino::T;
    assert!(board.push_up(200));
    assert_eq!(count_cells(&board, Mino::Empty), 400);
}

#[test]
fn add_garbage_fills_a_row_but_for_the_slot() {
    let mut board = Board::default();
    board.add_garbage(39, 4);
    for x in 0..10 {
        if x == 4 {
            assert_eq!(board.buffer[39][x], Mino::Empty);
        } else {
            assert_eq!(board.buffer[39][x], Mino::Garbage);
        }
    }
    assert_eq!(count_cells(&board, Mino::Garbage), 9);
    assert_eq!(count_cells(&board, Mino::Empty), 391);
}

#[test]
fn add_garbage_overwrites_the_row() {
    let mut board = Board::default();
    board.buffer[0] = [Mino::T; 10];
    board.add_garbage(0, 0);
    assert_eq!(board.buffer[0][0], Mino::Empty);
    assert_eq!(count_cells(&board, Mino::Garbage), 9);
    assert_eq!(count_cells(&board, Mino::T), 0);
    board.add_garbage(0, 9);
    assert_eq!(board.buffer[0][0], Mino::Garbage);
    assert_eq!(board.buffer[0][9], Mino::Empty);
}

#[test]
fn a_garbage_row_is_never_cleared() {
    let mut board = Board::default();
    for row in 30..40 {
        board.add_garbage(row, 3);
    }
    assert_eq!(board.clear_lines(), 0);
    assert_eq!(count_cells(&board, Mino::Garbage), 90);
}
