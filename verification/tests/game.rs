use tetris_core::tetris::game::{pick_kind, swap_kinds};
use tetris_core::tetris::{
    Action, Board, Event, Game, GameConfig, GameSettings, Mino, Phase, Rotation, Tetrimino,
};

const KINDS: [Mino; 7] = [Mino::I, Mino::O, Mino::J, Mino::L, Mino::S, Mino::Z, Mino::T];

fn seeded(settings: GameSettings, seed: u8) -> Game {
    Game::new(GameConfig::with_seed(settings, [seed; 32]))
}

fn plain(seed: u8) -> Game {
    seeded(GameSettings::default(), seed)
}

/// A match whose next piece has the given kind, one tick after it came in.
fn with_piece(settings: GameSettings, kind: Mino) -> Game {
    let mut game = seeded(settings, 1);
    game.next_queue[0] = Tetrimino::new(kind, 0, 0);
    game.user_actions(vec![]);
    assert_eq!(game.piece.kind, kind);
    game
}

fn count_cells(board: &Board, kind: Mino) -> usize {
    let mut count = 0;
    for row in board.buffer.iter() {
        for cell in row.iter() {
            if *cell == kind {
                count += 1;
            }
        }
    }
    count
}

fn fill_rows(game: &mut Game, rows: std::ops::Range<usize>) {
    for y in rows {
        game.board.buffer[y] = [Mino::Garbage; 10];
    }
}

/// Plays a tick of the phase `Completion` on the board as it stands.
fn complete(game: &mut Game) {
    game.phase = Phase::Completion;
    game.user_actions(vec![]);
}

#[test]
fn settings_are_built_from_their_switches() {
    let settings = GameSettings::new(true, false, true, false);
    assert!(settings.jupiter);
    assert!(!settings.easy);
    assert!(settings.nes);
    assert!(!settings.random);
    assert_eq!(
        GameSettings::new(false, true, false, true),
        GameSettings {
            jupiter: false,
            easy: true,
            nes: false,
            random: true
        }
    );
}

#[test]
fn default_settings_switch_everything_off() {
    assert_eq!(
        GameSettings::default(),
        GameSettings::new(false, false, false, false)
    );
}

#[test]
fn config_without_a_seed() {
    let settings = GameSettings::new(false, true, false, false);
    let config = GameConfig::default_seed(settings);
    assert_eq!(config.settings, settings);
    assert_eq!(config.seed, None);
    assert_eq!(GameConfig::default(), GameConfig::default_seed(GameSettings::default()));
}

#[test]
fn config_with_a_seed() {
    let settings = GameSettings::new(true, true, false, false);
    let config = GameConfig::with_seed(settings, [9; 32]);
    assert_eq!(config.settings, settings);
    assert_eq!(config.seed, Some([9; 32]));
}

#[test]
fn a_new_match_is_at_its_start() {
    let game = plain(3);
    assert_eq!(count_cells(&game.board, Mino::Empty), 400);
    assert_eq!(game.score, 0);
    assert_eq!(game.level, 1);
    assert!(game.hold.is_none());
    assert_eq!(game.phase, Phase::Generation { frames_left: 0 });
    assert!(!game.done);
    assert!(game.events.is_empty());
    assert_eq!(game.garbage_acc, 0);
    assert!((1..9).contains(&game.garbage_slot));
    assert_eq!(game.settings, GameSettings::default());
    assert_eq!(game.next_queue.len(), 5);
    for piece in game.next_queue.iter() {
        assert!(KINDS.contains(&piece.kind));
        assert_eq!((piece.offset_x, piece.offset_y), (0, 0));
        assert_eq!(piece.rotation, Rotation::Zero);
        assert_eq!(piece.grid, Tetrimino::new(piece.kind, 0, 0).grid);
    }
    assert!(KINDS.contains(&game.piece.kind));
}

#[test]
fn a_new_match_without_a_seed_starts_too() {
    let mut game = Game::new(GameConfig::default_seed(GameSettings::default()));
    assert_eq!(game.next_queue.len(), 5);
    assert!(!game.done);
    game.user_actions(vec![]);
    assert!(matches!(game.phase, Phase::Falling { timer: 30 }));
}

#[test]
fn a_new_match_keeps_its_settings() {
    let settings = GameSettings::new(true, true, true, true);
    let game = seeded(settings, 0);
    assert_eq!(game.settings, settings);
}

#[test]
fn the_first_piece_of_a_new_match_has_come_in() {
    let game = plain(5);
    let kind = game.piece.kind;
    let (x, y) = match kind {
        Mino::O => (4, 18),
        Mino::I => (3, 19),
        _ => (3, 18),
    };
    assert_eq!((game.piece.offset_x, game.piece.offset_y), (x, y));
    assert_eq!(game.ghost_piece.kind, kind);
    assert_eq!((game.ghost_piece.offset_x, game.ghost_piece.offset_y), (x, 38));
}

#[test]
fn the_same_seed_gives_the_same_match() {
    for seed in [0u8, 1, 77, 255] {
        let mut a = plain(seed);
        let mut b = plain(seed);
        assert_eq!(a.garbage_slot, b.garbage_slot);
        for _ in 0..30 {
            assert_eq!(a.piece.kind, b.piece.kind);
            for (p, q) in a.next_queue.iter().zip(b.next_queue.iter()) {
                assert_eq!(p.kind, q.kind);
            }
            a.user_actions(vec![]);
            b.user_actions(vec![]);
            a.accumulate_garbage(2);
            b.accumulate_garbage(2);
            a.user_actions(vec![Action::HardDrop]);
            b.user_actions(vec![Action::HardDrop]);
            a.skip_completion();
            b.skip_completion();
            assert_eq!(a.board.buffer, b.board.buffer);
            assert_eq!(a.garbage_slot, b.garbage_slot);
            a.board = Board::default();
            b.board = Board::default();
        }
    }
}

#[test]
fn another_seed_gives_another_match() {
    let mut first = plain(1);
    let kinds = draws(&mut first, 35);
    let mut differs = false;
    for seed in 2u8..6 {
        let mut other = plain(seed);
        if draws(&mut other, 35) != kinds {
            differs = true;
        }
    }
    assert!(differs);
}

/// The kinds that a match draws, in the order of the draws.
fn draws(game: &mut Game, count: usize) -> Vec<Mino> {
    let mut kinds = vec![game.piece.kind];
    for piece in game.next_queue.iter() {
        kinds.push(piece.kind);
    }
    while kinds.len() < count {
        game.phase = Phase::Generation { frames_left: 0 };
        game.board = Board::default();
        game.user_actions(vec![]);
        assert!(!game.done);
        kinds.push(game.next_queue[4].kind);
    }
    kinds
}

#[test]
fn each_window_of_seven_draws_holds_each_kind_once() {
    for seed in 0u8..20 {
        let mut game = plain(seed);
        let kinds = draws(&mut game, 70);
        for window in kinds.chunks(7) {
            for kind in KINDS {
                assert_eq!(window.iter().filter(|k| **k == kind).count(), 1);
            }
        }
    }
}

#[test]
fn the_bag_is_shuffled() {
    let start = [Mino::O, Mino::I, Mino::J, Mino::L, Mino::S, Mino::Z, Mino::T];
    let mut orders = vec![];
    for seed in 0u8..10 {
        let mut game = plain(seed);
        let kinds = draws(&mut game, 14);
        orders.push(kinds[0..7].to_vec());
        orders.push(kinds[7..14].to_vec());
    }
    assert!(orders.iter().any(|order| order[..] != start[..]));
    assert!(orders.iter().any(|order| order != &orders[0]));
}

#[test]
fn the_queue_moves_up_by_one_with_each_piece() {
    let mut game = plain(11);
    for _ in 0..10 {
        let waiting: Vec<Mino> = game.next_queue.iter().map(|p| p.kind).collect();
        game.phase = Phase::Generation { frames_left: 0 };
        game.board = Board::default();
        game.user_actions(vec![]);
        assert_eq!(game.piece.kind, waiting[0]);
        assert_eq!(game.next_queue.len(), 5);
        for i in 0..4 {
            assert_eq!(game.next_queue[i].kind, waiting[i + 1]);
        }
    }
}

#[test]
fn random_draws_are_pieces_and_repeat() {
    let settings = GameSettings::new(false, false, false, true);
    let mut seen_other_than_o = false;
    let mut broke_a_window = false;
    for seed in 0u8..10 {
        let mut game = seeded(settings, seed);
        let kinds = draws(&mut game, 70);
        for kind in kinds.iter() {
            assert!(KINDS.contains(kind));
            if *kind != Mino::O {
                seen_other_than_o = true;
            }
        }
        for window in kinds.chunks(7) {
            for kind in KINDS {
                if window.iter().filter(|k| **k == kind).count() != 1 {
                    broke_a_window = true;
                }
            }
        }
    }
    assert!(seen_other_than_o);
    assert!(broke_a_window);
}

#[test]
fn generation_counts_down_before_the_piece_comes() {
    let mut game = plain(2);
    game.phase = Phase::Generation { frames_left: 3 };
    let kind = game.piece.kind;
    let next = game.next_queue[0].kind;
    for left in [2u8, 1, 0] {
        game.user_actions(vec![Action::Left, Action::HardDrop]);
        assert_eq!(game.phase, Phase::Generation { frames_left: left });
        assert_eq!(game.piece.kind, kind);
        assert!(game.events.is_empty());
    }
    game.user_actions(vec![]);
    assert_eq!(game.phase, Phase::Falling { timer: 30 });
    assert_eq!(game.piece.kind, next);
}

#[test]
fn an_o_piece_comes_in_and_drops_hard() {
    let mut game = with_piece(GameSettings::default(), Mino::O);
    // the offset at which its kind comes in
    assert_eq!((game.piece.offset_x, game.piece.offset_y), (4, 18));
    assert_eq!((game.ghost_piece.offset_x, game.ghost_piece.offset_y), (4, 38));
    assert_eq!(game.phase, Phase::Falling { timer: 30 });
    game.user_actions(vec![Action::HardDrop]);
    assert_eq!(game.score, 2 * 20);
    assert_eq!(game.phase, Phase::Completion);
    assert_eq!((game.piece.offset_x, game.piece.offset_y), (4, 38));
    for (y, x) in [(38, 4), (38, 5), (39, 4), (39, 5)] {
        assert_eq!(game.board.buffer[y][x], Mino::O);
    }
    assert_eq!(count_cells(&game.board, Mino::O), 4);
    assert_eq!(count_cells(&game.board, Mino::Empty), 396);
    assert!(game.events.is_empty());
}

#[test]
fn each_kind_comes_in_at_its_place() {
    for (kind, x, y) in [
        (Mino::O, 4, 18),
        (Mino::I, 3, 19),
        (Mino::T, 3, 18),
        (Mino::L, 3, 18),
        (Mino::J, 3, 18),
        (Mino::S, 3, 18),
        (Mino::Z, 3, 18),
    ] {
        let game = with_piece(GameSettings::default(), kind);
        assert_eq!((game.piece.offset_x, game.piece.offset_y), (x, y));
        assert_eq!((game.ghost_piece.offset_x, game.ghost_piece.offset_y), (x, 38));
        assert_eq!(game.piece.rotation, Rotation::Zero);
        assert!(!game.done);
    }
}

#[test]
fn the_fall_timer_goes_by_the_level() {
    for (level, timer) in [
        (1u8, 30u8),
        (2, 20),
        (3, 15),
        (4, 10),
        (5, 8),
        (6, 6),
        (7, 5),
        (8, 4),
        (9, 3),
        (10, 2),
        (11, 1),
        (12, 1),
        (255, 1),
        (0, 1),
    ] {
        let mut game = plain(4);
        game.level = level;
        game.user_actions(vec![]);
        assert_eq!(game.phase, Phase::Falling { timer });
    }
}

#[test]
fn the_piece_falls_when_the_timer_has_run_down() {
    let mut game = with_piece(GameSettings::default(), Mino::T);
    assert_eq!(game.piece.offset_y, 18);
    for left in (0..30u8).rev() {
        game.user_actions(vec![]);
        assert_eq!(game.phase, Phase::Falling { timer: left });
        assert_eq!(game.piece.offset_y, 18);
    }
    game.user_actions(vec![]);
    assert_eq!(game.phase, Phase::Falling { timer: 30 });
    assert_eq!(game.piece.offset_y, 19);
    assert_eq!(game.score, 0);
}

#[test]
fn a_soft_drop_takes_nine_ticks_off_the_timer() {
    let mut game = with_piece(GameSettings::default(), Mino::T);
    game.user_actions(vec![Action::SoftDrop]);
    assert_eq!(game.phase, Phase::Falling { timer: 20 });
    game.user_actions(vec![Action::SoftDrop]);
    assert_eq!(game.phase, Phase::Falling { timer: 10 });
    game.user_actions(vec![Action::SoftDrop]);
    assert_eq!(game.phase, Phase::Falling { timer: 0 });
    assert_eq!(game.piece.offset_y, 18);
    assert_eq!(game.score, 0);
    // the row that falls in a tick with a soft drop scores the level
    game.user_actions(vec![Action::SoftDrop]);
    assert_eq!(game.phase, Phase::Falling { timer: 30 });
    assert_eq!(game.piece.offset_y, 19);
    assert_eq!(game.score, 1);
}

#[test]
fn two_soft_drops_in_a_tick_take_eighteen() {
    let mut game = with_piece(GameSettings::default(), Mino::T);
    game.user_actions(vec![Action::SoftDrop, Action::SoftDrop]);
    assert_eq!(game.phase, Phase::Falling { timer: 11 });
}

#[test]
fn a_soft_drop_scores_the_level() {
    let mut game = with_piece(GameSettings::default(), Mino::T);
    game.level = 7;
    game.phase = Phase::Falling { timer: 3 };
    game.user_actions(vec![Action::SoftDrop]);
    assert_eq!(game.score, 7);
    assert_eq!(game.piece.offset_y, 19);
    assert_eq!(game.phase, Phase::Falling { timer: 5 });
}

#[test]
fn jupiter_drops_softly_in_every_tick() {
    let mut game = with_piece(GameSettings::new(true, false, false, false), Mino::T);
    assert_eq!(game.phase, Phase::Falling { timer: 30 });
    game.user_actions(vec![]);
    assert_eq!(game.phase, Phase::Falling { timer: 20 });
    game.user_actions(vec![Action::Left]);
    assert_eq!(game.phase, Phase::Falling { timer: 10 });
    // with a soft drop of the player there is no second one
    game.user_actions(vec![Action::SoftDrop]);
    assert_eq!(game.phase, Phase::Falling { timer: 0 });
    // the forced soft drop scores nothing
    game.user_actions(vec![]);
    assert_eq!(game.phase, Phase::Falling { timer: 30 });
    assert_eq!(game.piece.offset_y, 19);
    assert_eq!(game.score, 0);
}

#[test]
fn left_and_right_move_the_piece_and_its_ghost() {
    let mut game = with_piece(GameSettings::default(), Mino::O);
    game.user_actions(vec![Action::Left]);
    assert_eq!((game.piece.offset_x, game.piece.offset_y), (3, 18));
    assert_eq!((game.ghost_piece.offset_x, game.ghost_piece.offset_y), (3, 38));
    game.user_actions(vec![Action::Right, Action::Right, Action::Right]);
    assert_eq!((game.piece.offset_x, game.piece.offset_y), (6, 18));
    assert_eq!((game.ghost_piece.offset_x, game.ghost_piece.offset_y), (6, 38));
}

#[test]
fn the_piece_stops_at_the_wall() {
    let mut game = with_piece(GameSettings::default(), Mino::O);
    game.user_actions(vec![Action::Left; 9]);
    assert_eq!(game.piece.offset_x, 0);
    game.user_actions(vec![Action::Right; 20]);
    assert_eq!(game.piece.offset_x, 8);
}

#[test]
fn actions_are_applied_in_their_order() {
    let mut game = with_piece(GameSettings::default(), Mino::O);
    game.user_actions(vec![Action::Left, Action::Left, Action::HardDrop, Action::Right]);
    assert_eq!(game.phase, Phase::Completion);
    for (y, x) in [(38, 2), (38, 3), (39, 2), (39, 3)] {
        assert_eq!(game.board.buffer[y][x], Mino::O);
    }
    assert_eq!(count_cells(&game.board, Mino::O), 4);
    // the move after the drop ran into the cells that the drop had filled
    assert_eq!((game.piece.offset_x, game.piece.offset_y), (2, 38));
}

#[test]
fn turning_turns_the_piece_and_its_ghost() {
    let mut game = with_piece(GameSettings::default(), Mino::I);
    game.user_actions(vec![Action::Cw]);
    assert_eq!(game.piece.rotation, Rotation::Right);
    assert_eq!((game.piece.offset_x, game.piece.offset_y), (3, 19));
    assert_eq!(game.ghost_piece.rotation, Rotation::Right);
    assert_eq!((game.ghost_piece.offset_x, game.ghost_piece.offset_y), (3, 36));
    game.user_actions(vec![Action::Ccw, Action::Ccw]);
    assert_eq!(game.piece.rotation, Rotation::Left);
    assert_eq!((game.ghost_piece.offset_x, game.ghost_piece.offset_y), (3, 36));
}

#[test]
fn a_hard_drop_scores_two_for_each_row() {
    let mut game = with_piece(GameSettings::default(), Mino::I);
    game.level = 9;
    game.user_actions(vec![Action::HardDrop]);
    assert_eq!(game.score, 2 * 19);
    for x in 3..7 {
        assert_eq!(game.board.buffer[39][x], Mino::I);
    }
}

#[test]
fn a_hard_drop_on_the_floor_scores_nothing() {
    let mut game = with_piece(GameSettings::default(), Mino::O);
    game.piece.offset_y = 38;
    game.phase = Phase::Lock;
    game.user_actions(vec![Action::HardDrop]);
    assert_eq!(game.score, 0);
    assert_eq!(game.phase, Phase::Completion);
    assert_eq!(count_cells(&game.board, Mino::O), 4);
}

#[test]
fn the_piece_waits_to_be_locked_once_it_has_landed() {
    let mut game = with_piece(GameSettings::default(), Mino::O);
    game.piece.offset_y = 37;
    game.phase = Phase::Falling { timer: 0 };
    game.user_actions(vec![]);
    assert_eq!(game.piece.offset_y, 38);
    assert_eq!(game.phase, Phase::Lock);
}

#[test]
fn a_landed_piece_is_locked_after_thirty_ticks() {
    let mut game = with_piece(GameSettings::default(), Mino::O);
    game.piece.offset_y = 38;
    game.phase = Phase::Lock;
    for _ in 0..30 {
        game.user_actions(vec![]);
        assert_eq!(game.phase, Phase::Lock);
        assert_eq!(count_cells(&game.board, Mino::O), 0);
    }
    game.user_actions(vec![]);
    assert_eq!(game.phase, Phase::Completion);
    assert_eq!(count_cells(&game.board, Mino::O), 4);
    assert_eq!(game.score, 0);
}

#[test]
fn five_moves_use_up_the_rest_of_a_landed_piece() {
    let mut game = with_piece(GameSettings::default(), Mino::O);
    game.piece.offset_y = 38;
    game.phase = Phase::Lock;
    for action in [
        Action::Left,
        Action::Right,
        Action::Left,
        Action::Right,
        Action::Left,
    ] {
        game.user_actions(vec![action]);
        assert_eq!(game.phase, Phase::Lock);
    }
    assert_eq!(game.piece.offset_x, 3);
    // the rest is over although it was renewed a tick ago
    game.user_actions(vec![Action::Right]);
    assert_eq!(game.phase, Phase::Completion);
    assert_eq!(game.piece.offset_x, 3);
    for (y, x) in [(38, 3), (38, 4), (39, 3), (39, 4)] {
        assert_eq!(game.board.buffer[y][x], Mino::O);
    }
}

#[test]
fn five_moves_in_one_tick_use_up_the_rest_too() {
    let mut game = with_piece(GameSettings::default(), Mino::O);
    game.piece.offset_y = 38;
    game.phase = Phase::Lock;
    game.user_actions(vec![
        Action::Left,
        Action::Right,
        Action::Left,
        Action::Right,
        Action::Left,
    ]);
    assert_eq!(game.phase, Phase::Lock);
    game.user_actions(vec![]);
    assert_eq!(game.phase, Phase::Completion);
    assert_eq!(count_cells(&game.board, Mino::O), 4);
}

#[test]
fn four_moves_renew_the_rest() {
    let mut game = with_piece(GameSettings::default(), Mino::O);
    game.piece.offset_y = 38;
    game.phase = Phase::Lock;
    for _ in 0..20 {
        game.user_actions(vec![]);
    }
    for action in [Action::Left, Action::Right, Action::Left, Action::Right] {
        game.user_actions(vec![action]);
        assert_eq!(game.phase, Phase::Lock);
    }
    // the fourth move set the rest to 30 ticks, of which one has passed
    for _ in 0..29 {
        game.user_actions(vec![]);
        assert_eq!(game.phase, Phase::Lock);
    }
    game.user_actions(vec![]);
    assert_eq!(game.phase, Phase::Completion);
}

#[test]
fn moves_that_fail_renew_nothing() {
    let mut game = with_piece(GameSettings::default(), Mino::O);
    game.piece.offset_x = 0;
    game.piece.offset_y = 38;
    game.phase = Phase::Lock;
    for _ in 0..30 {
        game.user_actions(vec![Action::Left]);
        assert_eq!(game.phase, Phase::Lock);
    }
    game.user_actions(vec![Action::Left]);
    assert_eq!(game.phase, Phase::Completion);
}

#[test]
fn a_landed_piece_that_is_moved_off_its_ground_falls_again() {
    let mut game = with_piece(GameSettings::default(), Mino::O);
    game.board.buffer[39][4] = Mino::Garbage;
    game.board.buffer[39][5] = Mino::Garbage;
    game.piece.offset_y = 37;
    game.phase = Phase::Lock;
    game.user_actions(vec![Action::Left, Action::Left]);
    assert_eq!(game.phase, Phase::Falling { timer: 30 });
    assert_eq!((game.piece.offset_x, game.piece.offset_y), (2, 37));
}

#[test]
fn the_nes_setting_locks_at_once() {
    let mut game = with_piece(GameSettings::new(false, false, true, false), Mino::O);
    game.piece.offset_y = 38;
    game.phase = Phase::Lock;
    game.user_actions(vec![Action::Left]);
    assert_eq!(game.phase, Phase::Completion);
    assert_eq!(game.piece.offset_x, 4);
    assert_eq!(count_cells(&game.board, Mino::O), 4);
}

#[test]
fn hold_keeps_the_piece_and_brings_the_next() {
    let mut game = with_piece(GameSettings::default(), Mino::T);
    let next = game.next_queue[0].kind;
    let after = game.next_queue[1].kind;
    game.user_actions(vec![Action::Cw, Action::Hold]);
    let held = game.hold.as_ref().unwrap();
    assert_eq!(held.kind, Mino::T);
    assert_eq!(held.rotation, Rotation::Zero);
    assert_eq!((held.offset_x, held.offset_y), (0, 0));
    assert_eq!(held.grid, Tetrimino::new(Mino::T, 0, 0).grid);
    assert_eq!(game.piece.kind, next);
    assert_eq!(game.next_queue.len(), 5);
    assert_eq!(game.next_queue[0].kind, after);
}

#[test]
fn hold_works_once_for_each_piece() {
    let mut game = with_piece(GameSettings::default(), Mino::T);
    game.next_queue[0] = Tetrimino::new(Mino::L, 0, 0);
    game.next_queue[1] = Tetrimino::new(Mino::J, 0, 0);
    game.user_actions(vec![Action::Hold, Action::Hold]);
    assert_eq!(game.piece.kind, Mino::L);
    assert_eq!(game.hold.as_ref().unwrap().kind, Mino::T);
    game.user_actions(vec![Action::Hold]);
    assert_eq!(game.piece.kind, Mino::L);
    assert_eq!(game.hold.as_ref().unwrap().kind, Mino::T);
    // the next piece can be exchanged again, for the held one
    game.user_actions(vec![Action::HardDrop]);
    game.skip_completion();
    game.user_actions(vec![]);
    assert_eq!(game.piece.kind, Mino::J);
    game.user_actions(vec![Action::Hold]);
    assert_eq!(game.piece.kind, Mino::T);
    assert_eq!((game.piece.offset_x, game.piece.offset_y), (3, 18));
    assert_eq!(game.hold.as_ref().unwrap().kind, Mino::J);
    assert_eq!(game.next_queue.len(), 5);
}

#[test]
fn completion_scores_by_the_rows_cleared() {
    for (rows, score) in [(0usize, 0u32), (1, 100), (2, 300), (3, 550), (4, 800), (5, 0)] {
        let mut game = plain(6);
        fill_rows(&mut game, 40 - rows..40);
        complete(&mut game);
        assert_eq!(game.score, score);
        assert_eq!(game.events, vec![Event::Completion(rows as u8)]);
        assert_eq!(game.phase, Phase::Generation { frames_left: 12 });
        assert_eq!(count_cells(&game.board, Mino::Empty), 400);
    }
}

#[test]
fn completion_scores_times_the_level() {
    let mut game = plain(6);
    game.level = 3;
    fill_rows(&mut game, 36..40);
    complete(&mut game);
    assert_eq!(game.score, 2400);
}

#[test]
fn five_rows_make_a_level() {
    let mut game = plain(6);
    for cleared in 1..=4u32 {
        fill_rows(&mut game, 39..40);
        complete(&mut game);
        assert_eq!(game.score, 100 * cleared);
        assert_eq!(game.level, 1);
    }
    fill_rows(&mut game, 39..40);
    complete(&mut game);
    assert_eq!(game.score, 500);
    assert_eq!(game.level, 2);
    // at level 2 a row scores 200, and the next level is five rows away
    for cleared in 1..=4u32 {
        fill_rows(&mut game, 39..40);
        complete(&mut game);
        assert_eq!(game.score, 500 + 200 * cleared);
        assert_eq!(game.level, 2);
    }
    fill_rows(&mut game, 39..40);
    complete(&mut game);
    assert_eq!(game.level, 3);
}

#[test]
fn four_clears_of_growing_size() {
    let mut game = plain(6);
    fill_rows(&mut game, 39..40);
    complete(&mut game);
    assert_eq!((game.score, game.level), (100, 1));
    fill_rows(&mut game, 38..40);
    complete(&mut game);
    assert_eq!((game.score, game.level), (400, 1));
    // the third clear brings the rows cleared to six: one level up
    fill_rows(&mut game, 37..40);
    complete(&mut game);
    assert_eq!((game.score, game.level), (950, 2));
    fill_rows(&mut game, 36..40);
    complete(&mut game);
    assert_eq!((game.score, game.level), (950 + 2 * 800, 2));
}

#[test]
fn four_rows_at_once_leave_the_level() {
    let mut game = plain(6);
    fill_rows(&mut game, 36..40);
    complete(&mut game);
    assert_eq!((game.score, game.level), (800, 1));
    fill_rows(&mut game, 39..40);
    complete(&mut game);
    assert_eq!((game.score, game.level), (900, 2));
}

#[test]
fn the_easy_setting_keeps_the_level() {
    let mut game = seeded(GameSettings::new(false, true, false, false), 6);
    let mut score = 0;
    for (rows, gain) in [(1usize, 100u32), (2, 300), (3, 550), (4, 800), (4, 800)] {
        fill_rows(&mut game, 40 - rows..40);
        complete(&mut game);
        score += gain;
        assert_eq!(game.score, score);
        assert_eq!(game.level, 1);
    }
}

#[test]
fn the_level_stops_at_its_largest() {
    let mut game = plain(6);
    game.level = 255;
    fill_rows(&mut game, 35..40);
    complete(&mut game);
    assert_eq!(game.level, 255);
}

#[test]
fn garbage_comes_in_with_the_next_completion() {
    let mut game = plain(8);
    game.board.buffer[39][0] = Mino::T;
    game.board.buffer[38][9] = Mino::L;
    game.accumulate_garbage(2);
    game.accumulate_garbage(1);
    assert_eq!(game.garbage_acc, 3);
    let slot = game.garbage_slot as usize;
    complete(&mut game);
    assert_eq!(game.garbage_acc, 0);
    assert_eq!(game.events, vec![Event::Completion(0)]);
    assert!(!game.done);
    for y in 37..40 {
        assert_eq!(count_row(&game.board, y, Mino::Garbage), 9);
        assert_eq!(count_row(&game.board, y, Mino::Empty), 1);
    }
    assert_eq!(game.board.buffer[39][slot], Mino::Empty);
    assert_eq!(game.board.buffer[36][0], Mino::T);
    assert_eq!(game.board.buffer[35][9], Mino::L);
    assert_eq!(count_cells(&game.board, Mino::Garbage), 27);
    assert_eq!(count_cells(&game.board, Mino::Empty), 400 - 29);
    assert!(game.garbage_slot < 10);
}

fn count_row(board: &Board, y: usize, kind: Mino) -> usize {
    board.buffer[y].iter().filter(|cell| **cell == kind).count()
}

#[test]
fn garbage_comes_in_after_the_rows_are_cleared() {
    let mut game = plain(8);
    fill_rows(&mut game, 39..40);
    game.board.buffer[38][2] = Mino::S;
    game.accumulate_garbage(1);
    complete(&mut game);
    assert_eq!(game.events, vec![Event::Completion(1)]);
    assert_eq!(game.score, 100);
    assert_eq!(count_row(&game.board, 39, Mino::Garbage), 9);
    assert_eq!(game.board.buffer[38][2], Mino::S);
    assert_eq!(count_cells(&game.board, Mino::Empty), 400 - 10);
}

#[test]
fn no_garbage_leaves_the_field_and_the_slot() {
    let mut game = plain(8);
    game.board.buffer[39][0] = Mino::T;
    let slot = game.garbage_slot;
    let before = game.board.buffer;
    complete(&mut game);
    assert_eq!(game.board.buffer, before);
    assert_eq!(game.garbage_slot, slot);
}

#[test]
fn a_whole_field_of_garbage() {
    let mut game = plain(8);
    game.accumulate_garbage(40);
    complete(&mut game);
    for y in 0..40 {
        assert_eq!(count_row(&game.board, y, Mino::Garbage), 9);
        assert_eq!(count_row(&game.board, y, Mino::Empty), 1);
    }
    assert!(!game.done);
    let mut game = plain(8);
    game.accumulate_garbage(200);
    complete(&mut game);
    assert_eq!(count_cells(&game.board, Mino::Garbage), 360);
    assert_eq!(game.garbage_acc, 0);
}

#[test]
fn the_gap_of_the_garbage_moves_now_and_then() {
    let mut stayed = 0;
    let mut moved = 0;
    let mut slots = vec![];
    for seed in 0u8..8 {
        let mut game = plain(seed);
        slots.push(game.garbage_slot as usize);
        game.accumulate_garbage(40);
        complete(&mut game);
        let gaps: Vec<usize> = (0..40)
            .rev()
            .map(|y| {
                game.board.buffer[y]
                    .iter()
                    .position(|cell| *cell == Mino::Empty)
                    .unwrap()
            })
            .collect();
        assert_eq!(gaps[0], slots[slots.len() - 1]);
        for pair in gaps.windows(2) {
            if pair[0] == pair[1] {
                stayed += 1;
            } else {
                moved += 1;
            }
        }
        slots.extend(gaps);
    }
    // the gap moves after fewer than 3 rows in 10
    assert!(moved > 0);
    assert!(stayed > moved);
    // the gap is drawn from all the columns
    assert!(slots.iter().any(|slot| *slot >= 2));
    assert!(slots.iter().all(|slot| *slot < 10));
}

#[test]
fn garbage_that_pushes_cells_off_the_field_ends_the_match() {
    let mut game = plain(8);
    game.board.buffer[1][3] = Mino::T;
    game.accumulate_garbage(2);
    complete(&mut game);
    assert!(game.done);
    assert_eq!(game.events, vec![Event::Completion(0), Event::Gameover]);
    assert_eq!(count_cells(&game.board, Mino::T), 0);
    assert_eq!(count_cells(&game.board, Mino::Garbage), 18);
}

#[test]
fn a_piece_that_cannot_come_in_ends_the_match() {
    let mut game = plain(9);
    game.board.buffer[19][4] = Mino::Garbage;
    game.board.buffer[20][4] = Mino::Garbage;
    let kind = game.piece.kind;
    game.user_actions(vec![]);
    assert!(game.done);
    assert_eq!(game.events, vec![Event::Gameover]);
    assert_eq!(game.piece.kind, kind);
}

#[test]
fn a_piece_that_cannot_fall_ends_the_match() {
    let mut game = plain(9);
    game.next_queue[0] = Tetrimino::new(Mino::O, 0, 0);
    // the O piece fits at rows 18 and 19, and at rows 19 and 20, but no lower
    game.board.buffer[21][4] = Mino::Garbage;
    game.user_actions(vec![]);
    assert!(game.done);
    assert_eq!(game.events, vec![Event::Gameover]);
}

#[test]
fn a_match_that_is_over_ignores_its_ticks() {
    let mut game = plain(9);
    game.board.buffer[19][4] = Mino::Garbage;
    game.board.buffer[20][4] = Mino::Garbage;
    game.user_actions(vec![]);
    assert!(game.done);
    let phase = game.phase;
    let board = game.board.buffer;
    let (x, y) = (game.piece.offset_x, game.piece.offset_y);
    for _ in 0..40 {
        game.user_actions(vec![Action::Left, Action::HardDrop, Action::Hold]);
        assert!(game.done);
        assert!(game.events.is_empty());
        assert_eq!(game.phase, phase);
        assert_eq!(game.board.buffer, board);
        assert_eq!((game.piece.offset_x, game.piece.offset_y), (x, y));
        assert_eq!(game.score, 0);
    }
}

#[test]
fn events_last_for_one_tick() {
    let mut game = plain(6);
    fill_rows(&mut game, 39..40);
    complete(&mut game);
    assert_eq!(game.events, vec![Event::Completion(1)]);
    game.user_actions(vec![]);
    assert!(game.events.is_empty());
}

#[test]
fn the_next_piece_comes_twelve_ticks_after_completion() {
    let mut game = with_piece(GameSettings::default(), Mino::O);
    let next = game.next_queue[0].kind;
    game.user_actions(vec![Action::HardDrop]);
    game.user_actions(vec![]);
    assert_eq!(game.events, vec![Event::Completion(0)]);
    assert_eq!(game.phase, Phase::Generation { frames_left: 12 });
    for left in (0..12u8).rev() {
        game.user_actions(vec![]);
        assert_eq!(game.phase, Phase::Generation { frames_left: left });
    }
    game.user_actions(vec![]);
    assert_eq!(game.phase, Phase::Falling { timer: 30 });
    assert_eq!(game.piece.kind, next);
}

#[test]
fn skip_completion_brings_the_next_piece_at_once() {
    let mut game = with_piece(GameSettings::default(), Mino::O);
    let next = game.next_queue[0].kind;
    fill_rows(&mut game, 39..40);
    game.user_actions(vec![Action::HardDrop]);
    assert_eq!(game.phase, Phase::Completion);
    game.skip_completion();
    assert_eq!(game.phase, Phase::Generation { frames_left: 0 });
    assert_eq!(game.events, vec![Event::Completion(1)]);
    assert_eq!(game.score, 2 * 19 + 100);
    game.user_actions(vec![]);
    assert_eq!(game.piece.kind, next);
}

#[test]
fn skip_completion_does_nothing_in_other_phases() {
    let mut game = with_piece(GameSettings::default(), Mino::O);
    game.skip_completion();
    assert_eq!(game.phase, Phase::Falling { timer: 30 });
    assert_eq!((game.piece.offset_x, game.piece.offset_y), (4, 18));
    game.phase = Phase::Generation { frames_left: 7 };
    game.skip_completion();
    assert_eq!(game.phase, Phase::Generation { frames_left: 7 });
}

#[test]
fn a_piece_lower_than_before_gets_its_moves_back() {
    let mut game = with_piece(GameSettings::default(), Mino::O);
    game.board.buffer[38][4] = Mino::Garbage;
    game.board.buffer[38][5] = Mino::Garbage;
    game.piece.offset_y = 36;
    game.phase = Phase::Lock;
    // two of the five moves are used on the ledge, two to leave it
    game.user_actions(vec![Action::Left, Action::Right]);
    assert_eq!(game.phase, Phase::Lock);
    // the piece leaves the ledge and falls
    game.user_actions(vec![Action::Left, Action::Left]);
    assert_eq!(game.phase, Phase::Falling { timer: 30 });
    game.phase = Phase::Falling { timer: 0 };
    game.user_actions(vec![]);
    assert_eq!(game.piece.offset_y, 37);
    game.phase = Phase::Falling { timer: 0 };
    game.user_actions(vec![]);
    assert_eq!(game.piece.offset_y, 38);
    assert_eq!(game.phase, Phase::Lock);
    // all five moves are there again
    game.user_actions(vec![Action::Left, Action::Right, Action::Left, Action::Right]);
    assert_eq!(game.phase, Phase::Lock);
    game.user_actions(vec![]);
    assert_eq!(game.phase, Phase::Lock);
    game.user_actions(vec![Action::Left]);
    assert_eq!(game.phase, Phase::Lock);
    game.user_actions(vec![]);
    assert_eq!(game.phase, Phase::Completion);
}

#[test]
fn a_turn_on_the_floor_can_lift_the_piece() {
    let mut game = with_piece(GameSettings::default(), Mino::T);
    game.piece.offset_y = 38;
    game.phase = Phase::Lock;
    game.user_actions(vec![Action::Cw]);
    assert_eq!(game.piece.rotation, Rotation::Right);
    assert_eq!((game.piece.offset_x, game.piece.offset_y), (2, 37));
    assert_eq!(game.phase, Phase::Lock);
}

#[test]
fn a_match_shows_its_parts() {
    let mut game = with_piece(GameSettings::default(), Mino::O);
    game.next_queue[2] = Tetrimino::new(Mino::Z, 0, 0);
    game.accumulate_garbage(3);
    assert_eq!(game.score(), 0);
    assert_eq!(game.level(), 1);
    assert!(!game.is_done());
    assert_eq!(game.phase(), Phase::Falling { timer: 30 });
    assert!(game.events().is_empty());
    assert_eq!(game.garbage_owed(), 3);
    assert_eq!(game.hold_kind(), None);
    assert_eq!(game.board().buffer, Board::default().buffer);
    assert_eq!(game.piece().kind, Mino::O);
    assert_eq!(game.piece().offset_y, 18);
    assert_eq!(game.ghost_piece().offset_y, 38);
    let kinds = game.queue_kinds();
    assert_eq!(kinds.len(), 5);
    assert_eq!(kinds[2], Mino::Z);
    for (kind, piece) in kinds.iter().zip(game.next_queue.iter()) {
        assert_eq!(*kind, piece.kind);
    }
    game.user_actions(vec![Action::Hold]);
    assert_eq!(game.hold_kind(), Some(Mino::O));
    game.user_actions(vec![Action::HardDrop]);
    game.user_actions(vec![]);
    assert_eq!(game.events(), &vec![Event::Completion(0)]);
    assert_eq!(game.garbage_owed(), 0);
    assert_eq!(game.score(), game.score);
}

#[test]
fn a_piece_stands_where_its_kind_comes_in() {
    let mut game = Game::new(GameConfig::with_seed(GameSettings::default(), [7u8; 32]));
    game.next_queue[0] = Tetrimino::new(Mino::O, 0, 0);
    game.user_actions(vec![]);
    assert_eq!(game.piece.kind, Mino::O);
    assert_eq!((game.piece.offset_x, game.piece.offset_y), (4, 18));
    assert_eq!(game.phase, Phase::Falling { timer: 30 });
    assert!(!game.done);
    assert_eq!(game.next_queue.len(), 5);
    assert_eq!((game.ghost_piece.offset_x, game.ghost_piece.offset_y), (4, 38));
}

#[test]
fn a_piece_that_is_fetched_by_a_hold_stands_where_its_kind_comes_in() {
    let mut game = with_piece(GameSettings::default(), Mino::T);
    game.next_queue[0] = Tetrimino::new(Mino::I, 0, 0);
    let waiting: Vec<Mino> = game.next_queue.iter().map(|p| p.kind).collect();
    game.user_actions(vec![Action::Right, Action::Hold, Action::Hold]);
    assert_eq!(game.piece.kind, Mino::I);
    assert_eq!((game.piece.offset_x, game.piece.offset_y), (3, 19));
    assert_eq!(game.hold.as_ref().unwrap().kind, Mino::T);
    assert_eq!(game.next_queue.len(), 5);
    for i in 0..4 {
        assert_eq!(game.next_queue[i].kind, waiting[i + 1]);
    }
    // the held piece comes back to the place of its kind
    game.user_actions(vec![Action::HardDrop]);
    game.skip_completion();
    game.user_actions(vec![]);
    let queued = game.piece.kind;
    game.user_actions(vec![Action::Left, Action::Hold]);
    assert_eq!(game.piece.kind, Mino::T);
    assert_eq!((game.piece.offset_x, game.piece.offset_y), (3, 18));
    assert_eq!(game.hold.as_ref().unwrap().kind, queued);
}

#[test]
fn a_step_of_a_shuffle_exchanges_two_kinds() {
    let start = [Mino::O, Mino::I, Mino::J, Mino::L, Mino::S, Mino::Z, Mino::T];
    let mut bag = start;
    swap_kinds(&mut bag, 0, 4);
    assert_eq!(
        bag,
        [Mino::S, Mino::I, Mino::J, Mino::L, Mino::O, Mino::Z, Mino::T]
    );
    swap_kinds(&mut bag, 1, 6);
    assert_eq!(
        bag,
        [Mino::S, Mino::T, Mino::J, Mino::L, Mino::O, Mino::Z, Mino::I]
    );
    swap_kinds(&mut bag, 3, 3);
    swap_kinds(&mut bag, 6, 6);
    assert_eq!(
        bag,
        [Mino::S, Mino::T, Mino::J, Mino::L, Mino::O, Mino::Z, Mino::I]
    );
    let mut bag = start;
    for (i, drawn) in [6usize, 5, 4, 3, 4, 5, 6].iter().enumerate() {
        swap_kinds(&mut bag, i, *drawn);
    }
    assert_eq!(
        bag,
        [Mino::T, Mino::Z, Mino::S, Mino::L, Mino::J, Mino::I, Mino::O]
    );
}

#[test]
fn a_tick_that_applies_no_actions_takes_any_number() {
    // the phase Completion scores and clears whatever the batch
    let mut game = plain(6);
    game.level = 3;
    fill_rows(&mut game, 37..40);
    game.phase = Phase::Completion;
    game.user_actions(vec![Action::HardDrop; 1000]);
    assert_eq!(game.score, 3 * 550);
    assert_eq!(game.events, vec![Event::Completion(3)]);
    assert_eq!(game.phase, Phase::Generation { frames_left: 12 });
    assert_eq!(count_cells(&game.board, Mino::Empty), 400);
    assert_eq!(game.level, 3);
    // the wait for the next piece
    game.user_actions(vec![Action::Left; 500]);
    assert_eq!(game.phase, Phase::Generation { frames_left: 11 });
    // a piece that is locked at once
    let mut game = with_piece(GameSettings::new(false, false, true, false), Mino::O);
    game.piece.offset_y = 38;
    game.phase = Phase::Lock;
    game.user_actions(vec![Action::Left; 300]);
    assert_eq!(game.phase, Phase::Completion);
    assert_eq!(game.piece.offset_x, 4);
    assert_eq!(game.score, 0);
    assert!(game.events.is_empty());
    for (y, x) in [(38, 4), (38, 5), (39, 4), (39, 5)] {
        assert_eq!(game.board.buffer[y][x], Mino::O);
    }
    // a match that is over
    let mut game = plain(9);
    game.done = true;
    game.phase = Phase::Falling { timer: 5 };
    game.user_actions(vec![Action::HardDrop; 400]);
    assert_eq!(game.phase, Phase::Falling { timer: 5 });
    assert_eq!(game.score, 0);
}

#[test]
fn a_draw_with_replacement_takes_the_kind_at_the_place_drawn() {
    let bag = [Mino::O, Mino::I, Mino::J, Mino::L, Mino::S, Mino::Z, Mino::T];
    for (drawn, kind) in bag.iter().enumerate() {
        assert_eq!(pick_kind(&bag, drawn), *kind);
    }
    assert_eq!(bag, [Mino::O, Mino::I, Mino::J, Mino::L, Mino::S, Mino::Z, Mino::T]);
}
