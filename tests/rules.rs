use tetris_rules::game::{spawn_position, Fall, FallingPiece, GameRules, PlayerInput, CLEAR_DELAY, LOCK_DELAY};
use tetris_rules::generator::PieceGenerator;
use tetris_rules::geometry::{GridPos, PieceKind, Spin};
use tetris_rules::grid::{CellState, GridState};
use tetris_rules::progress::{line_points, Score, Stopwatch, MIN_ROW_DELAY, XP};
use tetris_rules::timer::{Timer, TimerMode};
use tetris_rules::{GRID_HEIGHT, GRID_VISIBLE_HEIGHT, GRID_WIDTH};

const SECOND: u64 = 1_000_000_000;

fn pos(x: u8, y: u8) -> GridPos {
    GridPos { x, y }
}

fn fresh_piece(kind: PieceKind, at: GridPos, spin: u8) -> FallingPiece {
    FallingPiece {
        kind,
        pos: at,
        spin: Spin(spin),
        fall: Fall {
            down_timer: Timer::new(SECOND, TimerMode::Repeating),
            lock_timer: Timer::new(LOCK_DELAY, TimerMode::Once),
        },
    }
}

fn filled_count(grid: &GridState, y: u8) -> usize {
    (0..GRID_WIDTH).filter(|&x| grid.is_filled(&pos(x, y))).count()
}

#[test]
fn test_score_display() {
    assert_eq!(Score(0).to_display_string(), "0");
    assert_eq!(Score(3).to_display_string(), "3");
    assert_eq!(Score(9).to_display_string(), "9");
    assert_eq!(Score(33).to_display_string(), "33");
    assert_eq!(Score(128).to_display_string(), "128");
    assert_eq!(Score(1000).to_display_string(), "1,000");
    assert_eq!(Score(9999).to_display_string(), "9,999");
    assert_eq!(Score(99999).to_display_string(), "99,999");
    assert_eq!(Score(999999).to_display_string(), "999,999");
    assert_eq!(Score(1000000).to_display_string(), "1,000,000");
}

#[test]
fn score_display_pads_inner_groups() {
    assert_eq!(Score(1_002_030).to_display_string(), "1,002,030");
    assert_eq!(Score(u64::MAX).to_display_string(), "18,446,744,073,709,551,615");
}

#[test]
fn level_and_clock_display() {
    assert_eq!(XP(0).to_display_string(), "1");
    assert_eq!(XP(25).to_display_string(), "3");
    assert_eq!(Stopwatch { since_begining: 0 }.to_display_string(), "00:00");
    assert_eq!(Stopwatch { since_begining: 65 * SECOND }.to_display_string(), "01:05");
    assert_eq!(Stopwatch { since_begining: 3725 * SECOND }.to_display_string(), "0102:05");
}

#[test]
fn base_tables() {
    assert_eq!(PieceKind::all().len(), 7);
    assert_eq!(PieceKind::I.base_width(), 4);
    assert_eq!(PieceKind::O.base_width(), 2);
    assert_eq!(PieceKind::T.base_width(), 3);
    assert_eq!(PieceKind::L.base_shape(), [[-1, 0], [0, 0], [1, 0], [1, 1]]);
    assert_eq!(PieceKind::I.wall_kick_incr_dirs()[0], [[-2, 0], [1, 0], [-2, -1], [1, 2]]);
    assert_eq!(PieceKind::T.wall_kick_incr_dirs()[0], [[-1, 0], [-1, 1], [0, -2], [-1, -2]]);
}

#[test]
fn rotation_turns_clockwise_about_even_boxes() {
    assert_eq!(PieceKind::T.rotation(Spin(1)), [[0, 1], [0, 0], [0, -1], [1, 0]]);
    assert_eq!(PieceKind::I.rotation(Spin(1)), [[0, 1], [0, 0], [0, -1], [0, -2]]);
    assert_eq!(PieceKind::I.rotation(Spin(3)), [[-1, -2], [-1, -1], [-1, 0], [-1, 1]]);
    assert_eq!(PieceKind::O.rotation(Spin(2)), [[0, 0], [-1, 0], [0, -1], [-1, -1]]);
}

#[test]
fn covered_cells_are_four_distinct_and_period_four() {
    for kind in PieceKind::all() {
        for spin in 0..4u8 {
            let cells = kind.piece_covered_cells(pos(5, 10), Spin(spin));
            for i in 0..4 {
                for j in 0..4 {
                    if i != j {
                        assert_ne!(cells[i], cells[j]);
                    }
                }
            }
            assert_eq!(kind.rotation(Spin(spin)), kind.rotation(Spin(spin + 4)));
        }
        assert_eq!(kind.rotation(Spin(4)), kind.base_shape());
    }
}

#[test]
fn covered_cells_wrap_around() {
    let cells = PieceKind::I.piece_covered_cells(pos(0, 0), Spin(0));
    assert_eq!(cells, [pos(254, 0), pos(255, 0), pos(0, 0), pos(1, 0)]);
}

#[test]
fn out_of_bounds_is_never_empty() {
    let grid = GridState::new();
    assert!(grid.is_empty(&pos(0, 0)));
    assert!(grid.is_empty(&pos(GRID_WIDTH - 1, GRID_HEIGHT - 1)));
    assert!(!grid.is_empty(&pos(GRID_WIDTH, 0)));
    assert!(!grid.is_empty(&pos(0, GRID_HEIGHT)));
    assert!(!grid.is_empty(&pos(255, 3)));
    assert_eq!(grid.cell_state(&pos(GRID_WIDTH, 0)), None);
}

#[test]
fn placements_beyond_the_board_conflict() {
    let grid = GridState::new();
    for kind in PieceKind::all() {
        for spin in 0..4u8 {
            assert!(grid.conflicts(kind, pos(GRID_WIDTH + 1, 5), Spin(spin)));
            assert!(grid.conflicts(kind, pos(255, 5), Spin(spin)));
            assert!(grid.conflicts(kind, pos(4, GRID_HEIGHT + 1), Spin(spin)));
            assert!(grid.conflicts(kind, pos(4, 255), Spin(spin)));
        }
    }
    // A vertical I turned three times sits one column left of its pivot.
    assert!(!grid.conflicts(PieceKind::I, pos(GRID_WIDTH, 5), Spin(3)));
}

#[test]
fn lateral_moves_stop_at_walls_and_cells() {
    let mut grid = GridState::new();
    // An O covers its pivot's column and the one to its left.
    let mut p = pos(2, 5);
    assert!(grid.try_move([-1, 0], PieceKind::O, &mut p, Spin(0)));
    assert_eq!(p, pos(1, 5));
    assert!(!grid.try_move([-1, 0], PieceKind::O, &mut p, Spin(0)));
    assert_eq!(p, pos(1, 5));
    grid.spawn_cell(&pos(2, 5), PieceKind::Z);
    let mut q = pos(1, 5);
    assert!(!grid.try_move([1, 0], PieceKind::O, &mut q, Spin(0)));
    assert_eq!(q, pos(1, 5));
}

#[test]
fn hard_drop_rests_on_floor_and_stack() {
    let mut grid = GridState::new();
    let at = grid.drop_position(PieceKind::I, pos(5, 20), Spin(0));
    assert_eq!(at, pos(5, 0));
    let mut probe = at;
    assert!(!grid.try_move([0, -1], PieceKind::I, &mut probe, Spin(0)));
    assert!(!grid.try_move([0, -1], PieceKind::I, &mut probe, Spin(0)));
    assert_eq!(grid.drop_position(PieceKind::I, at, Spin(0)), at);

    grid.spawn_cell(&pos(4, 6), PieceKind::O);
    let at = grid.drop_position(PieceKind::I, pos(5, 20), Spin(0));
    assert_eq!(at, pos(5, 7));
    let mut probe = at;
    assert!(!grid.try_move([0, -1], PieceKind::I, &mut probe, Spin(0)));
}

#[test]
fn rotation_takes_the_first_kick_that_fits() {
    // T at (4, 10), unturned, turning clockwise: the turn in place and the
    // first two kicks are blocked, the third, (0, -2), fits.
    let mut grid = GridState::new();
    grid.spawn_cell(&pos(4, 9), PieceKind::O);
    grid.spawn_cell(&pos(3, 11), PieceKind::O);
    grid.spawn_cell(&pos(5, 8), PieceKind::O);
    let mut p = pos(4, 10);
    let mut spin = Spin(0);
    assert!(grid.try_rotate_right(PieceKind::T, &mut p, &mut spin));
    assert_eq!(spin, Spin(1));
    assert_eq!(p, pos(3, 8));

    // With only the cell of the turn in place blocked, the first kick wins.
    let mut grid = GridState::new();
    grid.spawn_cell(&pos(4, 9), PieceKind::O);
    let mut p = pos(4, 10);
    let mut spin = Spin(0);
    assert!(grid.try_rotate_right(PieceKind::T, &mut p, &mut spin));
    assert_eq!((p, spin), (pos(3, 10), Spin(1)));

    // Free space: the turn happens in place.
    let grid = GridState::new();
    let mut p = pos(4, 10);
    let mut spin = Spin(0);
    assert!(grid.try_rotate_right(PieceKind::T, &mut p, &mut spin));
    assert_eq!((p, spin), (pos(4, 10), Spin(1)));
}

#[test]
fn rotation_kick_at_exact_candidate() {
    // Only the fourth kick, (-1, -2), is free.
    let mut grid = GridState::new();
    grid.spawn_cell(&pos(4, 9), PieceKind::O);
    grid.spawn_cell(&pos(3, 11), PieceKind::O);
    let mut p = pos(4, 10);
    let mut spin = Spin(0);
    assert!(grid.try_rotate_right(PieceKind::T, &mut p, &mut spin));
    assert_eq!((p, spin), (pos(3, 8), Spin(1)));
}

#[test]
fn rotation_without_room_is_rejected() {
    let mut grid = GridState::new();
    for y in 0..GRID_HEIGHT {
        for x in 0..GRID_WIDTH {
            if !(y == 10 && (3..=5).contains(&x)) && !(y == 11 && x == 4) {
                grid.spawn_cell(&pos(x, y), PieceKind::J);
            }
        }
    }
    let mut p = pos(4, 10);
    let mut spin = Spin(0);
    assert!(!grid.try_rotate_right(PieceKind::T, &mut p, &mut spin));
    assert!(!grid.try_rotate_left(PieceKind::T, &mut p, &mut spin));
    assert_eq!((p, spin), (pos(4, 10), Spin(0)));
}

#[test]
fn rotate_left_uses_negated_kicks() {
    // Turning left from 1 to 0 negates the clockwise kicks 0 -> 1.
    let mut grid = GridState::new();
    // T at spin 1 at (4, 10) covers (4, 11), (4, 10), (4, 9), (5, 10).
    // Turning to 0 in place needs (3, 10): block it. The first negated kick
    // is (1, 0), giving (4, 10), (5, 10), (6, 10), (5, 11).
    grid.spawn_cell(&pos(3, 10), PieceKind::O);
    let mut p = pos(4, 10);
    let mut spin = Spin(1);
    assert!(grid.try_rotate_left(PieceKind::T, &mut p, &mut spin));
    assert_eq!((p, spin), (pos(5, 10), Spin(0)));
}

#[test]
fn cells_fill_and_move() {
    let mut grid = GridState::new();
    grid.spawn_cell(&pos(2, 3), PieceKind::S);
    assert_eq!(grid.cell_state(&pos(2, 3)), Some(CellState::Full(PieceKind::S)));
    assert!(grid.move_to(&pos(2, 3), &pos(2, 1)));
    assert!(!grid.move_to(&pos(2, 1), &pos(2, 1)));
    assert!(grid.is_empty(&pos(2, 3)));
    assert!(grid.is_filled(&pos(2, 1)));
    assert!(grid.despawn_cell(&pos(2, 1)));
    assert!(!grid.despawn_cell(&pos(2, 1)));
}

fn partial_board_with_full_rows(full: &[u8]) -> GridState {
    let mut grid = GridState::new();
    for y in 0..GRID_VISIBLE_HEIGHT {
        if full.contains(&y) {
            for x in 0..GRID_WIDTH {
                grid.spawn_cell(&pos(x, y), PieceKind::I);
            }
        } else {
            // Row y holds only the cell of column y % 10.
            grid.spawn_cell(&pos(y % GRID_WIDTH, y), PieceKind::T);
        }
    }
    grid
}

#[test]
fn completed_rows_are_found_bottom_up() {
    let grid = partial_board_with_full_rows(&[7, 5]);
    assert_eq!(grid.completed_rows(), vec![5, 7]);
    assert_eq!(GridState::new().completed_rows(), Vec::<u8>::new());
}

#[test]
fn removing_rows_shifts_the_rest_down() {
    let mut grid = partial_board_with_full_rows(&[5, 7]);
    grid.remove_rows(&vec![5, 7]);
    for y in 0..GRID_VISIBLE_HEIGHT {
        let source = if y < 5 {
            Some(y)
        } else if y < 6 {
            Some(y + 1)
        } else if y < 18 {
            Some(y + 2)
        } else {
            None
        };
        match source {
            Some(s) => {
                assert_eq!(filled_count(&grid, y), 1, "row {y}");
                assert!(grid.is_filled(&pos(s % GRID_WIDTH, y)), "row {y}");
            }
            None => assert_eq!(filled_count(&grid, y), 0, "row {y}"),
        }
    }
    assert!(grid.completed_rows().is_empty());
}

#[test]
fn clear_pause_then_compaction() {
    let mut game = GameRules::new();
    game.grid = partial_board_with_full_rows(&[5, 7]);
    game.register_completed_lines();
    let paused = game.paused.as_ref().expect("a pause");
    assert_eq!(paused.rows_to_delete, vec![5, 7]);
    assert_eq!(game.score.0, 100);
    assert_eq!(game.xp.0, 2);

    // The board stays as it is until the pause ends.
    game.tick(CLEAR_DELAY / 2, &vec![PlayerInput::HardDrop], false);
    assert!(game.paused.is_some());
    assert!(game.piece.is_none());
    assert_eq!(filled_count(&game.grid, 5), 10);

    game.resume_after_clear(CLEAR_DELAY / 2);
    assert!(game.paused.is_none());
    assert_eq!(filled_count(&game.grid, 5), 1);
    assert!(game.grid.is_filled(&pos(6, 5)));
    assert!(game.grid.completed_rows().is_empty());
    assert_eq!(filled_count(&game.grid, 18), 0);
    assert_eq!(filled_count(&game.grid, 19), 0);
}

#[test]
fn points_per_clear_at_level_one() {
    assert_eq!(line_points(0), 0);
    let expected = [(1, 40, 1), (2, 100, 2), (3, 300, 3), (4, 1200, 4), (5, 1200, 5)];
    for (lines, points, xp) in expected {
        let mut score = Score(0);
        let mut exp = XP(0);
        score.add_cleared(lines, exp.level());
        exp.add_lines(lines);
        assert_eq!(score.0, points);
        assert_eq!(exp.0, xp);
    }
}

#[test]
fn level_rises_every_ten_lines() {
    assert_eq!(XP(9).level(), 1);
    assert_eq!(XP(10).level(), 2);
    let mut exp = XP(7);
    exp.add_lines(3);
    assert_eq!(exp.level(), 2);
    let mut score = Score(0);
    score.add_cleared(4, XP(10).level());
    assert_eq!(score.0, 2400);
}

#[test]
fn counters_saturate() {
    let mut score = Score(u64::MAX - 10);
    score.add_cleared(1, 1);
    assert_eq!(score.0, u64::MAX);
    let mut exp = XP(u32::MAX - 1);
    exp.add_lines(4);
    assert_eq!(exp.0, u32::MAX);
    let mut watch = Stopwatch { since_begining: u64::MAX - 1 };
    watch.tick(5);
    assert_eq!(watch.since_begining, u64::MAX);
}

#[test]
fn gravity_curve() {
    assert_eq!(XP(0).time_per_row(), SECOND);
    assert_eq!(XP(10).time_per_row(), 793_000_000);
    assert_eq!(XP(20).time_per_row(), 617_796_000);
    assert_eq!(XP(2000).time_per_row(), MIN_ROW_DELAY);
    assert_eq!(XP(u32::MAX).time_per_row(), MIN_ROW_DELAY);
    let mut last = XP(0).time_per_row();
    for xp in (10..1500).step_by(10) {
        let t = XP(xp).time_per_row();
        assert!(t <= last);
        assert!(t >= MIN_ROW_DELAY);
        last = t;
    }
}

#[test]
fn timers_fire_and_repeat() {
    let mut t = Timer::new(100, TimerMode::Repeating);
    t.tick(250);
    assert!(t.finished);
    assert_eq!(t.times_finished_this_tick, 2);
    assert_eq!(t.elapsed, 50);
    t.tick(20);
    assert!(!t.finished);
    assert_eq!(t.times_finished_this_tick, 0);

    let mut once = Timer::new(100, TimerMode::Once);
    once.tick(99);
    assert!(!once.finished);
    once.tick(1);
    assert!(once.finished);
    assert_eq!(once.times_finished_this_tick, 1);
    once.tick(1000);
    assert!(once.finished);
    assert_eq!(once.times_finished_this_tick, 0);
    once.reset();
    assert!(!once.finished);
    assert_eq!(once.elapsed, 0);
}

#[test]
fn bag_gives_each_kind_once_per_seven() {
    let mut generator = PieceGenerator::new();
    for _ in 0..3 {
        let mut seen: Vec<PieceKind> = Vec::new();
        for _ in 0..7 {
            let k = generator.next();
            assert!(!seen.contains(&k));
            seen.push(k);
        }
        for kind in PieceKind::all() {
            assert!(seen.contains(&kind));
        }
    }
}

#[test]
fn peek_does_not_consume() {
    let mut generator = PieceGenerator::new();
    for _ in 0..10 {
        let a = generator.peek();
        let b = generator.peek();
        assert_eq!(a, b);
        assert_eq!(generator.next(), a);
    }
}

#[test]
fn bags_are_shuffled() {
    let mut generator = PieceGenerator::new();
    let mut orders: Vec<Vec<PieceKind>> = Vec::new();
    for _ in 0..20 {
        orders.push((0..7).map(|_| generator.next()).collect());
    }
    assert!(orders.iter().any(|o| o != &orders[0]));
}

#[test]
fn spawn_positions() {
    assert_eq!(spawn_position(PieceKind::I), pos(5, 20));
    assert_eq!(spawn_position(PieceKind::O), pos(5, 21));
    assert_eq!(spawn_position(PieceKind::T), pos(4, 20));
    assert_eq!(spawn_position(PieceKind::L), pos(4, 20));
}

#[test]
fn spawn_only_without_a_falling_piece() {
    let mut game = GameRules::new();
    assert!(game.spawn_piece(PieceKind::T));
    let p = game.piece.expect("a piece");
    assert_eq!((p.kind, p.pos, p.spin), (PieceKind::T, pos(4, 20), Spin(0)));
    assert_eq!(p.fall.down_timer.duration, SECOND);
    assert!(!game.spawn_piece(PieceKind::I));
    assert_eq!(game.piece.expect("a piece").kind, PieceKind::T);
}

#[test]
fn blocked_spawn_tops_out() {
    let mut game = GameRules::new();
    game.grid.spawn_cell(&pos(4, 20), PieceKind::Z);
    assert!(!game.spawn_piece(PieceKind::T));
    assert!(game.piece.is_none());
    assert!(game.topped_out);
    game.tick(SECOND, &Vec::new(), false);
    assert!(game.piece.is_none());
}

#[test]
fn inputs_move_and_turn_the_piece() {
    let mut game = GameRules::new();
    game.piece = Some(fresh_piece(PieceKind::T, pos(4, 10), 0));
    game.apply_input(PlayerInput::MoveLeft);
    assert_eq!(game.piece.unwrap().pos, pos(3, 10));
    game.apply_input(PlayerInput::MoveRight);
    game.apply_input(PlayerInput::MoveRight);
    assert_eq!(game.piece.unwrap().pos, pos(5, 10));
    game.apply_input(PlayerInput::RotateRight);
    assert_eq!(game.piece.unwrap().spin, Spin(1));
    game.apply_input(PlayerInput::RotateLeft);
    game.apply_input(PlayerInput::RotateLeft);
    assert_eq!(game.piece.unwrap().spin, Spin(3));
}

#[test]
fn hard_drop_locks_at_once() {
    let mut game = GameRules::new();
    game.piece = Some(fresh_piece(PieceKind::I, pos(5, 15), 0));
    game.piece_move(&vec![PlayerInput::HardDrop, PlayerInput::MoveLeft]);
    assert!(game.piece.is_none());
    for x in 3..=6 {
        assert_eq!(game.grid.cell_state(&pos(x, 0)), Some(CellState::Full(PieceKind::I)));
    }
    assert_eq!(filled_count(&game.grid, 0), 4);
}

#[test]
fn hard_drop_clearing_a_line_scores() {
    let mut game = GameRules::new();
    for x in 0..6 {
        game.grid.spawn_cell(&pos(x, 0), PieceKind::J);
    }
    game.piece = Some(fresh_piece(PieceKind::I, pos(8, 12), 0));
    game.apply_input(PlayerInput::HardDrop);
    assert_eq!(game.score.0, 40);
    assert_eq!(game.xp.0, 1);
    assert_eq!(game.paused.as_ref().unwrap().rows_to_delete, vec![0]);
    game.tick(CLEAR_DELAY, &Vec::new(), false);
    assert!(game.paused.is_none());
    assert_eq!(filled_count(&game.grid, 0), 0);
    assert!(game.piece.is_some());
}

#[test]
fn lock_delay_resets_when_the_piece_can_fall() {
    let mut game = GameRules::new();
    game.piece = Some(fresh_piece(PieceKind::O, pos(5, 1), 0));
    game.piece_lock(LOCK_DELAY - 1);
    assert!(game.piece.is_some());
    assert_eq!(game.piece.unwrap().fall.lock_timer.elapsed, LOCK_DELAY - 1);
    game.grid.spawn_cell(&pos(0, 0), PieceKind::S);
    // Lift the piece one row: it can fall again, so the grace period restarts.
    let mut p = game.piece.unwrap();
    p.pos = pos(5, 2);
    game.piece = Some(p);
    game.piece_lock(1);
    assert_eq!(game.piece.unwrap().fall.lock_timer.elapsed, 0);
    let mut p = game.piece.unwrap();
    p.pos = pos(5, 1);
    game.piece = Some(p);
    game.piece_lock(LOCK_DELAY);
    assert!(game.piece.is_none());
    assert!(game.grid.is_filled(&pos(4, 0)));
    assert!(game.grid.is_filled(&pos(5, 1)));
}

#[test]
fn soft_drop_speeds_gravity_up() {
    let mut game = GameRules::new();
    game.piece = Some(fresh_piece(PieceKind::T, pos(4, 15), 0));
    game.piece_fall(SECOND, false);
    assert_eq!(game.piece.unwrap().pos, pos(4, 14));
    game.piece_fall(SECOND, true);
    // A one-second row under soft drop takes 50 ms: twenty rows per second.
    assert_eq!(game.piece.unwrap().pos, pos(4, 0));
    let mut other = GameRules::new();
    other.piece = Some(fresh_piece(PieceKind::T, pos(4, 15), 0));
    other.piece_fall(SECOND / 2, true);
    assert_eq!(other.piece.unwrap().pos, pos(4, 5));
}

#[test]
fn an_i_piece_falls_and_locks_on_the_floor() {
    let mut game = GameRules::new();
    assert!(game.spawn_piece(PieceKind::I));
    let start = game.piece.unwrap().pos;
    let step = SECOND / 10;
    let mut elapsed: u64 = 0;
    while game.piece.is_some() {
        game.tick(step, &Vec::new(), false);
        elapsed += step;
        assert!(elapsed < 30 * SECOND);
    }
    assert!(elapsed > XP(0).time_per_row() * u64::from(start.y));
    for x in 0..GRID_WIDTH {
        let expected = (3..=6).contains(&x);
        assert_eq!(game.grid.is_filled(&pos(x, 0)), expected);
    }
    assert_eq!(filled_count(&game.grid, 0), 4);
    for y in 1..GRID_HEIGHT {
        assert_eq!(filled_count(&game.grid, y), 0);
    }
    game.tick(step, &Vec::new(), false);
    assert!(game.piece.is_some());
}

#[test]
fn i_kicks_follow_srs() {
    assert_eq!(
        PieceKind::I.wall_kick_incr_dirs(),
        [
            [[-2, 0], [1, 0], [-2, -1], [1, 2]],
            [[-1, 0], [2, 0], [-1, 2], [2, -1]],
            [[2, 0], [-1, 0], [2, 1], [-1, -2]],
            [[1, 0], [-2, 0], [1, -2], [-2, 1]],
        ]
    );
    assert_eq!(
        PieceKind::J.wall_kick_incr_dirs(),
        [
            [[-1, 0], [-1, 1], [0, -2], [-1, -2]],
            [[1, 0], [1, -1], [0, 2], [1, 2]],
            [[1, 0], [1, 1], [0, -2], [1, -2]],
            [[-1, 0], [-1, -1], [0, 2], [-1, 2]],
        ]
    );
}

#[test]
fn i_turning_left_from_three_uses_last_srs_kick() {
    // Turning left from 3 to 2 tries (-2, 0), (1, 0), (-2, -1), (1, 2); only
    // the last fits.
    let mut grid = GridState::new();
    for c in [pos(4, 9), pos(1, 9), pos(0, 8), pos(5, 7)] {
        grid.spawn_cell(&c, PieceKind::O);
    }
    let mut p = pos(4, 10);
    let mut spin = Spin(3);
    assert!(grid.try_rotate_left(PieceKind::I, &mut p, &mut spin));
    assert_eq!((p, spin), (pos(5, 12), Spin(2)));
}

#[test]
fn soft_drop_keeps_rows_under_fifty_ms() {
    // At level 2 a row takes 793 ms; soft drop speeds that up 16 times, so a
    // second of soft drop brings the piece down 20 rows.
    let mut game = GameRules::new();
    let mut piece = fresh_piece(PieceKind::T, pos(4, 20), 0);
    piece.fall.down_timer = Timer::new(XP(10).time_per_row(), TimerMode::Repeating);
    game.piece = Some(piece);
    game.piece_fall(SECOND, true);
    assert_eq!(game.piece.unwrap().pos, pos(4, 0));
}

fn visible_count(grid: &GridState) -> usize {
    (0..GRID_VISIBLE_HEIGHT).map(|y| filled_count(grid, y)).sum()
}

#[test]
fn removing_full_rows_removes_their_cells_only() {
    let mut grid = partial_board_with_full_rows(&[5, 7]);
    let before = visible_count(&grid);
    assert_eq!(before, 18 + 20);
    grid.remove_rows(&vec![5, 7]);
    assert_eq!(visible_count(&grid), before - 20);
    for y in 0..GRID_VISIBLE_HEIGHT {
        assert!(filled_count(&grid, y) < 10);
    }
}

#[test]
fn bag_holds_with_peeks_between_draws() {
    let mut generator = PieceGenerator::new();
    let mut seen: Vec<PieceKind> = Vec::new();
    for i in 0..7 {
        let shown = generator.peek();
        if i % 2 == 0 {
            assert_eq!(generator.peek(), shown);
        }
        let k = generator.next();
        assert_eq!(k, shown);
        assert!(!seen.contains(&k));
        seen.push(k);
    }
    for kind in PieceKind::all() {
        assert!(seen.contains(&kind));
    }
}
