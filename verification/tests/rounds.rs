use squaregg::bounds::Position;
use squaregg::grid::{Grid, MAX_TILE_VALUE, MIN_TILE_VALUE};
use squaregg::matching::{try_clear, MatchConfig, MatchResult};
use squaregg::scoring::{area_sound_bucket, combo_bonus_value};
use squaregg::session::{GameSession, Phase};

fn pos(row: u8, col: u8) -> Position {
    Position { row, col }
}

#[test]
fn created_grid_is_fully_dealt_within_the_value_range() {
    let grid = Grid::create(11, 18);
    assert_eq!(grid.rows(), 11);
    assert_eq!(grid.cols(), 18);
    for r in 0..11 {
        for c in 0..18 {
            match grid.value_at(pos(r, c)) {
                Some(v) => assert!(MIN_TILE_VALUE <= v && v <= MAX_TILE_VALUE),
                None => panic!("cell ({}, {}) came up empty on a fresh board", r, c),
            }
        }
    }
}

#[test]
fn grid_reset_keeps_dimensions_and_repopulates() {
    let mut grid = Grid::from_rows(&vec![vec![4, 6], vec![3, 7]]);
    let mut s = GameSession::new(1_000);
    let outcome = try_clear(&mut grid, &mut s, &vec![pos(0, 0), pos(0, 1)], &MatchConfig::default());
    assert!(matches!(outcome, MatchResult::Cleared { .. }));
    assert_eq!(grid.value_at(pos(0, 0)), None);
    grid.reset();
    assert_eq!(grid.rows(), 2);
    assert_eq!(grid.cols(), 2);
    for r in 0..2 {
        for c in 0..2 {
            let v = grid.value_at(pos(r, c)).expect("reset must repopulate every cell");
            assert!(MIN_TILE_VALUE <= v && v <= MAX_TILE_VALUE);
        }
    }
}

#[test]
fn new_session_starts_clean() {
    let s = GameSession::new(120_000);
    assert_eq!(s.score, 0);
    assert_eq!(s.combo, 0);
    assert_eq!(s.prev_area, None);
    assert_eq!(s.remaining_ms, 120_000);
    assert_eq!(s.round_ms, 120_000);
    assert_eq!(s.phase, Phase::Starting);
}

#[test]
fn countdown_runs_and_finishes_the_round() {
    let mut s = GameSession::new(1_000);
    s.start();
    assert_eq!(s.phase, Phase::Playing);
    s.tick(300);
    assert_eq!(s.remaining_ms, 700);
    assert_eq!(s.phase, Phase::Playing);
    s.tick(700);
    assert_eq!(s.remaining_ms, 0);
    assert_eq!(s.phase, Phase::Finished);
}

#[test]
fn countdown_overshoot_still_finishes_at_zero() {
    let mut s = GameSession::new(500);
    s.start();
    s.tick(9_999);
    assert_eq!(s.remaining_ms, 0);
    assert_eq!(s.phase, Phase::Finished);
}

#[test]
fn reset_leaves_no_residue_from_the_previous_round() {
    let mut grid = Grid::from_rows(&vec![vec![4, 6, 5, 5]]);
    let mut s = GameSession::new(60_000);
    s.start();
    let first = try_clear(&mut grid, &mut s, &vec![pos(0, 0), pos(0, 1)], &MatchConfig::default());
    assert!(matches!(first, MatchResult::Cleared { .. }));
    let second = try_clear(&mut grid, &mut s, &vec![pos(0, 2), pos(0, 3)], &MatchConfig::default());
    assert!(matches!(second, MatchResult::Cleared { .. }));
    s.tick(10_000);
    assert!(s.score > 0);
    assert!(s.prev_area.is_some());

    s.reset(&mut grid);

    // The session is exactly what a fresh one of the same duration is.
    let fresh = GameSession::new(60_000);
    assert_eq!(s.score, fresh.score);
    assert_eq!(s.combo, fresh.combo);
    assert_eq!(s.prev_area, fresh.prev_area);
    assert_eq!(s.remaining_ms, fresh.remaining_ms);
    assert_eq!(s.round_ms, fresh.round_ms);
    assert_eq!(s.phase, fresh.phase);

    // The board is dealt anew: same shape, all cells populated again.
    assert_eq!(grid.rows(), 1);
    assert_eq!(grid.cols(), 4);
    for c in 0..4 {
        assert!(grid.value_at(pos(0, c)).is_some());
    }

    // A clear after the reset behaves as on a fresh session: no combo.
    let mut replay = Grid::from_rows(&vec![vec![4, 6]]);
    let outcome = try_clear(&mut replay, &mut s, &vec![pos(0, 0), pos(0, 1)], &MatchConfig::default());
    match outcome {
        MatchResult::Cleared { score_delta, .. } => assert_eq!(score_delta, 4),
        other => panic!("expected a clear, got {:?}", other),
    }
    assert_eq!(s.combo, 0);
    assert_eq!(s.score, 4);
}

#[test]
fn combo_bonus_follows_the_piecewise_curve() {
    assert_eq!(combo_bonus_value(0), 0);
    assert_eq!(combo_bonus_value(1), 1);
    assert_eq!(combo_bonus_value(2), 2);
    assert_eq!(combo_bonus_value(3), 5);
    assert_eq!(combo_bonus_value(4), 8);
    assert_eq!(combo_bonus_value(5), 11);
    assert_eq!(combo_bonus_value(6), 12);
    assert_eq!(combo_bonus_value(7), 14);
    assert_eq!(combo_bonus_value(100), 200);
}

#[test]
fn sound_cues_are_bucketed_by_area() {
    assert_eq!(area_sound_bucket(0), 1);
    assert_eq!(area_sound_bucket(2), 1);
    assert_eq!(area_sound_bucket(3), 2);
    assert_eq!(area_sound_bucket(5), 2);
    assert_eq!(area_sound_bucket(6), 3);
    assert_eq!(area_sound_bucket(8), 3);
    assert_eq!(area_sound_bucket(9), 4);
    assert_eq!(area_sound_bucket(15), 4);
    assert_eq!(area_sound_bucket(16), 5);
    assert_eq!(area_sound_bucket(400), 5);
}
