use tetris_core::apply_command;
use tetris_core::on_piece_landed;
use tetris_core::piece_from_draw;
use tetris_core::random_piece;
use tetris_core::step_piece;
use tetris_core::tick;
use tetris_core::Command;
use tetris_core::GameState;
use tetris_core::State;

fn empty_rows() -> Vec<Vec<u8>> {
    let mut v = Vec::new();
    for _ in 0..22 {
        v.push(vec![0u8; 10]);
    }
    v
}

fn playing_state(cells: Vec<Vec<u8>>) -> State {
    State {
        cells,
        score: 0,
        lines: 0,
        level: 0,
        current_piece_x: 4,
        current_piece_y: 0,
        current_piece: random_piece(),
        next_piece: random_piece(),
        step_time: 0,
        dropping: false,
        status: GameState::Playing,
    }
}

fn count_nonzero(cells: &Vec<Vec<u8>>) -> usize {
    cells.iter().map(|r| r.iter().filter(|&&c| c > 0).count()).sum()
}

#[test]
fn new_session_is_initial() {
    let s = State::new();
    assert_eq!(s.cells, empty_rows());
    assert_eq!(s.score, 0);
    assert_eq!(s.lines, 0);
    assert_eq!(s.level, 0);
    assert_eq!(s.current_piece_x, 4);
    assert_eq!(s.current_piece_y, 0);
    assert_eq!(s.step_time, 0);
    assert!(!s.dropping);
    assert_eq!(s.status, GameState::Playing);
    assert!((0..7u32).any(|d| s.current_piece == piece_from_draw(d)));
    assert!((0..7u32).any(|d| s.next_piece == piece_from_draw(d)));
}

#[test]
fn landing_two_rows_at_level_zero_scores_one_thousand() {
    let mut cells = empty_rows();
    cells[20] = vec![1; 10];
    cells[21] = vec![1; 10];
    let mut s = playing_state(cells);
    on_piece_landed(&mut s);
    assert_eq!(s.score, 1000);
    assert_eq!(s.lines, 2);
    assert_eq!(s.level, 0);
    assert_eq!(s.status, GameState::ClearingRows(1000));
}

#[test]
fn landing_three_rows_from_eight_lines_levels_up() {
    let mut cells = empty_rows();
    cells[19] = vec![1; 10];
    cells[20] = vec![1; 10];
    cells[21] = vec![1; 10];
    let mut s = playing_state(cells);
    s.lines = 8;
    on_piece_landed(&mut s);
    assert_eq!(s.lines, 11);
    assert_eq!(s.level, 1);
    assert_eq!(s.score, 1500);
    assert_eq!(s.status, GameState::ClearingRows(1000));
}

#[test]
fn landing_within_a_decade_keeps_the_level() {
    let mut cells = empty_rows();
    cells[21] = vec![1; 10];
    let mut s = playing_state(cells);
    s.lines = 5;
    on_piece_landed(&mut s);
    assert_eq!(s.lines, 6);
    assert_eq!(s.level, 0);
    assert_eq!(s.score, 500);
}

#[test]
fn landing_without_full_rows_scores_nothing() {
    let mut s = playing_state(empty_rows());
    let next_before = s.next_piece.clone();
    on_piece_landed(&mut s);
    assert_eq!(s.score, 0);
    assert_eq!(s.lines, 0);
    assert_eq!(s.status, GameState::Playing);
    assert_eq!(s.current_piece, next_before);
    assert_eq!(s.current_piece_x, 4);
    assert_eq!(s.current_piece_y, 0);
}

#[test]
fn step_moves_a_falling_piece_one_row_down() {
    let mut s = playing_state(empty_rows());
    s.current_piece = piece_from_draw(2);
    s.current_piece_y = 5;
    let cells_before = s.cells.clone();
    step_piece(&mut s);
    assert_eq!(s.current_piece_y, 6);
    assert_eq!(s.current_piece_x, 4);
    assert_eq!(s.cells, cells_before);
    assert_eq!(s.status, GameState::Playing);
}

#[test]
fn step_lands_a_resting_piece_and_promotes_the_lookahead() {
    let mut s = playing_state(empty_rows());
    s.current_piece = piece_from_draw(2);
    s.current_piece_y = 20;
    let next_before = s.next_piece.clone();
    step_piece(&mut s);
    let mut expected = empty_rows();
    expected[20][3] = 3;
    expected[20][4] = 131;
    expected[20][5] = 3;
    expected[21][4] = 3;
    assert_eq!(s.cells, expected);
    assert_eq!(s.current_piece, next_before);
    assert_eq!(s.current_piece_x, 4);
    assert_eq!(s.current_piece_y, 0);
    assert_eq!(s.status, GameState::Playing);
    assert_eq!(s.score, 0);
}

#[test]
fn step_that_completes_a_row_scores_and_starts_clearing() {
    // Row 21 lacks only column 4; a vertical I dropped there fills it.
    let mut cells = empty_rows();
    cells[21] = vec![1; 10];
    cells[21][4] = 0;
    let mut s = playing_state(cells);
    s.current_piece = piece_from_draw(4);
    s.current_piece_y = 19;
    step_piece(&mut s);
    assert_eq!(s.status, GameState::ClearingRows(1000));
    assert_eq!(s.score, 500);
    assert_eq!(s.lines, 1);
    // The full row stays on the board until the animation ends.
    assert!(s.cells[21].iter().all(|&c| c > 0));
    assert_eq!(s.cells[21][4], 5);
    assert_eq!(s.cells[18][4], 5);
}

#[test]
fn tick_accumulates_step_time_without_stepping() {
    let mut s = playing_state(empty_rows());
    s.current_piece_y = 5;
    tick(&mut s);
    assert_eq!(s.step_time, 250);
    assert_eq!(s.current_piece_y, 5);
}

#[test]
fn tick_steps_once_per_full_period() {
    let mut s = playing_state(empty_rows());
    s.current_piece = piece_from_draw(2);
    s.current_piece_y = 5;
    s.step_time = 4750;
    tick(&mut s);
    assert_eq!(s.step_time, 0);
    assert_eq!(s.current_piece_y, 6);
}

#[test]
fn soft_drop_multiplies_the_step_rate_tenfold() {
    let mut s = playing_state(empty_rows());
    s.current_piece = piece_from_draw(2);
    s.current_piece_y = 5;
    s.dropping = true;
    s.step_time = 2500;
    tick(&mut s);
    // 2500 + 250 * 10 reaches exactly one period.
    assert_eq!(s.step_time, 0);
    assert_eq!(s.current_piece_y, 6);
}

#[test]
fn level_raises_the_base_speed() {
    let mut s = playing_state(empty_rows());
    s.current_piece_y = 5;
    s.level = 3;
    tick(&mut s);
    assert_eq!(s.step_time, 280);
}

#[test]
fn commands_move_the_piece_when_legal() {
    let mut s = playing_state(empty_rows());
    s.current_piece = piece_from_draw(4);
    s.current_piece_y = 5;
    apply_command(&mut s, Command::MoveLeft);
    assert_eq!(s.current_piece_x, 3);
    apply_command(&mut s, Command::MoveRight);
    apply_command(&mut s, Command::MoveRight);
    assert_eq!(s.current_piece_x, 5);
}

#[test]
fn illegal_moves_are_silently_ignored() {
    let mut s = playing_state(empty_rows());
    s.current_piece = piece_from_draw(4);
    s.current_piece_y = 5;
    s.current_piece_x = 0;
    apply_command(&mut s, Command::MoveLeft);
    assert_eq!(s.current_piece_x, 0);
    assert_eq!(s.status, GameState::Playing);
}

#[test]
fn rotation_applies_only_when_legal() {
    let mut s = playing_state(empty_rows());
    s.current_piece = piece_from_draw(4);
    s.current_piece_y = 5;
    let rotated_once = {
        let mut probe = s.current_piece.clone();
        probe = tetris_core::rotated_cw(&probe);
        probe
    };
    apply_command(&mut s, Command::RotateClockwise);
    assert_eq!(s.current_piece, rotated_once);
    // Against the wall the same rotation is refused.
    let mut blocked = playing_state(empty_rows());
    blocked.current_piece = piece_from_draw(4);
    blocked.current_piece_y = 5;
    blocked.current_piece_x = 1;
    let before = blocked.current_piece.clone();
    apply_command(&mut blocked, Command::RotateClockwise);
    assert_eq!(blocked.current_piece, before);
}

#[test]
fn soft_drop_commands_toggle_the_flag() {
    let mut s = playing_state(empty_rows());
    apply_command(&mut s, Command::SoftDropPressed);
    assert!(s.dropping);
    apply_command(&mut s, Command::SoftDropReleased);
    assert!(!s.dropping);
}

#[test]
fn clearing_ignores_moves_but_honours_drop_release() {
    let mut cells = empty_rows();
    cells[21] = vec![1; 10];
    let mut s = playing_state(cells);
    s.status = GameState::ClearingRows(700);
    s.dropping = true;
    let x_before = s.current_piece_x;
    apply_command(&mut s, Command::MoveLeft);
    assert_eq!(s.current_piece_x, x_before);
    apply_command(&mut s, Command::SoftDropReleased);
    assert!(!s.dropping);
    assert_eq!(s.status, GameState::ClearingRows(700));
}

#[test]
fn clearing_timer_counts_down_and_keeps_the_rows() {
    let mut cells = empty_rows();
    cells[21] = vec![1; 10];
    let mut s = playing_state(cells.clone());
    s.status = GameState::ClearingRows(1000);
    tick(&mut s);
    assert_eq!(s.status, GameState::ClearingRows(945));
    assert_eq!(s.cells, cells);
}

#[test]
fn clearing_finishes_by_compacting_the_well() {
    let mut cells = empty_rows();
    cells[20] = vec![0, 0, 6, 6, 0, 0, 0, 0, 0, 0];
    cells[21] = vec![1; 10];
    let mut s = playing_state(cells);
    s.status = GameState::ClearingRows(55);
    tick(&mut s);
    assert_eq!(s.status, GameState::Playing);
    let mut expected = empty_rows();
    expected[21] = vec![0, 0, 6, 6, 0, 0, 0, 0, 0, 0];
    assert_eq!(s.cells, expected);
}

#[test]
fn game_over_accumulates_towards_restart() {
    let mut s = playing_state(empty_rows());
    s.status = GameState::GameOver;
    tick(&mut s);
    assert_eq!(s.step_time, 500);
    assert_eq!(s.status, GameState::GameOver);
}

#[test]
fn restart_is_locked_before_the_threshold() {
    let mut s = playing_state(empty_rows());
    s.status = GameState::GameOver;
    s.score = 4242;
    s.step_time = 24999;
    apply_command(&mut s, Command::OtherKey);
    assert_eq!(s.status, GameState::GameOver);
    assert_eq!(s.score, 4242);
}

#[test]
fn restart_unlocks_at_the_threshold() {
    let mut cells = empty_rows();
    cells[21] = vec![1; 10];
    let mut s = playing_state(cells);
    s.status = GameState::GameOver;
    s.score = 4242;
    s.lines = 17;
    s.level = 1;
    s.step_time = 25000;
    apply_command(&mut s, Command::OtherKey);
    assert_eq!(s.status, GameState::Playing);
    assert_eq!(s.score, 0);
    assert_eq!(s.lines, 0);
    assert_eq!(s.level, 0);
    assert_eq!(s.cells, empty_rows());
    assert_eq!(s.current_piece_x, 4);
    assert_eq!(s.current_piece_y, 0);
}

#[test]
fn pieces_fall_and_land_without_game_over_on_an_empty_board() {
    // From the initial state, with no commands at all, the first pieces
    // fall to the bottom of the empty well and land there; nothing tops
    // the game out this early.
    let mut s = State::new();
    let mut landings = 0;
    let mut cells_seen = 0;
    let mut bottom_filled = false;
    for _ in 0..4000 {
        tick(&mut s);
        assert_ne!(s.status, GameState::GameOver);
        let n = count_nonzero(&s.cells);
        if n > cells_seen {
            landings += 1;
            cells_seen = n;
            if s.cells[21].iter().any(|&c| c > 0) {
                bottom_filled = true;
            }
        }
        if landings >= 4 {
            break;
        }
    }
    assert!(landings >= 4);
    assert_eq!(cells_seen, 16);
    assert!(bottom_filled);
}

#[test]
fn spawning_onto_a_buried_pivot_tops_the_game_out() {
    // The well is pre-filled so high that a freshly spawned piece's pivot
    // cell is already occupied; the next landing resolution must go to game
    // over instead of writing into occupied cells.
    let mut cells = empty_rows();
    for r in 0..5 {
        cells[r] = vec![9; 10];
    }
    let mut s = playing_state(cells.clone());
    // A freshly spawned I piece keeps a cell above the well.
    s.current_piece = piece_from_draw(4);
    step_piece(&mut s);
    assert_eq!(s.status, GameState::GameOver);
    assert_eq!(s.cells, cells);
    assert_eq!(s.step_time, 0);
}
