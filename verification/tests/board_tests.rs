use tetris_core::clear_completed_rows;
use tetris_core::is_row_full;
use tetris_core::random_piece;
use tetris_core::rows_complete;
use tetris_core::GameState;
use tetris_core::State;

fn empty_rows() -> Vec<Vec<u8>> {
    let mut v = Vec::new();
    for _ in 0..22 {
        v.push(vec![0u8; 10]);
    }
    v
}

fn state_with_cells(cells: Vec<Vec<u8>>) -> State {
    State {
        cells,
        score: 0,
        lines: 0,
        level: 0,
        current_piece_x: 4,
        current_piece_y: 0,
        current_piece: random_piece(),
        next_piece: random_piece(),
        step_time: 0,
        dropping: false,
        status: GameState::Playing,
    }
}

#[test]
fn test_clear_completed_rows() {
    let mut cells = empty_rows();
    cells[5] = vec![0, 0, 0, 1, 1, 1, 1, 0, 0, 0];
    cells[6] = vec![1, 1, 1, 1, 1, 1, 1, 1, 1, 1];
    let mut state = state_with_cells(cells);
    clear_completed_rows(&mut state);
    // ensure row 6 drops into row 7 which is obliterated
    let mut expected = empty_rows();
    expected[6] = vec![0, 0, 0, 1, 1, 1, 1, 0, 0, 0];
    assert_eq!(state.cells, expected);
}

#[test]
fn clear_on_board_without_full_rows_is_noop() {
    let mut cells = empty_rows();
    cells[3] = vec![1, 0, 2, 0, 3, 0, 4, 0, 5, 0];
    cells[21] = vec![9, 9, 9, 9, 9, 0, 9, 9, 9, 9];
    let mut state = state_with_cells(cells.clone());
    let removed = clear_completed_rows(&mut state);
    assert_eq!(removed, 0);
    assert_eq!(state.cells, cells);
}

#[test]
fn clear_twice_changes_nothing_more() {
    let mut cells = empty_rows();
    cells[10] = vec![1; 10];
    cells[15] = vec![2; 10];
    cells[12] = vec![0, 1, 1, 1, 1, 1, 1, 1, 1, 1];
    let mut state = state_with_cells(cells);
    let removed = clear_completed_rows(&mut state);
    assert_eq!(removed, 2);
    let after_first = state.cells.clone();
    let removed_again = clear_completed_rows(&mut state);
    assert_eq!(removed_again, 0);
    assert_eq!(state.cells, after_first);
}

#[test]
fn clear_single_full_row_shifts_rows_above() {
    // The well is empty except a partial row 20 and a full row 21; clearing
    // moves the old row 20 into row 21 and leaves everything above empty.
    let mut cells = empty_rows();
    cells[20] = vec![0, 0, 0, 1, 1, 1, 1, 0, 0, 0];
    cells[21] = vec![1, 2, 3, 4, 5, 6, 7, 1, 2, 3];
    let mut state = state_with_cells(cells);
    let removed = clear_completed_rows(&mut state);
    assert_eq!(removed, 1);
    let mut expected = empty_rows();
    expected[21] = vec![0, 0, 0, 1, 1, 1, 1, 0, 0, 0];
    assert_eq!(state.cells, expected);
}

#[test]
fn clear_nonadjacent_full_rows_keeps_survivor_order() {
    let mut cells = empty_rows();
    cells[3] = vec![1; 10];
    cells[5] = vec![0, 0, 7, 7, 0, 0, 0, 0, 0, 0];
    cells[10] = vec![2; 10];
    cells[12] = vec![0, 0, 0, 0, 0, 0, 5, 5, 0, 0];
    let mut state = state_with_cells(cells);
    let removed = clear_completed_rows(&mut state);
    assert_eq!(removed, 2);
    let mut expected = empty_rows();
    expected[6] = vec![0, 0, 7, 7, 0, 0, 0, 0, 0, 0];
    expected[12] = vec![0, 0, 0, 0, 0, 0, 5, 5, 0, 0];
    assert_eq!(state.cells, expected);
}

#[test]
fn clear_all_rows_full_empties_the_well() {
    let mut cells = Vec::new();
    for _ in 0..22 {
        cells.push(vec![3u8; 10]);
    }
    let mut state = state_with_cells(cells);
    let removed = clear_completed_rows(&mut state);
    assert_eq!(removed, 22);
    assert_eq!(state.cells, empty_rows());
}

#[test]
fn clear_leaves_counters_and_pieces_alone() {
    let mut cells = empty_rows();
    cells[21] = vec![1; 10];
    let mut state = state_with_cells(cells);
    state.score = 777;
    state.lines = 12;
    state.level = 1;
    state.step_time = 42;
    let piece_before = state.current_piece.clone();
    clear_completed_rows(&mut state);
    assert_eq!(state.score, 777);
    assert_eq!(state.lines, 12);
    assert_eq!(state.level, 1);
    assert_eq!(state.step_time, 42);
    assert_eq!(state.current_piece, piece_before);
}

#[test]
fn rows_complete_counts_full_rows_only() {
    let mut cells = empty_rows();
    cells[0] = vec![1; 10];
    cells[7] = vec![0, 1, 1, 1, 1, 1, 1, 1, 1, 1];
    cells[13] = vec![4; 10];
    cells[21] = vec![5; 10];
    let state = state_with_cells(cells);
    assert_eq!(rows_complete(&state), 3);
}

#[test]
fn is_row_full_requires_every_cell_nonzero() {
    assert!(is_row_full(&vec![1, 2, 3, 4, 5, 6, 7, 1, 2, 3]));
    assert!(!is_row_full(&vec![1, 2, 3, 4, 0, 6, 7, 1, 2, 3]));
    assert!(!is_row_full(&vec![0u8; 10]));
}
