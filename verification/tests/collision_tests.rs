use tetris_core::can_move_left;
use tetris_core::can_move_piece;
use tetris_core::can_move_right;
use tetris_core::can_rotate_cw;
use tetris_core::land_piece;
use tetris_core::piece_from_draw;
use tetris_core::piece_will_land;
use tetris_core::piece_will_lose;
use tetris_core::random_piece;
use tetris_core::GameState;
use tetris_core::State;

fn empty_rows() -> Vec<Vec<u8>> {
    let mut v = Vec::new();
    for _ in 0..22 {
        v.push(vec![0u8; 10]);
    }
    v
}

fn state_with_piece(cells: Vec<Vec<u8>>, piece: Vec<Vec<u8>>, x: u32, y: u32) -> State {
    State {
        cells,
        score: 0,
        lines: 0,
        level: 0,
        current_piece_x: x,
        current_piece_y: y,
        current_piece: piece,
        next_piece: random_piece(),
        step_time: 0,
        dropping: false,
        status: GameState::Playing,
    }
}

#[test]
fn moves_are_blocked_at_the_walls() {
    // The vertical I piece occupies a single column, its anchor column.
    let i_piece = piece_from_draw(4);
    let s_mid = state_with_piece(empty_rows(), i_piece.clone(), 4, 5);
    assert!(can_move_left(&s_mid));
    assert!(can_move_right(&s_mid));
    let s_left = state_with_piece(empty_rows(), i_piece.clone(), 0, 5);
    assert!(!can_move_left(&s_left));
    assert!(can_move_right(&s_left));
    let s_right = state_with_piece(empty_rows(), i_piece, 9, 5);
    assert!(can_move_right(&s_right) == false);
    assert!(can_move_left(&s_right));
}

#[test]
fn placement_rejects_cells_below_the_floor() {
    // The vertical I piece reaches two rows below its anchor; a downward
    // trial step from row 19 would put a cell at row 22.
    let i_piece = piece_from_draw(4);
    let s = state_with_piece(empty_rows(), i_piece, 4, 19);
    assert!(!can_move_piece(&s, &s.current_piece, 0, 1));
    assert!(can_move_piece(&s, &s.current_piece, 0, 0));
}

#[test]
fn placement_ignores_rows_above_the_well() {
    // At spawn height the I piece keeps one cell above the visible well;
    // that alone rejects nothing.
    let i_piece = piece_from_draw(4);
    let s = state_with_piece(empty_rows(), i_piece, 4, 0);
    assert!(can_move_piece(&s, &s.current_piece, 0, 0));
    assert!(can_move_piece(&s, &s.current_piece, -1, 0));
    assert!(can_move_piece(&s, &s.current_piece, 1, 0));
}

#[test]
fn placement_rejects_occupied_cells() {
    let mut cells = empty_rows();
    cells[10][4] = 9;
    let i_piece = piece_from_draw(4);
    // Anchored at (4, 8) the piece occupies rows 7..=10 of column 4.
    let s = state_with_piece(cells, i_piece, 4, 8);
    assert!(!can_move_piece(&s, &s.current_piece, 0, 0));
    assert!(can_move_piece(&s, &s.current_piece, 1, 0));
}

#[test]
fn piece_lands_on_the_floor() {
    let i_piece = piece_from_draw(4);
    let s_above = state_with_piece(empty_rows(), i_piece.clone(), 4, 18);
    assert!(!piece_will_land(&s_above));
    let s_resting = state_with_piece(empty_rows(), i_piece, 4, 19);
    assert!(piece_will_land(&s_resting));
}

#[test]
fn piece_lands_on_garbage() {
    let mut cells = empty_rows();
    cells[21] = vec![1; 10];
    let o_piece = piece_from_draw(3);
    // The O piece occupies rows y and y+1; at y = 19 the next step would
    // reach the full row 21.
    let s = state_with_piece(cells.clone(), o_piece.clone(), 4, 19);
    assert!(piece_will_land(&s));
    let s_higher = state_with_piece(cells, o_piece, 4, 18);
    assert!(!piece_will_land(&s_higher));
}

#[test]
fn top_out_needs_a_cell_above_the_well() {
    // The I piece keeps a cell above the well at spawn; the T piece does not.
    let i_piece = piece_from_draw(4);
    let s_i = state_with_piece(empty_rows(), i_piece, 4, 0);
    assert!(piece_will_lose(&s_i));
    let t_piece = piece_from_draw(2);
    let s_t = state_with_piece(empty_rows(), t_piece.clone(), 4, 0);
    assert!(!piece_will_lose(&s_t));
    let s_t_down = state_with_piece(empty_rows(), t_piece, 4, 3);
    assert!(!piece_will_lose(&s_t_down));
}

#[test]
fn rotation_is_judged_on_the_rotated_cells() {
    // Vertical I at column 1 fits, but turned flat it would reach column -1:
    // the rotated shape's own cells decide, so the rotation is refused.
    let i_piece = piece_from_draw(4);
    let s_near_wall = state_with_piece(empty_rows(), i_piece.clone(), 1, 5);
    assert!(!can_rotate_cw(&s_near_wall));
    let s_centre = state_with_piece(empty_rows(), i_piece, 4, 5);
    assert!(can_rotate_cw(&s_centre));
}

#[test]
fn landing_writes_the_piece_into_the_well() {
    let t_piece = piece_from_draw(2);
    // Resting position of the T on an empty floor: anchor (4, 20).
    let mut s = state_with_piece(empty_rows(), t_piece, 4, 20);
    assert!(piece_will_land(&s));
    assert!(!piece_will_lose(&s));
    land_piece(&mut s);
    let mut expected = empty_rows();
    expected[20][3] = 3;
    expected[20][4] = 131;
    expected[20][5] = 3;
    expected[21][4] = 3;
    assert_eq!(s.cells, expected);
}
