//! Collision rules.
//!
//! Pure predicates that judge a candidate placement of a shape against the
//! well, the landing test for a downward step, the top-out test, and the
//! rotation legality test.  Every occupied cell of a shape is mapped to its
//! absolute board coordinate as `anchor + (local - pivot offset)`; a cell
//! above the visible well (negative row) is not yet collidable.

use vstd::prelude::*;

use crate::board::board_wf;
use crate::board::set_cell;
use crate::session::State;
use crate::session::state_wf;
use crate::shape::find_pivot_offset;
use crate::shape::grid_view;
use crate::shape::has_pivot;
use crate::shape::lemma_pivot_cell;
use crate::shape::lemma_rotated_has_pivot;
use crate::shape::lemma_rotated_wf;
use crate::shape::piece_wf;
use crate::shape::pivot_x_spec;
use crate::shape::pivot_y_spec;
use crate::shape::rotated_cw;
use crate::shape::rotated_spec;

verus! {

/// A shape cell may stand at absolute position `(x, y)` when the column is
/// inside the well and the row is either above the visible well or inside it
/// and free.
pub open spec fn cell_free(b: Seq<Seq<u8>>, x: int, y: int) -> bool {
    &&& 0 <= x < 10
    &&& (y < 0 || (y < 22 && b[y][x] == 0))
}

/// The candidate placement of shape `p` with its pivot at `(x, y)` is legal:
/// every occupied cell's absolute column is inside the well, and its row is
/// either still above the well or inside it and free.
pub open spec fn can_place_spec(b: Seq<Seq<u8>>, p: Seq<Seq<u8>>, x: int, y: int) -> bool {
    forall|cy: int, cx: int|
        #![trigger p[cy][cx]]
        0 <= cy < 4 && 0 <= cx < 4 && p[cy][cx] > 0 ==> cell_free(
            b,
            x - pivot_x_spec(p) + cx,
            y - pivot_y_spec(p) + cy,
        )
}

/// Every occupied cell of the shape, anchored at `(x, y)`, stands inside the
/// well's columns and above its floor (its row may still be negative).
pub open spec fn piece_cells_in_well(p: Seq<Seq<u8>>, x: int, y: int) -> bool {
    forall|cy: int, cx: int|
        #![trigger p[cy][cx]]
        0 <= cy < 4 && 0 <= cx < 4 && p[cy][cx] > 0 ==> {
            &&& 0 <= x - pivot_x_spec(p) + cx < 10
            &&& y - pivot_y_spec(p) + cy < 22
        }
}

/// A shape stepped one row down from `(x, y)` would hit the floor or a
/// landed cell: some occupied cell, one deeper, reaches row 22 or a nonzero
/// board cell.  Going off the left or right during a pure vertical step is
/// no landing trigger of its own.
pub open spec fn will_land_spec(b: Seq<Seq<u8>>, p: Seq<Seq<u8>>, x: int, y: int) -> bool {
    exists|cy: int, cx: int|
        #![trigger p[cy][cx]]
        0 <= cy < 4 && 0 <= cx < 4 && p[cy][cx] > 0 && {
            let ax = x - pivot_x_spec(p) + cx;
            let ay = y + 1 - pivot_y_spec(p) + cy;
            &&& ax >= 0
            &&& (ay >= 22 || (0 <= ay && ax < 10 && b[ay][ax] > 0))
        }
}

/// At its current position, part of the shape has never entered the visible
/// well: some occupied cell's absolute row is still negative.  Checked only
/// once a piece is confirmed to have landed; landing in this position is the
/// unrecoverable top-out.
pub open spec fn will_lose_spec(p: Seq<Seq<u8>>, x: int, y: int) -> bool {
    exists|cy: int, cx: int|
        #![trigger p[cy][cx]]
        0 <= cy < 4 && 0 <= cx < 4 && p[cy][cx] > 0 && x - pivot_x_spec(p) + cx >= 0 && y
            - pivot_y_spec(p) + cy < 0
}

/// The well after the shape lands with its pivot at `(x, y)`: each occupied
/// cell's code is written at its absolute position, and every other cell
/// keeps its content.
pub open spec fn land_spec(b: Seq<Seq<u8>>, p: Seq<Seq<u8>>, x: int, y: int) -> Seq<Seq<u8>> {
    Seq::new(
        22,
        |r: int|
            Seq::new(
                10,
                |c: int|
                    {
                        let cy = r - (y - pivot_y_spec(p));
                        let cx = c - (x - pivot_x_spec(p));
                        if 0 <= cy < 4 && 0 <= cx < 4 && p[cy][cx] > 0 {
                            p[cy][cx]
                        } else {
                            b[r][c]
                        }
                    },
            ),
    )
}

/// The well after a landing is again a well-formed well.
pub proof fn lemma_land_wf(b: Seq<Seq<u8>>, p: Seq<Seq<u8>>, x: int, y: int)
    ensures
        board_wf(land_spec(b, p, x, y)),
{
}

/// A legal placement keeps every occupied cell inside the well's columns and
/// above its floor.
pub proof fn lemma_can_place_in_well(b: Seq<Seq<u8>>, p: Seq<Seq<u8>>, x: int, y: int)
    requires
        can_place_spec(b, p, x, y),
    ensures
        piece_cells_in_well(p, x, y),
{
}

/// A piece with a pivot anchored at the spawn position stands inside the
/// well's columns and above its floor, wherever its cells lie in the box.
pub proof fn lemma_spawn_in_well(p: Seq<Seq<u8>>)
    requires
        piece_wf(p),
        has_pivot(p),
    ensures
        piece_cells_in_well(p, 4, 0),
{
    lemma_pivot_cell(p);
}

/// A well-formed state keeps its anchor inside the well: the pivot cell
/// itself is occupied, so its column is the anchor column and its row the
/// anchor row.
pub proof fn lemma_anchor_bounds(s: State)
    requires
        state_wf(s),
    ensures
        s.current_piece_x < 10,
        s.current_piece_y < 22,
{
    let p = grid_view(s.current_piece);
    lemma_pivot_cell(p);
    assert(p[pivot_y_spec(p)][pivot_x_spec(p)] > 0);
}

/// Decides whether the active piece's shape `piece` (the piece itself, or a
/// rotated copy of it) could stand with its pivot moved by `(dx, dy)` from
/// the current anchor: no occupied cell may leave the well's columns, reach
/// row 22, or cover a landed cell; cells above the well are ignored.
pub fn can_move_piece(state: &State, piece: &Vec<Vec<u8>>, dx: i32, dy: i32) -> (r: bool)
    requires
        board_wf(grid_view(state.cells)),
        piece_wf(grid_view(*piece)),
        has_pivot(grid_view(*piece)),
        state.current_piece_x < 10,
        state.current_piece_y < 22,
        -2 <= dx <= 2,
        -2 <= dy <= 2,
    ensures
        r == can_place_spec(
            grid_view(state.cells),
            grid_view(*piece),
            state.current_piece_x + dx,
            state.current_piece_y + dy,
        ),
{
    let ghost b = grid_view(state.cells);
    let ghost p = grid_view(*piece);
    let ghost nx = state.current_piece_x + dx;
    let ghost ny = state.current_piece_y + dy;
    let (pivot_x, pivot_y) = find_pivot_offset(piece);
    proof {
        lemma_pivot_cell(p);
    }
    let mut k: usize = 0;
    while k < 16
        invariant
            board_wf(b),
            b == grid_view(state.cells),
            piece_wf(p),
            p == grid_view(*piece),
            pivot_x == pivot_x_spec(p),
            pivot_y == pivot_y_spec(p),
            0 <= pivot_x < 4,
            0 <= pivot_y < 4,
            state.current_piece_x < 10,
            state.current_piece_y < 22,
            -2 <= dx <= 2,
            -2 <= dy <= 2,
            nx == state.current_piece_x + dx,
            ny == state.current_piece_y + dy,
            k <= 16,
            forall|cy: int, cx: int|
                #![trigger p[cy][cx]]
                0 <= cy < 4 && 0 <= cx < 4 && 4 * cy + cx < k && p[cy][cx] > 0 ==> cell_free(
                    b,
                    nx - pivot_x_spec(p) + cx,
                    ny - pivot_y_spec(p) + cy,
                ),
        decreases 16 - k,
    {
        let cy = k / 4;
        let cx = k % 4;
        proof {
            assert(piece@.len() == 4);
            assert(p[cy as int].len() == 4);
            assert(4 * (k as int / 4) + (k as int % 4) == k as int);
        }
        let c = piece[cy][cx];
        if c > 0 {
            let x: i32 = state.current_piece_x as i32 + dx - pivot_x as i32 + cx as i32;
            let y: i32 = state.current_piece_y as i32 + dy - pivot_y as i32 + cy as i32;
            if x < 0 || x >= 10 {
                proof {
                    assert(!cell_free(b, nx - pivot_x_spec(p) + cx as int, ny - pivot_y_spec(p)
                        + cy as int));
                }
                return false;
            }
            if y >= 22 {
                proof {
                    assert(!cell_free(b, nx - pivot_x_spec(p) + cx as int, ny - pivot_y_spec(p)
                        + cy as int));
                }
                return false;
            }
            if y >= 0 {
                proof {
                    assert(state.cells@.len() == 22);
                    assert(b[y as int].len() == 10);
                }
                if state.cells[y as usize][x as usize] > 0 {
                    proof {
                        assert(!cell_free(b, nx - pivot_x_spec(p) + cx as int, ny - pivot_y_spec(
                            p,
                        ) + cy as int));
                    }
                    return false;
                }
            }
            proof {
                assert(cell_free(b, nx - pivot_x_spec(p) + cx as int, ny - pivot_y_spec(p)
                    + cy as int));
            }
        }
        proof {
            assert forall|ocy: int, ocx: int|
                0 <= ocy < 4 && 0 <= ocx < 4 && 4 * ocy + ocx < k + 1 && p[ocy][ocx]
                    > 0 implies cell_free(
                b,
                nx - pivot_x_spec(p) + ocx,
                ny - pivot_y_spec(p) + ocy,
            ) by {
                if 4 * ocy + ocx == k as int {
                    assert(ocy == k as int / 4 && ocx == k as int % 4);
                }
            }
        }
        k = k + 1;
    }
    true
}

/// True iff moving the active piece one column left is legal.
pub fn can_move_left(state: &State) -> (r: bool)
    requires
        state_wf(*state),
    ensures
        r == can_place_spec(
            grid_view(state.cells),
            grid_view(state.current_piece),
            state.current_piece_x - 1,
            state.current_piece_y as int,
        ),
{
    proof {
        lemma_anchor_bounds(*state);
    }
    can_move_piece(state, &state.current_piece, -1, 0)
}

/// True iff moving the active piece one column right is legal.
pub fn can_move_right(state: &State) -> (r: bool)
    requires
        state_wf(*state),
    ensures
        r == can_place_spec(
            grid_view(state.cells),
            grid_view(state.current_piece),
            state.current_piece_x + 1,
            state.current_piece_y as int,
        ),
{
    proof {
        lemma_anchor_bounds(*state);
    }
    can_move_piece(state, &state.current_piece, 1, 0)
}

/// True iff the active piece, turned one quarter clockwise in place, would
/// stand legally: the test runs against the rotated shape's own occupied
/// cells.
pub fn can_rotate_cw(state: &State) -> (r: bool)
    requires
        state_wf(*state),
    ensures
        r == can_place_spec(
            grid_view(state.cells),
            rotated_spec(grid_view(state.current_piece)),
            state.current_piece_x as int,
            state.current_piece_y as int,
        ),
{
    let rotated = rotated_cw(&state.current_piece);
    proof {
        lemma_anchor_bounds(*state);
        lemma_rotated_wf(grid_view(state.current_piece));
        lemma_rotated_has_pivot(grid_view(state.current_piece));
    }
    can_move_piece(state, &rotated, 0, 0)
}

/// True iff the active piece, moved one row down, would hit the floor of the
/// well or a landed cell.  When this holds the piece lands where it stands.
pub fn piece_will_land(state: &State) -> (r: bool)
    requires
        state_wf(*state),
    ensures
        r == will_land_spec(
            grid_view(state.cells),
            grid_view(state.current_piece),
            state.current_piece_x as int,
            state.current_piece_y as int,
        ),
{
    let ghost b = grid_view(state.cells);
    let ghost p = grid_view(state.current_piece);
    let ghost x0 = state.current_piece_x as int;
    let ghost y0 = state.current_piece_y as int;
    let (pivot_x, pivot_y) = find_pivot_offset(&state.current_piece);
    proof {
        lemma_pivot_cell(p);
        lemma_anchor_bounds(*state);
    }
    let mut k: usize = 0;
    while k < 16
        invariant
            state_wf(*state),
            board_wf(b),
            b == grid_view(state.cells),
            piece_wf(p),
            p == grid_view(state.current_piece),
            pivot_x == pivot_x_spec(p),
            pivot_y == pivot_y_spec(p),
            0 <= pivot_x < 4,
            0 <= pivot_y < 4,
            state.current_piece_x < 10,
            state.current_piece_y < 22,
            x0 == state.current_piece_x as int,
            y0 == state.current_piece_y as int,
            k <= 16,
            forall|cy: int, cx: int|
                #![trigger p[cy][cx]]
                0 <= cy < 4 && 0 <= cx < 4 && 4 * cy + cx < k && p[cy][cx] > 0 ==> !({
                    let ax = x0 - pivot_x_spec(p) + cx;
                    let ay = y0 + 1 - pivot_y_spec(p) + cy;
                    &&& ax >= 0
                    &&& (ay >= 22 || (0 <= ay && ax < 10 && b[ay][ax] > 0))
                }),
        decreases 16 - k,
    {
        let cy = k / 4;
        let cx = k % 4;
        proof {
            assert(state.current_piece@.len() == 4);
            assert(p[cy as int].len() == 4);
            assert(4 * (k as int / 4) + (k as int % 4) == k as int);
        }
        let c = state.current_piece[cy][cx];
        if c > 0 {
            let ax: i32 = state.current_piece_x as i32 - pivot_x as i32 + cx as i32;
            let ay: i32 = state.current_piece_y as i32 + 1 - pivot_y as i32 + cy as i32;
            if ax >= 0 {
                if ay >= 22 {
                    return true;
                }
                if ay >= 0 && ax < 10 {
                    proof {
                        assert(state.cells@.len() == 22);
                        assert(b[ay as int].len() == 10);
                    }
                    if state.cells[ay as usize][ax as usize] > 0 {
                        return true;
                    }
                }
            }
        }
        proof {
            assert forall|ocy: int, ocx: int|
                0 <= ocy < 4 && 0 <= ocx < 4 && 4 * ocy + ocx < k + 1 && p[ocy][ocx] > 0 implies !({
                let ax = x0 - pivot_x_spec(p) + ocx;
                let ay = y0 + 1 - pivot_y_spec(p) + ocy;
                &&& ax >= 0
                &&& (ay >= 22 || (0 <= ay && ax < 10 && b[ay][ax] > 0))
            }) by {
                if 4 * ocy + ocx == k as int {
                    assert(ocy == k as int / 4 && ocx == k as int % 4);
                }
            }
        }
        k = k + 1;
    }
    false
}

/// True iff, at the piece's current position, some occupied cell's absolute
/// row is still negative: part of the piece never entered the visible well.
pub fn piece_will_lose(state: &State) -> (r: bool)
    requires
        state_wf(*state),
    ensures
        r == will_lose_spec(
            grid_view(state.current_piece),
            state.current_piece_x as int,
            state.current_piece_y as int,
        ),
{
    let ghost p = grid_view(state.current_piece);
    let ghost x0 = state.current_piece_x as int;
    let ghost y0 = state.current_piece_y as int;
    let (pivot_x, pivot_y) = find_pivot_offset(&state.current_piece);
    proof {
        lemma_pivot_cell(p);
        lemma_anchor_bounds(*state);
    }
    let mut k: usize = 0;
    while k < 16
        invariant
            state_wf(*state),
            piece_wf(p),
            p == grid_view(state.current_piece),
            pivot_x == pivot_x_spec(p),
            pivot_y == pivot_y_spec(p),
            0 <= pivot_x < 4,
            0 <= pivot_y < 4,
            state.current_piece_x < 10,
            state.current_piece_y < 22,
            x0 == state.current_piece_x as int,
            y0 == state.current_piece_y as int,
            k <= 16,
            forall|cy: int, cx: int|
                #![trigger p[cy][cx]]
                0 <= cy < 4 && 0 <= cx < 4 && 4 * cy + cx < k && p[cy][cx] > 0 ==> !(x0
                    - pivot_x_spec(p) + cx >= 0 && y0 - pivot_y_spec(p) + cy < 0),
        decreases 16 - k,
    {
        let cy = k / 4;
        let cx = k % 4;
        proof {
            assert(state.current_piece@.len() == 4);
            assert(p[cy as int].len() == 4);
            assert(4 * (k as int / 4) + (k as int % 4) == k as int);
        }
        let c = state.current_piece[cy][cx];
        if c > 0 {
            let ax: i32 = state.current_piece_x as i32 - pivot_x as i32 + cx as i32;
            let ay: i32 = state.current_piece_y as i32 - pivot_y as i32 + cy as i32;
            if ax >= 0 && ay < 0 {
                return true;
            }
        }
        proof {
            assert forall|ocy: int, ocx: int|
                0 <= ocy < 4 && 0 <= ocx < 4 && 4 * ocy + ocx < k + 1 && p[ocy][ocx] > 0 implies !(
            x0 - pivot_x_spec(p) + ocx >= 0 && y0 - pivot_y_spec(p) + ocy < 0) by {
                if 4 * ocy + ocx == k as int {
                    assert(ocy == k as int / 4 && ocx == k as int % 4);
                }
            }
        }
        k = k + 1;
    }
    false
}

/// Writes every occupied cell of the active piece into the well at its
/// absolute position.  The piece must stand legally inside the well with no
/// cell above it, which the landing resolution has already established.
pub fn land_piece(state: &mut State)
    requires
        state_wf(*old(state)),
        !will_lose_spec(
            grid_view(old(state).current_piece),
            old(state).current_piece_x as int,
            old(state).current_piece_y as int,
        ),
    ensures
        grid_view(final(state).cells) == land_spec(
            grid_view(old(state).cells),
            grid_view(old(state).current_piece),
            old(state).current_piece_x as int,
            old(state).current_piece_y as int,
        ),
        board_wf(grid_view(final(state).cells)),
        final(state).score == old(state).score,
        final(state).lines == old(state).lines,
        final(state).level == old(state).level,
        final(state).current_piece_x == old(state).current_piece_x,
        final(state).current_piece_y == old(state).current_piece_y,
        final(state).current_piece == old(state).current_piece,
        final(state).next_piece == old(state).next_piece,
        final(state).step_time == old(state).step_time,
        final(state).dropping == old(state).dropping,
        final(state).status == old(state).status,
{
    let ghost b0 = grid_view(old(state).cells);
    let ghost p = grid_view(old(state).current_piece);
    let ghost x0 = old(state).current_piece_x as int;
    let ghost y0 = old(state).current_piece_y as int;
    let (pivot_x, pivot_y) = find_pivot_offset(&state.current_piece);
    proof {
        lemma_pivot_cell(p);
        lemma_anchor_bounds(*old(state));
    }
    let mut k: usize = 0;
    while k < 16
        invariant
            board_wf(b0),
            board_wf(grid_view(state.cells)),
            piece_wf(p),
            has_pivot(p),
            piece_cells_in_well(p, x0, y0),
            !will_lose_spec(p, x0, y0),
            p == grid_view(state.current_piece),
            pivot_x == pivot_x_spec(p),
            pivot_y == pivot_y_spec(p),
            0 <= pivot_x < 4,
            0 <= pivot_y < 4,
            state.current_piece_x < 10,
            state.current_piece_y < 22,
            x0 == state.current_piece_x as int,
            y0 == state.current_piece_y as int,
            state.score == old(state).score,
            state.lines == old(state).lines,
            state.level == old(state).level,
            state.current_piece_x == old(state).current_piece_x,
            state.current_piece_y == old(state).current_piece_y,
            state.current_piece == old(state).current_piece,
            state.next_piece == old(state).next_piece,
            state.step_time == old(state).step_time,
            state.dropping == old(state).dropping,
            state.status == old(state).status,
            k <= 16,
            forall|r: int, c: int|
                #![trigger grid_view(state.cells)[r][c]]
                0 <= r < 22 && 0 <= c < 10 ==> grid_view(state.cells)[r][c] == ({
                    let cy = r - (y0 - pivot_y_spec(p));
                    let cx = c - (x0 - pivot_x_spec(p));
                    if 0 <= cy < 4 && 0 <= cx < 4 && p[cy][cx] > 0 && 4 * cy + cx < k {
                        p[cy][cx]
                    } else {
                        b0[r][c]
                    }
                }),
        decreases 16 - k,
    {
        let cy = k / 4;
        let cx = k % 4;
        proof {
            assert(state.current_piece@.len() == 4);
            assert(p[cy as int].len() == 4);
            assert(4 * (k as int / 4) + (k as int % 4) == k as int);
        }
        let c = state.current_piece[cy][cx];
        if c > 0 {
            proof {
                assert(p[cy as int][cx as int] > 0);
                assert(0 <= x0 - pivot_x_spec(p) + (cx as int) < 10);
                assert(y0 - pivot_y_spec(p) + (cy as int) < 22);
                assert(!(x0 - pivot_x_spec(p) + (cx as int) >= 0 && y0 - pivot_y_spec(p)
                    + (cy as int) < 0));
                assert(y0 - pivot_y_spec(p) + (cy as int) >= 0);
            }
            let ax: usize = ((state.current_piece_x as i32 - pivot_x as i32 + cx as i32))
                as usize;
            let ay: usize = ((state.current_piece_y as i32 - pivot_y as i32 + cy as i32))
                as usize;
            proof {
                assert(ax as int == x0 - pivot_x_spec(p) + cx as int);
                assert(ay as int == y0 - pivot_y_spec(p) + cy as int);
                assert(state.cells@.len() == 22);
                assert(grid_view(state.cells)[ay as int].len() == 10);
            }
            let ghost cells_before = grid_view(state.cells);
            let ghost rows_before = state.cells@;
            set_cell(&mut state.cells, ay, ax, c);
            proof {
                assert(state.cells@.len() == 22);
                assert forall|i: int| 0 <= i < 22 implies (#[trigger] grid_view(state.cells)[i])
                    == (if i == ay as int {
                    cells_before[i].update(ax as int, c)
                } else {
                    cells_before[i]
                }) by {
                    if i == ay as int {
                        assert(state.cells@[i]@ == rows_before[i]@.update(ax as int, c));
                    } else {
                        assert(state.cells@[i] == rows_before[i]);
                    }
                }
                assert(board_wf(grid_view(state.cells)));
                assert forall|r: int, cc: int| 0 <= r < 22 && 0 <= cc < 10 implies grid_view(
                    state.cells,
                )[r][cc] == ({
                    let ocy = r - (y0 - pivot_y_spec(p));
                    let ocx = cc - (x0 - pivot_x_spec(p));
                    if 0 <= ocy < 4 && 0 <= ocx < 4 && p[ocy][ocx] > 0 && 4 * ocy + ocx < k + 1 {
                        p[ocy][ocx]
                    } else {
                        b0[r][cc]
                    }
                }) by {
                    if r == ay as int && cc == ax as int {
                        assert(grid_view(state.cells)[r][cc] == c);
                        assert(c == p[cy as int][cx as int]);
                    } else {
                        assert(grid_view(state.cells)[r][cc] == cells_before[r][cc]);
                        let ocy = r - (y0 - pivot_y_spec(p));
                        let ocx = cc - (x0 - pivot_x_spec(p));
                        if 0 <= ocy < 4 && 0 <= ocx < 4 && 4 * ocy + ocx == k as int {
                            assert(ocy == cy as int && ocx == cx as int);
                            assert(r == ay as int && cc == ax as int);
                        }
                    }
                }
            }
        } else {
            proof {
                assert forall|r: int, cc: int| 0 <= r < 22 && 0 <= cc < 10 implies grid_view(
                    state.cells,
                )[r][cc] == ({
                    let ocy = r - (y0 - pivot_y_spec(p));
                    let ocx = cc - (x0 - pivot_x_spec(p));
                    if 0 <= ocy < 4 && 0 <= ocx < 4 && p[ocy][ocx] > 0 && 4 * ocy + ocx < k + 1 {
                        p[ocy][ocx]
                    } else {
                        b0[r][cc]
                    }
                }) by {
                    let ocy = r - (y0 - pivot_y_spec(p));
                    let ocx = cc - (x0 - pivot_x_spec(p));
                    if 0 <= ocy < 4 && 0 <= ocx < 4 && 4 * ocy + ocx == k as int {
                        assert(ocy == cy as int && ocx == cx as int);
                        assert(p[ocy][ocx] == 0);
                    }
                }
            }
        }
        k = k + 1;
    }
    proof {
        assert(grid_view(state.cells) =~~= land_spec(b0, p, x0, y0));
        lemma_land_wf(b0, p, x0, y0);
    }
}

} // verus!
