//! Piece shapes.
//!
//! A piece is a 4×4 grid of cell codes: room enough for every tetromino.  The
//! canonical repertoire holds the seven shapes J, L, T, O, I, Z and S, each
//! with body cells of value 1 and exactly one pivot cell of value 129
//! (1 with the pivot bit).  A shape put into play is a canonical template
//! with its magnitudes multiplied by a colour index, the pivot bit kept.
//! Rotation turns the 4×4 box clockwise; the pivot is found again afterwards
//! by scanning for its flag bit.

use vstd::prelude::*;

use crate::cell::is_pivot_cell;
use crate::cell::is_pivot_spec;

verus! {

/// The mathematical view of a grid of cells: the sequence of its rows' views.
pub open spec fn grid_view(g: Vec<Vec<u8>>) -> Seq<Seq<u8>> {
    Seq::new(g@.len() as nat, |i: int| g@[i]@)
}

/// A well-formed piece grid is 4 rows of 4 cells.
pub open spec fn piece_wf(p: Seq<Seq<u8>>) -> bool {
    &&& p.len() == 4
    &&& forall|i: int| 0 <= i < 4 ==> (#[trigger] p[i]).len() == 4
}

/// Some cell of the grid carries the pivot flag.
pub open spec fn has_pivot(p: Seq<Seq<u8>>) -> bool {
    exists|cy: int, cx: int|
        0 <= cy < 4 && 0 <= cx < 4 && is_pivot_spec(#[trigger] p[cy][cx])
}

/// Row-major scan for the first flagged cell, counting cells from `k`:
/// the index of the first pivot cell at or after `k`, or 16 when none is.
pub open spec fn pivot_scan(p: Seq<Seq<u8>>, k: int) -> int
    decreases 16 - k,
{
    if k < 0 || k >= 16 {
        16
    } else if is_pivot_spec(p[k / 4][k % 4]) {
        k
    } else {
        pivot_scan(p, k + 1)
    }
}

/// Local column of the pivot cell: where the row-major scan first stops.
pub open spec fn pivot_x_spec(p: Seq<Seq<u8>>) -> int {
    pivot_scan(p, 0) % 4
}

/// Local row of the pivot cell: where the row-major scan first stops.
pub open spec fn pivot_y_spec(p: Seq<Seq<u8>>) -> int {
    pivot_scan(p, 0) / 4
}

/// The scan stops at the first flagged cell at or after `k`, and at 16 when
/// none follows.
pub proof fn lemma_pivot_scan_props(p: Seq<Seq<u8>>, k: int)
    requires
        0 <= k <= 16,
    ensures
        k <= pivot_scan(p, k) <= 16,
        pivot_scan(p, k) < 16 ==> is_pivot_spec(p[pivot_scan(p, k) / 4][pivot_scan(p, k) % 4]),
        forall|j: int| k <= j < pivot_scan(p, k) ==> !is_pivot_spec(#[trigger] p[j / 4][j % 4]),
    decreases 16 - k,
{
    if k < 16 {
        if !is_pivot_spec(p[k / 4][k % 4]) {
            lemma_pivot_scan_props(p, k + 1);
        }
    }
}

/// A grid with a pivot has its pivot offset inside the 4×4 box, at a flagged
/// cell.
pub proof fn lemma_pivot_cell(p: Seq<Seq<u8>>)
    requires
        has_pivot(p),
    ensures
        0 <= pivot_x_spec(p) < 4,
        0 <= pivot_y_spec(p) < 4,
        is_pivot_spec(p[pivot_y_spec(p)][pivot_x_spec(p)]),
{
    lemma_pivot_scan_props(p, 0);
    let r = pivot_scan(p, 0);
    if r == 16 {
        let (cy, cx) = choose|cy: int, cx: int|
            0 <= cy < 4 && 0 <= cx < 4 && is_pivot_spec(#[trigger] p[cy][cx]);
        let j = cy * 4 + cx;
        assert(j / 4 == cy && j % 4 == cx) by (nonlinear_arith)
            requires
                0 <= cy < 4,
                0 <= cx < 4,
                j == cy * 4 + cx,
        ;
        assert(!is_pivot_spec(p[j / 4][j % 4]));
    }
}

/// Locates the pivot cell of a piece by scanning the 4×4 box in row-major
/// order, and returns its local offset `(column, row)`.
pub fn find_pivot_offset(piece: &Vec<Vec<u8>>) -> (r: (u32, u32))
    requires
        piece_wf(grid_view(*piece)),
        has_pivot(grid_view(*piece)),
    ensures
        r.0 == pivot_x_spec(grid_view(*piece)),
        r.1 == pivot_y_spec(grid_view(*piece)),
{
    let ghost p = grid_view(*piece);
    let mut k: usize = 0;
    while k < 16
        invariant
            piece_wf(p),
            has_pivot(p),
            p == grid_view(*piece),
            k <= 16,
            forall|j: int| 0 <= j < k ==> !is_pivot_spec(#[trigger] p[j / 4][j % 4]),
        decreases 16 - k,
    {
        let cy = k / 4;
        let cx = k % 4;
        proof {
            assert(piece@.len() == 4);
            assert(p[cy as int].len() == 4);
        }
        let c = piece[cy][cx];
        if c > 0 && is_pivot_cell(c) {
            proof {
                lemma_pivot_scan_props(p, 0);
                let r = pivot_scan(p, 0);
                if r < k {
                    assert(!is_pivot_spec(p[r / 4][r % 4]));
                }
                if r > k {
                    assert(!is_pivot_spec(p[k as int / 4][k as int % 4]));
                }
                assert(r == k);
            }
            return (cx as u32, cy as u32);
        }
        k = k + 1;
    }
    proof {
        let (cy, cx) = choose|cy: int, cx: int|
            0 <= cy < 4 && 0 <= cx < 4 && is_pivot_spec(#[trigger] p[cy][cx]);
        let j = cy * 4 + cx;
        assert(j / 4 == cy && j % 4 == cx) by (nonlinear_arith)
            requires
                0 <= cy < 4,
                0 <= cx < 4,
                j == cy * 4 + cx,
        ;
        assert(!is_pivot_spec(p[j / 4][j % 4]));
        assert(false);
    }
    (0, 0)
}

/// A quarter turn clockwise of the 4×4 box: the cell that lands at local
/// position `(x, y)` is the one that stood at `(y, 3 - x)`.
pub open spec fn rotated_spec(p: Seq<Seq<u8>>) -> Seq<Seq<u8>> {
    Seq::new(4, |y: int| Seq::new(4, |x: int| p[3 - x][y]))
}

/// The rotated grid is again 4×4.
pub proof fn lemma_rotated_wf(p: Seq<Seq<u8>>)
    ensures
        piece_wf(rotated_spec(p)),
{
}

/// Rotation moves the pivot cell within the box but never loses it.
pub proof fn lemma_rotated_has_pivot(p: Seq<Seq<u8>>)
    requires
        piece_wf(p),
        has_pivot(p),
    ensures
        has_pivot(rotated_spec(p)),
{
    let (cy, cx) = choose|cy: int, cx: int|
        0 <= cy < 4 && 0 <= cx < 4 && is_pivot_spec(#[trigger] p[cy][cx]);
    assert(0 <= cx < 4 && 0 <= 3 - cy < 4 && is_pivot_spec(rotated_spec(p)[cx][3 - cy]));
}

/// Returns the piece grid turned one quarter clockwise.  The caller's world
/// anchor is untouched; the effective pivot cell may stand elsewhere in the
/// box afterwards and is re-derived by scanning.
pub fn rotated_cw(piece: &Vec<Vec<u8>>) -> (r: Vec<Vec<u8>>)
    requires
        piece_wf(grid_view(*piece)),
    ensures
        grid_view(r) == rotated_spec(grid_view(*piece)),
{
    let ghost p = grid_view(*piece);
    let mut result: Vec<Vec<u8>> = Vec::new();
    let mut y: usize = 0;
    while y < 4
        invariant
            piece_wf(p),
            p == grid_view(*piece),
            result@.len() == y,
            y <= 4,
            forall|yy: int| 0 <= yy < y ==> (#[trigger] result@[yy])@.len() == 4,
            forall|yy: int, xx: int|
                #![trigger result@[yy]@[xx]]
                0 <= yy < y && 0 <= xx < 4 ==> result@[yy]@[xx] == p[3 - xx][yy],
        decreases 4 - y,
    {
        let mut row: Vec<u8> = Vec::new();
        let mut x: usize = 0;
        while x < 4
            invariant
                piece_wf(p),
                p == grid_view(*piece),
                row@.len() == x,
                x <= 4,
                y < 4,
                forall|xx: int| 0 <= xx < x ==> row@[xx] == p[3 - xx][y as int],
            decreases 4 - x,
        {
            proof {
                assert(piece@.len() == 4);
                assert(p[3 - x as int].len() == 4);
            }
            row.push(piece[3 - x][y]);
            x = x + 1;
        }
        result.push(row);
        y = y + 1;
    }
    proof {
        assert(grid_view(result) =~~= rotated_spec(p));
    }
    result
}

/// Turning any 4×4 shape clockwise four times gives back the original shape
/// exactly.
pub proof fn lemma_rotated_four_identity(p: Seq<Seq<u8>>)
    requires
        piece_wf(p),
    ensures
        rotated_spec(rotated_spec(rotated_spec(rotated_spec(p)))) == p,
{
    let r1 = rotated_spec(p);
    let r2 = rotated_spec(r1);
    let r3 = rotated_spec(r2);
    let r4 = rotated_spec(r3);
    assert forall|y: int, x: int| 0 <= y < 4 && 0 <= x < 4 implies r4[y][x] == p[y][x] by {
        assert(r4[y][x] == r3[3 - x][y]);
        assert(r3[3 - x][y] == r2[3 - y][3 - x]);
        assert(r2[3 - y][3 - x] == r1[x][3 - y]);
        assert(r1[x][3 - y] == p[y][x]);
    }
    assert(r4 =~~= p);
}

/// The canonical repertoire, already scaled by its colour: shape `i` (J, L,
/// T, O, I, Z, S in turn) carries colour index `i + 1`, body cells holding
/// the colour and the pivot cell holding colour plus the pivot bit.
pub open spec fn scaled_canonical(i: int) -> Seq<Seq<u8>> {
    if i == 0 {
        // J, colour 1
        seq![
            seq![1u8, 0, 0, 0],
            seq![1u8, 129, 1, 0],
            seq![0u8, 0, 0, 0],
            seq![0u8, 0, 0, 0],
        ]
    } else if i == 1 {
        // L, colour 2
        seq![
            seq![0u8, 0, 0, 0],
            seq![2u8, 130, 2, 0],
            seq![2u8, 0, 0, 0],
            seq![0u8, 0, 0, 0],
        ]
    } else if i == 2 {
        // T, colour 3
        seq![
            seq![0u8, 0, 0, 0],
            seq![0u8, 3, 131, 3],
            seq![0u8, 0, 3, 0],
            seq![0u8, 0, 0, 0],
        ]
    } else if i == 3 {
        // O, colour 4
        seq![
            seq![0u8, 0, 0, 0],
            seq![0u8, 4, 132, 0],
            seq![0u8, 4, 4, 0],
            seq![0u8, 0, 0, 0],
        ]
    } else if i == 4 {
        // I, colour 5
        seq![
            seq![0u8, 0, 5, 0],
            seq![0u8, 0, 133, 0],
            seq![0u8, 0, 5, 0],
            seq![0u8, 0, 5, 0],
        ]
    } else if i == 5 {
        // Z, colour 6
        seq![
            seq![0u8, 0, 0, 6],
            seq![0u8, 0, 134, 6],
            seq![0u8, 0, 6, 0],
            seq![0u8, 0, 0, 0],
        ]
    } else {
        // S, colour 7
        seq![
            seq![0u8, 0, 7, 0],
            seq![0u8, 0, 135, 7],
            seq![0u8, 0, 0, 7],
            seq![0u8, 0, 0, 0],
        ]
    }
}

/// Every scaled canonical shape is a well-formed 4×4 grid with a pivot.
pub proof fn lemma_scaled_canonical_wf(i: int)
    ensures
        piece_wf(scaled_canonical(i)),
        has_pivot(scaled_canonical(i)),
{
    let p = scaled_canonical(i);
    if i == 0 {
        assert(is_pivot_spec(p[1][1]));
    } else if i == 1 {
        assert(is_pivot_spec(p[1][1]));
    } else if i == 2 {
        assert(is_pivot_spec(p[1][2]));
    } else if i == 3 {
        assert(is_pivot_spec(p[1][2]));
    } else if i == 4 {
        assert(is_pivot_spec(p[1][2]));
    } else if i == 5 {
        assert(is_pivot_spec(p[1][2]));
    } else {
        assert(is_pivot_spec(p[1][2]));
    }
}

/// Builds one row of four cell codes.
fn shape_row(a: u8, b: u8, c: u8, d: u8) -> (r: Vec<u8>)
    ensures
        r@ == seq![a, b, c, d],
{
    let mut v: Vec<u8> = Vec::new();
    v.push(a);
    v.push(b);
    v.push(c);
    v.push(d);
    proof {
        assert(v@ =~= seq![a, b, c, d]);
    }
    v
}

/// Stacks four rows into a piece grid.
fn shape_grid(r0: Vec<u8>, r1: Vec<u8>, r2: Vec<u8>, r3: Vec<u8>) -> (g: Vec<Vec<u8>>)
    ensures
        grid_view(g) == seq![r0@, r1@, r2@, r3@],
{
    let ghost s0 = r0@;
    let ghost s1 = r1@;
    let ghost s2 = r2@;
    let ghost s3 = r3@;
    let mut v: Vec<Vec<u8>> = Vec::new();
    v.push(r0);
    v.push(r1);
    v.push(r2);
    v.push(r3);
    proof {
        assert(grid_view(v) =~~= seq![s0, s1, s2, s3]);
    }
    v
}

/// Builds the piece that a random draw selects: the draw picks one of the
/// seven canonical shapes, and the shape's index picks its colour.
pub fn piece_from_draw(draw: u32) -> (p: Vec<Vec<u8>>)
    ensures
        grid_view(p) == scaled_canonical((draw % 7) as int),
        piece_wf(grid_view(p)),
        has_pivot(grid_view(p)),
{
    let i = draw % 7;
    let p = if i == 0 {
        shape_grid(
            shape_row(1, 0, 0, 0),
            shape_row(1, 129, 1, 0),
            shape_row(0, 0, 0, 0),
            shape_row(0, 0, 0, 0),
        )
    } else if i == 1 {
        shape_grid(
            shape_row(0, 0, 0, 0),
            shape_row(2, 130, 2, 0),
            shape_row(2, 0, 0, 0),
            shape_row(0, 0, 0, 0),
        )
    } else if i == 2 {
        shape_grid(
            shape_row(0, 0, 0, 0),
            shape_row(0, 3, 131, 3),
            shape_row(0, 0, 3, 0),
            shape_row(0, 0, 0, 0),
        )
    } else if i == 3 {
        shape_grid(
            shape_row(0, 0, 0, 0),
            shape_row(0, 4, 132, 0),
            shape_row(0, 4, 4, 0),
            shape_row(0, 0, 0, 0),
        )
    } else if i == 4 {
        shape_grid(
            shape_row(0, 0, 5, 0),
            shape_row(0, 0, 133, 0),
            shape_row(0, 0, 5, 0),
            shape_row(0, 0, 5, 0),
        )
    } else if i == 5 {
        shape_grid(
            shape_row(0, 0, 0, 6),
            shape_row(0, 0, 134, 6),
            shape_row(0, 0, 6, 0),
            shape_row(0, 0, 0, 0),
        )
    } else {
        shape_grid(
            shape_row(0, 0, 7, 0),
            shape_row(0, 0, 135, 7),
            shape_row(0, 0, 0, 7),
            shape_row(0, 0, 0, 0),
        )
    };
    proof {
        assert(grid_view(p) =~~= scaled_canonical(i as int));
        lemma_scaled_canonical_wf(i as int);
    }
    p
}

/// Relies on rand::random: draws a value of the requested type; nothing is
/// assumed about which one comes back.
pub assume_specification<T>[ rand::random::<T> ]() -> (r: T)
    where
        rand::distributions::Standard: rand::distributions::Distribution<T>,
;

/// Generates a fresh piece: a uniform random draw picks one of the seven
/// canonical shapes, whose index fixes its colour.  Which shape comes back
/// depends on the draw; every outcome is a well-formed scaled canonical
/// shape.
pub fn random_piece() -> (p: Vec<Vec<u8>>)
    ensures
        exists|i: int| 0 <= i < 7 && grid_view(p) == scaled_canonical(i),
        piece_wf(grid_view(p)),
        has_pivot(grid_view(p)),
{
    let draw: u32 = rand::random();
    let p = piece_from_draw(draw);
    proof {
        assert(((draw % 7) as int) < 7);
        assert(grid_view(p) == scaled_canonical((draw % 7) as int));
    }
    p
}

} // verus!
