//! The well: a fixed grid of 22 rows by 10 columns of landed cell codes.
//!
//! Rows never resize; every cell is 0 when empty or a colour-bearing code.
//! The module owns row-completion counting and the line-clear compaction:
//! every full row is removed, the surviving rows keep their top-to-bottom
//! order and end flush with the floor of the well, and as many empty rows
//! are inserted at the top as were removed.

use vstd::prelude::*;
use vstd::seq_lib::group_filter_ensures;

use crate::session::State;
use crate::shape::grid_view;

verus! {

broadcast use group_filter_ensures;

/// Rows of the well.
pub const WELL_HEIGHT: usize = 22;

/// Columns of the well.
pub const WELL_WIDTH: usize = 10;

/// A well-formed well: 22 rows of 10 cells.
pub open spec fn board_wf(b: Seq<Seq<u8>>) -> bool {
    &&& b.len() == 22
    &&& forall|i: int| 0 <= i < 22 ==> (#[trigger] b[i]).len() == 10
}

/// A row is full when every one of its 10 cells is nonzero.
pub open spec fn row_full(r: Seq<u8>) -> bool {
    forall|j: int| 0 <= j < 10 ==> #[trigger] r[j] > 0
}

/// An empty row of the well.
pub open spec fn zero_row() -> Seq<u8> {
    Seq::new(10, |j: int| 0u8)
}

/// How many rows of the board are full.
pub open spec fn count_full(b: Seq<Seq<u8>>) -> int
    decreases b.len(),
{
    if b.len() == 0 {
        0
    } else {
        count_full(b.drop_last()) + if row_full(b.last()) {
            1int
        } else {
            0int
        }
    }
}

/// The predicate that keeps a row through compaction: the row is not full.
pub open spec fn not_full_pred() -> spec_fn(Seq<u8>) -> bool {
    |r: Seq<u8>| !row_full(r)
}

/// The rows that survive compaction, in their original order.
pub open spec fn keep_rows(b: Seq<Seq<u8>>) -> Seq<Seq<u8>> {
    b.filter(not_full_pred())
}

/// The board after line clearing: the surviving rows pushed flush with the
/// floor, topped up with empty rows.
pub open spec fn compact_spec(b: Seq<Seq<u8>>) -> Seq<Seq<u8>> {
    Seq::new(
        22,
        |i: int|
            if i < 22 - keep_rows(b).len() {
                zero_row()
            } else {
                keep_rows(b)[i - (22 - keep_rows(b).len())]
            },
    )
}

/// The number of full rows is between 0 and the number of rows.
pub proof fn lemma_count_full_bounds(b: Seq<Seq<u8>>)
    ensures
        0 <= count_full(b) <= b.len(),
    decreases b.len(),
{
    if b.len() > 0 {
        lemma_count_full_bounds(b.drop_last());
    }
}

/// No row is full exactly when the count of full rows is zero.
pub proof fn lemma_count_full_zero(b: Seq<Seq<u8>>)
    ensures
        count_full(b) == 0 <==> (forall|i: int| 0 <= i < b.len() ==> !row_full(#[trigger] b[i])),
    decreases b.len(),
{
    if b.len() > 0 {
        lemma_count_full_zero(b.drop_last());
        lemma_count_full_bounds(b.drop_last());
        assert(forall|i: int| 0 <= i < b.len() - 1 ==> #[trigger] b[i] == b.drop_last()[i]);
        assert(b.last() == b[b.len() - 1]);
    }
}

/// Surviving rows and full rows together account for every row.
pub proof fn lemma_keep_rows_len(b: Seq<Seq<u8>>)
    ensures
        keep_rows(b).len() + count_full(b) == b.len(),
    decreases b.len(),
{
    reveal(Seq::filter);
    if b.len() > 0 {
        lemma_keep_rows_len(b.drop_last());
    }
}

/// When no row is full, compaction keeps every row as it stands.
pub proof fn lemma_keep_rows_all(b: Seq<Seq<u8>>)
    requires
        forall|i: int| 0 <= i < b.len() ==> !row_full(#[trigger] b[i]),
    ensures
        keep_rows(b) == b,
    decreases b.len(),
{
    reveal(Seq::filter);
    if b.len() > 0 {
        assert(forall|i: int| 0 <= i < b.len() - 1 ==> #[trigger] b.drop_last()[i] == b[i]);
        lemma_keep_rows_all(b.drop_last());
        assert(!row_full(b.last()));
        assert(keep_rows(b) =~= b.drop_last().push(b.last()));
        assert(b.drop_last().push(b.last()) =~= b);
    }
}

/// Every surviving row is a row of the board, unfull, with its cells kept.
pub proof fn lemma_keep_rows_from(b: Seq<Seq<u8>>)
    ensures
        forall|i: int|
            0 <= i < keep_rows(b).len() ==> exists|j: int|
                0 <= j < b.len() && #[trigger] keep_rows(b)[i] == b[j],
    decreases b.len(),
{
    reveal(Seq::filter);
    if b.len() > 0 {
        lemma_keep_rows_from(b.drop_last());
        assert forall|i: int| 0 <= i < keep_rows(b).len() implies exists|j: int|
            0 <= j < b.len() && #[trigger] keep_rows(b)[i] == b[j] by {
            let kd = keep_rows(b.drop_last());
            if i < kd.len() {
                assert(keep_rows(b)[i] == kd[i]);
                let j = choose|j: int| 0 <= j < b.drop_last().len() && kd[i] == b.drop_last()[j];
                assert(b.drop_last()[j] == b[j]);
                assert(keep_rows(b)[i] == b[j]);
            } else {
                assert(keep_rows(b)[i] == b.last());
                assert(keep_rows(b)[i] == b[b.len() - 1]);
            }
        }
    }
}

/// The compacted board is again a well-formed well.
pub proof fn lemma_compact_wf(b: Seq<Seq<u8>>)
    requires
        board_wf(b),
    ensures
        board_wf(compact_spec(b)),
{
    lemma_keep_rows_len(b);
    lemma_count_full_bounds(b);
    lemma_keep_rows_from(b);
    assert forall|i: int| 0 <= i < 22 implies (#[trigger] compact_spec(b)[i]).len() == 10 by {
        if i < 22 - keep_rows(b).len() {
            assert(compact_spec(b)[i] == zero_row());
        } else {
            let k = i - (22 - keep_rows(b).len());
            assert(compact_spec(b)[i] == keep_rows(b)[k]);
            let j = choose|j: int| 0 <= j < b.len() && keep_rows(b)[k] == b[j];
            assert(b[j].len() == 10);
        }
    }
}

/// No row of the compacted board is full.
pub proof fn lemma_compact_no_full(b: Seq<Seq<u8>>)
    requires
        board_wf(b),
    ensures
        forall|i: int| 0 <= i < 22 ==> !row_full(#[trigger] compact_spec(b)[i]),
        count_full(compact_spec(b)) == 0,
{
    lemma_keep_rows_len(b);
    lemma_count_full_bounds(b);
    assert forall|i: int| 0 <= i < 22 implies !row_full(#[trigger] compact_spec(b)[i]) by {
        if i < 22 - keep_rows(b).len() {
            assert(compact_spec(b)[i] == zero_row());
            assert(zero_row()[0] == 0);
        } else {
            let k = i - (22 - keep_rows(b).len());
            assert(compact_spec(b)[i] == keep_rows(b)[k]);
            assert(not_full_pred()(keep_rows(b)[k]));
        }
    }
    lemma_count_full_zero(compact_spec(b));
}

/// The well with nothing landed: 22 empty rows.
pub open spec fn empty_board() -> Seq<Seq<u8>> {
    Seq::new(22, |i: int| zero_row())
}

/// The empty well is well-formed and has no full row.
pub proof fn lemma_empty_board()
    ensures
        board_wf(empty_board()),
        count_full(empty_board()) == 0,
        forall|i: int| 0 <= i < 22 ==> !row_full(#[trigger] empty_board()[i]),
{
    assert forall|i: int| 0 <= i < 22 implies !row_full(#[trigger] empty_board()[i]) by {
        assert(empty_board()[i] == zero_row());
        assert(zero_row()[0] == 0);
    }
    lemma_count_full_zero(empty_board());
}

/// Writes one cell of a grid, leaving every other row untouched.
pub fn set_cell(cells: &mut Vec<Vec<u8>>, r: usize, c: usize, v: u8)
    requires
        r < old(cells)@.len(),
        c < old(cells)@[r as int]@.len(),
    ensures
        final(cells)@.len() == old(cells)@.len(),
        forall|i: int|
            0 <= i < old(cells)@.len() && i != r ==> final(cells)@[i] == old(cells)@[i],
        final(cells)@[r as int]@ == old(cells)@[r as int]@.update(c as int, v),
{
    cells[r][c] = v;
}

/// Copies a row of cells.
pub fn copy_row(row: &Vec<u8>) -> (r: Vec<u8>)
    ensures
        r@ == row@,
{
    let mut v: Vec<u8> = Vec::new();
    let mut j: usize = 0;
    while j < row.len()
        invariant
            j <= row@.len(),
            v@ == row@.take(j as int),
        decreases row@.len() - j,
    {
        v.push(row[j]);
        proof {
            assert(v@ =~= row@.take(j + 1));
        }
        j = j + 1;
    }
    proof {
        assert(row@.take(row@.len() as int) =~= row@);
    }
    v
}

/// Builds an empty row of the well.
fn make_zero_row() -> (r: Vec<u8>)
    ensures
        r@ == zero_row(),
{
    let mut v: Vec<u8> = Vec::new();
    let mut j: usize = 0;
    while j < WELL_WIDTH
        invariant
            j <= 10,
            v@.len() == j,
            forall|t: int| 0 <= t < j ==> v@[t] == 0u8,
        decreases 10 - j,
    {
        v.push(0u8);
        j = j + 1;
    }
    proof {
        assert(v@ =~= zero_row());
    }
    v
}

/// Builds an empty well.
pub fn empty_cells() -> (v: Vec<Vec<u8>>)
    ensures
        grid_view(v) == empty_board(),
{
    let mut v: Vec<Vec<u8>> = Vec::new();
    let mut i: usize = 0;
    while i < WELL_HEIGHT
        invariant
            i <= 22,
            v@.len() == i,
            forall|t: int| 0 <= t < i ==> grid_view(v)[t] == zero_row(),
        decreases 22 - i,
    {
        let ghost before = grid_view(v);
        v.push(make_zero_row());
        proof {
            assert forall|t: int| 0 <= t < i + 1 implies grid_view(v)[t] == zero_row() by {
                if t < i {
                    assert(grid_view(v)[t] == before[t]);
                }
            }
        }
        i = i + 1;
    }
    proof {
        assert(grid_view(v) =~~= empty_board());
    }
    v
}

/// Copies a grid of cells row by row.
pub fn copy_grid(g: &Vec<Vec<u8>>) -> (r: Vec<Vec<u8>>)
    ensures
        grid_view(r) == grid_view(*g),
{
    let mut v: Vec<Vec<u8>> = Vec::new();
    let mut i: usize = 0;
    while i < g.len()
        invariant
            i <= g@.len(),
            v@.len() == i,
            forall|t: int| 0 <= t < i ==> grid_view(v)[t] == grid_view(*g)[t],
        decreases g@.len() - i,
    {
        let ghost before = grid_view(v);
        let row = copy_row(&g[i]);
        v.push(row);
        proof {
            assert forall|t: int| 0 <= t < i + 1 implies grid_view(v)[t] == grid_view(*g)[t] by {
                if t < i {
                    assert(grid_view(v)[t] == before[t]);
                } else {
                    assert(grid_view(v)[t] == g@[t]@);
                }
            }
        }
        i = i + 1;
    }
    proof {
        assert(grid_view(v) =~~= grid_view(*g));
    }
    v
}

/// True iff every cell in the row is nonzero.
pub fn is_row_full(row: &Vec<u8>) -> (r: bool)
    requires
        row@.len() == 10,
    ensures
        r == row_full(row@),
{
    let mut j: usize = 0;
    while j < WELL_WIDTH
        invariant
            row@.len() == 10,
            j <= 10,
            forall|t: int| 0 <= t < j ==> #[trigger] row@[t] > 0,
        decreases 10 - j,
    {
        if row[j] == 0 {
            return false;
        }
        j = j + 1;
    }
    true
}

/// Counts the full rows of the well, reading only; no row is removed.
pub fn rows_complete(state: &State) -> (n: u32)
    requires
        board_wf(grid_view(state.cells)),
    ensures
        n == count_full(grid_view(state.cells)),
{
    let ghost b = grid_view(state.cells);
    let mut n: u32 = 0;
    let mut r: usize = 0;
    while r < WELL_HEIGHT
        invariant
            board_wf(b),
            b == grid_view(state.cells),
            r <= 22,
            n == count_full(b.take(r as int)),
        decreases 22 - r,
    {
        proof {
            lemma_count_full_bounds(b.take(r as int));
            assert(b.take(r as int + 1).drop_last() =~= b.take(r as int));
            assert(b.take(r as int + 1).last() == b[r as int]);
            assert(state.cells@.len() == 22);
            assert(b[r as int].len() == 10);
        }
        if is_row_full(&state.cells[r]) {
            n = n + 1;
        }
        r = r + 1;
    }
    proof {
        assert(b.take(22) =~= b);
    }
    n
}

/// Removes every full row and compacts the well: the surviving rows keep
/// their relative order and end flush with the floor, and as many empty rows
/// are inserted at the top as were removed.  Returns how many rows were
/// removed; nothing else of the session changes.
pub fn clear_completed_rows(state: &mut State) -> (removed: u32)
    requires
        board_wf(grid_view(old(state).cells)),
    ensures
        grid_view(final(state).cells) == compact_spec(grid_view(old(state).cells)),
        removed == count_full(grid_view(old(state).cells)),
        board_wf(grid_view(final(state).cells)),
        final(state).score == old(state).score,
        final(state).lines == old(state).lines,
        final(state).level == old(state).level,
        final(state).current_piece_x == old(state).current_piece_x,
        final(state).current_piece_y == old(state).current_piece_y,
        final(state).current_piece == old(state).current_piece,
        final(state).next_piece == old(state).next_piece,
        final(state).step_time == old(state).step_time,
        final(state).dropping == old(state).dropping,
        final(state).status == old(state).status,
{
    let ghost b = grid_view(old(state).cells);
    let mut kept: Vec<Vec<u8>> = Vec::new();
    let mut r: usize = 0;
    while r < WELL_HEIGHT
        invariant
            *state == *old(state),
            board_wf(b),
            b == grid_view(state.cells),
            r <= 22,
            grid_view(kept) == keep_rows(b.take(r as int)),
        decreases 22 - r,
    {
        proof {
            assert(state.cells@.len() == 22);
            assert(b[r as int].len() == 10);
        }
        let ghost kept_before = grid_view(kept);
        let full = is_row_full(&state.cells[r]);
        if !full {
            let row = copy_row(&state.cells[r]);
            kept.push(row);
            proof {
                assert(grid_view(kept) =~= kept_before.push(b[r as int]));
            }
        }
        proof {
            assert(b.take(r as int + 1) =~= b.take(r as int) + seq![b[r as int]]);
            Seq::filter_distributes_over_add(b.take(r as int), seq![b[r as int]], not_full_pred());
            reveal(Seq::filter);
            let single = seq![b[r as int]];
            assert(single.len() == 1);
            assert(single.last() == b[r as int]);
            assert(single.drop_last() =~= Seq::<Seq<u8>>::empty());
            assert(Seq::<Seq<u8>>::empty().filter(not_full_pred()) =~= Seq::<Seq<u8>>::empty());
            assert(not_full_pred()(single.last()) == !row_full(b[r as int]));
            if !row_full(b[r as int]) {
                assert(single.filter(not_full_pred()) == single.drop_last().filter(
                    not_full_pred(),
                ).push(single.last()));
                assert(single.filter(not_full_pred()) =~= single);
                assert(keep_rows(b.take(r as int + 1)) =~= keep_rows(b.take(r as int)).push(
                    b[r as int],
                ));
            } else {
                assert(single.filter(not_full_pred()) == single.drop_last().filter(
                    not_full_pred(),
                ));
                assert(single.filter(not_full_pred()) =~= Seq::<Seq<u8>>::empty());
                assert(keep_rows(b.take(r as int + 1)) =~= keep_rows(b.take(r as int)));
            }
        }
        r = r + 1;
    }
    proof {
        assert(b.take(22) =~= b);
        lemma_keep_rows_len(b);
        lemma_count_full_bounds(b);
        assert(kept@.len() == keep_rows(b).len());
    }
    let removed: usize = WELL_HEIGHT - kept.len();
    let mut cells: Vec<Vec<u8>> = Vec::new();
    let mut i: usize = 0;
    while i < removed
        invariant
            i <= removed,
            cells@.len() == i,
            forall|t: int| 0 <= t < i ==> grid_view(cells)[t] == zero_row(),
        decreases removed - i,
    {
        let ghost cells_before = grid_view(cells);
        cells.push(make_zero_row());
        proof {
            assert forall|t: int| 0 <= t < i + 1 implies grid_view(cells)[t] == zero_row() by {
                if t < i {
                    assert(grid_view(cells)[t] == cells_before[t]);
                }
            }
        }
        i = i + 1;
    }
    let mut j: usize = 0;
    while j < kept.len()
        invariant
            j <= kept@.len(),
            removed == 22 - kept@.len(),
            cells@.len() == removed + j,
            forall|t: int| 0 <= t < removed ==> grid_view(cells)[t] == zero_row(),
            forall|t: int|
                removed <= t < removed + j ==> grid_view(cells)[t] == grid_view(kept)[t - removed],
        decreases kept@.len() - j,
    {
        let ghost cells_before = grid_view(cells);
        let row = copy_row(&kept[j]);
        cells.push(row);
        proof {
            assert forall|t: int| 0 <= t < removed + j + 1 implies (t < removed ==> grid_view(
                cells,
            )[t] == zero_row()) && (removed <= t ==> grid_view(cells)[t] == grid_view(kept)[t
                - removed]) by {
                if t < removed + j {
                    assert(grid_view(cells)[t] == cells_before[t]);
                } else {
                    assert(grid_view(cells)[t] == kept@[j as int]@);
                }
            }
        }
        j = j + 1;
    }
    state.cells = cells;
    proof {
        assert(grid_view(state.cells) =~~= compact_spec(b));
        lemma_compact_wf(b);
    }
    removed as u32
}

} // verus!
