//! Laws of the engine: properties that relate the specifications to one
//! another, proved once and for all boards and shapes.

use vstd::prelude::*;

use crate::board::board_wf;
use crate::board::compact_spec;
use crate::board::count_full;
use crate::board::keep_rows;
use crate::board::lemma_compact_no_full;
use crate::board::lemma_compact_wf;
use crate::board::lemma_count_full_zero;
use crate::board::lemma_keep_rows_all;
use crate::board::lemma_keep_rows_len;
use crate::board::not_full_pred;
use crate::board::row_full;
use crate::board::zero_row;
use crate::collision::can_place_spec;
use crate::collision::cell_free;
use crate::shape::pivot_x_spec;
use crate::shape::pivot_y_spec;

verus! {

/// Clearing a board with no full row is a no-op: the compacted board is the
/// board itself (and the count of removed rows, which the clearing returns,
/// is zero by definition).
pub proof fn lemma_clear_noop_when_no_full_rows(b: Seq<Seq<u8>>)
    requires
        board_wf(b),
        count_full(b) == 0,
    ensures
        compact_spec(b) == b,
{
    lemma_count_full_zero(b);
    lemma_keep_rows_all(b);
    assert(compact_spec(b) =~= b);
}

/// After clearing, no row is full, so clearing again changes nothing and
/// removes zero rows.
pub proof fn lemma_clear_idempotent(b: Seq<Seq<u8>>)
    requires
        board_wf(b),
    ensures
        forall|i: int| 0 <= i < 22 ==> !row_full(#[trigger] compact_spec(b)[i]),
        count_full(compact_spec(b)) == 0,
        compact_spec(compact_spec(b)) == compact_spec(b),
{
    lemma_compact_no_full(b);
    lemma_compact_wf(b);
    lemma_clear_noop_when_no_full_rows(compact_spec(b));
}

/// On a board whose only full row is row `r`, the surviving rows are exactly
/// the rows around `r`, in order.
proof fn lemma_keep_rows_single(b: Seq<Seq<u8>>, r: int)
    requires
        board_wf(b),
        0 <= r < 22,
        row_full(b[r]),
        forall|i: int| 0 <= i < 22 && i != r ==> !row_full(#[trigger] b[i]),
    ensures
        keep_rows(b) == b.take(r) + b.skip(r + 1),
{
    let pre = b.take(r);
    let mid = seq![b[r]];
    let post = b.skip(r + 1);
    assert(b =~= (pre + mid) + post);
    Seq::filter_distributes_over_add(pre + mid, post, not_full_pred());
    Seq::filter_distributes_over_add(pre, mid, not_full_pred());
    assert(forall|i: int| 0 <= i < pre.len() ==> #[trigger] pre[i] == b[i]);
    lemma_keep_rows_all(pre);
    assert(forall|i: int| 0 <= i < post.len() ==> #[trigger] post[i] == b[r + 1 + i]);
    lemma_keep_rows_all(post);
    reveal(Seq::filter);
    assert(mid.len() == 1);
    assert(mid.last() == b[r]);
    assert(!not_full_pred()(mid.last()));
    assert(mid.filter(not_full_pred()) == mid.drop_last().filter(not_full_pred()));
    assert(mid.drop_last() =~= Seq::<Seq<u8>>::empty());
    assert(Seq::<Seq<u8>>::empty().filter(not_full_pred()) =~= Seq::<Seq<u8>>::empty());
    assert(keep_rows(b) =~= pre + post);
}

/// Clearing a board with exactly one full row, at row `r`, removes exactly
/// that row: one empty row appears at the top, the rows above `r` each move
/// down one place, and the rows below `r` stand unchanged.
pub proof fn lemma_clear_single_full_row(b: Seq<Seq<u8>>, r: int)
    requires
        board_wf(b),
        0 <= r < 22,
        row_full(b[r]),
        forall|i: int| 0 <= i < 22 && i != r ==> !row_full(#[trigger] b[i]),
    ensures
        count_full(b) == 1,
        compact_spec(b)[0] == zero_row(),
        forall|i: int| 0 <= i < r ==> compact_spec(b)[i + 1] == b[i],
        forall|i: int| r < i < 22 ==> #[trigger] compact_spec(b)[i] == b[i],
{
    lemma_keep_rows_single(b, r);
    lemma_keep_rows_len(b);
    assert(keep_rows(b).len() == 21);
    assert(count_full(b) == 1);
    assert(compact_spec(b)[0] == zero_row());
    assert forall|i: int| 0 <= i < r implies compact_spec(b)[i + 1] == b[i] by {
        assert(compact_spec(b)[i + 1] == keep_rows(b)[i]);
        assert(keep_rows(b)[i] == b.take(r)[i]);
    }
    assert forall|i: int| r < i < 22 implies #[trigger] compact_spec(b)[i] == b[i] by {
        assert(compact_spec(b)[i] == keep_rows(b)[i - 1]);
        assert(keep_rows(b)[i - 1] == b.skip(r + 1)[i - 1 - r]);
        assert(b.skip(r + 1)[i - 1 - r] == b[i]);
    }
}

/// A placement that puts any occupied cell at a column outside the well, or
/// at or below the floor, is rejected.
pub proof fn lemma_can_place_rejects_out_of_bounds(
    b: Seq<Seq<u8>>,
    p: Seq<Seq<u8>>,
    x: int,
    y: int,
    cy: int,
    cx: int,
)
    requires
        0 <= cy < 4,
        0 <= cx < 4,
        p[cy][cx] > 0,
        x - pivot_x_spec(p) + cx < 0 || x - pivot_x_spec(p) + cx >= 10 || y - pivot_y_spec(p) + cy
            >= 22,
    ensures
        !can_place_spec(b, p, x, y),
{
    assert(!cell_free(b, x - pivot_x_spec(p) + cx, y - pivot_y_spec(p) + cy));
}

/// A placement is never rejected for a negative row alone: when every
/// occupied cell keeps its column inside the well and either stands above
/// the visible well or on a free cell inside it, the placement is accepted.
pub proof fn lemma_can_place_accepts_hidden_rows(b: Seq<Seq<u8>>, p: Seq<Seq<u8>>, x: int, y: int)
    requires
        forall|cy: int, cx: int|
            #![trigger p[cy][cx]]
            0 <= cy < 4 && 0 <= cx < 4 && p[cy][cx] > 0 ==> {
                &&& 0 <= x - pivot_x_spec(p) + cx < 10
                &&& (y - pivot_y_spec(p) + cy < 0 || (y - pivot_y_spec(p) + cy < 22 && b[y
                    - pivot_y_spec(p) + cy][x - pivot_x_spec(p) + cx] == 0))
            },
    ensures
        can_place_spec(b, p, x, y),
{
}

} // verus!
