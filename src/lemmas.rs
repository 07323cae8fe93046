use vstd::prelude::*;

use crate::board::{
    filled, lemma_drop_keeps_wf, lemma_settled_filled, step, BoardView, Direction, SlotState,
    COLUMNS, ROWS,
};

verus! {

/// The pieces of the columns below `j` are no more than those below `k`.
proof fn lemma_pieces_monotone(v: BoardView, j: int, k: int)
    requires
        0 <= j <= k,
    ensures
        v.pieces_in(j) <= v.pieces_in(k),
    decreases k - j,
{
    if j < k {
        lemma_pieces_monotone(v, j, k - 1);
    }
}

/// A column with a piece at row `q` holds more than `q` pieces.
proof fn lemma_height_above(v: BoardView, c: int, q: int)
    requires
        v.wf(),
        0 <= c < COLUMNS,
        0 <= q < ROWS,
        v.grid[c][q] != SlotState::Empty,
    ensures
        v.height(c) > q,
{
    lemma_settled_filled(v.grid[c]);
}

/// A board with fewer than four pieces has no winner.
pub proof fn lemma_few_pieces_no_winner(v: BoardView)
    requires
        v.wf(),
        v.pieces() < 4,
    ensures
        !v.has_winner(),
{
    if let Some(p) = v.last {
        let (c, r) = p;
        if v.wins_along(c, r, Direction::Vertical) {
            let t = choose|t: int| #[trigger] v.four_in_line(c, r, Direction::Vertical, t);
            lemma_height_above(v, c, r + t + 3);
            lemma_pieces_monotone(v, c + 1, COLUMNS as int);
        }
        assert forall|d: Direction|
            d != Direction::Vertical implies !#[trigger] v.wins_along(c, r, d) by {
            if v.wins_along(c, r, d) {
                let t = choose|t: int| #[trigger] v.four_in_line(c, r, d, t);
                let a = c + t;
                assert(step(c, r, d, t).0 == a);
                assert(step(c, r, d, t + 1).0 == a + 1);
                assert(step(c, r, d, t + 2).0 == a + 2);
                assert(step(c, r, d, t + 3).0 == a + 3);
                lemma_height_above(v, a, step(c, r, d, t).1);
                lemma_height_above(v, a + 1, step(c, r, d, t + 1).1);
                lemma_height_above(v, a + 2, step(c, r, d, t + 2).1);
                lemma_height_above(v, a + 3, step(c, r, d, t + 3).1);
                assert(v.pieces_in(a + 1) == v.pieces_in(a) + v.height(a));
                assert(v.pieces_in(a + 2) == v.pieces_in(a + 1) + v.height(a + 1));
                assert(v.pieces_in(a + 3) == v.pieces_in(a + 2) + v.height(a + 2));
                assert(v.pieces_in(a + 4) == v.pieces_in(a + 3) + v.height(a + 3));
                lemma_pieces_monotone(v, a + 4, COLUMNS as int);
            }
        }
    }
}

/// Four drops of one mark in succession into one column that has room for
/// them give a winner.
pub proof fn lemma_four_stacked_wins(v: BoardView, c: int, m: SlotState)
    requires
        v.wf(),
        0 <= c < COLUMNS,
        m != SlotState::Empty,
        v.height(c) + 4 <= ROWS,
    ensures
        v.after_drop(c, m).after_drop(c, m).after_drop(c, m).after_drop(c, m).has_winner(),
{
    let h = v.height(c) as int;
    let v1 = v.after_drop(c, m);
    lemma_drop_keeps_wf(v, c, m);
    let v2 = v1.after_drop(c, m);
    lemma_drop_keeps_wf(v1, c, m);
    let v3 = v2.after_drop(c, m);
    lemma_drop_keeps_wf(v2, c, m);
    let v4 = v3.after_drop(c, m);
    lemma_drop_keeps_wf(v3, c, m);
    assert(v4.grid[c][h] == m);
    assert(v4.grid[c][h + 1] == m);
    assert(v4.grid[c][h + 2] == m);
    assert(v4.grid[c][h + 3] == m);
    assert(v4.last == Some((c, h + 3)));
    assert(v4.four_in_line(c, h + 3, Direction::Vertical, -3));
}

/// When the last piece placed is at `(c, r)` and row `r` holds four equal
/// marks in adjacent columns from column `a` on, the board has a winner.
pub proof fn lemma_row_of_four_wins(v: BoardView, c: int, r: int, a: int, m: SlotState)
    requires
        v.wf(),
        v.last == Some((c, r)),
        0 <= a,
        a + 3 < COLUMNS,
        m != SlotState::Empty,
        forall|i: int| 0 <= i < 4 ==> #[trigger] v.grid[a + i][r] == m,
    ensures
        v.has_winner(),
{
    assert(v.grid[a + 0][r] == m);
    assert(v.grid[a + 1][r] == m);
    assert(v.grid[a + 2][r] == m);
    assert(v.grid[a + 3][r] == m);
    assert(v.four_in_line(c, r, Direction::Horizontal, a - c));
}

} // verus!
