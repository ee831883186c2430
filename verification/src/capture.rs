//! The rules of capture on the model of the board: what a placement
//! captures, where a side may place a piece, and what a placement leaves.

use vstd::prelude::*;
use vstd::seq_lib::lemma_seq_concat_contains_all_elements;
use crate::cell::{FieldValue, Side};
use crate::grid::{all_coords, cell_on, interior, paint, Coord, Grid};

verus! {

/// The eight directions of the compass as (row step, column step), in the
/// order in which a placement is scanned: north first, then clockwise.
pub open spec fn direction(i: int) -> Coord {
    if i == 0 {
        (-1, 0)
    } else if i == 1 {
        (-1, 1)
    } else if i == 2 {
        (0, 1)
    } else if i == 3 {
        (1, 1)
    } else if i == 4 {
        (1, 0)
    } else if i == 5 {
        (1, -1)
    } else if i == 6 {
        (0, -1)
    } else {
        (-1, -1)
    }
}

/// `k` steps along one axis: `k * delta` for a delta of -1, 0 or 1.
pub open spec fn stride(delta: int, k: int) -> int {
    if delta > 0 {
        k
    } else if delta < 0 {
        -k
    } else {
        0
    }
}

/// The coordinate `k` steps away from `p` in direction `d`.
pub open spec fn along(p: Coord, d: Coord, k: int) -> Coord {
    (p.0 + stride(d.0, k), p.1 + stride(d.1, k))
}

/// The first `n` coordinates after `p` in direction `d`, nearest first.
pub open spec fn ray(p: Coord, d: Coord, n: int) -> Seq<Coord> {
    Seq::new(n as nat, |i: int| along(p, d, i + 1))
}

/// Whether a piece of `side` at `p` brackets exactly `n` cells in direction
/// `d`: the next `n` cells all hold the opponent's colour, `n` is at least
/// one, and the cell after them holds `side`'s own colour.
pub open spec fn brackets(g: Grid, p: Coord, d: Coord, side: Side, n: int) -> bool {
    &&& n >= 1
    &&& forall|k: int| 1 <= k <= n ==> cell_on(g, #[trigger] along(p, d, k)) == side.opponent().cell()
    &&& cell_on(g, along(p, d, n + 1)) == side.cell()
}

/// The cells that a piece of `side` at `p` captures in direction `d`,
/// nearest first: the bracketed run if there is one, else nothing.
pub open spec fn line(g: Grid, p: Coord, d: Coord, side: Side) -> Seq<Coord> {
    if exists|n: int| brackets(g, p, d, side, n) {
        ray(p, d, choose|n: int| brackets(g, p, d, side, n))
    } else {
        Seq::empty()
    }
}

/// The captures in the first `n` directions, one direction after the other.
pub open spec fn captured_through(g: Grid, p: Coord, side: Side, n: int) -> Seq<Coord>
    decreases n,
{
    if n <= 0 {
        Seq::empty()
    } else {
        captured_through(g, p, side, n - 1) + line(g, p, direction(n - 1), side)
    }
}

/// The cells that a piece of `side` placed at `p` captures: the captures of
/// all eight directions in scanning order. A coordinate outside the playing
/// area captures nothing.
pub open spec fn captured(g: Grid, p: Coord, side: Side) -> Seq<Coord> {
    if interior(p.0, p.1) {
        captured_through(g, p, side, 8)
    } else {
        Seq::empty()
    }
}

/// Whether `side` may place a piece at `p`: the cell is empty and the
/// piece would capture at least one cell.
pub open spec fn legal(g: Grid, p: Coord, side: Side) -> bool {
    cell_on(g, p) == FieldValue::Empty && captured(g, p, side).len() > 0
}

/// The legal placements of `side`, row by row.
pub open spec fn legal_moves(g: Grid, side: Side) -> Seq<Coord> {
    all_coords().filter(|p: Coord| legal(g, p, side))
}

/// The grid after `side` has placed a piece at `p`: the captured cells and
/// `p` itself hold `side`'s colour, every other cell is as before.
pub open spec fn apply_move(g: Grid, p: Coord, side: Side) -> Grid {
    paint(g, captured(g, p, side).push(p), side.cell())
}

/// Run lengths are unique: a piece brackets at most one run in a direction.
pub proof fn lemma_brackets_unique(g: Grid, p: Coord, d: Coord, side: Side, m: int, n: int)
    requires
        brackets(g, p, d, side, m),
        brackets(g, p, d, side, n),
    ensures
        m == n,
{
}

/// A bracketed run of `n` cells is what the direction captures.
pub proof fn lemma_line_of_run(g: Grid, p: Coord, d: Coord, side: Side, n: int)
    requires
        brackets(g, p, d, side, n),
    ensures
        line(g, p, d, side) == ray(p, d, n),
{
    let m = choose|m: int| brackets(g, p, d, side, m);
    lemma_brackets_unique(g, p, d, side, m, n);
}

/// Where the run of the opponent's cells ends at step `k` on a cell that is
/// not `side`'s own, or where there is no such run at all, the direction
/// captures nothing.
pub proof fn lemma_line_without_run(g: Grid, p: Coord, d: Coord, side: Side, k: int)
    requires
        k >= 1,
        forall|j: int| 1 <= j < k ==> cell_on(g, #[trigger] along(p, d, j)) == side.opponent().cell(),
        cell_on(g, along(p, d, k)) != side.opponent().cell(),
        k == 1 || cell_on(g, along(p, d, k)) != side.cell(),
    ensures
        line(g, p, d, side) == Seq::<Coord>::empty(),
{
}

/// Every cell that the first `n` directions capture holds the opponent's
/// colour.
pub proof fn lemma_captured_through_cells(g: Grid, p: Coord, side: Side, n: int, q: Coord)
    requires
        captured_through(g, p, side, n).contains(q),
    ensures
        cell_on(g, q) == side.opponent().cell(),
    decreases n,
{
    if n > 0 {
        let d = direction(n - 1);
        let head = captured_through(g, p, side, n - 1);
        lemma_seq_concat_contains_all_elements(head, line(g, p, d, side), q);
        if head.contains(q) {
            lemma_captured_through_cells(g, p, side, n - 1, q);
        }
    }
}

/// Every captured cell holds the opponent's colour.
pub proof fn lemma_captured_cells(g: Grid, p: Coord, side: Side, q: Coord)
    requires
        captured(g, p, side).contains(q),
    ensures
        cell_on(g, q) == side.opponent().cell(),
{
    lemma_captured_through_cells(g, p, side, 8, q);
}

} // verus!
