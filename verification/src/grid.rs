//! The mathematical model of the board: a grid of cell kinds inside a ring
//! of walls.

use vstd::prelude::*;
use crate::cell::FieldValue;

verus! {

/// A grid as a sequence of rows, each a sequence of cells.
pub type Grid = Seq<Seq<FieldValue>>;

/// A coordinate as (row, column).
pub type Coord = (int, int);

/// Whether (r, c) lies on the 10x10 grid.
pub open spec fn in_grid(r: int, c: int) -> bool {
    0 <= r < 10 && 0 <= c < 10
}

/// Whether (r, c) lies in the 8x8 playing area.
pub open spec fn interior(r: int, c: int) -> bool {
    1 <= r <= 8 && 1 <= c <= 8
}

/// The kind of the cell at `p`. Beyond the grid everything is wall.
pub open spec fn cell_on(g: Grid, p: Coord) -> FieldValue {
    if in_grid(p.0, p.1) {
        g[p.0][p.1]
    } else {
        FieldValue::Wall
    }
}

/// A grid is well formed when it is 10x10 and its wall cells are exactly
/// the cells of the outer ring.
pub open spec fn well_formed(g: Grid) -> bool {
    &&& g.len() == 10
    &&& forall|r: int| 0 <= r < 10 ==> (#[trigger] g[r]).len() == 10
    &&& forall|p: Coord| #[trigger] cell_on(g, p) == FieldValue::Wall <==> !interior(p.0, p.1)
}

/// The starting position: an empty playing area but for the four centre
/// cells.
pub open spec fn initial_grid() -> Grid {
    Seq::new(
        10,
        |r: int|
            Seq::new(
                10,
                |c: int|
                    if !interior(r, c) {
                        FieldValue::Wall
                    } else if (r == 4 && c == 4) || (r == 5 && c == 5) {
                        FieldValue::Black
                    } else if (r == 4 && c == 5) || (r == 5 && c == 4) {
                        FieldValue::White
                    } else {
                        FieldValue::Empty
                    },
            ),
    )
}

/// The coordinate with index `i` when the grid is read row by row.
pub open spec fn coord_at(i: int) -> Coord {
    (i / 10, i % 10)
}

/// All hundred coordinates of the grid, row by row.
pub open spec fn all_coords() -> Seq<Coord> {
    Seq::new(100, |i: int| coord_at(i))
}

/// The grid `g` with every cell of `cells` set to `v`.
pub open spec fn paint(g: Grid, cells: Seq<Coord>, v: FieldValue) -> Grid {
    Seq::new(
        10,
        |r: int| Seq::new(10, |c: int| if cells.contains((r, c)) { v } else { g[r][c] }),
    )
}

/// Filtering one element more of a sequence keeps or drops that element.
pub proof fn lemma_filter_take_step<A>(s: Seq<A>, pred: spec_fn(A) -> bool, n: int)
    requires
        0 <= n < s.len(),
    ensures
        s.take(n + 1).filter(pred) == if pred(s[n]) {
            s.take(n).filter(pred).push(s[n])
        } else {
            s.take(n).filter(pred)
        },
{
    reveal(Seq::filter);
    assert(s.take(n + 1).drop_last() =~= s.take(n));
}

} // verus!
