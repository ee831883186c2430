//! The number of cells of each kind.

use vstd::prelude::*;
use crate::cell::FieldValue;
use crate::grid::{cell_on, coord_at, lemma_filter_take_step, well_formed, Grid};

verus! {

/// The cells of the grid, row by row.
pub open spec fn cells(g: Grid) -> Seq<FieldValue> {
    Seq::new(100, |i: int| cell_on(g, coord_at(i)))
}

/// The test for a cell of kind `v`.
pub open spec fn is_kind(v: FieldValue) -> spec_fn(FieldValue) -> bool {
    |x: FieldValue| x == v
}

/// One where `b` holds, else zero.
pub open spec fn one_if(b: bool) -> nat {
    if b {
        1
    } else {
        0
    }
}

/// The number of cells of kind `v` among the first `n` cells of the grid.
pub open spec fn count_in(g: Grid, v: FieldValue, n: int) -> nat {
    cells(g).take(n).filter(is_kind(v)).len()
}

/// The number of cells of kind `v` on the whole grid, walls included.
pub open spec fn count(g: Grid, v: FieldValue) -> nat {
    cells(g).filter(is_kind(v)).len()
}

/// The number of wall cells among the first `n` cells of a well-formed
/// grid.
pub open spec fn ring_in(n: int) -> int {
    let r = n / 10;
    let c = n % 10;
    if r <= 0 {
        c
    } else if r <= 8 {
        if c >= 1 {
            2 * r + 9
        } else {
            2 * r + 8
        }
    } else if r == 9 {
        26 + c
    } else {
        36
    }
}

/// The count of a kind over no cells is zero.
pub proof fn lemma_count_none(g: Grid, v: FieldValue)
    ensures
        count_in(g, v, 0) == 0,
{
    reveal(Seq::filter);
}

/// The count over all hundred cells is the count of the grid.
pub proof fn lemma_count_all(g: Grid, v: FieldValue)
    ensures
        count_in(g, v, 100) == count(g, v),
{
    assert(cells(g).take(100) =~= cells(g));
}

/// One cell more adds one to the count of its kind and nothing to the
/// others.
pub proof fn lemma_count_step(g: Grid, v: FieldValue, n: int)
    requires
        0 <= n < 100,
    ensures
        count_in(g, v, n + 1) == count_in(g, v, n) + one_if(cell_on(g, coord_at(n)) == v),
{
    lemma_filter_take_step(cells(g), is_kind(v), n);
}

/// The first `n` cells of a well-formed grid hold `ring_in(n)` walls, and
/// the counts of the four kinds add up to `n`.
pub proof fn lemma_counts_in(g: Grid, n: int)
    requires
        well_formed(g),
        0 <= n <= 100,
    ensures
        count_in(g, FieldValue::Wall, n) == ring_in(n),
        count_in(g, FieldValue::Empty, n) + count_in(g, FieldValue::Black, n) + count_in(
            g,
            FieldValue::White,
            n,
        ) + count_in(g, FieldValue::Wall, n) == n,
    decreases n,
{
    if n == 0 {
        lemma_count_none(g, FieldValue::Wall);
        lemma_count_none(g, FieldValue::Empty);
        lemma_count_none(g, FieldValue::Black);
        lemma_count_none(g, FieldValue::White);
    } else {
        lemma_counts_in(g, n - 1);
        lemma_count_step(g, FieldValue::Wall, n - 1);
        lemma_count_step(g, FieldValue::Empty, n - 1);
        lemma_count_step(g, FieldValue::Black, n - 1);
        lemma_count_step(g, FieldValue::White, n - 1);
    }
}

/// On a well-formed grid the ring holds 36 walls and the playing area 64
/// cells, each empty, black or white.
pub proof fn lemma_counts(g: Grid)
    requires
        well_formed(g),
    ensures
        count(g, FieldValue::Wall) == 36,
        count(g, FieldValue::Empty) + count(g, FieldValue::Black) + count(g, FieldValue::White)
            == 64,
{
    lemma_counts_in(g, 100);
    lemma_count_all(g, FieldValue::Wall);
    lemma_count_all(g, FieldValue::Empty);
    lemma_count_all(g, FieldValue::Black);
    lemma_count_all(g, FieldValue::White);
}

/// The number of cells of each kind on a board.
#[derive(Clone, Copy, Debug, PartialEq, Eq, Structural)]
pub struct Tally {
    pub black: u32,
    pub white: u32,
    pub wall: u32,
    pub empty: u32,
}

impl Tally {
    /// The count of one kind.
    pub open spec fn of(self, kind: FieldValue) -> nat {
        match kind {
            FieldValue::Black => self.black as nat,
            FieldValue::White => self.white as nat,
            FieldValue::Wall => self.wall as nat,
            FieldValue::Empty => self.empty as nat,
        }
    }

    /// Whether this is the tally of the grid `g`.
    pub open spec fn counts(self, g: Grid) -> bool {
        forall|kind: FieldValue| self.of(kind) == count(g, kind)
    }

    /// The count of one kind.
    pub fn get(&self, kind: FieldValue) -> (n: u32)
        ensures
            n == self.of(kind),
    {
        match kind {
            FieldValue::Black => self.black,
            FieldValue::White => self.white,
            FieldValue::Wall => self.wall,
            FieldValue::Empty => self.empty,
        }
    }
}

} // verus!
