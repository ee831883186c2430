//! What holds of every board: laws that relate the operations to each
//! other, each proved from the model.

use vstd::prelude::*;
use vstd::seq_lib::{
    lemma_no_dup_in_concat, lemma_seq_concat_contains_all_elements, lemma_seq_contains_after_push,
};
use crate::cell::{FieldValue, Side};
use crate::capture::{
    along, apply_move, brackets, captured, captured_through, direction, legal, legal_moves,
    lemma_captured_cells, line, ray,
};
use crate::grid::{
    all_coords, cell_on, in_grid, initial_grid, interior, paint, well_formed, Coord, Grid,
};
use crate::parse::{decimal, is_digits, number, parsed, sole_comma};
use crate::position::{numeral, Position};
use crate::tally::{
    count, count_in, lemma_count_all, lemma_count_none, lemma_count_step, one_if, Tally,
};

verus! {

/// The starting position is well formed.
pub proof fn lemma_initial_well_formed()
    ensures
        well_formed(initial_grid()),
{
}

/// A placement keeps the grid well formed: the wall ring stays wall and
/// no wall appears in the playing area.
pub proof fn lemma_apply_move_well_formed(g: Grid, p: Coord, side: Side)
    requires
        well_formed(g),
        legal(g, p, side),
    ensures
        well_formed(apply_move(g, p, side)),
        forall|q: Coord| !interior(q.0, q.1) ==> cell_on(apply_move(g, p, side), q) == cell_on(g, q),
{
    let after = apply_move(g, p, side);
    let painted = captured(g, p, side).push(p);
    assert forall|q: Coord| painted.contains(q) implies interior(q.0, q.1) by {
        lemma_seq_contains_after_push(captured(g, p, side), p, q);
        if q != p {
            lemma_captured_cells(g, p, side, q);
        }
    }
    assert forall|q: Coord| #[trigger] cell_on(after, q) == FieldValue::Wall <==> !interior(
        q.0,
        q.1,
    ) by {
        assert(cell_on(g, q) == FieldValue::Wall <==> !interior(q.0, q.1));
    }
}

/// A placement changes the cell it is made at and the cells it captures,
/// and no other.
pub proof fn lemma_apply_move_cells(g: Grid, p: Coord, side: Side, q: Coord)
    requires
        in_grid(q.0, q.1),
    ensures
        cell_on(apply_move(g, p, side), q) == if q == p || captured(g, p, side).contains(q) {
            side.cell()
        } else {
            cell_on(g, q)
        },
{
    lemma_seq_contains_after_push(captured(g, p, side), p, q);
}

/// A legal placement lies in the playing area: a cell beyond it is wall
/// and never empty.
pub proof fn lemma_legal_in_playing_area(g: Grid, p: Coord, side: Side)
    requires
        well_formed(g),
        legal(g, p, side),
    ensures
        interior(p.0, p.1),
{
}

/// The legal placements are the coordinates at which a placement is
/// legal: the list leaves none out and holds no other.
pub proof fn lemma_legal_moves_contains(g: Grid, side: Side, p: Coord)
    ensures
        legal_moves(g, side).contains(p) <==> legal(g, p, side),
{
    let pred = |q: Coord| legal(g, q, side);
    if legal_moves(g, side).contains(p) {
        let found = all_coords().filter(pred);
        let at = choose|j: int| 0 <= j < found.len() && found[j] == p;
        all_coords().lemma_filter_pred(pred, at);
    }
    if legal(g, p, side) {
        let i = p.0 * 10 + p.1;
        all_coords().lemma_filter_contains(pred, i);
    }
}

/// A side can place a piece just when some coordinate is legal for it.
pub proof fn lemma_can_put(g: Grid, side: Side)
    ensures
        legal_moves(g, side).len() > 0 <==> exists|p: Coord| legal(g, p, side),
{
    if legal_moves(g, side).len() > 0 {
        let p = legal_moves(g, side)[0];
        lemma_legal_moves_contains(g, side, p);
    }
    if exists|p: Coord| legal(g, p, side) {
        let p = choose|p: Coord| legal(g, p, side);
        lemma_legal_moves_contains(g, side, p);
    }
}

/// In one direction at most one side captures: the first cell of a
/// captured run holds the other side's colour, and it cannot hold both.
pub proof fn lemma_line_exclusive(g: Grid, p: Coord, d: Coord)
    ensures
        !(line(g, p, d, Side::Black).len() > 0 && line(g, p, d, Side::White).len() > 0),
{
    if line(g, p, d, Side::Black).len() > 0 && line(g, p, d, Side::White).len() > 0 {
        assert(cell_on(g, along(p, d, 1)) == FieldValue::White);
        assert(cell_on(g, along(p, d, 1)) == FieldValue::Black);
    }
}

/// What the two sides would capture from one coordinate never overlaps:
/// black captures white cells only, white captures black cells only.
pub proof fn lemma_captures_disjoint(g: Grid, p: Coord, q: Coord)
    ensures
        !(captured(g, p, Side::Black).contains(q) && captured(g, p, Side::White).contains(q)),
{
    if captured(g, p, Side::Black).contains(q) && captured(g, p, Side::White).contains(q) {
        lemma_captured_cells(g, p, Side::Black, q);
        lemma_captured_cells(g, p, Side::White, q);
    }
}

/// Every cell that the first `n` directions capture lies in one of those
/// directions, at least one step away: the result is the index of the
/// direction and the number of steps.
pub proof fn lemma_captured_through_on_ray(g: Grid, p: Coord, side: Side, n: int, q: Coord) -> (w:
    (int, int))
    requires
        captured_through(g, p, side, n).contains(q),
    ensures
        0 <= w.0 < n,
        w.1 >= 1,
        q == along(p, direction(w.0), w.1),
    decreases n,
{
    let d = direction(n - 1);
    let head = captured_through(g, p, side, n - 1);
    lemma_seq_concat_contains_all_elements(head, line(g, p, d, side), q);
    if head.contains(q) {
        lemma_captured_through_on_ray(g, p, side, n - 1, q)
    } else {
        let m = choose|m: int| brackets(g, p, d, side, m);
        let i = choose|i: int| 0 <= i < ray(p, d, m).len() && ray(p, d, m)[i] == q;
        (n - 1, i + 1)
    }
}

/// The eight directions from one coordinate are disjoint lines: a cell
/// lies in one direction only, and there at one distance only.
pub proof fn lemma_rays_apart(p: Coord, i: int, k: int, j: int, m: int)
    requires
        0 <= i < 8,
        0 <= j < 8,
        k >= 1,
        m >= 1,
        along(p, direction(i), k) == along(p, direction(j), m),
    ensures
        i == j,
        k == m,
{
}

/// No cell is captured twice through the first `n` directions.
pub proof fn lemma_captured_through_no_duplicates(g: Grid, p: Coord, side: Side, n: int)
    requires
        n <= 8,
    ensures
        captured_through(g, p, side, n).no_duplicates(),
    decreases n,
{
    if n > 0 {
        let d = direction(n - 1);
        let head = captured_through(g, p, side, n - 1);
        let tail = line(g, p, d, side);
        lemma_captured_through_no_duplicates(g, p, side, n - 1);
        assert forall|a: int, b: int| 0 <= a < tail.len() && 0 <= b < tail.len() && a
            != b implies tail[a] != tail[b] by {
            if tail[a] == tail[b] {
                lemma_rays_apart(p, n - 1, a + 1, n - 1, b + 1);
            }
        }
        assert forall|a: int, b: int| 0 <= a < head.len() && 0 <= b < tail.len() implies head[a]
            != tail[b] by {
            if head[a] == tail[b] {
                let w = lemma_captured_through_on_ray(g, p, side, n - 1, head[a]);
                lemma_rays_apart(p, w.0, w.1, n - 1, b + 1);
            }
        }
        lemma_no_dup_in_concat(head, tail);
    }
}

/// No cell is captured twice, and the cell of the placement itself is not
/// captured: the order in which the cells are turned does not matter.
pub proof fn lemma_captured_distinct(g: Grid, p: Coord, side: Side)
    ensures
        captured(g, p, side).no_duplicates(),
        !captured(g, p, side).contains(p),
{
    if interior(p.0, p.1) {
        lemma_captured_through_no_duplicates(g, p, side, 8);
        if captured(g, p, side).contains(p) {
            lemma_captured_through_on_ray(g, p, side, 8, p);
        }
    }
}

/// A capture in the first `n` directions is a capture in one of them.
pub proof fn lemma_captured_through_direction(g: Grid, p: Coord, side: Side, n: int) -> (i: int)
    requires
        captured_through(g, p, side, n).len() > 0,
    ensures
        0 <= i < n,
        line(g, p, direction(i), side).len() > 0,
    decreases n,
{
    if line(g, p, direction(n - 1), side).len() > 0 {
        n - 1
    } else {
        lemma_captured_through_direction(g, p, side, n - 1)
    }
}

/// Both sides capture from one coordinate only where black captures in
/// one direction and white in another. Where no two directions are such,
/// the coordinate is not a capture for both.
pub proof fn lemma_captures_exclusive(g: Grid, p: Coord)
    requires
        forall|i: int, j: int|
            0 <= i < 8 && 0 <= j < 8 ==> !(#[trigger] line(g, p, direction(i), Side::Black).len()
                > 0 && #[trigger] line(g, p, direction(j), Side::White).len() > 0),
    ensures
        !(captured(g, p, Side::Black).len() > 0 && captured(g, p, Side::White).len() > 0),
{
    if captured(g, p, Side::Black).len() > 0 && captured(g, p, Side::White).len() > 0 {
        lemma_captured_through_direction(g, p, Side::Black, 8);
        lemma_captured_through_direction(g, p, Side::White, 8);
    }
}

/// Setting one cell of a grid takes one from the count of the kind that
/// the cell held and adds one to the count of the kind that it holds now,
/// among the first `n` cells as far as they reach the cell.
pub proof fn lemma_count_in_after_set(g: Grid, q: Coord, v: FieldValue, kind: FieldValue, n: int)
    requires
        g.len() == 10,
        forall|r: int| 0 <= r < 10 ==> (#[trigger] g[r]).len() == 10,
        in_grid(q.0, q.1),
        0 <= n <= 100,
    ensures
        count_in(g.update(q.0, g[q.0].update(q.1, v)), kind, n) == if n > q.0 * 10 + q.1 {
            count_in(g, kind, n) + one_if(v == kind) - one_if(cell_on(g, q) == kind)
        } else {
            count_in(g, kind, n) as int
        },
    decreases n,
{
    let after = g.update(q.0, g[q.0].update(q.1, v));
    if n == 0 {
        lemma_count_none(g, kind);
        lemma_count_none(after, kind);
    } else {
        lemma_count_in_after_set(g, q, v, kind, n - 1);
        lemma_count_step(g, kind, n - 1);
        lemma_count_step(after, kind, n - 1);
    }
}

/// Painting cells of the playing area that all hold the kind `from`, each
/// listed once, with another kind `to` moves their number from the count
/// of `from` to the count of `to` and leaves the other counts as they are.
pub proof fn lemma_count_after_paint(
    g: Grid,
    cells: Seq<Coord>,
    from: FieldValue,
    to: FieldValue,
    kind: FieldValue,
)
    requires
        g.len() == 10,
        forall|r: int| 0 <= r < 10 ==> (#[trigger] g[r]).len() == 10,
        cells.no_duplicates(),
        forall|i: int| 0 <= i < cells.len() ==> in_grid(cells[i].0, cells[i].1),
        forall|i: int| 0 <= i < cells.len() ==> cell_on(g, #[trigger] cells[i]) == from,
        from != to,
    ensures
        count(paint(g, cells, to), kind) == count(g, kind) + if kind == to {
            cells.len() as int
        } else if kind == from {
            -(cells.len() as int)
        } else {
            0int
        },
    decreases cells.len(),
{
    if cells.len() == 0 {
        assert(paint(g, cells, to) =~~= g);
    } else {
        let rest = cells.drop_last();
        let q = cells.last();
        let before = paint(g, rest, to);
        lemma_count_after_paint(g, rest, from, to, kind);
        assert forall|c: Coord| cells.contains(c) <==> (c == q || rest.contains(c)) by {
            assert(cells =~= rest.push(q));
            lemma_seq_contains_after_push(rest, q, c);
        }
        assert(paint(g, cells, to) =~~= before.update(q.0, before[q.0].update(q.1, to)));
        lemma_count_in_after_set(before, q, to, kind, 100);
        lemma_count_all(before, kind);
        lemma_count_all(paint(g, cells, to), kind);
    }
}

/// What a legal placement does to the score: the side that places gains
/// the captured cells and the cell of the placement, the other side loses
/// the captured cells, and one cell fewer is empty.
pub proof fn lemma_apply_move_counts(g: Grid, p: Coord, side: Side)
    requires
        well_formed(g),
        legal(g, p, side),
    ensures
        count(apply_move(g, p, side), side.cell()) == count(g, side.cell()) + captured(
            g,
            p,
            side,
        ).len() + 1,
        count(apply_move(g, p, side), side.opponent().cell()) == count(g, side.opponent().cell())
            - captured(g, p, side).len(),
        count(apply_move(g, p, side), FieldValue::Empty) == count(g, FieldValue::Empty) - 1,
        count(apply_move(g, p, side), FieldValue::Wall) == count(g, FieldValue::Wall),
{
    let own = side.cell();
    let flips = captured(g, p, side);
    let turned = paint(g, flips, own);
    lemma_captured_distinct(g, p, side);
    assert forall|i: int| 0 <= i < flips.len() implies cell_on(g, #[trigger] flips[i])
        == side.opponent().cell() && in_grid(flips[i].0, flips[i].1) by {
        lemma_captured_cells(g, p, side, flips[i]);
    }
    lemma_count_after_paint(g, flips, side.opponent().cell(), own, own);
    lemma_count_after_paint(g, flips, side.opponent().cell(), own, side.opponent().cell());
    lemma_count_after_paint(g, flips, side.opponent().cell(), own, FieldValue::Empty);
    lemma_count_after_paint(g, flips, side.opponent().cell(), own, FieldValue::Wall);
    assert forall|c: Coord| flips.push(p).contains(c) <==> (c == p || flips.contains(c)) by {
        lemma_seq_contains_after_push(flips, p, c);
    }
    assert(apply_move(g, p, side) =~~= turned.update(p.0, turned[p.0].update(p.1, own)));
    lemma_count_in_after_set(turned, p, own, own, 100);
    lemma_count_in_after_set(turned, p, own, side.opponent().cell(), 100);
    lemma_count_in_after_set(turned, p, own, FieldValue::Empty, 100);
    lemma_count_in_after_set(turned, p, own, FieldValue::Wall, 100);
    lemma_count_all(turned, own);
    lemma_count_all(turned, side.opponent().cell());
    lemma_count_all(turned, FieldValue::Empty);
    lemma_count_all(turned, FieldValue::Wall);
    lemma_count_all(apply_move(g, p, side), own);
    lemma_count_all(apply_move(g, p, side), side.opponent().cell());
    lemma_count_all(apply_move(g, p, side), FieldValue::Empty);
    lemma_count_all(apply_move(g, p, side), FieldValue::Wall);
}

/// Asking twice gives the same answer: two lists of legal placements, and
/// two tallies, taken of one board are equal.
pub proof fn lemma_queries_repeatable(
    g: Grid,
    side: Side,
    first: Vec<Position>,
    second: Vec<Position>,
    once: Tally,
    again: Tally,
)
    requires
        first.deep_view() == legal_moves(g, side),
        second.deep_view() == legal_moves(g, side),
        once.counts(g),
        again.counts(g),
    ensures
        first@ == second@,
        once == again,
{
    assert(second@.len() == second.deep_view().len());
    assert forall|i: int| 0 <= i < first@.len() implies first@[i] == second@[i] by {
        assert(second.deep_view()[i] == second@[i]@);
    }
    assert(once.of(FieldValue::Black) == again.of(FieldValue::Black));
    assert(once.of(FieldValue::White) == again.of(FieldValue::White));
    assert(once.of(FieldValue::Wall) == again.of(FieldValue::Wall));
    assert(once.of(FieldValue::Empty) == again.of(FieldValue::Empty));
}

/// A numeral is a run of digits that stands for its number.
pub proof fn lemma_numeral_digits(n: nat)
    ensures
        is_digits(numeral(n)),
        decimal(numeral(n)) == n,
    decreases n,
{
    if n < 10 {
        let s = numeral(n);
        assert(decimal(s.drop_last()) == 0);
    } else {
        let head = numeral(n / 10);
        let s = numeral(n);
        lemma_numeral_digits(n / 10);
        assert(s.drop_last() =~= head);
    }
}

/// What is written can be read: the numeral of a number that fits the
/// machine's word stands for that number.
pub proof fn lemma_numeral_is_read(n: nat)
    requires
        n <= usize::MAX,
    ensures
        number(numeral(n)) == Some(n as int),
{
    lemma_numeral_digits(n);
}

/// Every position can be written: its row, a comma and its column, each as
/// a numeral, are read as that position.
pub proof fn lemma_position_is_read(row: nat, col: nat)
    requires
        row <= usize::MAX,
        col <= usize::MAX,
    ensures
        parsed(numeral(row) + seq![','] + numeral(col)) == Some((row as int, col as int)),
{
    let left = numeral(row);
    let right = numeral(col);
    let text = left + seq![','] + right;
    let at = left.len() as int;
    lemma_numeral_digits(row);
    lemma_numeral_digits(col);
    lemma_numeral_is_read(row);
    lemma_numeral_is_read(col);
    assert(sole_comma(text, at));
    assert(text.take(at) =~= left);
    assert(text.skip(at + 1) =~= right);
}

} // verus!
