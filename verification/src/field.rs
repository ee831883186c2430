//! The board and its operations.

use vstd::prelude::*;
use vstd::seq_lib::lemma_seq_contains_after_push;
use crate::capture::{
    along, apply_move, captured, captured_through, direction, legal, legal_moves,
    lemma_captured_cells, lemma_line_of_run, lemma_line_without_run, line, ray, stride,
};
use crate::cell::{FieldValue, Side};
use crate::grid::{
    all_coords, cell_on, in_grid, initial_grid, interior, lemma_filter_take_step, paint,
    well_formed, Coord, Grid,
};
use crate::position::Position;
use crate::tally::{
    count_in, lemma_count_all, lemma_count_none, lemma_count_step, lemma_counts, Tally,
};

verus! {

/// The refusal of a placement, with the position that was asked for.
#[derive(Clone, Copy, Debug, PartialEq, Eq, Structural)]
pub struct InvalidMove {
    pub position: Position,
}

/// A Reversi board: the 8x8 playing area inside its ring of walls.
pub struct Field {
    cells: [[FieldValue; 10]; 10],
}

impl View for Field {
    type V = Grid;

    closed spec fn view(&self) -> Grid {
        grid_of(self.cells)
    }
}

/// The grid that an array of rows stands for.
pub open spec fn grid_of(cells: [[FieldValue; 10]; 10]) -> Grid {
    Seq::new(10, |r: int| Seq::new(10, |c: int| cells[r][c]))
}

impl Field {
    #[verifier::type_invariant]
    closed spec fn inv(self) -> bool {
        well_formed(self@)
    }

    /// The board with the given rows of cells, if they make a board: the
    /// cells of the outer ring are walls and no other cell is.
    pub fn from_cells(rows: [[FieldValue; 10]; 10]) -> (r: Option<Field>)
        ensures
            match r {
                Some(f) => f@ == grid_of(rows) && well_formed(f@),
                None => !well_formed(grid_of(rows)),
            },
    {
        let ghost g = grid_of(rows);
        let mut row: usize = 0;
        while row < 10
            invariant
                row <= 10,
                g == grid_of(rows),
                forall|p: Coord|
                    0 <= p.0 < row && 0 <= p.1 < 10 ==> (#[trigger] cell_on(g, p)
                        == FieldValue::Wall <==> !interior(p.0, p.1)),
            decreases 10 - row,
        {
            let mut col: usize = 0;
            while col < 10
                invariant
                    row < 10,
                    col <= 10,
                    g == grid_of(rows),
                    forall|p: Coord|
                        (0 <= p.0 < row && 0 <= p.1 < 10) || (p.0 == row && 0 <= p.1 < col) ==> (
                        #[trigger] cell_on(g, p) == FieldValue::Wall <==> !interior(p.0, p.1)),
                decreases 10 - col,
            {
                let on_ring = row == 0 || row == 9 || col == 0 || col == 9;
                let is_wall = rows[row][col] == FieldValue::Wall;
                assert(cell_on(g, (row as int, col as int)) == rows[row as int][col as int]);
                if on_ring != is_wall {
                    return None;
                }
                col = col + 1;
            }
            row = row + 1;
        }
        Some(Field { cells: rows })
    }

    /// The board at the start of a game.
    pub fn new() -> (f: Field)
        ensures
            f@ == initial_grid(),
            well_formed(f@),
    {
        let w = FieldValue::Wall;
        let e = FieldValue::Empty;
        let b = FieldValue::Black;
        let h = FieldValue::White;
        let f = Field {
            cells: [
                [w, w, w, w, w, w, w, w, w, w],
                [w, e, e, e, e, e, e, e, e, w],
                [w, e, e, e, e, e, e, e, e, w],
                [w, e, e, e, e, e, e, e, e, w],
                [w, e, e, e, b, h, e, e, e, w],
                [w, e, e, e, h, b, e, e, e, w],
                [w, e, e, e, e, e, e, e, e, w],
                [w, e, e, e, e, e, e, e, e, w],
                [w, e, e, e, e, e, e, e, e, w],
                [w, w, w, w, w, w, w, w, w, w],
            ],
        };
        assert(f@ =~~= initial_grid());
        f
    }

    /// Counts the cells of each kind over the whole grid, the wall ring
    /// included.
    pub fn aggregate(&self) -> (t: Tally)
        ensures
            t.counts(self@),
            t.wall == 36,
            t.empty + t.black + t.white == 64,
    {
        let ghost g = self@;
        let mut t = Tally { black: 0, white: 0, wall: 0, empty: 0 };
        proof {
            use_type_invariant(self);
            lemma_count_none(g, FieldValue::Black);
            lemma_count_none(g, FieldValue::White);
            lemma_count_none(g, FieldValue::Wall);
            lemma_count_none(g, FieldValue::Empty);
        }
        let mut row: usize = 0;
        while row < 10
            invariant
                row <= 10,
                g == self@,
                t.black == count_in(g, FieldValue::Black, row as int * 10),
                t.white == count_in(g, FieldValue::White, row as int * 10),
                t.wall == count_in(g, FieldValue::Wall, row as int * 10),
                t.empty == count_in(g, FieldValue::Empty, row as int * 10),
                t.black + t.white + t.wall + t.empty <= row * 10,
            decreases 10 - row,
        {
            let mut col: usize = 0;
            while col < 10
                invariant
                    row < 10,
                    col <= 10,
                    g == self@,
                    t.black == count_in(g, FieldValue::Black, row as int * 10 + col as int),
                    t.white == count_in(g, FieldValue::White, row as int * 10 + col as int),
                    t.wall == count_in(g, FieldValue::Wall, row as int * 10 + col as int),
                    t.empty == count_in(g, FieldValue::Empty, row as int * 10 + col as int),
                    t.black + t.white + t.wall + t.empty <= row * 10 + col,
                decreases 10 - col,
            {
                let ghost n = row as int * 10 + col as int;
                proof {
                    lemma_count_step(g, FieldValue::Black, n);
                    lemma_count_step(g, FieldValue::White, n);
                    lemma_count_step(g, FieldValue::Wall, n);
                    lemma_count_step(g, FieldValue::Empty, n);
                }
                match self.cells[row][col] {
                    FieldValue::Black => {
                        t.black = t.black + 1;
                    },
                    FieldValue::White => {
                        t.white = t.white + 1;
                    },
                    FieldValue::Wall => {
                        t.wall = t.wall + 1;
                    },
                    FieldValue::Empty => {
                        t.empty = t.empty + 1;
                    },
                }
                col = col + 1;
            }
            row = row + 1;
        }
        proof {
            lemma_count_all(g, FieldValue::Black);
            lemma_count_all(g, FieldValue::White);
            lemma_count_all(g, FieldValue::Wall);
            lemma_count_all(g, FieldValue::Empty);
            lemma_counts(g);
        }
        t
    }

    /// The kind of the cell at `pos`; wall for a position beyond the grid.
    pub fn get(&self, pos: Position) -> (v: FieldValue)
        ensures
            v == cell_on(self@, pos@),
            well_formed(self@),
    {
        proof {
            use_type_invariant(self);
        }
        if pos.row < 10 && pos.col < 10 {
            self.cells[pos.row][pos.col]
        } else {
            FieldValue::Wall
        }
    }

    /// Places a piece of `side` at `pos` and turns the captured cells to
    /// `side`'s colour. A position that is not a legal placement of `side`
    /// is refused and the board stays as it is.
    pub fn put(&mut self, pos: Position, side: Side) -> (r: Result<(), InvalidMove>)
        ensures
            well_formed(final(self)@),
            match r {
                Ok(_) => legal_moves(old(self)@, side).contains(pos@) && final(self)@
                    == apply_move(old(self)@, pos@, side),
                Err(refusal) => !legal_moves(old(self)@, side).contains(pos@) && refusal.position
                    == pos && final(self)@ == old(self)@,
            },
    {
        proof {
            use_type_invariant(&*self);
        }
        let moves = self.search_available_positions(side);
        if !position_in(&moves, &pos) {
            return Err(InvalidMove { position: pos });
        }
        let ghost g = self@;
        let own = side.to_cell();
        let flips = self.search_reversed_positions(&pos, side);
        proof {
            let pred = |p: Coord| legal(g, p, side);
            let found = all_coords().filter(pred);
            let at = choose|j: int| 0 <= j < found.len() && found[j] == pos@;
            all_coords().lemma_filter_pred(pred, at);
            assert(self@ =~~= paint(g, flips.deep_view().take(0), own));
        }
        let mut i: usize = 0;
        while i < flips.len()
            invariant
                i <= flips.len(),
                well_formed(g),
                own == side.cell(),
                flips.deep_view() == captured(g, pos@, side),
                self@ == paint(g, flips.deep_view().take(i as int), own),
            decreases flips.len() - i,
        {
            let p = flips[i];
            proof {
                assert(flips.deep_view()[i as int] == p@);
                lemma_captured_cells(g, pos@, side, p@);
            }
            let ghost done = flips.deep_view().take(i as int);
            self.set(p.row, p.col, own);
            proof {
                let next = flips.deep_view().take(i as int + 1);
                assert(next =~= done.push(p@));
                assert forall|q: Coord| next.contains(q) <==> (q == p@ || done.contains(q)) by {
                    lemma_seq_contains_after_push(done, p@, q);
                }
                assert(self@ =~~= paint(g, next, own));
            }
            i = i + 1;
        }
        let ghost done = flips.deep_view();
        assert(done.take(flips.len() as int) =~= done);
        self.set(pos.row, pos.col, own);
        proof {
            let all = done.push(pos@);
            assert forall|q: Coord| all.contains(q) <==> (q == pos@ || done.contains(q)) by {
                lemma_seq_contains_after_push(done, pos@, q);
            }
            assert(self@ =~~= paint(g, all, own));
            use_type_invariant(&*self);
        }
        Ok(())
    }

    /// Whether `side` has a legal placement.
    pub fn can_put(&self, side: Side) -> (b: bool)
        ensures
            b == (legal_moves(self@, side).len() > 0),
    {
        self.search_available_positions(side).len() > 0
    }

    /// The legal placements of `side`, row by row: the empty cells at which
    /// a piece of `side` would capture something.
    pub fn search_available_positions(&self, side: Side) -> (moves: Vec<Position>)
        ensures
            moves.deep_view() == legal_moves(self@, side),
    {
        let ghost g = self@;
        let ghost pred = |p: Coord| legal(g, p, side);
        let mut moves: Vec<Position> = Vec::new();
        assert(all_coords().take(0).filter(pred) =~= Seq::<Coord>::empty()) by {
            reveal(Seq::filter);
        }
        let mut row: usize = 0;
        while row < 10
            invariant
                row <= 10,
                g == self@,
                pred == (|p: Coord| legal(g, p, side)),
                moves.deep_view() == all_coords().take(row as int * 10).filter(pred),
            decreases 10 - row,
        {
            let mut col: usize = 0;
            while col < 10
                invariant
                    row < 10,
                    col <= 10,
                    g == self@,
                    pred == (|p: Coord| legal(g, p, side)),
                    moves.deep_view() == all_coords().take(row as int * 10 + col as int).filter(
                        pred,
                    ),
                decreases 10 - col,
            {
                let pos = Position { row, col };
                let ghost n = row as int * 10 + col as int;
                proof {
                    lemma_filter_take_step(all_coords(), pred, n);
                }
                if self.cells[row][col] == FieldValue::Empty {
                    if self.search_reversed_positions(&pos, side).len() > 0 {
                        moves.push(pos);
                    }
                }
                col = col + 1;
            }
            row = row + 1;
        }
        assert(all_coords().take(100) =~= all_coords());
        moves
    }

    /// The cells that a piece of `side` placed at `pos` would capture, one
    /// direction after the other and in each direction nearest first.
    pub fn search_reversed_positions(&self, pos: &Position, side: Side) -> (flips: Vec<Position>)
        ensures
            flips.deep_view() == captured(self@, pos@, side),
    {
        let mut flips: Vec<Position> = Vec::new();
        if pos.row < 1 || pos.row > 8 || pos.col < 1 || pos.col > 8 {
            return flips;
        }
        let mut i: usize = 0;
        while i < 8
            invariant
                i <= 8,
                interior(pos.row as int, pos.col as int),
                flips.deep_view() == captured_through(self@, pos@, side, i as int),
            decreases 8 - i,
        {
            let d = direction_at(i);
            let mut found = self.scan_direction(pos, d.0, d.1, side);
            flips.append(&mut found);
            i = i + 1;
        }
        flips
    }

    /// The cells that a piece of `side` at `pos` captures in one direction.
    fn scan_direction(&self, pos: &Position, dr: i8, dc: i8, side: Side) -> (found: Vec<Position>)
        requires
            interior(pos.row as int, pos.col as int),
            -1 <= dr <= 1,
            -1 <= dc <= 1,
            dr != 0 || dc != 0,
        ensures
            found.deep_view() == line(self@, pos@, (dr as int, dc as int), side),
    {
        proof {
            use_type_invariant(self);
        }
        let ghost g = self@;
        let ghost d = (dr as int, dc as int);
        let own = side.to_cell();
        let enemy = side.other().to_cell();
        let mut found: Vec<Position> = Vec::new();
        let mut row = step(pos.row, dr);
        let mut col = step(pos.col, dc);
        let ghost mut k: int = 1;
        while self.cells[row][col] == enemy
            invariant
                g == self@,
                well_formed(g),
                d == (dr as int, dc as int),
                -1 <= dr <= 1,
                -1 <= dc <= 1,
                dr != 0 || dc != 0,
                interior(pos.row as int, pos.col as int),
                enemy == side.opponent().cell(),
                k >= 1,
                in_grid(row as int, col as int),
                (row as int, col as int) == along(pos@, d, k),
                forall|j: int| 1 <= j < k ==> cell_on(g, #[trigger] along(pos@, d, j)) == enemy,
                found.deep_view() == ray(pos@, d, k - 1),
            decreases 10 - k,
        {
            let ghost before = found.deep_view();
            found.push(Position { row, col });
            assert(found.deep_view() =~= before.push((row as int, col as int)));
            row = step(row, dr);
            col = step(col, dc);
            proof {
                k = k + 1;
            }
        }
        if found.len() > 0 && self.cells[row][col] == own {
            proof {
                lemma_line_of_run(g, pos@, d, side, k - 1);
            }
            found
        } else {
            proof {
                lemma_line_without_run(g, pos@, d, side, k);
            }
            Vec::new()
        }
    }

    /// Sets one cell of the playing area.
    fn set(&mut self, row: usize, col: usize, v: FieldValue)
        requires
            interior(row as int, col as int),
            v != FieldValue::Wall,
        ensures
            final(self)@ == old(self)@.update(
                row as int,
                old(self)@[row as int].update(col as int, v),
            ),
    {
        let mut cells = self.cells;
        cells[row][col] = v;
        proof {
            use_type_invariant(&*self);
            let before = grid_of(self.cells);
            let after = grid_of(cells);
            assert(after =~~= before.update(row as int, before[row as int].update(col as int, v)));
            assert forall|p: (int, int)| #[trigger]
                cell_on(after, p) == FieldValue::Wall <==> !interior(p.0, p.1) by {
                assert(cell_on(before, p) == FieldValue::Wall <==> !interior(p.0, p.1));
            }
        }
        self.cells = cells;
    }
}

/// Whether `list` holds `pos`.
fn position_in(list: &Vec<Position>, pos: &Position) -> (b: bool)
    ensures
        b == list.deep_view().contains(pos@),
{
    let mut i: usize = 0;
    while i < list.len()
        invariant
            i <= list.len(),
            forall|j: int| 0 <= j < i ==> list.deep_view()[j] != pos@,
        decreases list.len() - i,
    {
        if list[i].row == pos.row && list[i].col == pos.col {
            assert(list.deep_view()[i as int] == pos@);
            return true;
        }
        i = i + 1;
    }
    false
}

/// The direction with index `i` in scanning order.
fn direction_at(i: usize) -> (d: (i8, i8))
    requires
        i < 8,
    ensures
        (d.0 as int, d.1 as int) == direction(i as int),
        -1 <= d.0 <= 1,
        -1 <= d.1 <= 1,
        d.0 != 0 || d.1 != 0,
{
    if i == 0 {
        (-1, 0)
    } else if i == 1 {
        (-1, 1)
    } else if i == 2 {
        (0, 1)
    } else if i == 3 {
        (1, 1)
    } else if i == 4 {
        (1, 0)
    } else if i == 5 {
        (1, -1)
    } else if i == 6 {
        (0, -1)
    } else {
        (-1, -1)
    }
}

/// One step along an axis from inside the playing area.
fn step(x: usize, delta: i8) -> (y: usize)
    requires
        1 <= x <= 8,
        -1 <= delta <= 1,
    ensures
        y as int == x as int + stride(delta as int, 1),
{
    if delta > 0 {
        x + 1
    } else if delta < 0 {
        x - 1
    } else {
        x
    }
}

} // verus!
