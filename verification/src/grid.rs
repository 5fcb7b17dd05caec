//! The grid model: a fixed-size matrix of cells, each holding a small tile
//! value until a successful clear empties it.

use vstd::prelude::*;
use crate::bounds::Position;
use rand::Rng;

verus! {

/// The smallest value a freshly dealt tile carries.
pub const MIN_TILE_VALUE: u8 = 1;

/// The largest value a freshly dealt tile carries.
pub const MAX_TILE_VALUE: u8 = 9;

/// Relies on rand::Rng::gen_range over the half-open range from one up to
/// ten, which samples uniformly within that range and never panics on it.
#[verifier::external_body]
fn random_tile_value() -> (v: u8)
    ensures
        1 <= v <= 9,
{
    rand::thread_rng().gen_range(1..10)
}

/// A tile value is either absent (cleared) or between one and nine.
pub open spec fn cell_in_range(c: Option<u8>) -> bool {
    match c {
        Some(v) => 1 <= v <= 9,
        None => true,
    }
}

/// A well-formed grid is a non-empty rectangle with at most 255 rows and
/// 255 columns whose populated cells all hold values between one and nine.
pub open spec fn grid_wf(g: Seq<Seq<Option<u8>>>) -> bool {
    &&& 1 <= g.len() <= 255
    &&& 1 <= g[0].len() <= 255
    &&& forall|i: int| 0 <= i < g.len() ==> (#[trigger] g[i]).len() == g[0].len()
    &&& forall|i: int, j: int|
        0 <= i < g.len() && 0 <= j < g[i].len() ==> cell_in_range(#[trigger] g[i][j])
}

/// The column count of a grid.
pub open spec fn spec_cols(g: Seq<Seq<Option<u8>>>) -> int {
    g[0].len() as int
}

/// Whether the coordinate names a cell of the grid.
pub open spec fn pos_in_bounds(g: Seq<Seq<Option<u8>>>, p: Position) -> bool {
    (p.row as int) < g.len() && (p.col as int) < g[p.row as int].len()
}

/// The cell the coordinate names.
pub open spec fn cell_at(g: Seq<Seq<Option<u8>>>, p: Position) -> Option<u8> {
    g[p.row as int][p.col as int]
}

/// Whether every cell of the grid still holds a tile.
pub open spec fn all_populated(g: Seq<Seq<Option<u8>>>) -> bool {
    forall|i: int, j: int|
        0 <= i < g.len() && 0 <= j < g[i].len() ==> (#[trigger] g[i][j]) is Some
}

/// Whether the selection lists the cell at row `i`, column `j`.
pub open spec fn selection_covers(ps: Seq<Position>, i: int, j: int) -> bool {
    exists|k: int|
        0 <= k < ps.len() && (#[trigger] ps[k]).row as int == i && ps[k].col as int == j
}

/// The grid after every selected cell has been emptied; all other cells
/// keep their contents.
pub open spec fn cleared_grid(g: Seq<Seq<Option<u8>>>, ps: Seq<Position>) -> Seq<Seq<Option<u8>>> {
    Seq::new(
        g.len(),
        |i: int|
            Seq::new(
                g[i].len(),
                |j: int| if selection_covers(ps, i, j) {
                    None
                } else {
                    g[i][j]
                },
            ),
    )
}

/// The board: rows of cells, each holding a tile value or already cleared.
/// Dimensions are fixed at creation; cells only ever go from populated to
/// empty, except on a full reset which deals a fresh board.
#[derive(Debug)]
pub struct Grid {
    cells: Vec<Vec<Option<u8>>>,
}

impl View for Grid {
    type V = Seq<Seq<Option<u8>>>;

    closed spec fn view(&self) -> Seq<Seq<Option<u8>>> {
        self.cells@.map_values(|row: Vec<Option<u8>>| row@)
    }
}

impl Grid {
    /// The struct invariant, stated over the grid's mathematical view.
    pub open spec fn wf(&self) -> bool {
        grid_wf(self@)
    }

    /// Deal a fresh board of the given dimensions, every cell populated
    /// with a random tile value between one and nine.
    pub fn create(rows: u8, cols: u8) -> (g: Grid)
        requires
            1 <= rows,
            1 <= cols,
        ensures
            g.wf(),
            g@.len() == rows as int,
            spec_cols(g@) == cols as int,
            all_populated(g@),
    {
        let mut cells: Vec<Vec<Option<u8>>> = Vec::new();
        let mut r: u8 = 0;
        while r < rows
            invariant
                r <= rows,
                1 <= cols,
                cells@.len() == r as int,
                forall|i: int| 0 <= i < r as int ==> (#[trigger] cells@[i])@.len() == cols as int,
                forall|i: int, j: int|
                    0 <= i < r as int && 0 <= j < cols as int ==> (#[trigger] cells@[i]@[j]) is Some
                        && cell_in_range(cells@[i]@[j]),
            decreases rows - r,
        {
            let mut row_cells: Vec<Option<u8>> = Vec::new();
            let mut c: u8 = 0;
            while c < cols
                invariant
                    c <= cols,
                    row_cells@.len() == c as int,
                    forall|j: int|
                        0 <= j < c as int ==> (#[trigger] row_cells@[j]) is Some && cell_in_range(
                            row_cells@[j],
                        ),
                decreases cols - c,
            {
                let v: u8 = random_tile_value();
                row_cells.push(Some(v));
                c = c + 1;
            }
            cells.push(row_cells);
            r = r + 1;
        }
        Grid { cells }
    }

    /// Build a board from explicit tile values, one inner vector per row;
    /// every cell starts populated.
    pub fn from_rows(values: &Vec<Vec<u8>>) -> (g: Grid)
        requires
            1 <= values@.len() <= 255,
            1 <= values@[0]@.len() <= 255,
            forall|i: int|
                0 <= i < values@.len() ==> (#[trigger] values@[i])@.len() == values@[0]@.len(),
            forall|i: int, j: int|
                0 <= i < values@.len() && 0 <= j < values@[i]@.len() ==> 1 <= (
                #[trigger] values@[i]@[j]) <= 9,
        ensures
            g.wf(),
            g@.len() == values@.len(),
            spec_cols(g@) == values@[0]@.len(),
            forall|i: int, j: int|
                0 <= i < values@.len() && 0 <= j < values@[i]@.len() ==> (#[trigger] g@[i][j])
                    == Some(values@[i]@[j]),
    {
        let mut cells: Vec<Vec<Option<u8>>> = Vec::new();
        let mut r: usize = 0;
        while r < values.len()
            invariant
                r <= values@.len(),
                values@.len() <= 255,
                forall|i: int|
                    0 <= i < values@.len() ==> (#[trigger] values@[i])@.len()
                        == values@[0]@.len(),
                forall|i: int, j: int|
                    0 <= i < values@.len() && 0 <= j < values@[i]@.len() ==> 1 <= (
                    #[trigger] values@[i]@[j]) <= 9,
                cells@.len() == r as int,
                forall|i: int|
                    0 <= i < r as int ==> (#[trigger] cells@[i])@.len() == values@[0]@.len(),
                forall|i: int, j: int|
                    0 <= i < r as int && 0 <= j < values@[0]@.len() ==> (#[trigger] cells@[i]@[j])
                        == Some(values@[i]@[j]),
            decreases values@.len() - r,
        {
            let row_values: &Vec<u8> = &values[r];
            let mut row_cells: Vec<Option<u8>> = Vec::new();
            let mut c: usize = 0;
            while c < row_values.len()
                invariant
                    c <= row_values@.len(),
                    row_cells@.len() == c as int,
                    forall|j: int|
                        0 <= j < c as int ==> (#[trigger] row_cells@[j]) == Some(row_values@[j]),
                decreases row_values@.len() - c,
            {
                row_cells.push(Some(row_values[c]));
                c = c + 1;
            }
            cells.push(row_cells);
            r = r + 1;
        }
        Grid { cells }
    }

    /// The number of rows.
    pub fn rows(&self) -> (r: u8)
        requires
            self.wf(),
        ensures
            r as int == self@.len(),
    {
        self.cells.len() as u8
    }

    /// The number of columns.
    pub fn cols(&self) -> (c: u8)
        requires
            self.wf(),
        ensures
            c as int == spec_cols(self@),
    {
        self.cells[0].len() as u8
    }

    /// Read a cell. Asking for a coordinate outside the board is a caller
    /// error and is ruled out by the precondition; a cleared cell reads as
    /// `None`.
    pub fn value_at(&self, p: Position) -> (v: Option<u8>)
        requires
            self.wf(),
            pos_in_bounds(self@, p),
        ensures
            v == cell_at(self@, p),
    {
        self.cells[p.row as usize][p.col as usize]
    }

    /// Empty a single cell.
    fn clear_cell(&mut self, p: Position)
        requires
            old(self).wf(),
            pos_in_bounds(old(self)@, p),
        ensures
            final(self).wf(),
            final(self)@ == old(self)@.update(
                p.row as int,
                old(self)@[p.row as int].update(p.col as int, None),
            ),
    {
        self.cells[p.row as usize][p.col as usize] = None;
        proof {
            assert(self@ =~~= old(self)@.update(
                p.row as int,
                old(self)@[p.row as int].update(p.col as int, None),
            ));
        }
    }

    /// Empty every selected cell. The match validator guarantees that each
    /// position names a populated cell of the board.
    pub fn clear(&mut self, positions: &Vec<Position>)
        requires
            old(self).wf(),
            forall|k: int|
                0 <= k < positions@.len() ==> pos_in_bounds(old(self)@, #[trigger] positions@[k]),
        ensures
            final(self).wf(),
            final(self)@ == cleared_grid(old(self)@, positions@),
    {
        let ghost g0 = self@;
        let ghost ps = positions@;
        proof {
            assert(self@ =~~= cleared_grid(g0, ps.take(0)));
        }
        let mut k: usize = 0;
        while k < positions.len()
            invariant
                k <= ps.len(),
                ps == positions@,
                grid_wf(g0),
                forall|m: int| 0 <= m < ps.len() ==> pos_in_bounds(g0, #[trigger] ps[m]),
                self.wf(),
                self@ == cleared_grid(g0, ps.take(k as int)),
            decreases ps.len() - k,
        {
            let p: Position = positions[k];
            proof {
                assert(pos_in_bounds(self@, p)) by {
                    assert(pos_in_bounds(g0, ps[k as int]));
                }
            }
            let ghost before = self@;
            self.clear_cell(p);
            proof {
                lemma_clear_step(g0, ps, k as int, before, self@);
            }
            k = k + 1;
        }
        proof {
            assert(ps.take(ps.len() as int) =~= ps);
        }
    }

    /// Deal a fresh random board of the same dimensions.
    pub fn reset(&mut self)
        requires
            old(self).wf(),
        ensures
            final(self).wf(),
            final(self)@.len() == old(self)@.len(),
            spec_cols(final(self)@) == spec_cols(old(self)@),
            all_populated(final(self)@),
    {
        let rows: u8 = self.rows();
        let cols: u8 = self.cols();
        *self = Grid::create(rows, cols);
    }
}

/// A clear removes exactly the selected cells: afterwards every selected
/// cell reads as empty, and every cell the selection does not cover keeps
/// its contents.
pub proof fn lemma_cleared_grid_reads(g: Seq<Seq<Option<u8>>>, ps: Seq<Position>)
    ensures
        forall|k: int|
            0 <= k < ps.len() && pos_in_bounds(g, #[trigger] ps[k]) ==> cell_at(
                cleared_grid(g, ps),
                ps[k],
            ) is None,
        forall|i: int, j: int|
            0 <= i < g.len() && 0 <= j < g[i].len() && !selection_covers(ps, i, j)
                ==> cleared_grid(g, ps)[i][j] == g[i][j],
{
    assert forall|k: int|
        0 <= k < ps.len() && pos_in_bounds(g, #[trigger] ps[k]) implies cell_at(
        cleared_grid(g, ps),
        ps[k],
    ) is None by {
        assert(selection_covers(ps, ps[k].row as int, ps[k].col as int));
    }
}

/// Emptying the cell named by the next selected position carries the
/// partially cleared grid one step further along the selection.
proof fn lemma_clear_step(
    g0: Seq<Seq<Option<u8>>>,
    ps: Seq<Position>,
    k: int,
    before: Seq<Seq<Option<u8>>>,
    after: Seq<Seq<Option<u8>>>,
)
    requires
        grid_wf(g0),
        0 <= k < ps.len(),
        forall|m: int| 0 <= m < ps.len() ==> pos_in_bounds(g0, #[trigger] ps[m]),
        before == cleared_grid(g0, ps.take(k)),
        after == before.update(
            ps[k].row as int,
            before[ps[k].row as int].update(ps[k].col as int, None),
        ),
    ensures
        after =~~= cleared_grid(g0, ps.take(k + 1)),
{
    let p = ps[k];
    let target = cleared_grid(g0, ps.take(k + 1));
    assert forall|i: int| 0 <= i < g0.len() implies after[i] =~= target[i] by {
        assert(after[i].len() == g0[i].len());
        assert(target[i].len() == g0[i].len());
        assert forall|j: int| 0 <= j < g0[i].len() implies after[i][j] == target[i][j] by {
            if selection_covers(ps.take(k + 1), i, j) {
                let l = choose|l: int|
                    0 <= l < ps.take(k + 1).len() && (#[trigger] ps.take(k + 1)[l]).row as int == i
                        && ps.take(k + 1)[l].col as int == j;
                if l < k {
                    assert(ps.take(k)[l] == ps.take(k + 1)[l]);
                    assert(selection_covers(ps.take(k), i, j));
                } else {
                    assert(ps.take(k + 1)[l] == p);
                }
                assert(target[i][j] is None);
                assert(after[i][j] is None);
            } else {
                if selection_covers(ps.take(k), i, j) {
                    let l = choose|l: int|
                        0 <= l < ps.take(k).len() && (#[trigger] ps.take(k)[l]).row as int == i
                            && ps.take(k)[l].col as int == j;
                    assert(ps.take(k + 1)[l] == ps.take(k)[l]);
                    assert(selection_covers(ps.take(k + 1), i, j));
                }
                if p.row as int == i && p.col as int == j {
                    assert(ps.take(k + 1)[k] == p);
                    assert(selection_covers(ps.take(k + 1), i, j));
                }
                assert(target[i][j] == g0[i][j]);
                assert(after[i][j] == before[i][j]);
                assert(before[i][j] == g0[i][j]);
            }
        }
    }
    assert(after =~~= target);
}

} // verus!
