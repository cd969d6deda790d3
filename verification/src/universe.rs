use vstd::prelude::*;
use vstd::pervasive::VecAdditionalExecFns;
use vstd::string::StringExecFns;

use crate::cell::Cell;
use crate::cell::flipped;

verus! {

/// The linear index of the cell at (`r`, `c`) in a row-major grid of
/// width `w`.
pub open spec fn spec_idx(w: int, r: int, c: int) -> int {
    r * w + c
}

/// The cell at (`r`, `c`) of a row-major buffer of width `w`.
pub open spec fn cell_at(s: Seq<Cell>, w: int, r: int, c: int) -> Cell {
    s[spec_idx(w, r, c)]
}

/// 1 if the toroidal neighbor of (`r`, `c`) at offset (`dr - 1`,
/// `dc - 1`) is alive, else 0. `dr` and `dc` range over 0, 1, 2, so the
/// neighbor row is `(r + h - 1 + dr) % h` and the neighbor column is
/// `(c + w - 1 + dc) % w`: the grid wraps at every edge.
pub open spec fn neighbor_live(s: Seq<Cell>, w: int, h: int, r: int, c: int, dr: int, dc: int) -> int {
    if cell_at(s, w, (r + h - 1 + dr) % h, (c + w - 1 + dc) % w) is Alive {
        1
    } else {
        0
    }
}

/// How many of the 8 toroidally wrapped neighbors of (`r`, `c`) are
/// alive: the sum over the 3-by-3 offsets around the cell, the cell
/// itself excluded.
pub open spec fn spec_live_neighbors(s: Seq<Cell>, w: int, h: int, r: int, c: int) -> int {
    neighbor_live(s, w, h, r, c, 0, 0) + neighbor_live(s, w, h, r, c, 0, 1) + neighbor_live(
        s,
        w,
        h,
        r,
        c,
        0,
        2,
    ) + neighbor_live(s, w, h, r, c, 1, 0) + neighbor_live(s, w, h, r, c, 1, 2) + neighbor_live(
        s,
        w,
        h,
        r,
        c,
        2,
        0,
    ) + neighbor_live(s, w, h, r, c, 2, 1) + neighbor_live(s, w, h, r, c, 2, 2)
}

/// The rule table, applied per cell: a live cell survives with 2 or 3
/// live neighbors and dies otherwise; a dead cell becomes alive with
/// exactly 3 live neighbors and stays dead otherwise.
pub open spec fn next_cell(cur: Cell, live_neighbors: int) -> Cell {
    match cur {
        Cell::Alive => if 2 <= live_neighbors && live_neighbors <= 3 {
            Cell::Alive
        } else {
            Cell::Dead
        },
        Cell::Dead => if live_neighbors == 3 {
            Cell::Alive
        } else {
            Cell::Dead
        },
    }
}

/// The buffer with the cell at index `i` flipped and every other cell
/// unchanged.
pub open spec fn toggled(s: Seq<Cell>, i: int) -> Seq<Cell> {
    s.update(i, flipped(s[i]))
}

/// The glyph that renders one cell.
pub open spec fn glyph(c: Cell) -> char {
    if c is Alive {
        '◼'
    } else {
        '◻'
    }
}

/// The position of column `c` of row `r` in a rendering whose lines are
/// `w` glyphs followed by a newline.
pub open spec fn line_idx(w: int, r: int, c: int) -> int {
    r * (w + 1) + c
}

/// Whether one of the first `n` (row, column) pairs of `ps` names the
/// position (`r`, `c`).
pub open spec fn listed_before(ps: Seq<(u32, u32)>, n: int, r: int, c: int) -> bool {
    exists|m: int| 0 <= m < n && ps[m].0 as int == r && ps[m].1 as int == c
}

/// Whether some (row, column) pair of `ps` names the position (`r`, `c`).
pub open spec fn listed(ps: Seq<(u32, u32)>, r: int, c: int) -> bool {
    listed_before(ps, ps.len() as int, r, c)
}

/// A row/column pair lay outside the grid.
#[derive(Clone, Copy, Debug, PartialEq, Eq, Structural)]
pub enum GridError {
    OutOfBounds,
}

/// The full grid: dimensions plus the complete cell buffer, laid out
/// row-major.
pub struct Universe {
    pub width: u32,
    pub height: u32,
    pub cells: Vec<Cell>,
}

/// Row-major indices respect the row-major order of positions.
proof fn lemma_idx_order(w: int, r1: int, c1: int, r2: int, c2: int)
    requires
        0 <= c1 < w,
        0 <= c2,
        0 <= r1,
        r1 < r2 || (r1 == r2 && c1 < c2),
    ensures
        spec_idx(w, r1, c1) < spec_idx(w, r2, c2),
{
    assert(r1 * w + c1 < r2 * w + c2) by (nonlinear_arith)
        requires
            0 <= c1 < w,
            0 <= c2,
            0 <= r1,
            r1 < r2 || (r1 == r2 && c1 < c2),
    ;
}

/// Two distinct in-bounds positions have distinct row-major indices.
proof fn lemma_idx_injective(w: int, r1: int, c1: int, r2: int, c2: int)
    requires
        0 <= c1 < w,
        0 <= c2 < w,
        0 <= r1,
        0 <= r2,
        !(r1 == r2 && c1 == c2),
    ensures
        spec_idx(w, r1, c1) != spec_idx(w, r2, c2),
{
    assert(r1 * w + c1 != r2 * w + c2) by (nonlinear_arith)
        requires
            0 <= c1 < w,
            0 <= c2 < w,
            0 <= r1,
            0 <= r2,
            !(r1 == r2 && c1 == c2),
    ;
}

/// An in-bounds position's row-major index lies inside the buffer.
proof fn lemma_idx_bound(w: int, h: int, r: int, c: int)
    requires
        0 <= r < h,
        0 <= c < w,
    ensures
        0 <= spec_idx(w, r, c) < w * h,
{
    assert(0 <= r * w + c < w * h) by (nonlinear_arith)
        requires
            0 <= r < h,
            0 <= c < w,
    ;
}

impl Universe {
    /// The single invariant of a universe: the buffer holds exactly one
    /// cell per grid position.
    pub open spec fn wf(&self) -> bool {
        self.cells@.len() == self.width as int * self.height as int
    }

    /// The cell buffer as a mathematical sequence.
    pub open spec fn grid(&self) -> Seq<Cell> {
        self.cells@
    }

    /// The grid width, for contracts.
    pub open spec fn spec_width(&self) -> u32 {
        self.width
    }

    /// The grid height, for contracts.
    pub open spec fn spec_height(&self) -> u32 {
        self.height
    }

    /// The linear index of (`row`, `column`). Callers must stay in
    /// bounds; wraparound belongs to neighbor counting, never to direct
    /// indexing.
    fn get_index(&self, row: u32, column: u32) -> (idx: usize)
        requires
            self.wf(),
            row < self.spec_height(),
            column < self.spec_width(),
        ensures
            idx == spec_idx(self.spec_width() as int, row as int, column as int),
            idx < self.grid().len(),
    {
        let n = self.cells.len();
        proof {
            assert((row as int * self.width as int + column as int) < (self.width as int
                * self.height as int)) by (nonlinear_arith)
                requires
                    row < self.height,
                    column < self.width,
            ;
        }
        row as usize * self.width as usize + column as usize
    }

    pub fn width(&self) -> (w: u32)
        ensures
            w == self.spec_width(),
    {
        self.width
    }

    pub fn height(&self) -> (h: u32)
        ensures
            h == self.spec_height(),
    {
        self.height
    }

    /// Read-only view of the whole cell buffer, one cell per entry in
    /// row-major order, valid until the next mutation.
    pub fn cells(&self) -> (cells: &[Cell])
        ensures
            cells@ == self.grid(),
    {
        self.cells.as_slice()
    }

    /// Get the dead and alive values of the entire universe.
    pub fn get_cells(&self) -> (cells: &[Cell])
        ensures
            cells@ == self.grid(),
    {
        self.cells.as_slice()
    }
}

/// A buffer of `n` dead cells.
fn dead_cells(n: usize) -> (v: Vec<Cell>)
    ensures
        v@.len() == n,
        forall|i: int| 0 <= i < n ==> v@[i] is Dead,
{
    let mut v: Vec<Cell> = Vec::new();
    let mut k: usize = 0;
    while k < n
        invariant
            k <= n,
            v@.len() == k,
            forall|i: int| 0 <= i < k ==> v@[i] is Dead,
        decreases n - k,
    {
        v.push(Cell::Dead);
        k = k + 1;
    }
    v
}

impl Universe {
    /// Set the width of the universe.
    ///
    /// Resets all cells to the dead state.
    pub fn set_width(&mut self, width: u32)
        requires
            old(self).wf(),
            width as int * old(self).spec_height() as int <= usize::MAX as int,
        ensures
            final(self).wf(),
            final(self).spec_width() == width,
            final(self).spec_height() == old(self).spec_height(),
            final(self).grid().len() == width as int * old(self).spec_height() as int,
            forall|i: int| 0 <= i < final(self).grid().len() ==> final(self).grid()[i] is Dead,
    {
        self.width = width;
        self.cells = dead_cells(width as usize * self.height as usize);
    }

    /// Set the height of the universe.
    ///
    /// Resets all cells to the dead state.
    pub fn set_height(&mut self, height: u32)
        requires
            old(self).wf(),
            old(self).spec_width() as int * height as int <= usize::MAX as int,
        ensures
            final(self).wf(),
            final(self).spec_width() == old(self).spec_width(),
            final(self).spec_height() == height,
            final(self).grid().len() == old(self).spec_width() as int * height as int,
            forall|i: int| 0 <= i < final(self).grid().len() ==> final(self).grid()[i] is Dead,
    {
        self.height = height;
        self.cells = dead_cells(self.width as usize * height as usize);
    }

    /// Flip exactly the cell at (`row`, `column`) between `Alive` and
    /// `Dead`. A pair outside the grid is rejected and leaves the
    /// universe exactly as it was.
    pub fn toggle_cell(&mut self, row: u32, column: u32) -> (result: Result<(), GridError>)
        requires
            old(self).wf(),
        ensures
            final(self).wf(),
            final(self).spec_width() == old(self).spec_width(),
            final(self).spec_height() == old(self).spec_height(),
            row < old(self).spec_height() && column < old(self).spec_width() ==> result is Ok
                && final(self).grid() == toggled(
                old(self).grid(),
                spec_idx(old(self).spec_width() as int, row as int, column as int),
            ),
            !(row < old(self).spec_height() && column < old(self).spec_width()) ==> result is Err
                && *final(self) == *old(self),
    {
        if row < self.height && column < self.width {
            let idx = self.get_index(row, column);
            let mut cell = self.cells[idx];
            cell.toggle();
            self.cells.set(idx, cell);
            Ok(())
        } else {
            Err(GridError::OutOfBounds)
        }
    }

    /// 1 if the cell at the in-bounds position (`r`, `c`) is alive,
    /// else 0.
    fn live_as_count(&self, r: u32, c: u32) -> (n: u8)
        requires
            self.wf(),
            r < self.spec_height(),
            c < self.spec_width(),
        ensures
            n as int == if cell_at(self.grid(), self.spec_width() as int, r as int, c as int)
                is Alive {
                1int
            } else {
                0int
            },
    {
        let idx = self.get_index(r, c);
        if self.cells[idx] == Cell::Alive {
            1
        } else {
            0
        }
    }

    /// How many of the 8 toroidal neighbors of (`row`, `column`) are
    /// alive. The neighbor coordinates wrap at every edge: row 0 treats
    /// row `height - 1` as the row above, and vice versa.
    pub fn live_neighbor_count(&self, row: u32, column: u32) -> (count: u8)
        requires
            self.wf(),
            row < self.spec_height(),
            column < self.spec_width(),
        ensures
            count as int == spec_live_neighbors(
                self.grid(),
                self.spec_width() as int,
                self.spec_height() as int,
                row as int,
                column as int,
            ),
            count <= 8,
    {
        let w = self.width;
        let h = self.height;
        let r0 = ((row as u64 + h as u64 - 1) % (h as u64)) as u32;
        let r1 = ((row as u64 + h as u64) % (h as u64)) as u32;
        let r2 = ((row as u64 + h as u64 + 1) % (h as u64)) as u32;
        let c0 = ((column as u64 + w as u64 - 1) % (w as u64)) as u32;
        let c1 = ((column as u64 + w as u64) % (w as u64)) as u32;
        let c2 = ((column as u64 + w as u64 + 1) % (w as u64)) as u32;
        proof {
            assert(r0 as int == (row as int + h as int - 1 + 0) % (h as int));
            assert(r1 as int == (row as int + h as int - 1 + 1) % (h as int));
            assert(r2 as int == (row as int + h as int - 1 + 2) % (h as int));
            assert(c0 as int == (column as int + w as int - 1 + 0) % (w as int));
            assert(c1 as int == (column as int + w as int - 1 + 1) % (w as int));
            assert(c2 as int == (column as int + w as int - 1 + 2) % (w as int));
        }
        let mut count: u8 = self.live_as_count(r0, c0);
        count += self.live_as_count(r0, c1);
        count += self.live_as_count(r0, c2);
        count += self.live_as_count(r1, c0);
        count += self.live_as_count(r1, c2);
        count += self.live_as_count(r2, c0);
        count += self.live_as_count(r2, c1);
        count += self.live_as_count(r2, c2);
        count
    }

    /// The next-generation buffer: each entry is the rule table applied
    /// to the corresponding current cell and its live-neighbor count.
    fn compute_next(&self) -> (next: Vec<Cell>)
        requires
            self.wf(),
        ensures
            next@.len() == self.grid().len(),
            forall|r: int, c: int|
                0 <= r < self.spec_height() as int && 0 <= c < self.spec_width() as int
                    ==> #[trigger] cell_at(next@, self.spec_width() as int, r, c) == next_cell(
                    cell_at(self.grid(), self.spec_width() as int, r, c),
                    spec_live_neighbors(
                        self.grid(),
                        self.spec_width() as int,
                        self.spec_height() as int,
                        r,
                        c,
                    ),
                ),
    {
        let w = self.width;
        let h = self.height;
        let mut next: Vec<Cell> = Vec::new();
        let mut row: u32 = 0;
        while row < h
            invariant
                self.wf(),
                w == self.spec_width(),
                h == self.spec_height(),
                row <= h,
                next@.len() == row as int * w as int,
                forall|i: int, j: int|
                    0 <= i < row as int && 0 <= j < w as int ==> #[trigger] cell_at(
                        next@,
                        w as int,
                        i,
                        j,
                    ) == next_cell(
                        cell_at(self.grid(), w as int, i, j),
                        spec_live_neighbors(self.grid(), w as int, h as int, i, j),
                    ),
            decreases h - row,
        {
            let mut col: u32 = 0;
            while col < w
                invariant
                    self.wf(),
                    w == self.spec_width(),
                    h == self.spec_height(),
                    row < h,
                    col <= w,
                    next@.len() == row as int * w as int + col as int,
                    forall|i: int, j: int|
                        0 <= i < h as int && 0 <= j < w as int && (i < row as int || (i
                            == row as int && j < col as int)) ==> #[trigger] cell_at(
                            next@,
                            w as int,
                            i,
                            j,
                        ) == next_cell(
                            cell_at(self.grid(), w as int, i, j),
                            spec_live_neighbors(self.grid(), w as int, h as int, i, j),
                        ),
                decreases w - col,
            {
                let idx = self.get_index(row, col);
                let cell = self.cells[idx];
                let live_neighbors = self.live_neighbor_count(row, col);
                let next_state = if cell == Cell::Alive {
                    if live_neighbors < 2 {
                        Cell::Dead
                    } else if live_neighbors <= 3 {
                        Cell::Alive
                    } else {
                        Cell::Dead
                    }
                } else {
                    if live_neighbors == 3 {
                        Cell::Alive
                    } else {
                        Cell::Dead
                    }
                };
                let ghost prev = next@;
                next.push(next_state);
                proof {
                    let wi = w as int;
                    let hi = h as int;
                    let ri = row as int;
                    let ci = col as int;
                    assert forall|i: int, j: int|
                        0 <= i < hi && 0 <= j < wi && (i < ri || (i == ri && j < ci
                            + 1)) implies #[trigger] cell_at(next@, wi, i, j) == next_cell(
                        cell_at(self.grid(), wi, i, j),
                        spec_live_neighbors(self.grid(), wi, hi, i, j),
                    ) by {
                        if i == ri && j == ci {
                            assert(spec_idx(wi, i, j) == prev.len());
                            assert(cell_at(next@, wi, i, j) == next_state);
                        } else {
                            lemma_idx_order(wi, i, j, ri, ci);
                            assert(next@[spec_idx(wi, i, j)] == prev[spec_idx(wi, i, j)]);
                            assert(cell_at(prev, wi, i, j) == next_cell(
                                cell_at(self.grid(), wi, i, j),
                                spec_live_neighbors(self.grid(), wi, hi, i, j),
                            ));
                        }
                    }
                }
                col += 1;
            }
            proof {
                assert((row as int + 1) * w as int == row as int * w as int + w as int)
                    by (nonlinear_arith);
            }
            row += 1;
        }
        proof {
            assert(h as int * w as int == w as int * h as int) by (nonlinear_arith);
        }
        next
    }

    /// Advance the universe one generation. The rule table is applied
    /// to every cell against the current state of its eight toroidally
    /// wrapped neighbors; the whole buffer is computed first and then
    /// replaces the current one in a single assignment.
    pub fn tick(&mut self)
        requires
            old(self).wf(),
        ensures
            final(self).wf(),
            final(self).spec_width() == old(self).spec_width(),
            final(self).spec_height() == old(self).spec_height(),
            final(self).grid().len() == old(self).grid().len(),
            forall|r: int, c: int|
                0 <= r < old(self).spec_height() as int && 0 <= c < old(self).spec_width() as int
                    ==> #[trigger] cell_at(final(self).grid(), old(self).spec_width() as int, r, c)
                    == next_cell(
                    cell_at(old(self).grid(), old(self).spec_width() as int, r, c),
                    spec_live_neighbors(
                        old(self).grid(),
                        old(self).spec_width() as int,
                        old(self).spec_height() as int,
                        r,
                        c,
                    ),
                ),
    {
        let next = self.compute_next();
        self.cells = next;
    }

    /// Set every cell named by a (row, column) pair to `Alive`, leaving
    /// all others untouched. If any pair lies outside the grid, nothing
    /// at all is changed and the call is rejected.
    pub fn set_cells(&mut self, cells: &[(u32, u32)]) -> (result: Result<(), GridError>)
        requires
            old(self).wf(),
        ensures
            final(self).wf(),
            final(self).spec_width() == old(self).spec_width(),
            final(self).spec_height() == old(self).spec_height(),
            result is Ok <==> (forall|k: int|
                0 <= k < cells@.len() ==> (#[trigger] cells@[k]).0 < old(self).spec_height()
                    && cells@[k].1 < old(self).spec_width()),
            result is Ok ==> final(self).grid().len() == old(self).grid().len() && (forall|
                r: int,
                c: int,
            |
                0 <= r < old(self).spec_height() as int && 0 <= c < old(self).spec_width() as int
                    ==> #[trigger] cell_at(final(self).grid(), old(self).spec_width() as int, r, c)
                    == if listed(cells@, r, c) {
                    Cell::Alive
                } else {
                    cell_at(old(self).grid(), old(self).spec_width() as int, r, c)
                }),
            result is Err ==> *final(self) == *old(self),
    {
        let mut k: usize = 0;
        while k < cells.len()
            invariant
                old(self).wf(),
                *self == *old(self),
                k <= cells@.len(),
                forall|m: int|
                    0 <= m < k ==> (#[trigger] cells@[m]).0 < self.spec_height() && cells@[m].1
                        < self.spec_width(),
            decreases cells@.len() - k,
        {
            let (r, c) = cells[k];
            if !(r < self.height && c < self.width) {
                return Err(GridError::OutOfBounds);
            }
            k = k + 1;
        }
        let ghost orig = self.cells@;
        let mut k: usize = 0;
        while k < cells.len()
            invariant
                self.wf(),
                self.spec_width() == old(self).spec_width(),
                self.spec_height() == old(self).spec_height(),
                self.grid().len() == orig.len(),
                orig == old(self).grid(),
                k <= cells@.len(),
                forall|m: int|
                    0 <= m < cells@.len() ==> (#[trigger] cells@[m]).0 < self.spec_height()
                        && cells@[m].1 < self.spec_width(),
                forall|r: int, c: int|
                    0 <= r < self.spec_height() as int && 0 <= c < self.spec_width() as int
                        ==> #[trigger] cell_at(self.grid(), self.spec_width() as int, r, c)
                        == if listed_before(cells@, k as int, r, c) {
                        Cell::Alive
                    } else {
                        cell_at(orig, self.spec_width() as int, r, c)
                    },
            decreases cells@.len() - k,
        {
            let (r, c) = cells[k];
            let idx = self.get_index(r, c);
            let ghost prev = self.cells@;
            self.cells.set(idx, Cell::Alive);
            proof {
                let wi = self.spec_width() as int;
                let hi = self.spec_height() as int;
                let ki = k as int;
                assert forall|r2: int, c2: int|
                    0 <= r2 < hi && 0 <= c2 < wi implies #[trigger] cell_at(self.grid(), wi, r2, c2)
                    == if listed_before(cells@, ki + 1, r2, c2) {
                    Cell::Alive
                } else {
                    cell_at(orig, wi, r2, c2)
                } by {
                    if r2 == r as int && c2 == c as int {
                        assert(listed_before(cells@, ki + 1, r2, c2));
                        assert(cell_at(self.grid(), wi, r2, c2) == Cell::Alive);
                    } else {
                        lemma_idx_injective(wi, r2, c2, r as int, c as int);
                        lemma_idx_bound(wi, hi, r2, c2);
                        assert(cell_at(self.grid(), wi, r2, c2) == cell_at(prev, wi, r2, c2));
                        assert(listed_before(cells@, ki + 1, r2, c2) == listed_before(
                            cells@,
                            ki,
                            r2,
                            c2,
                        )) by {
                            if listed_before(cells@, ki + 1, r2, c2) {
                                let m = choose|m: int|
                                    0 <= m < ki + 1 && cells@[m].0 as int == r2 && cells@[m].1
                                        as int == c2;
                                assert(m < ki);
                                assert(listed_before(cells@, ki, r2, c2));
                            }
                        }
                    }
                }
            }
            k = k + 1;
        }
        proof {
            assert forall|r2: int, c2: int|
                0 <= r2 < self.spec_height() as int && 0 <= c2
                    < self.spec_width() as int implies #[trigger] cell_at(
                self.grid(),
                self.spec_width() as int,
                r2,
                c2,
            ) == if listed(cells@, r2, c2) {
                Cell::Alive
            } else {
                cell_at(orig, self.spec_width() as int, r2, c2)
            } by {
                assert(listed(cells@, r2, c2) == listed_before(
                    cells@,
                    cells@.len() as int,
                    r2,
                    c2,
                ));
            }
        }
        Ok(())
    }

    /// A deterministic textual snapshot: one line per row, each line
    /// exactly `width` glyphs followed by a newline — a filled square
    /// for a live cell, an empty square for a dead one.
    pub fn render(&self) -> (text: String)
        requires
            self.wf(),
        ensures
            text@.len() == self.spec_height() as int * (self.spec_width() as int + 1),
            forall|r: int, c: int|
                0 <= r < self.spec_height() as int && 0 <= c < self.spec_width() as int + 1
                    ==> text@[#[trigger] line_idx(self.spec_width() as int, r, c)] == if c
                    == self.spec_width() as int {
                    '\n'
                } else {
                    glyph(cell_at(self.grid(), self.spec_width() as int, r, c))
                },
    {
        let w = self.width;
        let h = self.height;
        let mut text = String::new();
        let mut row: u32 = 0;
        while row < h
            invariant
                self.wf(),
                w == self.spec_width(),
                h == self.spec_height(),
                row <= h,
                text@.len() == row as int * (w as int + 1),
                forall|i: int, j: int|
                    0 <= i < row as int && 0 <= j < w as int + 1 ==> text@[#[trigger] line_idx(
                        w as int,
                        i,
                        j,
                    )] == if j == w as int {
                        '\n'
                    } else {
                        glyph(cell_at(self.grid(), w as int, i, j))
                    },
            decreases h - row,
        {
            let mut col: u32 = 0;
            while col < w
                invariant
                    self.wf(),
                    w == self.spec_width(),
                    h == self.spec_height(),
                    row < h,
                    col <= w,
                    text@.len() == row as int * (w as int + 1) + col as int,
                    forall|i: int, j: int|
                        0 <= i < h as int && 0 <= j < w as int + 1 && (i < row as int || (i
                            == row as int && j < col as int)) ==> text@[#[trigger] line_idx(
                            w as int,
                            i,
                            j,
                        )] == if j == w as int {
                            '\n'
                        } else {
                            glyph(cell_at(self.grid(), w as int, i, j))
                        },
                decreases w - col,
            {
                let idx = self.get_index(row, col);
                let alive = self.cells[idx] == Cell::Alive;
                let ghost prev = text@;
                if alive {
                    text.append("◼");
                } else {
                    text.append("◻");
                }
                proof {
                    reveal_strlit("◼");
                    reveal_strlit("◻");
                    let wi = w as int;
                    let hi = h as int;
                    let ri = row as int;
                    let ci = col as int;
                    assert(text@[line_idx(wi, ri, ci)] == glyph(cell_at(self.grid(), wi, ri, ci)));
                    assert forall|i: int, j: int|
                        0 <= i < hi && 0 <= j < wi + 1 && (i < ri || (i == ri && j < ci
                            + 1)) implies text@[#[trigger] line_idx(wi, i, j)] == if j == wi {
                        '\n'
                    } else {
                        glyph(cell_at(self.grid(), wi, i, j))
                    } by {
                        if !(i == ri && j == ci) {
                            assert(line_idx(wi, i, j) == spec_idx(wi + 1, i, j));
                            lemma_idx_order(wi + 1, i, j, ri, ci);
                            assert(text@[line_idx(wi, i, j)] == prev[line_idx(wi, i, j)]);
                        }
                    }
                }
                col += 1;
            }
            let ghost prev = text@;
            text.append("\n");
            proof {
                reveal_strlit("\n");
                let wi = w as int;
                let hi = h as int;
                let ri = row as int;
                assert(text@[line_idx(wi, ri, wi)] == '\n');
                assert forall|i: int, j: int|
                    0 <= i < ri + 1 && 0 <= j < wi + 1 implies text@[#[trigger] line_idx(wi, i, j)]
                    == if j == wi {
                    '\n'
                } else {
                    glyph(cell_at(self.grid(), wi, i, j))
                } by {
                    if !(i == ri && j == wi) {
                        assert(line_idx(wi, i, j) == spec_idx(wi + 1, i, j));
                        lemma_idx_order(wi + 1, i, j, ri, wi);
                        assert(text@[line_idx(wi, i, j)] == prev[line_idx(wi, i, j)]);
                    }
                }
                assert((ri + 1) * (wi + 1) == ri * (wi + 1) + (wi + 1)) by (nonlinear_arith);
            }
            row += 1;
        }
        text
    }

    /// A fixed default universe of 128 by 128 cells. A cell starts
    /// alive exactly when its linear index is divisible by 2 or by 7,
    /// a deterministic pattern that leaves a little over half the grid
    /// alive.
    pub fn new() -> (u: Universe)
        ensures
            u.wf(),
            u.spec_width() == 128,
            u.spec_height() == 128,
            forall|i: int|
                0 <= i < u.grid().len() ==> ((#[trigger] u.grid()[i]) is Alive <==> (i % 2 == 0 || i
                    % 7 == 0)),
    {
        let n: usize = 128 * 128;
        let mut cells: Vec<Cell> = Vec::new();
        let mut i: usize = 0;
        while i < n
            invariant
                n == 128 * 128,
                i <= n,
                cells@.len() == i,
                forall|m: int|
                    0 <= m < i ==> ((#[trigger] cells@[m]) is Alive <==> (m % 2 == 0 || m % 7
                        == 0)),
            decreases n - i,
        {
            if i % 2 == 0 || i % 7 == 0 {
                cells.push(Cell::Alive);
            } else {
                cells.push(Cell::Dead);
            }
            i += 1;
        }
        Universe { width: 128, height: 128, cells }
    }
}

} // verus!
