//! Conway's Game of Life on a fixed-size toroidal grid.
//!
//! A `Universe` owns a width, a height and a flat row-major buffer of
//! cells.  It is advanced one generation at a time by `tick`, which
//! computes every new cell from a snapshot of the previous generation,
//! and it can be drawn as text by `render`.  The grid wraps around at
//! both edges in both dimensions, so no cell is a special case.

use vstd::prelude::*;

verus! {

/// One cell of the grid: dead or alive.
#[derive(Clone, Copy, Debug, PartialEq, Eq, Structural)]
pub enum Cell {
    Dead,
    Alive,
}

/// Numeric weight of a cell: a live cell contributes 1 to a neighbor
/// count, a dead one 0.
pub open spec fn cell_ord(c: Cell) -> int {
    match c {
        Cell::Dead => 0,
        Cell::Alive => 1,
    }
}

/// Row-major flat index of the cell at `(row, col)` on a grid of the
/// given width.
pub open spec fn flat_index(row: int, col: int, width: int) -> int {
    row * width + col
}

/// State of the cell at flat index `i` in the default starting
/// pattern: alive exactly when `i` is divisible by 2 or by 7.
pub open spec fn initial_cell(i: int) -> Cell {
    if i % 2 == 0 || i % 7 == 0 {
        Cell::Alive
    } else {
        Cell::Dead
    }
}

/// Contribution of one wrap-around offset `(dr, dc)` to the neighbor
/// count of the cell at `(row, col)`.  The offset is taken modulo the
/// grid dimensions, and an offset that lands back on the cell itself
/// (detected by comparing flat indices, so that on a 1-wide or 1-tall
/// grid aliasing offsets are excluded rather than double-counted)
/// contributes nothing.
#[verifier::opaque]
pub open spec fn neighbor_contrib(
    cells: Seq<Cell>,
    width: int,
    height: int,
    row: int,
    col: int,
    dr: int,
    dc: int,
) -> int {
    let nr = (row + dr) % height;
    let nc = (col + dc) % width;
    if flat_index(nr, nc, width) == flat_index(row, col, width) {
        0
    } else {
        cell_ord(cells[flat_index(nr, nc, width)])
    }
}

/// Number of live neighbors of the cell at `(row, col)` on the
/// toroidal grid: the sum over the nine offsets built from
/// `dr in {height-1, 0, 1}` and `dc in {width-1, 0, 1}`, where every
/// offset that aliases the cell itself — always the `(0, 0)` one, and
/// more when a dimension is 1 — contributes nothing.
#[verifier::opaque]
pub open spec fn live_neighbors(
    cells: Seq<Cell>,
    width: int,
    height: int,
    row: int,
    col: int,
) -> int {
    neighbor_contrib(cells, width, height, row, col, height - 1, width - 1)
        + neighbor_contrib(cells, width, height, row, col, height - 1, 0)
        + neighbor_contrib(cells, width, height, row, col, height - 1, 1)
        + neighbor_contrib(cells, width, height, row, col, 0, width - 1)
        + neighbor_contrib(cells, width, height, row, col, 0, 0)
        + neighbor_contrib(cells, width, height, row, col, 0, 1)
        + neighbor_contrib(cells, width, height, row, col, 1, width - 1)
        + neighbor_contrib(cells, width, height, row, col, 1, 0)
        + neighbor_contrib(cells, width, height, row, col, 1, 1)
}

/// The Game of Life update rule: the next state of a cell with the
/// given current state and live-neighbor count `n`.  A live cell
/// survives exactly when `n` is 2 or 3; a dead cell comes alive
/// exactly when `n` is 3.
pub open spec fn next_cell(c: Cell, n: int) -> Cell {
    match c {
        Cell::Alive => if n == 2 || n == 3 {
            Cell::Alive
        } else {
            Cell::Dead
        },
        Cell::Dead => if n == 3 {
            Cell::Alive
        } else {
            Cell::Dead
        },
    }
}

/// One whole generation: the buffer that `tick` installs, described
/// cell by cell from a snapshot of the previous generation.
pub open spec fn stepped(u: Universe, v: Universe) -> bool {
    &&& v.spec_width() == u.spec_width()
    &&& v.spec_height() == u.spec_height()
    &&& v.spec_cells().len() == u.spec_cells().len()
    &&& forall|r: int, c: int|
        0 <= r < u.spec_height() && 0 <= c < u.spec_width() ==> v.spec_cells()[flat_index(
            r,
            c,
            u.spec_width(),
        )] == next_cell(
            u.spec_cells()[flat_index(r, c, u.spec_width())],
            live_neighbors(u.spec_cells(), u.spec_width(), u.spec_height(), r, c),
        )
}

/// Glyph used for a cell in the textual rendering: a hollow square
/// for a dead cell, a filled square for a live one.
pub open spec fn glyph(c: Cell) -> char {
    match c {
        Cell::Dead => '◻',
        Cell::Alive => '◼',
    }
}

/// Relies on std's `String::push`, which appends the given character
/// to the end of the string.
pub assume_specification[ String::push ](s: &mut String, ch: char)
    ensures
        final(s)@ == old(s)@.push(ch),
;

/// A toroidal Game of Life grid.
pub struct Universe {
    width: u32,
    height: u32,
    cells: Vec<Cell>,
}

impl Universe {
    /// Width of the grid, as an abstract integer.
    pub closed spec fn spec_width(&self) -> int {
        self.width as int
    }

    /// Height of the grid, as an abstract integer.
    pub closed spec fn spec_height(&self) -> int {
        self.height as int
    }

    /// The cell buffer, as an abstract sequence in row-major order.
    pub closed spec fn spec_cells(&self) -> Seq<Cell> {
        self.cells@
    }

    /// Well-formedness: both dimensions are at least 1 (the wrap-around
    /// arithmetic takes them as moduli) and fit in a `u32`, and the
    /// buffer holds exactly one cell per grid position.
    pub open spec fn wf(&self) -> bool {
        &&& 1 <= self.spec_width() <= u32::MAX
        &&& 1 <= self.spec_height() <= u32::MAX
        &&& self.spec_cells().len() == self.spec_width() * self.spec_height()
    }

    /// Any cell of a full earlier row sits strictly below the start of
    /// the current row in the flat buffer.
    proof fn lemma_row_major_below(r: int, c: int, row: int, w: int)
        requires
            0 <= r < row,
            0 <= c < w,
        ensures
            0 <= flat_index(r, c, w) < row * w,
    {
        assert(0 <= r * w + c < row * w) by (nonlinear_arith)
            requires
                0 <= r < row,
                0 <= c < w,
        ;
    }

    /// The flat index of any in-range position lies inside the buffer.
    proof fn lemma_flat_index_bound(row: int, col: int, width: int, height: int)
        requires
            0 <= row < height,
            0 <= col < width,
        ensures
            0 <= flat_index(row, col, width) < width * height,
    {
        assert(row * width + col < width * height) by (nonlinear_arith)
            requires
                0 <= row < height,
                0 <= col < width,
        ;
        assert(0 <= row * width) by (nonlinear_arith)
            requires
                0 <= row,
                0 <= width,
        ;
    }

    /// Flat index of `(row, col)`: `row * width + col`.
    fn get_index(&self, row: u32, col: u32) -> (i: usize)
        requires
            self.wf(),
            row < self.spec_height(),
            col < self.spec_width(),
        ensures
            i == flat_index(row as int, col as int, self.spec_width()),
            i < self.spec_cells().len(),
    {
        proof {
            Self::lemma_flat_index_bound(
                row as int,
                col as int,
                self.spec_width(),
                self.spec_height(),
            );
        }
        let n = self.cells.len();
        assert(flat_index(row as int, col as int, self.spec_width()) < n);
        (row as usize) * (self.width as usize) + (col as usize)
    }

    /// Contribution of the single wrap-around offset `(dr, dc)` to the
    /// neighbor count of the cell at `(row, col)`.
    fn neighbor_contrib_at(&self, row: u32, col: u32, dr: u32, dc: u32) -> (n: u8)
        requires
            self.wf(),
            row < self.spec_height(),
            col < self.spec_width(),
            dr <= self.spec_height(),
            dc <= self.spec_width(),
        ensures
            n == neighbor_contrib(
                self.spec_cells(),
                self.spec_width(),
                self.spec_height(),
                row as int,
                col as int,
                dr as int,
                dc as int,
            ),
            n <= 1,
    {
        proof {
            reveal(neighbor_contrib);
        }
        let w = self.width as u64;
        let h = self.height as u64;
        let nr_wide = (row as u64 + dr as u64) % h;
        let nc_wide = (col as u64 + dc as u64) % w;
        assert(nr_wide < h && nc_wide < w);
        let nr = nr_wide as u32;
        let nc = nc_wide as u32;
        let idx = self.get_index(nr, nc);
        let own = self.get_index(row, col);
        if idx == own {
            0
        } else {
            match self.cells[idx] {
                Cell::Dead => 0,
                Cell::Alive => 1,
            }
        }
    }

    /// Number of live neighbors of the cell at `(row, col)`, with
    /// wrap-around at every edge.
    fn live_neighbor_count(&self, row: u32, col: u32) -> (count: u8)
        requires
            self.wf(),
            row < self.spec_height(),
            col < self.spec_width(),
        ensures
            count == live_neighbors(
                self.spec_cells(),
                self.spec_width(),
                self.spec_height(),
                row as int,
                col as int,
            ),
    {
        proof {
            reveal(live_neighbors);
        }
        let dr_up = self.height - 1;
        let dc_left = self.width - 1;
        let mut count: u8 = 0;
        count += self.neighbor_contrib_at(row, col, dr_up, dc_left);
        count += self.neighbor_contrib_at(row, col, dr_up, 0);
        count += self.neighbor_contrib_at(row, col, dr_up, 1);
        count += self.neighbor_contrib_at(row, col, 0, dc_left);
        count += self.neighbor_contrib_at(row, col, 0, 0);
        count += self.neighbor_contrib_at(row, col, 0, 1);
        count += self.neighbor_contrib_at(row, col, 1, dc_left);
        count += self.neighbor_contrib_at(row, col, 1, 0);
        count += self.neighbor_contrib_at(row, col, 1, 1);
        count
    }

    /// The default 64-wide, 64-tall starting grid: the cell at flat
    /// index `i` is alive exactly when `i` is divisible by 2 or by 7.
    pub open spec fn is_initial(&self) -> bool {
        &&& self.spec_width() == 64
        &&& self.spec_height() == 64
        &&& self.spec_cells().len() == 64 * 64
        &&& forall|i: int|
            0 <= i < 64 * 64 ==> self.spec_cells()[i] == initial_cell(i)
    }

    /// Construct the default 64 by 64 starting grid.
    pub fn new() -> (u: Universe)
        ensures
            u.wf(),
            u.is_initial(),
    {
        let width: u32 = 64;
        let height: u32 = 64;
        let mut cells: Vec<Cell> = Vec::new();
        let mut i: usize = 0;
        while i < 64 * 64
            invariant
                i <= 64 * 64,
                cells@.len() == i,
                forall|j: int| 0 <= j < i ==> cells@[j] == initial_cell(j),
            decreases 64 * 64 - i,
        {
            if i % 2 == 0 || i % 7 == 0 {
                cells.push(Cell::Alive);
            } else {
                cells.push(Cell::Dead);
            }
            i = i + 1;
        }
        Universe { width, height, cells }
    }

    /// Build a grid from explicit dimensions and a cell buffer.
    pub fn from_cells(width: u32, height: u32, cells: Vec<Cell>) -> (u: Universe)
        requires
            1 <= width,
            1 <= height,
            cells@.len() == width * height,
        ensures
            u.wf(),
            u.spec_width() == width,
            u.spec_height() == height,
            u.spec_cells() == cells@,
    {
        Universe { width, height, cells }
    }

    /// Advance the grid by one generation.  The whole new buffer is
    /// computed from a snapshot of the current one, so no cell's
    /// update can observe another cell's already-updated state.
    pub fn tick(&mut self)
        requires
            old(self).wf(),
        ensures
            final(self).wf(),
            stepped(*old(self), *final(self)),
    {
        let w = self.width;
        let h = self.height;
        let mut next: Vec<Cell> = Vec::new();
        let mut row: u32 = 0;
        while row < h
            invariant
                *self == *old(self),
                self.wf(),
                w == self.spec_width(),
                h == self.spec_height(),
                row <= h,
                next@.len() == row as int * w as int,
                forall|r: int, c: int|
                    0 <= r < row as int && 0 <= c < w as int ==> next@[flat_index(
                        r,
                        c,
                        w as int,
                    )] == next_cell(
                        self.spec_cells()[flat_index(r, c, w as int)],
                        live_neighbors(self.spec_cells(), w as int, h as int, r, c),
                    ),
            decreases h - row,
        {
            let mut col: u32 = 0;
            while col < w
                invariant
                    *self == *old(self),
                    self.wf(),
                    w == self.spec_width(),
                    h == self.spec_height(),
                    row < h,
                    col <= w,
                    next@.len() == row as int * w as int + col as int,
                    forall|r: int, c: int|
                        0 <= r < row as int && 0 <= c < w as int ==> next@[flat_index(
                            r,
                            c,
                            w as int,
                        )] == next_cell(
                            self.spec_cells()[flat_index(r, c, w as int)],
                            live_neighbors(self.spec_cells(), w as int, h as int, r, c),
                        ),
                    forall|c: int|
                        0 <= c < col as int ==> next@[flat_index(
                            row as int,
                            c,
                            w as int,
                        )] == next_cell(
                            self.spec_cells()[flat_index(row as int, c, w as int)],
                            live_neighbors(self.spec_cells(), w as int, h as int, row as int, c),
                        ),
                decreases w - col,
            {
                let idx = self.get_index(row, col);
                let cell = self.cells[idx];
                let n = self.live_neighbor_count(row, col);
                let fresh = match cell {
                    Cell::Alive => if n == 2 || n == 3 {
                        Cell::Alive
                    } else {
                        Cell::Dead
                    },
                    Cell::Dead => if n == 3 {
                        Cell::Alive
                    } else {
                        Cell::Dead
                    },
                };
                next.push(fresh);
                proof {
                    assert forall|r: int, c: int| 0 <= r < row as int && 0 <= c < w as int
                        implies #[trigger] flat_index(r, c, w as int) < row as int
                        * w as int by {
                        Self::lemma_row_major_below(r, c, row as int, w as int);
                    }
                }
                col += 1;
            }
            proof {
                assert((row as int + 1) * w as int == row as int * w as int + w as int)
                    by (nonlinear_arith);
            }
            row += 1;
        }
        proof {
            assert(h as int * w as int == w as int * h as int) by (nonlinear_arith);
        }
        self.cells = next;
    }

    /// Draw the grid as text: one line per row, top to bottom, each
    /// line holding one glyph per cell followed by a newline — so the
    /// character at position `row * (width + 1) + col` of the result
    /// is the glyph of the cell at `(row, col)`.
    pub fn render(&self) -> (s: String)
        requires
            self.wf(),
        ensures
            s@.len() == self.spec_height() * (self.spec_width() + 1),
            forall|r: int, c: int|
                0 <= r < self.spec_height() && 0 <= c < self.spec_width() ==> s@[flat_index(
                    r,
                    c,
                    self.spec_width() + 1,
                )] == glyph(self.spec_cells()[flat_index(r, c, self.spec_width())]),
            forall|r: int|
                0 <= r < self.spec_height() ==> #[trigger] s@[flat_index(
                    r,
                    self.spec_width(),
                    self.spec_width() + 1,
                )] == '\n',
    {
        let w = self.width;
        let h = self.height;
        let mut out = String::new();
        let mut row: u32 = 0;
        while row < h
            invariant
                self.wf(),
                w == self.spec_width(),
                h == self.spec_height(),
                row <= h,
                out@.len() == row as int * (w as int + 1),
                forall|r: int, c: int|
                    0 <= r < row as int && 0 <= c < w as int ==> out@[flat_index(
                        r,
                        c,
                        w as int + 1,
                    )] == glyph(self.spec_cells()[flat_index(r, c, w as int)]),
                forall|r: int|
                    0 <= r < row as int ==> #[trigger] out@[flat_index(r, w as int, w as int + 1)]
                        == '\n',
            decreases h - row,
        {
            let mut col: u32 = 0;
            while col < w
                invariant
                    self.wf(),
                    w == self.spec_width(),
                    h == self.spec_height(),
                    row < h,
                    col <= w,
                    out@.len() == row as int * (w as int + 1) + col as int,
                    forall|r: int, c: int|
                        0 <= r < row as int && 0 <= c < w as int ==> out@[flat_index(
                            r,
                            c,
                            w as int + 1,
                        )] == glyph(self.spec_cells()[flat_index(r, c, w as int)]),
                    forall|r: int|
                        0 <= r < row as int ==> #[trigger] out@[flat_index(
                            r,
                            w as int,
                            w as int + 1,
                        )] == '\n',
                    forall|c: int|
                        0 <= c < col as int ==> out@[flat_index(row as int, c, w as int + 1)]
                            == glyph(self.spec_cells()[flat_index(row as int, c, w as int)]),
                decreases w - col,
            {
                let idx = self.get_index(row, col);
                let ch = match self.cells[idx] {
                    Cell::Dead => '◻',
                    Cell::Alive => '◼',
                };
                out.push(ch);
                proof {
                    assert forall|r: int, c: int| 0 <= r < row as int && 0 <= c < w as int + 1
                        implies #[trigger] flat_index(r, c, w as int + 1) < row as int
                        * (w as int + 1) by {
                        Self::lemma_row_major_below(r, c, row as int, w as int + 1);
                    }
                }
                col += 1;
            }
            out.push('\n');
            proof {
                assert forall|r: int, c: int| 0 <= r < row as int && 0 <= c < w as int + 1
                    implies #[trigger] flat_index(r, c, w as int + 1) < row as int
                    * (w as int + 1) by {
                    Self::lemma_row_major_below(r, c, row as int, w as int + 1);
                }
                assert((row as int + 1) * (w as int + 1) == row as int * (w as int + 1) + w as int
                    + 1) by (nonlinear_arith);
            }
            row += 1;
        }
        out
    }

    /// Width of the grid.
    pub fn width(&self) -> (w: u32)
        ensures
            w == self.spec_width(),
    {
        self.width
    }

    /// Height of the grid.
    pub fn height(&self) -> (h: u32)
        ensures
            h == self.spec_height(),
    {
        self.height
    }

    /// Read-only view of the cell buffer, row-major, one entry per cell.
    pub fn cells(&self) -> (c: &Vec<Cell>)
        ensures
            c@ == self.spec_cells(),
    {
        &self.cells
    }
}

/// A position other than the origin has a positive flat index.
proof fn lemma_flat_index_positive(r: int, c: int, n: int)
    requires
        0 <= r,
        0 <= c,
        0 < n,
        0 < r + c,
    ensures
        flat_index(r, c, n) > 0,
{
    assert(r * n + c > 0) by (nonlinear_arith)
        requires
            0 <= r,
            0 <= c,
            0 < n,
            0 < r + c,
    ;
}

/// Distinct in-range positions have distinct flat indices.
proof fn lemma_flat_index_injective(a: int, b: int, i: int, j: int, w: int)
    requires
        0 <= b < w,
        0 <= j < w,
        flat_index(a, b, w) == flat_index(i, j, w),
    ensures
        a == i,
        b == j,
{
    assert(a == i && b == j) by (nonlinear_arith)
        requires
            0 <= b < w,
            0 <= j < w,
            a * w + b == i * w + j,
    ;
}

/// One step back from `x`, wrapping around modulo `m`.
pub open spec fn wrap_dec(x: int, m: int) -> int {
    if x == 0 {
        m - 1
    } else {
        x - 1
    }
}

/// One step forward from `x`, wrapping around modulo `m`.
pub open spec fn wrap_inc(x: int, m: int) -> int {
    if x == m - 1 {
        0
    } else {
        x + 1
    }
}

/// On a grid of at least 3 by 3 the nine wrap-around offsets reach
/// eight pairwise distinct cells around `(i, j)`, so the neighbor
/// count is exactly the sum of those eight cells' weights.
pub proof fn lemma_live_neighbors_eight(cells: Seq<Cell>, w: int, h: int, i: int, j: int)
    requires
        3 <= w,
        3 <= h,
        cells.len() == w * h,
        0 <= i < h,
        0 <= j < w,
    ensures
        live_neighbors(cells, w, h, i, j) == cell_ord(
            cells[flat_index(wrap_dec(i, h), wrap_dec(j, w), w)],
        ) + cell_ord(cells[flat_index(wrap_dec(i, h), j, w)]) + cell_ord(
            cells[flat_index(wrap_dec(i, h), wrap_inc(j, w), w)],
        ) + cell_ord(cells[flat_index(i, wrap_dec(j, w), w)]) + cell_ord(
            cells[flat_index(i, wrap_inc(j, w), w)],
        ) + cell_ord(cells[flat_index(wrap_inc(i, h), wrap_dec(j, w), w)]) + cell_ord(
            cells[flat_index(wrap_inc(i, h), j, w)],
        ) + cell_ord(cells[flat_index(wrap_inc(i, h), wrap_inc(j, w), w)]),
{
    reveal(live_neighbors);
    reveal(neighbor_contrib);
    let iu = wrap_dec(i, h);
    let id = wrap_inc(i, h);
    let jl = wrap_dec(j, w);
    let jr = wrap_inc(j, w);
    assert((i + (h - 1)) % h == iu) by (nonlinear_arith)
        requires
            0 <= i < h,
            iu == if i == 0 { h - 1 } else { i - 1 },
    ;
    assert((i + 0) % h == i) by (nonlinear_arith)
        requires
            0 <= i < h,
    ;
    assert((i + 1) % h == id) by (nonlinear_arith)
        requires
            0 <= i < h,
            id == if i == h - 1 { 0 } else { i + 1 },
    ;
    assert((j + (w - 1)) % w == jl) by (nonlinear_arith)
        requires
            0 <= j < w,
            jl == if j == 0 { w - 1 } else { j - 1 },
    ;
    assert((j + 0) % w == j) by (nonlinear_arith)
        requires
            0 <= j < w,
    ;
    assert((j + 1) % w == jr) by (nonlinear_arith)
        requires
            0 <= j < w,
            jr == if j == w - 1 { 0 } else { j + 1 },
    ;
    assert(0 <= iu < h && 0 <= id < h && 0 <= jl < w && 0 <= jr < w);
    assert(iu != i && id != i && jl != j && jr != j);
    assert forall|a: int, b: int| 0 <= a < h && 0 <= b < w && !(a == i && b == j)
        implies #[trigger] flat_index(a, b, w) != flat_index(i, j, w) by {
        if flat_index(a, b, w) == flat_index(i, j, w) {
            lemma_flat_index_injective(a, b, i, j, w);
        }
    }
    assert forall|a: int, b: int| 0 <= a < h && 0 <= b < w implies 0 <= #[trigger] flat_index(
        a,
        b,
        w,
    ) < w * h by {
        Universe::lemma_flat_index_bound(a, b, w, h);
    }
}

/// The starting pattern is deterministic: any two grids that satisfy
/// it hold identical cell buffers.
pub proof fn lemma_initial_deterministic(a: Universe, b: Universe)
    requires
        a.is_initial(),
        b.is_initial(),
    ensures
        a.spec_width() == b.spec_width(),
        a.spec_height() == b.spec_height(),
        a.spec_cells() == b.spec_cells(),
{
    assert forall|i: int| 0 <= i < 64 * 64 implies a.spec_cells()[i]
        == b.spec_cells()[i] by {
        assert(a.spec_cells()[i] == initial_cell(i));
        assert(b.spec_cells()[i] == initial_cell(i));
    }
    assert(a.spec_cells() =~= b.spec_cells());
}

/// Toroidal wrap: on an `n` by `n` grid with `n >= 3`, the corner
/// cell `(0, 0)` counts exactly the eight cells that wrap around the
/// edges in both dimensions at once — `(n-1, n-1)`, `(n-1, 0)`,
/// `(n-1, 1)`, `(0, n-1)`, `(0, 1)`, `(1, n-1)`, `(1, 0)` and
/// `(1, 1)`.  (For `n` below 3 some of those offsets alias one
/// another, so the sum would count a cell twice.)
pub proof fn lemma_toroidal_wrap(cells: Seq<Cell>, n: int)
    requires
        3 <= n,
        cells.len() == n * n,
    ensures
        live_neighbors(cells, n, n, 0, 0) == cell_ord(cells[flat_index(n - 1, n - 1, n)])
            + cell_ord(cells[flat_index(n - 1, 0, n)]) + cell_ord(cells[flat_index(n - 1, 1, n)])
            + cell_ord(cells[flat_index(0, n - 1, n)]) + cell_ord(cells[flat_index(0, 1, n)])
            + cell_ord(cells[flat_index(1, n - 1, n)]) + cell_ord(cells[flat_index(1, 0, n)])
            + cell_ord(cells[flat_index(1, 1, n)]),
{
    reveal(live_neighbors);
    reveal(neighbor_contrib);
    assert((0 + (n - 1)) % n == n - 1) by (nonlinear_arith)
        requires
            3 <= n,
    ;
    assert((0int + 0int) % n == 0int) by (nonlinear_arith)
        requires
            3 <= n,
    ;
    assert((0int + 1int) % n == 1int) by (nonlinear_arith)
        requires
            3 <= n,
    ;
    lemma_flat_index_positive(n - 1, n - 1, n);
    lemma_flat_index_positive(n - 1, 0, n);
    lemma_flat_index_positive(n - 1, 1, n);
    lemma_flat_index_positive(0, n - 1, n);
    lemma_flat_index_positive(0, 1, n);
    lemma_flat_index_positive(1, n - 1, n);
    lemma_flat_index_positive(1, 0, n);
    lemma_flat_index_positive(1, 1, n);
}

/// The state of the cell at `(i, j)` when the grid holds a single
/// 2-by-2 block of live cells with upper-left corner `(r, c)` and
/// nothing else.
pub open spec fn block_cell(i: int, j: int, r: int, c: int) -> Cell {
    if r <= i <= r + 1 && c <= j <= c + 1 {
        Cell::Alive
    } else {
        Cell::Dead
    }
}

/// The whole buffer holds exactly a 2-by-2 block of live cells with
/// upper-left corner `(r, c)`.
pub open spec fn block_only(cells: Seq<Cell>, w: int, h: int, r: int, c: int) -> bool {
    forall|i: int, j: int|
        0 <= i < h && 0 <= j < w ==> cells[flat_index(i, j, w)] == block_cell(i, j, r, c)
}

/// One application of the update rule leaves every cell of a lone
/// 2-by-2 block pattern unchanged, on a grid large enough that the
/// block's neighborhood cannot wrap around onto the block itself.
pub proof fn lemma_block_cell_step(
    cells: Seq<Cell>,
    w: int,
    h: int,
    r: int,
    c: int,
    i: int,
    j: int,
)
    requires
        4 <= w,
        4 <= h,
        0 <= r,
        r + 1 < h,
        0 <= c,
        c + 1 < w,
        cells.len() == w * h,
        block_only(cells, w, h, r, c),
        0 <= i < h,
        0 <= j < w,
    ensures
        next_cell(cells[flat_index(i, j, w)], live_neighbors(cells, w, h, i, j)) == cells[
            flat_index(i, j, w)
        ],
{
    lemma_live_neighbors_eight(cells, w, h, i, j);
    let iu = wrap_dec(i, h);
    let id = wrap_inc(i, h);
    let jl = wrap_dec(j, w);
    let jr = wrap_inc(j, w);
    assert(cells[flat_index(iu, jl, w)] == block_cell(iu, jl, r, c));
    assert(cells[flat_index(iu, j, w)] == block_cell(iu, j, r, c));
    assert(cells[flat_index(iu, jr, w)] == block_cell(iu, jr, r, c));
    assert(cells[flat_index(i, jl, w)] == block_cell(i, jl, r, c));
    assert(cells[flat_index(i, j, w)] == block_cell(i, j, r, c));
    assert(cells[flat_index(i, jr, w)] == block_cell(i, jr, r, c));
    assert(cells[flat_index(id, jl, w)] == block_cell(id, jl, r, c));
    assert(cells[flat_index(id, j, w)] == block_cell(id, j, r, c));
    assert(cells[flat_index(id, jr, w)] == block_cell(id, jr, r, c));
}

/// Still life: a lone 2-by-2 block of live cells on a grid of at
/// least 4 by 4 is left exactly as it was by a generation step.  The
/// new buffer equals the old one, so the same holds again for every
/// later step: the block survives any number of generations.
pub proof fn lemma_block_still_life(u: Universe, v: Universe, r: int, c: int)
    requires
        u.wf(),
        4 <= u.spec_width(),
        4 <= u.spec_height(),
        0 <= r,
        r + 1 < u.spec_height(),
        0 <= c,
        c + 1 < u.spec_width(),
        block_only(u.spec_cells(), u.spec_width(), u.spec_height(), r, c),
        stepped(u, v),
    ensures
        v.spec_cells() == u.spec_cells(),
{
    let w = u.spec_width();
    let h = u.spec_height();
    let cells = u.spec_cells();
    assert forall|k: int| 0 <= k < cells.len() implies v.spec_cells()[k] == cells[k] by {
        let i = k / w;
        let j = k % w;
        assert(0 <= i < h && 0 <= j < w && k == flat_index(i, j, w)) by (nonlinear_arith)
            requires
                0 <= k < w * h,
                4 <= w,
                4 <= h,
                i == k / w,
                j == k % w,
        ;
        lemma_block_cell_step(cells, w, h, r, c, i, j);
    }
    assert(v.spec_cells() =~= cells);
}

/// The state of the cell at `(i, j)` when the grid holds a single
/// horizontal line of three live cells centered at `(r, c)` and
/// nothing else.
pub open spec fn blinker_row_cell(i: int, j: int, r: int, c: int) -> Cell {
    if i == r && c - 1 <= j <= c + 1 {
        Cell::Alive
    } else {
        Cell::Dead
    }
}

/// The state of the cell at `(i, j)` when the grid holds a single
/// vertical line of three live cells centered at `(r, c)` and
/// nothing else.
pub open spec fn blinker_col_cell(i: int, j: int, r: int, c: int) -> Cell {
    if j == c && r - 1 <= i <= r + 1 {
        Cell::Alive
    } else {
        Cell::Dead
    }
}

/// The whole buffer holds exactly a horizontal three-cell line
/// centered at `(r, c)`.
pub open spec fn blinker_row_only(cells: Seq<Cell>, w: int, h: int, r: int, c: int) -> bool {
    forall|i: int, j: int|
        0 <= i < h && 0 <= j < w ==> cells[flat_index(i, j, w)] == blinker_row_cell(i, j, r, c)
}

/// The whole buffer holds exactly a vertical three-cell line
/// centered at `(r, c)`.
pub open spec fn blinker_col_only(cells: Seq<Cell>, w: int, h: int, r: int, c: int) -> bool {
    forall|i: int, j: int|
        0 <= i < h && 0 <= j < w ==> cells[flat_index(i, j, w)] == blinker_col_cell(i, j, r, c)
}

/// Room for a blinker centered at `(r, c)`: the grid is at least
/// 5 by 5 and the line together with its whole neighborhood stays
/// clear of the wrap-around edges.
pub open spec fn blinker_fits(w: int, h: int, r: int, c: int) -> bool {
    &&& 5 <= w
    &&& 5 <= h
    &&& 2 <= r
    &&& r + 2 < h
    &&& 2 <= c
    &&& c + 2 < w
}

/// One application of the update rule turns each cell of a lone
/// horizontal three-cell line into the corresponding cell of the
/// vertical line with the same center.
pub proof fn lemma_blinker_row_cell_step(
    cells: Seq<Cell>,
    w: int,
    h: int,
    r: int,
    c: int,
    i: int,
    j: int,
)
    requires
        blinker_fits(w, h, r, c),
        cells.len() == w * h,
        blinker_row_only(cells, w, h, r, c),
        0 <= i < h,
        0 <= j < w,
    ensures
        next_cell(cells[flat_index(i, j, w)], live_neighbors(cells, w, h, i, j))
            == blinker_col_cell(i, j, r, c),
{
    lemma_live_neighbors_eight(cells, w, h, i, j);
    let iu = wrap_dec(i, h);
    let id = wrap_inc(i, h);
    let jl = wrap_dec(j, w);
    let jr = wrap_inc(j, w);
    assert(cells[flat_index(iu, jl, w)] == blinker_row_cell(iu, jl, r, c));
    assert(cells[flat_index(iu, j, w)] == blinker_row_cell(iu, j, r, c));
    assert(cells[flat_index(iu, jr, w)] == blinker_row_cell(iu, jr, r, c));
    assert(cells[flat_index(i, jl, w)] == blinker_row_cell(i, jl, r, c));
    assert(cells[flat_index(i, j, w)] == blinker_row_cell(i, j, r, c));
    assert(cells[flat_index(i, jr, w)] == blinker_row_cell(i, jr, r, c));
    assert(cells[flat_index(id, jl, w)] == blinker_row_cell(id, jl, r, c));
    assert(cells[flat_index(id, j, w)] == blinker_row_cell(id, j, r, c));
    assert(cells[flat_index(id, jr, w)] == blinker_row_cell(id, jr, r, c));
}

/// One application of the update rule turns each cell of a lone
/// vertical three-cell line into the corresponding cell of the
/// horizontal line with the same center.
pub proof fn lemma_blinker_col_cell_step(
    cells: Seq<Cell>,
    w: int,
    h: int,
    r: int,
    c: int,
    i: int,
    j: int,
)
    requires
        blinker_fits(w, h, r, c),
        cells.len() == w * h,
        blinker_col_only(cells, w, h, r, c),
        0 <= i < h,
        0 <= j < w,
    ensures
        next_cell(cells[flat_index(i, j, w)], live_neighbors(cells, w, h, i, j))
            == blinker_row_cell(i, j, r, c),
{
    lemma_live_neighbors_eight(cells, w, h, i, j);
    let iu = wrap_dec(i, h);
    let id = wrap_inc(i, h);
    let jl = wrap_dec(j, w);
    let jr = wrap_inc(j, w);
    assert(cells[flat_index(iu, jl, w)] == blinker_col_cell(iu, jl, r, c));
    assert(cells[flat_index(iu, j, w)] == blinker_col_cell(iu, j, r, c));
    assert(cells[flat_index(iu, jr, w)] == blinker_col_cell(iu, jr, r, c));
    assert(cells[flat_index(i, jl, w)] == blinker_col_cell(i, jl, r, c));
    assert(cells[flat_index(i, j, w)] == blinker_col_cell(i, j, r, c));
    assert(cells[flat_index(i, jr, w)] == blinker_col_cell(i, jr, r, c));
    assert(cells[flat_index(id, jl, w)] == blinker_col_cell(id, jl, r, c));
    assert(cells[flat_index(id, j, w)] == blinker_col_cell(id, j, r, c));
    assert(cells[flat_index(id, jr, w)] == blinker_col_cell(id, jr, r, c));
}

/// Blinker, first half-period: one generation step turns a lone
/// horizontal three-cell line into the vertical line with the same
/// center.
pub proof fn lemma_blinker_step(u: Universe, v: Universe, r: int, c: int)
    requires
        u.wf(),
        blinker_fits(u.spec_width(), u.spec_height(), r, c),
        blinker_row_only(u.spec_cells(), u.spec_width(), u.spec_height(), r, c),
        stepped(u, v),
    ensures
        blinker_col_only(v.spec_cells(), u.spec_width(), u.spec_height(), r, c),
{
    let w = u.spec_width();
    let h = u.spec_height();
    assert forall|i: int, j: int| 0 <= i < h && 0 <= j < w implies v.spec_cells()[flat_index(
        i,
        j,
        w,
    )] == blinker_col_cell(i, j, r, c) by {
        lemma_blinker_row_cell_step(u.spec_cells(), w, h, r, c, i, j);
    }
}

/// Blinker, full period: two generation steps return a lone
/// horizontal three-cell line to exactly its starting buffer — the
/// pattern oscillates with period 2.
pub proof fn lemma_blinker_period_two(u: Universe, v: Universe, x: Universe, r: int, c: int)
    requires
        u.wf(),
        blinker_fits(u.spec_width(), u.spec_height(), r, c),
        blinker_row_only(u.spec_cells(), u.spec_width(), u.spec_height(), r, c),
        stepped(u, v),
        stepped(v, x),
    ensures
        x.spec_cells() == u.spec_cells(),
{
    let w = u.spec_width();
    let h = u.spec_height();
    let cells = u.spec_cells();
    lemma_blinker_step(u, v, r, c);
    assert forall|k: int| 0 <= k < cells.len() implies x.spec_cells()[k] == cells[k] by {
        let i = k / w;
        let j = k % w;
        assert(0 <= i < h && 0 <= j < w && k == flat_index(i, j, w)) by (nonlinear_arith)
            requires
                0 <= k < w * h,
                5 <= w,
                5 <= h,
                i == k / w,
                j == k % w,
        ;
        lemma_blinker_col_cell_step(v.spec_cells(), w, h, r, c, i, j);
        assert(cells[flat_index(i, j, w)] == blinker_row_cell(i, j, r, c));
    }
    assert(x.spec_cells() =~= cells);
}

} // verus!
