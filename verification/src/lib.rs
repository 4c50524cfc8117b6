use vstd::prelude::*;

verus! {

use vstd::string::StringExecFns;

/// One cell of the automaton: dead or alive.
#[derive(Clone, Copy, Debug, PartialEq, Eq, Structural)]
pub enum Cell {
    Dead,
    Alive,
}

/// The number a cell contributes when live neighbours are counted.
pub open spec fn weight(c: Cell) -> int {
    if c is Alive {
        1
    } else {
        0
    }
}

/// Converts a cell into the integer weight used for neighbour counting.
pub fn cell_weight(c: Cell) -> (w: u8)
    ensures
        w == weight(c),
{
    match c {
        Cell::Alive => 1,
        Cell::Dead => 0,
    }
}

/// A row-major position (row, column) lies strictly inside the row-major
/// buffer of a `height`-by-`width` grid.
proof fn lemma_linear_index_bounds(width: int, height: int, row: int, column: int)
    requires
        0 <= row < height,
        0 <= column < width,
    ensures
        0 <= row * width + column,
        row * width + column < width * height,
{
    assert(row * width + column < width * height) by (nonlinear_arith)
        requires
            0 <= row < height,
            0 <= column < width,
    ;
    assert(0 <= row * width + column) by (nonlinear_arith)
        requires
            0 <= row,
            0 <= column,
            0 <= width,
    ;
}

/// A toroidal Game of Life grid: `width * height` cells stored row-major.
pub struct Universe {
    width: u32,
    height: u32,
    cells: Vec<Cell>,
}

impl Universe {
    /// The grid contents as a mathematical sequence, row-major.
    pub closed spec fn grid(self) -> Seq<Cell> {
        self.cells@
    }

    /// The grid width as specifications see it.
    pub closed spec fn spec_width(self) -> u32 {
        self.width
    }

    /// The grid height as specifications see it.
    pub closed spec fn spec_height(self) -> u32 {
        self.height
    }

    /// Well-formed: the buffer holds exactly one cell per coordinate.
    pub open spec fn wf(self) -> bool {
        self.grid().len() == self.spec_width() * self.spec_height()
    }

    /// The cell at (row, column), zero-indexed, row-major.
    pub open spec fn cell_at(self, row: int, column: int) -> Cell {
        self.grid()[row * self.spec_width() + column]
    }

    /// The row above `row`, wrapping toroidally past the top edge.
    pub open spec fn row_up(self, row: int) -> int {
        (row + self.spec_height() - 1) % (self.spec_height() as int)
    }

    /// The row below `row`, wrapping toroidally past the bottom edge.
    pub open spec fn row_down(self, row: int) -> int {
        (row + 1) % (self.spec_height() as int)
    }

    /// The column left of `column`, wrapping toroidally past the left edge.
    pub open spec fn col_left(self, column: int) -> int {
        (column + self.spec_width() - 1) % (self.spec_width() as int)
    }

    /// The column right of `column`, wrapping toroidally past the right edge.
    pub open spec fn col_right(self, column: int) -> int {
        (column + 1) % (self.spec_width() as int)
    }

    /// How many of the eight toroidal Moore neighbours of (row, column)
    /// are alive: the sum of the weights of the cells at row offsets
    /// {-1, 0, +1} modulo the height and column offsets {-1, 0, +1}
    /// modulo the width, the cell itself excluded.
    pub open spec fn live_neighbours(self, row: int, column: int) -> int {
        weight(self.cell_at(self.row_up(row), self.col_left(column)))
            + weight(self.cell_at(self.row_up(row), column))
            + weight(self.cell_at(self.row_up(row), self.col_right(column)))
            + weight(self.cell_at(row, self.col_left(column)))
            + weight(self.cell_at(row, self.col_right(column)))
            + weight(self.cell_at(self.row_down(row), self.col_left(column)))
            + weight(self.cell_at(self.row_down(row), column))
            + weight(self.cell_at(self.row_down(row), self.col_right(column)))
    }

    /// Builds a buffer of `n` dead cells.
    fn dead_cells(n: usize) -> (v: Vec<Cell>)
        ensures
            v@.len() == n,
            forall|k: int| 0 <= k < v@.len() ==> v@[k] is Dead,
    {
        let mut v: Vec<Cell> = Vec::new();
        let mut i: usize = 0;
        while i < n
            invariant
                i <= n,
                v@.len() == i,
                forall|k: int| 0 <= k < v@.len() ==> v@[k] is Dead,
            decreases n - i,
        {
            v.push(Cell::Dead);
            i = i + 1;
        }
        v
    }

    /// Creates a grid with the given dimensions, every cell dead.
    pub fn new(width: u32, height: u32) -> (u: Universe)
        requires
            width * height <= usize::MAX,
        ensures
            u.wf(),
            u.spec_width() == width,
            u.spec_height() == height,
            forall|k: int| 0 <= k < u.grid().len() ==> u.grid()[k] is Dead,
    {
        let n = (width as usize) * (height as usize);
        Universe { width, height, cells: Self::dead_cells(n) }
    }

    /// Current width.
    pub fn width(&self) -> (w: u32)
        ensures
            w == self.spec_width(),
    {
        self.width
    }

    /// Current height.
    pub fn height(&self) -> (h: u32)
        ensures
            h == self.spec_height(),
    {
        self.height
    }

    /// The linear index of (row, column) in the row-major buffer.
    fn get_index(&self, row: u32, column: u32) -> (idx: usize)
        requires
            self.wf(),
            row < self.spec_height(),
            column < self.spec_width(),
        ensures
            idx == row * self.spec_width() + column,
            idx < self.grid().len(),
    {
        proof {
            lemma_linear_index_bounds(
                self.spec_width() as int,
                self.spec_height() as int,
                row as int,
                column as int,
            );
            vstd::std_specs::vec::axiom_spec_len(&self.cells);
        }
        (row as usize) * (self.width as usize) + (column as usize)
    }

    /// The weight of the cell at (row, column).
    fn weight_at(&self, row: u32, column: u32) -> (w: u8)
        requires
            self.wf(),
            row < self.spec_height(),
            column < self.spec_width(),
        ensures
            w == weight(self.cell_at(row as int, column as int)),
    {
        let idx = self.get_index(row, column);
        cell_weight(self.cells[idx])
    }

    /// Counts the live cells among the eight toroidal neighbours of
    /// (row, column): the rows above and below wrap modulo the height,
    /// the columns to either side wrap modulo the width.
    pub fn live_neighbour_count(&self, row: u32, column: u32) -> (count: u8)
        requires
            self.wf(),
            row < self.spec_height(),
            column < self.spec_width(),
        ensures
            count == self.live_neighbours(row as int, column as int),
    {
        broadcast use vstd::arithmetic::div_mod::lemma_mod_bound;

        let h = self.height as u64;
        let w = self.width as u64;
        let up = (((row as u64) + h - 1) % h) as u32;
        let down = (((row as u64) + 1) % h) as u32;
        let left = (((column as u64) + w - 1) % w) as u32;
        let right = (((column as u64) + 1) % w) as u32;
        assert(up == self.row_up(row as int));
        assert(down == self.row_down(row as int));
        assert(left == self.col_left(column as int));
        assert(right == self.col_right(column as int));
        let mut count: u8 = 0;
        count = count + self.weight_at(up, left);
        count = count + self.weight_at(up, column);
        count = count + self.weight_at(up, right);
        count = count + self.weight_at(row, left);
        count = count + self.weight_at(row, right);
        count = count + self.weight_at(down, left);
        count = count + self.weight_at(down, column);
        count = count + self.weight_at(down, right);
        count
    }

    /// Advances the grid one generation in place. Every neighbour count is
    /// taken from the old generation: the next generation is built into a
    /// fresh buffer, which replaces the old one only when it is complete.
    pub fn tick(&mut self)
        requires
            old(self).wf(),
        ensures
            final(self).wf(),
            final(self).spec_width() == old(self).spec_width(),
            final(self).spec_height() == old(self).spec_height(),
            final(self).grid().len() == old(self).grid().len(),
            forall|r: int, c: int|
                0 <= r < old(self).spec_height() && 0 <= c < old(self).spec_width()
                    ==> #[trigger] final(self).cell_at(r, c) == spec_next_cell(
                    old(self).cell_at(r, c),
                    old(self).live_neighbours(r, c),
                ),
    {
        let w = self.width;
        let h = self.height;
        let mut next: Vec<Cell> = Vec::new();
        let mut row: u32 = 0;
        while row < h
            invariant
                *self == *old(self),
                self.wf(),
                w == self.spec_width(),
                h == self.spec_height(),
                row <= h,
                next@.len() == row * w,
                forall|k: int|
                    0 <= k < next@.len() ==> #[trigger] next@[k] == spec_next_cell(
                        old(self).cell_at(k / (w as int), k % (w as int)),
                        old(self).live_neighbours(k / (w as int), k % (w as int)),
                    ),
            decreases h - row,
        {
            let mut col: u32 = 0;
            while col < w
                invariant
                    *self == *old(self),
                    self.wf(),
                    w == self.spec_width(),
                    h == self.spec_height(),
                    row < h,
                    col <= w,
                    next@.len() == row * w + col,
                    forall|k: int|
                        0 <= k < next@.len() ==> #[trigger] next@[k] == spec_next_cell(
                            old(self).cell_at(k / (w as int), k % (w as int)),
                            old(self).live_neighbours(k / (w as int), k % (w as int)),
                        ),
                decreases w - col,
            {
                let count = self.live_neighbour_count(row, col);
                let idx = self.get_index(row, col);
                let cur = self.cells[idx];
                proof {
                    vstd::arithmetic::div_mod::lemma_fundamental_div_mod_converse(
                        row * (w as int) + col,
                        w as int,
                        row as int,
                        col as int,
                    );
                }
                next.push(next_cell(cur, count));
                col = col + 1;
            }
            proof {
                assert((row + 1) * (w as int) == row * (w as int) + w) by (nonlinear_arith);
            }
            row = row + 1;
        }
        proof {
            assert((h as int) * (w as int) == (w as int) * (h as int)) by (nonlinear_arith);
        }
        let ghost next_snap = next@;
        self.cells = next;
        proof {
            assert forall|r: int, c: int|
                0 <= r < old(self).spec_height() && 0 <= c < old(self).spec_width()
                    implies #[trigger] self.cell_at(r, c) == spec_next_cell(
                    old(self).cell_at(r, c),
                    old(self).live_neighbours(r, c),
                ) by {
                let k = r * (w as int) + c;
                lemma_linear_index_bounds(w as int, h as int, r, c);
                vstd::arithmetic::div_mod::lemma_fundamental_div_mod_converse(k, w as int, r, c);
                assert((w as int) * (h as int) == (h as int) * (w as int)) by (nonlinear_arith);
                assert(0 <= k < next_snap.len());
                assert(next_snap[k] == spec_next_cell(
                    old(self).cell_at(k / (w as int), k % (w as int)),
                    old(self).live_neighbours(k / (w as int), k % (w as int)),
                ));
                assert(self.grid()[k] == next_snap[k]);
            };
        }
    }

    /// Sets the width, reallocates the buffer and resets every cell to dead.
    pub fn set_width(&mut self, width: u32)
        requires
            width * old(self).spec_height() <= usize::MAX,
        ensures
            final(self).wf(),
            final(self).spec_width() == width,
            final(self).spec_height() == old(self).spec_height(),
            forall|k: int| 0 <= k < final(self).grid().len() ==> final(self).grid()[k] is Dead,
    {
        self.width = width;
        let n = (width as usize) * (self.height as usize);
        self.cells = Self::dead_cells(n);
    }

    /// Sets the height, reallocates the buffer and resets every cell to dead.
    /// The new buffer holds `width * height` cells, so the grid stays
    /// well-formed for any pair of dimensions.
    pub fn set_height(&mut self, height: u32)
        requires
            old(self).spec_width() * height <= usize::MAX,
        ensures
            final(self).wf(),
            final(self).spec_width() == old(self).spec_width(),
            final(self).spec_height() == height,
            forall|k: int| 0 <= k < final(self).grid().len() ==> final(self).grid()[k] is Dead,
    {
        self.height = height;
        let n = (self.width as usize) * (height as usize);
        self.cells = Self::dead_cells(n);
    }

    /// Zero-copy read-only view of the cell buffer, row-major.
    pub fn cells(&self) -> (cells: &[Cell])
        ensures
            cells@ == self.grid(),
    {
        self.cells.as_slice()
    }

    /// The full cell buffer by read-only reference, row-major.
    pub fn get_cells(&self) -> (cells: &[Cell])
        ensures
            cells@ == self.grid(),
    {
        self.cells.as_slice()
    }

    /// The character at position `k` of the rendered text: the grid is
    /// written row by row, each row as `width` glyphs closed by one newline,
    /// so each line of the text is `width + 1` characters long.
    pub open spec fn render_char(self, k: int) -> char {
        let row = k / (self.spec_width() + 1);
        let column = k % (self.spec_width() + 1);
        if column == self.spec_width() {
            '\n'
        } else {
            glyph(self.cell_at(row, column))
        }
    }

    /// Renders the grid as text: one line per row, each cell as one glyph,
    /// each row closed by a newline.
    pub fn render(&self) -> (s: String)
        requires
            self.wf(),
        ensures
            s@.len() == self.spec_height() * (self.spec_width() + 1),
            forall|k: int| 0 <= k < s@.len() ==> #[trigger] s@[k] == self.render_char(k),
    {
        let w = self.width;
        let h = self.height;
        let mut s = String::new();
        let mut row: u32 = 0;
        while row < h
            invariant
                self.wf(),
                w == self.spec_width(),
                h == self.spec_height(),
                row <= h,
                s@.len() == row * (w + 1),
                forall|k: int| 0 <= k < s@.len() ==> #[trigger] s@[k] == self.render_char(k),
            decreases h - row,
        {
            let mut col: u32 = 0;
            while col < w
                invariant
                    self.wf(),
                    w == self.spec_width(),
                    h == self.spec_height(),
                    row < h,
                    col <= w,
                    s@.len() == row * (w + 1) + col,
                    forall|k: int| 0 <= k < s@.len() ==> #[trigger] s@[k] == self.render_char(k),
                decreases w - col,
            {
                let idx = self.get_index(row, col);
                let g = glyph_str(self.cells[idx]);
                let ghost s0 = s@;
                s.append(g);
                proof {
                    let k0 = row * (w as int + 1) + col;
                    vstd::arithmetic::div_mod::lemma_fundamental_div_mod_converse(
                        k0,
                        w as int + 1,
                        row as int,
                        col as int,
                    );
                    assert forall|k: int| 0 <= k < s@.len() implies #[trigger] s@[k]
                        == self.render_char(k) by {
                        if k < s0.len() {
                            assert(s@[k] == s0[k]);
                        } else {
                            assert(k == k0);
                            assert(s@[k] == g@[0]);
                        }
                    };
                }
                col = col + 1;
            }
            let ghost s1 = s@;
            s.append("\n");
            proof {
                reveal_strlit("\n");
                let k1 = row * (w as int + 1) + w;
                vstd::arithmetic::div_mod::lemma_fundamental_div_mod_converse(
                    k1,
                    w as int + 1,
                    row as int,
                    w as int,
                );
                assert forall|k: int| 0 <= k < s@.len() implies #[trigger] s@[k]
                    == self.render_char(k) by {
                    if k < s1.len() {
                        assert(s@[k] == s1[k]);
                    } else {
                        assert(k == k1);
                        assert(s@[k] == '\n');
                    }
                };
                assert((row + 1) * (w as int + 1) == row * (w as int + 1) + (w + 1))
                    by (nonlinear_arith);
            }
            row = row + 1;
        }
        s
    }

    /// Sets every listed (row, column) cell to alive; every other cell
    /// keeps its state. Used to seed specific patterns.
    pub fn set_cells(&mut self, cells: &[(u32, u32)])
        requires
            old(self).wf(),
            forall|j: int|
                #![trigger cells@[j]]
                0 <= j < cells@.len() ==> cells@[j].0 < old(self).spec_height() && cells@[j].1
                    < old(self).spec_width(),
        ensures
            final(self).wf(),
            final(self).spec_width() == old(self).spec_width(),
            final(self).spec_height() == old(self).spec_height(),
            forall|r: int, c: int|
                0 <= r < old(self).spec_height() && 0 <= c < old(self).spec_width()
                    ==> #[trigger] final(self).cell_at(r, c) == (if listed(cells@, r, c) {
                    Cell::Alive
                } else {
                    old(self).cell_at(r, c)
                }),
    {
        let w = self.width;
        let h = self.height;
        let mut i: usize = 0;
        while i < cells.len()
            invariant
                self.wf(),
                w == self.spec_width(),
                h == self.spec_height(),
                self.spec_width() == old(self).spec_width(),
                self.spec_height() == old(self).spec_height(),
                self.grid().len() == old(self).grid().len(),
                i <= cells@.len(),
                forall|j: int|
                    #![trigger cells@[j]]
                    0 <= j < cells@.len() ==> cells@[j].0 < old(self).spec_height()
                        && cells@[j].1 < old(self).spec_width(),
                forall|k: int|
                    0 <= k < self.grid().len() ==> #[trigger] self.grid()[k] == (if hits(
                        cells@,
                        i as int,
                        w as int,
                        k,
                    ) {
                        Cell::Alive
                    } else {
                        old(self).grid()[k]
                    }),
            decreases cells@.len() - i,
        {
            let pair = cells[i];
            let idx = self.get_index(pair.0, pair.1);
            let ghost g_before = self.grid();
            self.cells[idx] = Cell::Alive;
            proof {
                assert forall|k: int| 0 <= k < self.grid().len() implies #[trigger] self.grid()[k]
                    == (if hits(cells@, i + 1, w as int, k) {
                    Cell::Alive
                } else {
                    old(self).grid()[k]
                }) by {
                    if k == idx {
                        assert(cells@[i as int].0 * (w as int) + cells@[i as int].1 == k);
                        assert(hits(cells@, i + 1, w as int, k));
                    } else {
                        assert(self.grid()[k] == g_before[k]);
                        if hits(cells@, i + 1, w as int, k) {
                            let j = choose|j: int|
                                #![trigger cells@[j]]
                                0 <= j < i + 1 && cells@[j].0 * (w as int) + cells@[j].1 == k;
                            assert(j != i);
                            assert(hits(cells@, i as int, w as int, k));
                        }
                        if hits(cells@, i as int, w as int, k) {
                            let j = choose|j: int|
                                #![trigger cells@[j]]
                                0 <= j < i && cells@[j].0 * (w as int) + cells@[j].1 == k;
                            assert(hits(cells@, i + 1, w as int, k));
                        }
                    }
                };
            }
            i = i + 1;
        }
        proof {
            assert forall|r: int, c: int|
                0 <= r < old(self).spec_height() && 0 <= c < old(self).spec_width()
                    implies #[trigger] self.cell_at(r, c) == (if listed(cells@, r, c) {
                    Cell::Alive
                } else {
                    old(self).cell_at(r, c)
                }) by {
                let k = r * (w as int) + c;
                lemma_linear_index_bounds(w as int, h as int, r, c);
                vstd::arithmetic::div_mod::lemma_fundamental_div_mod_converse(k, w as int, r, c);
                if listed(cells@, r, c) {
                    let j = choose|j: int|
                        #![trigger cells@[j]]
                        0 <= j < cells@.len() && cells@[j].0 == r && cells@[j].1 == c;
                    assert(hits(cells@, cells@.len() as int, w as int, k));
                }
                if hits(cells@, cells@.len() as int, w as int, k) {
                    let j = choose|j: int|
                        #![trigger cells@[j]]
                        0 <= j < cells@.len() && cells@[j].0 * (w as int) + cells@[j].1 == k;
                    vstd::arithmetic::div_mod::lemma_fundamental_div_mod_converse(
                        k,
                        w as int,
                        cells@[j].0 as int,
                        cells@[j].1 as int,
                    );
                    assert(cells@[j].0 == r && cells@[j].1 == c);
                    assert(listed(cells@, r, c));
                }
            };
        }
    }

    /// Flips the single cell at (row, column) between dead and alive.
    pub fn toggle_cell(&mut self, row: u32, column: u32)
        requires
            old(self).wf(),
            row < old(self).spec_height(),
            column < old(self).spec_width(),
        ensures
            toggle_step(*old(self), *final(self), row, column),
            final(self).wf(),
    {
        let idx = self.get_index(row, column);
        let mut cell = self.cells[idx];
        cell.toggle();
        self.cells[idx] = cell;
    }
}

/// The glyph that renders one cell.
pub open spec fn glyph(c: Cell) -> char {
    if c is Alive {
        '◼'
    } else {
        '◻'
    }
}

/// The coordinate list `coords` names the position (row, column).
pub open spec fn listed(coords: Seq<(u32, u32)>, row: int, column: int) -> bool {
    exists|j: int|
        #![trigger coords[j]]
        0 <= j < coords.len() && coords[j].0 == row && coords[j].1 == column
}

/// Some entry among the first `n` of `coords` has linear index `k` in a
/// grid `width` cells wide.
pub open spec fn hits(coords: Seq<(u32, u32)>, n: int, width: int, k: int) -> bool {
    exists|j: int|
        #![trigger coords[j]]
        0 <= j < n && coords[j].0 * width + coords[j].1 == k
}

/// The transition rule, applied to a cell and its live-neighbour count
/// from the current generation: a live cell survives exactly with two or
/// three live neighbours (fewer is underpopulation, more is
/// overpopulation); a dead cell is born exactly with three.
pub open spec fn spec_next_cell(c: Cell, live_neighbours: int) -> Cell {
    match c {
        Cell::Alive => if 2 <= live_neighbours <= 3 {
            Cell::Alive
        } else {
            Cell::Dead
        },
        Cell::Dead => if live_neighbours == 3 {
            Cell::Alive
        } else {
            Cell::Dead
        },
    }
}

/// Applies the transition rule to one cell.
pub fn next_cell(c: Cell, live_neighbours: u8) -> (n: Cell)
    ensures
        n == spec_next_cell(c, live_neighbours as int),
{
    match c {
        Cell::Alive => {
            if live_neighbours < 2 {
                Cell::Dead
            } else if live_neighbours < 4 {
                Cell::Alive
            } else {
                Cell::Dead
            }
        },
        Cell::Dead => {
            if live_neighbours == 3 {
                Cell::Alive
            } else {
                Cell::Dead
            }
        },
    }
}

/// The glyph for one cell, as a one-character string.
fn glyph_str(c: Cell) -> (g: &'static str)
    ensures
        g@.len() == 1,
        g@[0] == glyph(c),
{
    proof {
        reveal_strlit("◼");
        reveal_strlit("◻");
    }
    match c {
        Cell::Alive => "◼",
        Cell::Dead => "◻",
    }
}

/// Flipping a cell: dead becomes alive, alive becomes dead.
pub open spec fn spec_toggle(c: Cell) -> Cell {
    match c {
        Cell::Alive => Cell::Dead,
        Cell::Dead => Cell::Alive,
    }
}

/// `post` is `pre` with exactly the cell at (row, column) flipped.
pub open spec fn toggle_step(pre: Universe, post: Universe, row: u32, column: u32) -> bool {
    &&& post.spec_width() == pre.spec_width()
    &&& post.spec_height() == pre.spec_height()
    &&& post.grid() == pre.grid().update(
        row * pre.spec_width() + column,
        spec_toggle(pre.cell_at(row as int, column as int)),
    )
}

impl Cell {
    /// Flips this cell between dead and alive.
    fn toggle(&mut self)
        ensures
            *final(self) == spec_toggle(*old(self)),
    {
        *self = match *self {
            Cell::Alive => Cell::Dead,
            Cell::Dead => Cell::Alive,
        };
    }
}

/// Underpopulation: a live cell all eight of whose toroidal neighbours
/// are dead has no live neighbour, and dies in the next generation.
pub proof fn lemma_lone_cell_dies(u: Universe, row: int, column: int)
    requires
        u.wf(),
        0 <= row < u.spec_height(),
        0 <= column < u.spec_width(),
        u.cell_at(row, column) is Alive,
        u.cell_at(u.row_up(row), u.col_left(column)) is Dead,
        u.cell_at(u.row_up(row), column) is Dead,
        u.cell_at(u.row_up(row), u.col_right(column)) is Dead,
        u.cell_at(row, u.col_left(column)) is Dead,
        u.cell_at(row, u.col_right(column)) is Dead,
        u.cell_at(u.row_down(row), u.col_left(column)) is Dead,
        u.cell_at(u.row_down(row), column) is Dead,
        u.cell_at(u.row_down(row), u.col_right(column)) is Dead,
    ensures
        u.live_neighbours(row, column) == 0,
        spec_next_cell(u.cell_at(row, column), u.live_neighbours(row, column)) is Dead,
{
}

/// Birth: a dead cell with exactly three live neighbours becomes alive;
/// with two or with four live neighbours it stays dead.
pub proof fn lemma_birth(c: Cell, live_neighbours: int)
    requires
        c is Dead,
    ensures
        live_neighbours == 3 ==> spec_next_cell(c, live_neighbours) is Alive,
        live_neighbours == 2 || live_neighbours == 4 ==> spec_next_cell(c, live_neighbours)
            is Dead,
{
}

/// Survival: a live cell with two or three live neighbours stays alive.
/// In particular each cell of a 2-by-2 block of live cells, having
/// exactly three live neighbours, survives, which keeps the block stable.
pub proof fn lemma_survival(c: Cell, live_neighbours: int)
    requires
        c is Alive,
        2 <= live_neighbours <= 3,
    ensures
        spec_next_cell(c, live_neighbours) is Alive,
{
}

/// Toggling the same coordinate twice restores the original grid.
pub proof fn lemma_toggle_twice(u0: Universe, u1: Universe, u2: Universe, row: u32, column: u32)
    requires
        u0.wf(),
        row < u0.spec_height(),
        column < u0.spec_width(),
        toggle_step(u0, u1, row, column),
        toggle_step(u1, u2, row, column),
    ensures
        u2.spec_width() == u0.spec_width(),
        u2.spec_height() == u0.spec_height(),
        u2.grid() == u0.grid(),
{
    lemma_linear_index_bounds(
        u0.spec_width() as int,
        u0.spec_height() as int,
        row as int,
        column as int,
    );
    assert(u1.cell_at(row as int, column as int) == spec_toggle(
        u0.cell_at(row as int, column as int),
    ));
    assert(u2.grid() =~= u0.grid());
}

/// The rendered text has exactly `height` lines, each of exactly `width`
/// glyphs: line `row` starts at position `row * (width + 1)`, none of its
/// `width` glyphs is a newline, and the one newline of the line closes it.
pub proof fn lemma_render_line_shape(u: Universe, row: int, column: int)
    requires
        u.wf(),
        0 <= row < u.spec_height(),
        0 <= column <= u.spec_width(),
    ensures
        column < u.spec_width() ==> u.render_char(row * (u.spec_width() + 1) + column) == glyph(
            u.cell_at(row, column),
        ) && u.render_char(row * (u.spec_width() + 1) + column) != '\n',
        column == u.spec_width() ==> u.render_char(row * (u.spec_width() + 1) + column) == '\n',
{
    vstd::arithmetic::div_mod::lemma_fundamental_div_mod_converse(
        row * (u.spec_width() + 1) + column,
        u.spec_width() + 1,
        row,
        column,
    );
}

/// Toroidal wrap: seen from the top row, the bottom row is the row above,
/// so a live cell at the bottom of the same column is counted as a
/// neighbour of the cell at the top.
pub proof fn lemma_toroidal_wrap(u: Universe, column: int)
    requires
        u.wf(),
        u.spec_height() >= 1,
        0 <= column < u.spec_width(),
        u.cell_at(u.spec_height() - 1, column) is Alive,
    ensures
        u.row_up(0) == u.spec_height() - 1,
        u.live_neighbours(0, column) >= 1,
{
    let h = u.spec_height() as int;
    vstd::arithmetic::div_mod::lemma_small_mod((h - 1) as nat, h as nat);
}

} // verus!
