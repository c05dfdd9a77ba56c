//! The grid engine: a fixed-size matrix of cells on a torus.

use vstd::prelude::*;
use crate::random::{alive_from, draw_alive, lcg_next, lcg_nth, random_cells};
use crate::rules::{
    bit, dead_cells, is_rect, lemma_wrap_step, neighbor_count, next_generation, next_state,
};
use crate::save::{cell_char, loaded_cell, save_text, stored_width};
use crate::text::{
    append_decimal, chars_of, decimal, find_line_end, line_bounds, parse_usize_at, second_line,
};

verus! {

/// Why a grid could not be built.
#[derive(Debug, Clone, Copy, PartialEq, Eq, Structural)]
pub enum GridError {
    /// A width or a height of zero.
    InvalidDimension,
}

/// A `width` by `height` matrix of cells, stored row by row.
pub struct Grid {
    width: usize,
    height: usize,
    cells: Vec<Vec<bool>>,
}

impl View for Grid {
    type V = Seq<Seq<bool>>;

    /// The rows of the grid, each a sequence of cells (true for alive).
    closed spec fn view(&self) -> Seq<Seq<bool>> {
        Seq::new(self.cells@.len(), |y: int| self.cells@[y]@)
    }
}

/// A row of `n` dead cells.
fn dead_row(n: usize) -> (r: Vec<bool>)
    ensures
        r@ == Seq::new(n as nat, |x: int| false),
{
    let mut r: Vec<bool> = Vec::new();
    for x in 0..n
        invariant
            r@ == Seq::new(x as nat, |i: int| false),
    {
        r.push(false);
        assert(r@ =~= Seq::new((x + 1) as nat, |i: int| false));
    }
    r
}

/// The position before `x` on a ring of `n` positions.
fn wrap_prev(x: usize, n: usize) -> (r: usize)
    requires
        x < n,
    ensures
        r == (x - 1) % (n as int),
        r < n,
{
    proof {
        lemma_wrap_step(x - 1, n as int);
    }
    if x == 0 {
        n - 1
    } else {
        x - 1
    }
}

/// The position after `x` on a ring of `n` positions.
fn wrap_next(x: usize, n: usize) -> (r: usize)
    requires
        x < n,
    ensures
        r == (x + 1) % (n as int),
        r < n,
{
    proof {
        lemma_wrap_step(x + 1, n as int);
    }
    if x + 1 == n {
        0
    } else {
        x + 1
    }
}

impl Grid {
    /// The number of columns.
    pub closed spec fn spec_width(&self) -> nat {
        self.width as nat
    }

    /// The number of rows.
    pub closed spec fn spec_height(&self) -> nat {
        self.height as nat
    }

    /// Positive dimensions, and a matrix of exactly those dimensions.
    pub open spec fn wf(&self) -> bool {
        &&& self.spec_width() > 0
        &&& self.spec_height() > 0
        &&& is_rect(self@, self.spec_width() as int, self.spec_height() as int)
    }

    /// The cell at `(x, y)`, which must lie on the grid.
    pub open spec fn spec_cell(&self, x: int, y: int) -> bool {
        self@[y][x]
    }

    /// Whether `(x, y)` lies on the grid.
    pub open spec fn in_bounds(&self, x: int, y: int) -> bool {
        0 <= x < self.spec_width() && 0 <= y < self.spec_height()
    }

    /// Whether `other` has the dimensions of `self`.
    pub open spec fn same_shape(&self, other: &Grid) -> bool {
        self.spec_width() == other.spec_width() && self.spec_height() == other.spec_height()
    }

    proof fn lemma_rows(&self)
        ensures
            self@.len() == self.cells@.len(),
            forall|y: int| 0 <= y < self.cells@.len() ==> #[trigger] self.cells@[y]@ == self@[y],
    {
    }

    /// A grid of `width` by `height` dead cells; a zero dimension is refused.
    pub fn new(width: usize, height: usize) -> (r: Result<Grid, GridError>)
        ensures
            width == 0 || height == 0 ==> r == Err::<Grid, GridError>(GridError::InvalidDimension),
            width > 0 && height > 0 ==> r is Ok,
            r matches Ok(g) ==> {
                &&& g.wf()
                &&& g.spec_width() == width
                &&& g.spec_height() == height
                &&& g@ == dead_cells(width as int, height as int)
            },
    {
        if width == 0 || height == 0 {
            return Err(GridError::InvalidDimension);
        }
        let mut cells: Vec<Vec<bool>> = Vec::new();
        for y in 0..height
            invariant
                cells@.len() == y,
                forall|j: int| 0 <= j < y ==> #[trigger] cells@[j]@ == Seq::new(width as nat, |i: int| false),
        {
            cells.push(dead_row(width));
        }
        let g = Grid { width, height, cells };
        assert(g@ =~= dead_cells(width as int, height as int));
        Ok(g)
    }

    /// The number of columns.
    pub fn width(&self) -> (r: usize)
        ensures
            r == self.spec_width(),
    {
        self.width
    }

    /// The number of rows.
    pub fn height(&self) -> (r: usize)
        ensures
            r == self.spec_height(),
    {
        self.height
    }

    /// Whether the cell at `(x, y)` is alive; a position off the grid reads as dead.
    pub fn get_cell(&self, x: usize, y: usize) -> (r: bool)
        requires
            self.wf(),
        ensures
            r == (self.in_bounds(x as int, y as int) && self.spec_cell(x as int, y as int)),
    {
        if x < self.width && y < self.height {
            proof {
                assert(self@[y as int] == self.cells@[y as int]@);
            }
            self.cells[y][x]
        } else {
            false
        }
    }

    /// Counts the alive cells among the eight positions around `(x, y)`,
    /// wrapping around each edge to the opposite one.
    pub fn count_neighbors(&self, x: usize, y: usize) -> (r: usize)
        requires
            self.wf(),
            self.in_bounds(x as int, y as int),
        ensures
            r == neighbor_count(self@, self.spec_width() as int, self.spec_height() as int, x as int, y as int),
            r <= 8,
    {
        let w = self.width;
        let h = self.height;
        let xl = wrap_prev(x, w);
        let xr = wrap_next(x, w);
        let yu = wrap_prev(y, h);
        let yd = wrap_next(y, h);
        proof {
            lemma_wrap_step(x as int, w as int);
            lemma_wrap_step(y as int, h as int);
        }
        self.bit_at(xl, yu) + self.bit_at(x, yu) + self.bit_at(xr, yu) + self.bit_at(xl, y)
            + self.bit_at(xr, y) + self.bit_at(xl, yd) + self.bit_at(x, yd) + self.bit_at(xr, yd)
    }

    /// One for an alive cell, zero for a dead one.
    fn bit_at(&self, x: usize, y: usize) -> (r: usize)
        requires
            self.wf(),
            self.in_bounds(x as int, y as int),
        ensures
            r == bit(self.spec_cell(x as int, y as int)),
    {
        proof {
            assert(self@[y as int] == self.cells@[y as int]@);
        }
        if self.cells[y][x] {
            1
        } else {
            0
        }
    }

    /// Sets the cell at `(x, y)` to `alive`; a position off the grid is ignored.
    pub fn set_cell(&mut self, x: usize, y: usize, alive: bool)
        requires
            old(self).wf(),
        ensures
            final(self).wf(),
            final(self).same_shape(&*old(self)),
            final(self)@ == (if old(self).in_bounds(x as int, y as int) {
                old(self)@.update(y as int, old(self)@[y as int].update(x as int, alive))
            } else {
                old(self)@
            }),
    {
        if x < self.width && y < self.height {
            proof {
                self.lemma_rows();
            }
            let ghost before = self@;
            self.cells[y].set(x, alive);
            assert(self@ =~= before.update(y as int, before[y as int].update(x as int, alive)));
        }
    }

    /// Makes every cell dead.
    pub fn clear(&mut self)
        requires
            old(self).wf(),
        ensures
            final(self).wf(),
            final(self).same_shape(&*old(self)),
            final(self)@ == dead_cells(old(self).spec_width() as int, old(self).spec_height() as int),
    {
        let w = self.width;
        let h = self.height;
        proof {
            self.lemma_rows();
        }
        for y in 0..h
            invariant
                w == self.width,
                h == self.height,
                self.cells@.len() == h,
                w > 0,
                forall|j: int| 0 <= j < h ==> #[trigger] self.cells@[j]@.len() == w,
                forall|j: int, i: int| 0 <= j < y && 0 <= i < w ==> !#[trigger] self.cells@[j]@[i],
        {
            self.cells.set(y, dead_row(w));
        }
        proof {
            self.lemma_rows();
            let z = dead_cells(w as int, h as int);
            assert forall|j: int| 0 <= j < h implies #[trigger] self@[j] =~= z[j] by {
                assert(self@[j] == self.cells@[j]@);
            }
            assert(self@ =~= z);
        }
    }

    /// Replaces every cell by its state in the next generation, all computed
    /// from the current generation.
    pub fn advance(&mut self)
        requires
            old(self).wf(),
        ensures
            final(self).wf(),
            final(self).same_shape(&*old(self)),
            final(self)@ == next_generation(
                old(self)@,
                old(self).spec_width() as int,
                old(self).spec_height() as int,
            ),
    {
        let w = self.width;
        let h = self.height;
        let ghost g = self@;
        let mut next: Vec<Vec<bool>> = Vec::new();
        for y in 0..h
            invariant
                self.wf(),
                self@ == g,
                w == self.width,
                h == self.height,
                next@.len() == y,
                forall|j: int| 0 <= j < y ==> #[trigger] next@[j]@ == next_generation(g, w as int, h as int)[j],
        {
            let mut row: Vec<bool> = Vec::new();
            for x in 0..w
                invariant
                    self.wf(),
                    self@ == g,
                    w == self.width,
                    h == self.height,
                    0 <= y < h,
                    row@.len() == x,
                    forall|i: int| 0 <= i < x ==> #[trigger] row@[i] == next_state(g[y as int][i], neighbor_count(g, w as int, h as int, i, y as int)),
            {
                let n = self.count_neighbors(x, y);
                let alive = self.get_cell(x, y);
                let v = if alive { n == 2 || n == 3 } else { n == 3 };
                row.push(v);
            }
            assert(row@ =~= next_generation(g, w as int, h as int)[y as int]);
            next.push(row);
        }
        self.cells = next;
        proof {
            let ng = next_generation(g, w as int, h as int);
            assert(self@ =~= ng);
        }
    }

    /// Fills every cell from the generator started at `seed`: the generator
    /// steps once per cell in row-major order, and the cell is alive when
    /// the new state modulo 100 is below 30.
    pub fn randomize(&mut self, seed: u64)
        requires
            old(self).wf(),
        ensures
            final(self).wf(),
            final(self).same_shape(&*old(self)),
            final(self)@ == random_cells(seed, old(self).spec_width() as int, old(self).spec_height() as int),
    {
        let w = self.width;
        let h = self.height;
        let mut rng = seed;
        let ghost mut k: nat = 0;
        proof {
            self.lemma_rows();
            assert(0 * w == 0);
        }
        for y in 0..h
            invariant
                w == self.width,
                h == self.height,
                w > 0,
                self.cells@.len() == h,
                forall|j: int| 0 <= j < h ==> #[trigger] self.cells@[j]@.len() == w,
                k == y * w,
                rng == lcg_nth(seed, k),
                forall|j: int, i: int|
                    0 <= j < y && 0 <= i < w ==> #[trigger] self.cells@[j]@[i] == alive_from(
                        lcg_nth(seed, (j * w + i + 1) as nat),
                    ),
        {
            for x in 0..w
                invariant
                    w == self.width,
                    h == self.height,
                    0 <= y < h,
                    self.cells@.len() == h,
                    forall|j: int| 0 <= j < h ==> #[trigger] self.cells@[j]@.len() == w,
                    k == y * w + x,
                    rng == lcg_nth(seed, k),
                    forall|j: int, i: int|
                        (0 <= j < y && 0 <= i < w) || (j == y && 0 <= i < x) ==> #[trigger] self.cells@[j]@[i] == alive_from(
                            lcg_nth(seed, (j * w + i + 1) as nat),
                        ),
            {
                rng = lcg_next(rng);
                proof {
                    k = k + 1;
                }
                let v = draw_alive(rng);
                self.cells[y].set(x, v);
            }
            proof {
                assert(k == (y + 1) * w) by (nonlinear_arith)
                    requires
                        k == y * w + w,
                ;
            }
        }
        proof {
            self.lemma_rows();
            let rc = random_cells(seed, w as int, h as int);
            assert forall|j: int| 0 <= j < h implies #[trigger] self@[j] =~= rc[j] by {
                assert(self@[j] == self.cells@[j]@);
            }
            assert(self@ =~= rc);
        }
    }

    /// The saved form of the grid: the width in decimal on a first line,
    /// then a line of `'1'` (alive) and `'0'` (dead), one per cell, row by row.
    pub fn serialize(&self) -> (r: String)
        requires
            self.wf(),
        ensures
            r@ == save_text(self@, self.spec_width() as int, self.spec_height() as int),
    {
        let w = self.width;
        let h = self.height;
        let ghost g = self@;
        proof {
            reveal_strlit("\n");
            reveal_strlit("0");
            reveal_strlit("1");
            self.lemma_rows();
            assert(0 * w == 0);
        }
        let mut s = String::new();
        append_decimal(&mut s, w);
        s.append("\n");
        let ghost head = decimal(w as nat) + seq!['\n'];
        assert(s@ =~= head);
        for y in 0..h
            invariant
                self.wf(),
                g == self@,
                w == self.width,
                h == self.height,
                head == decimal(w as nat) + seq!['\n'],
                s@ == head + Seq::new((y * w) as nat, |i: int| cell_char(g[i / w as int][i % w as int])),
        {
            for x in 0..w
                invariant
                    self.wf(),
                    g == self@,
                    w == self.width,
                    h == self.height,
                    0 <= y < h,
                    head == decimal(w as nat) + seq!['\n'],
                    s@ == head + Seq::new((y * w + x) as nat, |i: int| cell_char(g[i / w as int][i % w as int])),
            {
                let ghost k = y * w + x;
                proof {
                    vstd::arithmetic::div_mod::lemma_fundamental_div_mod_converse(k, w as int, y as int, x as int);
                }
                let alive = self.get_cell(x, y);
                let piece = if alive { "1" } else { "0" };
                proof {
                    reveal_strlit("0");
                    reveal_strlit("1");
                }
                assert(piece@ =~= seq![cell_char(alive)]);
                s.append(piece);
                assert(s@ =~= head + Seq::new((k + 1) as nat, |i: int| cell_char(g[i / w as int][i % w as int])));
            }
            assert((y + 1) * w == y * w + w) by (nonlinear_arith);
        }
        proof {
            reveal_strlit("\n");
        }
        s.append("\n");
        assert(h * w == w * h) by (nonlinear_arith);
        assert(s@ =~= save_text(g, w as int, h as int));
        s
    }

    /// Loads a saved text into the grid. The width is read from the first
    /// line (the grid's own width where that line is missing, not a number,
    /// or zero); character `i` of the second line goes to column `i % width`
    /// of row `i / width` where that lies on the grid. Other cells keep their
    /// state.
    pub fn deserialize(&mut self, text: &str)
        requires
            old(self).wf(),
        ensures
            final(self).wf(),
            final(self).same_shape(&*old(self)),
            forall|x: int, y: int|
                final(self).in_bounds(x, y) ==> #[trigger] final(self).spec_cell(x, y) == loaded_cell(
                    old(self)@,
                    text@,
                    old(self).spec_width(),
                    x,
                    y,
                ),
    {
        let ghost g = self@;
        let w = self.width;
        let h = self.height;
        let t = chars_of(text);
        let (a, b) = line_bounds(&t, 0);
        let sw = match parse_usize_at(&t, a, b) {
            Some(v) => if v > 0 {
                v
            } else {
                w
            },
            None => w,
        };
        assert(sw == stored_width(text@, w as nat));
        let e0 = find_line_end(&t, 0);
        let (c, d) = if e0 < t.len() {
            line_bounds(&t, e0 + 1)
        } else {
            (0, 0)
        };
        let ghost data = second_line(text@);
        assert(t@.subrange(c as int, d as int) == data);
        proof {
            self.lemma_rows();
        }
        for i in c..d
            invariant
                w == self.width,
                h == self.height,
                w > 0,
                sw > 0,
                c <= d <= t@.len(),
                t@.subrange(c as int, d as int) == data,
                sw == stored_width(text@, w as nat),
                data == second_line(text@),
                self.cells@.len() == h,
                is_rect(g, w as int, h as int),
                forall|j: int| 0 <= j < h ==> #[trigger] self.cells@[j]@.len() == w,
                forall|xx: int, yy: int|
                    0 <= xx < w && 0 <= yy < h ==> #[trigger] self.cells@[yy]@[xx] == (if xx < sw && yy * sw + xx < i - c {
                        data[yy * sw + xx] == '1'
                    } else {
                        g[yy][xx]
                    }),
        {
            let k = i - c;
            let y = k / sw;
            let x = k % sw;
            proof {
                vstd::arithmetic::div_mod::lemma_fundamental_div_mod(k as int, sw as int);
                vstd::arithmetic::mul::lemma_mul_is_commutative(sw as int, y as int);
                assert(k == y * sw + x);
                assert(t@[i as int] == data[k as int]);
                assert forall|xx: int, yy: int| 0 <= xx < sw && 0 <= yy && #[trigger] (yy * sw + xx) == k implies xx == x && yy == y by {
                    vstd::arithmetic::div_mod::lemma_fundamental_div_mod_converse(k as int, sw as int, yy, xx);
                }
            }
            if y < h && x < w {
                self.cells[y].set(x, t[i] == '1');
            }
            proof {
                assert forall|xx: int, yy: int|
                    0 <= xx < w && 0 <= yy < h implies #[trigger] self.cells@[yy]@[xx] == (if xx < sw && yy * sw + xx < i + 1 - c {
                        data[yy * sw + xx] == '1'
                    } else {
                        g[yy][xx]
                    }) by {
                    if xx < sw && yy * sw + xx == k {
                        assert(xx == x && yy == y);
                    }
                    if xx == x && yy == y {
                        assert(yy * sw + xx == k);
                    }
                }
            }
        }
        proof {
            self.lemma_rows();
            assert forall|xx: int, yy: int| self.in_bounds(xx, yy) implies #[trigger] self.spec_cell(xx, yy) == loaded_cell(g, text@, w as nat, xx, yy) by {
                assert(self.cells@[yy]@[xx] == self.spec_cell(xx, yy));
            }
        }
    }
}

} // verus!
