//! The mathematical model of the automaton: wrapped addressing, neighbour
//! counts and the birth/survival rule, over `Seq<Seq<bool>>` (rows of cells).

use vstd::prelude::*;

verus! {

/// Whether the matrix `g` has `h` rows of `w` cells each.
pub open spec fn is_rect(g: Seq<Seq<bool>>, w: int, h: int) -> bool {
    &&& g.len() == h
    &&& forall|y: int| 0 <= y < h ==> #[trigger] g[y].len() == w
}

/// A `w` by `h` matrix of dead cells.
pub open spec fn dead_cells(w: int, h: int) -> Seq<Seq<bool>> {
    Seq::new(h as nat, |y: int| Seq::new(w as nat, |x: int| false))
}

/// The cell at `(x, y)` with both coordinates taken modulo the grid size.
pub open spec fn alive_wrapped(g: Seq<Seq<bool>>, w: int, h: int, x: int, y: int) -> bool {
    g[y % h][x % w]
}

pub open spec fn bit(b: bool) -> int {
    if b { 1 } else { 0 }
}

/// Number of alive cells among the eight positions around `(x, y)`, on the torus.
pub open spec fn neighbor_count(g: Seq<Seq<bool>>, w: int, h: int, x: int, y: int) -> int {
    bit(alive_wrapped(g, w, h, x - 1, y - 1)) + bit(alive_wrapped(g, w, h, x, y - 1))
        + bit(alive_wrapped(g, w, h, x + 1, y - 1)) + bit(alive_wrapped(g, w, h, x - 1, y))
        + bit(alive_wrapped(g, w, h, x + 1, y)) + bit(alive_wrapped(g, w, h, x - 1, y + 1))
        + bit(alive_wrapped(g, w, h, x, y + 1)) + bit(alive_wrapped(g, w, h, x + 1, y + 1))
}

/// The state of a cell in the next generation: survival with two or three
/// neighbours, birth with exactly three, death otherwise.
pub open spec fn next_state(alive: bool, n: int) -> bool {
    if alive {
        n == 2 || n == 3
    } else {
        n == 3
    }
}

/// The whole next generation of a `w` by `h` matrix.
pub open spec fn next_generation(g: Seq<Seq<bool>>, w: int, h: int) -> Seq<Seq<bool>> {
    Seq::new(
        h as nat,
        |y: int| Seq::new(w as nat, |x: int| next_state(g[y][x], neighbor_count(g, w, h, x, y))),
    )
}

/// Reducing a coordinate that is at most one step outside `[0, n)`.
pub proof fn lemma_wrap_step(a: int, n: int)
    requires
        n > 0,
        -1 <= a <= n,
    ensures
        a % n == (if a < 0 {
            n - 1
        } else if a == n {
            0
        } else {
            a
        }),
{
    if a < 0 {
        vstd::arithmetic::div_mod::lemma_fundamental_div_mod_converse(-1, n, -1, n - 1);
    } else if a == n {
        vstd::arithmetic::div_mod::lemma_mod_self_0(n);
    } else {
        vstd::arithmetic::div_mod::lemma_small_mod(a as nat, n as nat);
    }
}

} // verus!
