//! Properties that relate the engine's operations, proved over the models
//! that their contracts use.

use vstd::prelude::*;
use crate::rules::{bit, is_rect, lemma_wrap_step, neighbor_count, next_generation, next_state};
use crate::save::{cells_text, loaded_cell, save_text, stored_width};
use crate::text::{
    all_digits, decimal, digit_of, digits_value, first_line, line_end, parse_usize, second_line,
};

verus! {

proof fn lemma_decimal_digits(n: nat)
    ensures
        all_digits(decimal(n)),
        digits_value(decimal(n)) == n,
        decimal(n).len() >= 1,
        decimal(n)[0] != '+',
        forall|i: int| 0 <= i < decimal(n).len() ==> #[trigger] decimal(n)[i] != '\n',
    decreases n,
{
    if n >= 10 {
        lemma_decimal_digits(n / 10);
        let d = decimal(n);
        assert(d.drop_last() =~= decimal(n / 10));
        assert(forall|i: int| 0 <= i < d.len() - 1 ==> #[trigger] d[i] == decimal(n / 10)[i]);
        assert(forall|i: int| 0 <= i < d.len() ==> #[trigger] digit_of(d[i]) >= 0);
        assert(digit_of(d.last()) == n % 10);
        assert(digits_value(d) == digits_value(d.drop_last()) * 10 + digit_of(d.last()) as nat);
    } else {
        let d = decimal(n);
        assert(d.drop_last() =~= Seq::<char>::empty());
        assert(digits_value(d) == digits_value(d.drop_last()) * 10 + digit_of(d.last()) as nat);
    }
}

proof fn lemma_line_end_skips(t: Seq<char>, i: int, e: int)
    requires
        0 <= i <= e <= t.len(),
        forall|k: int| i <= k < e ==> #[trigger] t[k] != '\n',
    ensures
        line_end(t, i) == line_end(t, e),
    decreases e - i,
{
    if i < e {
        lemma_line_end_skips(t, i + 1, e);
    }
}

/// Loading the saved form of a grid into a grid of the same dimensions
/// gives back every cell of the saved grid, whatever the cells of the
/// grid loaded into were.
pub proof fn lemma_save_load_round_trip(g: Seq<Seq<bool>>, c: Seq<Seq<bool>>, w: nat, h: nat)
    requires
        w > 0,
        h > 0,
        w <= usize::MAX,
        is_rect(g, w as int, h as int),
        is_rect(c, w as int, h as int),
    ensures
        forall|x: int, y: int|
            0 <= x < w && 0 <= y < h ==> #[trigger] loaded_cell(c, save_text(g, w as int, h as int), w, x, y)
                == g[y][x],
{
    let t = save_text(g, w as int, h as int);
    let dw = decimal(w);
    let body = cells_text(g, w as int, h as int);
    lemma_decimal_digits(w);
    let n = dw.len() as int;
    assert(t[n] == '\n');
    assert forall|k: int| 0 <= k < n implies #[trigger] t[k] != '\n' by {
        assert(t[k] == dw[k]);
    }
    lemma_line_end_skips(t, 0, n);
    assert(line_end(t, 0) == n);
    assert(first_line(t) =~= dw);
    assert(dw.len() > 0 && dw[0] != '+');
    assert(parse_usize(dw) == Some(w));
    assert(stored_width(t, w) == w);
    let m = body.len() as int;
    assert(t[n + 1 + m] == '\n');
    assert forall|k: int| n + 1 <= k < n + 1 + m implies #[trigger] t[k] != '\n' by {
        assert(t[k] == body[k - n - 1]);
    }
    lemma_line_end_skips(t, n + 1, n + 1 + m);
    assert(line_end(t, n + 1) == n + 1 + m);
    assert(second_line(t) =~= body);
    assert forall|x: int, y: int| 0 <= x < w && 0 <= y < h implies #[trigger] loaded_cell(
        c,
        t,
        w,
        x,
        y,
    ) == g[y][x] by {
        let k = y * w + x;
        vstd::arithmetic::div_mod::lemma_fundamental_div_mod_converse(k, w as int, y, x);
        assert(k < w * h) by (nonlinear_arith)
            requires
                0 <= x < w,
                0 <= y < h,
                k == y * w + x,
        ;
        assert(body[k] == (if g[y][x] { '1' } else { '0' }));
    }
}

/// A matrix whose alive cells are exactly those with a column in `a` and a row in `b`.
pub open spec fn product_grid(w: int, h: int, a: spec_fn(int) -> bool, b: spec_fn(int) -> bool) -> Seq<Seq<bool>> {
    Seq::new(h as nat, |y: int| Seq::new(w as nat, |x: int| a(x) && b(y)))
}

/// How many of the three positions `x - 1`, `x`, `x + 1` on a ring of `n`
/// lie in `a`.
pub open spec fn ring_count(a: spec_fn(int) -> bool, n: int, x: int) -> int {
    bit(a((x - 1) % n)) + bit(a(x % n)) + bit(a((x + 1) % n))
}

/// The set `{c}` on a ring.
pub open spec fn single(c: int) -> spec_fn(int) -> bool {
    |i: int| i == c
}

/// The set `{c, c + 1}` on a ring of `n`.
pub open spec fn pair(n: int, c: int) -> spec_fn(int) -> bool {
    |i: int| i == c || i == (c + 1) % n
}

/// The set `{c - 1, c, c + 1}` on a ring of `n`.
pub open spec fn triple(n: int, c: int) -> spec_fn(int) -> bool {
    |i: int| i == (c - 1) % n || i == c || i == (c + 1) % n
}

proof fn lemma_product_count(w: int, h: int, a: spec_fn(int) -> bool, b: spec_fn(int) -> bool, x: int, y: int)
    requires
        w > 0,
        h > 0,
        0 <= x < w,
        0 <= y < h,
    ensures
        neighbor_count(product_grid(w, h, a, b), w, h, x, y) == ring_count(a, w, x) * ring_count(b, h, y)
            - bit(a(x) && b(y)),
        product_grid(w, h, a, b)[y][x] == (a(x) && b(y)),
{
    lemma_wrap_step(x - 1, w);
    lemma_wrap_step(x, w);
    lemma_wrap_step(x + 1, w);
    lemma_wrap_step(y - 1, h);
    lemma_wrap_step(y, h);
    lemma_wrap_step(y + 1, h);
    let a0 = bit(a((x - 1) % w));
    let a1 = bit(a(x % w));
    let a2 = bit(a((x + 1) % w));
    let b0 = bit(b((y - 1) % h));
    let b1 = bit(b(y % h));
    let b2 = bit(b((y + 1) % h));
    let g = product_grid(w, h, a, b);
    assert(neighbor_count(g, w, h, x, y) == a0 * b0 + a1 * b0 + a2 * b0 + a0 * b1 + a2 * b1 + a0 * b2
        + a1 * b2 + a2 * b2);
    assert((a0 + a1 + a2) * (b0 + b1 + b2) - a1 * b1 == a0 * b0 + a1 * b0 + a2 * b0 + a0 * b1 + a2
        * b1 + a0 * b2 + a1 * b2 + a2 * b2) by (nonlinear_arith);
}

proof fn lemma_wrap_near(a: int, n: int)
    requires
        n > 0,
        -n <= a < 2 * n,
    ensures
        a % n == (if a < 0 {
            a + n
        } else if a >= n {
            a - n
        } else {
            a
        }),
{
    if a < 0 {
        vstd::arithmetic::div_mod::lemma_fundamental_div_mod_converse(a, n, -1, a + n);
    } else if a >= n {
        vstd::arithmetic::div_mod::lemma_fundamental_div_mod_converse(a, n, 1, a - n);
    } else {
        vstd::arithmetic::div_mod::lemma_fundamental_div_mod_converse(a, n, 0, a);
    }
}

proof fn lemma_ring_facts(n: int, c: int, x: int)
    requires
        n > 0,
        0 <= c < n,
        0 <= x < n,
    ensures
        (c - 1) % n == (if c == 0 { n - 1 } else { c - 1 }),
        (c + 1) % n == (if c == n - 1 { 0 } else { c + 1 }),
        (x - 1) % n == (if x == 0 { n - 1 } else { x - 1 }),
        (x + 1) % n == (if x == n - 1 { 0 } else { x + 1 }),
        x % n == x,
{
    lemma_wrap_near(c - 1, n);
    lemma_wrap_near(c + 1, n);
    lemma_wrap_near(x - 1, n);
    lemma_wrap_near(x + 1, n);
    lemma_wrap_near(x, n);
}

proof fn lemma_ring_single(n: int, c: int, x: int)
    requires
        n >= 3,
        0 <= c < n,
        0 <= x < n,
    ensures
        ring_count(single(c), n, x) == bit(x == (c - 1) % n || x == c || x == (c + 1) % n),
{
    lemma_ring_facts(n, c, x);
}

proof fn lemma_ring_pair(n: int, c: int, x: int)
    requires
        n >= 4,
        0 <= c < n,
        0 <= x < n,
    ensures
        pair(n, c)(x) ==> ring_count(pair(n, c), n, x) == 2,
        !pair(n, c)(x) ==> 0 <= ring_count(pair(n, c), n, x) <= 1,
{
    lemma_ring_facts(n, c, x);
}

proof fn lemma_ring_triple(n: int, c: int, x: int)
    requires
        n >= 5,
        0 <= c < n,
        0 <= x < n,
    ensures
        0 <= ring_count(triple(n, c), n, x) <= 3,
        ring_count(triple(n, c), n, x) == 3 <==> x == c,
{
    lemma_ring_facts(n, c, x);
}

/// A 2 by 2 block of alive cells with its corner at `(bx, by)` (wrapping
/// around the edges), on an otherwise dead grid of at least 4 by 4 cells,
/// is its own next generation.
pub proof fn lemma_block_still_life(w: int, h: int, bx: int, by: int)
    requires
        w >= 4,
        h >= 4,
        0 <= bx < w,
        0 <= by < h,
    ensures
        next_generation(product_grid(w, h, pair(w, bx), pair(h, by)), w, h) == product_grid(
            w,
            h,
            pair(w, bx),
            pair(h, by),
        ),
{
    let g = product_grid(w, h, pair(w, bx), pair(h, by));
    let n = next_generation(g, w, h);
    assert forall|y: int| 0 <= y < h implies #[trigger] n[y] =~= g[y] by {
        assert forall|x: int| 0 <= x < w implies #[trigger] n[y][x] == g[y][x] by {
            lemma_product_count(w, h, pair(w, bx), pair(h, by), x, y);
            lemma_ring_pair(w, bx, x);
            lemma_ring_pair(h, by, y);
            let ca = ring_count(pair(w, bx), w, x);
            let cb = ring_count(pair(h, by), h, y);
            assert(n[y][x] == next_state(g[y][x], neighbor_count(g, w, h, x, y)));
            if ca == 2 && cb == 2 {
                assert(ca * cb == 4) by (nonlinear_arith)
                    requires
                        ca == 2,
                        cb == 2,
                ;
            } else if ca <= 1 {
                assert(ca * cb <= 2) by (nonlinear_arith)
                    requires
                        0 <= ca <= 1,
                        0 <= cb <= 2,
                ;
            } else if cb <= 1 {
                assert(ca * cb <= 2) by (nonlinear_arith)
                    requires
                        ca == 2,
                        0 <= cb <= 1,
                ;
            }
        }
    }
    assert(n =~= g);
}

/// A horizontal line of three alive cells centred on `(cx, cy)`, on an
/// otherwise dead grid of at least 5 by 5 cells, becomes the vertical line
/// of three centred on the same cell, and that becomes the horizontal line
/// again: positions wrap around the edges.
pub proof fn lemma_blinker_period_two(w: int, h: int, cx: int, cy: int)
    requires
        w >= 5,
        h >= 5,
        0 <= cx < w,
        0 <= cy < h,
    ensures
        next_generation(product_grid(w, h, triple(w, cx), single(cy)), w, h) == product_grid(
            w,
            h,
            single(cx),
            triple(h, cy),
        ),
        next_generation(product_grid(w, h, single(cx), triple(h, cy)), w, h) == product_grid(
            w,
            h,
            triple(w, cx),
            single(cy),
        ),
{
    let hz = product_grid(w, h, triple(w, cx), single(cy));
    let vt = product_grid(w, h, single(cx), triple(h, cy));
    let n1 = next_generation(hz, w, h);
    let n2 = next_generation(vt, w, h);
    assert forall|y: int| 0 <= y < h implies #[trigger] n1[y] =~= vt[y] by {
        assert forall|x: int| 0 <= x < w implies #[trigger] n1[y][x] == vt[y][x] by {
            lemma_product_count(w, h, triple(w, cx), single(cy), x, y);
            lemma_product_count(w, h, single(cx), triple(h, cy), x, y);
            lemma_ring_triple(w, cx, x);
            lemma_ring_single(h, cy, y);
            lemma_ring_facts(h, cy, y);
            let ca = ring_count(triple(w, cx), w, x);
            let cb = ring_count(single(cy), h, y);
            assert(n1[y][x] == next_state(hz[y][x], neighbor_count(hz, w, h, x, y)));
            if cb == 0 {
                assert(ca * cb == 0);
            } else {
                assert(ca * cb == ca);
            }
        }
    }
    assert forall|y: int| 0 <= y < h implies #[trigger] n2[y] =~= hz[y] by {
        assert forall|x: int| 0 <= x < w implies #[trigger] n2[y][x] == hz[y][x] by {
            lemma_product_count(w, h, single(cx), triple(h, cy), x, y);
            lemma_product_count(w, h, triple(w, cx), single(cy), x, y);
            lemma_ring_single(w, cx, x);
            lemma_ring_triple(h, cy, y);
            lemma_ring_facts(w, cx, x);
            let ca = ring_count(single(cx), w, x);
            let cb = ring_count(triple(h, cy), h, y);
            assert(n2[y][x] == next_state(vt[y][x], neighbor_count(vt, w, h, x, y)));
            if ca == 0 {
                assert(ca * cb == 0);
            } else {
                assert(ca * cb == cb);
            }
        }
    }
    assert(n1 =~= vt);
    assert(n2 =~= hz);
}

/// On a grid of at least 3 by 3 cells whose only alive cell is `(0, 0)`,
/// that cell counts as a neighbour of the far corner `(w - 1, h - 1)`, of
/// `(w - 1, 0)` and of `(0, h - 1)`: each has exactly one alive neighbour.
pub proof fn lemma_corner_wraps(w: int, h: int)
    requires
        w >= 3,
        h >= 3,
    ensures
        neighbor_count(product_grid(w, h, single(0), single(0)), w, h, w - 1, h - 1) == 1,
        neighbor_count(product_grid(w, h, single(0), single(0)), w, h, w - 1, 0) == 1,
        neighbor_count(product_grid(w, h, single(0), single(0)), w, h, 0, h - 1) == 1,
{
    lemma_product_count(w, h, single(0), single(0), w - 1, h - 1);
    lemma_product_count(w, h, single(0), single(0), w - 1, 0);
    lemma_product_count(w, h, single(0), single(0), 0, h - 1);
    lemma_ring_single(w, 0, w - 1);
    lemma_ring_single(h, 0, h - 1);
    lemma_ring_single(w, 0, 0);
    lemma_ring_single(h, 0, 0);
    lemma_ring_facts(w, 0, w - 1);
    lemma_ring_facts(h, 0, h - 1);
}

/// A cell with two or three alive neighbours is alive in the next
/// generation exactly when it is alive now or has three.
pub proof fn lemma_two_or_three_neighbors(g: Seq<Seq<bool>>, w: int, h: int, x: int, y: int)
    requires
        w > 0,
        h > 0,
        is_rect(g, w, h),
        0 <= x < w,
        0 <= y < h,
        neighbor_count(g, w, h, x, y) == 2 || neighbor_count(g, w, h, x, y) == 3,
    ensures
        next_generation(g, w, h)[y][x] == (g[y][x] || neighbor_count(g, w, h, x, y) == 3),
{
}

} // verus!
