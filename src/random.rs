//! The linear congruential generator that fills a grid at random.

use vstd::prelude::*;

verus! {

/// Multiplier of the generator.
pub const LCG_MUL: u64 = 1103515245;

/// Increment of the generator.
pub const LCG_INC: u64 = 12345;

/// One step: `(s * 1103515245 + 12345)` in 64-bit unsigned arithmetic,
/// then the low 31 bits.
pub open spec fn lcg_step(s: u64) -> u64 {
    (((s * LCG_MUL + LCG_INC) as nat % 0x1_0000_0000_0000_0000nat) % 0x8000_0000nat) as u64
}

/// The state after `n` steps from `seed`.
pub open spec fn lcg_nth(seed: u64, n: nat) -> u64
    decreases n,
{
    if n == 0 {
        seed
    } else {
        lcg_step(lcg_nth(seed, (n - 1) as nat))
    }
}

/// A cell drawn from generator state `s` is alive with a 30 in 100 chance.
pub open spec fn alive_from(s: u64) -> bool {
    s % 100 < 30
}

/// The cells of a `w` by `h` grid filled from `seed`: the generator steps
/// once per cell in row-major order, and cell `(x, y)` takes step `y * w + x + 1`.
pub open spec fn random_cells(seed: u64, w: int, h: int) -> Seq<Seq<bool>> {
    Seq::new(
        h as nat,
        |y: int| Seq::new(w as nat, |x: int| alive_from(lcg_nth(seed, (y * w + x + 1) as nat))),
    )
}

/// Advances the generator by one step.
pub fn lcg_next(s: u64) -> (r: u64)
    ensures
        r == lcg_step(s),
        r < 0x8000_0000,
{
    let m = s.wrapping_mul(LCG_MUL);
    let a = m.wrapping_add(LCG_INC);
    let r = a & 0x7fff_ffff;
    proof {
        let big = s as nat * LCG_MUL as nat;
        assert(m as nat == big % 0x1_0000_0000_0000_0000nat);
        assert(a as nat == (m as nat + LCG_INC as nat) % 0x1_0000_0000_0000_0000nat);
        vstd::arithmetic::div_mod::lemma_add_mod_noop(
            big as int,
            LCG_INC as int,
            0x1_0000_0000_0000_0000int,
        );
        vstd::arithmetic::div_mod::lemma_small_mod(LCG_INC as nat, 0x1_0000_0000_0000_0000nat);
        vstd::arithmetic::div_mod::lemma_mod_twice(big as int, 0x1_0000_0000_0000_0000int);
        assert(a & 0x7fff_ffff == a % 0x8000_0000) by (bit_vector);
        assert(r < 0x8000_0000) by (bit_vector)
            requires
                r == a & 0x7fff_ffff,
        ;
    }
    r
}

/// Whether a cell drawn from generator state `s` is alive.
pub fn draw_alive(s: u64) -> (r: bool)
    ensures
        r == alive_from(s),
{
    s % 100 < 30
}

} // verus!
