//! Fixed-point helpers shared by the systems.
//!
//! World quantities are integers: one pixel is `MILLI` position units, one
//! second is 1000 milliseconds, and a velocity axis ranges over
//! `-MILLI ..= MILLI` meaning minus-full to full speed.
use vstd::prelude::*;

verus! {

/// Fixed-point scale: thousandths.
pub const MILLI: u64 = 1000;

/// Mathematical floor of the square root of a natural number.
pub open spec fn sqrt_floor(n: nat) -> nat {
    choose|r: nat| #[trigger] (r * r) <= n < (r + 1) * (r + 1)
}

/// Every natural number has an integer square-root floor, and `sqrt_floor`
/// denotes it.
pub proof fn lemma_sqrt_floor_exists(n: nat)
    ensures
        sqrt_floor(n) * sqrt_floor(n) <= n < (sqrt_floor(n) + 1) * (sqrt_floor(n) + 1),
    decreases n,
{
    if n == 0 {
        assert((0 as nat) * (0 as nat) == 0 && ((0 + 1) as nat) * ((0 + 1) as nat) == 1)
            by (nonlinear_arith);
        assert((0 as nat) * (0 as nat) <= n < ((0 + 1) as nat) * ((0 + 1) as nat));
    } else {
        lemma_sqrt_floor_exists((n - 1) as nat);
        let p = sqrt_floor((n - 1) as nat);
        if n < (p + 1) * (p + 1) {
            assert(p * p <= n < (p + 1) * (p + 1));
        } else {
            assert(n == (p + 1) * (p + 1));
            assert(((p + 1) as nat) * ((p + 1) as nat) <= n < (((p + 1) + 1) as nat) * (((p + 1)
                + 1) as nat)) by (nonlinear_arith)
                requires
                    n == (p + 1) * (p + 1),
            ;
        }
    }
    let w = choose|r: nat| #[trigger] (r * r) <= n < (r + 1) * (r + 1);
    assert(w * w <= n < (w + 1) * (w + 1));
}

/// The square-root floor is unique: any bracketing witness equals it.
pub proof fn lemma_sqrt_floor_unique(n: nat, r: nat)
    requires
        r * r <= n < (r + 1) * (r + 1),
    ensures
        r == sqrt_floor(n),
{
    let s = sqrt_floor(n);
    assert(s * s <= n < (s + 1) * (s + 1)) by {
        lemma_sqrt_floor_exists(n);
    }
    assert(r == s) by (nonlinear_arith)
        requires
            r * r <= n < (r + 1) * (r + 1),
            s * s <= n < (s + 1) * (s + 1),
    ;
}

/// Integer square root by upward search; intended for small radicands such as
/// squared velocity vectors.
pub fn isqrt(n: u64) -> (r: u64)
    requires
        n <= 0xFFFF_FFFF,
    ensures
        r == sqrt_floor(n as nat),
        r * r <= n,
{
    let mut r: u64 = 0;
    while (r + 1) * (r + 1) <= n
        invariant
            n <= 0xFFFF_FFFF,
            r <= 0xFFFF,
            r * r <= n,
            r <= n,
            (r + 1) * (r + 1) <= 0x1_0000_0000,
        decreases n - r,
    {
        assert(r < 0xFFFF) by (nonlinear_arith)
            requires
                (r + 1) * (r + 1) <= n,
                n <= 0xFFFF_FFFF,
        ;
        assert(r + 1 <= (r + 1) * (r + 1)) by (nonlinear_arith)
            requires
                r <= 0xFFFFu64,
        ;
        r = r + 1;
        assert((r + 1) * (r + 1) <= 0x1_0000_0000) by (nonlinear_arith)
            requires
                r <= 0xFFFFu64,
        ;
    }
    proof {
        lemma_sqrt_floor_unique(n as nat, r as nat);
    }
    r
}

/// Saturating signed addition, clamped to the `i64` range.
pub open spec fn sat_add_i64_spec(a: int, b: int) -> int {
    if a + b > i64::MAX {
        i64::MAX as int
    } else if a + b < i64::MIN {
        i64::MIN as int
    } else {
        a + b
    }
}

/// Executable saturating addition on `i64`.
pub fn sat_add_i64(a: i64, b: i64) -> (r: i64)
    ensures
        r == sat_add_i64_spec(a as int, b as int),
{
    if b >= 0 {
        if a > i64::MAX - b {
            i64::MAX
        } else {
            a + b
        }
    } else {
        if a < i64::MIN - b {
            i64::MIN
        } else {
            a + b
        }
    }
}

/// A position unit count converted to whole pixels, truncating toward zero
/// as screen coordinates do.
pub open spec fn milli_to_px_spec(x: int) -> int {
    if x >= 0 {
        x / (MILLI as int)
    } else {
        -((-x) / (MILLI as int))
    }
}

/// Executable pixel conversion; truncates toward zero.
pub fn milli_to_px(x: i64) -> (r: i64)
    ensures
        r == milli_to_px_spec(x as int),
{
    if x >= 0 {
        let q: u64 = (x as u64) / 1000;
        q as i64
    } else {
        let mag: u64 = ((-(x + 1)) as u64) + 1;
        assert(mag == -(x as int));
        let q: u64 = mag / 1000;
        assert(q <= 0x7FFF_FFFF_FFFF_FFFF) by (nonlinear_arith)
            requires
                q == mag / 1000,
                mag <= 0x8000_0000_0000_0000u64,
        ;
        -(q as i64)
    }
}

} // verus!
