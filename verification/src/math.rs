use vstd::prelude::*;
use vstd::arithmetic::div_mod::{
    lemma_fundamental_div_mod, lemma_fundamental_div_mod_converse_div, lemma_div_by_multiple,
    lemma_div_is_ordered, lemma_div_pos_is_pos, lemma_mod_bound,
};

verus! {

/// Scale of the 64.64 fixed-point representation used for reserve ratios:
/// a ratio is stored as `floor(value * FP_SCALE)`.
pub const FP_SCALE: u128 = 0x1_0000_0000_0000_0000;

/// Fee charged on `amount` at `fee` basis points, rounded down.
pub open spec fn fee_of(amount: int, fee: int) -> int {
    (amount * fee) / 10000
}

/// Input remaining after the fee is deducted.
pub open spec fn taxed_of(amount: int, fee: int) -> int {
    amount - fee_of(amount, fee)
}

/// Constant-product swap output: the amount of the output asset released
/// for `taxed` units of input, at reserves `r_in` / `r_out`.
pub open spec fn swap_output_of(taxed: int, r_in: int, r_out: int) -> int {
    (taxed * r_out) / (r_in + taxed)
}

/// The pool ratio `reserve_x / reserve_y` in 64.64 fixed point.
pub open spec fn ratio_of(rx: int, ry: int) -> int {
    (rx * FP_SCALE as int) / ry
}

/// Amount of X that matches `y` units of Y at the pool ratio,
/// computed the way the engine does: multiply by the fixed-point ratio,
/// then drop the fractional bits.
pub open spec fn delta_x_of(y: int, rx: int, ry: int) -> int {
    (y * ratio_of(rx, ry)) / FP_SCALE as int
}

/// Amount of Y that matches `x` units of X at the pool ratio:
/// divide by the fixed-point ratio.
pub open spec fn delta_y_of(x: int, rx: int, ry: int) -> int {
    (x * FP_SCALE as int) / ratio_of(rx, ry)
}

/// `r` is the integer square root of `n`, rounded down.
pub open spec fn is_isqrt(n: int, r: int) -> bool {
    &&& 0 <= r
    &&& r * r <= n
    &&& n < (r + 1) * (r + 1)
}

/// The integer square root of `n`, rounded down.
pub open spec fn sqrt_floor(n: int) -> int {
    choose|r: int| is_isqrt(n, r)
}

/// Division by a positive divisor rounds down: the quotient times the
/// divisor never exceeds the dividend, and misses it by less than `d`.
pub proof fn lemma_div_mul_bounds(x: int, d: int)
    requires
        0 <= x,
        0 < d,
    ensures
        0 <= x / d,
        (x / d) * d <= x,
        x - d < (x / d) * d,
{
    lemma_fundamental_div_mod(x, d);
    lemma_mod_bound(x, d);
    lemma_div_pos_is_pos(x, d);
    let q: int = x / d;
    assert(q * d <= x && x - d < q * d) by (nonlinear_arith)
        requires
            x == d * q + x % d,
            0 <= x % d < d,
    ;
}

/// A dividend strictly below `c * d` has quotient strictly below `c`.
pub proof fn lemma_div_lt(x: int, c: int, d: int)
    requires
        0 <= x,
        0 < d,
        x < c * d,
    ensures
        x / d < c,
{
    lemma_div_mul_bounds(x, d);
    let q: int = x / d;
    assert(q * d < c * d);
    assert(q < c) by (nonlinear_arith)
        requires
            q * d < c * d,
            0 < d,
    ;
}

/// A dividend of at least `c * d` has quotient at least `c`.
pub proof fn lemma_le_div(x: int, c: int, d: int)
    requires
        0 <= c,
        0 < d,
        c * d <= x,
    ensures
        c <= x / d,
{
    assert(0 <= c * d) by (nonlinear_arith)
        requires
            0 <= c,
            0 < d,
    ;
    lemma_div_mul_bounds(x, d);
    let q: int = x / d;
    assert((c - 1) * d < q * d) by (nonlinear_arith)
        requires
            x - d < q * d,
            c * d <= x,
            0 < d,
    ;
    assert(c - 1 < q) by (nonlinear_arith)
        requires
            (c - 1) * d < q * d,
            0 < d,
    ;
}

/// Fractions compare as their cross products do: `a/b <= c/d` whenever
/// `a*d <= c*b`, under rounding-down division.
pub proof fn lemma_frac_le(a: int, b: int, c: int, d: int)
    requires
        0 <= a,
        0 <= c,
        0 < b,
        0 < d,
        a * d <= c * b,
    ensures
        a / b <= c / d,
{
    lemma_div_mul_bounds(a, b);
    let q: int = a / b;
    assert(q * (b * d) <= a * d) by (nonlinear_arith)
        requires
            q * b <= a,
            0 < d,
    ;
    assert(q * d * b <= c * b) by (nonlinear_arith)
        requires
            q * (b * d) <= a * d,
            a * d <= c * b,
    ;
    assert(q * d <= c) by (nonlinear_arith)
        requires
            q * d * b <= c * b,
            0 < b,
    ;
    lemma_le_div(c, q, d);
}

/// Every non-negative integer has a rounded-down square root.
pub proof fn lemma_isqrt_exists(n: int)
    requires
        0 <= n,
    ensures
        is_isqrt(n, sqrt_floor(n)),
    decreases n,
{
    if n == 0 {
        assert(is_isqrt(0, 0));
    } else {
        lemma_isqrt_exists(n - 1);
        let r: int = sqrt_floor(n - 1);
        if n < (r + 1) * (r + 1) {
            assert(is_isqrt(n, r));
        } else {
            assert(n == (r + 1) * (r + 1));
            assert((r + 1) * (r + 1) < (r + 2) * (r + 2)) by (nonlinear_arith)
                requires
                    0 <= r,
            ;
            assert(is_isqrt(n, r + 1));
        }
    }
}

/// There is exactly one rounded-down integer square root.
pub proof fn lemma_isqrt_unique(n: int, r: int)
    requires
        is_isqrt(n, r),
    ensures
        sqrt_floor(n) == r,
{
    let c: int = sqrt_floor(n);
    assert(is_isqrt(n, c));
    assert(!(c < r)) by {
        if c < r {
            assert((c + 1) * (c + 1) <= r * r) by (nonlinear_arith)
                requires
                    0 <= c,
                    c < r,
            ;
        }
    }
    assert(!(r < c)) by {
        if r < c {
            assert((r + 1) * (r + 1) <= c * c) by (nonlinear_arith)
                requires
                    0 <= r,
                    r < c,
            ;
        }
    }
}

/// Deduct the fee from `amount`: `amount - floor(amount * fee / 10000)`.
pub fn apply_fee(amount: u64, fee: u16) -> (taxed: u64)
    requires
        fee < 10000,
    ensures
        taxed == taxed_of(amount as int, fee as int),
        taxed <= amount,
{
    proof {
        assert(amount * fee <= amount * 10000) by (nonlinear_arith)
            requires
                fee < 10000,
                0 <= amount,
        ;
        lemma_div_is_ordered(amount as int * fee as int, amount as int * 10000, 10000);
        lemma_div_by_multiple(amount as int, 10000);
        lemma_div_mul_bounds(amount as int * fee as int, 10000);
    }
    let fee_part: u128 = (amount as u128) * (fee as u128) / 10000;
    amount - (fee_part as u64)
}

/// Constant-product output amount. Strictly less than the output reserve
/// whenever that reserve is positive: one swap can never empty a vault.
pub fn swap_output(taxed: u64, reserve_in: u64, reserve_out: u64) -> (out: u64)
    requires
        reserve_in > 0,
    ensures
        out == swap_output_of(taxed as int, reserve_in as int, reserve_out as int),
        out <= reserve_out,
        reserve_out > 0 ==> out < reserve_out,
{
    proof {
        assert(taxed * reserve_out <= u64::MAX as int * u64::MAX as int) by (nonlinear_arith)
            requires
                0 <= taxed <= u64::MAX,
                0 <= reserve_out <= u64::MAX,
        ;
    }
    let num: u128 = (taxed as u128) * (reserve_out as u128);
    let den: u128 = (reserve_in as u128) + (taxed as u128);
    proof {
        assert(num <= reserve_out * den) by (nonlinear_arith)
            requires
                num == taxed * reserve_out,
                den == reserve_in + taxed,
                0 <= reserve_in,
                0 <= taxed,
                0 <= reserve_out,
        ;
        lemma_div_is_ordered(num as int, reserve_out as int * den as int, den as int);
        lemma_div_by_multiple(reserve_out as int, den as int);
        if reserve_out > 0 {
            assert(num < reserve_out * den) by (nonlinear_arith)
                requires
                    num == taxed * reserve_out,
                    den == reserve_in + taxed,
                    0 < reserve_in,
                    0 <= taxed,
                    0 < reserve_out,
            ;
            lemma_div_lt(num as int, reserve_out as int, den as int);
        }
    }
    (num / den) as u64
}

/// The pool ratio `reserve_x / reserve_y` in 64.64 fixed point, rounded down.
pub fn ratio_fp(reserve_x: u64, reserve_y: u64) -> (r: u128)
    requires
        reserve_y > 0,
    ensures
        r == ratio_of(reserve_x as int, reserve_y as int),
        reserve_x > 0 ==> r >= 1,
{
    proof {
        if reserve_x > 0 {
            lemma_le_div(reserve_x as int * FP_SCALE as int, 1, reserve_y as int);
        }
    }
    (reserve_x as u128) * FP_SCALE / (reserve_y as u128)
}

/// Multiply `y` by a 64.64 fixed-point ratio and drop the fractional bits.
/// Split into high and low ratio words so that no intermediate product
/// overflows 128 bits.
pub fn mul_fp(y: u64, ratio: u128) -> (d: u128)
    ensures
        d == (y as int * ratio as int) / FP_SCALE as int,
{
    let hi: u128 = ratio / FP_SCALE;
    let lo: u128 = ratio % FP_SCALE;
    proof {
        lemma_fundamental_div_mod(ratio as int, FP_SCALE as int);
        lemma_mod_bound(ratio as int, FP_SCALE as int);
        lemma_div_mul_bounds(ratio as int, FP_SCALE as int);
        lemma_div_lt(ratio as int, FP_SCALE as int, FP_SCALE as int);
        assert(y * hi <= (FP_SCALE - 1) * (FP_SCALE - 1)) by (nonlinear_arith)
            requires
                0 <= y < FP_SCALE,
                0 <= hi < FP_SCALE,
        ;
        assert(y * lo <= (FP_SCALE - 1) * (FP_SCALE - 1)) by (nonlinear_arith)
            requires
                0 <= y < FP_SCALE,
                0 <= lo < FP_SCALE,
        ;
        lemma_div_mul_bounds(y as int * lo as int, FP_SCALE as int);
        lemma_div_lt(y as int * lo as int, FP_SCALE as int, FP_SCALE as int);
    }
    let d: u128 = (y as u128) * hi + ((y as u128) * lo) / FP_SCALE;
    proof {
        let frac: int = (y as int * lo as int) % FP_SCALE as int;
        lemma_fundamental_div_mod(y as int * lo as int, FP_SCALE as int);
        lemma_mod_bound(y as int * lo as int, FP_SCALE as int);
        assert(y as int * ratio as int == d * FP_SCALE + frac) by (nonlinear_arith)
            requires
                ratio == hi * FP_SCALE + lo,
                y as int * lo as int == FP_SCALE as int * ((y as int * lo as int)
                    / FP_SCALE as int) + frac,
                d == y * hi + (y as int * lo as int) / FP_SCALE as int,
        ;
        lemma_fundamental_div_mod_converse_div(
            y as int * ratio as int,
            FP_SCALE as int,
            d as int,
            frac,
        );
    }
    d
}

/// Divide `x` by a 64.64 fixed-point ratio, rounding down.
pub fn div_fp(x: u64, ratio: u128) -> (d: u128)
    requires
        ratio > 0,
    ensures
        d == (x as int * FP_SCALE as int) / ratio as int,
{
    (x as u128) * FP_SCALE / ratio
}

/// Integer square root by bisection, rounded down.
pub fn isqrt(n: u128) -> (r: u64)
    ensures
        is_isqrt(n as int, r as int),
        r == sqrt_floor(n as int),
{
    let mut lo: u128 = 0;
    let mut hi: u128 = FP_SCALE;
    proof {
        assert(n < FP_SCALE as int * FP_SCALE as int) by (nonlinear_arith)
            requires
                n <= u128::MAX,
                FP_SCALE as int * FP_SCALE as int == 0x100000000000000000000000000000000,
        ;
    }
    while hi - lo > 1
        invariant
            0 <= lo < hi <= FP_SCALE,
            lo * lo <= n,
            n < hi * hi,
        decreases hi - lo,
    {
        let mid: u128 = lo + (hi - lo) / 2;
        proof {
            assert(mid * mid <= (FP_SCALE - 1) * (FP_SCALE - 1)) by (nonlinear_arith)
                requires
                    0 <= mid <= FP_SCALE - 1,
            ;
        }
        if mid * mid <= n {
            lo = mid;
        } else {
            hi = mid;
        }
    }
    proof {
        assert(is_isqrt(n as int, lo as int));
        lemma_isqrt_unique(n as int, lo as int);
        assert(lo * lo < FP_SCALE as int * FP_SCALE as int);
        assert(lo < FP_SCALE) by (nonlinear_arith)
            requires
                lo * lo < FP_SCALE as int * FP_SCALE as int,
                0 <= lo,
        ;
    }
    lo as u64
}

} // verus!
