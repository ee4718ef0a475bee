use vstd::prelude::*;
use vstd::arithmetic::div_mod::lemma_div_is_ordered;
use crate::math::{
    taxed_of, fee_of, swap_output_of, delta_x_of, delta_y_of, ratio_of, FP_SCALE,
    lemma_div_mul_bounds, lemma_le_div, lemma_frac_le, lemma_isqrt_exists, is_isqrt,
};
use crate::state::MINIMUM_LIQUIDITY;
use crate::deposit::Deposit;

verus! {

/// The fee-adjusted constant product never decreases across a successful
/// swap: with `input` units paid in (of which only the taxed part prices
/// the trade) and the computed output paid out, the product of the two
/// reserves after the trade is at least the product before it.
pub proof fn lemma_swap_product_nondecreasing(input: int, fee: int, r_in: int, r_out: int)
    requires
        0 <= fee < 10000,
        0 < r_in,
        0 < r_out,
        0 <= input,
    ensures
        0 <= taxed_of(input, fee) <= input,
        0 <= swap_output_of(taxed_of(input, fee), r_in, r_out) <= r_out,
        (r_in + input) * (r_out - swap_output_of(taxed_of(input, fee), r_in, r_out)) >= r_in
            * r_out,
{
    let t: int = taxed_of(input, fee);
    lemma_div_mul_bounds(input * fee, 10000);
    assert(input * fee <= input * 10000) by (nonlinear_arith)
        requires
            0 <= input,
            0 <= fee < 10000,
    ;
    lemma_div_is_ordered(input * fee, input * 10000, 10000);
    assert((input * 10000) / 10000 == input) by (nonlinear_arith)
        requires
            0 <= input,
    ;
    assert(0 <= t <= input);
    let out: int = swap_output_of(t, r_in, r_out);
    assert(0 <= t * r_out) by (nonlinear_arith)
        requires
            0 <= t,
            0 <= r_out,
    ;
    lemma_div_mul_bounds(t * r_out, r_in + t);
    assert(out * (r_in + t) <= t * r_out);
    assert(out <= r_out) by (nonlinear_arith)
        requires
            out * (r_in + t) <= t * r_out,
            0 <= t,
            0 < r_in,
            0 <= out,
            0 < r_out,
    ;
    assert((r_in + t) * (r_out - out) >= r_in * r_out) by (nonlinear_arith)
        requires
            out * (r_in + t) <= t * r_out,
            0 < r_in + t,
    ;
    assert((r_in + input) * (r_out - out) >= (r_in + t) * (r_out - out)) by (nonlinear_arith)
        requires
            t <= input,
            0 <= r_out - out,
    ;
}

/// The fee deduction keeps the taxed input between zero and the input.
pub proof fn lemma_taxed_bounds(input: int, fee: int)
    requires
        0 <= input,
        0 <= fee < 10000,
    ensures
        0 <= taxed_of(input, fee) <= input,
{
    lemma_div_mul_bounds(input * fee, 10000);
    assert(input * fee <= input * 10000) by (nonlinear_arith)
        requires
            0 <= input,
            0 <= fee < 10000,
    ;
    lemma_div_is_ordered(input * fee, input * 10000, 10000);
    assert((input * 10000) / 10000 == input) by (nonlinear_arith)
        requires
            0 <= input,
    ;
}

/// A larger input never pays a smaller taxed input: the fee, rounded
/// down, cannot grow faster than the input itself.
pub proof fn lemma_taxed_monotone_in_input(i1: int, i2: int, fee: int)
    requires
        0 <= i1 <= i2,
        0 <= fee < 10000,
    ensures
        taxed_of(i1, fee) <= taxed_of(i2, fee),
{
    let q1: int = fee_of(i1, fee);
    let q2: int = fee_of(i2, fee);
    lemma_div_mul_bounds(i1 * fee, 10000);
    lemma_div_mul_bounds(i2 * fee, 10000);
    assert((q2 - q1) * 10000 < (i2 - i1 + 1) * 10000) by (nonlinear_arith)
        requires
            q2 * 10000 <= i2 * fee,
            i1 * fee - 10000 < q1 * 10000,
            i1 <= i2,
            0 <= i1,
            0 <= fee < 10000,
    ;
    assert(q2 - q1 < i2 - i1 + 1) by (nonlinear_arith)
        requires
            (q2 - q1) * 10000 < (i2 - i1 + 1) * 10000,
    ;
}

/// The curve's output never shrinks when the taxed input grows.
pub proof fn lemma_output_monotone_in_taxed(t1: int, t2: int, r_in: int, r_out: int)
    requires
        0 <= t1 <= t2,
        0 < r_in,
        0 <= r_out,
    ensures
        swap_output_of(t1, r_in, r_out) <= swap_output_of(t2, r_in, r_out),
{
    assert((t1 * r_out) * (r_in + t2) <= (t2 * r_out) * (r_in + t1)) by (nonlinear_arith)
        requires
            0 <= t1 <= t2,
            0 < r_in,
            0 <= r_out,
    ;
    assert(0 <= t1 * r_out) by (nonlinear_arith)
        requires
            0 <= t1,
            0 <= r_out,
    ;
    assert(0 <= t2 * r_out) by (nonlinear_arith)
        requires
            0 <= t2,
            0 <= r_out,
    ;
    lemma_frac_le(t1 * r_out, r_in + t1, t2 * r_out, r_in + t2);
}

/// Swap output is monotone in the input amount, holding the direction,
/// the fee and the reserves fixed: offering more input never yields less
/// output. (Rounding down can leave the output equal for nearby inputs,
/// so the growth is not strict step by step.)
pub proof fn lemma_swap_output_monotone_in_input(i1: int, i2: int, fee: int, r_in: int, r_out: int)
    requires
        0 <= i1 <= i2,
        0 <= fee < 10000,
        0 < r_in,
        0 <= r_out,
    ensures
        swap_output_of(taxed_of(i1, fee), r_in, r_out) <= swap_output_of(
            taxed_of(i2, fee),
            r_in,
            r_out,
        ),
{
    lemma_taxed_bounds(i1, fee);
    lemma_taxed_monotone_in_input(i1, i2, fee);
    lemma_output_monotone_in_taxed(taxed_of(i1, fee), taxed_of(i2, fee), r_in, r_out);
}

/// Swap output is antitone in the fee rate, holding everything else
/// fixed: a higher fee never yields more output. (Rounding down can
/// leave the output equal for nearby rates, so the fall is not strict
/// step by step.)
pub proof fn lemma_swap_output_antitone_in_fee(input: int, f1: int, f2: int, r_in: int, r_out: int)
    requires
        0 <= input,
        0 <= f1 <= f2 < 10000,
        0 < r_in,
        0 <= r_out,
    ensures
        swap_output_of(taxed_of(input, f2), r_in, r_out) <= swap_output_of(
            taxed_of(input, f1),
            r_in,
            r_out,
        ),
{
    assert(input * f1 <= input * f2) by (nonlinear_arith)
        requires
            0 <= input,
            f1 <= f2,
    ;
    lemma_div_is_ordered(input * f1, input * f2, 10000);
    lemma_taxed_bounds(input, f2);
    lemma_output_monotone_in_taxed(taxed_of(input, f2), taxed_of(input, f1), r_in, r_out);
}

/// Multiplying by the fixed-point pool ratio stays within one rounding
/// step of the exact ratio: the matched X amount for `cy` units of Y
/// under-shoots `cy * rx / ry` by less than `1 + cy / FP_SCALE` units
/// and never overshoots it.
pub proof fn lemma_ratio_mul_bounds(cy: int, rx: int, ry: int)
    requires
        0 <= cy,
        0 < rx,
        0 < ry,
    ensures
        delta_x_of(cy, rx, ry) * ry <= cy * rx,
        cy * rx <= delta_x_of(cy, rx, ry) * ry + ry + (cy * ry) / FP_SCALE as int,
{
    let s: int = FP_SCALE as int;
    let r: int = ratio_of(rx, ry);
    let dx: int = delta_x_of(cy, rx, ry);
    lemma_div_mul_bounds(rx * s, ry);
    assert(0 <= cy * r) by (nonlinear_arith)
        requires
            0 <= cy,
            0 <= r,
    ;
    lemma_div_mul_bounds(cy * r, s);
    assert(dx * ry * s <= cy * rx * s) by (nonlinear_arith)
        requires
            dx * s <= cy * r,
            r * ry <= rx * s,
            0 < ry,
            0 <= cy,
            0 < s,
    ;
    assert(dx * ry <= cy * rx) by (nonlinear_arith)
        requires
            dx * ry * s <= cy * rx * s,
            0 < s,
    ;
    let k: int = cy * rx - dx * ry - ry;
    assert(s * k < cy * ry) by (nonlinear_arith)
        requires
            k == cy * rx - dx * ry - ry,
            cy * r - s < dx * s,
            rx * s - ry < r * ry,
            0 <= cy,
            0 < ry,
            0 < s,
    ;
    assert(0 <= cy * ry) by (nonlinear_arith)
        requires
            0 <= cy,
            0 < ry,
    ;
    lemma_div_mul_bounds(cy * ry, s);
    let q: int = (cy * ry) / s;
    assert(k <= q) by (nonlinear_arith)
        requires
            s * k < cy * ry,
            cy * ry - s < q * s,
            0 < s,
    ;
}

/// Dividing by the fixed-point pool ratio stays within one rounding step
/// of the exact inverse ratio: the matched Y amount for `cx` units of X
/// never falls a full unit short of `cx * ry / rx` and overshoots it by
/// less than `1 + dy / FP_SCALE` units.
pub proof fn lemma_ratio_div_bounds(cx: int, rx: int, ry: int)
    requires
        0 <= cx,
        0 < rx,
        0 < ry,
        ry < FP_SCALE as int,
    ensures
        cx * ry < delta_y_of(cx, rx, ry) * rx + rx,
        delta_y_of(cx, rx, ry) * rx <= cx * ry + (delta_y_of(cx, rx, ry) * ry) / FP_SCALE as int,
{
    let s: int = FP_SCALE as int;
    let r: int = ratio_of(rx, ry);
    let dy: int = delta_y_of(cx, rx, ry);
    lemma_div_mul_bounds(rx * s, ry);
    assert(1 * ry <= rx * s) by (nonlinear_arith)
        requires
            0 < ry,
            ry < s,
            1 <= rx,
    ;
    lemma_le_div(rx * s, 1, ry);
    assert(0 <= cx * s) by (nonlinear_arith)
        requires
            0 <= cx,
            0 < s,
    ;
    lemma_div_mul_bounds(cx * s, r);
    assert((dy + 1) * r * ry <= (dy + 1) * rx * s) by (nonlinear_arith)
        requires
            r * ry <= rx * s,
            0 <= dy,
    ;
    assert(cx * s * ry < (dy + 1) * rx * s) by (nonlinear_arith)
        requires
            cx * s - r < dy * r,
            (dy + 1) * r * ry <= (dy + 1) * rx * s,
            0 < ry,
            0 < r,
    ;
    assert(cx * ry < (dy + 1) * rx) by (nonlinear_arith)
        requires
            cx * s * ry < (dy + 1) * rx * s,
            0 < s,
    ;
    assert(cx * ry < dy * rx + rx) by (nonlinear_arith)
        requires
            cx * ry < (dy + 1) * rx,
    ;
    let k: int = dy * rx - cx * ry;
    assert(s * k <= dy * ry) by (nonlinear_arith)
        requires
            k == dy * rx - cx * ry,
            dy * r <= cx * s,
            rx * s - ry < r * ry,
            0 <= dy,
            0 < ry,
            0 < s,
    ;
    assert(0 <= dy * ry) by (nonlinear_arith)
        requires
            0 <= dy,
            0 < ry,
    ;
    lemma_div_mul_bounds(dy * ry, s);
    let q: int = (dy * ry) / s;
    assert(k <= q) by (nonlinear_arith)
        requires
            s * k <= dy * ry,
            dy * ry - s < q * s,
            0 < s,
    ;
}

/// A proportional deposit preserves the reserve ratio within integer
/// rounding: whichever asset limits the contribution, the accepted pair
/// `(ax, ay)` satisfies `ax / ay == rx / ry` up to one unit of X, one
/// unit of Y, and the fixed-point representation's own granularity
/// `ay * ry / FP_SCALE`, stated here as cross-product bounds.
pub proof fn lemma_deposit_preserves_ratio(d: Deposit, max_x: u64, max_y: u64)
    requires
        d.wf(),
        !d.is_bootstrap(),
    ensures
        d.accepted_x(max_x, max_y) * d.vault_y <= d.accepted_y(max_x, max_y) * d.vault_x
            + d.vault_x,
        d.accepted_y(max_x, max_y) * d.vault_x <= d.accepted_x(max_x, max_y) * d.vault_y
            + d.vault_y + (d.accepted_y(max_x, max_y) * d.vault_y) / FP_SCALE as int,
{
    let rx: int = d.vault_x as int;
    let ry: int = d.vault_y as int;
    let cx: int = d.clamped_x(max_x);
    let cy: int = d.clamped_y(max_y);
    let ax: int = d.accepted_x(max_x, max_y);
    let ay: int = d.accepted_y(max_x, max_y);
    if d.y_is_limiting(max_x, max_y) {
        lemma_ratio_mul_bounds(cy, rx, ry);
        assert(ax * ry <= ay * rx);
    } else {
        lemma_ratio_div_bounds(cx, rx, ry);
        assert(0 <= (ay * ry) / FP_SCALE as int) by {
            assert(0 <= ay * ry) by (nonlinear_arith)
                requires
                    0 <= ay,
                    0 <= ry,
            ;
            lemma_div_mul_bounds(ay * ry, FP_SCALE as int);
        }
    }
}

/// After bootstrap the issued share supply trails the pool's total share
/// value by the permanently withheld `MINIMUM_LIQUIDITY`, and later
/// deposits grow supply and value alike; so redeeming every issued share
/// against that total — paying `floor(reserve * holder / total)` —
/// always returns strictly less than either reserve: no sequence of
/// deposits followed by a full redemption can empty the pool.
pub proof fn lemma_drain_resistance(reserve: int, holder_shares: int, total_shares: int)
    requires
        0 < reserve,
        0 <= holder_shares,
        holder_shares + MINIMUM_LIQUIDITY as int <= total_shares,
    ensures
        (reserve * holder_shares) / total_shares < reserve,
{
    assert(0 <= reserve * holder_shares) by (nonlinear_arith)
        requires
            0 < reserve,
            0 <= holder_shares,
    ;
    lemma_div_mul_bounds(reserve * holder_shares, total_shares);
    let q: int = (reserve * holder_shares) / total_shares;
    assert(q * total_shares <= reserve * holder_shares);
    assert(!(q >= reserve)) by {
        if q >= reserve {
            assert(reserve * total_shares <= q * total_shares) by (nonlinear_arith)
                requires
                    reserve <= q,
                    0 < total_shares,
            ;
            assert(reserve * holder_shares < reserve * total_shares) by (nonlinear_arith)
                requires
                    holder_shares < total_shares,
                    0 < reserve,
            ;
        }
    }
}

/// A bootstrap deposit leaves the pool drain-resistant from its first
/// block: both reserves it creates are positive, and redeeming every
/// share it issued against the total share value — issued plus the
/// withheld minimum — returns strictly less than either reserve. Later
/// deposits mint exactly their added share value, so the withheld margin
/// persists and the same redemption bound holds ever after.
pub proof fn lemma_bootstrap_redemption_cannot_drain(d: Deposit, max_x: u64, max_y: u64)
    requires
        d.wf(),
        d.is_bootstrap(),
        d.deposit_ok(max_x, max_y),
    ensures
        d.accepted_x(max_x, max_y) > 0,
        d.accepted_y(max_x, max_y) > 0,
        (d.accepted_x(max_x, max_y) * d.shares_minted(max_x, max_y)) / (d.shares_minted(
            max_x,
            max_y,
        ) + MINIMUM_LIQUIDITY as int) < d.accepted_x(max_x, max_y),
        (d.accepted_y(max_x, max_y) * d.shares_minted(max_x, max_y)) / (d.shares_minted(
            max_x,
            max_y,
        ) + MINIMUM_LIQUIDITY as int) < d.accepted_y(max_x, max_y),
{
    let ax: int = d.accepted_x(max_x, max_y);
    let ay: int = d.accepted_y(max_x, max_y);
    let value: int = d.shares_value(max_x, max_y);
    let minted: int = d.shares_minted(max_x, max_y);
    assert(0 <= ax * ay) by (nonlinear_arith)
        requires
            0 <= ax,
            0 <= ay,
    ;
    lemma_isqrt_exists(ax * ay);
    assert(value * value <= ax * ay);
    assert(ax > 0 && ay > 0) by (nonlinear_arith)
        requires
            value * value <= ax * ay,
            value >= 100,
            0 <= ax,
            0 <= ay,
    ;
    assert(minted + MINIMUM_LIQUIDITY as int == value);
    lemma_drain_resistance(ax, minted, value);
    lemma_drain_resistance(ay, minted, value);
}

} // verus!
