// The engine's ratio, product and square-root arithmetic is specified as
// exact integer formulas over the 64.64 fixed-point scale. These tests
// hold that arithmetic against a mainstream binary fixed-point
// implementation of the same 64.64 layout, step for step: same ratio,
// same matched amounts, same swap output, same share value.

use amm::math::{div_fp, isqrt, mul_fp, ratio_fp, swap_output, FP_SCALE};
use fixed::types::I64F64;

fn fixed_ratio(rx: u64, ry: u64) -> I64F64 {
    I64F64::from_num(rx).checked_div(I64F64::from_num(ry)).unwrap()
}

#[test]
fn ratio_matches_fixed_division() {
    for (rx, ry) in [(1000u64, 4000u64), (7, 3), (1, 999_999_937), (123_456_789, 1), (5, 5)] {
        let ours = ratio_fp(rx, ry);
        let theirs = fixed_ratio(rx, ry);
        assert_eq!(ours, theirs.to_bits() as u128, "ratio {rx}/{ry}");
    }
    assert_eq!(ratio_fp(1, 4), FP_SCALE / 4);
}

#[test]
fn matched_x_amount_matches_fixed_multiply() {
    for (y, rx, ry) in [
        (1000u64, 1000u64, 4000u64),
        (1000, 7, 3),
        (123_456, 999, 1001),
        (0, 5, 7),
        (1, 1_000_000, 3),
    ] {
        let ours = mul_fp(y, ratio_fp(rx, ry));
        let theirs = I64F64::from_num(y)
            .checked_mul(fixed_ratio(rx, ry))
            .unwrap()
            .to_num::<u64>();
        assert_eq!(ours, theirs as u128, "delta_x for y={y} at {rx}/{ry}");
    }
}

#[test]
fn matched_y_amount_matches_fixed_divide() {
    for (x, rx, ry) in [
        (100u64, 1000u64, 4000u64),
        (1000, 7, 3),
        (123_456, 999, 1001),
        (0, 5, 7),
        (31, 3, 1_000_000),
    ] {
        let ours = div_fp(x, ratio_fp(rx, ry));
        let theirs = I64F64::from_num(x)
            .checked_div(fixed_ratio(rx, ry))
            .unwrap()
            .to_num::<u64>();
        assert_eq!(ours, theirs as u128, "delta_y for x={x} at {rx}/{ry}");
    }
}

#[test]
fn share_value_matches_fixed_sqrt() {
    for (x, y) in [(1000u64, 4000u64), (1, 1), (2, 3), (123_456, 654_321), (99_999, 99_999)] {
        let ours = isqrt(x as u128 * y as u128);
        let theirs = I64F64::from_num(x)
            .checked_mul(I64F64::from_num(y))
            .unwrap()
            .sqrt()
            .to_num::<u64>();
        assert_eq!(ours, theirs, "sqrt of {x}*{y}");
    }
    assert_eq!(isqrt(0), 0);
    assert_eq!(isqrt(u128::MAX), u64::MAX);
}

#[test]
fn swap_output_matches_fixed_formula() {
    for (taxed, r_in, r_out) in [
        (99u64, 1000u64, 4000u64),
        (100, 1000, 4000),
        (997, 1000, 4000),
        (1, 1, 1),
        (54_321, 12_345, 67_890),
    ] {
        let ours = swap_output(taxed, r_in, r_out);
        let theirs = I64F64::from_num(taxed)
            .checked_mul(I64F64::from_num(r_out))
            .unwrap()
            .checked_div(
                I64F64::from_num(r_in).checked_add(I64F64::from_num(taxed)).unwrap(),
            )
            .unwrap()
            .to_num::<u64>();
        assert_eq!(ours, theirs, "output for {taxed} at {r_in}/{r_out}");
    }
}
