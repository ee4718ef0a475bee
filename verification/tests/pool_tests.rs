use amm::deposit::Deposit;
use amm::error::ErrorCode;
use amm::initialize::Initialize;
use amm::state::{check_pool, PoolState, MINIMUM_LIQUIDITY};
use amm::swap::Swap;

fn pool(fee: u16, locked: bool) -> PoolState {
    PoolState { seed: 7, authority: Some(42), mint_x: 1, mint_y: 2, fee, locked }
}

fn deposit_ctx(vault_x: u64, vault_y: u64, lp_supply: u64) -> Deposit {
    Deposit {
        pool_state: pool(30, false),
        depositor_x: 1_000_000,
        depositor_y: 1_000_000,
        depositor_lp: 0,
        vault_x,
        vault_y,
        lp_supply,
    }
}

fn swap_ctx(vault_x: u64, vault_y: u64, fee: u16) -> Swap {
    Swap {
        pool_state: pool(fee, false),
        trader_x: 1_000_000,
        trader_y: 1_000_000,
        vault_x,
        vault_y,
        lp_supply: 2000,
    }
}

#[test]
fn bootstrap_accepts_full_offer_and_withholds_minimum() {
    let mut d = deposit_ctx(0, 0, 0);
    let r = d.deposit(1000, 4000);
    assert_eq!(r, Ok((1000, 4000, 1900)));
    assert_eq!(d.vault_x, 1000);
    assert_eq!(d.vault_y, 4000);
    assert_eq!(d.lp_supply, 1900);
    assert_eq!(d.depositor_lp, 1900);
    assert_eq!(d.depositor_x, 999_000);
    assert_eq!(d.depositor_y, 996_000);
    assert_eq!(MINIMUM_LIQUIDITY, 100);
}

#[test]
fn proportional_deposit_limited_by_x() {
    let mut d = deposit_ctx(1000, 4000, 2000);
    let r = d.deposit(100, 1000);
    assert_eq!(r, Ok((100, 400, 200)));
    assert_eq!(d.vault_x, 1100);
    assert_eq!(d.vault_y, 4400);
    assert_eq!(d.lp_supply, 2200);
}

#[test]
fn proportional_deposit_limited_by_y() {
    let mut d = deposit_ctx(1000, 4000, 2000);
    let r = d.deposit(1000, 100);
    assert_eq!(r, Ok((25, 100, 50)));
    assert_eq!(d.vault_x, 1025);
    assert_eq!(d.vault_y, 4100);
}

#[test]
fn proportional_deposit_keeps_price() {
    let mut d = deposit_ctx(1000, 4000, 2000);
    let (ax, ay, _) = d.deposit(100, 1000).unwrap();
    // exact cross products: the accepted pair sits on the reserve ratio
    assert_eq!(ax as u128 * 4000, ay as u128 * 1000);
}

#[test]
fn deposit_clamps_to_held_balances() {
    let mut d = deposit_ctx(0, 0, 0);
    d.depositor_x = 300;
    d.depositor_y = 1200;
    let r = d.deposit(u64::MAX, u64::MAX);
    assert_eq!(r, Ok((300, 1200, 500)));
}

#[test]
fn bootstrap_below_minimum_liquidity_fails() {
    let mut d = deposit_ctx(0, 0, 0);
    let r = d.deposit(5, 5);
    assert_eq!(r, Err(ErrorCode::DepositTooSmall));
    assert_eq!(d.vault_x, 0);
    assert_eq!(d.vault_y, 0);
    assert_eq!(d.lp_supply, 0);
}

#[test]
fn bootstrap_exactly_at_minimum_issues_nothing() {
    let mut d = deposit_ctx(0, 0, 0);
    let r = d.deposit(100, 100);
    assert_eq!(r, Ok((100, 100, 0)));
    assert_eq!(d.lp_supply, 0);
}

#[test]
fn locked_pool_rejects_deposit_unchanged() {
    let mut d = deposit_ctx(1000, 4000, 2000);
    d.pool_state.locked = true;
    let before = (d.vault_x, d.vault_y, d.lp_supply, d.depositor_x, d.depositor_y);
    let r = d.deposit(100, 1000);
    assert_eq!(r, Err(ErrorCode::PoolLocked));
    assert_eq!(before, (d.vault_x, d.vault_y, d.lp_supply, d.depositor_x, d.depositor_y));
}

#[test]
fn locked_pool_rejects_swap_unchanged() {
    let mut s = swap_ctx(1000, 4000, 30);
    s.pool_state.locked = true;
    let r = s.swap_exact_tokens_for_tokens(true, 100, 0);
    assert_eq!(r, Err(ErrorCode::PoolLocked));
    assert_eq!((s.vault_x, s.vault_y), (1000, 4000));
    assert_eq!((s.trader_x, s.trader_y), (1_000_000, 1_000_000));
}

#[test]
fn swap_x_for_y_pays_constant_product_output() {
    let mut s = swap_ctx(1000, 4000, 30);
    // fee of 100 units at 30 bps rounds down to zero: the full input prices
    let r = s.swap_exact_tokens_for_tokens(true, 100, 0);
    assert_eq!(r, Ok(363));
    assert_eq!(s.vault_x, 1100);
    assert_eq!(s.vault_y, 4000 - 363);
    assert_eq!(s.trader_x, 1_000_000 - 100);
    assert_eq!(s.trader_y, 1_000_000 + 363);
}

#[test]
fn swap_fee_reduces_output() {
    let mut s = swap_ctx(1000, 4000, 30);
    let r = s.swap_exact_tokens_for_tokens(true, 1000, 0);
    // fee: floor(1000 * 30 / 10000) = 3, taxed input 997
    assert_eq!(r, Ok((997u128 * 4000 / (1000 + 997)) as u64));
    let mut s0 = swap_ctx(1000, 4000, 0);
    let r0 = s0.swap_exact_tokens_for_tokens(true, 1000, 0);
    assert_eq!(r0, Ok(2000));
    assert!(r.unwrap() < r0.unwrap());
}

#[test]
fn swap_slippage_floor_rejects_unchanged() {
    let mut s = swap_ctx(1000, 4000, 30);
    let r = s.swap_exact_tokens_for_tokens(true, 100, 400);
    assert_eq!(r, Err(ErrorCode::OutputTooSmall));
    assert_eq!((s.vault_x, s.vault_y), (1000, 4000));
    assert_eq!((s.trader_x, s.trader_y), (1_000_000, 1_000_000));
}

#[test]
fn swap_on_empty_pool_not_found() {
    let mut s = swap_ctx(1000, 4000, 30);
    s.lp_supply = 0;
    s.vault_x = 0;
    s.vault_y = 0;
    let r = s.swap_exact_tokens_for_tokens(true, 100, 0);
    assert_eq!(r, Err(ErrorCode::PoolNotFound));
    assert_eq!((s.vault_x, s.vault_y), (0, 0));
}

#[test]
fn swap_y_for_x_uses_mirror_formula() {
    let mut s = swap_ctx(1000, 4000, 30);
    let r = s.swap_exact_tokens_for_tokens(false, 400, 0);
    // fee: floor(400 * 30 / 10000) = 1, taxed 399
    assert_eq!(r, Ok((399u128 * 1000 / (4000 + 399)) as u64));
    assert_eq!(r, Ok(90));
    assert_eq!(s.vault_y, 4400);
    assert_eq!(s.vault_x, 910);
}

#[test]
fn swap_clamps_input_to_held_balance() {
    let mut s = swap_ctx(1000, 4000, 0);
    s.trader_x = 50;
    let r = s.swap_exact_tokens_for_tokens(true, 1_000_000, 0);
    assert_eq!(r, Ok((50u128 * 4000 / 1050) as u64));
    assert_eq!(s.trader_x, 0);
    assert_eq!(s.vault_x, 1050);
}

#[test]
fn swap_product_never_decreases() {
    for input in [1u64, 10, 99, 1000, 54321] {
        let mut s = swap_ctx(1000, 4000, 30);
        let before = s.vault_x as u128 * s.vault_y as u128;
        s.swap_exact_tokens_for_tokens(true, input, 0).unwrap();
        let after = s.vault_x as u128 * s.vault_y as u128;
        assert!(after >= before);
    }
}

#[test]
fn swap_output_monotone_in_input() {
    let mut prev: u64 = 0;
    for input in [1u64, 10, 100, 1000, 10000] {
        let mut s = swap_ctx(1000, 4000, 30);
        let out = s.swap_exact_tokens_for_tokens(true, input, 0).unwrap();
        assert!(out >= prev);
        prev = out;
    }
}

#[test]
fn swap_output_antitone_in_fee() {
    let mut prev: u64 = u64::MAX;
    for fee in [0u16, 30, 100, 1000, 9999] {
        let mut s = swap_ctx(1000, 4000, fee);
        let out = s.swap_exact_tokens_for_tokens(true, 1000, 0).unwrap();
        assert!(out <= prev);
        prev = out;
    }
}

#[test]
fn deposit_token_insufficient_balance_fails() {
    let mut d = deposit_ctx(1000, 4000, 2000);
    d.depositor_x = 10;
    let r = d.deposit_token(true, 11);
    assert_eq!(r, Err(ErrorCode::DepositToPoolFailed));
    assert_eq!(d.depositor_x, 10);
    assert_eq!(d.vault_x, 1000);
}

#[test]
fn deposit_token_moves_balances() {
    let mut d = deposit_ctx(1000, 4000, 2000);
    assert_eq!(d.deposit_token(false, 250), Ok(()));
    assert_eq!(d.vault_y, 4250);
    assert_eq!(d.depositor_y, 999_750);
}

#[test]
fn mint_lp_overflow_fails_unchanged() {
    let mut d = deposit_ctx(1000, 4000, u64::MAX - 5);
    let r = d.mint_lp(6);
    assert_eq!(r, Err(ErrorCode::DepositToPoolFailed));
    assert_eq!(d.lp_supply, u64::MAX - 5);
    assert_eq!(d.depositor_lp, 0);
}

#[test]
fn swap_token_reports_failing_side() {
    let mut s = swap_ctx(1000, 4000, 30);
    s.trader_x = 10;
    assert_eq!(s.swap_token(true, 11, 1), Err(ErrorCode::SwapInFailed));
    assert_eq!((s.trader_x, s.vault_x), (10, 1000));
    let mut s2 = swap_ctx(1000, 4000, 30);
    assert_eq!(s2.swap_token(true, 10, 4001), Err(ErrorCode::SwapOutFailed));
    assert_eq!((s2.trader_x, s2.vault_x, s2.vault_y), (1_000_000, 1000, 4000));
}

#[test]
fn initialize_creates_unlocked_record() {
    let mut ctx = Initialize {
        mint_x: 11,
        mint_y: 22,
        pool_state: pool(0, true),
    };
    ctx.initialize(99, 30, None);
    assert_eq!(ctx.pool_state.seed, 99);
    assert_eq!(ctx.pool_state.fee, 30);
    assert_eq!(ctx.pool_state.authority, None);
    assert_eq!(ctx.pool_state.mint_x, 11);
    assert_eq!(ctx.pool_state.mint_y, 22);
    assert!(!ctx.pool_state.locked);
}

#[test]
fn guard_decides_in_check_order() {
    let locked = pool(30, true);
    assert_eq!(check_pool(&locked, 0, true), Err(ErrorCode::PoolLocked));
    assert_eq!(check_pool(&locked, 0, false), Err(ErrorCode::PoolLocked));
    let open = pool(30, false);
    assert_eq!(check_pool(&open, 0, true), Err(ErrorCode::PoolNotFound));
    assert_eq!(check_pool(&open, 0, false), Ok(()));
    assert_eq!(check_pool(&open, 1, true), Ok(()));
}

#[test]
fn full_redemption_cannot_drain_reserves() {
    // bootstrap, then redeem every issued share against the total share
    // value (issued plus the withheld minimum): strictly less than each
    // reserve comes out
    let mut d = deposit_ctx(0, 0, 0);
    let (ax, ay, minted) = d.deposit(1000, 4000).unwrap();
    let total = minted as u128 + MINIMUM_LIQUIDITY as u128;
    let out_x = ax as u128 * minted as u128 / total;
    let out_y = ay as u128 * minted as u128 / total;
    assert!(out_x < ax as u128);
    assert!(out_y < ay as u128);
}
