use vstd::prelude::*;
use crate::error::ErrorCode;
use crate::state::{PoolState, MINIMUM_LIQUIDITY, check_pool};
use crate::math::{
    ratio_fp, mul_fp, div_fp, isqrt, delta_x_of, delta_y_of, sqrt_floor, FP_SCALE,
    lemma_div_mul_bounds, lemma_div_lt,
};

verus! {

/// Call context of the deposit operation: the pool record together with a
/// snapshot of every ledger balance the operation may touch. The custody
/// layer fills the snapshot in and applies the resulting movements.
pub struct Deposit {
    /// The pool record.
    pub pool_state: PoolState,
    /// The depositor's balance of asset X.
    pub depositor_x: u64,
    /// The depositor's balance of asset Y.
    pub depositor_y: u64,
    /// The depositor's balance of the pool-share asset.
    pub depositor_lp: u64,
    /// The pool vault's balance of asset X (the live X reserve).
    pub vault_x: u64,
    /// The pool vault's balance of asset Y (the live Y reserve).
    pub vault_y: u64,
    /// Total issued supply of the pool-share asset.
    pub lp_supply: u64,
}

impl Deposit {
    /// Well-formedness of the snapshot: the fee is a valid rate, reserves
    /// are either both empty (before bootstrap) or both positive, the
    /// balances of each asset sum within the asset's total supply, and no
    /// holder owns more shares than were ever issued.
    pub open spec fn wf(self) -> bool {
        &&& self.pool_state.wf()
        &&& (self.vault_x == 0 <==> self.vault_y == 0)
        &&& self.depositor_x + self.vault_x <= u64::MAX
        &&& self.depositor_y + self.vault_y <= u64::MAX
        &&& self.depositor_lp <= self.lp_supply
    }

    /// True before the first liquidity was ever contributed.
    pub open spec fn is_bootstrap(self) -> bool {
        self.vault_x == 0 && self.vault_y == 0
    }

    /// The X contribution actually considered: never more than held.
    pub open spec fn clamped_x(self, max_x: u64) -> int {
        if max_x as int > self.depositor_x as int {
            self.depositor_x as int
        } else {
            max_x as int
        }
    }

    /// The Y contribution actually considered: never more than held.
    pub open spec fn clamped_y(self, max_y: u64) -> int {
        if max_y as int > self.depositor_y as int {
            self.depositor_y as int
        } else {
            max_y as int
        }
    }

    /// Whether Y is the limiting asset: the X amount that matches the full
    /// clamped Y offer at the pool ratio still fits the clamped X offer.
    pub open spec fn y_is_limiting(self, max_x: u64, max_y: u64) -> bool {
        delta_x_of(self.clamped_y(max_y), self.vault_x as int, self.vault_y as int)
            <= self.clamped_x(max_x)
    }

    /// The X amount the engine accepts.
    pub open spec fn accepted_x(self, max_x: u64, max_y: u64) -> int {
        if self.is_bootstrap() {
            self.clamped_x(max_x)
        } else if self.y_is_limiting(max_x, max_y) {
            delta_x_of(self.clamped_y(max_y), self.vault_x as int, self.vault_y as int)
        } else {
            self.clamped_x(max_x)
        }
    }

    /// The Y amount the engine accepts.
    pub open spec fn accepted_y(self, max_x: u64, max_y: u64) -> int {
        if self.is_bootstrap() {
            self.clamped_y(max_y)
        } else if self.y_is_limiting(max_x, max_y) {
            self.clamped_y(max_y)
        } else {
            delta_y_of(self.clamped_x(max_x), self.vault_x as int, self.vault_y as int)
        }
    }

    /// Total share value of the accepted contribution.
    pub open spec fn shares_value(self, max_x: u64, max_y: u64) -> int {
        sqrt_floor(self.accepted_x(max_x, max_y) * self.accepted_y(max_x, max_y))
    }

    /// The shares actually issued to the depositor: on bootstrap the
    /// minimum liquidity is permanently withheld.
    pub open spec fn shares_minted(self, max_x: u64, max_y: u64) -> int {
        if self.is_bootstrap() {
            self.shares_value(max_x, max_y) - MINIMUM_LIQUIDITY as int
        } else {
            self.shares_value(max_x, max_y)
        }
    }

    /// Exactly when the deposit succeeds: the guard passes, a bootstrap
    /// contribution reaches the minimum-liquidity floor, and the issued
    /// shares fit the share asset's supply.
    pub open spec fn deposit_ok(self, max_x: u64, max_y: u64) -> bool {
        &&& !self.pool_state.locked
        &&& self.is_bootstrap() ==> self.shares_value(max_x, max_y) >= MINIMUM_LIQUIDITY as int
        &&& self.lp_supply + self.shares_minted(max_x, max_y) <= u64::MAX
    }

    /// The error a failing deposit reports, in the order the checks run.
    pub open spec fn deposit_err(self, max_x: u64, max_y: u64) -> ErrorCode {
        if self.pool_state.locked {
            ErrorCode::PoolLocked
        } else if self.is_bootstrap() && self.shares_value(max_x, max_y) < MINIMUM_LIQUIDITY as int {
            ErrorCode::DepositTooSmall
        } else {
            ErrorCode::DepositToPoolFailed
        }
    }

    /// The transfer of `amount` into the pool can be applied.
    pub open spec fn deposit_in_ok(self, is_x: bool, amount: u64) -> bool {
        if is_x {
            amount <= self.depositor_x && self.vault_x + amount <= u64::MAX
        } else {
            amount <= self.depositor_y && self.vault_y + amount <= u64::MAX
        }
    }

    /// The share mint of `amount` can be applied.
    pub open spec fn mint_ok(self, amount: u64) -> bool {
        &&& self.lp_supply + amount <= u64::MAX
        &&& self.depositor_lp + amount <= u64::MAX
    }

    /// Accepts as much of the offered `(max_x, max_y)` as the depositor
    /// holds and the pool ratio allows, moves it into the vaults, and
    /// mints the matching shares; or rejects with no movement at all.
    /// Returns the accepted amounts and the shares issued.
    ///
    /// On an empty pool the clamped offer is taken as is and sets the
    /// initial price; `MINIMUM_LIQUIDITY` of its share value is withheld
    /// for good. Otherwise the accepted pair is the largest one within
    /// the offer that preserves the reserve ratio, so a deposit never
    /// moves the pool's price.
    pub fn deposit(&mut self, max_x: u64, max_y: u64) -> (r: Result<(u64, u64, u64), ErrorCode>)
        requires
            old(self).wf(),
        ensures
            final(self).wf(),
            final(self).pool_state == old(self).pool_state,
            old(self).deposit_ok(max_x, max_y) ==> ({
                let ax = old(self).accepted_x(max_x, max_y);
                let ay = old(self).accepted_y(max_x, max_y);
                let minted = old(self).shares_minted(max_x, max_y);
                &&& r == Ok::<(u64, u64, u64), ErrorCode>((ax as u64, ay as u64, minted as u64))
                &&& final(self).vault_x == old(self).vault_x + ax
                &&& final(self).depositor_x == old(self).depositor_x - ax
                &&& final(self).vault_y == old(self).vault_y + ay
                &&& final(self).depositor_y == old(self).depositor_y - ay
                &&& final(self).lp_supply == old(self).lp_supply + minted
                &&& final(self).depositor_lp == old(self).depositor_lp + minted
            }),
            !old(self).deposit_ok(max_x, max_y) ==> r == Err::<(u64, u64, u64), ErrorCode>(
                old(self).deposit_err(max_x, max_y),
            ) && *final(self) == *old(self),
    {
        if let Err(e) = check_pool(&self.pool_state, self.lp_supply, false) {
            return Err(e);
        }
        let x0: u64 = if max_x > self.depositor_x {
            self.depositor_x
        } else {
            max_x
        };
        let y0: u64 = if max_y > self.depositor_y {
            self.depositor_y
        } else {
            max_y
        };
        let pool_creation: bool = self.vault_x == 0 && self.vault_y == 0;
        let (x, y): (u64, u64) = if pool_creation {
            (x0, y0)
        } else {
            let ratio: u128 = ratio_fp(self.vault_x, self.vault_y);
            let dx: u128 = mul_fp(y0, ratio);
            if dx <= x0 as u128 {
                (dx as u64, y0)
            } else {
                let dy: u128 = div_fp(x0, ratio);
                proof {
                    lemma_div_mul_bounds(y0 as int * ratio as int, FP_SCALE as int);
                    assert((x0 + 1) * FP_SCALE as int <= (y0 as int * ratio as int)
                        / FP_SCALE as int * FP_SCALE as int) by (nonlinear_arith)
                        requires
                            x0 as int + 1 <= (y0 as int * ratio as int) / FP_SCALE as int,
                            FP_SCALE as int > 0,
                    ;
                    assert((x0 as int) * (FP_SCALE as int) < (y0 as int) * (ratio as int));
                    lemma_div_lt(x0 as int * FP_SCALE as int, y0 as int, ratio as int);
                }
                (x0, dy as u64)
            }
        };
        proof {
            assert(x as int == self.accepted_x(max_x, max_y));
            assert(y as int == self.accepted_y(max_x, max_y));
            assert(x as int * y as int <= u64::MAX as int * u64::MAX as int)
                by (nonlinear_arith)
                requires
                    0 <= x <= u64::MAX,
                    0 <= y <= u64::MAX,
            ;
        }
        let shares: u64 = isqrt((x as u128) * (y as u128));
        let minted: u64 = if pool_creation {
            if shares < MINIMUM_LIQUIDITY {
                return Err(ErrorCode::DepositTooSmall);
            }
            shares - MINIMUM_LIQUIDITY
        } else {
            shares
        };
        if minted > u64::MAX - self.lp_supply {
            return Err(ErrorCode::DepositToPoolFailed);
        }
        proof {
            if pool_creation {
                assert(shares * shares <= x as int * y as int);
                assert(x > 0 && y > 0) by (nonlinear_arith)
                    requires
                        shares as int * shares as int <= x as int * y as int,
                        shares >= 100,
                        0 <= x,
                        0 <= y,
                ;
            }
        }
        let ghost pre: Deposit = *self;
        let r1: Result<(), ErrorCode> = self.deposit_token(true, x);
        proof {
            assert(r1 == Ok::<(), ErrorCode>(()));
        }
        let r2: Result<(), ErrorCode> = self.deposit_token(false, y);
        proof {
            assert(r2 == Ok::<(), ErrorCode>(()));
        }
        let r3: Result<(), ErrorCode> = self.mint_lp(minted);
        proof {
            assert(r3 == Ok::<(), ErrorCode>(()));
        }
        Ok((x, y, minted))
    }

    /// Applies the transfer of `amount` units of one asset from the
    /// depositor to the matching vault. A movement the ledger would
    /// refuse reports `DepositToPoolFailed` and moves nothing.
    pub fn deposit_token(&mut self, is_x: bool, amount: u64) -> (r: Result<(), ErrorCode>)
        ensures
            final(self).pool_state == old(self).pool_state,
            final(self).lp_supply == old(self).lp_supply,
            final(self).depositor_lp == old(self).depositor_lp,
            is_x ==> final(self).depositor_y == old(self).depositor_y && final(self).vault_y
                == old(self).vault_y,
            !is_x ==> final(self).depositor_x == old(self).depositor_x && final(self).vault_x
                == old(self).vault_x,
            old(self).deposit_in_ok(is_x, amount) ==> ({
                &&& r == Ok::<(), ErrorCode>(())
                &&& is_x ==> final(self).vault_x == old(self).vault_x + amount
                    && final(self).depositor_x == old(self).depositor_x - amount
                &&& !is_x ==> final(self).vault_y == old(self).vault_y + amount
                    && final(self).depositor_y == old(self).depositor_y - amount
            }),
            !old(self).deposit_in_ok(is_x, amount) ==> r == Err::<(), ErrorCode>(
                ErrorCode::DepositToPoolFailed,
            ) && *final(self) == *old(self),
    {
        let ok: bool = if is_x {
            amount <= self.depositor_x && amount <= u64::MAX - self.vault_x
        } else {
            amount <= self.depositor_y && amount <= u64::MAX - self.vault_y
        };
        if !ok {
            return Err(ErrorCode::DepositToPoolFailed);
        }
        if is_x {
            self.depositor_x = self.depositor_x - amount;
            self.vault_x = self.vault_x + amount;
        } else {
            self.depositor_y = self.depositor_y - amount;
            self.vault_y = self.vault_y + amount;
        }
        Ok(())
    }

    /// Mints `amount` share units to the depositor under the pool's own
    /// authority, growing the share supply by the same amount. A mint the
    /// ledger would refuse reports `DepositToPoolFailed` and changes
    /// nothing.
    pub fn mint_lp(&mut self, amount: u64) -> (r: Result<(), ErrorCode>)
        ensures
            final(self).pool_state == old(self).pool_state,
            final(self).depositor_x == old(self).depositor_x,
            final(self).depositor_y == old(self).depositor_y,
            final(self).vault_x == old(self).vault_x,
            final(self).vault_y == old(self).vault_y,
            old(self).mint_ok(amount) ==> r == Ok::<(), ErrorCode>(()) && final(self).lp_supply
                == old(self).lp_supply + amount && final(self).depositor_lp
                == old(self).depositor_lp + amount,
            !old(self).mint_ok(amount) ==> r == Err::<(), ErrorCode>(
                ErrorCode::DepositToPoolFailed,
            ) && *final(self) == *old(self),
    {
        if amount > u64::MAX - self.lp_supply || amount > u64::MAX - self.depositor_lp {
            return Err(ErrorCode::DepositToPoolFailed);
        }
        self.lp_supply = self.lp_supply + amount;
        self.depositor_lp = self.depositor_lp + amount;
        Ok(())
    }
}

} // verus!
