use vstd::prelude::*;
use crate::error::ErrorCode;
use crate::state::{PoolState, check_pool};
use crate::math::{apply_fee, swap_output, taxed_of, swap_output_of};
use crate::laws::lemma_swap_product_nondecreasing;

verus! {

/// Call context of the swap operation: the pool record together with a
/// snapshot of every ledger balance the operation may touch. The custody
/// layer fills the snapshot in and applies the resulting movements.
pub struct Swap {
    /// The pool record.
    pub pool_state: PoolState,
    /// The trader's balance of asset X.
    pub trader_x: u64,
    /// The trader's balance of asset Y.
    pub trader_y: u64,
    /// The pool vault's balance of asset X (the live X reserve).
    pub vault_x: u64,
    /// The pool vault's balance of asset Y (the live Y reserve).
    pub vault_y: u64,
    /// Total issued supply of the pool-share asset.
    pub lp_supply: u64,
}

impl Swap {
    /// Well-formedness of the snapshot: the fee is a valid rate, the
    /// balances of each asset sum within the asset's total supply, and a
    /// bootstrapped pool has both reserves positive.
    pub open spec fn wf(self) -> bool {
        &&& self.pool_state.wf()
        &&& self.trader_x + self.vault_x <= u64::MAX
        &&& self.trader_y + self.vault_y <= u64::MAX
        &&& self.lp_supply > 0 ==> self.vault_x > 0 && self.vault_y > 0
    }

    /// The input amount actually traded: never more than the trader holds.
    pub open spec fn clamped_input(self, input_is_x: bool, input_amount: u64) -> int {
        let held: int = if input_is_x {
            self.trader_x as int
        } else {
            self.trader_y as int
        };
        if input_amount as int > held {
            held
        } else {
            input_amount as int
        }
    }

    /// Reserve of the asset being paid in.
    pub open spec fn reserve_in(self, input_is_x: bool) -> int {
        if input_is_x {
            self.vault_x as int
        } else {
            self.vault_y as int
        }
    }

    /// Reserve of the asset being paid out.
    pub open spec fn reserve_out(self, input_is_x: bool) -> int {
        if input_is_x {
            self.vault_y as int
        } else {
            self.vault_x as int
        }
    }

    /// The output the constant-product curve owes for this call: fee
    /// deducted from the clamped input, then priced at the reserves.
    pub open spec fn output_amount(self, input_is_x: bool, input_amount: u64) -> int {
        swap_output_of(
            taxed_of(self.clamped_input(input_is_x, input_amount), self.pool_state.fee as int),
            self.reserve_in(input_is_x),
            self.reserve_out(input_is_x),
        )
    }

    /// Exactly when the swap succeeds: the guard passes and the output
    /// clears the caller's slippage floor.
    pub open spec fn swap_ok(self, input_is_x: bool, input_amount: u64, min_output_amount: u64)
        -> bool {
        &&& !self.pool_state.locked
        &&& self.lp_supply > 0
        &&& self.output_amount(input_is_x, input_amount) >= min_output_amount
    }

    /// The error a failing swap reports, in the order the checks run.
    pub open spec fn swap_err(self, input_is_x: bool, input_amount: u64, min_output_amount: u64)
        -> ErrorCode {
        if self.pool_state.locked {
            ErrorCode::PoolLocked
        } else if self.lp_supply == 0 {
            ErrorCode::PoolNotFound
        } else {
            ErrorCode::OutputTooSmall
        }
    }

    /// The input-side transfer can be applied: the trader holds the input
    /// and the vault can absorb it.
    pub open spec fn swap_in_ok(self, input_is_x: bool, input: u64) -> bool {
        if input_is_x {
            input <= self.trader_x && self.vault_x + input <= u64::MAX
        } else {
            input <= self.trader_y && self.vault_y + input <= u64::MAX
        }
    }

    /// The output-side transfer can be applied: the vault holds the output
    /// and the trader can absorb it.
    pub open spec fn swap_out_ok(self, input_is_x: bool, output: u64) -> bool {
        if input_is_x {
            output <= self.vault_y && self.trader_y + output <= u64::MAX
        } else {
            output <= self.vault_x && self.trader_x + output <= u64::MAX
        }
    }

    /// Swaps an exact input amount (clamped to the trader's holdings) for
    /// at least `min_output_amount` of the other asset, or rejects with no
    /// movement at all. On success the reserve product never shrinks.
    pub fn swap_exact_tokens_for_tokens(
        &mut self,
        input_is_x: bool,
        input_amount: u64,
        min_output_amount: u64,
    ) -> (r: Result<u64, ErrorCode>)
        requires
            old(self).wf(),
        ensures
            final(self).wf(),
            final(self).pool_state == old(self).pool_state,
            final(self).lp_supply == old(self).lp_supply,
            old(self).swap_ok(input_is_x, input_amount, min_output_amount) ==> ({
                let input = old(self).clamped_input(input_is_x, input_amount);
                let out = old(self).output_amount(input_is_x, input_amount);
                &&& r == Ok::<u64, ErrorCode>(out as u64)
                &&& input_is_x ==> final(self).vault_x == old(self).vault_x + input
                    && final(self).trader_x == old(self).trader_x - input
                    && final(self).vault_y == old(self).vault_y - out
                    && final(self).trader_y == old(self).trader_y + out
                &&& !input_is_x ==> final(self).vault_y == old(self).vault_y + input
                    && final(self).trader_y == old(self).trader_y - input
                    && final(self).vault_x == old(self).vault_x - out
                    && final(self).trader_x == old(self).trader_x + out
                &&& final(self).vault_x * final(self).vault_y >= old(self).vault_x * old(
                    self,
                ).vault_y
            }),
            !old(self).swap_ok(input_is_x, input_amount, min_output_amount) ==> r == Err::<
                u64,
                ErrorCode,
            >(old(self).swap_err(input_is_x, input_amount, min_output_amount)) && *final(self)
                == *old(self),
    {
        if let Err(e) = check_pool(&self.pool_state, self.lp_supply, true) {
            return Err(e);
        }
        let input: u64 = if input_is_x && input_amount > self.trader_x {
            self.trader_x
        } else if !input_is_x && input_amount > self.trader_y {
            self.trader_y
        } else {
            input_amount
        };
        let taxed: u64 = apply_fee(input, self.pool_state.fee);
        let output: u64 = if input_is_x {
            swap_output(taxed, self.vault_x, self.vault_y)
        } else {
            swap_output(taxed, self.vault_y, self.vault_x)
        };
        if output < min_output_amount {
            return Err(ErrorCode::OutputTooSmall);
        }
        proof {
            lemma_swap_product_nondecreasing(
                input as int,
                self.pool_state.fee as int,
                self.reserve_in(input_is_x),
                self.reserve_out(input_is_x),
            );
            assert(self.swap_in_ok(input_is_x, input));
            assert(self.swap_out_ok(input_is_x, output));
        }
        let ghost pre: Swap = *self;
        let res: Result<(), ErrorCode> = self.swap_token(input_is_x, input, output);
        proof {
            let out_i: int = pre.output_amount(input_is_x, input_amount);
            if input_is_x {
                assert(self.vault_x * self.vault_y >= pre.vault_x * pre.vault_y)
                    by (nonlinear_arith)
                    requires
                        self.vault_x == pre.vault_x + input,
                        self.vault_y == pre.vault_y - out_i,
                        (pre.vault_x + input) * (pre.vault_y - out_i) >= pre.vault_x
                            * pre.vault_y,
                ;
            } else {
                assert(self.vault_x * self.vault_y >= pre.vault_x * pre.vault_y)
                    by (nonlinear_arith)
                    requires
                        self.vault_x == pre.vault_x - out_i,
                        self.vault_y == pre.vault_y + input,
                        (pre.vault_y + input) * (pre.vault_x - out_i) >= pre.vault_y
                            * pre.vault_x,
                ;
            }
        }
        match res {
            Ok(()) => Ok(output),
            Err(e) => Err(e),
        }
    }

    /// Applies the two transfers of a swap to the snapshot, all or
    /// nothing: the full pre-tax input moves from the trader to the input
    /// vault, then the output moves from the output vault to the trader
    /// under the pool's own authority. A movement the ledger would refuse
    /// reports the side that failed and moves nothing.
    pub fn swap_token(&mut self, input_is_x: bool, input: u64, output: u64) -> (r: Result<
        (),
        ErrorCode,
    >)
        ensures
            final(self).pool_state == old(self).pool_state,
            final(self).lp_supply == old(self).lp_supply,
            old(self).swap_in_ok(input_is_x, input) && old(self).swap_out_ok(input_is_x, output)
                ==> ({
                &&& r == Ok::<(), ErrorCode>(())
                &&& input_is_x ==> final(self).vault_x == old(self).vault_x + input
                    && final(self).trader_x == old(self).trader_x - input
                    && final(self).vault_y == old(self).vault_y - output
                    && final(self).trader_y == old(self).trader_y + output
                &&& !input_is_x ==> final(self).vault_y == old(self).vault_y + input
                    && final(self).trader_y == old(self).trader_y - input
                    && final(self).vault_x == old(self).vault_x - output
                    && final(self).trader_x == old(self).trader_x + output
            }),
            !old(self).swap_in_ok(input_is_x, input) ==> r == Err::<(), ErrorCode>(
                ErrorCode::SwapInFailed,
            ) && *final(self) == *old(self),
            old(self).swap_in_ok(input_is_x, input) && !old(self).swap_out_ok(input_is_x, output)
                ==> r == Err::<(), ErrorCode>(ErrorCode::SwapOutFailed) && *final(self) == *old(
                self,
            ),
    {
        let in_ok: bool = if input_is_x {
            input <= self.trader_x && input <= u64::MAX - self.vault_x
        } else {
            input <= self.trader_y && input <= u64::MAX - self.vault_y
        };
        if !in_ok {
            return Err(ErrorCode::SwapInFailed);
        }
        let out_ok: bool = if input_is_x {
            output <= self.vault_y && output <= u64::MAX - self.trader_y
        } else {
            output <= self.vault_x && output <= u64::MAX - self.trader_x
        };
        if !out_ok {
            return Err(ErrorCode::SwapOutFailed);
        }
        if input_is_x {
            self.trader_x = self.trader_x - input;
            self.vault_x = self.vault_x + input;
            self.vault_y = self.vault_y - output;
            self.trader_y = self.trader_y + output;
        } else {
            self.trader_y = self.trader_y - input;
            self.vault_y = self.vault_y + input;
            self.vault_x = self.vault_x - output;
            self.trader_x = self.trader_x + output;
        }
        Ok(())
    }
}

} // verus!
