use vstd::prelude::*;
use crate::error::ErrorCode;

verus! {

/// Share units permanently withheld from the bootstrap depositor, so that
/// redeeming every issued share can never empty the pool.
pub const MINIMUM_LIQUIDITY: u64 = 100;

/// The record describing one trading pair: its identity, assets, fee and
/// lock status. Reserves are not stored here; they are read live from the
/// ledger's vault balances at call time.
///
/// Asset and party identities are plain numeric identifiers; resolving
/// them to ledger accounts is the custody layer's concern.
#[derive(Clone, Copy, Debug, PartialEq, Eq, Structural)]
pub struct PoolState {
    /// Opaque value distinguishing pools with the same asset pair.
    pub seed: u64,
    /// Identity permitted to administer the pool, if any.
    pub authority: Option<u64>,
    /// Identifier of asset X.
    pub mint_x: u64,
    /// Identifier of asset Y.
    pub mint_y: u64,
    /// Fee rate in basis points.
    pub fee: u16,
    /// When set, deposit and swap are rejected.
    pub locked: bool,
}

impl PoolState {
    /// The record's invariant: the fee is a valid basis-point rate.
    pub open spec fn wf(self) -> bool {
        self.fee < 10000
    }
}

/// What the invariant guard decides for a pool and an intended operation,
/// before any numeric computation: `None` means pass.
pub open spec fn guard_decision(pool_state: PoolState, share_supply: u64, is_swap: bool) -> Option<
    ErrorCode,
> {
    if pool_state.locked {
        Some(ErrorCode::PoolLocked)
    } else if is_swap && share_supply == 0 {
        Some(ErrorCode::PoolNotFound)
    } else {
        None
    }
}

/// The invariant guard: rejects a locked pool, and, for swaps, a pool
/// whose share supply is still zero (no liquidity was ever bootstrapped,
/// so no meaningful price exists). Pure; mutates nothing.
pub fn check_pool(pool_state: &PoolState, share_supply: u64, is_swap: bool) -> (r: Result<
    (),
    ErrorCode,
>)
    ensures
        r == match guard_decision(*pool_state, share_supply, is_swap) {
            Some(e) => Err::<(), ErrorCode>(e),
            None => Ok::<(), ErrorCode>(()),
        },
{
    if pool_state.locked {
        Err(ErrorCode::PoolLocked)
    } else if is_swap && share_supply == 0 {
        Err(ErrorCode::PoolNotFound)
    } else {
        Ok(())
    }
}

} // verus!
