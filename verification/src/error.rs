use vstd::prelude::*;

verus! {

/// Error taxonomy of the pool core. Every failure aborts the whole
/// invocation with no partial effect; the variant tells the caller which
/// precondition or transfer failed.
#[derive(Clone, Copy, Debug, PartialEq, Eq, Structural)]
pub enum ErrorCode {
    /// An asset transfer into the pool could not be applied.
    DepositToPoolFailed,
    /// Swap attempted against a pool with no liquidity ever deposited.
    PoolNotFound,
    /// The pool is administratively paused.
    PoolLocked,
    /// Malformed amount argument.
    InvalidDepositAmount,
    /// Asset identifier does not match the pool's configured assets.
    InvalidMint,
    /// Bootstrap deposit below the minimum-liquidity floor.
    DepositTooSmall,
    /// Swap output below the caller's slippage floor.
    OutputTooSmall,
    /// The transfer of the input asset into the pool could not be applied.
    SwapInFailed,
    /// The transfer of the output asset out of the pool could not be applied.
    SwapOutFailed,
}

} // verus!
