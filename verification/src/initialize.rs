use vstd::prelude::*;
use crate::state::PoolState;

verus! {

/// Call context of the initialize operation: the asset pair the new pool
/// will trade, and the record it fills in.
pub struct Initialize {
    /// Identifier of asset X.
    pub mint_x: u64,
    /// Identifier of asset Y.
    pub mint_y: u64,
    /// The pool record being created.
    pub pool_state: PoolState,
}

impl Initialize {
    /// Creates the pool record: unlocked, with the given identity seed,
    /// fee and optional administrative authority, trading the context's
    /// asset pair.
    pub fn initialize(&mut self, seed: u64, fee: u16, authority: Option<u64>)
        requires
            fee < 10000,
        ensures
            final(self).pool_state == (PoolState {
                seed,
                authority,
                mint_x: old(self).mint_x,
                mint_y: old(self).mint_y,
                fee,
                locked: false,
            }),
            final(self).pool_state.wf(),
            final(self).mint_x == old(self).mint_x,
            final(self).mint_y == old(self).mint_y,
    {
        self.pool_state = PoolState {
            seed,
            authority,
            mint_x: self.mint_x,
            mint_y: self.mint_y,
            fee,
            locked: false,
        };
    }
}

} // verus!
