//! Pricing and liquidity-accounting core of a two-asset constant-product
//! automated market maker.
//!
//! The pool's custody layer (token transfers, account derivation) is an
//! external collaborator; this crate computes amounts, enforces
//! preconditions, and decides when to reject, over a numeric snapshot of
//! the pool's balances.

pub mod error;
pub mod math;
pub mod state;
pub mod initialize;
pub mod deposit;
pub mod swap;
pub mod laws;
