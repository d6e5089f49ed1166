//! A weighted constant-product market maker: fixed-point arithmetic, the pricing
//! formulas built on it, a pool-share ledger and the pool state machine.
pub mod account;
pub mod math;
pub mod base;
pub mod token;
pub mod pool;
pub mod probe;
