//! A two-asset constant-product exchange engine: an account ledger, liquidity
//! pools, and the orchestration that moves value between them.

pub mod balance;
pub mod contract;
pub mod errors;
pub mod history;
pub mod ledger;
pub mod pool;
pub mod pricing;
