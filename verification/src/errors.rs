use vstd::prelude::*;

verus! {

/// Why an operation was rejected. A rejected operation changes nothing.
#[derive(Clone, Copy, Debug, PartialEq, Eq, Structural)]
pub enum ExchangeError {
    /// A debit asked for more than the stored balance.
    InsufficientFunds,
    /// The account holds no entry for the asset.
    NotDeposited,
    /// The pool id is not below the number of pools.
    BadPoolId,
    /// The asset is not one of the pool's two members.
    UnknownAsset,
    /// A removal asked for more than the reserve holds.
    InsufficientReserve,
    /// A sum or product would leave the 128-bit range.
    Overflow,
}

} // verus!
