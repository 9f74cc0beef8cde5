use vstd::prelude::*;

use crate::errors::ExchangeError;

verus! {

/// The ledger as plain mathematics: per account that was ever credited, its
/// balance entry.
pub type Ledger = Map<Seq<char>, Map<Seq<char>, u128>>;

/// Whether `account` has an entry for `asset`.
pub open spec fn has_entry(ledger: Ledger, account: Seq<char>, asset: Seq<char>) -> bool {
    ledger.contains_key(account) && ledger[account].contains_key(asset)
}

/// What `account` holds of `asset`. A missing entry counts as zero.
pub open spec fn balance_of(ledger: Ledger, account: Seq<char>, asset: Seq<char>) -> int {
    if has_entry(ledger, account, asset) {
        ledger[account][asset] as int
    } else {
        0
    }
}

/// The ledger with the entry of `account` for `asset` set to `amount`, and
/// every other entry as it was.
pub open spec fn with_balance(
    ledger: Ledger,
    account: Seq<char>,
    asset: Seq<char>,
    amount: u128,
) -> Ledger {
    let entry = if ledger.contains_key(account) {
        ledger[account]
    } else {
        Map::<Seq<char>, u128>::empty()
    };
    ledger.insert(account, entry.insert(asset, amount))
}

/// The ledger after `amount` of `asset` is credited to `account`: rejected
/// where the balance would leave the 128-bit range.
pub open spec fn credited(
    ledger: Ledger,
    account: Seq<char>,
    asset: Seq<char>,
    amount: u128,
) -> Result<Ledger, ExchangeError> {
    let sum = balance_of(ledger, account, asset) + amount;
    if sum > u128::MAX {
        Err(ExchangeError::Overflow)
    } else {
        Ok(with_balance(ledger, account, asset, sum as u128))
    }
}

/// The ledger after `amount` of `asset` is debited from `account`: rejected
/// where the account has no entry for the asset, or holds less than
/// `amount`.
pub open spec fn debited(
    ledger: Ledger,
    account: Seq<char>,
    asset: Seq<char>,
    amount: u128,
) -> Result<Ledger, ExchangeError> {
    if !has_entry(ledger, account, asset) {
        Err(ExchangeError::NotDeposited)
    } else if amount > ledger[account][asset] {
        Err(ExchangeError::InsufficientFunds)
    } else {
        Ok(with_balance(ledger, account, asset, (ledger[account][asset] - amount) as u128))
    }
}

/// Setting one balance changes that balance and no other.
pub proof fn lemma_with_balance_touches_one(
    ledger: Ledger,
    account: Seq<char>,
    asset: Seq<char>,
    amount: u128,
    other_account: Seq<char>,
    other_asset: Seq<char>,
)
    ensures
        balance_of(with_balance(ledger, account, asset, amount), account, asset) == amount,
        (other_account != account || other_asset != asset) ==> balance_of(
            with_balance(ledger, account, asset, amount),
            other_account,
            other_asset,
        ) == balance_of(ledger, other_account, other_asset),
        (other_account != account || other_asset != asset) ==> has_entry(
            with_balance(ledger, account, asset, amount),
            other_account,
            other_asset,
        ) == has_entry(ledger, other_account, other_asset),
{
}

/// One movement on the ledger: a credit or a debit of an amount of one
/// asset on one account.
pub enum LedgerOp {
    Credit { account: Seq<char>, asset: Seq<char>, amount: u128 },
    Debit { account: Seq<char>, asset: Seq<char>, amount: u128 },
}

impl LedgerOp {
    /// The ledger after this movement, or the reason it is rejected.
    pub open spec fn outcome(self, ledger: Ledger) -> Result<Ledger, ExchangeError> {
        match self {
            LedgerOp::Credit { account, asset, amount } => credited(ledger, account, asset, amount),
            LedgerOp::Debit { account, asset, amount } => debited(ledger, account, asset, amount),
        }
    }

    /// The ledger after this movement. A rejected movement leaves it as it
    /// was.
    pub open spec fn applied(self, ledger: Ledger) -> Ledger {
        match self.outcome(ledger) {
            Ok(after) => after,
            Err(_) => ledger,
        }
    }

    /// What this movement credits to `account` in `asset`: its amount where
    /// it is a credit on that balance and goes through, else zero.
    pub open spec fn credit_on(self, ledger: Ledger, account: Seq<char>, asset: Seq<char>) -> int {
        match self {
            LedgerOp::Credit { account: a, asset: t, amount } => if a == account && t == asset
                && self.outcome(ledger) is Ok {
                amount as int
            } else {
                0
            },
            LedgerOp::Debit { .. } => 0,
        }
    }

    /// What this movement debits from `account` in `asset`: its amount where
    /// it is a debit on that balance and goes through, else zero.
    pub open spec fn debit_on(self, ledger: Ledger, account: Seq<char>, asset: Seq<char>) -> int {
        match self {
            LedgerOp::Debit { account: a, asset: t, amount } => if a == account && t == asset
                && self.outcome(ledger) is Ok {
                amount as int
            } else {
                0
            },
            LedgerOp::Credit { .. } => 0,
        }
    }
}

/// The ledger after the movements `ops`, taken in order.
pub open spec fn replayed(ledger: Ledger, ops: Seq<LedgerOp>) -> Ledger
    decreases ops.len(),
{
    if ops.len() == 0 {
        ledger
    } else {
        replayed(ops[0].applied(ledger), ops.drop_first())
    }
}

/// Whether none of the movements `ops`, taken in order from `ledger`, is
/// rejected.
pub open spec fn all_accepted(ledger: Ledger, ops: Seq<LedgerOp>) -> bool
    decreases ops.len(),
{
    ops.len() == 0 || (ops[0].outcome(ledger) is Ok && all_accepted(
        ops[0].applied(ledger),
        ops.drop_first(),
    ))
}

/// The sum of all credits that `ops`, taken in order from `ledger`, make to
/// `account` in `asset`.
pub open spec fn total_credits(
    ledger: Ledger,
    ops: Seq<LedgerOp>,
    account: Seq<char>,
    asset: Seq<char>,
) -> int
    decreases ops.len(),
{
    if ops.len() == 0 {
        0
    } else {
        ops[0].credit_on(ledger, account, asset) + total_credits(
            ops[0].applied(ledger),
            ops.drop_first(),
            account,
            asset,
        )
    }
}

/// The sum of all debits that `ops`, taken in order from `ledger`, make
/// from `account` in `asset`.
pub open spec fn total_debits(
    ledger: Ledger,
    ops: Seq<LedgerOp>,
    account: Seq<char>,
    asset: Seq<char>,
) -> int
    decreases ops.len(),
{
    if ops.len() == 0 {
        0
    } else {
        ops[0].debit_on(ledger, account, asset) + total_debits(
            ops[0].applied(ledger),
            ops.drop_first(),
            account,
            asset,
        )
    }
}

/// One movement changes a balance by what it credits to it less what it
/// debits from it, and never leaves a balance below zero.
pub proof fn lemma_movement_accounts(
    ledger: Ledger,
    op: LedgerOp,
    account: Seq<char>,
    asset: Seq<char>,
)
    ensures
        balance_of(op.applied(ledger), account, asset) == balance_of(ledger, account, asset)
            + op.credit_on(ledger, account, asset) - op.debit_on(ledger, account, asset),
        0 <= balance_of(op.applied(ledger), account, asset),
{
    match op {
        LedgerOp::Credit { account: a, asset: t, amount } => {
            if op.outcome(ledger) is Ok {
                let sum = (balance_of(ledger, a, t) + amount) as u128;
                lemma_with_balance_touches_one(ledger, a, t, sum, account, asset);
            }
        },
        LedgerOp::Debit { account: a, asset: t, amount } => {
            if op.outcome(ledger) is Ok {
                let rest = (ledger[a][t] - amount) as u128;
                lemma_with_balance_touches_one(ledger, a, t, rest, account, asset);
            }
        },
    }
}

/// After any sequence of movements, each balance is what it was at the
/// start, plus all that was credited to it, less all that was debited
/// from it.
pub proof fn lemma_balance_is_start_plus_credits_less_debits(
    ledger: Ledger,
    ops: Seq<LedgerOp>,
    account: Seq<char>,
    asset: Seq<char>,
)
    ensures
        balance_of(replayed(ledger, ops), account, asset) == balance_of(ledger, account, asset)
            + total_credits(ledger, ops, account, asset) - total_debits(
            ledger,
            ops,
            account,
            asset,
        ),
    decreases ops.len(),
{
    if ops.len() > 0 {
        lemma_movement_accounts(ledger, ops[0], account, asset);
        lemma_balance_is_start_plus_credits_less_debits(
            ops[0].applied(ledger),
            ops.drop_first(),
            account,
            asset,
        );
    }
}

} // verus!
