use vstd::prelude::*;

use crate::contract::EngineState;
use crate::errors::ExchangeError;
use crate::ledger::{
    all_accepted, balance_of, lemma_balance_is_start_plus_credits_less_debits, replayed,
    total_credits, total_debits, Ledger, LedgerOp,
};
use crate::pool::lemma_swap_never_lowers_product;

verus! {

/// One call on the engine that may change it.
pub enum EngineOp {
    CreatePool { caller: Seq<char>, token1: Seq<char>, token2: Seq<char> },
    Deposit { account: Seq<char>, asset: Seq<char>, amount: u128 },
    Withdraw { account: Seq<char>, asset: Seq<char>, amount: u128 },
    AddLiquidity { account: Seq<char>, pool_id: int, asset: Seq<char>, amount: u128 },
    RemoveLiquidity { account: Seq<char>, pool_id: int, asset: Seq<char>, amount: u128 },
    Swap { account: Seq<char>, pool_id: int, asset_in: Seq<char>, amount: u128 },
}

impl EngineOp {
    /// The engine after this call, or nothing where the call is rejected.
    pub open spec fn outcome(self, state: EngineState) -> Option<EngineState> {
        match self {
            EngineOp::CreatePool { caller, token1, token2 } => if caller == state.owner {
                Some(state.pool_created(token1, token2))
            } else {
                None
            },
            EngineOp::Deposit { account, asset, amount } => accepted(
                state.deposited(account, asset, amount),
            ),
            EngineOp::Withdraw { account, asset, amount } => accepted(
                state.withdrawn(account, asset, amount),
            ),
            EngineOp::AddLiquidity { account, pool_id, asset, amount } => accepted(
                state.liquidity_added(account, pool_id, asset, amount),
            ),
            EngineOp::RemoveLiquidity { account, pool_id, asset, amount } => accepted(
                state.liquidity_removed(account, pool_id, asset, amount),
            ),
            EngineOp::Swap { account, pool_id, asset_in, amount } => accepted(
                state.swapped(account, pool_id, asset_in, amount),
            ),
        }
    }

    /// The engine after this call. A rejected call leaves it as it was.
    pub open spec fn applied(self, state: EngineState) -> EngineState {
        match self.outcome(state) {
            Some(after) => after,
            None => state,
        }
    }

    /// The movements that this call makes on the ledger, in order: none
    /// where it is rejected or creates a pool, one for a deposit, a
    /// withdrawal, or a change of liquidity, and a debit followed by a
    /// credit for a swap.
    pub open spec fn movements(self, state: EngineState) -> Seq<LedgerOp> {
        if self.outcome(state) is None {
            Seq::<LedgerOp>::empty()
        } else {
            match self {
                EngineOp::CreatePool { .. } => Seq::<LedgerOp>::empty(),
                EngineOp::Deposit { account, asset, amount } => seq![
                    LedgerOp::Credit { account, asset, amount },
                ],
                EngineOp::Withdraw { account, asset, amount } => seq![
                    LedgerOp::Debit { account, asset, amount },
                ],
                EngineOp::AddLiquidity { account, pool_id, asset, amount } => seq![
                    LedgerOp::Debit { account, asset, amount },
                ],
                EngineOp::RemoveLiquidity { account, pool_id, asset, amount } => seq![
                    LedgerOp::Credit { account, asset, amount },
                ],
                EngineOp::Swap { account, pool_id, asset_in, amount } => {
                    let pool = state.pools[pool_id];
                    seq![
                        LedgerOp::Debit { account, asset: asset_in, amount },
                        LedgerOp::Credit {
                            account,
                            asset: pool.assets[1 - pool.slot_of(asset_in)->0],
                            amount: pool.quoted(asset_in, amount as int)->Ok_0 as u128,
                        },
                    ]
                },
            }
        }
    }
}

/// What an operation leaves where it goes through.
pub open spec fn accepted(outcome: Result<EngineState, ExchangeError>) -> Option<EngineState> {
    match outcome {
        Ok(after) => Some(after),
        Err(_) => None,
    }
}

/// The engine after the calls `ops`, taken in order.
pub open spec fn run(state: EngineState, ops: Seq<EngineOp>) -> EngineState
    decreases ops.len(),
{
    if ops.len() == 0 {
        state
    } else {
        run(ops[0].applied(state), ops.drop_first())
    }
}

/// All movements that the calls `ops`, taken in order from `state`, make
/// on the ledger.
pub open spec fn run_movements(state: EngineState, ops: Seq<EngineOp>) -> Seq<LedgerOp>
    decreases ops.len(),
{
    if ops.len() == 0 {
        Seq::<LedgerOp>::empty()
    } else {
        ops[0].movements(state) + run_movements(ops[0].applied(state), ops.drop_first())
    }
}

/// Replaying two runs of movements one after the other is replaying their
/// concatenation.
pub proof fn lemma_replay_in_two_parts(ledger: Ledger, first: Seq<LedgerOp>, second: Seq<LedgerOp>)
    ensures
        replayed(ledger, first + second) == replayed(replayed(ledger, first), second),
    decreases first.len(),
{
    if first.len() == 0 {
        assert(first + second =~= second);
    } else {
        assert((first + second).drop_first() =~= first.drop_first() + second);
        assert((first + second)[0] == first[0]);
        lemma_replay_in_two_parts(first[0].applied(ledger), first.drop_first(), second);
    }
}

/// The ledger after one call is the ledger before with the call's
/// movements replayed on it, and none of them is rejected there.
pub proof fn lemma_call_is_its_movements(state: EngineState, op: EngineOp)
    ensures
        op.applied(state).ledger == replayed(state.ledger, op.movements(state)),
        all_accepted(state.ledger, op.movements(state)),
{
    let moves = op.movements(state);
    if op.outcome(state) is Some {
        match op {
            EngineOp::CreatePool { .. } => {},
            EngineOp::Swap { .. } => {
                assert(moves.drop_first().len() == 1);
                assert(moves.drop_first().drop_first().len() == 0);
                reveal_with_fuel(replayed, 3);
                reveal_with_fuel(all_accepted, 3);
            },
            _ => {
                assert(moves.drop_first().len() == 0);
                reveal_with_fuel(replayed, 2);
                reveal_with_fuel(all_accepted, 2);
            },
        }
    }
}

/// The ledger after any sequence of calls is the ledger before with all
/// their movements replayed on it.
pub proof fn lemma_run_is_its_movements(state: EngineState, ops: Seq<EngineOp>)
    ensures
        run(state, ops).ledger == replayed(state.ledger, run_movements(state, ops)),
    decreases ops.len(),
{
    if ops.len() > 0 {
        let next = ops[0].applied(state);
        lemma_call_is_its_movements(state, ops[0]);
        lemma_run_is_its_movements(next, ops.drop_first());
        lemma_replay_in_two_parts(
            state.ledger,
            ops[0].movements(state),
            run_movements(next, ops.drop_first()),
        );
    }
}

/// After any sequence of calls on the engine, what an account holds of an
/// asset is what it held at the start, plus all that the calls credited to
/// it, less all that they debited from it.
pub proof fn lemma_engine_balance_is_start_plus_credits_less_debits(
    state: EngineState,
    ops: Seq<EngineOp>,
    account: Seq<char>,
    asset: Seq<char>,
)
    ensures
        balance_of(run(state, ops).ledger, account, asset) == balance_of(
            state.ledger,
            account,
            asset,
        ) + total_credits(state.ledger, run_movements(state, ops), account, asset) - total_debits(
            state.ledger,
            run_movements(state, ops),
            account,
            asset,
        ),
{
    lemma_run_is_its_movements(state, ops);
    lemma_balance_is_start_plus_credits_less_debits(
        state.ledger,
        run_movements(state, ops),
        account,
        asset,
    );
}

/// No call makes a valid engine invalid, removes a pool, or changes the id
/// or the assets of one.
pub proof fn lemma_call_keeps_pools(state: EngineState, op: EngineOp)
    requires
        state.valid(),
    ensures
        op.applied(state).valid(),
        op.applied(state).owner == state.owner,
        op.applied(state).pools.len() >= state.pools.len(),
        forall|i: int|
            0 <= i < state.pools.len() ==> (#[trigger] op.applied(state).pools[i]).assets
                == state.pools[i].assets,
{
    if op.outcome(state) is Some {
        match op {
            EngineOp::Swap { account, pool_id, asset_in, amount } => {
                lemma_swap_never_lowers_product(state.pools[pool_id], asset_in, amount as int);
            },
            _ => {},
        }
    }
}

/// A swap that goes through never lowers the product of the reserves of
/// its pool, and leaves every other pool as it was.
pub proof fn lemma_swap_call_never_lowers_product(
    state: EngineState,
    account: Seq<char>,
    pool_id: int,
    asset_in: Seq<char>,
    amount: u128,
)
    requires
        state.valid(),
        state.swapped(account, pool_id, asset_in, amount) is Ok,
    ensures
        state.swapped(account, pool_id, asset_in, amount)->Ok_0.pools[pool_id].product()
            >= state.pools[pool_id].product(),
        forall|i: int|
            0 <= i < state.pools.len() && i != pool_id ==> state.swapped(
                account,
                pool_id,
                asset_in,
                amount,
            )->Ok_0.pools[i] == state.pools[i],
{
    lemma_swap_never_lowers_product(state.pools[pool_id], asset_in, amount as int);
}

/// A call that names no pool of the engine changes nothing.
pub proof fn lemma_bad_pool_id_changes_nothing(state: EngineState, op: EngineOp)
    requires
        match op {
            EngineOp::AddLiquidity { pool_id, .. } => !state.has_pool(pool_id),
            EngineOp::RemoveLiquidity { pool_id, .. } => !state.has_pool(pool_id),
            EngineOp::Swap { pool_id, .. } => !state.has_pool(pool_id),
            _ => false,
        },
    ensures
        op.outcome(state) is None,
        op.applied(state) == state,
{
}

} // verus!
