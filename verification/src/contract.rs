use vstd::prelude::*;

use crate::balance::AccountsInfo;
use crate::errors::ExchangeError;
use crate::ledger::{balance_of, credited, debited, lemma_with_balance_touches_one, Ledger};
use crate::pool::{Pool, PoolState};

verus! {

/// The engine as plain mathematics: its owner, its pools in id order, and
/// the ledger.
pub struct EngineState {
    pub owner: Seq<char>,
    pub pools: Seq<PoolState>,
    pub ledger: Ledger,
}

impl EngineState {
    /// Every pool is valid and its id is its position.
    pub open spec fn valid(self) -> bool {
        forall|i: int|
            0 <= i < self.pools.len() ==> (#[trigger] self.pools[i]).valid() && self.pools[i].id
                == i
    }

    /// Whether `pool_id` names a pool.
    pub open spec fn has_pool(self, pool_id: int) -> bool {
        0 <= pool_id < self.pools.len()
    }

    /// The engine with one more pool, empty, over the pair as given, whose
    /// id is the number of pools before.
    pub open spec fn pool_created(self, token1: Seq<char>, token2: Seq<char>) -> EngineState {
        EngineState {
            pools: self.pools.push(
                PoolState {
                    id: self.pools.len() as int,
                    assets: seq![token1, token2],
                    reserves: seq![0int, 0int],
                },
            ),
            ..self
        }
    }

    /// The pools from position `from` on, at most `limit` of them; none
    /// where `from` lies beyond the last pool.
    pub open spec fn listed(self, from: int, limit: int) -> Seq<PoolState> {
        if from > self.pools.len() {
            Seq::<PoolState>::empty()
        } else if from + limit <= self.pools.len() {
            self.pools.subrange(from, from + limit)
        } else {
            self.pools.subrange(from, self.pools.len() as int)
        }
    }

    /// What a reader is told that `account` holds of `asset`: zero for an
    /// account that was never credited, nothing for an account without an
    /// entry for the asset, else the amount.
    pub open spec fn reported_balance(self, account: Seq<char>, asset: Seq<char>) -> Option<u128> {
        if !self.ledger.contains_key(account) {
            Some(0u128)
        } else if self.ledger[account].contains_key(asset) {
            Some(self.ledger[account][asset])
        } else {
            None
        }
    }

    /// What `amount_in` of `asset_in` buys in pool `pool_id`.
    pub open spec fn quoted(self, pool_id: int, asset_in: Seq<char>, amount_in: u128) -> Result<
        int,
        ExchangeError,
    > {
        if !self.has_pool(pool_id) {
            Err(ExchangeError::BadPoolId)
        } else {
            self.pools[pool_id].quoted(asset_in, amount_in as int)
        }
    }

    /// The engine after a deposit: a credit on the ledger.
    pub open spec fn deposited(self, account: Seq<char>, asset: Seq<char>, amount: u128) -> Result<
        EngineState,
        ExchangeError,
    > {
        match credited(self.ledger, account, asset, amount) {
            Ok(ledger) => Ok(EngineState { ledger, ..self }),
            Err(e) => Err(e),
        }
    }

    /// The engine after a withdrawal: a debit on the ledger.
    pub open spec fn withdrawn(self, account: Seq<char>, asset: Seq<char>, amount: u128) -> Result<
        EngineState,
        ExchangeError,
    > {
        match debited(self.ledger, account, asset, amount) {
            Ok(ledger) => Ok(EngineState { ledger, ..self }),
            Err(e) => Err(e),
        }
    }

    /// The engine after `account` moves `amount` of `asset` from its balance
    /// into pool `pool_id`. The pool id is looked at first, then the debit,
    /// then the pool; the first that fails gives the error.
    pub open spec fn liquidity_added(
        self,
        account: Seq<char>,
        pool_id: int,
        asset: Seq<char>,
        amount: u128,
    ) -> Result<EngineState, ExchangeError> {
        if !self.has_pool(pool_id) {
            Err(ExchangeError::BadPoolId)
        } else {
            match debited(self.ledger, account, asset, amount) {
                Err(e) => Err(e),
                Ok(ledger) => match self.pools[pool_id].added(asset, amount as int) {
                    Err(e) => Err(e),
                    Ok(pool) => Ok(
                        EngineState { ledger, pools: self.pools.update(pool_id, pool), ..self },
                    ),
                },
            }
        }
    }

    /// The engine after `amount` of `asset` moves from pool `pool_id` to the
    /// balance of `account`. The pool id is looked at first, then the
    /// credit, then the pool; the first that fails gives the error. Nothing
    /// asks that the account put that liquidity in.
    pub open spec fn liquidity_removed(
        self,
        account: Seq<char>,
        pool_id: int,
        asset: Seq<char>,
        amount: u128,
    ) -> Result<EngineState, ExchangeError> {
        if !self.has_pool(pool_id) {
            Err(ExchangeError::BadPoolId)
        } else {
            match credited(self.ledger, account, asset, amount) {
                Err(e) => Err(e),
                Ok(ledger) => match self.pools[pool_id].removed(asset, amount as int) {
                    Err(e) => Err(e),
                    Ok(pool) => Ok(
                        EngineState { ledger, pools: self.pools.update(pool_id, pool), ..self },
                    ),
                },
            }
        }
    }

    /// The engine after `account` swaps `amount` of `asset_in` in pool
    /// `pool_id`: the input is debited, the quoted output of the pool's
    /// other asset is credited, and both reserves move. The pool id is
    /// looked at first, then the debit, then the quote, then the credit; the
    /// first that fails gives the error.
    pub open spec fn swapped(
        self,
        account: Seq<char>,
        pool_id: int,
        asset_in: Seq<char>,
        amount: u128,
    ) -> Result<EngineState, ExchangeError> {
        if !self.has_pool(pool_id) {
            Err(ExchangeError::BadPoolId)
        } else {
            let pool = self.pools[pool_id];
            match debited(self.ledger, account, asset_in, amount) {
                Err(e) => Err(e),
                Ok(debited_ledger) => match pool.quoted(asset_in, amount as int) {
                    Err(e) => Err(e),
                    Ok(amount_out) => {
                        let asset_out = pool.assets[1 - pool.slot_of(asset_in)->0];
                        match credited(debited_ledger, account, asset_out, amount_out as u128) {
                            Err(e) => Err(e),
                            Ok(ledger) => Ok(
                                EngineState {
                                    ledger,
                                    pools: self.pools.update(
                                        pool_id,
                                        pool.swapped(asset_in, amount as int)->Ok_0,
                                    ),
                                    ..self
                                },
                            ),
                        }
                    },
                },
            }
        }
    }
}

/// A transfer that the engine asks to be made outside it, once a
/// withdrawal has been debited.
pub struct TransferRequest {
    /// The account to pay.
    pub receiver_id: String,
    /// The asset to pay in.
    pub token_id: String,
    /// The amount to pay.
    pub amount: u128,
}

/// The exchange engine: the pools, the ledger, and the owner who alone may
/// create pools.
pub struct Contract {
    owner_id: String,
    pools: Vec<Pool>,
    accounts: AccountsInfo,
}

impl View for Contract {
    type V = EngineState;

    closed spec fn view(&self) -> EngineState {
        EngineState {
            owner: self.owner_id@,
            pools: Seq::new(self.pools@.len(), |i: int| self.pools@[i]@),
            ledger: self.accounts@,
        }
    }
}

impl Contract {
    /// The ledger is well formed, and every pool's id is its position.
    pub closed spec fn wf(&self) -> bool {
        &&& self.accounts.wf()
        &&& forall|i: int| 0 <= i < self.pools@.len() ==> self.pools@[i].id == i
    }

    /// A well-formed engine has a valid state.
    pub proof fn lemma_wf_is_valid(&self)
        requires
            self.wf(),
        ensures
            self@.valid(),
    {
    }

    /// An engine owned by `owner_id`, without pools or balances.
    pub fn new(owner_id: String) -> (contract: Contract)
        ensures
            contract.wf(),
            contract@.owner == owner_id@,
            contract@.pools == Seq::<PoolState>::empty(),
            contract@.ledger == Map::<Seq<char>, Map<Seq<char>, u128>>::empty(),
    {
        let contract = Contract { owner_id, pools: Vec::new(), accounts: AccountsInfo::new() };
        assert(contract@.pools =~= Seq::<PoolState>::empty());
        contract
    }

    /// Puts an engine together from its parts, as saved earlier. It is
    /// refused where some pool's id is not its position.
    pub fn restore(owner_id: String, pools: Vec<Pool>, accounts: AccountsInfo) -> (contract: Option<
        Contract,
    >)
        requires
            accounts.wf(),
        ensures
            contract is Some <==> forall|i: int| 0 <= i < pools@.len() ==> pools@[i].id == i,
            contract is Some ==> {
                &&& contract->0.wf()
                &&& contract->0@.owner == owner_id@
                &&& contract->0@.pools == Seq::new(pools@.len(), |i: int| pools@[i]@)
                &&& contract->0@.ledger == accounts@
            },
    {
        let mut i: usize = 0;
        while i < pools.len()
            invariant
                i <= pools@.len(),
                forall|k: int| 0 <= k < i ==> pools@[k].id == k,
            decreases pools@.len() - i,
        {
            if pools[i].id != i {
                return None;
            }
            i += 1;
        }
        Some(Contract { owner_id, pools, accounts })
    }

    /// The owner, who alone may create pools.
    pub fn owner_id(&self) -> (owner: &String)
        ensures
            owner@ == self@.owner,
    {
        &self.owner_id
    }

    /// The number of pools, which is the id that the next pool gets.
    pub fn pool_count(&self) -> (count: usize)
        ensures
            count == self@.pools.len(),
    {
        self.pools.len()
    }

    /// The ledger, to read.
    pub fn accounts(&self) -> (ledger: &AccountsInfo)
        requires
            self.wf(),
        ensures
            ledger.wf(),
            ledger@ == self@.ledger,
    {
        &self.accounts
    }

    /// Appends an empty pool over `token1` and `token2` and returns its id,
    /// the number of pools before. Only the owner may; for any other
    /// `caller` nothing is created.
    pub fn create_pool(&mut self, caller: &String, token1: String, token2: String) -> (id: Option<
        usize,
    >)
        requires
            old(self).wf(),
        ensures
            final(self).wf(),
            caller@ == old(self)@.owner ==> {
                &&& id == Some(old(self)@.pools.len() as usize)
                &&& final(self)@ == old(self)@.pool_created(token1@, token2@)
            },
            caller@ != old(self)@.owner ==> id.is_none() && *final(self) == *old(self),
    {
        if *caller != self.owner_id {
            return None;
        }
        let id: usize = self.pools.len();
        self.pools.push(Pool::new(id, token1, token2));
        proof {
            assert(self@.pools =~= old(self)@.pools.push(self.pools@[id as int]@));
        }
        Some(id)
    }

    /// The pools from position `from_index` on, at most `limit` of them.
    /// A range that reaches beyond the last pool is cut there, and a start
    /// beyond it gives no pool: this never fails.
    pub fn get_pools(&self, from_index: u8, limit: u8) -> (listed: Vec<Pool>)
        requires
            self.wf(),
        ensures
            listed@.len() == self@.listed(from_index as int, limit as int).len(),
            forall|i: int|
                0 <= i < listed@.len() ==> (#[trigger] listed@[i])@ == self@.listed(
                    from_index as int,
                    limit as int,
                )[i],
    {
        let len: usize = self.pools.len();
        let from: usize = from_index as usize;
        let mut listed: Vec<Pool> = Vec::new();
        if from > len {
            return listed;
        }
        let wanted: usize = from + limit as usize;
        let to: usize = if wanted <= len {
            wanted
        } else {
            len
        };
        let mut next: usize = from;
        while next < to
            invariant
                from <= next <= to <= self.pools@.len(),
                listed@.len() == next - from,
                forall|i: int| 0 <= i < listed@.len() ==> (#[trigger] listed@[i])@ == self.pools@[from + i]@,
            decreases to - next,
        {
            listed.push(self.pools[next].clone());
            next += 1;
        }
        listed
    }

    /// The pool with id `pool_id`, or nothing where there is none.
    pub fn get_pool(&self, pool_id: usize) -> (pool: Option<&Pool>)
        requires
            self.wf(),
        ensures
            match pool {
                Some(pool) => self@.has_pool(pool_id as int) && pool@ == self@.pools[pool_id as int],
                None => !self@.has_pool(pool_id as int),
            },
    {
        if pool_id < self.pools.len() {
            Some(&self.pools[pool_id])
        } else {
            None
        }
    }

    /// What `account_id` holds of `token_id`: zero for an account that was
    /// never credited, nothing for an account without an entry for the
    /// asset.
    pub fn get_balance(&self, account_id: &String, token_id: &String) -> (amount: Option<u128>)
        requires
            self.wf(),
        ensures
            amount == self@.reported_balance(account_id@, token_id@),
    {
        match self.accounts.get_balance(account_id) {
            None => Some(0),
            Some(balance) => balance.get(token_id),
        }
    }

    /// What `amount_in` of `token_in` would buy in pool `pool_id`. Nothing
    /// is changed.
    pub fn get_return(&self, pool_id: usize, token_in: &String, amount_in: u128) -> (amount_out:
        Result<u128, ExchangeError>)
        requires
            self.wf(),
        ensures
            match self@.quoted(pool_id as int, token_in@, amount_in) {
                Ok(out) => amount_out == Ok::<u128, ExchangeError>(out as u128) && 0 <= out
                    <= u128::MAX,
                Err(e) => amount_out == Err::<u128, ExchangeError>(e),
            },
    {
        if pool_id >= self.pools.len() {
            return Err(ExchangeError::BadPoolId);
        }
        self.pools[pool_id].quote(token_in, amount_in)
    }

    /// Credits `amount` of `token_id` to `account_id`, once a transfer of
    /// it to the engine has been confirmed.
    pub fn deposit(&mut self, account_id: &String, token_id: &String, amount: u128) -> (done:
        Result<(), ExchangeError>)
        requires
            old(self).wf(),
        ensures
            final(self).wf(),
            match old(self)@.deposited(account_id@, token_id@, amount) {
                Ok(after) => done is Ok && final(self)@ == after,
                Err(e) => done == Err::<(), ExchangeError>(e) && *final(self) == *old(self),
            },
    {
        self.accounts.credit(account_id, token_id, amount)
    }

    /// Debits `amount` of `token_id` from `account_id` and returns the
    /// transfer to make to that account. The debit stands whatever becomes
    /// of the transfer.
    pub fn withdraw(&mut self, account_id: &String, token_id: &String, amount: u128) -> (request:
        Result<TransferRequest, ExchangeError>)
        requires
            old(self).wf(),
        ensures
            final(self).wf(),
            match old(self)@.withdrawn(account_id@, token_id@, amount) {
                Ok(after) => {
                    &&& final(self)@ == after
                    &&& request is Ok
                    &&& request->Ok_0.receiver_id@ == account_id@
                    &&& request->Ok_0.token_id@ == token_id@
                    &&& request->Ok_0.amount == amount
                },
                Err(e) => request.is_err() && request->Err_0 == e && *final(self) == *old(self),
            },
    {
        match self.accounts.debit(account_id, token_id, amount) {
            Ok(()) => Ok(
                TransferRequest {
                    receiver_id: account_id.clone(),
                    token_id: token_id.clone(),
                    amount,
                },
            ),
            Err(e) => Err(e),
        }
    }

    /// Moves `amount` of `token_id` from the balance of `account_id` into
    /// pool `pool_id`. Either both the debit and the reserve change happen,
    /// or nothing does.
    pub fn add_liquidity(
        &mut self,
        account_id: &String,
        pool_id: u8,
        token_id: &String,
        amount: u128,
    ) -> (done: Result<(), ExchangeError>)
        requires
            old(self).wf(),
        ensures
            final(self).wf(),
            match old(self)@.liquidity_added(account_id@, pool_id as int, token_id@, amount) {
                Ok(after) => done is Ok && final(self)@ == after,
                Err(e) => done == Err::<(), ExchangeError>(e) && *final(self) == *old(self),
            },
    {
        let position: usize = pool_id as usize;
        if position >= self.pools.len() {
            return Err(ExchangeError::BadPoolId);
        }
        let held: u128 = match self.accounts.get_amount(account_id, token_id) {
            Some(held) => held,
            None => { return Err(ExchangeError::NotDeposited); },
        };
        if amount > held {
            return Err(ExchangeError::InsufficientFunds);
        }
        let slot: usize = match self.pools[position].get_index(token_id) {
            Ok(slot) => slot,
            Err(e) => { return Err(e); },
        };
        if self.pools[position].liquidity[slot].checked_add(amount).is_none() {
            return Err(ExchangeError::Overflow);
        }
        self.pools[position].add_liquidity(token_id, amount)?;
        let done = self.accounts.debit(account_id, token_id, amount);
        proof {
            assert(self@.pools =~= old(self)@.pools.update(
                position as int,
                self.pools@[position as int]@,
            ));
        }
        done
    }

    /// Moves `amount` of `token_id` from pool `pool_id` to the balance of
    /// `account_id`. Either both the credit and the reserve change happen,
    /// or nothing does. Nothing asks that the account put that liquidity
    /// in.
    pub fn remove_liquidity(
        &mut self,
        account_id: &String,
        pool_id: u8,
        token_id: &String,
        amount: u128,
    ) -> (done: Result<(), ExchangeError>)
        requires
            old(self).wf(),
        ensures
            final(self).wf(),
            match old(self)@.liquidity_removed(account_id@, pool_id as int, token_id@, amount) {
                Ok(after) => done is Ok && final(self)@ == after,
                Err(e) => done == Err::<(), ExchangeError>(e) && *final(self) == *old(self),
            },
    {
        let position: usize = pool_id as usize;
        if position >= self.pools.len() {
            return Err(ExchangeError::BadPoolId);
        }
        let held: u128 = match self.accounts.get_amount(account_id, token_id) {
            Some(held) => held,
            None => 0,
        };
        if held.checked_add(amount).is_none() {
            return Err(ExchangeError::Overflow);
        }
        let slot: usize = match self.pools[position].get_index(token_id) {
            Ok(slot) => slot,
            Err(e) => { return Err(e); },
        };
        if amount > self.pools[position].liquidity[slot] {
            return Err(ExchangeError::InsufficientReserve);
        }
        self.pools[position].remove_liquidity(token_id, amount)?;
        let done = self.accounts.credit(account_id, token_id, amount);
        proof {
            assert(self@.pools =~= old(self)@.pools.update(
                position as int,
                self.pools@[position as int]@,
            ));
        }
        done
    }

    /// Swaps `amount` of `token_in` from the balance of `account_id` in
    /// pool `pool_id`: the input is debited, the quoted output of the
    /// pool's other asset is credited, and both reserves move, all as one
    /// step or not at all. The product of the pool's reserves never falls.
    pub fn swap(&mut self, account_id: &String, pool_id: usize, token_in: &String, amount: u128) -> (done:
        Result<(), ExchangeError>)
        requires
            old(self).wf(),
        ensures
            final(self).wf(),
            match old(self)@.swapped(account_id@, pool_id as int, token_in@, amount) {
                Ok(after) => {
                    &&& done is Ok
                    &&& final(self)@ == after
                    &&& after.pools[pool_id as int].product() >= old(self)@.pools[pool_id as int].product()
                },
                Err(e) => done == Err::<(), ExchangeError>(e) && *final(self) == *old(self),
            },
    {
        if pool_id >= self.pools.len() {
            return Err(ExchangeError::BadPoolId);
        }
        let held: u128 = match self.accounts.get_amount(account_id, token_in) {
            Some(held) => held,
            None => { return Err(ExchangeError::NotDeposited); },
        };
        if amount > held {
            return Err(ExchangeError::InsufficientFunds);
        }
        let bought: u128 = match self.pools[pool_id].quote(token_in, amount) {
            Ok(bought) => bought,
            Err(e) => { return Err(e); },
        };
        let slot_out: usize = match self.pools[pool_id].get_other_index(token_in) {
            Ok(slot) => slot,
            Err(e) => { return Err(e); },
        };
        let token_out: String = self.pools[pool_id].tokens[slot_out].clone();
        let held_out: u128 = if token_out == *token_in {
            held - amount
        } else {
            match self.accounts.get_amount(account_id, &token_out) {
                Some(held_out) => held_out,
                None => 0,
            }
        };
        proof {
            lemma_with_balance_touches_one(
                self@.ledger,
                account_id@,
                token_in@,
                (held - amount) as u128,
                account_id@,
                token_out@,
            );
            assert(held_out == balance_of(
                debited(self@.ledger, account_id@, token_in@, amount)->Ok_0,
                account_id@,
                token_out@,
            ));
        }
        if held_out.checked_add(bought).is_none() {
            return Err(ExchangeError::Overflow);
        }
        self.pools[pool_id].swap(token_in, amount)?;
        self.accounts.debit(account_id, token_in, amount)?;
        let done = self.accounts.credit(account_id, &token_out, bought);
        proof {
            assert(self@.pools =~= old(self)@.pools.update(
                pool_id as int,
                self.pools@[pool_id as int]@,
            ));
        }
        done
    }
}

} // verus!
