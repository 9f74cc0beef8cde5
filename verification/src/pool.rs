use vstd::prelude::*;

use crate::errors::ExchangeError;
use crate::pricing::{lemma_quote_within_reserve, lemma_swap_keeps_product, quote_amount};

verus! {

/// What a pool is, as plain mathematics: its id, its two assets in slot
/// order, and the reserve held in each slot.
pub struct PoolState {
    pub id: int,
    pub assets: Seq<Seq<char>>,
    pub reserves: Seq<int>,
}

impl PoolState {
    /// The slot of `asset`: slot 0 where it names the first member, else
    /// slot 1 where it names the second, else none.
    pub open spec fn slot_of(self, asset: Seq<char>) -> Option<int> {
        if self.assets[0] == asset {
            Some(0int)
        } else if self.assets[1] == asset {
            Some(1int)
        } else {
            None
        }
    }

    /// The same pool with the reserve of `slot` replaced by `amount`.
    pub open spec fn with_reserve(self, slot: int, amount: int) -> PoolState {
        PoolState { reserves: self.reserves.update(slot, amount), ..self }
    }

    /// Two assets, two reserves, and each reserve within the 128-bit range.
    pub open spec fn valid(self) -> bool {
        &&& 0 <= self.id
        &&& self.assets.len() == 2
        &&& self.reserves.len() == 2
        &&& 0 <= self.reserves[0] <= u128::MAX
        &&& 0 <= self.reserves[1] <= u128::MAX
    }

    /// The product of the two reserves.
    pub open spec fn product(self) -> int {
        self.reserves[0] * self.reserves[1]
    }

    /// The pool after `amount` is added to the side of `asset`: rejected
    /// where the asset is no member, or the reserve would leave the 128-bit
    /// range. The other side is not looked at.
    pub open spec fn added(self, asset: Seq<char>, amount: int) -> Result<PoolState, ExchangeError> {
        match self.slot_of(asset) {
            None => Err(ExchangeError::UnknownAsset),
            Some(s) => if self.reserves[s] + amount > u128::MAX {
                Err(ExchangeError::Overflow)
            } else {
                Ok(self.with_reserve(s, self.reserves[s] + amount))
            },
        }
    }

    /// The pool after `amount` is taken from the side of `asset`: rejected
    /// where the asset is no member, or the side holds less than `amount`.
    pub open spec fn removed(self, asset: Seq<char>, amount: int) -> Result<
        PoolState,
        ExchangeError,
    > {
        match self.slot_of(asset) {
            None => Err(ExchangeError::UnknownAsset),
            Some(s) => if amount > self.reserves[s] {
                Err(ExchangeError::InsufficientReserve)
            } else {
                Ok(self.with_reserve(s, self.reserves[s] - amount))
            },
        }
    }

    /// What `amount_in` of `asset_in` buys from the other side. Rejected
    /// where the asset is no member; where the input side is empty and
    /// nothing is put in, so that no price exists; and where the new input
    /// reserve, or the product of the output reserve and the input, would
    /// leave the 128-bit range.
    pub open spec fn quoted(self, asset_in: Seq<char>, amount_in: int) -> Result<
        int,
        ExchangeError,
    > {
        match self.slot_of(asset_in) {
            None => Err(ExchangeError::UnknownAsset),
            Some(s) => {
                let reserve_in = self.reserves[s];
                let reserve_out = self.reserves[1 - s];
                if reserve_in + amount_in == 0 {
                    Err(ExchangeError::InsufficientReserve)
                } else if reserve_in + amount_in > u128::MAX || reserve_out * amount_in
                    > u128::MAX {
                    Err(ExchangeError::Overflow)
                } else {
                    Ok(quote_amount(reserve_in, reserve_out, amount_in))
                }
            },
        }
    }

    /// The pool after a swap of `amount_in` of `asset_in`: the input side
    /// grows by the input and the other side shrinks by the quoted output.
    /// It is rejected exactly where the quote is.
    pub open spec fn swapped(self, asset_in: Seq<char>, amount_in: int) -> Result<
        PoolState,
        ExchangeError,
    > {
        match self.quoted(asset_in, amount_in) {
            Err(e) => Err(e),
            Ok(amount_out) => {
                let s = self.slot_of(asset_in)->0;
                Ok(
                    self.with_reserve(s, self.reserves[s] + amount_in).with_reserve(
                        1 - s,
                        self.reserves[1 - s] - amount_out,
                    ),
                )
            },
        }
    }
}

/// A quote is decided by the assets and the reserves, and by nothing else
/// of the pool: two pools that agree in these quote alike.
pub proof fn lemma_quote_is_decided_by_reserves(
    first: PoolState,
    second: PoolState,
    asset_in: Seq<char>,
    amount_in: int,
)
    requires
        first.assets == second.assets,
        first.reserves == second.reserves,
    ensures
        first.quoted(asset_in, amount_in) == second.quoted(asset_in, amount_in),
{
}

/// A swap that goes through leaves a valid pool whose reserve product is
/// no smaller than before, and whose id and assets are unchanged.
pub proof fn lemma_swap_never_lowers_product(pool: PoolState, asset_in: Seq<char>, amount_in: int)
    requires
        pool.valid(),
        0 <= amount_in <= u128::MAX,
        pool.swapped(asset_in, amount_in) is Ok,
    ensures
        pool.swapped(asset_in, amount_in)->Ok_0.valid(),
        pool.swapped(asset_in, amount_in)->Ok_0.product() >= pool.product(),
        pool.swapped(asset_in, amount_in)->Ok_0.id == pool.id,
        pool.swapped(asset_in, amount_in)->Ok_0.assets == pool.assets,
{
    let s = pool.slot_of(asset_in)->0;
    let reserve_in = pool.reserves[s];
    let reserve_out = pool.reserves[1 - s];
    lemma_quote_within_reserve(reserve_in, reserve_out, amount_in);
    lemma_swap_keeps_product(reserve_in, reserve_out, amount_in);
    let after = pool.swapped(asset_in, amount_in)->Ok_0;
    let amount_out = quote_amount(reserve_in, reserve_out, amount_in);
    assert(after.reserves[s] == reserve_in + amount_in);
    assert(after.reserves[1 - s] == reserve_out - amount_out);
    if s == 0 {
        assert(after.product() == (reserve_in + amount_in) * (reserve_out - amount_out));
        assert(pool.product() == reserve_in * reserve_out);
    } else {
        assert(after.product() == (reserve_out - amount_out) * (reserve_in + amount_in));
        assert(after.product() == (reserve_in + amount_in) * (reserve_out - amount_out))
            by (nonlinear_arith)
            requires
                after.product() == (reserve_out - amount_out) * (reserve_in + amount_in),
        ;
        assert(pool.product() == reserve_out * reserve_in);
        assert(reserve_out * reserve_in == reserve_in * reserve_out) by (nonlinear_arith);
    }
}

/// A liquidity pool over an ordered pair of assets.
pub struct Pool {
    /// Position of the pool in its registry, fixed at creation.
    pub id: usize,
    /// The two member assets, in slot order.
    pub tokens: [String; 2],
    /// The reserve held for each slot.
    pub liquidity: [u128; 2],
}

impl View for Pool {
    type V = PoolState;

    open spec fn view(&self) -> PoolState {
        PoolState {
            id: self.id as int,
            assets: seq![self.tokens@[0]@, self.tokens@[1]@],
            reserves: seq![self.liquidity@[0] as int, self.liquidity@[1] as int],
        }
    }
}

impl Clone for Pool {
    fn clone(&self) -> (copy: Pool)
        ensures
            copy@ == self@,
    {
        Pool {
            id: self.id,
            tokens: [self.tokens[0].clone(), self.tokens[1].clone()],
            liquidity: [self.liquidity[0], self.liquidity[1]],
        }
    }
}

impl Pool {
    /// Creates an empty pool over the pair as given. The pair is neither
    /// reordered nor checked for two distinct assets.
    pub fn new(id: usize, token1: String, token2: String) -> (pool: Pool)
        ensures
            pool@.id == id,
            pool@.assets == seq![token1@, token2@],
            pool@.reserves == seq![0int, 0int],
    {
        Pool { id, tokens: [token1, token2], liquidity: [0u128, 0u128] }
    }

    /// The slot that holds `token`.
    pub fn get_index(&self, token: &String) -> (slot: Result<usize, ExchangeError>)
        ensures
            match self@.slot_of(token@) {
                Some(s) => slot == Ok::<usize, ExchangeError>(s as usize),
                None => slot == Err::<usize, ExchangeError>(ExchangeError::UnknownAsset),
            },
    {
        if self.tokens[0] == *token {
            Ok(0)
        } else if self.tokens[1] == *token {
            Ok(1)
        } else {
            Err(ExchangeError::UnknownAsset)
        }
    }

    /// The slot opposite to the one that holds `token`.
    pub fn get_other_index(&self, token: &String) -> (slot: Result<usize, ExchangeError>)
        ensures
            match self@.slot_of(token@) {
                Some(s) => slot == Ok::<usize, ExchangeError>((1 - s) as usize),
                None => slot == Err::<usize, ExchangeError>(ExchangeError::UnknownAsset),
            },
    {
        match self.get_index(token) {
            Ok(slot) => Ok(1 - slot),
            Err(e) => Err(e),
        }
    }

    /// Adds `amount` to the reserve of `token`. Nothing asks that the other
    /// side grow in proportion.
    pub fn add_liquidity(&mut self, token: &String, amount: u128) -> (done: Result<
        (),
        ExchangeError,
    >)
        ensures
            match old(self)@.added(token@, amount as int) {
                Ok(after) => done is Ok && final(self)@ == after,
                Err(e) => done == Err::<(), ExchangeError>(e) && *final(self) == *old(self),
            },
    {
        let slot: usize = match self.get_index(token) {
            Ok(slot) => slot,
            Err(e) => { return Err(e); },
        };
        match self.liquidity[slot].checked_add(amount) {
            Some(sum) => {
                self.liquidity[slot] = sum;
                assert(self@.reserves =~= old(self)@.reserves.update(slot as int, sum as int));
                Ok(())
            },
            None => Err(ExchangeError::Overflow),
        }
    }

    /// Takes `amount` from the reserve of `token`.
    pub fn remove_liquidity(&mut self, token: &String, amount: u128) -> (done: Result<
        (),
        ExchangeError,
    >)
        ensures
            match old(self)@.removed(token@, amount as int) {
                Ok(after) => done is Ok && final(self)@ == after,
                Err(e) => done == Err::<(), ExchangeError>(e) && *final(self) == *old(self),
            },
    {
        let slot: usize = match self.get_index(token) {
            Ok(slot) => slot,
            Err(e) => { return Err(e); },
        };
        let held: u128 = self.liquidity[slot];
        if amount > held {
            return Err(ExchangeError::InsufficientReserve);
        }
        self.liquidity[slot] = held - amount;
        assert(self@.reserves =~= old(self)@.reserves.update(slot as int, held - amount));
        Ok(())
    }

    /// What `amount_in` of `token_in` would buy from the other side. The
    /// pool is only read.
    pub fn quote(&self, token_in: &String, amount_in: u128) -> (amount_out: Result<
        u128,
        ExchangeError,
    >)
        ensures
            match self@.quoted(token_in@, amount_in as int) {
                Ok(out) => amount_out == Ok::<u128, ExchangeError>(out as u128) && 0 <= out
                    <= u128::MAX,
                Err(e) => amount_out == Err::<u128, ExchangeError>(e),
            },
    {
        let slot: usize = match self.get_index(token_in) {
            Ok(slot) => slot,
            Err(e) => { return Err(e); },
        };
        let reserve_in: u128 = self.liquidity[slot];
        let reserve_out: u128 = self.liquidity[1 - slot];
        let denominator: u128 = match reserve_in.checked_add(amount_in) {
            Some(sum) => sum,
            None => { return Err(ExchangeError::Overflow); },
        };
        if denominator == 0 {
            return Err(ExchangeError::InsufficientReserve);
        }
        let numerator: u128 = match reserve_out.checked_mul(amount_in) {
            Some(product) => product,
            None => { return Err(ExchangeError::Overflow); },
        };
        proof {
            lemma_quote_within_reserve(reserve_in as int, reserve_out as int, amount_in as int);
        }
        Ok(numerator / denominator)
    }

    /// Quotes `amount_in` of `token_in` and applies both legs at once: the
    /// input side grows by `amount_in`, the other side shrinks by the
    /// output, which is returned.
    pub fn swap(&mut self, token_in: &String, amount_in: u128) -> (amount_out: Result<
        u128,
        ExchangeError,
    >)
        ensures
            match old(self)@.swapped(token_in@, amount_in as int) {
                Ok(after) => {
                    &&& final(self)@ == after
                    &&& amount_out == Ok::<u128, ExchangeError>(
                        old(self)@.quoted(token_in@, amount_in as int)->Ok_0 as u128,
                    )
                },
                Err(e) => amount_out == Err::<u128, ExchangeError>(e) && *final(self) == *old(
                    self,
                ),
            },
            final(self)@.product() >= old(self)@.product(),
    {
        let bought: u128 = match self.quote(token_in, amount_in) {
            Ok(bought) => bought,
            Err(e) => { return Err(e); },
        };
        let slot: usize = match self.get_index(token_in) {
            Ok(slot) => slot,
            Err(e) => { return Err(e); },
        };
        proof {
            lemma_quote_within_reserve(
                self.liquidity@[slot as int] as int,
                self.liquidity@[1 - slot] as int,
                amount_in as int,
            );
            lemma_swap_never_lowers_product(self@, token_in@, amount_in as int);
        }
        let reserve_in: u128 = self.liquidity[slot];
        let reserve_out: u128 = self.liquidity[1 - slot];
        self.liquidity[slot] = reserve_in + amount_in;
        self.liquidity[1 - slot] = reserve_out - bought;
        assert(self@.reserves =~= old(self)@.swapped(token_in@, amount_in as int)->Ok_0.reserves);
        Ok(bought)
    }
}

} // verus!
