use vstd::prelude::*;

use crate::errors::ExchangeError;
use crate::ledger::{credited, debited, has_entry, Ledger};

verus! {

/// One asset of an account and the amount held of it.
struct AssetAmount {
    asset: String,
    amount: u128,
}

/// The balance entry of one account: for each asset that was ever credited
/// to it, the amount held, in the asset's smallest unit.
pub struct Balance {
    entries: Vec<AssetAmount>,
}

impl View for Balance {
    type V = Map<Seq<char>, u128>;

    /// The amount held per asset. An asset without an entry is no key.
    closed spec fn view(&self) -> Map<Seq<char>, u128> {
        Map::new(
            |asset: Seq<char>| self.assets().contains(asset),
            |asset: Seq<char>| self.entries@[self.assets().index_of(asset)].amount,
        )
    }
}

impl Balance {
    spec fn assets(&self) -> Seq<Seq<char>> {
        Seq::new(self.entries@.len(), |i: int| self.entries@[i].asset@)
    }

    /// No asset has two entries.
    pub closed spec fn wf(&self) -> bool {
        self.assets().no_duplicates()
    }

    proof fn lemma_entry_is_mapped(&self, i: int)
        requires
            self.wf(),
            0 <= i < self.entries@.len(),
        ensures
            self@.contains_key(self.entries@[i].asset@),
            self@[self.entries@[i].asset@] == self.entries@[i].amount,
    {
        let assets = self.assets();
        assert(assets[i] == self.entries@[i].asset@);
        assert(assets.contains(assets[i]));
        let j = assets.index_of(assets[i]);
        assert(0 <= j < assets.len() && assets[j] == assets[i]);
    }

    proof fn lemma_absent_is_unmapped(&self, asset: Seq<char>)
        requires
            forall|j: int| 0 <= j < self.entries@.len() ==> self.entries@[j].asset@ != asset,
        ensures
            !self@.contains_key(asset),
    {
        let assets = self.assets();
        if assets.contains(asset) {
            let j = choose|j: int| 0 <= j < assets.len() && assets[j] == asset;
            assert(self.entries@[j].asset@ == asset);
        }
    }

    /// A balance entry without any asset.
    pub fn new() -> (balance: Balance)
        ensures
            balance.wf(),
            balance@ == Map::<Seq<char>, u128>::empty(),
    {
        let balance = Balance { entries: Vec::new() };
        assert(balance@ =~= Map::<Seq<char>, u128>::empty());
        balance
    }

    fn find(&self, token: &String) -> (found: Option<usize>)
        ensures
            match found {
                Some(i) => i < self.entries@.len() && self.entries@[i as int].asset@ == token@,
                None => forall|j: int|
                    0 <= j < self.entries@.len() ==> self.entries@[j].asset@ != token@,
            },
    {
        let mut i: usize = 0;
        while i < self.entries.len()
            invariant
                i <= self.entries@.len(),
                forall|j: int| 0 <= j < i ==> self.entries@[j].asset@ != token@,
            decreases self.entries@.len() - i,
        {
            if self.entries[i].asset == *token {
                return Some(i);
            }
            i += 1;
        }
        None
    }

    /// The amount held of `token`, or nothing where the account has no
    /// entry for it.
    pub fn get(&self, token: &String) -> (amount: Option<u128>)
        requires
            self.wf(),
        ensures
            amount == if self@.contains_key(token@) {
                Some(self@[token@])
            } else {
                None
            },
    {
        match self.find(token) {
            Some(i) => {
                proof {
                    self.lemma_entry_is_mapped(i as int);
                }
                Some(self.entries[i].amount)
            },
            None => {
                proof {
                    self.lemma_absent_is_unmapped(token@);
                }
                None
            },
        }
    }

    /// Every asset that has an entry, each once, with the amount held.
    pub fn entries(&self) -> (listed: Vec<(String, u128)>)
        requires
            self.wf(),
        ensures
            forall|k: int|
                0 <= k < listed@.len() ==> self@.contains_key((#[trigger] listed@[k]).0@)
                    && self@[listed@[k].0@] == listed@[k].1,
            forall|asset: Seq<char>|
                self@.contains_key(asset) ==> exists|k: int|
                    0 <= k < listed@.len() && (#[trigger] listed@[k]).0@ == asset,
            forall|j: int, k: int|
                0 <= j < k < listed@.len() ==> (#[trigger] listed@[j]).0@ != (
                #[trigger] listed@[k]).0@,
    {
        let mut listed: Vec<(String, u128)> = Vec::new();
        let mut i: usize = 0;
        while i < self.entries.len()
            invariant
                i <= self.entries@.len(),
                listed@.len() == i,
                forall|k: int|
                    0 <= k < i ==> (#[trigger] listed@[k]).0@ == self.entries@[k].asset@
                        && listed@[k].1 == self.entries@[k].amount,
            decreases self.entries@.len() - i,
        {
            listed.push((self.entries[i].asset.clone(), self.entries[i].amount));
            i += 1;
        }
        proof {
            assert forall|k: int| 0 <= k < listed@.len() implies self@.contains_key(
                (#[trigger] listed@[k]).0@,
            ) && self@[listed@[k].0@] == listed@[k].1 by {
                self.lemma_entry_is_mapped(k);
            }
            assert forall|asset: Seq<char>| self@.contains_key(asset) implies exists|k: int|
                0 <= k < listed@.len() && (#[trigger] listed@[k]).0@ == asset by {
                let k = self.assets().index_of(asset);
                assert(0 <= k < self.assets().len() && self.assets()[k] == asset);
                assert(listed@[k].0@ == asset);
            }
            assert forall|j: int, k: int| 0 <= j < k < listed@.len() implies (
            #[trigger] listed@[j]).0@ != (#[trigger] listed@[k]).0@ by {
                assert(self.assets()[j] != self.assets()[k]);
            }
        }
        listed
    }

    /// Sets the amount held of `token`, creating the entry where there is
    /// none, and returns the amount that was held before.
    pub fn insert(&mut self, token: &String, amount: u128) -> (before: Option<u128>)
        requires
            old(self).wf(),
        ensures
            final(self).wf(),
            final(self)@ == old(self)@.insert(token@, amount),
            before == if old(self)@.contains_key(token@) {
                Some(old(self)@[token@])
            } else {
                None
            },
    {
        match self.find(token) {
            Some(i) => {
                proof {
                    self.lemma_entry_is_mapped(i as int);
                }
                let before: u128 = self.entries[i].amount;
                self.entries[i].amount = amount;
                proof {
                    assert(self.assets() =~= old(self).assets());
                    assert forall|asset: Seq<char>|
                        self@.contains_key(asset) implies #[trigger] self@[asset] == old(
                        self,
                    )@.insert(token@, amount)[asset] by {
                        let j = self.assets().index_of(asset);
                        assert(0 <= j < self.assets().len() && self.assets()[j] == asset);
                        assert(self@[asset] == self.entries@[j].amount);
                        if j == i {
                            assert(asset == token@);
                        } else {
                            assert(self.entries@[j] == old(self).entries@[j]);
                            old(self).lemma_entry_is_mapped(j);
                            assert(old(self).assets()[j] != old(self).assets()[i as int]);
                            assert(asset != token@);
                        }
                    }
                    assert(self@ =~= old(self)@.insert(token@, amount));
                }
                Some(before)
            },
            None => {
                proof {
                    self.lemma_absent_is_unmapped(token@);
                }
                self.entries.push(AssetAmount { asset: token.clone(), amount });
                proof {
                    let n = old(self).entries@.len() as int;
                    assert(self.assets() =~= old(self).assets().push(token@));
                    assert(self.wf()) by {
                        assert forall|a: int, b: int|
                            0 <= a < self.assets().len() && 0 <= b < self.assets().len() && a
                                != b implies self.assets()[a] != self.assets()[b] by {
                            if a < n && b < n {
                                assert(old(self).assets()[a] != old(self).assets()[b]);
                            } else if a < n {
                                assert(old(self).entries@[a].asset@ != token@);
                            } else {
                                assert(old(self).entries@[b].asset@ != token@);
                            }
                        }
                    }
                    assert forall|asset: Seq<char>|
                        self@.contains_key(asset) <==> old(self)@.insert(
                            token@,
                            amount,
                        ).contains_key(asset) by {
                        if old(self).assets().contains(asset) {
                            let j = old(self).assets().index_of(asset);
                            assert(self.assets()[j] == asset);
                        }
                        if asset == token@ {
                            assert(self.assets()[n] == asset);
                        }
                        if self.assets().contains(asset) && asset != token@ {
                            let j = self.assets().index_of(asset);
                            assert(j < n);
                            assert(old(self).assets()[j] == asset);
                        }
                    }
                    assert forall|asset: Seq<char>|
                        self@.contains_key(asset) implies #[trigger] self@[asset] == old(
                        self,
                    )@.insert(token@, amount)[asset] by {
                        let j = self.assets().index_of(asset);
                        assert(0 <= j < self.assets().len() && self.assets()[j] == asset);
                        if j < n {
                            assert(old(self).assets()[j] == asset);
                            old(self).lemma_entry_is_mapped(j);
                        }
                    }
                    assert(self@ =~= old(self)@.insert(token@, amount));
                }
                None
            },
        }
    }
}

/// One account and its balance entry.
struct AccountBalance {
    account: String,
    balance: Balance,
}

/// The account ledger: per account, the balance entry. An account's entry
/// comes into being with the first credit and is never removed.
pub struct AccountsInfo {
    accounts: Vec<AccountBalance>,
}

impl View for AccountsInfo {
    type V = Ledger;

    closed spec fn view(&self) -> Ledger {
        Map::new(
            |account: Seq<char>| self.names().contains(account),
            |account: Seq<char>| self.accounts@[self.names().index_of(account)].balance@,
        )
    }
}

impl AccountsInfo {
    spec fn names(&self) -> Seq<Seq<char>> {
        Seq::new(self.accounts@.len(), |i: int| self.accounts@[i].account@)
    }

    /// No account has two entries, and each entry is well formed.
    pub closed spec fn wf(&self) -> bool {
        &&& self.names().no_duplicates()
        &&& forall|i: int| 0 <= i < self.accounts@.len() ==> self.accounts@[i].balance.wf()
    }

    proof fn lemma_account_is_mapped(&self, i: int)
        requires
            self.wf(),
            0 <= i < self.accounts@.len(),
        ensures
            self@.contains_key(self.accounts@[i].account@),
            self@[self.accounts@[i].account@] == self.accounts@[i].balance@,
    {
        let names = self.names();
        assert(names[i] == self.accounts@[i].account@);
        assert(names.contains(names[i]));
        let j = names.index_of(names[i]);
        assert(0 <= j < names.len() && names[j] == names[i]);
    }

    proof fn lemma_absent_is_unmapped(&self, account: Seq<char>)
        requires
            forall|j: int| 0 <= j < self.accounts@.len() ==> self.accounts@[j].account@ != account,
        ensures
            !self@.contains_key(account),
    {
        let names = self.names();
        if names.contains(account) {
            let j = choose|j: int| 0 <= j < names.len() && names[j] == account;
            assert(self.accounts@[j].account@ == account);
        }
    }

    /// A ledger that differs from a well-formed one only in the balance
    /// entry at one position maps that account to the new entry.
    proof fn lemma_replaced(&self, before: &AccountsInfo, i: int)
        requires
            before.wf(),
            0 <= i < before.accounts@.len(),
            self.accounts@.len() == before.accounts@.len(),
            forall|j: int|
                0 <= j < before.accounts@.len() && j != i ==> self.accounts@[j]
                    == before.accounts@[j],
            self.accounts@[i].account@ == before.accounts@[i].account@,
            self.accounts@[i].balance.wf(),
        ensures
            self.wf(),
            self@ == before@.insert(before.accounts@[i].account@, self.accounts@[i].balance@),
    {
        let name = before.accounts@[i].account@;
        assert(self.names() =~= before.names());
        let after = before@.insert(name, self.accounts@[i].balance@);
        before.lemma_account_is_mapped(i);
        assert(self@.dom() =~= after.dom());
        assert forall|account: Seq<char>| self@.contains_key(account) implies #[trigger] self@[account]
            == after[account] by {
            let j = self.names().index_of(account);
            assert(0 <= j < self.names().len() && self.names()[j] == account);
            assert(self@[account] == self.accounts@[j].balance@);
            if j != i {
                before.lemma_account_is_mapped(j);
                assert(before.names()[j] != before.names()[i]);
            }
        }
        assert(self@ =~= after);
    }

    /// A ledger that is a well-formed one with one new account at the end
    /// maps that account to its entry.
    proof fn lemma_appended(&self, before: &AccountsInfo)
        requires
            before.wf(),
            self.accounts@.len() == before.accounts@.len() + 1,
            forall|j: int|
                0 <= j < before.accounts@.len() ==> self.accounts@[j] == before.accounts@[j],
            self.accounts@.last().balance.wf(),
            forall|j: int|
                0 <= j < before.accounts@.len() ==> before.accounts@[j].account@
                    != self.accounts@.last().account@,
        ensures
            self.wf(),
            self@ == before@.insert(
                self.accounts@.last().account@,
                self.accounts@.last().balance@,
            ),
    {
        let n = before.accounts@.len() as int;
        let name = self.accounts@.last().account@;
        let after = before@.insert(name, self.accounts@.last().balance@);
        assert(self.names() =~= before.names().push(name));
        assert forall|a: int, b: int|
            0 <= a < self.names().len() && 0 <= b < self.names().len() && a
                != b implies self.names()[a] != self.names()[b] by {
            if a < n && b < n {
                assert(before.names()[a] != before.names()[b]);
            } else if a < n {
                assert(before.accounts@[a].account@ != name);
            } else {
                assert(before.accounts@[b].account@ != name);
            }
        }
        assert forall|account: Seq<char>| self@.contains_key(account) <==> after.contains_key(
            account,
        ) by {
            if before.names().contains(account) {
                let j = before.names().index_of(account);
                assert(self.names()[j] == account);
            }
            if account == name {
                assert(self.names()[n] == account);
            }
            if self.names().contains(account) && account != name {
                let j = self.names().index_of(account);
                assert(j < n);
                assert(before.names()[j] == account);
            }
        }
        assert forall|account: Seq<char>| self@.contains_key(account) implies #[trigger] self@[account]
            == after[account] by {
            let j = self.names().index_of(account);
            assert(0 <= j < self.names().len() && self.names()[j] == account);
            assert(self@[account] == self.accounts@[j].balance@);
            if j < n {
                assert(before.names()[j] == account);
                before.lemma_account_is_mapped(j);
            }
        }
        assert(self@ =~= after);
    }

    /// A ledger without any account.
    pub fn new() -> (ledger: AccountsInfo)
        ensures
            ledger.wf(),
            ledger@ == Map::<Seq<char>, Map<Seq<char>, u128>>::empty(),
    {
        let ledger = AccountsInfo { accounts: Vec::new() };
        assert(ledger@ =~= Map::<Seq<char>, Map<Seq<char>, u128>>::empty());
        ledger
    }

    fn find(&self, account: &String) -> (found: Option<usize>)
        ensures
            match found {
                Some(i) => i < self.accounts@.len() && self.accounts@[i as int].account@
                    == account@,
                None => forall|j: int|
                    0 <= j < self.accounts@.len() ==> self.accounts@[j].account@ != account@,
            },
    {
        let mut i: usize = 0;
        while i < self.accounts.len()
            invariant
                i <= self.accounts@.len(),
                forall|j: int| 0 <= j < i ==> self.accounts@[j].account@ != account@,
            decreases self.accounts@.len() - i,
        {
            if self.accounts[i].account == *account {
                return Some(i);
            }
            i += 1;
        }
        None
    }

    /// The balance entry of `account`, or nothing where the account was
    /// never credited. A caller reads a missing entry as all zero.
    pub fn get_balance(&self, account: &String) -> (entry: Option<&Balance>)
        requires
            self.wf(),
        ensures
            match entry {
                Some(balance) => {
                    &&& self@.contains_key(account@)
                    &&& balance@ == self@[account@]
                    &&& balance.wf()
                },
                None => !self@.contains_key(account@),
            },
    {
        match self.find(account) {
            Some(i) => {
                proof {
                    self.lemma_account_is_mapped(i as int);
                }
                Some(&self.accounts[i].balance)
            },
            None => {
                proof {
                    self.lemma_absent_is_unmapped(account@);
                }
                None
            },
        }
    }

    /// Every account that has a balance entry, each once.
    pub fn account_ids(&self) -> (listed: Vec<String>)
        requires
            self.wf(),
        ensures
            forall|k: int| 0 <= k < listed@.len() ==> self@.contains_key((#[trigger] listed@[k])@),
            forall|account: Seq<char>|
                self@.contains_key(account) ==> exists|k: int|
                    0 <= k < listed@.len() && (#[trigger] listed@[k])@ == account,
            forall|j: int, k: int|
                0 <= j < k < listed@.len() ==> (#[trigger] listed@[j])@ != (#[trigger] listed@[k])@,
    {
        let mut listed: Vec<String> = Vec::new();
        let mut i: usize = 0;
        while i < self.accounts.len()
            invariant
                i <= self.accounts@.len(),
                listed@.len() == i,
                forall|k: int| 0 <= k < i ==> (#[trigger] listed@[k])@ == self.accounts@[k].account@,
            decreases self.accounts@.len() - i,
        {
            listed.push(self.accounts[i].account.clone());
            i += 1;
        }
        proof {
            assert forall|k: int| 0 <= k < listed@.len() implies self@.contains_key(
                (#[trigger] listed@[k])@,
            ) by {
                self.lemma_account_is_mapped(k);
            }
            assert forall|account: Seq<char>| self@.contains_key(account) implies exists|k: int|
                0 <= k < listed@.len() && (#[trigger] listed@[k])@ == account by {
                let k = self.names().index_of(account);
                assert(0 <= k < self.names().len() && self.names()[k] == account);
                assert(listed@[k]@ == account);
            }
            assert forall|j: int, k: int| 0 <= j < k < listed@.len() implies (
            #[trigger] listed@[j])@ != (#[trigger] listed@[k])@ by {
                assert(self.names()[j] != self.names()[k]);
            }
        }
        listed
    }

    /// What `account` holds of `asset`, or nothing where it has no entry for
    /// the asset.
    pub fn get_amount(&self, account: &String, asset: &String) -> (amount: Option<u128>)
        requires
            self.wf(),
        ensures
            amount == if has_entry(self@, account@, asset@) {
                Some(self@[account@][asset@])
            } else {
                None
            },
    {
        match self.get_balance(account) {
            Some(balance) => balance.get(asset),
            None => None,
        }
    }

    /// Adds `amount` to what `account` holds of `asset`. A missing entry is
    /// created at zero first.
    pub fn credit(&mut self, account: &String, asset: &String, amount: u128) -> (done: Result<
        (),
        ExchangeError,
    >)
        requires
            old(self).wf(),
        ensures
            final(self).wf(),
            match credited(old(self)@, account@, asset@, amount) {
                Ok(after) => done is Ok && final(self)@ == after,
                Err(e) => done == Err::<(), ExchangeError>(e) && *final(self) == *old(self),
            },
    {
        match self.find(account) {
            Some(i) => {
                proof {
                    self.lemma_account_is_mapped(i as int);
                }
                let held: u128 = match self.accounts[i].balance.get(asset) {
                    Some(held) => held,
                    None => 0,
                };
                match held.checked_add(amount) {
                    Some(sum) => {
                        self.accounts[i].balance.insert(asset, sum);
                        proof {
                            self.lemma_replaced(old(self), i as int);
                        }
                        Ok(())
                    },
                    None => Err(ExchangeError::Overflow),
                }
            },
            None => {
                proof {
                    self.lemma_absent_is_unmapped(account@);
                }
                let mut balance = Balance::new();
                balance.insert(asset, amount);
                self.accounts.push(AccountBalance { account: account.clone(), balance });
                proof {
                    self.lemma_appended(old(self));
                }
                Ok(())
            },
        }
    }

    /// Takes `amount` from what `account` holds of `asset`. It goes through
    /// only where the entry exists and holds at least `amount`, so that no
    /// balance ever falls below zero.
    pub fn debit(&mut self, account: &String, asset: &String, amount: u128) -> (done: Result<
        (),
        ExchangeError,
    >)
        requires
            old(self).wf(),
        ensures
            final(self).wf(),
            match debited(old(self)@, account@, asset@, amount) {
                Ok(after) => done is Ok && final(self)@ == after,
                Err(e) => done == Err::<(), ExchangeError>(e) && *final(self) == *old(self),
            },
    {
        let i: usize = match self.find(account) {
            Some(i) => i,
            None => {
                proof {
                    self.lemma_absent_is_unmapped(account@);
                }
                return Err(ExchangeError::NotDeposited);
            },
        };
        proof {
            self.lemma_account_is_mapped(i as int);
        }
        let held: u128 = match self.accounts[i].balance.get(asset) {
            Some(held) => held,
            None => { return Err(ExchangeError::NotDeposited); },
        };
        if amount > held {
            return Err(ExchangeError::InsufficientFunds);
        }
        self.accounts[i].balance.insert(asset, held - amount);
        proof {
            self.lemma_replaced(old(self), i as int);
        }
        Ok(())
    }
}

} // verus!
