use amm_engine::balance::{AccountsInfo, Balance};
use amm_engine::contract::Contract;
use amm_engine::pool::Pool;

fn name(s: &str) -> String {
    String::from(s)
}

#[test]
fn entries_list_each_asset_once() {
    let mut balance = Balance::new();
    assert!(balance.entries().is_empty());
    balance.insert(&name("bob.near"), 5);
    balance.insert(&name("charlie.near"), 7);
    balance.insert(&name("bob.near"), 6);
    let mut listed = balance.entries();
    listed.sort();
    assert_eq!(listed, vec![(name("bob.near"), 6), (name("charlie.near"), 7)]);
}

#[test]
fn account_ids_list_each_account_once() {
    let mut ledger = AccountsInfo::new();
    assert!(ledger.account_ids().is_empty());
    ledger.credit(&name("alice.near"), &name("bob.near"), 1).unwrap();
    ledger.credit(&name("eugene.near"), &name("bob.near"), 2).unwrap();
    ledger.credit(&name("alice.near"), &name("charlie.near"), 3).unwrap();
    ledger.debit(&name("eugene.near"), &name("bob.near"), 2).unwrap();
    let mut listed = ledger.account_ids();
    listed.sort();
    assert_eq!(listed, vec![name("alice.near"), name("eugene.near")]);
}

#[test]
fn engine_reports_its_parts() {
    let mut contract = Contract::new(name("owner.near"));
    assert_eq!(contract.owner_id(), &name("owner.near"));
    assert_eq!(contract.pool_count(), 0);
    contract.create_pool(&name("owner.near"), name("bob.near"), name("charlie.near"));
    contract.create_pool(&name("owner.near"), name("bob.near"), name("danny.near"));
    assert_eq!(contract.pool_count(), 2);
    contract.deposit(&name("alice.near"), &name("bob.near"), 9).unwrap();
    assert_eq!(contract.accounts().get_amount(&name("alice.near"), &name("bob.near")), Some(9));
    assert_eq!(contract.accounts().account_ids(), vec![name("alice.near")]);
}

#[test]
fn restore_gives_the_saved_engine() {
    let mut ledger = AccountsInfo::new();
    ledger.credit(&name("alice.near"), &name("bob.near"), 2000).unwrap();
    let mut first = Pool::new(0, name("bob.near"), name("charlie.near"));
    first.add_liquidity(&name("bob.near"), 100).unwrap();
    first.add_liquidity(&name("charlie.near"), 100).unwrap();
    let second = Pool::new(1, name("bob.near"), name("danny.near"));
    let mut contract = Contract::restore(name("owner.near"), vec![first, second], ledger).unwrap();
    assert_eq!(contract.owner_id(), &name("owner.near"));
    assert_eq!(contract.pool_count(), 2);
    assert_eq!(contract.get_pool(0).unwrap().liquidity, [100, 100]);
    assert_eq!(contract.get_pool(1).unwrap().tokens, [name("bob.near"), name("danny.near")]);
    assert_eq!(contract.get_balance(&name("alice.near"), &name("bob.near")), Some(2000));
    assert_eq!(contract.swap(&name("alice.near"), 0, &name("bob.near"), 50), Ok(()));
    assert_eq!(contract.get_pool(0).unwrap().liquidity, [150, 67]);
    assert_eq!(contract.create_pool(&name("owner.near"), name("a"), name("b")), Some(2));
}

#[test]
fn restore_refuses_pools_out_of_place() {
    let first = Pool::new(1, name("bob.near"), name("charlie.near"));
    assert!(Contract::restore(name("owner.near"), vec![first], AccountsInfo::new()).is_none());
    let first = Pool::new(0, name("bob.near"), name("charlie.near"));
    let second = Pool::new(0, name("bob.near"), name("charlie.near"));
    assert!(
        Contract::restore(name("owner.near"), vec![first, second], AccountsInfo::new()).is_none()
    );
    assert!(Contract::restore(name("owner.near"), Vec::new(), AccountsInfo::new()).is_some());
}
