use amm_engine::contract::Contract;
use amm_engine::errors::ExchangeError;

fn name(s: &str) -> String {
    String::from(s)
}

fn owner() -> String {
    name("owner.near")
}

fn token_a() -> String {
    name("bob.near")
}

fn token_b() -> String {
    name("charlie.near")
}

fn alice() -> String {
    name("alice.near")
}

fn engine_with_pool() -> Contract {
    let mut contract = Contract::new(owner());
    assert_eq!(contract.create_pool(&owner(), token_a(), token_b()), Some(0));
    contract
}

fn engine_with_reserves(a: u128, b: u128) -> Contract {
    let mut contract = engine_with_pool();
    let provider = name("eugene.near");
    contract.deposit(&provider, &token_a(), a).unwrap();
    contract.deposit(&provider, &token_b(), b).unwrap();
    contract.add_liquidity(&provider, 0, &token_a(), a).unwrap();
    contract.add_liquidity(&provider, 0, &token_b(), b).unwrap();
    contract
}

fn reserves(contract: &Contract, id: usize) -> [u128; 2] {
    contract.get_pool(id).unwrap().liquidity
}

#[test]
fn create_pool() {
    let mut contract = Contract::new(owner());
    contract.create_pool(&owner(), name("alice.near"), name("bob.near"));
    let pool = contract.get_pool(0).unwrap();
    assert!(pool.tokens[0] == name("alice.near"));
    assert!(pool.tokens[1] == name("bob.near"));
    assert!(pool.liquidity == [0, 0]);
    assert!(pool.id == 0);
}

#[test]
fn swap() {
    let mut contract = Contract::new(owner());
    contract.create_pool(&owner(), name("bob.near"), name("charlie.near"));
    contract.deposit(&name("alice.near"), &name("bob.near"), 20000).unwrap();
    let balance = contract.get_balance(&name("alice.near"), &name("bob.near")).unwrap();
    assert_eq!(balance, 20000);
    contract.deposit(&name("alice.near"), &name("charlie.near"), 30000).unwrap();
    let balance = contract.get_balance(&name("alice.near"), &name("charlie.near")).unwrap();
    assert_eq!(balance, 30000);
}

#[test]
fn pool_ids_follow_creation_order() {
    let mut contract = Contract::new(owner());
    assert!(contract.get_pool(0).is_none());
    assert_eq!(contract.create_pool(&owner(), token_a(), token_b()), Some(0));
    assert_eq!(contract.create_pool(&owner(), token_b(), token_a()), Some(1));
    assert_eq!(contract.create_pool(&owner(), token_a(), token_a()), Some(2));
    assert_eq!(contract.get_pool(1).unwrap().id, 1);
    assert_eq!(contract.get_pool(1).unwrap().tokens, [token_b(), token_a()]);
    assert_eq!(contract.get_pool(2).unwrap().tokens, [token_a(), token_a()]);
    assert!(contract.get_pool(3).is_none());
}

#[test]
fn only_the_owner_creates_pools() {
    let mut contract = Contract::new(owner());
    assert_eq!(contract.create_pool(&alice(), token_a(), token_b()), None);
    assert!(contract.get_pool(0).is_none());
    assert!(contract.get_pools(0, 10).is_empty());
}

#[test]
fn liquidity_then_quote() {
    let mut contract = engine_with_pool();
    assert_eq!(reserves(&contract, 0), [0, 0]);
    contract.deposit(&alice(), &token_a(), 100).unwrap();
    contract.deposit(&alice(), &token_b(), 100).unwrap();
    assert_eq!(contract.add_liquidity(&alice(), 0, &token_a(), 100), Ok(()));
    assert_eq!(contract.add_liquidity(&alice(), 0, &token_b(), 100), Ok(()));
    assert_eq!(reserves(&contract, 0), [100, 100]);
    assert_eq!(contract.get_return(0, &token_a(), 50), Ok(33));
    assert_eq!(contract.get_return(0, &token_a(), 50), Ok(33));
    assert_eq!(reserves(&contract, 0), [100, 100]);
    assert_eq!(contract.get_balance(&alice(), &token_a()), Some(0));
}

#[test]
fn deposit_then_swap() {
    let mut contract = engine_with_reserves(100, 100);
    contract.deposit(&alice(), &token_a(), 2000).unwrap();
    assert_eq!(contract.get_balance(&alice(), &token_b()), None);
    assert_eq!(contract.swap(&alice(), 0, &token_a(), 50), Ok(()));
    assert_eq!(contract.get_balance(&alice(), &token_a()), Some(1950));
    assert_eq!(contract.get_balance(&alice(), &token_b()), Some(33));
    assert_eq!(reserves(&contract, 0), [150, 67]);
}

#[test]
fn swap_adds_to_an_existing_output_balance() {
    let mut contract = engine_with_reserves(100, 100);
    contract.deposit(&alice(), &token_a(), 2000).unwrap();
    contract.deposit(&alice(), &token_b(), 3000).unwrap();
    assert_eq!(contract.swap(&alice(), 0, &token_b(), 50), Ok(()));
    assert_eq!(contract.get_balance(&alice(), &token_a()), Some(2033));
    assert_eq!(contract.get_balance(&alice(), &token_b()), Some(2950));
    assert_eq!(reserves(&contract, 0), [67, 150]);
}

#[test]
fn swap_in_a_pool_of_one_asset_twice() {
    let mut contract = Contract::new(owner());
    assert_eq!(contract.create_pool(&owner(), token_a(), token_a()), Some(0));
    contract.deposit(&alice(), &token_a(), 1000).unwrap();
    contract.add_liquidity(&alice(), 0, &token_a(), 100).unwrap();
    assert_eq!(reserves(&contract, 0), [100, 0]);
    assert_eq!(contract.swap(&alice(), 0, &token_a(), 50), Ok(()));
    assert_eq!(reserves(&contract, 0), [150, 0]);
    assert_eq!(contract.get_balance(&alice(), &token_a()), Some(850));
}

#[test]
fn bad_pool_id_changes_nothing() {
    let mut contract = engine_with_reserves(100, 100);
    contract.deposit(&alice(), &token_a(), 2000).unwrap();
    assert_eq!(contract.add_liquidity(&alice(), 1, &token_a(), 10), Err(ExchangeError::BadPoolId));
    assert_eq!(
        contract.remove_liquidity(&alice(), 1, &token_a(), 10),
        Err(ExchangeError::BadPoolId)
    );
    assert_eq!(contract.swap(&alice(), 1, &token_a(), 10), Err(ExchangeError::BadPoolId));
    assert_eq!(contract.add_liquidity(&alice(), 255, &token_a(), 10), Err(ExchangeError::BadPoolId));
    assert_eq!(contract.swap(&alice(), usize::MAX, &token_a(), 10), Err(ExchangeError::BadPoolId));
    assert_eq!(contract.get_return(1, &token_a(), 10), Err(ExchangeError::BadPoolId));
    assert_eq!(contract.get_balance(&alice(), &token_a()), Some(2000));
    assert_eq!(contract.get_balance(&alice(), &token_b()), None);
    assert_eq!(reserves(&contract, 0), [100, 100]);
    assert!(contract.get_pool(1).is_none());
}

#[test]
fn bad_pool_id_comes_before_other_errors() {
    let mut contract = Contract::new(owner());
    assert_eq!(contract.add_liquidity(&alice(), 0, &token_a(), 10), Err(ExchangeError::BadPoolId));
    assert_eq!(contract.swap(&alice(), 0, &token_a(), 10), Err(ExchangeError::BadPoolId));
    assert_eq!(
        contract.remove_liquidity(&alice(), 0, &token_a(), 10),
        Err(ExchangeError::BadPoolId)
    );
}

#[test]
fn add_liquidity_rejections_change_nothing() {
    let mut contract = engine_with_reserves(100, 100);
    assert_eq!(
        contract.add_liquidity(&alice(), 0, &token_a(), 10),
        Err(ExchangeError::NotDeposited)
    );
    contract.deposit(&alice(), &token_a(), 5).unwrap();
    assert_eq!(
        contract.add_liquidity(&alice(), 0, &token_b(), 1),
        Err(ExchangeError::NotDeposited)
    );
    assert_eq!(
        contract.add_liquidity(&alice(), 0, &token_a(), 6),
        Err(ExchangeError::InsufficientFunds)
    );
    let stranger = name("danny.near");
    contract.deposit(&alice(), &stranger, 50).unwrap();
    assert_eq!(
        contract.add_liquidity(&alice(), 0, &stranger, 10),
        Err(ExchangeError::UnknownAsset)
    );
    assert_eq!(contract.get_balance(&alice(), &stranger), Some(50));
    assert_eq!(contract.get_balance(&alice(), &token_a()), Some(5));
    assert_eq!(reserves(&contract, 0), [100, 100]);
}

#[test]
fn add_liquidity_rejects_reserve_overflow() {
    let mut contract = engine_with_reserves(100, 100);
    contract.deposit(&alice(), &token_a(), u128::MAX).unwrap();
    assert_eq!(
        contract.add_liquidity(&alice(), 0, &token_a(), u128::MAX - 99),
        Err(ExchangeError::Overflow)
    );
    assert_eq!(contract.get_balance(&alice(), &token_a()), Some(u128::MAX));
    assert_eq!(reserves(&contract, 0), [100, 100]);
}

#[test]
fn remove_liquidity_credits_the_caller() {
    let mut contract = engine_with_reserves(100, 100);
    assert_eq!(contract.remove_liquidity(&alice(), 0, &token_a(), 40), Ok(()));
    assert_eq!(contract.get_balance(&alice(), &token_a()), Some(40));
    assert_eq!(reserves(&contract, 0), [60, 100]);
}

#[test]
fn remove_liquidity_rejections_change_nothing() {
    let mut contract = engine_with_reserves(100, 100);
    assert_eq!(
        contract.remove_liquidity(&alice(), 0, &token_a(), 101),
        Err(ExchangeError::InsufficientReserve)
    );
    assert_eq!(
        contract.remove_liquidity(&alice(), 0, &name("danny.near"), 1),
        Err(ExchangeError::UnknownAsset)
    );
    assert!(contract.get_balance(&alice(), &token_a()) == Some(0));
    contract.deposit(&alice(), &token_a(), u128::MAX).unwrap();
    assert_eq!(
        contract.remove_liquidity(&alice(), 0, &token_a(), 1),
        Err(ExchangeError::Overflow)
    );
    assert_eq!(contract.get_balance(&alice(), &token_a()), Some(u128::MAX));
    assert_eq!(reserves(&contract, 0), [100, 100]);
}

#[test]
fn swap_rejections_change_nothing() {
    let mut contract = engine_with_reserves(100, 100);
    assert_eq!(contract.swap(&alice(), 0, &token_a(), 10), Err(ExchangeError::NotDeposited));
    contract.deposit(&alice(), &token_a(), 5).unwrap();
    assert_eq!(contract.swap(&alice(), 0, &token_a(), 6), Err(ExchangeError::InsufficientFunds));
    let stranger = name("danny.near");
    contract.deposit(&alice(), &stranger, 50).unwrap();
    assert_eq!(contract.swap(&alice(), 0, &stranger, 10), Err(ExchangeError::UnknownAsset));
    contract.deposit(&alice(), &token_b(), u128::MAX).unwrap();
    assert_eq!(contract.swap(&alice(), 0, &token_a(), 5), Err(ExchangeError::Overflow));
    assert_eq!(contract.get_balance(&alice(), &token_a()), Some(5));
    assert_eq!(contract.get_balance(&alice(), &token_b()), Some(u128::MAX));
    assert_eq!(contract.get_balance(&alice(), &stranger), Some(50));
    assert_eq!(reserves(&contract, 0), [100, 100]);
}

#[test]
fn swap_in_an_empty_pool_with_nothing_has_no_price() {
    let mut contract = engine_with_pool();
    contract.deposit(&alice(), &token_a(), 5).unwrap();
    assert_eq!(contract.swap(&alice(), 0, &token_a(), 0), Err(ExchangeError::InsufficientReserve));
    assert_eq!(contract.get_return(0, &token_a(), 0), Err(ExchangeError::InsufficientReserve));
    assert_eq!(contract.get_balance(&alice(), &token_b()), None);
}

#[test]
fn swaps_never_lower_the_product() {
    let mut contract = engine_with_reserves(5000, 9000);
    contract.deposit(&alice(), &token_a(), 100000).unwrap();
    contract.deposit(&alice(), &token_b(), 100000).unwrap();
    for step in 1..100u128 {
        let [r0, r1] = reserves(&contract, 0);
        let token = if step % 3 == 0 { token_a() } else { token_b() };
        contract.swap(&alice(), 0, &token, step * 11).unwrap();
        let [n0, n1] = reserves(&contract, 0);
        assert!(n0 * n1 >= r0 * r1);
    }
}

#[test]
fn withdraw_debits_and_asks_for_the_transfer() {
    let mut contract = Contract::new(owner());
    contract.deposit(&alice(), &token_a(), 2000).unwrap();
    let request = contract.withdraw(&alice(), &token_a(), 500).ok().unwrap();
    assert_eq!(request.receiver_id, alice());
    assert_eq!(request.token_id, token_a());
    assert_eq!(request.amount, 500);
    assert_eq!(contract.get_balance(&alice(), &token_a()), Some(1500));
}

#[test]
fn withdraw_rejections() {
    let mut contract = Contract::new(owner());
    assert_eq!(
        contract.withdraw(&alice(), &token_a(), 1).err(),
        Some(ExchangeError::NotDeposited)
    );
    contract.deposit(&alice(), &token_a(), 10).unwrap();
    assert_eq!(
        contract.withdraw(&alice(), &token_b(), 1).err(),
        Some(ExchangeError::NotDeposited)
    );
    assert_eq!(
        contract.withdraw(&alice(), &token_a(), 11).err(),
        Some(ExchangeError::InsufficientFunds)
    );
    assert_eq!(contract.get_balance(&alice(), &token_a()), Some(10));
}

#[test]
fn deposit_rejects_overflow() {
    let mut contract = Contract::new(owner());
    contract.deposit(&alice(), &token_a(), u128::MAX).unwrap();
    assert_eq!(contract.deposit(&alice(), &token_a(), 1), Err(ExchangeError::Overflow));
    assert_eq!(contract.get_balance(&alice(), &token_a()), Some(u128::MAX));
}

#[test]
fn reported_balance_of_unknown_account_is_zero() {
    let mut contract = Contract::new(owner());
    assert_eq!(contract.get_balance(&alice(), &token_a()), Some(0));
    contract.deposit(&alice(), &token_a(), 1).unwrap();
    assert_eq!(contract.get_balance(&alice(), &token_a()), Some(1));
    assert_eq!(contract.get_balance(&alice(), &token_b()), None);
}

#[test]
fn pagination() {
    let mut contract = Contract::new(owner());
    for _ in 0..5 {
        contract.create_pool(&owner(), token_a(), token_b());
    }
    let ids = |pools: Vec<amm_engine::pool::Pool>| pools.iter().map(|p| p.id).collect::<Vec<usize>>();
    assert_eq!(ids(contract.get_pools(0, 5)), vec![0, 1, 2, 3, 4]);
    assert_eq!(ids(contract.get_pools(1, 2)), vec![1, 2]);
    assert_eq!(ids(contract.get_pools(3, 10)), vec![3, 4]);
    assert_eq!(ids(contract.get_pools(4, 255)), vec![4]);
    assert_eq!(ids(contract.get_pools(5, 3)), Vec::<usize>::new());
    assert_eq!(ids(contract.get_pools(6, 3)), Vec::<usize>::new());
    assert_eq!(ids(contract.get_pools(255, 255)), Vec::<usize>::new());
    assert_eq!(ids(contract.get_pools(2, 0)), Vec::<usize>::new());
}

#[test]
fn listed_pools_are_copies() {
    let mut contract = engine_with_reserves(10, 20);
    let listed = contract.get_pools(0, 1);
    contract.deposit(&alice(), &token_a(), 5).unwrap();
    contract.add_liquidity(&alice(), 0, &token_a(), 5).unwrap();
    assert_eq!(listed[0].liquidity, [10, 20]);
    assert_eq!(listed[0].tokens, [token_a(), token_b()]);
    assert_eq!(reserves(&contract, 0), [15, 20]);
}
