use soroban_gasless_contracts::table::AccountKey;
use soroban_gasless_contracts::token_paymaster::{PaymasterError, TokenPaymasterContract, TokenTransfer};
use soroban_sdk::testutils::Address as _;
use soroban_sdk::token::{StellarAssetClient, TokenClient};
use soroban_sdk::{Address, Env};


/// A test environment that keeps no snapshot files.
fn test_env() -> Env {
    Env::new_with_config(soroban_sdk::testutils::EnvTestConfig { capture_snapshot_at_drop: false })
}

fn key_of(address: &Address) -> AccountKey {
    let s = address.to_string();
    let mut buf = vec![0u8; s.len() as usize];
    s.copy_into_slice(&mut buf);
    AccountKey::from_strkey(&buf)
}

fn address_of(env: &Env, key: &AccountKey) -> Address {
    Address::from_string(&soroban_sdk::String::from_bytes(env, &key.strkey))
}

/// Carries out a transfer the paymaster asked for on the real token contract.
fn perform(env: &Env, t: &TokenTransfer) {
    let token = TokenClient::new(env, &address_of(env, &t.token));
    token.transfer(&address_of(env, &t.from), &address_of(env, &t.to), &t.amount);
}

fn setup_with_real_token(env: &Env) -> (TokenPaymasterContract, Address, Address) {
    env.mock_all_auths();
    let admin = Address::generate(env);
    let token_admin = Address::generate(env);
    let token_address = env.register_stellar_asset_contract_v2(token_admin).address();
    let mut paymaster = TokenPaymasterContract::new();
    paymaster.init(key_of(&admin), key_of(&token_address), 100_000).unwrap();
    (paymaster, admin, token_address)
}

#[test]
fn test_token_paymaster_initialization() {
    let env = test_env();
    let admin = Address::generate(&env);
    let token = Address::generate(&env);
    let mut paymaster = TokenPaymasterContract::new();
    assert!(paymaster.init(key_of(&admin), key_of(&token), 100_000i128).is_ok());
    let config = paymaster.config.as_ref().unwrap();
    assert_eq!(config.fee_per_tx, 100_000);
    assert_eq!(config.admin.strkey, key_of(&admin).strkey);
    assert_eq!(config.token.strkey, key_of(&token).strkey);
}

#[test]
fn test_charge_fee_actually_moves_real_tokens_from_user_to_treasury() {
    let env = test_env();
    let (paymaster, _admin, token_address) = setup_with_real_token(&env);
    let user = Address::generate(&env);
    let treasury = Address::generate(&env);
    StellarAssetClient::new(&env, &token_address).mint(&user, &1_000_000i128);

    let transfer = paymaster.charge_fee(&key_of(&user), &key_of(&treasury));
    perform(&env, &transfer);

    let token = TokenClient::new(&env, &token_address);
    assert_eq!(token.balance(&user), 900_000i128, "the configured fee_per_tx must be deducted from the user");
    assert_eq!(token.balance(&treasury), 100_000i128, "the fee must land in the relayer treasury, not disappear");
}

#[test]
#[should_panic]
fn test_charge_fee_rejects_a_user_with_insufficient_balance() {
    let env = test_env();
    let (paymaster, _admin, token_address) = setup_with_real_token(&env);
    let user = Address::generate(&env);
    let treasury = Address::generate(&env);
    StellarAssetClient::new(&env, &token_address).mint(&user, &50_000i128);

    let transfer = paymaster.charge_fee(&key_of(&user), &key_of(&treasury));
    perform(&env, &transfer);
}

#[test]
fn test_withdraw_reserves_lets_the_real_admin_move_real_contract_funds() {
    let env = test_env();
    let (paymaster, admin, token_address) = setup_with_real_token(&env);
    let reserve = Address::generate(&env);
    StellarAssetClient::new(&env, &token_address).mint(&reserve, &500_000i128);

    let payee = Address::generate(&env);
    let transfer = paymaster
        .withdraw_reserves(&key_of(&reserve), &key_of(&admin), &key_of(&payee), 200_000i128)
        .unwrap();
    perform(&env, &transfer);

    let token = TokenClient::new(&env, &token_address);
    assert_eq!(token.balance(&payee), 200_000i128);
    assert_eq!(token.balance(&reserve), 300_000i128, "only the withdrawn amount should leave the contract's reserve");
}

#[test]
fn test_withdraw_reserves_rejects_a_caller_who_is_not_the_real_admin() {
    let env = test_env();
    let (paymaster, _admin, _token_address) = setup_with_real_token(&env);
    let reserve = Address::generate(&env);
    let impostor = Address::generate(&env);
    let payee = Address::generate(&env);

    let outcome = paymaster.withdraw_reserves(&key_of(&reserve), &key_of(&impostor), &key_of(&payee), 200_000i128);
    assert!(matches!(outcome, Err(PaymasterError::UnauthorizedAdmin)));
}

#[test]
fn token_paymaster_init_twice_is_refused() {
    let env = test_env();
    let (mut paymaster, _admin, token_address) = setup_with_real_token(&env);
    let other = Address::generate(&env);
    let outcome = paymaster.init(key_of(&other), key_of(&token_address), 1);
    assert!(matches!(outcome, Err(PaymasterError::AlreadyInitialized)));
    assert_eq!(paymaster.config.as_ref().unwrap().fee_per_tx, 100_000);
}

#[test]
fn charge_fee_names_the_configured_token_and_fee() {
    let env = test_env();
    let (paymaster, _admin, token_address) = setup_with_real_token(&env);
    let user = key_of(&Address::generate(&env));
    let treasury = key_of(&Address::generate(&env));
    let t = paymaster.charge_fee(&user, &treasury);
    assert_eq!(t.token.strkey, key_of(&token_address).strkey);
    assert_eq!(t.from.strkey, user.strkey);
    assert_eq!(t.to.strkey, treasury.strkey);
    assert_eq!(t.amount, 100_000);
}
