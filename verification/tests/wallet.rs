use p256::ecdsa::signature::hazmat::PrehashSigner;
use p256::ecdsa::{Signature, SigningKey};
use soroban_gasless_contracts::base64::base64_url_encode_no_pad;
use soroban_gasless_contracts::bytes::bytes_contains;
use soroban_gasless_contracts::passkey::passkey_message_digest;
use soroban_gasless_contracts::session::{
    check_session_scope, sep41_transfer_amount, ArgValue, AuthContext, ContractContext, SessionData,
};
use soroban_gasless_contracts::table::AccountKey;
use soroban_gasless_contracts::wallet::{
    AuthRequirement, PasskeyCheck, PasskeySignature, SmartAccountWalletContract, WalletError, WalletSignature,
};
use soroban_sdk::testutils::Address as _;
use soroban_sdk::{Address, Bytes, BytesN, Env};


/// A test environment that keeps no snapshot files.
fn test_env() -> Env {
    Env::new_with_config(soroban_sdk::testutils::EnvTestConfig { capture_snapshot_at_drop: false })
}

fn key_of(address: &Address) -> AccountKey {
    let s = address.to_string();
    let mut buf = vec![0u8; s.len() as usize];
    s.copy_into_slice(&mut buf);
    AccountKey::from_strkey(&buf)
}

/// Fixed, deterministic test keypair (not a real secret — for reproducible tests only).
fn test_keypair() -> (SigningKey, [u8; 65]) {
    let secret_bytes: [u8; 32] = [7u8; 32];
    let signing_key = SigningKey::from_bytes((&secret_bytes).into()).expect("valid scalar");
    let encoded = signing_key.verifying_key().to_encoded_point(false);
    let mut pubkey_bytes = [0u8; 65];
    pubkey_bytes.copy_from_slice(encoded.as_bytes());
    (signing_key, pubkey_bytes)
}

fn init_wallet(env: &Env) -> (SmartAccountWalletContract, SigningKey, AccountKey) {
    let mut wallet = SmartAccountWalletContract::new();
    let owner = key_of(&Address::generate(env));
    let (signing_key, pubkey_bytes) = test_keypair();
    wallet.init(owner, pubkey_bytes).unwrap();
    let this_wallet = key_of(&Address::generate(env));
    (wallet, signing_key, this_wallet)
}

/// A WebAuthn-shaped assertion over `challenge_bytes`, signed with `signing_key`.
fn build_assertion(env: &Env, signing_key: &SigningKey, challenge_bytes: [u8; 32]) -> (Vec<u8>, Vec<u8>, [u8; 64]) {
    let challenge_b64 = base64_url_encode_no_pad(&challenge_bytes);
    let mut client_data_json = b"{\"type\":\"webauthn.get\",\"challenge\":\"".to_vec();
    client_data_json.extend_from_slice(&challenge_b64);
    client_data_json.extend_from_slice(b"\",\"origin\":\"https://example.test\"}");

    let mut authenticator_data = vec![0u8; 37];
    authenticator_data[32] = 0x01;

    let client_data_hash = env.crypto().sha256(&Bytes::from_slice(env, &client_data_json)).to_array();
    let mut signed_data = authenticator_data.clone();
    signed_data.extend_from_slice(&client_data_hash);
    let digest = env.crypto().sha256(&Bytes::from_slice(env, &signed_data)).to_array();

    let sig: Signature = signing_key.sign_prehash(&digest).expect("a 32-byte digest can be signed");
    let sig = sig.normalize_s().unwrap_or(sig);
    let sig_bytes: [u8; 64] = sig.to_bytes().into();
    (client_data_json, authenticator_data, sig_bytes)
}

/// Performs the signature check the wallet hands to the host; panics when it fails.
fn host_verify(env: &Env, check: &PasskeyCheck) {
    let hash = env.crypto().sha256(&Bytes::from_slice(env, &check.message));
    assert_eq!(hash.to_array(), check.digest);
    env.crypto().secp256r1_verify(
        &BytesN::from_array(env, &check.public_key),
        &hash,
        &BytesN::from_array(env, &check.signature),
    );
}

fn payload(env: &Env, seed: u8) -> [u8; 32] {
    env.crypto().sha256(&Bytes::from_array(env, &[seed; 32])).to_array()
}

fn session(
    wallet: &mut SmartAccountWalletContract,
    contract: &AccountKey,
    function: &[u8],
    cap: Option<i128>,
    expires_at: u64,
    session_key: &AccountKey,
) {
    wallet.add_session_key(session_key, contract.duplicate(), vec![function.to_vec()], cap, expires_at);
}

fn execute_context_fn(wallet: &AccountKey, target: &AccountKey, function: &[u8]) -> Vec<AuthContext> {
    vec![AuthContext::Contract(ContractContext {
        contract: wallet.duplicate(),
        fn_name: b"execute".to_vec(),
        args: vec![ArgValue::Address(target.duplicate()), ArgValue::Symbol(function.to_vec()), ArgValue::Other],
    })]
}

fn transfer_context(token: &AccountKey, from: &AccountKey, to: &AccountKey, amount: i128) -> Vec<AuthContext> {
    vec![AuthContext::Contract(ContractContext {
        contract: token.duplicate(),
        fn_name: b"transfer".to_vec(),
        args: vec![ArgValue::Address(from.duplicate()), ArgValue::Address(to.duplicate()), ArgValue::I128(amount)],
    })]
}

fn stored_spent(wallet: &SmartAccountWalletContract, session_key: &AccountKey) -> i128 {
    wallet.sessions.get(session_key).unwrap().spent
}

#[test]
fn test_smart_account_init_and_owner() {
    let env = test_env();
    let mut wallet = SmartAccountWalletContract::new();
    let owner = key_of(&Address::generate(&env));
    let (_signing_key, pubkey_bytes) = test_keypair();
    wallet.init(owner.duplicate(), pubkey_bytes).unwrap();
    assert_eq!(wallet.get_owner().strkey, owner.strkey);
}

#[test]
fn test_verify_passkey_signature_accepts_a_real_valid_assertion() {
    let env = test_env();
    let (wallet, signing_key, _this) = init_wallet(&env);
    let challenge = [42u8; 32];
    let (cdj, ad, sig) = build_assertion(&env, &signing_key, challenge);

    let check = wallet.verify_passkey_signature(&env, &challenge, cdj, ad, sig).unwrap();
    host_verify(&env, &check);
}

#[test]
fn test_verify_passkey_signature_rejects_a_challenge_not_in_client_data_json() {
    let env = test_env();
    let (wallet, signing_key, _this) = init_wallet(&env);
    let (cdj, ad, sig) = build_assertion(&env, &signing_key, [42u8; 32]);

    let outcome = wallet.verify_passkey_signature(&env, &[99u8; 32], cdj, ad, sig);
    assert!(matches!(outcome, Err(WalletError::InvalidPasskeySignature)));
}

#[test]
#[should_panic]
fn test_verify_passkey_signature_rejects_a_tampered_authenticator_data() {
    let env = test_env();
    let (wallet, signing_key, _this) = init_wallet(&env);
    let challenge = [42u8; 32];
    let (cdj, mut ad, sig) = build_assertion(&env, &signing_key, challenge);
    ad[0] ^= 0xFF;

    let check = wallet.verify_passkey_signature(&env, &challenge, cdj, ad, sig).unwrap();
    host_verify(&env, &check);
}

#[test]
fn test_check_auth_accepts_a_real_valid_passkey_signature() {
    let env = test_env();
    let (mut wallet, signing_key, this_wallet) = init_wallet(&env);
    let signed = payload(&env, 7);
    let (client_data_json, authenticator_data, signature) = build_assertion(&env, &signing_key, signed);
    let sig = WalletSignature::Owner(PasskeySignature { client_data_json, authenticator_data, signature });

    let result = wallet.check_auth(&env, 0, &this_wallet, &signed, sig, &Vec::new());
    match result {
        Ok(AuthRequirement::Passkey(check)) => host_verify(&env, &check),
        _ => panic!("a genuine passkey signature over the real challenge should authorize"),
    }
}

#[test]
fn test_check_auth_rejects_a_signature_over_a_different_payload() {
    let env = test_env();
    let (mut wallet, signing_key, this_wallet) = init_wallet(&env);
    let signed = payload(&env, 7);
    let (client_data_json, authenticator_data, signature) = build_assertion(&env, &signing_key, signed);
    let different = payload(&env, 9);
    let sig = WalletSignature::Owner(PasskeySignature { client_data_json, authenticator_data, signature });

    let result = wallet.check_auth(&env, 0, &this_wallet, &different, sig, &Vec::new());
    assert!(result.is_err(), "a signature over a different payload must not authorize");
}

#[test]
fn test_check_auth_accepts_a_session_key_calling_its_allowed_contract() {
    let env = test_env();
    let (mut wallet, _sk, this_wallet) = init_wallet(&env);
    let session_key = key_of(&Address::generate(&env));
    let dapp = key_of(&Address::generate(&env));
    session(&mut wallet, &dapp, b"noop", None, 10_000, &session_key);

    let contexts = execute_context_fn(&this_wallet, &dapp, b"noop");
    let result = wallet.check_auth(&env, 0, &this_wallet, &payload(&env, 1), WalletSignature::Session(session_key.duplicate()), &contexts);
    assert!(
        matches!(result, Ok(AuthRequirement::SessionKey(ref k)) if k.strkey == session_key.strkey),
        "a session key calling its own allowed contract must authorize"
    );
}

#[test]
fn test_check_auth_rejects_a_session_key_calling_a_different_contract() {
    let env = test_env();
    let (mut wallet, _sk, this_wallet) = init_wallet(&env);
    let session_key = key_of(&Address::generate(&env));
    let dapp = key_of(&Address::generate(&env));
    session(&mut wallet, &dapp, b"noop", None, 10_000, &session_key);
    let other = key_of(&Address::generate(&env));

    let contexts = execute_context_fn(&this_wallet, &other, b"noop");
    let result = wallet.check_auth(&env, 0, &this_wallet, &payload(&env, 1), WalletSignature::Session(session_key), &contexts);
    assert!(matches!(result, Err(WalletError::ContractNotWhitelisted)));
}

#[test]
fn test_check_auth_rejects_an_expired_session_key() {
    let env = test_env();
    let (mut wallet, _sk, this_wallet) = init_wallet(&env);
    let session_key = key_of(&Address::generate(&env));
    let dapp = key_of(&Address::generate(&env));
    session(&mut wallet, &dapp, b"noop", None, 0, &session_key);

    let contexts = execute_context_fn(&this_wallet, &dapp, b"noop");
    let result = wallet.check_auth(&env, 1, &this_wallet, &payload(&env, 1), WalletSignature::Session(session_key), &contexts);
    assert!(matches!(result, Err(WalletError::SessionExpired)), "an expired session key must not authorize anything");
}

#[test]
fn test_check_auth_rejects_an_unregistered_session_key() {
    let env = test_env();
    let (mut wallet, _sk, this_wallet) = init_wallet(&env);
    let stranger = key_of(&Address::generate(&env));
    let dapp = key_of(&Address::generate(&env));

    let contexts = execute_context_fn(&this_wallet, &dapp, b"noop");
    let result = wallet.check_auth(&env, 0, &this_wallet, &payload(&env, 1), WalletSignature::Session(stranger), &contexts);
    assert!(matches!(result, Err(WalletError::UnknownSessionKey)), "an address with no registered session key must not authorize anything");
}

#[test]
fn test_check_auth_accepts_a_session_key_calling_an_allowed_function() {
    let env = test_env();
    let (mut wallet, _sk, this_wallet) = init_wallet(&env);
    let session_key = key_of(&Address::generate(&env));
    let dapp = key_of(&Address::generate(&env));
    session(&mut wallet, &dapp, b"swap", None, 10_000, &session_key);

    let contexts = execute_context_fn(&this_wallet, &dapp, b"swap");
    let result = wallet.check_auth(&env, 0, &this_wallet, &payload(&env, 1), WalletSignature::Session(session_key), &contexts);
    assert!(result.is_ok(), "a session key calling a function it's explicitly allowed must authorize");
}

#[test]
fn test_check_auth_rejects_a_session_key_calling_a_non_whitelisted_function_on_an_allowed_contract() {
    let env = test_env();
    let (mut wallet, _sk, this_wallet) = init_wallet(&env);
    let session_key = key_of(&Address::generate(&env));
    let dapp = key_of(&Address::generate(&env));
    session(&mut wallet, &dapp, b"swap", None, 10_000, &session_key);

    let contexts = execute_context_fn(&this_wallet, &dapp, b"withdraw_all");
    let result = wallet.check_auth(&env, 0, &this_wallet, &payload(&env, 1), WalletSignature::Session(session_key), &contexts);
    assert!(matches!(result, Err(WalletError::FunctionNotWhitelisted)));
}

#[test]
fn test_check_auth_accepts_a_transfer_under_the_spend_cap_and_records_it() {
    let env = test_env();
    let (mut wallet, _sk, this_wallet) = init_wallet(&env);
    let session_key = key_of(&Address::generate(&env));
    let token = key_of(&Address::generate(&env));
    let recipient = key_of(&Address::generate(&env));
    session(&mut wallet, &token, b"transfer", Some(1_000), 10_000, &session_key);

    let contexts = transfer_context(&token, &this_wallet, &recipient, 400);
    let result = wallet.check_auth(&env, 0, &this_wallet, &payload(&env, 1), WalletSignature::Session(session_key.duplicate()), &contexts);
    assert!(result.is_ok(), "a transfer within the spend cap must authorize");
    assert_eq!(stored_spent(&wallet, &session_key), 400);
}

#[test]
fn test_check_auth_rejects_a_transfer_that_would_exceed_the_spend_cap() {
    let env = test_env();
    let (mut wallet, _sk, this_wallet) = init_wallet(&env);
    let session_key = key_of(&Address::generate(&env));
    let token = key_of(&Address::generate(&env));
    let recipient = key_of(&Address::generate(&env));
    session(&mut wallet, &token, b"transfer", Some(1_000), 10_000, &session_key);

    let contexts = transfer_context(&token, &this_wallet, &recipient, 1_001);
    let result = wallet.check_auth(&env, 0, &this_wallet, &payload(&env, 1), WalletSignature::Session(session_key.duplicate()), &contexts);
    assert!(matches!(result, Err(WalletError::SpendCapExceeded)), "a single transfer over the cap must not authorize");
    assert_eq!(stored_spent(&wallet, &session_key), 0);
}

#[test]
fn test_check_auth_rejects_a_second_transfer_once_cumulative_spend_would_exceed_the_cap() {
    let env = test_env();
    let (mut wallet, _sk, this_wallet) = init_wallet(&env);
    let session_key = key_of(&Address::generate(&env));
    let token = key_of(&Address::generate(&env));
    let recipient = key_of(&Address::generate(&env));
    session(&mut wallet, &token, b"transfer", Some(1_000), 10_000, &session_key);

    let first = transfer_context(&token, &this_wallet, &recipient, 700);
    let first_result = wallet.check_auth(&env, 0, &this_wallet, &payload(&env, 1), WalletSignature::Session(session_key.duplicate()), &first);
    assert!(first_result.is_ok(), "the first transfer, alone under the cap, must authorize");

    let second = transfer_context(&token, &this_wallet, &recipient, 400);
    let second_result = wallet.check_auth(&env, 0, &this_wallet, &payload(&env, 1), WalletSignature::Session(session_key.duplicate()), &second);
    assert!(
        second_result.is_err(),
        "cumulative spend across separate authorizations must still be capped, not reset per call"
    );
    assert_eq!(stored_spent(&wallet, &session_key), 700);
}

#[test]
fn wallet_init_twice_is_refused() {
    let env = test_env();
    let (mut wallet, _sk, _this) = init_wallet(&env);
    let other = key_of(&Address::generate(&env));
    assert!(matches!(wallet.init(other, [4u8; 65]), Err(WalletError::AlreadyInitialized)));
}

#[test]
fn base64url_of_known_bytes() {
    let zeros = base64_url_encode_no_pad(&[0u8; 32]);
    assert_eq!(zeros.len(), 43);
    assert_eq!(zeros, b"AAAAAAAAAAAAAAAAAAAAAAAAAAAAAAAAAAAAAAAAAAA".to_vec());
    let ones = base64_url_encode_no_pad(&[0xffu8; 32]);
    assert_eq!(ones, b"__________________________________________8".to_vec());
    let mut counting = [0u8; 32];
    for (i, b) in counting.iter_mut().enumerate() {
        *b = i as u8;
    }
    assert_eq!(
        base64_url_encode_no_pad(&counting),
        b"AAECAwQFBgcICQoLDA0ODxAREhMUFRYXGBkaGxwdHh8".to_vec()
    );
    let mut mixed = [0u8; 32];
    mixed[0] = 0xfb;
    mixed[1] = 0xef;
    mixed[2] = 0xbe;
    let enc = base64_url_encode_no_pad(&mixed);
    assert_eq!(&enc[0..4], b"----");
}

#[test]
fn substring_search_edge_cases() {
    assert!(bytes_contains(b"abcdef", b"cde"));
    assert!(bytes_contains(b"abcdef", b"abcdef"));
    assert!(bytes_contains(b"abcdef", b"f"));
    assert!(!bytes_contains(b"abcdef", b"abcdefg"));
    assert!(!bytes_contains(b"abcdef", b""));
    assert!(!bytes_contains(b"", b""));
    assert!(!bytes_contains(b"aaab", b"aab\x00"));
    assert!(bytes_contains(b"aaab", b"aab"));
}

#[test]
fn message_digest_is_absent_without_the_challenge() {
    let env = test_env();
    let challenge = [1u8; 32];
    let cdj = b"{\"challenge\":\"nope\"}".to_vec();
    assert_eq!(passkey_message_digest(&env, &challenge, &cdj, &vec![0u8; 37]), None);
    let mut with = b"x".to_vec();
    with.extend_from_slice(&base64_url_encode_no_pad(&challenge));
    let ad = vec![9u8; 37];
    let digest = passkey_message_digest(&env, &challenge, &with, &ad).unwrap();
    let mut signed = ad.clone();
    signed.extend_from_slice(&env.crypto().sha256(&Bytes::from_slice(&env, &with)).to_array());
    assert_eq!(digest, env.crypto().sha256(&Bytes::from_slice(&env, &signed)).to_array());
}

#[test]
fn transfer_amount_reads_only_sep41_shapes() {
    let env = test_env();
    let a = key_of(&Address::generate(&env));
    let b = key_of(&Address::generate(&env));
    let three = vec![ArgValue::Address(a.duplicate()), ArgValue::Address(b.duplicate()), ArgValue::I128(5)];
    assert_eq!(sep41_transfer_amount(&b"transfer".to_vec(), &three), Some(5));
    assert_eq!(sep41_transfer_amount(&b"transfer_from".to_vec(), &three), None);
    let four = vec![ArgValue::Address(a.duplicate()), ArgValue::Address(a.duplicate()), ArgValue::Address(b.duplicate()), ArgValue::I128(9)];
    assert_eq!(sep41_transfer_amount(&b"transfer_from".to_vec(), &four), Some(9));
    assert_eq!(sep41_transfer_amount(&b"transfer".to_vec(), &four), None);
    let not_int = vec![ArgValue::Other, ArgValue::Other, ArgValue::Symbol(b"x".to_vec())];
    assert_eq!(sep41_transfer_amount(&b"transfer".to_vec(), &not_int), None);
}

#[test]
fn session_scope_rejects_contract_creation_and_counts_only_capped_transfers() {
    let env = test_env();
    let this_wallet = key_of(&Address::generate(&env));
    let token = key_of(&Address::generate(&env));
    let to = key_of(&Address::generate(&env));
    let capped = SessionData {
        allowed_contract: token.duplicate(),
        allowed_functions: vec![b"transfer".to_vec()],
        spend_cap: Some(100),
        spent: 30,
        expires_at: 50,
    };
    assert_eq!(check_session_scope(&this_wallet, &capped, &vec![AuthContext::CreateContract]), Err(WalletError::ContractNotWhitelisted));
    let mut two = transfer_context(&token, &this_wallet, &to, 20);
    two.extend(transfer_context(&token, &this_wallet, &to, 50));
    assert_eq!(check_session_scope(&this_wallet, &capped, &two), Ok(100));
    let mut three = transfer_context(&token, &this_wallet, &to, 20);
    three.extend(transfer_context(&token, &this_wallet, &to, 51));
    assert_eq!(check_session_scope(&this_wallet, &capped, &three), Err(WalletError::SpendCapExceeded));
    let uncapped = SessionData { spend_cap: None, allowed_contract: token.duplicate(), allowed_functions: vec![b"transfer".to_vec()], spent: 30, expires_at: 50 };
    assert_eq!(check_session_scope(&this_wallet, &uncapped, &two), Ok(30));
    let overflow = SessionData { spend_cap: Some(i128::MAX), allowed_contract: token.duplicate(), allowed_functions: vec![b"transfer".to_vec()], spent: i128::MAX, expires_at: 50 };
    assert_eq!(check_session_scope(&this_wallet, &overflow, &transfer_context(&token, &this_wallet, &to, 1)), Err(WalletError::SpendCapExceeded));
}

#[test]
fn session_key_expires_at_its_expiry_time() {
    let env = test_env();
    let (mut wallet, _sk, this_wallet) = init_wallet(&env);
    let session_key = key_of(&Address::generate(&env));
    let dapp = key_of(&Address::generate(&env));
    session(&mut wallet, &dapp, b"noop", None, 100, &session_key);
    let contexts = execute_context_fn(&this_wallet, &dapp, b"noop");
    assert!(wallet.check_auth(&env, 99, &this_wallet, &payload(&env, 1), WalletSignature::Session(session_key.duplicate()), &contexts).is_ok());
    assert!(matches!(
        wallet.check_auth(&env, 100, &this_wallet, &payload(&env, 1), WalletSignature::Session(session_key.duplicate()), &contexts),
        Err(WalletError::SessionExpired)
    ));
}

#[test]
fn session_key_with_expiry_zero_is_expired_at_genesis() {
    let env = test_env();
    let (mut wallet, _sk, this_wallet) = init_wallet(&env);
    let session_key = key_of(&Address::generate(&env));
    let dapp = key_of(&Address::generate(&env));
    session(&mut wallet, &dapp, b"noop", None, 0, &session_key);
    let contexts = execute_context_fn(&this_wallet, &dapp, b"noop");
    assert!(matches!(
        wallet.check_auth(&env, 0, &this_wallet, &payload(&env, 1), WalletSignature::Session(session_key), &contexts),
        Err(WalletError::SessionExpired)
    ));
}

#[test]
fn init_refuses_a_passkey_that_is_not_an_uncompressed_point() {
    let env = test_env();
    let mut wallet = SmartAccountWalletContract::new();
    let owner = key_of(&Address::generate(&env));
    assert!(matches!(wallet.init(owner.duplicate(), [0u8; 65]), Err(WalletError::InvalidPasskeyKey)));
    assert!(wallet.config.is_none());
    let mut compressed = [0u8; 65];
    compressed[0] = 0x02;
    assert!(matches!(wallet.init(owner.duplicate(), compressed), Err(WalletError::InvalidPasskeyKey)));
    let (_sk, real) = test_keypair();
    let mut origin = [0u8; 65];
    origin[0] = 0x04;
    assert!(matches!(wallet.init(owner.duplicate(), origin), Err(WalletError::InvalidPasskeyKey)));
    let mut off_curve = real;
    off_curve[64] ^= 1;
    assert!(matches!(wallet.init(owner.duplicate(), off_curve), Err(WalletError::InvalidPasskeyKey)));
    assert!(wallet.config.is_none());
    assert!(wallet.init(owner, real).is_ok());
}

#[test]
fn re_registering_a_session_key_resets_its_spend() {
    let env = test_env();
    let (mut wallet, _sk, this_wallet) = init_wallet(&env);
    let session_key = key_of(&Address::generate(&env));
    let token = key_of(&Address::generate(&env));
    let to = key_of(&Address::generate(&env));
    session(&mut wallet, &token, b"transfer", Some(1_000), 10_000, &session_key);
    assert!(wallet.check_auth(&env, 0, &this_wallet, &payload(&env, 1), WalletSignature::Session(session_key.duplicate()), &transfer_context(&token, &this_wallet, &to, 900)).is_ok());
    assert_eq!(stored_spent(&wallet, &session_key), 900);
    session(&mut wallet, &token, b"transfer", Some(1_000), 10_000, &session_key);
    assert_eq!(stored_spent(&wallet, &session_key), 0);
}
