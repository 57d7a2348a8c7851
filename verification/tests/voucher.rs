use soroban_gasless_contracts::table::AccountKey;
use soroban_gasless_contracts::voucher::{
    compute_leaf, compute_root, check_voucher, VoucherError, VoucherPaymasterContract,
};
use soroban_sdk::testutils::Address as _;
use soroban_sdk::{Address, Bytes, Env};


/// A test environment that keeps no snapshot files.
fn test_env() -> Env {
    Env::new_with_config(soroban_sdk::testutils::EnvTestConfig { capture_snapshot_at_drop: false })
}

fn key_of(address: &Address) -> AccountKey {
    let s = address.to_string();
    let mut buf = vec![0u8; s.len() as usize];
    s.copy_into_slice(&mut buf);
    AccountKey::from_strkey(&buf)
}

fn combine(env: &Env, index: u32, node: &[u8; 32], sibling: &[u8; 32]) -> [u8; 32] {
    let mut data = Bytes::new(env);
    if index % 2 == 0 {
        data.append(&Bytes::from_array(env, node));
        data.append(&Bytes::from_array(env, sibling));
    } else {
        data.append(&Bytes::from_array(env, sibling));
        data.append(&Bytes::from_array(env, node));
    }
    env.crypto().sha256(&data).to_array()
}

struct Tree {
    root: [u8; 32],
    leaves: [[u8; 32]; 4],
}

fn build_tree(env: &Env, leaves: [[u8; 32]; 4]) -> Tree {
    let h01 = combine(env, 0, &leaves[0], &leaves[1]);
    let h23 = combine(env, 2, &leaves[2], &leaves[3]);
    let root = combine(env, 0, &h01, &h23);
    Tree { root, leaves }
}

fn proof_for_leaf0(env: &Env, tree: &Tree) -> Vec<[u8; 32]> {
    let h23 = combine(env, 2, &tree.leaves[2], &tree.leaves[3]);
    vec![tree.leaves[1], h23]
}

fn leaf(env: &Env, user: &Address, voucher_id: u64, max_fee: i128) -> [u8; 32] {
    compute_leaf(env, &key_of(user), voucher_id, max_fee).unwrap()
}

#[test]
fn test_validate_voucher_accepts_a_real_valid_merkle_proof() {
    let env = test_env();
    let mut paymaster = VoucherPaymasterContract::new();
    let sponsor = key_of(&Address::generate(&env));
    let user = Address::generate(&env);

    let voucher_id = 1001u64;
    let max_fee = 500_000i128;
    let tree = build_tree(&env, [leaf(&env, &user, voucher_id, max_fee), [1u8; 32], [2u8; 32], [3u8; 32]]);
    let version = paymaster.register_voucher_batch(&sponsor, tree.root);
    assert_eq!(version, 1, "a sponsor's first batch is version 1");

    let proof = proof_for_leaf0(&env, &tree);
    let result = paymaster.validate_voucher(&env, &sponsor, &key_of(&user), version, voucher_id, max_fee, &proof, 0);
    assert_eq!(result, Ok(true), "a genuine Merkle path to the sponsor's real registered batch must verify");
}

#[test]
fn test_validate_voucher_rejects_a_replayed_voucher_id() {
    let env = test_env();
    let mut paymaster = VoucherPaymasterContract::new();
    let sponsor = key_of(&Address::generate(&env));
    let user = Address::generate(&env);

    let voucher_id = 1001u64;
    let max_fee = 500_000i128;
    let tree = build_tree(&env, [leaf(&env, &user, voucher_id, max_fee), [1u8; 32], [2u8; 32], [3u8; 32]]);
    let version = paymaster.register_voucher_batch(&sponsor, tree.root);
    let proof = proof_for_leaf0(&env, &tree);

    assert_eq!(paymaster.validate_voucher(&env, &sponsor, &key_of(&user), version, voucher_id, max_fee, &proof, 0), Ok(true));
    assert_eq!(
        paymaster.validate_voucher(&env, &sponsor, &key_of(&user), version, voucher_id, max_fee, &proof, 0),
        Err(VoucherError::AlreadyClaimed)
    );
}

#[test]
fn test_validate_voucher_rejects_a_claimed_fee_the_sponsor_never_committed_to() {
    let env = test_env();
    let mut paymaster = VoucherPaymasterContract::new();
    let sponsor = key_of(&Address::generate(&env));
    let user = Address::generate(&env);

    let voucher_id = 1001u64;
    let committed_max_fee = 500_000i128;
    let tree = build_tree(&env, [leaf(&env, &user, voucher_id, committed_max_fee), [1u8; 32], [2u8; 32], [3u8; 32]]);
    let version = paymaster.register_voucher_batch(&sponsor, tree.root);
    let proof = proof_for_leaf0(&env, &tree);

    let claimed_max_fee = 5_000_000i128;
    let result = paymaster.validate_voucher(&env, &sponsor, &key_of(&user), version, voucher_id, claimed_max_fee, &proof, 0);
    assert_eq!(result, Ok(false), "a fee cap the sponsor never committed to must not verify");
}

#[test]
fn test_validate_voucher_rejects_a_sponsor_with_no_registered_batch() {
    let env = test_env();
    let mut paymaster = VoucherPaymasterContract::new();
    let sponsor = key_of(&Address::generate(&env));
    let user = key_of(&Address::generate(&env));

    let result = paymaster.validate_voucher(&env, &sponsor, &user, 1, 1001, 500_000, &Vec::new(), 0);
    assert_eq!(result, Err(VoucherError::UnknownBatch));
}

#[test]
fn test_validate_voucher_does_not_let_one_sponsors_redemption_block_another_sponsors_voucher_with_the_same_id() {
    let env = test_env();
    let mut paymaster = VoucherPaymasterContract::new();
    let sponsor_a = key_of(&Address::generate(&env));
    let sponsor_b = key_of(&Address::generate(&env));
    let user = Address::generate(&env);
    let voucher_id = 1001u64;
    let max_fee = 500_000i128;

    let tree_a = build_tree(&env, [leaf(&env, &user, voucher_id, max_fee), [1u8; 32], [2u8; 32], [3u8; 32]]);
    let version_a = paymaster.register_voucher_batch(&sponsor_a, tree_a.root);
    let proof_a = proof_for_leaf0(&env, &tree_a);
    assert_eq!(paymaster.validate_voucher(&env, &sponsor_a, &key_of(&user), version_a, voucher_id, max_fee, &proof_a, 0), Ok(true));

    let tree_b = build_tree(&env, [leaf(&env, &user, voucher_id, max_fee), [9u8; 32], [8u8; 32], [7u8; 32]]);
    let version_b = paymaster.register_voucher_batch(&sponsor_b, tree_b.root);
    let proof_b = proof_for_leaf0(&env, &tree_b);
    assert_eq!(
        paymaster.validate_voucher(&env, &sponsor_b, &key_of(&user), version_b, voucher_id, max_fee, &proof_b, 0),
        Ok(true),
        "sponsor B's voucher must redeem independently of sponsor A's same-numbered voucher"
    );
}

#[test]
fn test_rotating_to_a_new_batch_does_not_orphan_an_unredeemed_voucher_from_the_old_one() {
    let env = test_env();
    let mut paymaster = VoucherPaymasterContract::new();
    let sponsor = key_of(&Address::generate(&env));
    let user = Address::generate(&env);

    let old_voucher_id = 1001u64;
    let max_fee = 500_000i128;
    let old_tree = build_tree(&env, [leaf(&env, &user, old_voucher_id, max_fee), [1u8; 32], [2u8; 32], [3u8; 32]]);
    let old_version = paymaster.register_voucher_batch(&sponsor, old_tree.root);
    assert_eq!(paymaster.get_latest_batch_version(&sponsor), old_version);

    let new_voucher_id = 1001u64;
    let new_tree = build_tree(&env, [leaf(&env, &user, new_voucher_id, max_fee), [9u8; 32], [8u8; 32], [7u8; 32]]);
    let new_version = paymaster.register_voucher_batch(&sponsor, new_tree.root);
    assert_eq!(new_version, old_version + 1);
    assert_eq!(paymaster.get_latest_batch_version(&sponsor), new_version);

    let old_proof = proof_for_leaf0(&env, &old_tree);
    assert_eq!(
        paymaster.validate_voucher(&env, &sponsor, &key_of(&user), old_version, old_voucher_id, max_fee, &old_proof, 0),
        Ok(true),
        "an unredeemed voucher from a previous batch must remain redeemable after rotation"
    );
    let new_proof = proof_for_leaf0(&env, &new_tree);
    assert_eq!(
        paymaster.validate_voucher(&env, &sponsor, &key_of(&user), new_version, new_voucher_id, max_fee, &new_proof, 0),
        Ok(true),
        "the new batch's voucher must redeem independently of the old batch's same-numbered one"
    );
}

#[test]
fn test_validate_voucher_rejects_a_different_user_redeeming_the_same_proof() {
    let env = test_env();
    let mut paymaster = VoucherPaymasterContract::new();
    let sponsor = key_of(&Address::generate(&env));
    let real_user = Address::generate(&env);
    let attacker = Address::generate(&env);

    let voucher_id = 1001u64;
    let max_fee = 500_000i128;
    let tree = build_tree(&env, [leaf(&env, &real_user, voucher_id, max_fee), [1u8; 32], [2u8; 32], [3u8; 32]]);
    let version = paymaster.register_voucher_batch(&sponsor, tree.root);
    let proof = proof_for_leaf0(&env, &tree);

    let stolen = paymaster.validate_voucher(&env, &sponsor, &key_of(&attacker), version, voucher_id, max_fee, &proof, 0);
    assert_eq!(stolen, Ok(false), "a proof committed to real_user must not verify for a different address");
    let genuine = paymaster.validate_voucher(&env, &sponsor, &key_of(&real_user), version, voucher_id, max_fee, &proof, 0);
    assert_eq!(genuine, Ok(true), "the actual intended recipient must still be able to redeem their own voucher");
}

#[test]
fn test_get_latest_batch_version_is_zero_before_any_batch_is_registered() {
    let env = test_env();
    let paymaster = VoucherPaymasterContract::new();
    let sponsor = key_of(&Address::generate(&env));
    assert_eq!(paymaster.get_latest_batch_version(&sponsor), 0);
}

#[test]
fn leaf_is_sha256_of_prefix_strkey_id_and_fee() {
    let env = test_env();
    let user = Address::generate(&env);
    let key = key_of(&user);
    let mut data = Bytes::from_slice(&env, b"gasless:voucher-leaf:v2:");
    data.append(&Bytes::from_slice(&env, &key.strkey));
    data.append(&Bytes::from_array(&env, &7u64.to_be_bytes()));
    data.append(&Bytes::from_array(&env, &(-3i128).to_be_bytes()));
    let expected = env.crypto().sha256(&data).to_array();
    assert_eq!(compute_leaf(&env, &key, 7, -3), Ok(expected));
}

#[test]
fn leaf_refuses_a_strkey_of_the_wrong_length() {
    let env = test_env();
    let short = AccountKey::from_strkey(b"GSHORT");
    assert_eq!(compute_leaf(&env, &short, 1, 1), Err(VoucherError::UnexpectedStrkeyLength));
}

#[test]
fn root_of_an_empty_path_is_the_leaf_and_odd_index_hashes_sibling_first() {
    let env = test_env();
    let leaf = [5u8; 32];
    assert_eq!(compute_root(&env, &leaf, &Vec::new(), 3), leaf);
    let sibling = [6u8; 32];
    assert_eq!(compute_root(&env, &leaf, &vec![sibling], 1), combine(&env, 1, &leaf, &sibling));
    assert_ne!(compute_root(&env, &leaf, &vec![sibling], 1), compute_root(&env, &leaf, &vec![sibling], 0));
}

#[test]
fn proof_deeper_than_the_maximum_is_refused() {
    let env = test_env();
    let user = key_of(&Address::generate(&env));
    let root = [0u8; 32];
    let deep = vec![[0u8; 32]; 33];
    assert_eq!(check_voucher(&env, false, Some(&root), &user, 1, 1, &deep, 0), Err(VoucherError::ProofTooDeep));
    assert_eq!(check_voucher(&env, true, Some(&root), &user, 1, 1, &Vec::new(), 0), Err(VoucherError::AlreadyClaimed));
}

#[test]
fn a_false_answer_does_not_consume_the_voucher() {
    let env = test_env();
    let mut paymaster = VoucherPaymasterContract::new();
    let sponsor = key_of(&Address::generate(&env));
    let user = Address::generate(&env);
    let tree = build_tree(&env, [leaf(&env, &user, 1, 10), [1u8; 32], [2u8; 32], [3u8; 32]]);
    let version = paymaster.register_voucher_batch(&sponsor, tree.root);
    let proof = proof_for_leaf0(&env, &tree);
    assert_eq!(paymaster.validate_voucher(&env, &sponsor, &key_of(&user), version, 1, 10, &proof, 1), Ok(false));
    assert_eq!(paymaster.validate_voucher(&env, &sponsor, &key_of(&user), version, 1, 10, &proof, 0), Ok(true));
}
