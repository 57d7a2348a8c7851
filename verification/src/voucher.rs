//! The voucher paymaster: a sponsor commits to a batch of vouchers by
//! registering the Merkle root over their leaves; each voucher is redeemed
//! once, by the user it was issued to, with a Merkle path to a registered root.
use vstd::prelude::*;
use crate::bytes::{append_bytes, push_u64_be, push_i128_be, bytes_equal, u64_be_bytes, i128_be_bytes};
use crate::host::{sha256, sha256_digest};
use crate::table::{AccountKey, LedgerKey, Table};

verus! {

/// The deepest Merkle path accepted (batches of up to 2^32 vouchers).
pub const MAX_PROOF_DEPTH: usize = 32;

/// The length of an address strkey.
pub const STRKEY_LEN: usize = 56;

/// Why a redemption is refused outright (rather than answered `false`).
#[derive(Clone, Copy, Debug, PartialEq, Eq, Structural)]
pub enum VoucherError {
    /// The Merkle path is deeper than `MAX_PROOF_DEPTH`.
    ProofTooDeep,
    /// The voucher has already been redeemed.
    AlreadyClaimed,
    /// The sponsor has registered no batch with this version.
    UnknownBatch,
    /// The user's strkey does not have the length of an address strkey.
    UnexpectedStrkeyLength,
}

/// A storage key of the voucher paymaster.
pub enum DataKey {
    /// The root of one sponsor's batch with one version.
    SponsorRoot(AccountKey, u32),
    /// The latest batch version a sponsor has registered.
    SponsorLatestVersion(AccountKey),
    /// A voucher of one sponsor's batch that has been redeemed.
    Used(AccountKey, u32, u64),
}

/// The view of a root key.
pub open spec fn root_key(sponsor: Seq<u8>, version: u32) -> (nat, Seq<u8>, u32, u64) {
    (0, sponsor, version, 0)
}

/// The view of a latest-version key.
pub open spec fn latest_key(sponsor: Seq<u8>) -> (nat, Seq<u8>, u32, u64) {
    (1, sponsor, 0, 0)
}

/// The view of a redeemed-voucher key.
pub open spec fn used_key(sponsor: Seq<u8>, version: u32, voucher_id: u64) -> (nat, Seq<u8>, u32, u64) {
    (2, sponsor, version, voucher_id)
}

impl View for DataKey {
    type V = (nat, Seq<u8>, u32, u64);

    open spec fn view(&self) -> (nat, Seq<u8>, u32, u64) {
        match self {
            DataKey::SponsorRoot(s, v) => root_key(s@, *v),
            DataKey::SponsorLatestVersion(s) => latest_key(s@),
            DataKey::Used(s, v, id) => used_key(s@, *v, *id),
        }
    }
}

impl LedgerKey for DataKey {
    fn same_key(&self, other: &Self) -> (r: bool) {
        match (self, other) {
            (DataKey::SponsorRoot(s1, v1), DataKey::SponsorRoot(s2, v2)) => *v1 == *v2 && s1.same_key(s2),
            (DataKey::SponsorLatestVersion(s1), DataKey::SponsorLatestVersion(s2)) => s1.same_key(s2),
            (DataKey::Used(s1, v1, i1), DataKey::Used(s2, v2, i2)) => *v1 == *v2 && *i1 == *i2 && s1.same_key(s2),
            _ => false,
        }
    }
}

/// The domain prefix of a leaf preimage: `gasless:voucher-leaf:v2:`.
pub open spec fn leaf_prefix() -> Seq<u8> {
    seq![
        103u8, 97u8, 115u8, 108u8, 101u8, 115u8, 115u8, 58u8, 118u8, 111u8, 117u8, 99u8,
        104u8, 101u8, 114u8, 45u8, 108u8, 101u8, 97u8, 102u8, 58u8, 118u8, 50u8, 58u8,
    ]
}

/// The bytes a voucher leaf hashes: the prefix, the user's strkey, the
/// voucher id and the fee cap, both big-endian.
pub open spec fn leaf_preimage(user: Seq<u8>, voucher_id: u64, max_fee: i128) -> Seq<u8> {
    leaf_prefix() + user + u64_be_bytes(voucher_id) + i128_be_bytes(max_fee)
}

/// The leaf of the voucher `(user, voucher_id, max_fee)`.
pub open spec fn voucher_leaf(user: Seq<u8>, voucher_id: u64, max_fee: i128) -> Seq<u8> {
    sha256_digest(leaf_preimage(user, voucher_id, max_fee))
}

/// One level up a Merkle path: the node at an even index is hashed before its
/// sibling, the node at an odd index after it.
pub open spec fn merkle_parent(node: Seq<u8>, sibling: Seq<u8>, index: u32) -> Seq<u8> {
    if index % 2 == 0 {
        sha256_digest(node + sibling)
    } else {
        sha256_digest(sibling + node)
    }
}

/// The root reached from `node` at position `index` by the path `proof`.
pub open spec fn merkle_root(node: Seq<u8>, proof: Seq<Seq<u8>>, index: u32) -> Seq<u8>
    decreases proof.len(),
{
    if proof.len() == 0 {
        node
    } else {
        merkle_root(merkle_parent(node, proof[0], index), proof.drop_first(), index / 2)
    }
}

/// The byte strings of a path of 32-byte nodes.
pub open spec fn path_view(proof: Seq<[u8; 32]>) -> Seq<Seq<u8>> {
    proof.map_values(|p: [u8; 32]| p@)
}

/// The number of nodes on the bottom level of a tree of the given depth.
pub open spec fn tree_width(depth: nat) -> nat
    decreases depth,
{
    if depth == 0 {
        1
    } else {
        2 * tree_width((depth - 1) as nat)
    }
}

/// The level above `level` in a Merkle tree: node `j` is the hash of nodes
/// `2j` and `2j + 1`, left one first.
pub open spec fn tree_level_up(level: Seq<Seq<u8>>) -> Seq<Seq<u8>> {
    Seq::new(level.len() / 2, |j: int| sha256_digest(level[2 * j] + level[2 * j + 1]))
}

/// The root of the Merkle tree of the given depth over `level`.
pub open spec fn tree_root(level: Seq<Seq<u8>>, depth: nat) -> Seq<u8>
    decreases depth,
{
    if depth == 0 {
        level[0]
    } else {
        tree_root(tree_level_up(level), (depth - 1) as nat)
    }
}

/// The authentication path of the node at `index` in that tree: its sibling
/// on each level, from the bottom up.
pub open spec fn tree_path(level: Seq<Seq<u8>>, depth: nat, index: int) -> Seq<Seq<u8>>
    decreases depth,
{
    if depth == 0 {
        Seq::empty()
    } else {
        let sibling = if index % 2 == 0 { level[index + 1] } else { level[index - 1] };
        seq![sibling] + tree_path(tree_level_up(level), (depth - 1) as nat, index / 2)
    }
}

/// Every leaf of a Merkle tree reaches the tree's root: following the
/// authentication path of the leaf at position `index` from that position
/// gives the root, whichever the position.
pub proof fn lemma_every_leaf_reaches_the_root(level: Seq<Seq<u8>>, depth: nat, index: u32)
    requires
        level.len() == tree_width(depth),
        index < level.len(),
    ensures
        merkle_root(level[index as int], tree_path(level, depth, index as int), index) == tree_root(level, depth),
    decreases depth,
{
    if depth > 0 {
        let up = tree_level_up(level);
        let i = index as int;
        let path = tree_path(level, depth, i);
        let rest = tree_path(up, (depth - 1) as nat, i / 2);
        assert(up.len() == tree_width((depth - 1) as nat));
        assert(path.drop_first() =~= rest);
        if i % 2 == 0 {
            assert(2 * (i / 2) == i);
            assert(merkle_parent(level[i], path[0], index) == up[i / 2]);
        } else {
            assert(2 * (i / 2) + 1 == i);
            assert(merkle_parent(level[i], path[0], index) == up[i / 2]);
        }
        lemma_every_leaf_reaches_the_root(up, (depth - 1) as nat, index / 2);
    }
}

/// What a redemption decides, given whether the voucher was already redeemed
/// and the root registered for its batch: a too-deep path, a redeemed
/// voucher, an unknown batch and a malformed strkey are refused in that
/// order; otherwise the answer is whether the path leads from the voucher's
/// leaf to the registered root.
pub open spec fn redemption_outcome(
    already_used: bool,
    registered_root: Option<Seq<u8>>,
    user: Seq<u8>,
    voucher_id: u64,
    max_fee: i128,
    proof: Seq<Seq<u8>>,
    leaf_index: u32,
) -> Result<bool, VoucherError> {
    if proof.len() > MAX_PROOF_DEPTH {
        Err(VoucherError::ProofTooDeep)
    } else if already_used {
        Err(VoucherError::AlreadyClaimed)
    } else if registered_root is None {
        Err(VoucherError::UnknownBatch)
    } else if user.len() != STRKEY_LEN {
        Err(VoucherError::UnexpectedStrkeyLength)
    } else {
        Ok(merkle_root(voucher_leaf(user, voucher_id, max_fee), proof, leaf_index)
            == registered_root->Some_0)
    }
}

/// An authentication path has one node per level.
proof fn lemma_tree_path_len(level: Seq<Seq<u8>>, depth: nat, index: int)
    ensures
        tree_path(level, depth, index).len() == depth,
    decreases depth,
{
    if depth > 0 {
        lemma_tree_path_len(tree_level_up(level), (depth - 1) as nat, index / 2);
    }
}

/// A genuine voucher is redeemed: when the registered root of its batch is
/// the root of a Merkle tree of depth at most `MAX_PROOF_DEPTH` whose leaf at
/// `leaf_index` is the voucher's leaf, and the voucher is unused, presenting
/// the leaf's authentication path answers `true`.
pub proof fn lemma_genuine_voucher_redeemed(
    level: Seq<Seq<u8>>,
    depth: nat,
    user: Seq<u8>,
    voucher_id: u64,
    max_fee: i128,
    leaf_index: u32,
)
    requires
        level.len() == tree_width(depth),
        leaf_index < level.len(),
        depth <= MAX_PROOF_DEPTH,
        user.len() == STRKEY_LEN,
        level[leaf_index as int] == voucher_leaf(user, voucher_id, max_fee),
    ensures
        redemption_outcome(
            false,
            Some(tree_root(level, depth)),
            user,
            voucher_id,
            max_fee,
            tree_path(level, depth, leaf_index as int),
            leaf_index,
        ) == Ok::<bool, VoucherError>(true),
{
    lemma_tree_path_len(level, depth, leaf_index as int);
    lemma_every_leaf_reaches_the_root(level, depth, leaf_index);
}

/// The leaf domain prefix.
fn leaf_prefix_bytes() -> (v: Vec<u8>)
    ensures
        v@ == leaf_prefix(),
{
    let v: Vec<u8> = vec![
        103u8, 97u8, 115u8, 108u8, 101u8, 115u8, 115u8, 58u8, 118u8, 111u8, 117u8, 99u8,
        104u8, 101u8, 114u8, 45u8, 108u8, 101u8, 97u8, 102u8, 58u8, 118u8, 50u8, 58u8,
    ];
    assert(v@ =~= leaf_prefix());
    v
}

/// The leaf of the voucher `(user, voucher_id, max_fee)`; refused when the
/// user's strkey does not have the length of an address strkey.
pub fn compute_leaf(env: &soroban_sdk::Env, user: &AccountKey, voucher_id: u64, max_fee: i128) -> (r: Result<[u8; 32], VoucherError>)
    ensures
        user@.len() != STRKEY_LEN ==> r == Err::<[u8; 32], VoucherError>(VoucherError::UnexpectedStrkeyLength),
        user@.len() == STRKEY_LEN ==> (r matches Ok(leaf) && leaf@ == voucher_leaf(user@, voucher_id, max_fee)),
{
    if user.strkey.len() != STRKEY_LEN {
        return Err(VoucherError::UnexpectedStrkeyLength);
    }
    let mut data = leaf_prefix_bytes();
    append_bytes(&mut data, user.strkey.as_slice());
    push_u64_be(&mut data, voucher_id);
    push_i128_be(&mut data, max_fee);
    Ok(sha256(env, data.as_slice()))
}

/// The root reached from `leaf` at position `leaf_index` by the path `proof`.
pub fn compute_root(env: &soroban_sdk::Env, leaf: &[u8; 32], proof: &Vec<[u8; 32]>, leaf_index: u32) -> (root: [u8; 32])
    ensures
        root@ == merkle_root(leaf@, path_view(proof@), leaf_index),
{
    let ghost path = path_view(proof@);
    let mut current: [u8; 32] = *leaf;
    let mut index: u32 = leaf_index;
    let n = proof.len();
    let mut i: usize = 0;
    assert(path.skip(0) =~= path);
    while i < n
        invariant
            n == proof@.len(),
            path == path_view(proof@),
            i <= n,
            merkle_root(current@, path.skip(i as int), index) == merkle_root(leaf@, path, leaf_index),
        decreases n - i,
    {
        let sibling: &[u8; 32] = &proof[i];
        let mut combined: Vec<u8> = Vec::new();
        if index % 2 == 0 {
            append_bytes(&mut combined, current.as_slice());
            append_bytes(&mut combined, sibling.as_slice());
        } else {
            append_bytes(&mut combined, sibling.as_slice());
            append_bytes(&mut combined, current.as_slice());
        }
        let next = sha256(env, combined.as_slice());
        proof {
            let rest = path.skip(i as int);
            assert(rest[0] == sibling@);
            assert(rest.drop_first() =~= path.skip(i + 1));
            assert(combined@ == if index % 2 == 0 { current@ + sibling@ } else { sibling@ + current@ });
            assert(next@ == merkle_parent(current@, sibling@, index));
        }
        current = next;
        index = index / 2;
        i += 1;
    }
    assert(path.skip(n as int) =~= Seq::<Seq<u8>>::empty());
    current
}

/// A redemption's decision on the values it reads from storage: whether the
/// voucher was already redeemed and the root registered for its batch.
pub fn check_voucher(
    env: &soroban_sdk::Env,
    already_used: bool,
    registered_root: Option<&[u8; 32]>,
    user: &AccountKey,
    voucher_id: u64,
    max_fee: i128,
    merkle_proof: &Vec<[u8; 32]>,
    leaf_index: u32,
) -> (r: Result<bool, VoucherError>)
    ensures
        r == redemption_outcome(
            already_used,
            match registered_root {
                Some(root) => Some(root@),
                None => None,
            },
            user@,
            voucher_id,
            max_fee,
            path_view(merkle_proof@),
            leaf_index,
        ),
{
    if merkle_proof.len() > MAX_PROOF_DEPTH {
        return Err(VoucherError::ProofTooDeep);
    }
    if already_used {
        return Err(VoucherError::AlreadyClaimed);
    }
    let root = match registered_root {
        Some(root) => root,
        None => {
            return Err(VoucherError::UnknownBatch);
        },
    };
    let leaf = compute_leaf(env, user, voucher_id, max_fee)?;
    let computed_root = compute_root(env, &leaf, merkle_proof, leaf_index);
    Ok(bytes_equal(computed_root.as_slice(), root.as_slice()))
}

/// The next batch version after `previous`.
pub fn next_batch_version(previous: u32) -> (next: u32)
    requires
        previous < u32::MAX,
    ensures
        next == previous + 1,
{
    previous + 1
}

/// The voucher paymaster's storage: registered roots, each sponsor's latest
/// batch version, and the redeemed vouchers.
pub struct VoucherPaymasterContract {
    pub roots: Table<DataKey, [u8; 32]>,
    pub latest: Table<DataKey, u32>,
    pub used: Table<DataKey, bool>,
}

impl VoucherPaymasterContract {
    /// The tables are well formed.
    pub open spec fn wf(&self) -> bool {
        &&& self.roots.wf()
        &&& self.latest.wf()
        &&& self.used.wf()
    }

    /// The latest batch version `sponsor` has registered, or 0.
    pub open spec fn latest_version(&self, sponsor: Seq<u8>) -> u32 {
        if self.latest.entries().contains_key(latest_key(sponsor)) {
            self.latest.entries()[latest_key(sponsor)]
        } else {
            0
        }
    }

    /// The root of `sponsor`'s batch `version`, if registered.
    pub open spec fn root_of(&self, sponsor: Seq<u8>, version: u32) -> Option<Seq<u8>> {
        if self.roots.entries().contains_key(root_key(sponsor, version)) {
            Some(self.roots.entries()[root_key(sponsor, version)]@)
        } else {
            None
        }
    }

    /// The voucher `voucher_id` of `sponsor`'s batch `version` has been redeemed.
    pub open spec fn is_used(&self, sponsor: Seq<u8>, version: u32, voucher_id: u64) -> bool {
        self.used.entries().contains_key(used_key(sponsor, version, voucher_id))
    }

    /// A paymaster with no batches registered.
    pub fn new() -> (s: Self)
        ensures
            s.wf(),
            forall|sponsor: Seq<u8>| #[trigger] s.latest_version(sponsor) == 0,
            forall|sponsor: Seq<u8>, version: u32| #[trigger] s.root_of(sponsor, version) is None,
            forall|sponsor: Seq<u8>, version: u32, id: u64| !#[trigger] s.is_used(sponsor, version, id),
    {
        VoucherPaymasterContract { roots: Table::new(), latest: Table::new(), used: Table::new() }
    }

    /// The latest batch version `sponsor` has registered, or 0 before the first.
    pub fn get_latest_batch_version(&self, sponsor: &AccountKey) -> (v: u32)
        requires
            self.wf(),
        ensures
            v == self.latest_version(sponsor@),
    {
        match self.latest.get(&DataKey::SponsorLatestVersion(sponsor.duplicate())) {
            Some(v) => *v,
            None => 0,
        }
    }

    /// Registers `root` as `sponsor`'s next batch and returns its version,
    /// one more than the sponsor's latest. Earlier batches stay registered.
    pub fn register_voucher_batch(&mut self, sponsor: &AccountKey, root: [u8; 32]) -> (version: u32)
        requires
            old(self).wf(),
            old(self).latest_version(sponsor@) < u32::MAX,
        ensures
            final(self).wf(),
            version == old(self).latest_version(sponsor@) + 1,
            final(self).roots.entries() == old(self).roots.entries().insert(root_key(sponsor@, version), root),
            final(self).latest.entries() == old(self).latest.entries().insert(latest_key(sponsor@), version),
            final(self).used == old(self).used,
    {
        let previous = self.get_latest_batch_version(sponsor);
        let version = next_batch_version(previous);
        self.roots.insert(DataKey::SponsorRoot(sponsor.duplicate(), version), root);
        self.latest.insert(DataKey::SponsorLatestVersion(sponsor.duplicate()), version);
        version
    }

    /// Redeems the voucher `(user, voucher_id, max_fee)` of `sponsor`'s batch
    /// `batch_version` with the Merkle path `merkle_proof` from position
    /// `leaf_index`. Answers whether the path leads to the registered root,
    /// and marks the voucher redeemed only when it does; a refusal or a
    /// `false` answer changes nothing.
    pub fn validate_voucher(
        &mut self,
        env: &soroban_sdk::Env,
        sponsor: &AccountKey,
        user: &AccountKey,
        batch_version: u32,
        voucher_id: u64,
        max_fee: i128,
        merkle_proof: &Vec<[u8; 32]>,
        leaf_index: u32,
    ) -> (r: Result<bool, VoucherError>)
        requires
            old(self).wf(),
        ensures
            final(self).wf(),
            r == redemption_outcome(
                old(self).is_used(sponsor@, batch_version, voucher_id),
                old(self).root_of(sponsor@, batch_version),
                user@,
                voucher_id,
                max_fee,
                path_view(merkle_proof@),
                leaf_index,
            ),
            r == Ok::<bool, VoucherError>(true) ==> final(self).used.entries() == old(self).used.entries().insert(
                used_key(sponsor@, batch_version, voucher_id),
                true,
            ) && final(self).roots == old(self).roots && final(self).latest == old(self).latest,
            r != Ok::<bool, VoucherError>(true) ==> *final(self) == *old(self),
    {
        let used_k = DataKey::Used(sponsor.duplicate(), batch_version, voucher_id);
        let already_used = self.used.get(&used_k).is_some();
        let root_k = DataKey::SponsorRoot(sponsor.duplicate(), batch_version);
        let outcome = check_voucher(
            env,
            already_used,
            self.roots.get(&root_k),
            user,
            voucher_id,
            max_fee,
            merkle_proof,
            leaf_index,
        );
        if let Ok(true) = outcome {
            self.used.insert(used_k, true);
        }
        outcome
    }
}

/// Single use: once a voucher has been redeemed, every later redemption of it
/// (with a path of acceptable depth) is refused as already claimed.
pub proof fn lemma_redeemed_voucher_is_refused(
    s: VoucherPaymasterContract,
    sponsor: Seq<u8>,
    version: u32,
    voucher_id: u64,
    user: Seq<u8>,
    max_fee: i128,
    proof: Seq<Seq<u8>>,
    leaf_index: u32,
)
    requires
        s.is_used(sponsor, version, voucher_id),
        proof.len() <= MAX_PROOF_DEPTH,
    ensures
        redemption_outcome(true, s.root_of(sponsor, version), user, voucher_id, max_fee, proof, leaf_index)
            == Err::<bool, VoucherError>(VoucherError::AlreadyClaimed),
{
}

/// Redeeming one voucher marks only that voucher: the same id in another
/// batch of the same sponsor, or in any batch of another sponsor, stays
/// redeemable.
pub proof fn lemma_redemptions_are_independent(
    old_state: VoucherPaymasterContract,
    new_state: VoucherPaymasterContract,
    sponsor: Seq<u8>,
    version: u32,
    voucher_id: u64,
    other_sponsor: Seq<u8>,
    other_version: u32,
    other_id: u64,
)
    requires
        new_state.used.entries() == old_state.used.entries().insert(used_key(sponsor, version, voucher_id), true),
        (other_sponsor, other_version, other_id) != (sponsor, version, voucher_id),
    ensures
        new_state.is_used(sponsor, version, voucher_id),
        new_state.is_used(other_sponsor, other_version, other_id) == old_state.is_used(
            other_sponsor,
            other_version,
            other_id,
        ),
{
}

/// Rotation keeps old batches: registering a new batch leaves the root of
/// every other (sponsor, version) pair, and every redemption record, as it was.
pub proof fn lemma_registration_keeps_other_batches(
    old_state: VoucherPaymasterContract,
    new_state: VoucherPaymasterContract,
    sponsor: Seq<u8>,
    version: u32,
    root: [u8; 32],
    other_sponsor: Seq<u8>,
    other_version: u32,
)
    requires
        new_state.roots.entries() == old_state.roots.entries().insert(root_key(sponsor, version), root),
        (other_sponsor, other_version) != (sponsor, version),
    ensures
        new_state.root_of(sponsor, version) == Some(root@),
        new_state.root_of(other_sponsor, other_version) == old_state.root_of(other_sponsor, other_version),
{
}

/// A leaf preimage determines the user, the voucher id and the fee cap: a
/// path that verifies for one user, id or fee cap cannot be replayed with
/// another without a SHA-256 collision.
pub proof fn lemma_leaf_preimage_injective(
    user1: Seq<u8>,
    id1: u64,
    fee1: i128,
    user2: Seq<u8>,
    id2: u64,
    fee2: i128,
)
    requires
        user1.len() == STRKEY_LEN,
        user2.len() == STRKEY_LEN,
        leaf_preimage(user1, id1, fee1) == leaf_preimage(user2, id2, fee2),
    ensures
        user1 == user2,
        id1 == id2,
        fee1 == fee2,
{
    let p1 = leaf_preimage(user1, id1, fee1);
    let p2 = leaf_preimage(user2, id2, fee2);
    let pl = leaf_prefix().len() as int;
    assert(pl == 24);
    assert(p1.subrange(pl, pl + 56) =~= user1);
    assert(p2.subrange(pl, pl + 56) =~= user2);
    assert(p1.subrange(pl + 56, pl + 64) =~= u64_be_bytes(id1));
    assert(p2.subrange(pl + 56, pl + 64) =~= u64_be_bytes(id2));
    assert(p1.subrange(pl + 64, pl + 80) =~= i128_be_bytes(fee1));
    assert(p2.subrange(pl + 64, pl + 80) =~= i128_be_bytes(fee2));
    crate::bytes::lemma_u64_be_bytes_injective(id1, id2);
    crate::bytes::lemma_i128_be_bytes_injective(fee1, fee2);
}

} // verus!
