use access_core::access_registry::{AccessRegistry, AttributeProof, Error, RegistryEvent};
use access_core::entitlement::EntitlementLevel;
use access_core::host::{Address, Env};
use access_core::merkle::verify_merkle_proof;

fn env_of(caller: Address) -> Env {
    Env { caller, block_number: 0, block_timestamp: 0 }
}

fn blake2_256(data: &[u8]) -> [u8; 32] {
    let digest = <blake2::Blake2b256 as blake2::Digest>::digest(data);
    let mut out = [0u8; 32];
    out.copy_from_slice(digest.as_slice());
    out
}

fn hash_pair(left: &[u8; 32], right: &[u8; 32]) -> [u8; 32] {
    let mut input = [0u8; 64];
    input[..32].copy_from_slice(left);
    input[32..].copy_from_slice(right);
    blake2_256(&input)
}

#[test]
fn new_works() {
    let owner: Address = [0u8; 20];
    let contract = AccessRegistry::new(owner);
    assert_eq!(contract.owner(), owner);
}

#[test]
fn grant_entitlement_works() {
    let owner: Address = [0u8; 20];
    let mut contract = AccessRegistry::new(owner);
    let account: Address = [0x02; 20];

    assert!(contract
        .grant_entitlement(env_of(owner), account, EntitlementLevel::Vip)
        .is_ok());
    assert_eq!(contract.get_entitlement(account), EntitlementLevel::Vip);
    assert!(matches!(
        contract.events().last(),
        Some(RegistryEvent::EntitlementGranted(e))
            if e.account == account && e.level == EntitlementLevel::Vip
    ));
}

#[test]
fn has_entitlement_works() {
    let owner: Address = [0u8; 20];
    let mut contract = AccessRegistry::new(owner);
    let account: Address = [0x02; 20];

    contract
        .grant_entitlement(env_of(owner), account, EntitlementLevel::Premium)
        .unwrap();

    assert!(contract.has_entitlement(account, EntitlementLevel::Basic));
    assert!(contract.has_entitlement(account, EntitlementLevel::Premium));
    assert!(!contract.has_entitlement(account, EntitlementLevel::Vip));
}

#[test]
fn revoke_entitlement_works() {
    let owner: Address = [0u8; 20];
    let mut contract = AccessRegistry::new(owner);
    let account: Address = [0x02; 20];

    contract
        .grant_entitlement(env_of(owner), account, EntitlementLevel::Vip)
        .unwrap();
    assert!(contract.revoke_entitlement(env_of(owner), account).is_ok());
    assert_eq!(contract.get_entitlement(account), EntitlementLevel::NoAccess);
}

#[test]
fn grant_entitlement_rejects_non_owner() {
    let owner: Address = [0u8; 20];
    let stranger: Address = [0x07; 20];
    let mut contract = AccessRegistry::new(owner);

    assert_eq!(
        contract.grant_entitlement(env_of(stranger), [0x02; 20], EntitlementLevel::Basic),
        Err(Error::NotOwner)
    );
    assert_eq!(contract.get_entitlement([0x02; 20]), EntitlementLevel::NoAccess);
}

#[test]
fn create_session_works() {
    let owner: Address = [0u8; 20];
    let mut contract = AccessRegistry::new(owner);
    let session_id = [0x01u8; 32];
    let eph_pub_key = vec![0x02u8; 33];
    let scope_id = [0x03u8; 32];
    let expires_at_block = 1000u64;

    assert!(contract
        .create_session(env_of(owner), session_id, eph_pub_key.clone(), scope_id, expires_at_block)
        .is_ok());

    let grant = contract.get_session(session_id);
    assert!(grant.is_some());
    let grant = grant.unwrap();
    assert_eq!(grant.eph_pub_key, eph_pub_key);
    assert_eq!(grant.scope_id, scope_id);
    assert_eq!(grant.expires_at_block, expires_at_block);
    assert!(!grant.is_revoked);
}

#[test]
fn get_session_returns_none_for_unknown() {
    let owner: Address = [0u8; 20];
    let contract = AccessRegistry::new(owner);
    let session_id = [0x99u8; 32];
    assert!(contract.get_session(session_id).is_none());
}

#[test]
fn revoke_session_works() {
    let owner: Address = [0u8; 20];
    let mut contract = AccessRegistry::new(owner);
    let session_id = [0x01u8; 32];
    let eph_pub_key = vec![0x02u8; 33];
    let scope_id = [0x03u8; 32];
    let expires_at_block = 1000u64;

    contract
        .create_session(env_of(owner), session_id, eph_pub_key, scope_id, expires_at_block)
        .unwrap();

    assert!(contract.revoke_session(env_of(owner), session_id).is_ok());

    let grant = contract.get_session(session_id).unwrap();
    assert!(grant.is_revoked);
}

#[test]
fn revoke_session_fails_for_unknown() {
    let owner: Address = [0u8; 20];
    let mut contract = AccessRegistry::new(owner);
    let session_id = [0x99u8; 32];
    assert_eq!(
        contract.revoke_session(env_of(owner), session_id),
        Err(Error::SessionNotFound)
    );
}

#[test]
fn revocation_stays() {
    let owner: Address = [0u8; 20];
    let mut contract = AccessRegistry::new(owner);
    let session_id = [0x01u8; 32];

    contract
        .create_session(env_of(owner), session_id, vec![0x02u8; 33], [0x03u8; 32], 1000)
        .unwrap();
    contract.revoke_session(env_of(owner), session_id).unwrap();
    assert!(contract.get_session(session_id).unwrap().is_revoked);

    // A second revocation is an accepted no-op, and the flag never clears.
    assert!(contract.revoke_session(env_of(owner), session_id).is_ok());
    assert!(contract.get_session(session_id).unwrap().is_revoked);

    // Unrelated writes do not clear it either.
    contract
        .grant_entitlement(env_of(owner), [0x02; 20], EntitlementLevel::Basic)
        .unwrap();
    contract
        .set_scope_requirement(env_of(owner), [0x04u8; 32], vec![], true)
        .unwrap();
    assert!(contract.get_session(session_id).unwrap().is_revoked);

    // Not even the owner can bring the session back: re-creation under the
    // same id is refused, so no read ever sees the flag cleared.
    assert_eq!(
        contract.create_session(env_of(owner), session_id, vec![0x05u8; 33], [0x03u8; 32], 2000),
        Err(Error::SessionAlreadyExists)
    );
    assert!(contract.get_session(session_id).unwrap().is_revoked);
}

#[test]
fn set_attribute_store_works() {
    let owner: Address = [0u8; 20];
    let mut contract = AccessRegistry::new(owner);
    let address: Address = [0x01; 20];
    assert!(contract.set_attribute_store(env_of(owner), address).is_ok());
    assert_eq!(contract.get_attribute_store(), Some(address));
}

#[test]
fn set_scope_requirement_works() {
    let owner: Address = [0u8; 20];
    let mut contract = AccessRegistry::new(owner);
    let scope_id = [0x01u8; 32];
    let required = vec![[0xABu8; 32], [0xCDu8; 32]];

    assert!(contract
        .set_scope_requirement(env_of(owner), scope_id, required.clone(), true)
        .is_ok());

    let req = contract.get_scope_requirement(scope_id).unwrap();
    assert_eq!(req.required_attributes, required);
    assert!(req.active);
}

#[test]
fn scope_requirement_overwrite() {
    let owner: Address = [0u8; 20];
    let mut contract = AccessRegistry::new(owner);
    let scope_id = [0x01u8; 32];

    contract
        .set_scope_requirement(env_of(owner), scope_id, vec![[0xABu8; 32], [0xCDu8; 32]], true)
        .unwrap();
    contract
        .set_scope_requirement(env_of(owner), scope_id, vec![[0xEFu8; 32]], false)
        .unwrap();

    let req = contract.get_scope_requirement(scope_id).unwrap();
    assert_eq!(req.required_attributes, vec![[0xEFu8; 32]]);
    assert!(!req.active);
}

#[test]
fn verify_merkle_proof_works() {
    // Two-leaf tree: root = H(leaf_a || leaf_b); leaf_a proves with sibling
    // leaf_b on its right.
    let leaf_a = [0x01u8; 32];
    let leaf_b = [0x02u8; 32];
    let root = hash_pair(&leaf_a, &leaf_b);

    let proof_path = vec![leaf_b];
    let proof_indices = vec![0u8];

    assert!(verify_merkle_proof(&leaf_a, &proof_path, &proof_indices, &root));

    let wrong_leaf = [0x99u8; 32];
    assert!(!verify_merkle_proof(&wrong_leaf, &proof_path, &proof_indices, &root));
}

#[test]
fn merkle_verification_is_deterministic() {
    let leaf_a = [0x01u8; 32];
    let leaf_b = [0x02u8; 32];
    let root = hash_pair(&leaf_a, &leaf_b);
    let proof_path = vec![leaf_b];
    let proof_indices = vec![0u8];

    let first = verify_merkle_proof(&leaf_a, &proof_path, &proof_indices, &root);
    let second = verify_merkle_proof(&leaf_a, &proof_path, &proof_indices, &root);
    assert_eq!(first, second);
    assert!(first);
}

#[test]
fn empty_merkle_proof_accepts_only_the_root() {
    let leaf = [0x05u8; 32];
    assert!(verify_merkle_proof(&leaf, &vec![], &vec![], &leaf));
    assert!(!verify_merkle_proof(&leaf, &vec![], &vec![], &[0x06u8; 32]));
}

#[test]
fn merkle_proof_length_mismatch_is_false() {
    let leaf = [0x05u8; 32];
    let root = hash_pair(&leaf, &[0x06u8; 32]);
    assert!(!verify_merkle_proof(&leaf, &vec![[0x06u8; 32]], &vec![], &root));
}

#[test]
fn request_session_fails_without_attribute_store() {
    let owner: Address = [0u8; 20];
    let mut contract = AccessRegistry::new(owner);
    let scope_id = [0x01u8; 32];

    contract
        .set_scope_requirement(env_of(owner), scope_id, vec![], true)
        .unwrap();

    let result = contract.request_session(
        env_of(owner),
        vec![0x02u8; 33],
        scope_id,
        100,
        vec![],
        [0u8; 32],
    );

    assert_eq!(result, Err(Error::AttributeStoreNotConfigured));
}

#[test]
fn request_session_fails_for_unknown_scope() {
    let owner: Address = [0u8; 20];
    let mut contract = AccessRegistry::new(owner);
    let attribute_store: Address = [0x99; 20];
    let scope_id = [0x01u8; 32];

    contract.set_attribute_store(env_of(owner), attribute_store).unwrap();

    let result = contract.request_session(
        env_of(owner),
        vec![0x02u8; 33],
        scope_id,
        100,
        vec![],
        [0u8; 32],
    );

    assert_eq!(result, Err(Error::ScopeNotFound));
}

#[test]
fn request_session_fails_for_inactive_scope() {
    let owner: Address = [0u8; 20];
    let mut contract = AccessRegistry::new(owner);
    let attribute_store: Address = [0x99; 20];
    let scope_id = [0x01u8; 32];

    contract.set_attribute_store(env_of(owner), attribute_store).unwrap();
    contract
        .set_scope_requirement(env_of(owner), scope_id, vec![], false)
        .unwrap();

    let result = contract.request_session(
        env_of(owner),
        vec![0x02u8; 33],
        scope_id,
        100,
        vec![],
        [0u8; 32],
    );

    assert_eq!(result, Err(Error::ScopeInactive));
}

#[test]
fn request_session_works_with_no_requirements() {
    let owner: Address = [0u8; 20];
    let mut contract = AccessRegistry::new(owner);
    let attribute_store: Address = [0x99; 20];
    let scope_id = [0x01u8; 32];

    contract.set_attribute_store(env_of(owner), attribute_store).unwrap();
    contract
        .set_scope_requirement(env_of(owner), scope_id, vec![], true)
        .unwrap();

    let result = contract.request_session(
        env_of(owner),
        vec![0x02u8; 33],
        scope_id,
        100,
        vec![],
        [0u8; 32],
    );

    assert!(result.is_ok());
    let session_id = result.unwrap();
    let grant = contract.get_session(session_id).unwrap();
    assert_eq!(grant.scope_id, scope_id);
}

#[test]
fn request_session_works_with_valid_proofs() {
    let owner: Address = [0u8; 20];
    let mut contract = AccessRegistry::new(owner);
    let scope_id = [0x01u8; 32];
    let attribute_store: Address = [0x99; 20];

    contract.set_attribute_store(env_of(owner), attribute_store).unwrap();

    let attr_hash = [0xABu8; 32];
    let sibling = [0xCDu8; 32];
    let root = hash_pair(&attr_hash, &sibling);

    contract
        .set_scope_requirement(env_of(owner), scope_id, vec![attr_hash], true)
        .unwrap();

    let proof = AttributeProof {
        attribute_hash: attr_hash,
        proof_path: vec![sibling],
        proof_indices: vec![0],
    };

    let result = contract.request_session(
        env_of(owner),
        vec![0x02u8; 33],
        scope_id,
        100,
        vec![proof],
        root,
    );

    assert!(result.is_ok());
    let session_id = result.unwrap();
    let grant = contract.get_session(session_id).unwrap();
    assert_eq!(grant.scope_id, scope_id);
}

#[test]
fn request_session_fails_with_invalid_proof() {
    let owner: Address = [0u8; 20];
    let mut contract = AccessRegistry::new(owner);
    let scope_id = [0x01u8; 32];
    let attribute_store: Address = [0x99; 20];

    contract.set_attribute_store(env_of(owner), attribute_store).unwrap();

    let attr_hash = [0xABu8; 32];

    contract
        .set_scope_requirement(env_of(owner), scope_id, vec![attr_hash], true)
        .unwrap();

    let proof = AttributeProof {
        attribute_hash: attr_hash,
        proof_path: vec![[0xCDu8; 32]],
        proof_indices: vec![0],
    };

    let result = contract.request_session(
        env_of(owner),
        vec![0x02u8; 33],
        scope_id,
        100,
        vec![proof],
        [0x99u8; 32],
    );

    assert_eq!(result, Err(Error::InvalidProof));
}

#[test]
fn request_session_fails_with_missing_attribute() {
    let owner: Address = [0u8; 20];
    let mut contract = AccessRegistry::new(owner);
    let scope_id = [0x01u8; 32];
    let attribute_store: Address = [0x99; 20];

    contract.set_attribute_store(env_of(owner), attribute_store).unwrap();

    contract
        .set_scope_requirement(env_of(owner), scope_id, vec![[0xABu8; 32]], true)
        .unwrap();

    let result = contract.request_session(
        env_of(owner),
        vec![0x02u8; 33],
        scope_id,
        100,
        vec![],
        [0u8; 32],
    );

    assert_eq!(result, Err(Error::MissingRequiredAttribute));
}

#[test]
fn proof_length_mismatch_is_invalid() {
    let owner: Address = [0u8; 20];
    let mut contract = AccessRegistry::new(owner);
    let scope_id = [0x01u8; 32];

    contract.set_attribute_store(env_of(owner), [0x99; 20]).unwrap();
    contract
        .set_scope_requirement(env_of(owner), scope_id, vec![[0xABu8; 32]], true)
        .unwrap();

    // A path and an index list of different lengths never verify.
    let proof = AttributeProof {
        attribute_hash: [0xABu8; 32],
        proof_path: vec![[0xCDu8; 32]],
        proof_indices: vec![],
    };

    let result = contract.request_session(
        env_of(owner),
        vec![0x02u8; 33],
        scope_id,
        100,
        vec![proof],
        [0u8; 32],
    );

    assert_eq!(result, Err(Error::InvalidProof));
}

#[test]
fn session_expiry_binds_duration() {
    let owner: Address = [0u8; 20];
    let mut contract = AccessRegistry::new(owner);
    let scope_id = [0x01u8; 32];

    contract.set_attribute_store(env_of(owner), [0x99; 20]).unwrap();
    contract
        .set_scope_requirement(env_of(owner), scope_id, vec![], true)
        .unwrap();

    let env = Env { caller: owner, block_number: 5, block_timestamp: 0 };
    let session_id = contract
        .request_session(env, vec![0x02u8; 33], scope_id, 100, vec![], [0u8; 32])
        .unwrap();

    let grant = contract.get_session(session_id).unwrap();
    assert_eq!(grant.created_at_block, 5);
    assert_eq!(grant.expires_at_block, 105);
}

#[test]
fn two_leaf_session_issues() {
    // A two-leaf Merkle tree with leaves A and B; the scope requires A.
    let owner: Address = [0u8; 20];
    let mut contract = AccessRegistry::new(owner);
    let leaf_a = [0x01u8; 32];
    let leaf_b = [0x02u8; 32];
    let root = hash_pair(&leaf_a, &leaf_b);
    let scope_id = [0x03u8; 32];

    contract.set_attribute_store(env_of(owner), [0x99; 20]).unwrap();
    contract
        .set_scope_requirement(env_of(owner), scope_id, vec![leaf_a], true)
        .unwrap();

    let proof = AttributeProof {
        attribute_hash: leaf_a,
        proof_path: vec![leaf_b],
        proof_indices: vec![0],
    };

    let result = contract.request_session(
        env_of(owner),
        vec![0x02u8; 33],
        scope_id,
        100,
        vec![proof],
        root,
    );

    assert!(result.is_ok());
    let grant = contract.get_session(result.unwrap()).unwrap();
    assert_eq!(grant.scope_id, scope_id);
}

#[test]
fn stored_root_cross_check() {
    let owner: Address = [0u8; 20];
    let mut contract = AccessRegistry::new(owner);
    let scope_id = [0x01u8; 32];

    contract.set_attribute_store(env_of(owner), [0x99; 20]).unwrap();
    contract
        .set_scope_requirement(env_of(owner), scope_id, vec![], true)
        .unwrap();

    // No root on record for the caller.
    let result = contract.request_session_checked(
        env_of(owner),
        vec![0x02u8; 33],
        scope_id,
        100,
        vec![],
        [0u8; 32],
        None,
    );
    assert_eq!(result, Err(Error::RootNotFound));

    // The stored root disagrees with the claimed one.
    let result = contract.request_session_checked(
        env_of(owner),
        vec![0x02u8; 33],
        scope_id,
        100,
        vec![],
        [0u8; 32],
        Some([0x01u8; 32]),
    );
    assert_eq!(result, Err(Error::InvalidProof));

    // Agreement issues the session.
    let result = contract.request_session_checked(
        env_of(owner),
        vec![0x02u8; 33],
        scope_id,
        100,
        vec![],
        [0u8; 32],
        Some([0u8; 32]),
    );
    assert!(result.is_ok());
}

#[test]
fn bottom_level_satisfied_without_mapping() {
    let owner: Address = [0u8; 20];
    let contract = AccessRegistry::new(owner);
    // An account with no mapping still satisfies a required level of
    // `NoAccess`: the bottom rung demands nothing.
    assert!(contract.has_entitlement([0x42; 20], EntitlementLevel::NoAccess));
}

#[test]
fn same_block_repeat_request_is_refused() {
    let owner: Address = [0u8; 20];
    let mut contract = AccessRegistry::new(owner);
    let scope_id = [0x01u8; 32];

    contract.set_attribute_store(env_of(owner), [0x99; 20]).unwrap();
    contract
        .set_scope_requirement(env_of(owner), scope_id, vec![], true)
        .unwrap();

    // The id hashes caller, scope and block alone, so within one block a
    // second request derives the same id; it is refused and the first
    // session stands untouched.
    let first = contract
        .request_session(env_of(owner), vec![0x02u8; 33], scope_id, 100, vec![], [0u8; 32])
        .unwrap();
    let second = contract.request_session(
        env_of(owner),
        vec![0x03u8; 33],
        scope_id,
        200,
        vec![],
        [0u8; 32],
    );
    assert_eq!(second, Err(Error::SessionAlreadyExists));

    let grant = contract.get_session(first).unwrap();
    assert_eq!(grant.eph_pub_key, vec![0x02u8; 33]);
    assert_eq!(grant.expires_at_block, 100);

    // In the next block the derived id is fresh again.
    let env = Env { caller: owner, block_number: 1, block_timestamp: 0 };
    let third = contract.request_session(env, vec![0x03u8; 33], scope_id, 200, vec![], [0u8; 32]);
    assert!(third.is_ok());
    assert_ne!(third.unwrap(), first);
}

#[test]
fn create_session_rejects_a_taken_id() {
    let owner: Address = [0u8; 20];
    let mut contract = AccessRegistry::new(owner);
    let session_id = [0x01u8; 32];

    contract
        .create_session(env_of(owner), session_id, vec![0x02u8; 33], [0x03u8; 32], 1000)
        .unwrap();
    assert_eq!(
        contract.create_session(env_of(owner), session_id, vec![0x04u8; 33], [0x05u8; 32], 2000),
        Err(Error::SessionAlreadyExists)
    );

    // The stored session is the first one, untouched.
    let grant = contract.get_session(session_id).unwrap();
    assert_eq!(grant.eph_pub_key, vec![0x02u8; 33]);
    assert_eq!(grant.expires_at_block, 1000);
}
