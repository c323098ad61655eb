use access_core::host::{Address, Env};
use access_core::policy::{Error, PolicyEngine};

fn env_of(caller: Address) -> Env {
    Env { caller, block_number: 0, block_timestamp: 0 }
}

#[test]
fn policy_new_works() {
    let owner: Address = [0u8; 20];
    let contract = PolicyEngine::new(owner);
    assert_eq!(contract.owner(), owner);
    assert_eq!(contract.next_policy_id(), 0);
}

#[test]
fn create_policy_works() {
    let owner: Address = [0u8; 20];
    let mut contract = PolicyEngine::new(owner);
    let resource_id = b"resource-123".to_vec();
    let required_attributes = vec![(b"opentdf.role".to_vec(), b"admin".to_vec())];

    let policy_id = contract
        .create_policy(env_of(owner), resource_id.clone(), required_attributes.clone(), 2)
        .unwrap();

    assert_eq!(policy_id, 0);
    let policy = contract.get_policy(policy_id).unwrap();
    assert_eq!(policy.resource_id, resource_id);
    assert_eq!(policy.required_attributes, required_attributes);
    assert_eq!(policy.min_entitlement, 2);
    assert!(policy.active);
}

#[test]
fn update_policy_works() {
    let owner: Address = [0u8; 20];
    let mut contract = PolicyEngine::new(owner);
    let policy_id = contract
        .create_policy(env_of(owner), b"resource-123".to_vec(), vec![], 1)
        .unwrap();

    let new_attributes = vec![(b"opentdf.department".to_vec(), b"engineering".to_vec())];

    assert!(contract
        .update_policy(env_of(owner), policy_id, new_attributes.clone(), 3, false)
        .is_ok());

    let policy = contract.get_policy(policy_id).unwrap();
    assert_eq!(policy.min_entitlement, 3);
    assert!(!policy.active);
    assert_eq!(policy.required_attributes, new_attributes);
    assert_eq!(policy.resource_id, b"resource-123".to_vec());
}

#[test]
fn delete_policy_works() {
    let owner: Address = [0u8; 20];
    let mut contract = PolicyEngine::new(owner);
    let policy_id = contract
        .create_policy(env_of(owner), b"resource-123".to_vec(), vec![], 1)
        .unwrap();

    assert!(contract.delete_policy(env_of(owner), policy_id).is_ok());
    assert!(contract.get_policy(policy_id).is_none());
}

#[test]
fn evaluate_access_works() {
    let owner: Address = [0u8; 20];
    let mut contract = PolicyEngine::new(owner);
    let account: Address = [0x02; 20];
    let policy_id = contract
        .create_policy(env_of(owner), b"resource-123".to_vec(), vec![], 1)
        .unwrap();

    assert!(contract.evaluate_access(account, policy_id));
}

#[test]
fn evaluate_access_denies_inactive_and_unknown() {
    let owner: Address = [0u8; 20];
    let mut contract = PolicyEngine::new(owner);
    let account: Address = [0x02; 20];
    let policy_id = contract
        .create_policy(env_of(owner), b"resource-123".to_vec(), vec![], 1)
        .unwrap();
    contract.update_policy(env_of(owner), policy_id, vec![], 1, false).unwrap();

    assert!(!contract.evaluate_access(account, policy_id));
    assert!(!contract.evaluate_access(account, 42));
}

#[test]
fn create_policy_validates_inputs() {
    let owner: Address = [0u8; 20];
    let mut contract = PolicyEngine::new(owner);

    // Resource id over 256 bytes.
    let result = contract.create_policy(env_of(owner), vec![0x61u8; 257], vec![], 1);
    assert_eq!(result, Err(Error::InputTooLong));

    // More than 50 attribute pairs.
    let mut many = Vec::new();
    for i in 0..51u8 {
        many.push((vec![i], vec![i]));
    }
    let result = contract.create_policy(env_of(owner), b"resource-123".to_vec(), many, 1);
    assert_eq!(result, Err(Error::TooManyAttributes));

    // An attribute value over 256 bytes.
    let result = contract.create_policy(
        env_of(owner),
        b"resource-123".to_vec(),
        vec![(b"key".to_vec(), vec![0x61u8; 257])],
        1,
    );
    assert_eq!(result, Err(Error::InputTooLong));

    // Nothing was created, and the id counter did not advance.
    assert_eq!(contract.next_policy_id(), 0);
}

#[test]
fn policy_ids_are_monotone_and_not_reused() {
    let owner: Address = [0u8; 20];
    let mut contract = PolicyEngine::new(owner);

    let first = contract
        .create_policy(env_of(owner), b"resource-1".to_vec(), vec![], 1)
        .unwrap();
    let second = contract
        .create_policy(env_of(owner), b"resource-2".to_vec(), vec![], 1)
        .unwrap();
    assert_eq!(first, 0);
    assert_eq!(second, 1);

    contract.delete_policy(env_of(owner), second).unwrap();
    let third = contract
        .create_policy(env_of(owner), b"resource-3".to_vec(), vec![], 1)
        .unwrap();
    assert_eq!(third, 2);
    assert_eq!(contract.next_policy_id(), 3);
}

#[test]
fn update_policy_fails_for_unknown_policy() {
    let owner: Address = [0u8; 20];
    let mut contract = PolicyEngine::new(owner);
    assert_eq!(
        contract.update_policy(env_of(owner), 9, vec![], 1, true),
        Err(Error::PolicyNotFound)
    );
}

#[test]
fn policy_operations_are_owner_only() {
    let owner: Address = [0u8; 20];
    let stranger: Address = [0x07; 20];
    let mut contract = PolicyEngine::new(owner);

    assert_eq!(
        contract.create_policy(env_of(stranger), b"resource-123".to_vec(), vec![], 1),
        Err(Error::NotOwner)
    );
    assert_eq!(
        contract.update_policy(env_of(stranger), 0, vec![], 1, true),
        Err(Error::NotOwner)
    );
    assert_eq!(contract.delete_policy(env_of(stranger), 0), Err(Error::NotOwner));
    assert_eq!(
        contract.set_access_registry(env_of(stranger), [0x01; 20]),
        Err(Error::NotOwner)
    );
    assert_eq!(
        contract.set_attribute_store(env_of(stranger), [0x01; 20]),
        Err(Error::NotOwner)
    );
}
