use access_core::access_registry::AccessRegistry;
use access_core::bridge::{complete_payment_and_grant, evaluate_access_checked, refund_payment_and_revoke};
use access_core::entitlement::EntitlementLevel;
use access_core::host::{Address, Env};
use access_core::payment::{PaymentIntegration, PaymentStatus};
use access_core::policy::PolicyEngine;

fn env_of(caller: Address) -> Env {
    Env { caller, block_number: 0, block_timestamp: 0 }
}

#[test]
fn payment_lifecycle_grants_and_revokes() {
    let owner: Address = [0u8; 20];
    let account: Address = [0x02; 20];
    let mut payments = PaymentIntegration::new(owner);
    let mut registry = AccessRegistry::new(owner);

    let payment_id = payments
        .record_payment(
            env_of(owner),
            account,
            b"apple".to_vec(),
            b"txn-123".to_vec(),
            1000,
            2,
        )
        .unwrap();
    assert_eq!(payment_id, 0);
    assert_eq!(payments.get_payment(payment_id).unwrap().status, PaymentStatus::Pending);

    // Completion grants the paid entitlement in the same transaction.
    assert!(complete_payment_and_grant(&mut payments, &mut registry, env_of(owner), payment_id).is_ok());
    assert_eq!(payments.get_payment(payment_id).unwrap().status, PaymentStatus::Completed);
    assert_eq!(registry.get_entitlement(account), EntitlementLevel::Premium);

    // Refund revokes it again.
    assert!(refund_payment_and_revoke(&mut payments, &mut registry, env_of(owner), payment_id).is_ok());
    assert_eq!(payments.get_payment(payment_id).unwrap().status, PaymentStatus::Refunded);
    assert_eq!(registry.get_entitlement(account), EntitlementLevel::NoAccess);
}

#[test]
fn completion_covers_the_paid_level() {
    let owner: Address = [0u8; 20];
    let account: Address = [0x02; 20];
    let mut payments = PaymentIntegration::new(owner);
    let mut registry = AccessRegistry::new(owner);

    let payment_id = payments
        .record_payment(env_of(owner), account, b"apple".to_vec(), b"txn-9".to_vec(), 50, 3)
        .unwrap();
    complete_payment_and_grant(&mut payments, &mut registry, env_of(owner), payment_id).unwrap();

    // The account's entitlement now covers the level the payment granted.
    assert!(registry.has_entitlement(account, EntitlementLevel::Vip));
}

#[test]
fn composed_access_evaluation() {
    let owner: Address = [0u8; 20];
    let account: Address = [0x02; 20];
    let mut engine = PolicyEngine::new(owner);
    let mut registry = AccessRegistry::new(owner);

    let policy_id = engine
        .create_policy(
            env_of(owner),
            b"resource-123".to_vec(),
            vec![(b"opentdf.role".to_vec(), b"admin".to_vec())],
            2,
        )
        .unwrap();

    let held = vec![(b"opentdf.role".to_vec(), b"admin".to_vec())];
    let missing: Vec<(Vec<u8>, Vec<u8>)> = vec![];

    // No entitlement yet: denied despite the right attributes.
    assert!(!evaluate_access_checked(&engine, &registry, account, policy_id, &held));

    registry
        .grant_entitlement(env_of(owner), account, EntitlementLevel::Basic)
        .unwrap();
    // Basic is below the policy's minimum of Premium.
    assert!(!evaluate_access_checked(&engine, &registry, account, policy_id, &held));

    registry
        .grant_entitlement(env_of(owner), account, EntitlementLevel::Premium)
        .unwrap();
    assert!(evaluate_access_checked(&engine, &registry, account, policy_id, &held));

    // The required attribute pair must actually be held.
    assert!(!evaluate_access_checked(&engine, &registry, account, policy_id, &missing));

    // An inactive policy denies for everyone.
    engine
        .update_policy(env_of(owner), policy_id, vec![(b"opentdf.role".to_vec(), b"admin".to_vec())], 2, false)
        .unwrap();
    assert!(!evaluate_access_checked(&engine, &registry, account, policy_id, &held));
}

#[test]
fn out_of_ladder_byte_grants_nothing() {
    let owner: Address = [0u8; 20];
    let account: Address = [0x02; 20];
    let mut payments = PaymentIntegration::new(owner);
    let mut registry = AccessRegistry::new(owner);

    // A byte above 3 names no rung; completing such a payment leaves the
    // account at the bottom of the ladder.
    let payment_id = payments
        .record_payment(env_of(owner), account, b"apple".to_vec(), b"txn-junk".to_vec(), 10, 200)
        .unwrap();
    complete_payment_and_grant(&mut payments, &mut registry, env_of(owner), payment_id).unwrap();

    assert_eq!(payments.get_payment(payment_id).unwrap().status, PaymentStatus::Completed);
    assert_eq!(registry.get_entitlement(account), EntitlementLevel::NoAccess);
    assert!(!registry.has_entitlement(account, EntitlementLevel::Basic));
}
