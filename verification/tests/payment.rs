use access_core::host::{Address, Env};
use access_core::payment::{Error, PaymentEvent, PaymentIntegration, PaymentStatus};

fn env_of(caller: Address) -> Env {
    Env { caller, block_number: 0, block_timestamp: 0 }
}

#[test]
fn lib_new_works() {
    let owner: Address = [0u8; 20];
    let contract = PaymentIntegration::new(owner);
    assert_eq!(contract.owner(), owner);
    assert!(contract.is_authorized_processor(owner));
}

#[test]
fn record_payment_works() {
    let owner: Address = [0u8; 20];
    let mut contract = PaymentIntegration::new(owner);
    let account: Address = [0x02; 20];

    let payment_id = contract
        .record_payment(
            env_of(owner),
            account,
            b"apple".to_vec(),
            b"txn-123".to_vec(),
            1000,
            2,
        )
        .unwrap();

    assert_eq!(payment_id, 0);
    let payment = contract.get_payment(payment_id).unwrap();
    assert_eq!(payment.account, account);
    assert_eq!(payment.amount, 1000);
    assert_eq!(payment.status, PaymentStatus::Pending);
}

#[test]
fn complete_payment_works() {
    let owner: Address = [0u8; 20];
    let mut contract = PaymentIntegration::new(owner);
    let account: Address = [0x02; 20];

    let payment_id = contract
        .record_payment(
            env_of(owner),
            account,
            b"apple".to_vec(),
            b"txn-123".to_vec(),
            1000,
            2,
        )
        .unwrap();

    assert!(contract.complete_payment(env_of(owner), payment_id).is_ok());

    let payment = contract.get_payment(payment_id).unwrap();
    assert_eq!(payment.status, PaymentStatus::Completed);
    assert!(matches!(
        contract.events().last(),
        Some(PaymentEvent::PaymentCompleted(e))
            if e.payment_id == 0 && e.account == account && e.entitlement_granted == 2
    ));
}

#[test]
fn refund_payment_works() {
    let owner: Address = [0u8; 20];
    let mut contract = PaymentIntegration::new(owner);
    let account: Address = [0x02; 20];

    let payment_id = contract
        .record_payment(
            env_of(owner),
            account,
            b"apple".to_vec(),
            b"txn-123".to_vec(),
            1000,
            2,
        )
        .unwrap();

    contract.complete_payment(env_of(owner), payment_id).unwrap();
    assert!(contract.refund_payment(env_of(owner), payment_id).is_ok());

    let payment = contract.get_payment(payment_id).unwrap();
    assert_eq!(payment.status, PaymentStatus::Refunded);
}

#[test]
fn authorize_processor_works() {
    let owner: Address = [0u8; 20];
    let mut contract = PaymentIntegration::new(owner);
    let processor: Address = [0x03; 20];

    assert!(contract.authorize_processor(env_of(owner), processor).is_ok());
    assert!(contract.is_authorized_processor(processor));
}

#[test]
fn record_payment_rejects_unauthorized_caller() {
    let owner: Address = [0u8; 20];
    let stranger: Address = [0x07; 20];
    let mut contract = PaymentIntegration::new(owner);

    let result = contract.record_payment(
        env_of(stranger),
        [0x02; 20],
        b"apple".to_vec(),
        b"txn-123".to_vec(),
        1000,
        2,
    );
    assert_eq!(result, Err(Error::NotAuthorizedProcessor));
}

#[test]
fn provider_too_long_rejected() {
    let owner: Address = [0u8; 20];
    let mut contract = PaymentIntegration::new(owner);

    // 257 bytes is one over the cap.
    let result = contract.record_payment(
        env_of(owner),
        [0x02; 20],
        vec![0x61u8; 257],
        b"txn-123".to_vec(),
        1000,
        2,
    );
    assert_eq!(result, Err(Error::InputTooLong));

    let result = contract.record_payment(
        env_of(owner),
        [0x02; 20],
        b"apple".to_vec(),
        vec![0x61u8; 257],
        1000,
        2,
    );
    assert_eq!(result, Err(Error::InputTooLong));

    // 256 bytes is within it.
    let result = contract.record_payment(
        env_of(owner),
        [0x02; 20],
        vec![0x61u8; 256],
        b"txn-123".to_vec(),
        1000,
        2,
    );
    assert!(result.is_ok());
}

#[test]
fn duplicate_transaction_rejected() {
    let owner: Address = [0u8; 20];
    let mut contract = PaymentIntegration::new(owner);
    let account: Address = [0x02; 20];

    let first = contract
        .record_payment(
            env_of(owner),
            account,
            b"apple".to_vec(),
            b"txn-123".to_vec(),
            1000,
            2,
        )
        .unwrap();

    let second = contract.record_payment(
        env_of(owner),
        account,
        b"google".to_vec(),
        b"txn-123".to_vec(),
        500,
        1,
    );
    assert_eq!(second, Err(Error::PaymentAlreadyExists));

    // The first payment is unchanged and the counter did not advance.
    let payment = contract.get_payment(first).unwrap();
    assert_eq!(payment.provider, b"apple".to_vec());
    assert_eq!(payment.amount, 1000);
    assert_eq!(payment.status, PaymentStatus::Pending);
    assert_eq!(contract.next_payment_id(), 1);
}

#[test]
fn payment_ids_are_monotone() {
    let owner: Address = [0u8; 20];
    let mut contract = PaymentIntegration::new(owner);

    let first = contract
        .record_payment(env_of(owner), [0x02; 20], b"apple".to_vec(), b"txn-1".to_vec(), 1, 1)
        .unwrap();
    let second = contract
        .record_payment(env_of(owner), [0x02; 20], b"apple".to_vec(), b"txn-2".to_vec(), 2, 1)
        .unwrap();

    assert_eq!(first, 0);
    assert_eq!(second, 1);
    assert_eq!(contract.next_payment_id(), 2);
}

#[test]
fn get_payment_by_transaction_finds_the_payment() {
    let owner: Address = [0u8; 20];
    let mut contract = PaymentIntegration::new(owner);

    let payment_id = contract
        .record_payment(env_of(owner), [0x02; 20], b"apple".to_vec(), b"txn-123".to_vec(), 1000, 2)
        .unwrap();

    assert_eq!(contract.get_payment_by_transaction(b"txn-123".to_vec()), Some(payment_id));
    assert_eq!(contract.get_payment_by_transaction(b"txn-999".to_vec()), None);
}

#[test]
fn refund_requires_completed_status() {
    let owner: Address = [0u8; 20];
    let mut contract = PaymentIntegration::new(owner);

    let payment_id = contract
        .record_payment(env_of(owner), [0x02; 20], b"apple".to_vec(), b"txn-123".to_vec(), 1000, 2)
        .unwrap();

    assert_eq!(contract.refund_payment(env_of(owner), payment_id), Err(Error::InvalidStatus));
    assert_eq!(contract.refund_payment(env_of(owner), 7), Err(Error::PaymentNotFound));
}

#[test]
fn fail_payment_honors_the_pending_gate() {
    let owner: Address = [0u8; 20];
    let mut contract = PaymentIntegration::new(owner);

    let payment_id = contract
        .record_payment(env_of(owner), [0x02; 20], b"apple".to_vec(), b"txn-123".to_vec(), 1000, 2)
        .unwrap();
    contract.complete_payment(env_of(owner), payment_id).unwrap();

    // Held to the one-way rule, a completed payment cannot fail.
    assert_eq!(
        contract.fail_payment(env_of(owner), payment_id, b"chargeback".to_vec(), true),
        Err(Error::InvalidStatus)
    );
    // The unconditional override sets it to failed regardless.
    assert!(contract
        .fail_payment(env_of(owner), payment_id, b"chargeback".to_vec(), false)
        .is_ok());
    assert_eq!(contract.get_payment(payment_id).unwrap().status, PaymentStatus::Failed);
}
