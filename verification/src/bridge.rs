//! The cross-module integration the deployment wires together: payment
//! completion grants the paid entitlement, refund revokes it, and access
//! evaluation composes the policy gate with the account's entitlement and
//! attributes. The modules reference one another by address on chain; here
//! each composed operation takes the modules it touches and performs both
//! halves in one transaction — either both commit or neither does.

use vstd::prelude::*;
use crate::host::{Address, Env};
use crate::bytes::bytes_eq;
use crate::access_registry::AccessRegistry;
use crate::access_registry::{entitlements_unchanged, sessions_unchanged, scopes_unchanged, config_unchanged, RegistryEvent, EntitlementGranted, EntitlementRevoked};
use crate::payment::{PaymentIntegration, PaymentStatus, PaymentView, PaymentEventView, Error, payment_events_extended_by, payment_config_unchanged, processors_unchanged};
use crate::policy::{PolicyEngine, pairs_view};
use crate::entitlement::{EntitlementLevel, spec_level_of_byte, spec_level_value, level_of_byte, level_value, lemma_level_of_byte_value};

verus! {

/// Completes a pending payment and grants the paying account the entitlement
/// the payment names, in one transaction. The payment module's processor
/// check gates the whole step; the grant reaches the registry as the
/// authorized cross-module call of a wired deployment. After success the
/// account's entitlement covers what the payment granted.
pub fn complete_payment_and_grant(
    payments: &mut PaymentIntegration,
    registry: &mut AccessRegistry,
    env: Env,
    payment_id: u32,
) -> (r: Result<(), Error>)
    requires
        old(payments).wf(),
        old(registry).wf(),
    ensures
        final(payments).wf(),
        final(registry).wf(),
        r is Err ==> *final(payments) == *old(payments) && *final(registry) == *old(registry),
        r is Ok <==> old(payments).spec_is_processor(env.caller)
            && old(payments).spec_payment(payment_id) is Some
            && old(payments).spec_payment(payment_id)->Some_0.status == PaymentStatus::Pending,
        !old(payments).spec_is_processor(env.caller) ==> r == Err::<(), Error>(Error::NotAuthorizedProcessor),
        old(payments).spec_is_processor(env.caller) && old(payments).spec_payment(payment_id) is None
            ==> r == Err::<(), Error>(Error::PaymentNotFound),
        old(payments).spec_is_processor(env.caller) && old(payments).spec_payment(payment_id) is Some
            && old(payments).spec_payment(payment_id)->Some_0.status != PaymentStatus::Pending
            ==> r == Err::<(), Error>(Error::InvalidStatus),
        r is Ok ==> {
            let payment = old(payments).spec_payment(payment_id)->Some_0;
            &&& final(payments).spec_payment(payment_id) == Some(
                (PaymentView { status: PaymentStatus::Completed, ..payment }),
            )
            &&& forall|id: u32| id != payment_id ==> final(payments).spec_payment(id) == old(payments).spec_payment(id)
            &&& payment_config_unchanged(*old(payments), *final(payments))
            &&& processors_unchanged(*old(payments), *final(payments))
            &&& payment_events_extended_by(
                *old(payments),
                *final(payments),
                PaymentEventView::PaymentCompleted {
                    payment_id,
                    account: payment.account,
                    entitlement_granted: payment.entitlement_granted,
                },
            )
            &&& final(registry).spec_entitlement_entry(payment.account) == Some(
                spec_level_of_byte(payment.entitlement_granted),
            )
            &&& payment.entitlement_granted <= 3 ==> spec_level_value(
                final(registry).spec_entitlement(payment.account),
            ) >= payment.entitlement_granted
            &&& forall|a: Address| a != payment.account ==> final(registry).spec_entitlement_entry(a) == old(registry).spec_entitlement_entry(a)
            &&& sessions_unchanged(*old(registry), *final(registry))
            &&& scopes_unchanged(*old(registry), *final(registry))
            &&& config_unchanged(*old(registry), *final(registry))
            &&& final(registry).spec_events() == old(registry).spec_events().push(
                RegistryEvent::EntitlementGranted((EntitlementGranted {
                    account: payment.account,
                    level: spec_level_of_byte(payment.entitlement_granted),
                })),
            )
        },
{
    let ghost payment_before = old(payments).spec_payment(payment_id);
    match payments.complete_payment(env, payment_id) {
        Err(e) => Err(e),
        Ok(()) => {
            let completed = payments.get_payment(payment_id);
            match completed {
                Some(payment) => {
                    let level = level_of_byte(payment.entitlement_granted);
                    proof {
                        if payment.entitlement_granted <= 3 {
                            lemma_level_of_byte_value(payment.entitlement_granted);
                        }
                    }
                    registry.apply_entitlement_grant(payment.account, level);
                    Ok(())
                }
                None => {
                    proof {
                        assert(false);
                    }
                    Err(Error::PaymentNotFound)
                }
            }
        }
    }
}

/// Refunds a completed payment and revokes the paying account's entitlement,
/// in one transaction — the reverse bridge of
/// [`complete_payment_and_grant`].
pub fn refund_payment_and_revoke(
    payments: &mut PaymentIntegration,
    registry: &mut AccessRegistry,
    env: Env,
    payment_id: u32,
) -> (r: Result<(), Error>)
    requires
        old(payments).wf(),
        old(registry).wf(),
    ensures
        final(payments).wf(),
        final(registry).wf(),
        r is Err ==> *final(payments) == *old(payments) && *final(registry) == *old(registry),
        r is Ok <==> old(payments).spec_is_processor(env.caller)
            && old(payments).spec_payment(payment_id) is Some
            && old(payments).spec_payment(payment_id)->Some_0.status == PaymentStatus::Completed,
        !old(payments).spec_is_processor(env.caller) ==> r == Err::<(), Error>(Error::NotAuthorizedProcessor),
        old(payments).spec_is_processor(env.caller) && old(payments).spec_payment(payment_id) is None
            ==> r == Err::<(), Error>(Error::PaymentNotFound),
        old(payments).spec_is_processor(env.caller) && old(payments).spec_payment(payment_id) is Some
            && old(payments).spec_payment(payment_id)->Some_0.status != PaymentStatus::Completed
            ==> r == Err::<(), Error>(Error::InvalidStatus),
        r is Ok ==> {
            let payment = old(payments).spec_payment(payment_id)->Some_0;
            &&& final(payments).spec_payment(payment_id) == Some(
                (PaymentView { status: PaymentStatus::Refunded, ..payment }),
            )
            &&& forall|id: u32| id != payment_id ==> final(payments).spec_payment(id) == old(payments).spec_payment(id)
            &&& payment_config_unchanged(*old(payments), *final(payments))
            &&& processors_unchanged(*old(payments), *final(payments))
            &&& payment_events_extended_by(
                *old(payments),
                *final(payments),
                PaymentEventView::PaymentRefunded { payment_id },
            )
            &&& final(registry).spec_entitlement_entry(payment.account) is None
            &&& final(registry).spec_entitlement(payment.account) == EntitlementLevel::NoAccess
            &&& forall|a: Address| a != payment.account ==> final(registry).spec_entitlement_entry(a) == old(registry).spec_entitlement_entry(a)
            &&& sessions_unchanged(*old(registry), *final(registry))
            &&& scopes_unchanged(*old(registry), *final(registry))
            &&& config_unchanged(*old(registry), *final(registry))
            &&& final(registry).spec_events() == old(registry).spec_events().push(
                RegistryEvent::EntitlementRevoked((EntitlementRevoked { account: payment.account })),
            )
        },
{
    match payments.refund_payment(env, payment_id) {
        Err(e) => Err(e),
        Ok(()) => {
            let refunded = payments.get_payment(payment_id);
            match refunded {
                Some(payment) => {
                    registry.apply_entitlement_revoke(payment.account);
                    Ok(())
                }
                None => {
                    proof {
                        assert(false);
                    }
                    Err(Error::PaymentNotFound)
                }
            }
        }
    }
}

/// The pair `(key, value)` occurs among the attributes an account holds.
pub open spec fn spec_pair_held(held: Seq<(Seq<u8>, Seq<u8>)>, pair: (Seq<u8>, Seq<u8>)) -> bool {
    exists|j: int| 0 <= j < held.len() && held[j] == pair
}

/// Every required pair occurs among the attributes held.
pub open spec fn spec_all_attributes_held(held: Seq<(Seq<u8>, Seq<u8>)>, required: Seq<(Seq<u8>, Seq<u8>)>) -> bool {
    forall|i: int| 0 <= i < required.len() ==> spec_pair_held(held, #[trigger] required[i])
}

/// The composed access decision: the policy exists and is active, the
/// account's entitlement reaches the policy's minimum, and the account holds
/// every required attribute pair.
pub open spec fn spec_access_allowed(
    engine: PolicyEngine,
    registry: AccessRegistry,
    account: Address,
    policy_id: u32,
    held: Seq<(Seq<u8>, Seq<u8>)>,
) -> bool {
    match engine.spec_policy(policy_id) {
        Some(rule) => {
            &&& rule.active
            &&& spec_level_value(registry.spec_entitlement(account)) >= rule.min_entitlement
            &&& spec_all_attributes_held(held, rule.required_attributes)
        },
        None => false,
    }
}

/// Whether `(key, value)` occurs among the attributes held.
fn pair_held(held: &Vec<(Vec<u8>, Vec<u8>)>, key: &Vec<u8>, value: &Vec<u8>) -> (r: bool)
    ensures
        r == spec_pair_held(pairs_view(held@), (key@, value@)),
{
    let n = held.len();
    let mut j: usize = 0;
    while j < n
        invariant
            j <= n,
            n == held@.len(),
            forall|k: int| 0 <= k < j ==> (#[trigger] pairs_view(held@)[k]) != (key@, value@),
        decreases n - j,
    {
        proof {
            assert(pairs_view(held@)[j as int] == (held@[j as int].0@, held@[j as int].1@));
        }
        if bytes_eq(&held[j].0, key) && bytes_eq(&held[j].1, value) {
            return true;
        }
        j += 1;
    }
    proof {
        assert(!spec_pair_held(pairs_view(held@), (key@, value@)));
    }
    false
}

/// Whether every required pair occurs among the attributes held.
fn all_attributes_held(held: &Vec<(Vec<u8>, Vec<u8>)>, required: &Vec<(Vec<u8>, Vec<u8>)>) -> (r: bool)
    ensures
        r == spec_all_attributes_held(pairs_view(held@), pairs_view(required@)),
{
    let n = required.len();
    let mut i: usize = 0;
    while i < n
        invariant
            i <= n,
            n == required@.len(),
            forall|k: int| 0 <= k < i ==> spec_pair_held(pairs_view(held@), #[trigger] pairs_view(required@)[k]),
        decreases n - i,
    {
        proof {
            assert(pairs_view(required@)[i as int] == (required@[i as int].0@, required@[i as int].1@));
        }
        if !pair_held(held, &required[i].0, &required[i].1) {
            return false;
        }
        i += 1;
    }
    true
}

/// The composed access evaluation of a wired deployment: the policy gate of
/// the engine, the account's entitlement from the registry, and the
/// account's attribute pairs as the host read them from the attribute store.
pub fn evaluate_access_checked(
    engine: &PolicyEngine,
    registry: &AccessRegistry,
    account: Address,
    policy_id: u32,
    attributes_held: &Vec<(Vec<u8>, Vec<u8>)>,
) -> (r: bool)
    ensures
        r == spec_access_allowed(*engine, *registry, account, policy_id, pairs_view(attributes_held@)),
{
    let rule = match engine.get_policy(policy_id) {
        Some(rule) => rule,
        None => {
            return false;
        }
    };
    if !rule.active {
        return false;
    }
    let current = registry.get_entitlement(account);
    if level_value(current) < rule.min_entitlement {
        return false;
    }
    all_attributes_held(attributes_held, &rule.required_attributes)
}

} // verus!
