//! The policy engine: a resource-oriented access layer. A policy names a
//! resource, the (key, value) attribute pairs an account must hold, and a
//! minimum entitlement rung; policies are created under monotonically
//! assigned ids.
//!
//! Strings here — resource ids, attribute keys and values, denial reasons —
//! are UTF-8 byte sequences, held as byte vectors and capped at 256 bytes.

use vstd::prelude::*;
use crate::host::{Address, Env, is_zero_address};
use crate::bytes::{bytes20_eq, copy_bytes};
use crate::alist::{alist_get, unique_keys, lemma_get_absent, lemma_get_at_first_match, lemma_get_push, lemma_get_remove, lemma_get_update};

verus! {

/// Longest accepted resource id, attribute key or attribute value, in bytes.
pub const MAX_STRING_LENGTH: usize = 256;

/// Most attribute pairs one policy may require.
pub const MAX_ATTRIBUTES: usize = 50;

/// One policy: what a resource requires of an account.
#[derive(Debug)]
pub struct PolicyRule {
    /// The resource the policy gates.
    pub resource_id: Vec<u8>,
    /// Required (namespace-key, value) pairs.
    pub required_attributes: Vec<(Vec<u8>, Vec<u8>)>,
    /// Minimum entitlement byte.
    pub min_entitlement: u8,
    /// Whether the policy is in force.
    pub active: bool,
}

/// The mathematical value of a [`PolicyRule`].
pub ghost struct PolicyRuleView {
    pub resource_id: Seq<u8>,
    pub required_attributes: Seq<(Seq<u8>, Seq<u8>)>,
    pub min_entitlement: u8,
    pub active: bool,
}

/// The byte sequences held by a list of attribute pairs.
pub open spec fn pairs_view(pairs: Seq<(Vec<u8>, Vec<u8>)>) -> Seq<(Seq<u8>, Seq<u8>)> {
    pairs.map_values(|p: (Vec<u8>, Vec<u8>)| (p.0@, p.1@))
}

impl View for PolicyRule {
    type V = PolicyRuleView;

    open spec fn view(&self) -> PolicyRuleView {
        PolicyRuleView {
            resource_id: self.resource_id@,
            required_attributes: pairs_view(self.required_attributes@),
            min_entitlement: self.min_entitlement,
            active: self.active,
        }
    }
}

/// Emitted when a policy is created.
#[derive(Debug)]
pub struct PolicyCreated {
    pub policy_id: u32,
    pub resource_id: Vec<u8>,
}

/// Emitted when a policy is updated.
#[derive(Debug)]
pub struct PolicyUpdated {
    pub policy_id: u32,
}

/// Emitted when a policy is deleted.
#[derive(Debug)]
pub struct PolicyDeleted {
    pub policy_id: u32,
}

/// Emitted when an evaluation grants access.
#[derive(Debug)]
pub struct AccessGranted {
    pub account: Address,
    pub policy_id: u32,
    pub resource_id: Vec<u8>,
}

/// Emitted when an evaluation denies access.
#[derive(Debug)]
pub struct AccessDenied {
    pub account: Address,
    pub policy_id: u32,
    pub resource_id: Vec<u8>,
    pub reason: Vec<u8>,
}

/// One entry of the policy engine's event log.
#[derive(Debug)]
pub enum PolicyEvent {
    PolicyCreated(PolicyCreated),
    PolicyUpdated(PolicyUpdated),
    PolicyDeleted(PolicyDeleted),
    AccessGranted(AccessGranted),
    AccessDenied(AccessDenied),
}

/// The mathematical value of a [`PolicyEvent`].
pub ghost enum PolicyEventView {
    PolicyCreated { policy_id: u32, resource_id: Seq<u8> },
    PolicyUpdated { policy_id: u32 },
    PolicyDeleted { policy_id: u32 },
    AccessGranted { account: Address, policy_id: u32, resource_id: Seq<u8> },
    AccessDenied { account: Address, policy_id: u32, resource_id: Seq<u8>, reason: Seq<u8> },
}

impl View for PolicyEvent {
    type V = PolicyEventView;

    open spec fn view(&self) -> PolicyEventView {
        match self {
            PolicyEvent::PolicyCreated(e) => PolicyEventView::PolicyCreated {
                policy_id: e.policy_id,
                resource_id: e.resource_id@,
            },
            PolicyEvent::PolicyUpdated(e) => PolicyEventView::PolicyUpdated { policy_id: e.policy_id },
            PolicyEvent::PolicyDeleted(e) => PolicyEventView::PolicyDeleted { policy_id: e.policy_id },
            PolicyEvent::AccessGranted(e) => PolicyEventView::AccessGranted {
                account: e.account,
                policy_id: e.policy_id,
                resource_id: e.resource_id@,
            },
            PolicyEvent::AccessDenied(e) => PolicyEventView::AccessDenied {
                account: e.account,
                policy_id: e.policy_id,
                resource_id: e.resource_id@,
                reason: e.reason@,
            },
        }
    }
}

/// Why a policy operation was refused.
#[derive(Clone, Copy, Debug, PartialEq, Eq, Structural)]
pub enum Error {
    /// Caller is not the owner.
    NotOwner,
    /// Policy not found.
    PolicyNotFound,
    /// A dependency address has not been configured.
    ContractNotConfigured,
    /// An input string exceeds the maximum length.
    InputTooLong,
    /// A policy may require at most the maximum number of attribute pairs.
    TooManyAttributes,
}

/// Some attribute pair of the list exceeds the length cap.
pub open spec fn spec_any_pair_too_long(pairs: Seq<(Seq<u8>, Seq<u8>)>) -> bool {
    exists|i: int|
        0 <= i < pairs.len() && ((#[trigger] pairs[i]).0.len() > MAX_STRING_LENGTH
            || pairs[i].1.len() > MAX_STRING_LENGTH)
}

/// The denial reason recorded for an inactive policy: the bytes of
/// "Policy inactive".
pub open spec fn spec_policy_inactive_reason() -> Seq<u8> {
    seq![80u8, 111u8, 108u8, 105u8, 99u8, 121u8, 32u8, 105u8, 110u8, 97u8, 99u8, 116u8, 105u8, 118u8, 101u8]
}

/// The policy engine: the policy table, the monotone id counter, the owner,
/// and the addresses of the registries a full deployment composes with.
pub struct PolicyEngine {
    policies: Vec<(u32, PolicyRule)>,
    next_policy_id: u32,
    owner: Address,
    access_registry: Option<Address>,
    attribute_store: Option<Address>,
    events: Vec<PolicyEvent>,
}

impl PolicyEngine {
    /// Internal well-formedness: policy ids are unique and were all assigned
    /// below the counter, so the counter's next value is fresh.
    pub closed spec fn wf(self) -> bool {
        &&& unique_keys(self.policies@)
        &&& forall|i: int| 0 <= i < self.policies@.len() ==> (#[trigger] self.policies@[i]).0 < self.next_policy_id
    }

    /// The owner captured at construction.
    pub closed spec fn spec_owner(self) -> Address {
        self.owner
    }

    /// The configured access-registry address, if any.
    pub closed spec fn spec_access_registry(self) -> Option<Address> {
        self.access_registry
    }

    /// The configured attribute-store address, if any.
    pub closed spec fn spec_attribute_store(self) -> Option<Address> {
        self.attribute_store
    }

    /// The id the next created policy will get.
    pub closed spec fn spec_next_policy_id(self) -> u32 {
        self.next_policy_id
    }

    /// The policy stored under `policy_id`, if any.
    pub closed spec fn spec_policy(self, policy_id: u32) -> Option<PolicyRuleView> {
        match alist_get(self.policies@, policy_id) {
            Some(rule) => Some(rule@),
            None => None,
        }
    }

    /// The events emitted so far, oldest first.
    pub closed spec fn spec_events(self) -> Seq<PolicyEvent> {
        self.events@
    }
}

/// Both engines store the same policies under the same ids.
pub open spec fn policies_unchanged(a: PolicyEngine, b: PolicyEngine) -> bool {
    forall|policy_id: u32| a.spec_policy(policy_id) == b.spec_policy(policy_id)
}

/// Both engines have the same owner, dependency addresses and id counter.
pub open spec fn policy_config_unchanged(a: PolicyEngine, b: PolicyEngine) -> bool {
    &&& a.spec_owner() == b.spec_owner()
    &&& a.spec_access_registry() == b.spec_access_registry()
    &&& a.spec_attribute_store() == b.spec_attribute_store()
    &&& a.spec_next_policy_id() == b.spec_next_policy_id()
}

/// `b`'s event log is `a`'s with `ev` appended.
pub open spec fn policy_events_extended_by(a: PolicyEngine, b: PolicyEngine, ev: PolicyEventView) -> bool {
    &&& b.spec_events().len() == a.spec_events().len() + 1
    &&& b.spec_events().take(a.spec_events().len() as int) == a.spec_events()
    &&& b.spec_events().last()@ == ev
}

impl Default for PolicyEngine {
    /// An empty policy engine owned by the zero address, the host's default
    /// caller.
    fn default() -> (r: PolicyEngine)
        ensures
            r.wf(),
            is_zero_address(r.spec_owner()),
            r.spec_access_registry() is None,
            r.spec_attribute_store() is None,
            r.spec_next_policy_id() == 0,
            forall|policy_id: u32| r.spec_policy(policy_id) is None,
            r.spec_events() == Seq::<PolicyEvent>::empty(),
    {
        let owner: Address = [0u8; 20];
        proof {
            assert(is_zero_address(owner));
        }
        PolicyEngine::new(owner)
    }
}

impl PolicyEngine {
    /// Constructs an empty policy engine owned by the constructing caller.
    pub fn new(caller: Address) -> (r: PolicyEngine)
        ensures
            r.wf(),
            r.spec_owner() == caller,
            r.spec_access_registry() is None,
            r.spec_attribute_store() is None,
            r.spec_next_policy_id() == 0,
            forall|policy_id: u32| r.spec_policy(policy_id) is None,
            r.spec_events() == Seq::<PolicyEvent>::empty(),
    {
        let r = PolicyEngine {
            policies: Vec::new(),
            next_policy_id: 0,
            owner: caller,
            access_registry: None,
            attribute_store: None,
            events: Vec::new(),
        };
        proof {
            assert(forall|policy_id: u32| alist_get(r.policies@, policy_id) is None);
        }
        r
    }

    /// The owner captured at construction.
    pub fn owner(&self) -> (r: Address)
        ensures
            r == self.spec_owner(),
    {
        self.owner
    }

    /// The id the next created policy will get.
    pub fn next_policy_id(&self) -> (r: u32)
        ensures
            r == self.spec_next_policy_id(),
    {
        self.next_policy_id
    }

    /// The events emitted so far, oldest first.
    pub fn events(&self) -> (r: &Vec<PolicyEvent>)
        ensures
            r@ == self.spec_events(),
    {
        &self.events
    }

    /// Configures the address of the access registry. Owner-only.
    pub fn set_access_registry(&mut self, env: Env, address: Address) -> (r: Result<(), Error>)
        requires
            old(self).wf(),
        ensures
            final(self).wf(),
            r is Ok <==> env.caller == old(self).spec_owner(),
            r is Err ==> r == Err::<(), Error>(Error::NotOwner) && *final(self) == *old(self),
            r is Ok ==> {
                &&& final(self).spec_access_registry() == Some(address)
                &&& final(self).spec_attribute_store() == old(self).spec_attribute_store()
                &&& final(self).spec_owner() == old(self).spec_owner()
                &&& final(self).spec_next_policy_id() == old(self).spec_next_policy_id()
                &&& policies_unchanged(*old(self), *final(self))
                &&& final(self).spec_events() == old(self).spec_events()
            },
    {
        if !bytes20_eq(&env.caller, &self.owner) {
            return Err(Error::NotOwner);
        }
        self.access_registry = Some(address);
        Ok(())
    }

    /// Configures the address of the attribute store. Owner-only.
    pub fn set_attribute_store(&mut self, env: Env, address: Address) -> (r: Result<(), Error>)
        requires
            old(self).wf(),
        ensures
            final(self).wf(),
            r is Ok <==> env.caller == old(self).spec_owner(),
            r is Err ==> r == Err::<(), Error>(Error::NotOwner) && *final(self) == *old(self),
            r is Ok ==> {
                &&& final(self).spec_attribute_store() == Some(address)
                &&& final(self).spec_access_registry() == old(self).spec_access_registry()
                &&& final(self).spec_owner() == old(self).spec_owner()
                &&& final(self).spec_next_policy_id() == old(self).spec_next_policy_id()
                &&& policies_unchanged(*old(self), *final(self))
                &&& final(self).spec_events() == old(self).spec_events()
            },
    {
        if !bytes20_eq(&env.caller, &self.owner) {
            return Err(Error::NotOwner);
        }
        self.attribute_store = Some(address);
        Ok(())
    }

    /// Index of the policy entry for `policy_id`, scanning from the front.
    fn find_policy(&self, policy_id: u32) -> (r: Option<usize>)
        ensures
            match r {
                Some(i) => {
                    &&& i < self.policies@.len()
                    &&& self.policies@[i as int].0 == policy_id
                    &&& forall|j: int| 0 <= j < i ==> self.policies@[j].0 != policy_id
                    &&& self.spec_policy(policy_id) == Some(self.policies@[i as int].1@)
                },
                None => {
                    &&& self.spec_policy(policy_id) is None
                    &&& forall|j: int| 0 <= j < self.policies@.len() ==> self.policies@[j].0 != policy_id
                },
            },
    {
        let n = self.policies.len();
        let mut i: usize = 0;
        while i < n
            invariant
                i <= n,
                n == self.policies@.len(),
                forall|j: int| 0 <= j < i ==> self.policies@[j].0 != policy_id,
            decreases n - i,
        {
            if self.policies[i].0 == policy_id {
                proof {
                    lemma_get_at_first_match(self.policies@, policy_id, i as int);
                }
                return Some(i);
            }
            i += 1;
        }
        proof {
            lemma_get_absent(self.policies@, policy_id);
        }
        None
    }

    /// Whether some pair of `pairs` exceeds the length cap.
    fn any_pair_too_long(pairs: &Vec<(Vec<u8>, Vec<u8>)>) -> (r: bool)
        ensures
            r == spec_any_pair_too_long(pairs_view(pairs@)),
    {
        let n = pairs.len();
        let mut i: usize = 0;
        while i < n
            invariant
                i <= n,
                n == pairs@.len(),
                forall|j: int| 0 <= j < i ==> (#[trigger] pairs_view(pairs@)[j]).0.len() <= MAX_STRING_LENGTH
                    && pairs_view(pairs@)[j].1.len() <= MAX_STRING_LENGTH,
            decreases n - i,
        {
            if pairs[i].0.len() > MAX_STRING_LENGTH || pairs[i].1.len() > MAX_STRING_LENGTH {
                proof {
                    assert(pairs_view(pairs@)[i as int] == (pairs@[i as int].0@, pairs@[i as int].1@));
                }
                return true;
            }
            i += 1;
        }
        false
    }

    /// A fresh list holding the same attribute pairs.
    fn copy_pairs(pairs: &Vec<(Vec<u8>, Vec<u8>)>) -> (r: Vec<(Vec<u8>, Vec<u8>)>)
        ensures
            pairs_view(r@) == pairs_view(pairs@),
    {
        let n = pairs.len();
        let mut out: Vec<(Vec<u8>, Vec<u8>)> = Vec::new();
        let mut i: usize = 0;
        while i < n
            invariant
                i <= n,
                n == pairs@.len(),
                out@.len() == i,
                forall|j: int| 0 <= j < i ==> (#[trigger] pairs_view(out@)[j]) == pairs_view(pairs@)[j],
            decreases n - i,
        {
            let ghost before = out@;
            out.push((copy_bytes(&pairs[i].0), copy_bytes(&pairs[i].1)));
            proof {
                assert forall|j: int| 0 <= j < i + 1 implies (#[trigger] pairs_view(out@)[j]) == pairs_view(pairs@)[j] by {
                    assert(pairs_view(out@)[j] == (out@[j].0@, out@[j].1@));
                    assert(pairs_view(pairs@)[j] == (pairs@[j].0@, pairs@[j].1@));
                    if j < i {
                        assert(out@[j] == before[j]);
                        assert(pairs_view(before)[j] == (before[j].0@, before[j].1@));
                    }
                }
            }
            i += 1;
        }
        proof {
            assert(pairs_view(out@) =~= pairs_view(pairs@));
        }
        out
    }

    /// Creates a policy for `resource_id`, active, under the next id.
    /// Owner-only; the resource id and every attribute key and value are
    /// capped at 256 bytes, and the pair count at 50.
    pub fn create_policy(
        &mut self,
        env: Env,
        resource_id: Vec<u8>,
        required_attributes: Vec<(Vec<u8>, Vec<u8>)>,
        min_entitlement: u8,
    ) -> (r: Result<u32, Error>)
        requires
            old(self).wf(),
            old(self).spec_next_policy_id() < u32::MAX,
        ensures
            final(self).wf(),
            r is Err ==> *final(self) == *old(self),
            r is Ok <==> {
                &&& env.caller == old(self).spec_owner()
                &&& resource_id@.len() <= MAX_STRING_LENGTH
                &&& required_attributes@.len() <= MAX_ATTRIBUTES
                &&& !spec_any_pair_too_long(pairs_view(required_attributes@))
            },
            env.caller != old(self).spec_owner() ==> r == Err::<u32, Error>(Error::NotOwner),
            env.caller == old(self).spec_owner() && resource_id@.len() > MAX_STRING_LENGTH
                ==> r == Err::<u32, Error>(Error::InputTooLong),
            env.caller == old(self).spec_owner() && resource_id@.len() <= MAX_STRING_LENGTH
                && required_attributes@.len() > MAX_ATTRIBUTES
                ==> r == Err::<u32, Error>(Error::TooManyAttributes),
            env.caller == old(self).spec_owner() && resource_id@.len() <= MAX_STRING_LENGTH
                && required_attributes@.len() <= MAX_ATTRIBUTES
                && spec_any_pair_too_long(pairs_view(required_attributes@))
                ==> r == Err::<u32, Error>(Error::InputTooLong),
            r matches Ok(policy_id) ==> {
                &&& policy_id == old(self).spec_next_policy_id()
                &&& final(self).spec_next_policy_id() == old(self).spec_next_policy_id() + 1
                &&& final(self).spec_policy(policy_id) == Some(
                    (PolicyRuleView {
                        resource_id: resource_id@,
                        required_attributes: pairs_view(required_attributes@),
                        min_entitlement,
                        active: true,
                    }),
                )
                &&& forall|id: u32| id != policy_id ==> final(self).spec_policy(id) == old(self).spec_policy(id)
                &&& final(self).spec_owner() == old(self).spec_owner()
                &&& final(self).spec_access_registry() == old(self).spec_access_registry()
                &&& final(self).spec_attribute_store() == old(self).spec_attribute_store()
                &&& policy_events_extended_by(
                    *old(self),
                    *final(self),
                    PolicyEventView::PolicyCreated { policy_id, resource_id: resource_id@ },
                )
            },
    {
        if !bytes20_eq(&env.caller, &self.owner) {
            return Err(Error::NotOwner);
        }
        if resource_id.len() > MAX_STRING_LENGTH {
            return Err(Error::InputTooLong);
        }
        if required_attributes.len() > MAX_ATTRIBUTES {
            return Err(Error::TooManyAttributes);
        }
        if Self::any_pair_too_long(&required_attributes) {
            return Err(Error::InputTooLong);
        }
        let policy_id = self.next_policy_id;
        let rule = PolicyRule {
            resource_id: copy_bytes(&resource_id),
            required_attributes,
            min_entitlement,
            active: true,
        };
        proof {
            assert(forall|j: int| 0 <= j < self.policies@.len() ==> self.policies@[j].0 != policy_id);
            lemma_get_push(self.policies@, policy_id, rule);
        }
        self.policies.push((policy_id, rule));
        self.next_policy_id = self.next_policy_id + 1;
        let ghost before_events = self.events@;
        self.events.push(PolicyEvent::PolicyCreated(PolicyCreated { policy_id, resource_id }));
        proof {
            assert(self.events@.take(before_events.len() as int) =~= before_events);
        }
        Ok(policy_id)
    }

    /// Rewrites an existing policy's requirements, minimum entitlement and
    /// active flag; its resource id is preserved. Owner-only, same caps as
    /// creation.
    pub fn update_policy(
        &mut self,
        env: Env,
        policy_id: u32,
        required_attributes: Vec<(Vec<u8>, Vec<u8>)>,
        min_entitlement: u8,
        active: bool,
    ) -> (r: Result<(), Error>)
        requires
            old(self).wf(),
        ensures
            final(self).wf(),
            r is Err ==> *final(self) == *old(self),
            r is Ok <==> {
                &&& env.caller == old(self).spec_owner()
                &&& required_attributes@.len() <= MAX_ATTRIBUTES
                &&& !spec_any_pair_too_long(pairs_view(required_attributes@))
                &&& old(self).spec_policy(policy_id) is Some
            },
            env.caller != old(self).spec_owner() ==> r == Err::<(), Error>(Error::NotOwner),
            env.caller == old(self).spec_owner() && required_attributes@.len() > MAX_ATTRIBUTES
                ==> r == Err::<(), Error>(Error::TooManyAttributes),
            env.caller == old(self).spec_owner() && required_attributes@.len() <= MAX_ATTRIBUTES
                && spec_any_pair_too_long(pairs_view(required_attributes@))
                ==> r == Err::<(), Error>(Error::InputTooLong),
            env.caller == old(self).spec_owner() && required_attributes@.len() <= MAX_ATTRIBUTES
                && !spec_any_pair_too_long(pairs_view(required_attributes@))
                && old(self).spec_policy(policy_id) is None
                ==> r == Err::<(), Error>(Error::PolicyNotFound),
            r is Ok ==> {
                &&& final(self).spec_policy(policy_id) == Some(
                    (PolicyRuleView {
                        resource_id: old(self).spec_policy(policy_id)->Some_0.resource_id,
                        required_attributes: pairs_view(required_attributes@),
                        min_entitlement,
                        active,
                    }),
                )
                &&& forall|id: u32| id != policy_id ==> final(self).spec_policy(id) == old(self).spec_policy(id)
                &&& policy_config_unchanged(*old(self), *final(self))
                &&& policy_events_extended_by(
                    *old(self),
                    *final(self),
                    PolicyEventView::PolicyUpdated { policy_id },
                )
            },
    {
        if !bytes20_eq(&env.caller, &self.owner) {
            return Err(Error::NotOwner);
        }
        if required_attributes.len() > MAX_ATTRIBUTES {
            return Err(Error::TooManyAttributes);
        }
        if Self::any_pair_too_long(&required_attributes) {
            return Err(Error::InputTooLong);
        }
        let i = match self.find_policy(policy_id) {
            Some(i) => i,
            None => {
                return Err(Error::PolicyNotFound);
            }
        };
        let rule = PolicyRule {
            resource_id: copy_bytes(&self.policies[i].1.resource_id),
            required_attributes,
            min_entitlement,
            active,
        };
        proof {
            lemma_get_update(self.policies@, i as int, rule);
        }
        self.policies[i] = (policy_id, rule);
        let ghost before_events = self.events@;
        self.events.push(PolicyEvent::PolicyUpdated(PolicyUpdated { policy_id }));
        proof {
            assert(self.events@.take(before_events.len() as int) =~= before_events);
        }
        Ok(())
    }

    /// Removes the policy under `policy_id`; its id is never reused.
    /// Owner-only, and accepted also when no such policy exists.
    pub fn delete_policy(&mut self, env: Env, policy_id: u32) -> (r: Result<(), Error>)
        requires
            old(self).wf(),
        ensures
            final(self).wf(),
            r is Ok <==> env.caller == old(self).spec_owner(),
            r is Err ==> r == Err::<(), Error>(Error::NotOwner) && *final(self) == *old(self),
            r is Ok ==> {
                &&& final(self).spec_policy(policy_id) is None
                &&& forall|id: u32| id != policy_id ==> final(self).spec_policy(id) == old(self).spec_policy(id)
                &&& policy_config_unchanged(*old(self), *final(self))
                &&& policy_events_extended_by(
                    *old(self),
                    *final(self),
                    PolicyEventView::PolicyDeleted { policy_id },
                )
            },
    {
        if !bytes20_eq(&env.caller, &self.owner) {
            return Err(Error::NotOwner);
        }
        match self.find_policy(policy_id) {
            Some(i) => {
                proof {
                    lemma_get_remove(self.policies@, i as int);
                }
                self.policies.remove(i);
            }
            None => {}
        }
        let ghost before_events = self.events@;
        self.events.push(PolicyEvent::PolicyDeleted(PolicyDeleted { policy_id }));
        proof {
            assert(self.events@.take(before_events.len() as int) =~= before_events);
        }
        Ok(())
    }

    /// The policy stored under `policy_id`, if any.
    pub fn get_policy(&self, policy_id: u32) -> (r: Option<PolicyRule>)
        ensures
            match r {
                Some(rule) => self.spec_policy(policy_id) == Some(rule@),
                None => self.spec_policy(policy_id) is None,
            },
    {
        match self.find_policy(policy_id) {
            Some(i) => {
                let stored = &self.policies[i].1;
                Some(PolicyRule {
                    resource_id: copy_bytes(&stored.resource_id),
                    required_attributes: Self::copy_pairs(&stored.required_attributes),
                    min_entitlement: stored.min_entitlement,
                    active: stored.active,
                })
            }
            None => None,
        }
    }

    /// The denial reason recorded for an inactive policy.
    fn policy_inactive_reason() -> (r: Vec<u8>)
        ensures
            r@ == spec_policy_inactive_reason(),
    {
        let mut r: Vec<u8> = Vec::new();
        r.push(80);
        r.push(111);
        r.push(108);
        r.push(105);
        r.push(99);
        r.push(121);
        r.push(32);
        r.push(105);
        r.push(110);
        r.push(97);
        r.push(99);
        r.push(116);
        r.push(105);
        r.push(118);
        r.push(101);
        proof {
            assert(r@ =~= spec_policy_inactive_reason());
        }
        r
    }

    /// Whether `policy_id` names an active policy. A known, active policy
    /// grants and emits `AccessGranted`; a known, inactive one denies and
    /// emits `AccessDenied`; an unknown id denies silently.
    ///
    /// This gate consults the policy table alone. A full deployment composes
    /// it with the account's entitlement and attributes — see
    /// [`crate::bridge::evaluate_access_checked`].
    pub fn evaluate_access(&mut self, account: Address, policy_id: u32) -> (r: bool)
        requires
            old(self).wf(),
        ensures
            final(self).wf(),
            r == (old(self).spec_policy(policy_id) is Some
                && old(self).spec_policy(policy_id)->Some_0.active),
            policies_unchanged(*old(self), *final(self)),
            policy_config_unchanged(*old(self), *final(self)),
            old(self).spec_policy(policy_id) is None ==> *final(self) == *old(self),
            old(self).spec_policy(policy_id) matches Some(rule) ==> {
                &&& !rule.active ==> policy_events_extended_by(
                    *old(self),
                    *final(self),
                    PolicyEventView::AccessDenied {
                        account,
                        policy_id,
                        resource_id: rule.resource_id,
                        reason: spec_policy_inactive_reason(),
                    },
                )
                &&& rule.active ==> policy_events_extended_by(
                    *old(self),
                    *final(self),
                    PolicyEventView::AccessGranted { account, policy_id, resource_id: rule.resource_id },
                )
            },
    {
        match self.find_policy(policy_id) {
            Some(i) => {
                let resource_id = copy_bytes(&self.policies[i].1.resource_id);
                let ghost before_events = self.events@;
                if !self.policies[i].1.active {
                    let reason = Self::policy_inactive_reason();
                    self.events.push(PolicyEvent::AccessDenied(AccessDenied {
                        account,
                        policy_id,
                        resource_id,
                        reason,
                    }));
                    proof {
                        assert(self.events@.take(before_events.len() as int) =~= before_events);
                    }
                    false
                } else {
                    self.events.push(PolicyEvent::AccessGranted(AccessGranted {
                        account,
                        policy_id,
                        resource_id,
                    }));
                    proof {
                        assert(self.events@.take(before_events.len() as int) =~= before_events);
                    }
                    true
                }
            }
            None => false,
        }
    }
}

} // verus!
