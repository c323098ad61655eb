//! The Access Registry: the entitlement table, the session table, the scope
//! registry and the Merkle-proof-driven session issuer.
//!
//! Every mutating operation takes the host context [`Env`] that the chain
//! hands to the invocation; authorization compares its caller against the
//! owner captured at construction. Emitted events are modelled as a log the
//! registry appends to; on any error the registry is left exactly as it was.

use vstd::prelude::*;
use crate::host::{Address, Env, is_zero_address};
use crate::bytes::{bytes20_eq, bytes32_eq, copy_bytes, copy_hashes, push_bytes20, push_bytes32};
use crate::alist::{alist_get, unique_keys, lemma_get_absent, lemma_get_at_first_match, lemma_get_push, lemma_get_remove, lemma_get_update};
use crate::entitlement::{EntitlementLevel, level_value, spec_level_value};
use crate::hashing::{blake2_256, blake2_256_of};
use crate::merkle::{merkle_proof_valid, verify_merkle_proof};

verus! {

broadcast use vstd::array::group_array_axioms;

/// An access session issued on-chain. Off-chain verifiers trust a session iff
/// it exists in the registry, is unrevoked, and is unexpired at the current
/// block; the agent proves possession of the private half of `eph_pub_key`.
#[derive(Debug)]
pub struct SessionGrant {
    /// Ephemeral public key the session is bound to (expected 33-byte
    /// compressed EC point; the length is not enforced at this boundary).
    pub eph_pub_key: Vec<u8>,
    /// The 32-byte scope the session gives access to.
    pub scope_id: [u8; 32],
    /// Block height at which the session expires.
    pub expires_at_block: u64,
    /// Whether the session has been revoked. Once set it is never cleared.
    pub is_revoked: bool,
    /// Block height at which the session was created.
    pub created_at_block: u64,
}

/// The mathematical value of a [`SessionGrant`].
pub ghost struct SessionGrantView {
    pub eph_pub_key: Seq<u8>,
    pub scope_id: [u8; 32],
    pub expires_at_block: u64,
    pub is_revoked: bool,
    pub created_at_block: u64,
}

impl View for SessionGrant {
    type V = SessionGrantView;

    open spec fn view(&self) -> SessionGrantView {
        SessionGrantView {
            eph_pub_key: self.eph_pub_key@,
            scope_id: self.scope_id,
            expires_at_block: self.expires_at_block,
            is_revoked: self.is_revoked,
            created_at_block: self.created_at_block,
        }
    }
}

/// A Merkle proof for one attribute commitment: the sibling hashes from the
/// leaf to the root and, per level, the side the running hash sits on.
#[derive(Debug)]
pub struct AttributeProof {
    /// The attribute commitment being proven.
    pub attribute_hash: [u8; 32],
    /// Sibling hashes, leaf to root.
    pub proof_path: Vec<[u8; 32]>,
    /// Side indicators, parallel to `proof_path`: `0` means the running hash
    /// is the left child at that level.
    pub proof_indices: Vec<u8>,
}

/// The mathematical value of an [`AttributeProof`].
pub ghost struct AttributeProofView {
    pub attribute_hash: [u8; 32],
    pub proof_path: Seq<[u8; 32]>,
    pub proof_indices: Seq<u8>,
}

impl View for AttributeProof {
    type V = AttributeProofView;

    open spec fn view(&self) -> AttributeProofView {
        AttributeProofView {
            attribute_hash: self.attribute_hash,
            proof_path: self.proof_path@,
            proof_indices: self.proof_indices@,
        }
    }
}

/// What a scope demands: every listed attribute commitment must be proven.
#[derive(Debug)]
pub struct ScopeRequirement {
    /// The attribute commitments required, in the order they are checked.
    pub required_attributes: Vec<[u8; 32]>,
    /// Whether sessions may currently be issued for the scope.
    pub active: bool,
}

/// The mathematical value of a [`ScopeRequirement`].
pub ghost struct ScopeRequirementView {
    pub required_attributes: Seq<[u8; 32]>,
    pub active: bool,
}

impl View for ScopeRequirement {
    type V = ScopeRequirementView;

    open spec fn view(&self) -> ScopeRequirementView {
        ScopeRequirementView { required_attributes: self.required_attributes@, active: self.active }
    }
}

/// Emitted when an entitlement is granted.
#[derive(Debug)]
pub struct EntitlementGranted {
    pub account: Address,
    pub level: EntitlementLevel,
}

/// Emitted when an entitlement is revoked.
#[derive(Debug)]
pub struct EntitlementRevoked {
    pub account: Address,
}

/// Emitted when the owner pre-issues a session.
#[derive(Debug)]
pub struct SessionCreated {
    pub session_id: [u8; 32],
    pub expires_at_block: u64,
}

/// Emitted when a session is revoked.
#[derive(Debug)]
pub struct SessionRevoked {
    pub session_id: [u8; 32],
}

/// Emitted when a session is issued through proof verification.
#[derive(Debug)]
pub struct SessionRequested {
    pub session_id: [u8; 32],
    pub requester: Address,
    pub scope_id: [u8; 32],
    pub expires_at_block: u64,
}

/// Emitted when a scope's requirement is written.
#[derive(Debug)]
pub struct ScopeRequirementSet {
    pub scope_id: [u8; 32],
}

/// One entry of the registry's event log.
#[derive(Debug)]
pub enum RegistryEvent {
    EntitlementGranted(EntitlementGranted),
    EntitlementRevoked(EntitlementRevoked),
    SessionCreated(SessionCreated),
    SessionRevoked(SessionRevoked),
    SessionRequested(SessionRequested),
    ScopeRequirementSet(ScopeRequirementSet),
}

/// Why a registry operation was refused.
#[derive(Clone, Copy, Debug, PartialEq, Eq, Structural)]
pub enum Error {
    /// Caller is not the owner.
    NotOwner,
    /// Entitlement not found.
    EntitlementNotFound,
    /// Session not found.
    SessionNotFound,
    /// A session already exists under the derived or chosen id. Sessions are
    /// never overwritten: overwriting could clear a revocation.
    SessionAlreadyExists,
    /// The attribute-store address has not been configured.
    AttributeStoreNotConfigured,
    /// No attribute root is stored for the caller.
    RootNotFound,
    /// A Merkle path does not reconstruct the root.
    InvalidProof,
    /// A required attribute commitment has no proof.
    MissingRequiredAttribute,
    /// Scope not found.
    ScopeNotFound,
    /// Scope exists but is inactive.
    ScopeInactive,
}

/// The registry: the entitlement ladder per account, the session table, the
/// scope registry, the owner captured at construction, and the address of the
/// external attribute store.
pub struct AccessRegistry {
    entitlements: Vec<(Address, EntitlementLevel)>,
    sessions: Vec<([u8; 32], SessionGrant)>,
    owner: Address,
    attribute_store: Option<Address>,
    scope_requirements: Vec<([u8; 32], ScopeRequirement)>,
    events: Vec<RegistryEvent>,
}

impl AccessRegistry {
    /// Internal well-formedness: each table binds a key at most once.
    pub closed spec fn wf(self) -> bool {
        &&& unique_keys(self.entitlements@)
        &&& unique_keys(self.sessions@)
        &&& unique_keys(self.scope_requirements@)
    }

    /// The owner captured at construction.
    pub closed spec fn spec_owner(self) -> Address {
        self.owner
    }

    /// The configured attribute-store address, if any.
    pub closed spec fn spec_attribute_store(self) -> Option<Address> {
        self.attribute_store
    }

    /// The entitlement entry recorded for an account, if any.
    pub closed spec fn spec_entitlement_entry(self, account: Address) -> Option<EntitlementLevel> {
        alist_get(self.entitlements@, account)
    }

    /// The effective entitlement of an account: its entry, or the bottom rung
    /// when none is recorded.
    pub open spec fn spec_entitlement(self, account: Address) -> EntitlementLevel {
        match self.spec_entitlement_entry(account) {
            Some(level) => level,
            None => EntitlementLevel::NoAccess,
        }
    }

    /// The session stored under an id, if any.
    pub closed spec fn spec_session(self, session_id: [u8; 32]) -> Option<SessionGrantView> {
        match alist_get(self.sessions@, session_id) {
            Some(grant) => Some(grant@),
            None => None,
        }
    }

    /// The requirement stored for a scope, if any.
    pub closed spec fn spec_scope(self, scope_id: [u8; 32]) -> Option<ScopeRequirementView> {
        match alist_get(self.scope_requirements@, scope_id) {
            Some(requirement) => Some(requirement@),
            None => None,
        }
    }

    /// The events emitted so far, oldest first.
    pub closed spec fn spec_events(self) -> Seq<RegistryEvent> {
        self.events@
    }
}

/// Both registries record the same entitlement entries.
pub open spec fn entitlements_unchanged(a: AccessRegistry, b: AccessRegistry) -> bool {
    forall|account: Address| a.spec_entitlement_entry(account) == b.spec_entitlement_entry(account)
}

/// Both registries store the same sessions.
pub open spec fn sessions_unchanged(a: AccessRegistry, b: AccessRegistry) -> bool {
    forall|session_id: [u8; 32]| a.spec_session(session_id) == b.spec_session(session_id)
}

/// Both registries store the same scope requirements.
pub open spec fn scopes_unchanged(a: AccessRegistry, b: AccessRegistry) -> bool {
    forall|scope_id: [u8; 32]| a.spec_scope(scope_id) == b.spec_scope(scope_id)
}

/// Both registries have the same owner and attribute-store address.
pub open spec fn config_unchanged(a: AccessRegistry, b: AccessRegistry) -> bool {
    &&& a.spec_owner() == b.spec_owner()
    &&& a.spec_attribute_store() == b.spec_attribute_store()
}

/// The session under `session_id` exists and is revoked.
pub open spec fn session_revoked(r: AccessRegistry, session_id: [u8; 32]) -> bool {
    match r.spec_session(session_id) {
        Some(grant) => grant.is_revoked,
        None => false,
    }
}

/// Revocation is never undone between `a` and `b`: every session revoked in
/// `a` is still present and revoked in `b`.
pub open spec fn revocation_monotone(a: AccessRegistry, b: AccessRegistry) -> bool {
    forall|session_id: [u8; 32]|
        session_revoked(a, session_id) ==> session_revoked(b, session_id)
}

/// Revocation monotonicity composes: across any chain of operations each of
/// which keeps revoked sessions revoked, a session revoked at the start is
/// revoked at the end — no later read ever sees it unrevoked.
pub proof fn lemma_revocation_monotone_trans(a: AccessRegistry, b: AccessRegistry, c: AccessRegistry)
    requires
        revocation_monotone(a, b),
        revocation_monotone(b, c),
    ensures
        revocation_monotone(a, c),
{
}

/// An operation that leaves the session table alone keeps revoked sessions
/// revoked.
pub proof fn lemma_sessions_unchanged_monotone(a: AccessRegistry, b: AccessRegistry)
    requires
        sessions_unchanged(a, b),
    ensures
        revocation_monotone(a, b),
{
}

/// The first proof carrying `attribute_hash`, if any.
pub open spec fn spec_find_proof(proofs: Seq<AttributeProof>, attribute_hash: [u8; 32]) -> Option<AttributeProof>
    decreases proofs.len(),
{
    if proofs.len() == 0 {
        None
    } else if proofs[0].attribute_hash == attribute_hash {
        Some(proofs[0])
    } else {
        spec_find_proof(proofs.drop_first(), attribute_hash)
    }
}

/// The proof's Merkle path reconstructs `root` from its attribute hash.
pub open spec fn spec_proof_accepted(p: AttributeProof, root: [u8; 32]) -> bool {
    merkle_proof_valid(p.attribute_hash@, p.proof_path@, p.proof_indices@, root@)
}

/// The first proof carrying `attribute_hash` exists and reconstructs `root`.
pub open spec fn spec_requirement_proven(proofs: Seq<AttributeProof>, attribute_hash: [u8; 32], root: [u8; 32]) -> bool {
    match spec_find_proof(proofs, attribute_hash) {
        Some(p) => spec_proof_accepted(p, root),
        None => false,
    }
}

/// Every required attribute commitment is proven against `root`.
pub open spec fn spec_all_requirements_proven(proofs: Seq<AttributeProof>, required: Seq<[u8; 32]>, root: [u8; 32]) -> bool {
    forall|i: int| 0 <= i < required.len() ==> spec_requirement_proven(proofs, required[i], root)
}

/// The outcome of checking the requirements in order: the error of the first
/// requirement that fails — no proof at all, or a proof that does not
/// reconstruct the root — or nothing when all pass.
pub open spec fn spec_proofs_check(proofs: Seq<AttributeProof>, required: Seq<[u8; 32]>, root: [u8; 32]) -> Option<Error>
    decreases required.len(),
{
    if required.len() == 0 {
        None
    } else {
        match spec_find_proof(proofs, required[0]) {
            None => Some(Error::MissingRequiredAttribute),
            Some(p) => if !spec_proof_accepted(p, root) {
                Some(Error::InvalidProof)
            } else {
                spec_proofs_check(proofs, required.drop_first(), root)
            },
        }
    }
}

/// The outcome of the checks that precede session issuance, in the order the
/// issuer applies them: attribute store configured, scope known, scope
/// active, all requirements proven.
pub open spec fn spec_request_check(r: AccessRegistry, scope_id: [u8; 32], proofs: Seq<AttributeProof>, root: [u8; 32]) -> Result<(), Error> {
    if r.spec_attribute_store() is None {
        Err(Error::AttributeStoreNotConfigured)
    } else {
        match r.spec_scope(scope_id) {
            None => Err(Error::ScopeNotFound),
            Some(requirement) => if !requirement.active {
                Err(Error::ScopeInactive)
            } else {
                match spec_proofs_check(proofs, requirement.required_attributes, root) {
                    Some(e) => Err(e),
                    None => Ok(()),
                }
            },
        }
    }
}

/// The session id bound to a request: the Blake2-256 digest of the caller,
/// the scope, and the little-endian block number.
pub open spec fn spec_session_id(caller: Address, scope_id: [u8; 32], block_number: u32) -> Seq<u8> {
    blake2_256_of(caller@ + scope_id@ + vstd::bytes::spec_u32_to_le_bytes(block_number))
}

/// The registry already stores a session under the id a request by `caller`
/// for `scope_id` at `block_number` would derive. A repeated request within
/// one block derives the same id, and issuing over it is refused: a session
/// is never overwritten, so a revocation is never cleared.
pub open spec fn spec_session_id_taken(r: AccessRegistry, caller: Address, scope_id: [u8; 32], block_number: u32) -> bool {
    exists|id: [u8; 32]|
        id@ == spec_session_id(caller, scope_id, block_number) && r.spec_session(id) is Some
}

/// A search that hits the first proof with the wanted hash at position `i`
/// returns that proof.
proof fn lemma_find_proof_at_first_match(proofs: Seq<AttributeProof>, attribute_hash: [u8; 32], i: int)
    requires
        0 <= i < proofs.len(),
        proofs[i].attribute_hash == attribute_hash,
        forall|j: int| 0 <= j < i ==> proofs[j].attribute_hash != attribute_hash,
    ensures
        spec_find_proof(proofs, attribute_hash) == Some(proofs[i]),
    decreases i,
{
    if i > 0 {
        lemma_find_proof_at_first_match(proofs.drop_first(), attribute_hash, i - 1);
    }
}

/// A hash no proof carries is not found.
proof fn lemma_find_proof_absent(proofs: Seq<AttributeProof>, attribute_hash: [u8; 32])
    requires
        forall|j: int| 0 <= j < proofs.len() ==> proofs[j].attribute_hash != attribute_hash,
    ensures
        spec_find_proof(proofs, attribute_hash) is None,
    decreases proofs.len(),
{
    if proofs.len() > 0 {
        lemma_find_proof_absent(proofs.drop_first(), attribute_hash);
    }
}

/// A found proof occurs in the list: a successful search returns one of the
/// supplied proofs, and it carries the searched hash.
proof fn lemma_find_proof_occurs(proofs: Seq<AttributeProof>, attribute_hash: [u8; 32])
    requires
        spec_find_proof(proofs, attribute_hash) is Some,
    ensures
        exists|j: int|
            0 <= j < proofs.len() && #[trigger] proofs[j] == spec_find_proof(proofs, attribute_hash)->Some_0
                && proofs[j].attribute_hash == attribute_hash,
    decreases proofs.len(),
{
    if proofs[0].attribute_hash == attribute_hash {
        assert(proofs[0] == spec_find_proof(proofs, attribute_hash)->Some_0);
    } else {
        lemma_find_proof_occurs(proofs.drop_first(), attribute_hash);
        let j = choose|j: int|
            0 <= j < proofs.drop_first().len() && #[trigger] proofs.drop_first()[j]
                == spec_find_proof(proofs.drop_first(), attribute_hash)->Some_0
                && proofs.drop_first()[j].attribute_hash == attribute_hash;
        assert(proofs[j + 1] == proofs.drop_first()[j]);
    }
}

/// Some proof in the list carries `attribute_hash` and reconstructs `root`.
pub open spec fn spec_some_proof_for(proofs: Seq<AttributeProof>, attribute_hash: [u8; 32], root: [u8; 32]) -> bool {
    exists|j: int|
        0 <= j < proofs.len() && (#[trigger] proofs[j]).attribute_hash == attribute_hash
            && spec_proof_accepted(proofs[j], root)
}

/// Every session issues against proven possession: when the ordered check
/// passes, each required attribute commitment has at least one proof in the
/// supplied list that carries it and whose Merkle path reconstructs the
/// supplied root.
pub proof fn lemma_every_requirement_has_a_proof(
    proofs: Seq<AttributeProof>,
    required: Seq<[u8; 32]>,
    root: [u8; 32],
)
    requires
        spec_all_requirements_proven(proofs, required, root),
    ensures
        forall|i: int| 0 <= i < required.len() ==> spec_some_proof_for(proofs, #[trigger] required[i], root),
{
    assert forall|i: int| 0 <= i < required.len() implies spec_some_proof_for(
        proofs,
        #[trigger] required[i],
        root,
    ) by {
        assert(spec_requirement_proven(proofs, required[i], root));
        lemma_find_proof_occurs(proofs, required[i]);
        let j = choose|j: int|
            0 <= j < proofs.len() && #[trigger] proofs[j] == spec_find_proof(proofs, required[i])->Some_0
                && proofs[j].attribute_hash == required[i];
        assert(spec_proof_accepted(proofs[j], root));
    }
}

/// A proof whose path and index lists differ in length is never accepted for
/// any root, so a requirement answered only by such a proof fails the check.
pub proof fn lemma_mismatched_proof_never_accepted(p: AttributeProof, root: [u8; 32])
    requires
        p.proof_path@.len() != p.proof_indices@.len(),
    ensures
        !spec_proof_accepted(p, root),
        forall|proofs: Seq<AttributeProof>, h: [u8; 32]|
            spec_find_proof(proofs, h) == Some(p) ==> !#[trigger] spec_requirement_proven(proofs, h, root),
{
    crate::merkle::lemma_length_mismatch_never_valid(
        p.attribute_hash@,
        p.proof_path@,
        p.proof_indices@,
        root@,
    );
}

/// The ordered check passes exactly when every required attribute is proven:
/// a session is issued iff for each required commitment there is a proof —
/// the first one carrying it — whose path reconstructs the supplied root.
pub proof fn lemma_proofs_check_complete(proofs: Seq<AttributeProof>, required: Seq<[u8; 32]>, root: [u8; 32])
    ensures
        (spec_proofs_check(proofs, required, root) is None) <==> spec_all_requirements_proven(proofs, required, root),
    decreases required.len(),
{
    if required.len() > 0 {
        let tail = required.drop_first();
        lemma_proofs_check_complete(proofs, tail, root);
        if spec_proofs_check(proofs, required, root) is None {
            assert(spec_requirement_proven(proofs, required[0], root));
            assert forall|i: int| 0 <= i < required.len() implies spec_requirement_proven(proofs, required[i], root) by {
                if i > 0 {
                    assert(spec_requirement_proven(proofs, tail[i - 1], root));
                }
            }
        } else {
            if spec_all_requirements_proven(proofs, required, root) {
                assert(spec_requirement_proven(proofs, required[0], root));
                assert forall|i: int| 0 <= i < tail.len() implies spec_requirement_proven(proofs, tail[i], root) by {
                    assert(tail[i] == required[i + 1]);
                    assert(spec_requirement_proven(proofs, required[i + 1], root));
                }
                assert(spec_proofs_check(proofs, tail, root) is None);
                assert(false);
            }
        }
    }
}

impl Default for AccessRegistry {
    /// An empty registry owned by the zero address, the host's default
    /// caller.
    fn default() -> (r: AccessRegistry)
        ensures
            r.wf(),
            is_zero_address(r.spec_owner()),
            r.spec_attribute_store() is None,
            forall|account: Address| r.spec_entitlement_entry(account) is None,
            forall|session_id: [u8; 32]| r.spec_session(session_id) is None,
            forall|scope_id: [u8; 32]| r.spec_scope(scope_id) is None,
            r.spec_events() == Seq::<RegistryEvent>::empty(),
    {
        let owner: Address = [0u8; 20];
        proof {
            assert(is_zero_address(owner));
        }
        AccessRegistry::new(owner)
    }
}

impl AccessRegistry {
    /// Constructs an empty registry owned by the constructing caller.
    pub fn new(caller: Address) -> (r: AccessRegistry)
        ensures
            r.wf(),
            r.spec_owner() == caller,
            r.spec_attribute_store() is None,
            forall|account: Address| r.spec_entitlement_entry(account) is None,
            forall|session_id: [u8; 32]| r.spec_session(session_id) is None,
            forall|scope_id: [u8; 32]| r.spec_scope(scope_id) is None,
            r.spec_events() == Seq::<RegistryEvent>::empty(),
    {
        let r = AccessRegistry {
            entitlements: Vec::new(),
            sessions: Vec::new(),
            owner: caller,
            attribute_store: None,
            scope_requirements: Vec::new(),
            events: Vec::new(),
        };
        proof {
            assert(forall|account: Address| alist_get(r.entitlements@, account) is None);
            assert(forall|session_id: [u8; 32]| alist_get(r.sessions@, session_id) is None);
            assert(forall|scope_id: [u8; 32]| alist_get(r.scope_requirements@, scope_id) is None);
        }
        r
    }

    /// The owner captured at construction.
    pub fn owner(&self) -> (r: Address)
        ensures
            r == self.spec_owner(),
    {
        self.owner
    }

    /// The events emitted so far, oldest first.
    pub fn events(&self) -> (r: &Vec<RegistryEvent>)
        ensures
            r@ == self.spec_events(),
    {
        &self.events
    }

    /// Index of the entitlement entry for `account`, scanning from the front.
    fn find_entitlement(&self, account: &Address) -> (r: Option<usize>)
        ensures
            match r {
                Some(i) => {
                    &&& i < self.entitlements@.len()
                    &&& self.entitlements@[i as int].0 == *account
                    &&& forall|j: int| 0 <= j < i ==> self.entitlements@[j].0 != *account
                    &&& self.spec_entitlement_entry(*account) == Some(self.entitlements@[i as int].1)
                },
                None => {
                    &&& self.spec_entitlement_entry(*account) is None
                    &&& forall|j: int| 0 <= j < self.entitlements@.len() ==> self.entitlements@[j].0 != *account
                },
            },
    {
        let n = self.entitlements.len();
        let mut i: usize = 0;
        while i < n
            invariant
                i <= n,
                n == self.entitlements@.len(),
                forall|j: int| 0 <= j < i ==> self.entitlements@[j].0 != *account,
            decreases n - i,
        {
            if bytes20_eq(&self.entitlements[i].0, account) {
                proof {
                    lemma_get_at_first_match(self.entitlements@, *account, i as int);
                }
                return Some(i);
            }
            i += 1;
        }
        proof {
            lemma_get_absent(self.entitlements@, *account);
        }
        None
    }

    /// Grants `level` to `account` (an idempotent overwrite). Owner-only.
    pub fn grant_entitlement(&mut self, env: Env, account: Address, level: EntitlementLevel) -> (r: Result<(), Error>)
        requires
            old(self).wf(),
        ensures
            final(self).wf(),
            r is Ok <==> env.caller == old(self).spec_owner(),
            r is Err ==> r == Err::<(), Error>(Error::NotOwner) && *final(self) == *old(self),
            revocation_monotone(*old(self), *final(self)),
            r is Ok ==> {
                &&& final(self).spec_entitlement_entry(account) == Some(level)
                &&& forall|a: Address| a != account ==> final(self).spec_entitlement_entry(a) == old(self).spec_entitlement_entry(a)
                &&& sessions_unchanged(*old(self), *final(self))
                &&& scopes_unchanged(*old(self), *final(self))
                &&& config_unchanged(*old(self), *final(self))
                &&& final(self).spec_events() == old(self).spec_events().push(
                    RegistryEvent::EntitlementGranted((EntitlementGranted { account, level })),
                )
            },
    {
        if !bytes20_eq(&env.caller, &self.owner) {
            return Err(Error::NotOwner);
        }
        self.apply_entitlement_grant(account, level);
        Ok(())
    }

    /// The entitlement write itself, shared by [`Self::grant_entitlement`]
    /// and the payment bridge, which reaches the registry as an authorized
    /// cross-module call rather than as the owner.
    pub(crate) fn apply_entitlement_grant(&mut self, account: Address, level: EntitlementLevel)
        requires
            old(self).wf(),
        ensures
            final(self).wf(),
            final(self).spec_entitlement_entry(account) == Some(level),
            forall|a: Address| a != account ==> final(self).spec_entitlement_entry(a) == old(self).spec_entitlement_entry(a),
            sessions_unchanged(*old(self), *final(self)),
            scopes_unchanged(*old(self), *final(self)),
            config_unchanged(*old(self), *final(self)),
            revocation_monotone(*old(self), *final(self)),
            final(self).spec_events() == old(self).spec_events().push(
                RegistryEvent::EntitlementGranted((EntitlementGranted { account, level })),
            ),
    {
        match self.find_entitlement(&account) {
            Some(i) => {
                proof {
                    lemma_get_update(self.entitlements@, i as int, level);
                }
                self.entitlements[i] = (account, level);
            }
            None => {
                proof {
                    lemma_get_push(self.entitlements@, account, level);
                }
                self.entitlements.push((account, level));
            }
        }
        self.events.push(RegistryEvent::EntitlementGranted(EntitlementGranted { account, level }));
    }

    /// The entitlement removal itself, shared by [`Self::revoke_entitlement`]
    /// and the payment bridge.
    pub(crate) fn apply_entitlement_revoke(&mut self, account: Address)
        requires
            old(self).wf(),
        ensures
            final(self).wf(),
            final(self).spec_entitlement_entry(account) is None,
            forall|a: Address| a != account ==> final(self).spec_entitlement_entry(a) == old(self).spec_entitlement_entry(a),
            sessions_unchanged(*old(self), *final(self)),
            scopes_unchanged(*old(self), *final(self)),
            config_unchanged(*old(self), *final(self)),
            revocation_monotone(*old(self), *final(self)),
            final(self).spec_events() == old(self).spec_events().push(
                RegistryEvent::EntitlementRevoked((EntitlementRevoked { account })),
            ),
    {
        match self.find_entitlement(&account) {
            Some(i) => {
                proof {
                    lemma_get_remove(self.entitlements@, i as int);
                }
                self.entitlements.remove(i);
            }
            None => {}
        }
        self.events.push(RegistryEvent::EntitlementRevoked(EntitlementRevoked { account }));
    }

    /// Removes the entitlement entry of `account`; later reads see the bottom
    /// rung. Owner-only, and accepted also when no entry exists.
    pub fn revoke_entitlement(&mut self, env: Env, account: Address) -> (r: Result<(), Error>)
        requires
            old(self).wf(),
        ensures
            final(self).wf(),
            r is Ok <==> env.caller == old(self).spec_owner(),
            r is Err ==> r == Err::<(), Error>(Error::NotOwner) && *final(self) == *old(self),
            revocation_monotone(*old(self), *final(self)),
            r is Ok ==> {
                &&& final(self).spec_entitlement_entry(account) is None
                &&& final(self).spec_entitlement(account) == EntitlementLevel::NoAccess
                &&& forall|a: Address| a != account ==> final(self).spec_entitlement_entry(a) == old(self).spec_entitlement_entry(a)
                &&& sessions_unchanged(*old(self), *final(self))
                &&& scopes_unchanged(*old(self), *final(self))
                &&& config_unchanged(*old(self), *final(self))
                &&& final(self).spec_events() == old(self).spec_events().push(
                    RegistryEvent::EntitlementRevoked((EntitlementRevoked { account })),
                )
            },
    {
        if !bytes20_eq(&env.caller, &self.owner) {
            return Err(Error::NotOwner);
        }
        self.apply_entitlement_revoke(account);
        Ok(())
    }

    /// The entitlement level of `account`: the recorded entry, or the bottom
    /// rung for an account with none.
    pub fn get_entitlement(&self, account: Address) -> (r: EntitlementLevel)
        ensures
            r == self.spec_entitlement(account),
    {
        match self.find_entitlement(&account) {
            Some(i) => self.entitlements[i].1,
            None => EntitlementLevel::NoAccess,
        }
    }

    /// Whether `account` stands at least at `required_level` on the ladder.
    pub fn has_entitlement(&self, account: Address, required_level: EntitlementLevel) -> (r: bool)
        ensures
            r == (spec_level_value(self.spec_entitlement(account)) >= spec_level_value(required_level)),
    {
        let current_level = self.get_entitlement(account);
        level_value(current_level) >= level_value(required_level)
    }

    /// Index of the session entry for `session_id`, scanning from the front.
    fn find_session(&self, session_id: &[u8; 32]) -> (r: Option<usize>)
        ensures
            match r {
                Some(i) => {
                    &&& i < self.sessions@.len()
                    &&& self.sessions@[i as int].0 == *session_id
                    &&& forall|j: int| 0 <= j < i ==> self.sessions@[j].0 != *session_id
                    &&& alist_get(self.sessions@, *session_id) == Some(self.sessions@[i as int].1)
                    &&& self.spec_session(*session_id) == Some(self.sessions@[i as int].1@)
                },
                None => {
                    &&& self.spec_session(*session_id) is None
                    &&& forall|j: int| 0 <= j < self.sessions@.len() ==> self.sessions@[j].0 != *session_id
                },
            },
    {
        let n = self.sessions.len();
        let mut i: usize = 0;
        while i < n
            invariant
                i <= n,
                n == self.sessions@.len(),
                forall|j: int| 0 <= j < i ==> self.sessions@[j].0 != *session_id,
            decreases n - i,
        {
            if bytes32_eq(&self.sessions[i].0, session_id) {
                proof {
                    lemma_get_at_first_match(self.sessions@, *session_id, i as int);
                }
                return Some(i);
            }
            i += 1;
        }
        proof {
            lemma_get_absent(self.sessions@, *session_id);
        }
        None
    }

    /// Stores the session `grant` under the fresh id `session_id`. Sessions
    /// are only ever added under ids not yet taken, so no write here can
    /// clear a revocation.
    fn add_session(&mut self, session_id: [u8; 32], grant: SessionGrant)
        requires
            old(self).wf(),
            forall|j: int| 0 <= j < old(self).sessions@.len() ==> old(self).sessions@[j].0 != session_id,
        ensures
            final(self).wf(),
            final(self).spec_session(session_id) == Some(grant@),
            forall|id: [u8; 32]| id != session_id ==> final(self).spec_session(id) == old(self).spec_session(id),
            entitlements_unchanged(*old(self), *final(self)),
            scopes_unchanged(*old(self), *final(self)),
            config_unchanged(*old(self), *final(self)),
            final(self).spec_events() == old(self).spec_events(),
            revocation_monotone(*old(self), *final(self)),
    {
        proof {
            lemma_get_absent(self.sessions@, session_id);
            lemma_get_push(self.sessions@, session_id, grant);
        }
        self.sessions.push((session_id, grant));
        proof {
            assert forall|id: [u8; 32]| session_revoked(*old(self), id) implies session_revoked(*self, id) by {
                assert(id != session_id);
            }
        }
    }

    /// Pre-issues a session under a chosen id. Owner-only; an id already in
    /// use is refused — a session is never overwritten, so a revoked one can
    /// never come back.
    pub fn create_session(
        &mut self,
        env: Env,
        session_id: [u8; 32],
        eph_pub_key: Vec<u8>,
        scope_id: [u8; 32],
        expires_at_block: u64,
    ) -> (r: Result<(), Error>)
        requires
            old(self).wf(),
        ensures
            final(self).wf(),
            r is Ok <==> env.caller == old(self).spec_owner() && old(self).spec_session(session_id) is None,
            r is Err ==> *final(self) == *old(self),
            r is Err ==> {
                if env.caller != old(self).spec_owner() {
                    r == Err::<(), Error>(Error::NotOwner)
                } else {
                    r == Err::<(), Error>(Error::SessionAlreadyExists)
                }
            },
            r is Ok ==> {
                &&& final(self).spec_session(session_id) == Some(
                    (SessionGrantView {
                        eph_pub_key: eph_pub_key@,
                        scope_id,
                        expires_at_block,
                        is_revoked: false,
                        created_at_block: env.block_number as u64,
                    }),
                )
                &&& forall|id: [u8; 32]| id != session_id ==> final(self).spec_session(id) == old(self).spec_session(id)
                &&& entitlements_unchanged(*old(self), *final(self))
                &&& scopes_unchanged(*old(self), *final(self))
                &&& config_unchanged(*old(self), *final(self))
                &&& final(self).spec_events() == old(self).spec_events().push(
                    RegistryEvent::SessionCreated((SessionCreated { session_id, expires_at_block })),
                )
            },
            revocation_monotone(*old(self), *final(self)),
    {
        if !bytes20_eq(&env.caller, &self.owner) {
            return Err(Error::NotOwner);
        }
        match self.find_session(&session_id) {
            Some(_) => {
                return Err(Error::SessionAlreadyExists);
            }
            None => {}
        }
        let grant = SessionGrant {
            eph_pub_key,
            scope_id,
            expires_at_block,
            is_revoked: false,
            created_at_block: env.block_number as u64,
        };
        self.add_session(session_id, grant);
        self.events.push(RegistryEvent::SessionCreated(SessionCreated { session_id, expires_at_block }));
        Ok(())
    }

    /// The session stored under `session_id`, if any.
    pub fn get_session(&self, session_id: [u8; 32]) -> (r: Option<SessionGrant>)
        ensures
            match r {
                Some(grant) => self.spec_session(session_id) == Some(grant@),
                None => self.spec_session(session_id) is None,
            },
    {
        match self.find_session(&session_id) {
            Some(i) => {
                let stored = &self.sessions[i].1;
                Some(SessionGrant {
                    eph_pub_key: copy_bytes(&stored.eph_pub_key),
                    scope_id: stored.scope_id,
                    expires_at_block: stored.expires_at_block,
                    is_revoked: stored.is_revoked,
                    created_at_block: stored.created_at_block,
                })
            }
            None => None,
        }
    }

    /// Revokes the session under `session_id`. Owner-only; the flag is
    /// monotone, so revoking an already revoked session is an accepted no-op.
    pub fn revoke_session(&mut self, env: Env, session_id: [u8; 32]) -> (r: Result<(), Error>)
        requires
            old(self).wf(),
        ensures
            final(self).wf(),
            r is Ok <==> env.caller == old(self).spec_owner() && old(self).spec_session(session_id) is Some,
            r is Err ==> *final(self) == *old(self),
            r is Err ==> {
                if env.caller != old(self).spec_owner() {
                    r == Err::<(), Error>(Error::NotOwner)
                } else {
                    r == Err::<(), Error>(Error::SessionNotFound)
                }
            },
            r is Ok ==> {
                &&& session_revoked(*final(self), session_id)
                &&& final(self).spec_session(session_id) == Some(
                    (SessionGrantView { is_revoked: true, ..old(self).spec_session(session_id)->Some_0 }),
                )
                &&& forall|id: [u8; 32]| id != session_id ==> final(self).spec_session(id) == old(self).spec_session(id)
                &&& entitlements_unchanged(*old(self), *final(self))
                &&& scopes_unchanged(*old(self), *final(self))
                &&& config_unchanged(*old(self), *final(self))
                &&& final(self).spec_events() == old(self).spec_events().push(
                    RegistryEvent::SessionRevoked((SessionRevoked { session_id })),
                )
            },
            revocation_monotone(*old(self), *final(self)),
    {
        if !bytes20_eq(&env.caller, &self.owner) {
            return Err(Error::NotOwner);
        }
        match self.find_session(&session_id) {
            Some(i) => {
                let stored = &self.sessions[i].1;
                let revoked_grant = SessionGrant {
                    eph_pub_key: copy_bytes(&stored.eph_pub_key),
                    scope_id: stored.scope_id,
                    expires_at_block: stored.expires_at_block,
                    is_revoked: true,
                    created_at_block: stored.created_at_block,
                };
                proof {
                    lemma_get_update(self.sessions@, i as int, revoked_grant);
                }
                self.sessions[i] = (session_id, revoked_grant);
                self.events.push(RegistryEvent::SessionRevoked(SessionRevoked { session_id }));
                Ok(())
            }
            None => Err(Error::SessionNotFound),
        }
    }

    /// Configures the address of the external attribute store. Owner-only.
    pub fn set_attribute_store(&mut self, env: Env, address: Address) -> (r: Result<(), Error>)
        requires
            old(self).wf(),
        ensures
            final(self).wf(),
            r is Ok <==> env.caller == old(self).spec_owner(),
            r is Err ==> r == Err::<(), Error>(Error::NotOwner) && *final(self) == *old(self),
            revocation_monotone(*old(self), *final(self)),
            r is Ok ==> {
                &&& final(self).spec_attribute_store() == Some(address)
                &&& final(self).spec_owner() == old(self).spec_owner()
                &&& entitlements_unchanged(*old(self), *final(self))
                &&& sessions_unchanged(*old(self), *final(self))
                &&& scopes_unchanged(*old(self), *final(self))
                &&& final(self).spec_events() == old(self).spec_events()
            },
    {
        if !bytes20_eq(&env.caller, &self.owner) {
            return Err(Error::NotOwner);
        }
        self.attribute_store = Some(address);
        Ok(())
    }

    /// The configured attribute-store address, if any.
    pub fn get_attribute_store(&self) -> (r: Option<Address>)
        ensures
            r == self.spec_attribute_store(),
    {
        self.attribute_store
    }

    /// Index of the requirement entry for `scope_id`, scanning from the front.
    fn find_scope(&self, scope_id: &[u8; 32]) -> (r: Option<usize>)
        ensures
            match r {
                Some(i) => {
                    &&& i < self.scope_requirements@.len()
                    &&& self.scope_requirements@[i as int].0 == *scope_id
                    &&& forall|j: int| 0 <= j < i ==> self.scope_requirements@[j].0 != *scope_id
                    &&& self.spec_scope(*scope_id) == Some(self.scope_requirements@[i as int].1@)
                },
                None => {
                    &&& self.spec_scope(*scope_id) is None
                    &&& forall|j: int| 0 <= j < self.scope_requirements@.len() ==> self.scope_requirements@[j].0 != *scope_id
                },
            },
    {
        let n = self.scope_requirements.len();
        let mut i: usize = 0;
        while i < n
            invariant
                i <= n,
                n == self.scope_requirements@.len(),
                forall|j: int| 0 <= j < i ==> self.scope_requirements@[j].0 != *scope_id,
            decreases n - i,
        {
            if bytes32_eq(&self.scope_requirements[i].0, scope_id) {
                proof {
                    lemma_get_at_first_match(self.scope_requirements@, *scope_id, i as int);
                }
                return Some(i);
            }
            i += 1;
        }
        proof {
            lemma_get_absent(self.scope_requirements@, *scope_id);
        }
        None
    }

    /// Writes the requirement of a scope, replacing any prior content whole.
    /// Owner-only.
    pub fn set_scope_requirement(
        &mut self,
        env: Env,
        scope_id: [u8; 32],
        required_attributes: Vec<[u8; 32]>,
        active: bool,
    ) -> (r: Result<(), Error>)
        requires
            old(self).wf(),
        ensures
            final(self).wf(),
            r is Ok <==> env.caller == old(self).spec_owner(),
            r is Err ==> r == Err::<(), Error>(Error::NotOwner) && *final(self) == *old(self),
            revocation_monotone(*old(self), *final(self)),
            r is Ok ==> {
                &&& final(self).spec_scope(scope_id) == Some(
                    (ScopeRequirementView { required_attributes: required_attributes@, active }),
                )
                &&& forall|id: [u8; 32]| id != scope_id ==> final(self).spec_scope(id) == old(self).spec_scope(id)
                &&& entitlements_unchanged(*old(self), *final(self))
                &&& sessions_unchanged(*old(self), *final(self))
                &&& config_unchanged(*old(self), *final(self))
                &&& final(self).spec_events() == old(self).spec_events().push(
                    RegistryEvent::ScopeRequirementSet((ScopeRequirementSet { scope_id })),
                )
            },
    {
        if !bytes20_eq(&env.caller, &self.owner) {
            return Err(Error::NotOwner);
        }
        let requirement = ScopeRequirement { required_attributes, active };
        match self.find_scope(&scope_id) {
            Some(i) => {
                proof {
                    lemma_get_update(self.scope_requirements@, i as int, requirement);
                }
                self.scope_requirements[i] = (scope_id, requirement);
            }
            None => {
                proof {
                    lemma_get_push(self.scope_requirements@, scope_id, requirement);
                }
                self.scope_requirements.push((scope_id, requirement));
            }
        }
        self.events.push(RegistryEvent::ScopeRequirementSet(ScopeRequirementSet { scope_id }));
        Ok(())
    }

    /// The first proof in `proofs` carrying `attribute_hash`, if any — the
    /// one the issuer checks for that requirement.
    fn find_proof<'a>(proofs: &'a Vec<AttributeProof>, attribute_hash: &[u8; 32]) -> (r: Option<&'a AttributeProof>)
        ensures
            match r {
                Some(p) => spec_find_proof(proofs@, *attribute_hash) == Some(*p),
                None => spec_find_proof(proofs@, *attribute_hash) is None,
            },
    {
        let n = proofs.len();
        let mut i: usize = 0;
        while i < n
            invariant
                i <= n,
                n == proofs@.len(),
                forall|j: int| 0 <= j < i ==> proofs@[j].attribute_hash != *attribute_hash,
            decreases n - i,
        {
            if bytes32_eq(&proofs[i].attribute_hash, attribute_hash) {
                proof {
                    lemma_find_proof_at_first_match(proofs@, *attribute_hash, i as int);
                }
                return Some(&proofs[i]);
            }
            i += 1;
        }
        proof {
            lemma_find_proof_absent(proofs@, *attribute_hash);
        }
        None
    }

    /// Runs the request checks that precede issuance: the attribute store
    /// must be configured, the scope known and active, and every required
    /// attribute proven against `root`, in requirement order.
    fn check_request(&self, scope_id: &[u8; 32], proofs: &Vec<AttributeProof>, root: &[u8; 32]) -> (r: Result<(), Error>)
        ensures
            r == spec_request_check(*self, *scope_id, proofs@, *root),
    {
        if self.attribute_store.is_none() {
            return Err(Error::AttributeStoreNotConfigured);
        }
        let scope_index = match self.find_scope(scope_id) {
            Some(i) => i,
            None => {
                return Err(Error::ScopeNotFound);
            }
        };
        let requirement = &self.scope_requirements[scope_index].1;
        if !requirement.active {
            return Err(Error::ScopeInactive);
        }
        let ghost required = requirement.required_attributes@;
        let nreq = requirement.required_attributes.len();
        let mut k: usize = 0;
        proof {
            assert(required.skip(0) =~= required);
        }
        while k < nreq
            invariant
                k <= nreq,
                nreq == required.len(),
                scope_index < self.scope_requirements@.len(),
                self.scope_requirements@[scope_index as int].1.required_attributes@ == required,
                self.scope_requirements@[scope_index as int].1.active,
                self.spec_attribute_store() is Some,
                self.spec_scope(*scope_id) == Some(self.scope_requirements@[scope_index as int].1@),
                spec_proofs_check(proofs@, required.skip(k as int), *root) == spec_proofs_check(proofs@, required, *root),
            decreases nreq - k,
        {
            let ghost rest = required.skip(k as int);
            let required_hash = self.scope_requirements[scope_index].1.required_attributes[k];
            proof {
                assert(rest[0] == required[k as int]);
            }
            match Self::find_proof(proofs, &required_hash) {
                None => {
                    return Err(Error::MissingRequiredAttribute);
                }
                Some(p) => {
                    if !verify_merkle_proof(&p.attribute_hash, &p.proof_path, &p.proof_indices, root) {
                        return Err(Error::InvalidProof);
                    }
                    proof {
                        assert(rest.drop_first() =~= required.skip(k as int + 1));
                    }
                }
            }
            k += 1;
        }
        proof {
            assert(required.skip(nreq as int) =~= Seq::<[u8; 32]>::empty());
        }
        Ok(())
    }

    /// The session id bound to a request: the Blake2-256 digest of the
    /// caller, the scope, and the little-endian block number.
    fn compute_session_id(caller: &Address, scope_id: &[u8; 32], block_number: u32) -> (r: [u8; 32])
        ensures
            r@ == spec_session_id(*caller, *scope_id, block_number),
    {
        let mut input: Vec<u8> = Vec::new();
        push_bytes20(&mut input, caller);
        push_bytes32(&mut input, scope_id);
        let mut block_bytes = vstd::bytes::u32_to_le_bytes(block_number);
        input.append(&mut block_bytes);
        proof {
            assert(input@ =~= caller@ + scope_id@ + vstd::bytes::spec_u32_to_le_bytes(block_number));
        }
        blake2_256(&input)
    }

    /// Issues a session to the caller after verifying its Merkle proofs: the
    /// scope's required attributes are resolved, each must carry a proof that
    /// reconstructs `root`, and the session is bound to `eph_pub_key` and
    /// stored under the id derived from caller, scope and block.
    ///
    /// The caller-supplied `root` is checked against the proofs alone; a
    /// deployment that can read the caller's stored root from the attribute
    /// store passes it to [`Self::request_session_checked`] instead.
    ///
    /// The id is a function of caller, scope and block alone, so a second
    /// request by the same caller for the same scope within one block derives
    /// the same id; it is refused rather than let overwrite the earlier
    /// session, whose revocation flag must never clear.
    pub fn request_session(
        &mut self,
        env: Env,
        eph_pub_key: Vec<u8>,
        scope_id: [u8; 32],
        duration_blocks: u64,
        proofs: Vec<AttributeProof>,
        root: [u8; 32],
    ) -> (r: Result<[u8; 32], Error>)
        requires
            old(self).wf(),
            env.block_number as int + duration_blocks as int <= u64::MAX as int,
        ensures
            final(self).wf(),
            r is Err ==> *final(self) == *old(self),
            r is Ok <==> spec_request_check(*old(self), scope_id, proofs@, root) is Ok
                && !spec_session_id_taken(*old(self), env.caller, scope_id, env.block_number),
            spec_request_check(*old(self), scope_id, proofs@, root) matches Err(e)
                ==> r == Err::<[u8; 32], Error>(e),
            spec_request_check(*old(self), scope_id, proofs@, root) is Ok
                && spec_session_id_taken(*old(self), env.caller, scope_id, env.block_number)
                ==> r == Err::<[u8; 32], Error>(Error::SessionAlreadyExists),
            r matches Ok(session_id) ==> {
                &&& session_id@ == spec_session_id(env.caller, scope_id, env.block_number)
                &&& old(self).spec_session(session_id) is None
                &&& final(self).spec_session(session_id) == Some(
                    (SessionGrantView {
                        eph_pub_key: eph_pub_key@,
                        scope_id,
                        expires_at_block: (env.block_number as u64 + duration_blocks) as u64,
                        is_revoked: false,
                        created_at_block: env.block_number as u64,
                    }),
                )
                &&& spec_all_requirements_proven(proofs@, old(self).spec_scope(scope_id)->Some_0.required_attributes, root)
                &&& forall|id: [u8; 32]| id != session_id ==> final(self).spec_session(id) == old(self).spec_session(id)
                &&& entitlements_unchanged(*old(self), *final(self))
                &&& scopes_unchanged(*old(self), *final(self))
                &&& config_unchanged(*old(self), *final(self))
                &&& final(self).spec_events() == old(self).spec_events().push(
                    RegistryEvent::SessionRequested((SessionRequested {
                        session_id,
                        requester: env.caller,
                        scope_id,
                        expires_at_block: (env.block_number as u64 + duration_blocks) as u64,
                    })),
                )
            },
            revocation_monotone(*old(self), *final(self)),
    {
        match self.check_request(&scope_id, &proofs, &root) {
            Err(e) => {
                return Err(e);
            }
            Ok(()) => {}
        }
        proof {
            lemma_proofs_check_complete(
                proofs@,
                self.spec_scope(scope_id)->Some_0.required_attributes,
                root,
            );
        }
        let session_id = Self::compute_session_id(&env.caller, &scope_id, env.block_number);
        match self.find_session(&session_id) {
            Some(_) => {
                proof {
                    assert(spec_session_id_taken(*self, env.caller, scope_id, env.block_number)) by {
                        assert(session_id@ == spec_session_id(env.caller, scope_id, env.block_number)
                            && self.spec_session(session_id) is Some);
                    }
                }
                return Err(Error::SessionAlreadyExists);
            }
            None => {
                proof {
                    assert(!spec_session_id_taken(*self, env.caller, scope_id, env.block_number)) by {
                        assert forall|id: [u8; 32]|
                            id@ == spec_session_id(env.caller, scope_id, env.block_number)
                                implies self.spec_session(id) is None by {
                            assert(id =~= session_id);
                        }
                    }
                }
            }
        }
        let expires_at_block = (env.block_number as u64) + duration_blocks;
        let grant = SessionGrant {
            eph_pub_key,
            scope_id,
            expires_at_block,
            is_revoked: false,
            created_at_block: env.block_number as u64,
        };
        self.add_session(session_id, grant);
        self.events.push(RegistryEvent::SessionRequested(SessionRequested {
            session_id,
            requester: env.caller,
            scope_id,
            expires_at_block,
        }));
        Ok(session_id)
    }

    /// [`Self::request_session`] with the integration step a full deployment
    /// performs: `stored_root` is the attribute root the host read from the
    /// attribute store for the caller. No root on record refuses the request;
    /// a caller-supplied root that disagrees with the stored one is an
    /// invalid proof.
    pub fn request_session_checked(
        &mut self,
        env: Env,
        eph_pub_key: Vec<u8>,
        scope_id: [u8; 32],
        duration_blocks: u64,
        proofs: Vec<AttributeProof>,
        root: [u8; 32],
        stored_root: Option<[u8; 32]>,
    ) -> (r: Result<[u8; 32], Error>)
        requires
            old(self).wf(),
            env.block_number as int + duration_blocks as int <= u64::MAX as int,
        ensures
            final(self).wf(),
            r is Err ==> *final(self) == *old(self),
            r is Ok <==> spec_request_check(*old(self), scope_id, proofs@, root) is Ok
                && stored_root == Some(root)
                && !spec_session_id_taken(*old(self), env.caller, scope_id, env.block_number),
            spec_request_check(*old(self), scope_id, proofs@, root) matches Err(e)
                ==> r == Err::<[u8; 32], Error>(e),
            spec_request_check(*old(self), scope_id, proofs@, root) is Ok ==> {
                if stored_root is None {
                    r == Err::<[u8; 32], Error>(Error::RootNotFound)
                } else if stored_root != Some(root) {
                    r == Err::<[u8; 32], Error>(Error::InvalidProof)
                } else if spec_session_id_taken(*old(self), env.caller, scope_id, env.block_number) {
                    r == Err::<[u8; 32], Error>(Error::SessionAlreadyExists)
                } else {
                    r is Ok
                }
            },
            revocation_monotone(*old(self), *final(self)),
            r matches Ok(session_id) ==> {
                &&& session_id@ == spec_session_id(env.caller, scope_id, env.block_number)
                &&& old(self).spec_session(session_id) is None
                &&& final(self).spec_session(session_id) == Some(
                    (SessionGrantView {
                        eph_pub_key: eph_pub_key@,
                        scope_id,
                        expires_at_block: (env.block_number as u64 + duration_blocks) as u64,
                        is_revoked: false,
                        created_at_block: env.block_number as u64,
                    }),
                )
                &&& spec_all_requirements_proven(proofs@, old(self).spec_scope(scope_id)->Some_0.required_attributes, root)
                &&& forall|id: [u8; 32]| id != session_id ==> final(self).spec_session(id) == old(self).spec_session(id)
                &&& entitlements_unchanged(*old(self), *final(self))
                &&& scopes_unchanged(*old(self), *final(self))
                &&& config_unchanged(*old(self), *final(self))
            },
    {
        match self.check_request(&scope_id, &proofs, &root) {
            Err(e) => {
                return Err(e);
            }
            Ok(()) => {}
        }
        match stored_root {
            None => {
                return Err(Error::RootNotFound);
            }
            Some(stored) => {
                if !bytes32_eq(&stored, &root) {
                    return Err(Error::InvalidProof);
                }
            }
        }
        self.request_session(env, eph_pub_key, scope_id, duration_blocks, proofs, root)
    }

    /// The requirement stored for `scope_id`, if any.
    pub fn get_scope_requirement(&self, scope_id: [u8; 32]) -> (r: Option<ScopeRequirement>)
        ensures
            match r {
                Some(requirement) => self.spec_scope(scope_id) == Some(requirement@),
                None => self.spec_scope(scope_id) is None,
            },
    {
        match self.find_scope(&scope_id) {
            Some(i) => {
                let stored = &self.scope_requirements[i].1;
                Some(ScopeRequirement {
                    required_attributes: copy_hashes(&stored.required_attributes),
                    active: stored.active,
                })
            }
            None => None,
        }
    }
}

} // verus!
