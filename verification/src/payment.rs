//! The payment integration: a payment state machine driven by authorized
//! processors, whose completed payments entitle the paying account.
//!
//! Strings that cross this boundary — provider tags, external transaction
//! ids, failure reasons — are UTF-8 byte sequences, held here as byte
//! vectors and capped at 256 bytes.

use vstd::prelude::*;
use crate::host::{Address, Env, is_zero_address};
use crate::bytes::{bytes20_eq, bytes_eq, copy_bytes};

verus! {

broadcast use vstd::array::group_array_axioms;

/// Longest accepted provider tag or transaction id, in bytes.
pub const MAX_STRING_LENGTH: usize = 256;

/// Where a payment stands. Transitions are one-way: `Pending` to `Completed`
/// or `Failed`, `Completed` to `Refunded`.
#[derive(Clone, Copy, Debug, PartialEq, Eq, Structural)]
pub enum PaymentStatus {
    Pending,
    Completed,
    Failed,
    Refunded,
}

/// One recorded payment.
#[derive(Debug)]
pub struct Payment {
    /// The paying account, whose entitlement the payment drives.
    pub account: Address,
    /// Provider tag, e.g. an app-store name.
    pub provider: Vec<u8>,
    /// External transaction id, unique across all payments.
    pub transaction_id: Vec<u8>,
    /// Amount paid, in the host's balance unit.
    pub amount: u128,
    /// The entitlement byte to grant on completion.
    pub entitlement_granted: u8,
    /// Where the payment stands.
    pub status: PaymentStatus,
    /// Block time at which the payment was recorded.
    pub timestamp: u64,
}

/// The mathematical value of a [`Payment`].
pub ghost struct PaymentView {
    pub account: Address,
    pub provider: Seq<u8>,
    pub transaction_id: Seq<u8>,
    pub amount: u128,
    pub entitlement_granted: u8,
    pub status: PaymentStatus,
    pub timestamp: u64,
}

impl View for Payment {
    type V = PaymentView;

    open spec fn view(&self) -> PaymentView {
        PaymentView {
            account: self.account,
            provider: self.provider@,
            transaction_id: self.transaction_id@,
            amount: self.amount,
            entitlement_granted: self.entitlement_granted,
            status: self.status,
            timestamp: self.timestamp,
        }
    }
}

/// Emitted when a payment is recorded.
#[derive(Debug)]
pub struct PaymentRecorded {
    pub payment_id: u32,
    pub account: Address,
    pub payment_provider: Vec<u8>,
    pub transaction_id: Vec<u8>,
    pub amount: u128,
}

/// Emitted when a payment completes.
#[derive(Debug)]
pub struct PaymentCompleted {
    pub payment_id: u32,
    pub account: Address,
    pub entitlement_granted: u8,
}

/// Emitted when a payment is marked failed.
#[derive(Debug)]
pub struct PaymentFailed {
    pub payment_id: u32,
    pub reason: Vec<u8>,
}

/// Emitted when a completed payment is refunded.
#[derive(Debug)]
pub struct PaymentRefunded {
    pub payment_id: u32,
}

/// Emitted when the owner authorizes a processor.
#[derive(Debug)]
pub struct ProcessorAuthorized {
    pub processor: Address,
}

/// One entry of the payment module's event log.
#[derive(Debug)]
pub enum PaymentEvent {
    PaymentRecorded(PaymentRecorded),
    PaymentCompleted(PaymentCompleted),
    PaymentFailed(PaymentFailed),
    PaymentRefunded(PaymentRefunded),
    ProcessorAuthorized(ProcessorAuthorized),
}

/// The mathematical value of a [`PaymentEvent`].
pub ghost enum PaymentEventView {
    PaymentRecorded { payment_id: u32, account: Address, payment_provider: Seq<u8>, transaction_id: Seq<u8>, amount: u128 },
    PaymentCompleted { payment_id: u32, account: Address, entitlement_granted: u8 },
    PaymentFailed { payment_id: u32, reason: Seq<u8> },
    PaymentRefunded { payment_id: u32 },
    ProcessorAuthorized { processor: Address },
}

impl View for PaymentEvent {
    type V = PaymentEventView;

    open spec fn view(&self) -> PaymentEventView {
        match self {
            PaymentEvent::PaymentRecorded(e) => PaymentEventView::PaymentRecorded {
                payment_id: e.payment_id,
                account: e.account,
                payment_provider: e.payment_provider@,
                transaction_id: e.transaction_id@,
                amount: e.amount,
            },
            PaymentEvent::PaymentCompleted(e) => PaymentEventView::PaymentCompleted {
                payment_id: e.payment_id,
                account: e.account,
                entitlement_granted: e.entitlement_granted,
            },
            PaymentEvent::PaymentFailed(e) => PaymentEventView::PaymentFailed {
                payment_id: e.payment_id,
                reason: e.reason@,
            },
            PaymentEvent::PaymentRefunded(e) => PaymentEventView::PaymentRefunded {
                payment_id: e.payment_id,
            },
            PaymentEvent::ProcessorAuthorized(e) => PaymentEventView::ProcessorAuthorized {
                processor: e.processor,
            },
        }
    }
}

/// Why a payment operation was refused.
#[derive(Clone, Copy, Debug, PartialEq, Eq, Structural)]
pub enum Error {
    /// Caller is not the owner.
    NotOwner,
    /// Caller is not an authorized processor.
    NotAuthorizedProcessor,
    /// Payment not found.
    PaymentNotFound,
    /// A payment with this external transaction id already exists.
    PaymentAlreadyExists,
    /// The payment is not in a status this transition starts from.
    InvalidStatus,
    /// An input string exceeds the maximum length.
    InputTooLong,
}

/// The index of the first payment carrying `transaction_id`, if any.
pub open spec fn spec_tx_index(payments: Seq<Payment>, transaction_id: Seq<u8>) -> Option<int>
    decreases payments.len(),
{
    if payments.len() == 0 {
        None
    } else if payments[0].transaction_id@ == transaction_id {
        Some(0)
    } else {
        match spec_tx_index(payments.drop_first(), transaction_id) {
            Some(i) => Some(i + 1),
            None => None,
        }
    }
}

/// A scan that hits the first payment with the wanted transaction id at
/// position `i` returns `i`.
proof fn lemma_tx_index_at_first_match(payments: Seq<Payment>, transaction_id: Seq<u8>, i: int)
    requires
        0 <= i < payments.len(),
        payments[i].transaction_id@ == transaction_id,
        forall|j: int| 0 <= j < i ==> payments[j].transaction_id@ != transaction_id,
    ensures
        spec_tx_index(payments, transaction_id) == Some(i),
    decreases i,
{
    if i > 0 {
        lemma_tx_index_at_first_match(payments.drop_first(), transaction_id, i - 1);
    }
}

/// A transaction id no payment carries is not indexed.
proof fn lemma_tx_index_absent(payments: Seq<Payment>, transaction_id: Seq<u8>)
    requires
        forall|j: int| 0 <= j < payments.len() ==> payments[j].transaction_id@ != transaction_id,
    ensures
        spec_tx_index(payments, transaction_id) is None,
    decreases payments.len(),
{
    if payments.len() > 0 {
        lemma_tx_index_absent(payments.drop_first(), transaction_id);
    }
}

/// Appending a payment indexes its transaction id — at the new position if
/// the id was fresh, unchanged if it was already taken — and leaves every
/// other transaction id indexed as before.
proof fn lemma_tx_index_push(payments: Seq<Payment>, p: Payment)
    ensures
        forall|tx: Seq<u8>| tx != p.transaction_id@ ==> spec_tx_index(payments.push(p), tx) == spec_tx_index(payments, tx),
        spec_tx_index(payments, p.transaction_id@) is None ==> spec_tx_index(payments.push(p), p.transaction_id@) == Some(payments.len() as int),
        spec_tx_index(payments, p.transaction_id@) is Some ==> spec_tx_index(payments.push(p), p.transaction_id@) == spec_tx_index(payments, p.transaction_id@),
    decreases payments.len(),
{
    let s2 = payments.push(p);
    if payments.len() == 0 {
        assert(s2[0] == p);
        assert(s2.len() == 1);
        assert forall|tx: Seq<u8>| tx != p.transaction_id@ implies spec_tx_index(s2, tx) == spec_tx_index(payments, tx) by {
            assert(s2.drop_first() =~= Seq::<Payment>::empty());
            assert(spec_tx_index(Seq::<Payment>::empty(), tx) is None);
        }
    } else {
        let t = payments.drop_first().push(p);
        assert(s2[0] == payments[0]);
        assert(s2.drop_first() =~= t);
        lemma_tx_index_push(payments.drop_first(), p);
        assert forall|tx: Seq<u8>| tx != p.transaction_id@ implies spec_tx_index(s2, tx) == spec_tx_index(payments, tx) by {
            if payments[0].transaction_id@ != tx {
                assert(spec_tx_index(t, tx) == spec_tx_index(payments.drop_first(), tx));
            }
        }
    }
}

/// The transaction index reads only the transaction ids: two payment tables
/// whose entries carry the same ids index every transaction alike.
proof fn lemma_tx_index_same_txs(a: Seq<Payment>, b: Seq<Payment>, transaction_id: Seq<u8>)
    requires
        a.len() == b.len(),
        forall|j: int| 0 <= j < a.len() ==> a[j].transaction_id@ == b[j].transaction_id@,
    ensures
        spec_tx_index(a, transaction_id) == spec_tx_index(b, transaction_id),
    decreases a.len(),
{
    if a.len() > 0 {
        assert(a.drop_first().len() == b.drop_first().len());
        lemma_tx_index_same_txs(a.drop_first(), b.drop_first(), transaction_id);
    }
}

/// The payment module: the payment table keyed by consecutive ids, the
/// monotone id counter, the owner, the processor set, and the address of the
/// access registry its completions entitle through.
pub struct PaymentIntegration {
    payments: Vec<Payment>,
    next_payment_id: u32,
    owner: Address,
    access_registry: Option<Address>,
    authorized_processors: Vec<Address>,
    events: Vec<PaymentEvent>,
}

impl PaymentIntegration {
    /// Internal well-formedness: ids are assigned consecutively, so the
    /// counter equals the number of payments recorded.
    pub closed spec fn wf(self) -> bool {
        self.next_payment_id as int == self.payments@.len()
    }

    /// The owner captured at construction.
    pub closed spec fn spec_owner(self) -> Address {
        self.owner
    }

    /// The configured access-registry address, if any.
    pub closed spec fn spec_access_registry(self) -> Option<Address> {
        self.access_registry
    }

    /// Whether `account` may drive payment state.
    pub closed spec fn spec_is_processor(self, account: Address) -> bool {
        self.authorized_processors@.contains(account)
    }

    /// The id the next recorded payment will get.
    pub closed spec fn spec_next_payment_id(self) -> u32 {
        self.next_payment_id
    }

    /// The payment recorded under `payment_id`, if any.
    pub closed spec fn spec_payment(self, payment_id: u32) -> Option<PaymentView> {
        if payment_id < self.payments@.len() {
            Some(self.payments@[payment_id as int]@)
        } else {
            None
        }
    }

    /// The id of the payment carrying `transaction_id`, if any.
    pub closed spec fn spec_payment_by_transaction(self, transaction_id: Seq<u8>) -> Option<u32> {
        match spec_tx_index(self.payments@, transaction_id) {
            Some(i) => Some(i as u32),
            None => None,
        }
    }

    /// The events emitted so far, oldest first.
    pub closed spec fn spec_events(self) -> Seq<PaymentEvent> {
        self.events@
    }
}

/// Both modules record the same payments under the same ids.
pub open spec fn payments_unchanged(a: PaymentIntegration, b: PaymentIntegration) -> bool {
    forall|payment_id: u32| a.spec_payment(payment_id) == b.spec_payment(payment_id)
}

/// Both modules authorize the same processors.
pub open spec fn processors_unchanged(a: PaymentIntegration, b: PaymentIntegration) -> bool {
    forall|account: Address| a.spec_is_processor(account) == b.spec_is_processor(account)
}

/// Both modules have the same owner, registry address and id counter.
pub open spec fn payment_config_unchanged(a: PaymentIntegration, b: PaymentIntegration) -> bool {
    &&& a.spec_owner() == b.spec_owner()
    &&& a.spec_access_registry() == b.spec_access_registry()
    &&& a.spec_next_payment_id() == b.spec_next_payment_id()
}

/// `b`'s event log is `a`'s with `ev` appended.
pub open spec fn payment_events_extended_by(a: PaymentIntegration, b: PaymentIntegration, ev: PaymentEventView) -> bool {
    &&& b.spec_events().len() == a.spec_events().len() + 1
    &&& b.spec_events().take(a.spec_events().len() as int) == a.spec_events()
    &&& b.spec_events().last()@ == ev
}

impl Default for PaymentIntegration {
    /// An empty payment module owned by the zero address, the host's default
    /// caller.
    fn default() -> (r: PaymentIntegration)
        ensures
            r.wf(),
            is_zero_address(r.spec_owner()),
            r.spec_access_registry() is None,
            r.spec_next_payment_id() == 0,
            forall|account: Address| r.spec_is_processor(account) <==> is_zero_address(account),
            forall|payment_id: u32| r.spec_payment(payment_id) is None,
            forall|tx: Seq<u8>| r.spec_payment_by_transaction(tx) is None,
            r.spec_events() == Seq::<PaymentEvent>::empty(),
    {
        let owner: Address = [0u8; 20];
        proof {
            assert(is_zero_address(owner));
        }
        let r = PaymentIntegration::new(owner);
        proof {
            assert forall|account: Address| r.spec_is_processor(account) <==> is_zero_address(account) by {
                if is_zero_address(account) {
                    assert(account =~= owner);
                }
            }
        }
        r
    }
}

impl PaymentIntegration {
    /// Constructs an empty payment module owned by the constructing caller,
    /// who is also its first authorized processor.
    pub fn new(caller: Address) -> (r: PaymentIntegration)
        ensures
            r.wf(),
            r.spec_owner() == caller,
            r.spec_access_registry() is None,
            r.spec_next_payment_id() == 0,
            forall|account: Address| r.spec_is_processor(account) <==> account == caller,
            forall|payment_id: u32| r.spec_payment(payment_id) is None,
            forall|tx: Seq<u8>| r.spec_payment_by_transaction(tx) is None,
            r.spec_events() == Seq::<PaymentEvent>::empty(),
    {
        let mut processors: Vec<Address> = Vec::new();
        processors.push(caller);
        let r = PaymentIntegration {
            payments: Vec::new(),
            next_payment_id: 0,
            owner: caller,
            access_registry: None,
            authorized_processors: processors,
            events: Vec::new(),
        };
        proof {
            assert(forall|tx: Seq<u8>| spec_tx_index(r.payments@, tx) is None);
            assert(r.authorized_processors@ =~= seq![caller]);
            assert forall|account: Address| r.spec_is_processor(account) <==> account == caller by {
                if account == caller {
                    assert(r.authorized_processors@[0] == caller);
                }
            }
        }
        r
    }

    /// The owner captured at construction.
    pub fn owner(&self) -> (r: Address)
        ensures
            r == self.spec_owner(),
    {
        self.owner
    }

    /// The id the next recorded payment will get.
    pub fn next_payment_id(&self) -> (r: u32)
        ensures
            r == self.spec_next_payment_id(),
    {
        self.next_payment_id
    }

    /// The events emitted so far, oldest first.
    pub fn events(&self) -> (r: &Vec<PaymentEvent>)
        ensures
            r@ == self.spec_events(),
    {
        &self.events
    }

    /// Whether `account` may drive payment state.
    pub fn is_authorized_processor(&self, account: Address) -> (r: bool)
        ensures
            r == self.spec_is_processor(account),
    {
        let n = self.authorized_processors.len();
        let mut i: usize = 0;
        while i < n
            invariant
                i <= n,
                n == self.authorized_processors@.len(),
                forall|j: int| 0 <= j < i ==> self.authorized_processors@[j] != account,
            decreases n - i,
        {
            if bytes20_eq(&self.authorized_processors[i], &account) {
                return true;
            }
            i += 1;
        }
        proof {
            assert(!self.authorized_processors@.contains(account));
        }
        false
    }

    /// Configures the address of the access registry. Owner-only.
    pub fn set_access_registry(&mut self, env: Env, address: Address) -> (r: Result<(), Error>)
        requires
            old(self).wf(),
        ensures
            final(self).wf(),
            r is Ok <==> env.caller == old(self).spec_owner(),
            r is Err ==> r == Err::<(), Error>(Error::NotOwner) && *final(self) == *old(self),
            r is Ok ==> {
                &&& final(self).spec_access_registry() == Some(address)
                &&& final(self).spec_owner() == old(self).spec_owner()
                &&& final(self).spec_next_payment_id() == old(self).spec_next_payment_id()
                &&& payments_unchanged(*old(self), *final(self))
                &&& processors_unchanged(*old(self), *final(self))
                &&& final(self).spec_events() == old(self).spec_events()
            },
    {
        if !bytes20_eq(&env.caller, &self.owner) {
            return Err(Error::NotOwner);
        }
        self.access_registry = Some(address);
        Ok(())
    }

    /// Authorizes `processor` to drive payment state. Owner-only; authorizing
    /// an already authorized processor is an accepted no-op.
    pub fn authorize_processor(&mut self, env: Env, processor: Address) -> (r: Result<(), Error>)
        requires
            old(self).wf(),
        ensures
            final(self).wf(),
            r is Ok <==> env.caller == old(self).spec_owner(),
            r is Err ==> r == Err::<(), Error>(Error::NotOwner) && *final(self) == *old(self),
            r is Ok ==> {
                &&& final(self).spec_is_processor(processor)
                &&& forall|account: Address| account != processor ==> final(self).spec_is_processor(account) == old(self).spec_is_processor(account)
                &&& final(self).spec_owner() == old(self).spec_owner()
                &&& final(self).spec_access_registry() == old(self).spec_access_registry()
                &&& final(self).spec_next_payment_id() == old(self).spec_next_payment_id()
                &&& payments_unchanged(*old(self), *final(self))
                &&& payment_events_extended_by(
                    *old(self),
                    *final(self),
                    PaymentEventView::ProcessorAuthorized { processor },
                )
            },
    {
        if !bytes20_eq(&env.caller, &self.owner) {
            return Err(Error::NotOwner);
        }
        if !self.is_authorized_processor(processor) {
            let ghost before = self.authorized_processors@;
            self.authorized_processors.push(processor);
            proof {
                assert(self.authorized_processors@.last() == processor);
                assert(self.authorized_processors@.contains(processor));
                assert forall|account: Address| account != processor implies
                    self.authorized_processors@.contains(account) == before.contains(account) by {
                    assert(self.authorized_processors@.take(before.len() as int) =~= before);
                    if before.contains(account) {
                        let j = choose|j: int| 0 <= j < before.len() && before[j] == account;
                        assert(self.authorized_processors@[j] == account);
                    } else {
                        if self.authorized_processors@.contains(account) {
                            let j = choose|j: int| 0 <= j < self.authorized_processors@.len()
                                && self.authorized_processors@[j] == account;
                            assert(j < before.len());
                            assert(before[j] == account);
                        }
                    }
                }
            }
        }
        let ghost before_events = self.events@;
        self.events.push(PaymentEvent::ProcessorAuthorized(ProcessorAuthorized { processor }));
        proof {
            assert(self.events@.take(before_events.len() as int) =~= before_events);
        }
        Ok(())
    }

    /// The id of the first payment carrying `transaction_id`, if any.
    fn find_transaction(&self, transaction_id: &Vec<u8>) -> (r: Option<u32>)
        requires
            self.wf(),
        ensures
            r == self.spec_payment_by_transaction(transaction_id@),
    {
        let n = self.payments.len();
        let mut i: usize = 0;
        while i < n
            invariant
                i <= n,
                n == self.payments@.len(),
                self.wf(),
                forall|j: int| 0 <= j < i ==> self.payments@[j].transaction_id@ != transaction_id@,
            decreases n - i,
        {
            if bytes_eq(&self.payments[i].transaction_id, transaction_id) {
                proof {
                    lemma_tx_index_at_first_match(self.payments@, transaction_id@, i as int);
                }
                return Some(i as u32);
            }
            i += 1;
        }
        proof {
            lemma_tx_index_absent(self.payments@, transaction_id@);
        }
        None
    }

    /// Records a new payment in `Pending` status and assigns it the next id.
    /// Processor-only; the provider tag and transaction id are capped at 256
    /// bytes, and a transaction id already on record is refused, so a
    /// duplicate off-chain submission cannot create a second payment.
    pub fn record_payment(
        &mut self,
        env: Env,
        account: Address,
        provider: Vec<u8>,
        transaction_id: Vec<u8>,
        amount: u128,
        entitlement_granted: u8,
    ) -> (r: Result<u32, Error>)
        requires
            old(self).wf(),
            old(self).spec_next_payment_id() < u32::MAX,
        ensures
            final(self).wf(),
            r is Err ==> *final(self) == *old(self),
            r is Ok <==> {
                &&& old(self).spec_is_processor(env.caller)
                &&& provider@.len() <= MAX_STRING_LENGTH
                &&& transaction_id@.len() <= MAX_STRING_LENGTH
                &&& old(self).spec_payment_by_transaction(transaction_id@) is None
            },
            !old(self).spec_is_processor(env.caller) ==> r == Err::<u32, Error>(Error::NotAuthorizedProcessor),
            old(self).spec_is_processor(env.caller) && (provider@.len() > MAX_STRING_LENGTH
                || transaction_id@.len() > MAX_STRING_LENGTH) ==> r == Err::<u32, Error>(Error::InputTooLong),
            old(self).spec_is_processor(env.caller) && provider@.len() <= MAX_STRING_LENGTH
                && transaction_id@.len() <= MAX_STRING_LENGTH
                && old(self).spec_payment_by_transaction(transaction_id@) is Some ==> r == Err::<u32, Error>(Error::PaymentAlreadyExists),
            r matches Ok(payment_id) ==> {
                &&& payment_id == old(self).spec_next_payment_id()
                &&& final(self).spec_next_payment_id() == old(self).spec_next_payment_id() + 1
                &&& final(self).spec_payment(payment_id) == Some(
                    (PaymentView {
                        account,
                        provider: provider@,
                        transaction_id: transaction_id@,
                        amount,
                        entitlement_granted,
                        status: PaymentStatus::Pending,
                        timestamp: env.block_timestamp,
                    }),
                )
                &&& forall|id: u32| id != payment_id ==> final(self).spec_payment(id) == old(self).spec_payment(id)
                &&& final(self).spec_payment_by_transaction(transaction_id@) == Some(payment_id)
                &&& forall|tx: Seq<u8>| tx != transaction_id@ ==> final(self).spec_payment_by_transaction(tx) == old(self).spec_payment_by_transaction(tx)
                &&& processors_unchanged(*old(self), *final(self))
                &&& final(self).spec_owner() == old(self).spec_owner()
                &&& final(self).spec_access_registry() == old(self).spec_access_registry()
                &&& payment_events_extended_by(
                    *old(self),
                    *final(self),
                    PaymentEventView::PaymentRecorded {
                        payment_id,
                        account,
                        payment_provider: provider@,
                        transaction_id: transaction_id@,
                        amount,
                    },
                )
            },
    {
        if !self.is_authorized_processor(env.caller) {
            return Err(Error::NotAuthorizedProcessor);
        }
        if provider.len() > MAX_STRING_LENGTH || transaction_id.len() > MAX_STRING_LENGTH {
            return Err(Error::InputTooLong);
        }
        match self.find_transaction(&transaction_id) {
            Some(_) => {
                return Err(Error::PaymentAlreadyExists);
            }
            None => {}
        }
        let payment_id = self.next_payment_id;
        let payment = Payment {
            account,
            provider: copy_bytes(&provider),
            transaction_id: copy_bytes(&transaction_id),
            amount,
            entitlement_granted,
            status: PaymentStatus::Pending,
            timestamp: env.block_timestamp,
        };
        let ghost payments_before = self.payments@;
        let ghost pushed = payment;
        self.payments.push(payment);
        proof {
            lemma_tx_index_push(payments_before, pushed);
        }
        self.next_payment_id = self.next_payment_id + 1;
        let ghost before_events = self.events@;
        self.events.push(PaymentEvent::PaymentRecorded(PaymentRecorded {
            payment_id,
            account,
            payment_provider: provider,
            transaction_id,
            amount,
        }));
        proof {
            assert(self.events@.take(before_events.len() as int) =~= before_events);
        }
        Ok(payment_id)
    }

    /// Completes a pending payment. Processor-only; only `Pending` payments
    /// complete. A full deployment grants the payment's entitlement in the
    /// same transaction — see [`crate::bridge::complete_payment_and_grant`].
    pub fn complete_payment(&mut self, env: Env, payment_id: u32) -> (r: Result<(), Error>)
        requires
            old(self).wf(),
        ensures
            final(self).wf(),
            r is Err ==> *final(self) == *old(self),
            r is Ok <==> old(self).spec_is_processor(env.caller)
                && old(self).spec_payment(payment_id) is Some
                && old(self).spec_payment(payment_id)->Some_0.status == PaymentStatus::Pending,
            !old(self).spec_is_processor(env.caller) ==> r == Err::<(), Error>(Error::NotAuthorizedProcessor),
            old(self).spec_is_processor(env.caller) && old(self).spec_payment(payment_id) is None
                ==> r == Err::<(), Error>(Error::PaymentNotFound),
            old(self).spec_is_processor(env.caller) && old(self).spec_payment(payment_id) is Some
                && old(self).spec_payment(payment_id)->Some_0.status != PaymentStatus::Pending
                ==> r == Err::<(), Error>(Error::InvalidStatus),
            r is Ok ==> {
                &&& final(self).spec_payment(payment_id) == Some(
                    (PaymentView { status: PaymentStatus::Completed, ..old(self).spec_payment(payment_id)->Some_0 }),
                )
                &&& forall|id: u32| id != payment_id ==> final(self).spec_payment(id) == old(self).spec_payment(id)
                &&& forall|tx: Seq<u8>| final(self).spec_payment_by_transaction(tx) == old(self).spec_payment_by_transaction(tx)
                &&& processors_unchanged(*old(self), *final(self))
                &&& payment_config_unchanged(*old(self), *final(self))
                &&& payment_events_extended_by(
                    *old(self),
                    *final(self),
                    PaymentEventView::PaymentCompleted {
                        payment_id,
                        account: old(self).spec_payment(payment_id)->Some_0.account,
                        entitlement_granted: old(self).spec_payment(payment_id)->Some_0.entitlement_granted,
                    },
                )
            },
    {
        if !self.is_authorized_processor(env.caller) {
            return Err(Error::NotAuthorizedProcessor);
        }
        let idx = payment_id as usize;
        if idx >= self.payments.len() {
            return Err(Error::PaymentNotFound);
        }
        if self.payments[idx].status != PaymentStatus::Pending {
            return Err(Error::InvalidStatus);
        }
        let stored = &self.payments[idx];
        let account = stored.account;
        let entitlement_granted = stored.entitlement_granted;
        let updated = Payment {
            account: stored.account,
            provider: copy_bytes(&stored.provider),
            transaction_id: copy_bytes(&stored.transaction_id),
            amount: stored.amount,
            entitlement_granted: stored.entitlement_granted,
            status: PaymentStatus::Completed,
            timestamp: stored.timestamp,
        };
        self.payments[idx] = updated;
        proof {
            assert forall|tx: Seq<u8>| #![auto] self.spec_payment_by_transaction(tx) == old(self).spec_payment_by_transaction(tx) by {
                assert(forall|j: int| 0 <= j < self.payments@.len() ==> self.payments@[j].transaction_id@ == old(self).payments@[j].transaction_id@);
                lemma_tx_index_same_txs(self.payments@, old(self).payments@, tx);
            }
        }
        let ghost before_events = self.events@;
        self.events.push(PaymentEvent::PaymentCompleted(PaymentCompleted {
            payment_id,
            account,
            entitlement_granted,
        }));
        proof {
            assert(self.events@.take(before_events.len() as int) =~= before_events);
        }
        Ok(())
    }

    /// Marks a payment failed. Processor-only. With `require_pending` the
    /// transition is held to the one-way rule — only `Pending` payments may
    /// fail; without it any payment is set to `Failed` unconditionally, an
    /// administrative override.
    pub fn fail_payment(&mut self, env: Env, payment_id: u32, reason: Vec<u8>, require_pending: bool) -> (r: Result<(), Error>)
        requires
            old(self).wf(),
        ensures
            final(self).wf(),
            r is Err ==> *final(self) == *old(self),
            r is Ok <==> old(self).spec_is_processor(env.caller)
                && old(self).spec_payment(payment_id) is Some
                && (require_pending ==> old(self).spec_payment(payment_id)->Some_0.status == PaymentStatus::Pending),
            !old(self).spec_is_processor(env.caller) ==> r == Err::<(), Error>(Error::NotAuthorizedProcessor),
            old(self).spec_is_processor(env.caller) && old(self).spec_payment(payment_id) is None
                ==> r == Err::<(), Error>(Error::PaymentNotFound),
            old(self).spec_is_processor(env.caller) && old(self).spec_payment(payment_id) is Some
                && require_pending && old(self).spec_payment(payment_id)->Some_0.status != PaymentStatus::Pending
                ==> r == Err::<(), Error>(Error::InvalidStatus),
            r is Ok ==> {
                &&& final(self).spec_payment(payment_id) == Some(
                    (PaymentView { status: PaymentStatus::Failed, ..old(self).spec_payment(payment_id)->Some_0 }),
                )
                &&& forall|id: u32| id != payment_id ==> final(self).spec_payment(id) == old(self).spec_payment(id)
                &&& forall|tx: Seq<u8>| final(self).spec_payment_by_transaction(tx) == old(self).spec_payment_by_transaction(tx)
                &&& processors_unchanged(*old(self), *final(self))
                &&& payment_config_unchanged(*old(self), *final(self))
                &&& payment_events_extended_by(
                    *old(self),
                    *final(self),
                    PaymentEventView::PaymentFailed { payment_id, reason: reason@ },
                )
            },
    {
        if !self.is_authorized_processor(env.caller) {
            return Err(Error::NotAuthorizedProcessor);
        }
        let idx = payment_id as usize;
        if idx >= self.payments.len() {
            return Err(Error::PaymentNotFound);
        }
        if require_pending && self.payments[idx].status != PaymentStatus::Pending {
            return Err(Error::InvalidStatus);
        }
        let stored = &self.payments[idx];
        let updated = Payment {
            account: stored.account,
            provider: copy_bytes(&stored.provider),
            transaction_id: copy_bytes(&stored.transaction_id),
            amount: stored.amount,
            entitlement_granted: stored.entitlement_granted,
            status: PaymentStatus::Failed,
            timestamp: stored.timestamp,
        };
        self.payments[idx] = updated;
        proof {
            assert forall|tx: Seq<u8>| #![auto] self.spec_payment_by_transaction(tx) == old(self).spec_payment_by_transaction(tx) by {
                assert(forall|j: int| 0 <= j < self.payments@.len() ==> self.payments@[j].transaction_id@ == old(self).payments@[j].transaction_id@);
                lemma_tx_index_same_txs(self.payments@, old(self).payments@, tx);
            }
        }
        let ghost before_events = self.events@;
        self.events.push(PaymentEvent::PaymentFailed(PaymentFailed { payment_id, reason }));
        proof {
            assert(self.events@.take(before_events.len() as int) =~= before_events);
        }
        Ok(())
    }

    /// Refunds a completed payment. Processor-only; only `Completed` payments
    /// refund. A full deployment revokes the account's entitlement in the
    /// same transaction — see [`crate::bridge::refund_payment_and_revoke`].
    pub fn refund_payment(&mut self, env: Env, payment_id: u32) -> (r: Result<(), Error>)
        requires
            old(self).wf(),
        ensures
            final(self).wf(),
            r is Err ==> *final(self) == *old(self),
            r is Ok <==> old(self).spec_is_processor(env.caller)
                && old(self).spec_payment(payment_id) is Some
                && old(self).spec_payment(payment_id)->Some_0.status == PaymentStatus::Completed,
            !old(self).spec_is_processor(env.caller) ==> r == Err::<(), Error>(Error::NotAuthorizedProcessor),
            old(self).spec_is_processor(env.caller) && old(self).spec_payment(payment_id) is None
                ==> r == Err::<(), Error>(Error::PaymentNotFound),
            old(self).spec_is_processor(env.caller) && old(self).spec_payment(payment_id) is Some
                && old(self).spec_payment(payment_id)->Some_0.status != PaymentStatus::Completed
                ==> r == Err::<(), Error>(Error::InvalidStatus),
            r is Ok ==> {
                &&& final(self).spec_payment(payment_id) == Some(
                    (PaymentView { status: PaymentStatus::Refunded, ..old(self).spec_payment(payment_id)->Some_0 }),
                )
                &&& forall|id: u32| id != payment_id ==> final(self).spec_payment(id) == old(self).spec_payment(id)
                &&& forall|tx: Seq<u8>| final(self).spec_payment_by_transaction(tx) == old(self).spec_payment_by_transaction(tx)
                &&& processors_unchanged(*old(self), *final(self))
                &&& payment_config_unchanged(*old(self), *final(self))
                &&& payment_events_extended_by(
                    *old(self),
                    *final(self),
                    PaymentEventView::PaymentRefunded { payment_id },
                )
            },
    {
        if !self.is_authorized_processor(env.caller) {
            return Err(Error::NotAuthorizedProcessor);
        }
        let idx = payment_id as usize;
        if idx >= self.payments.len() {
            return Err(Error::PaymentNotFound);
        }
        if self.payments[idx].status != PaymentStatus::Completed {
            return Err(Error::InvalidStatus);
        }
        let stored = &self.payments[idx];
        let updated = Payment {
            account: stored.account,
            provider: copy_bytes(&stored.provider),
            transaction_id: copy_bytes(&stored.transaction_id),
            amount: stored.amount,
            entitlement_granted: stored.entitlement_granted,
            status: PaymentStatus::Refunded,
            timestamp: stored.timestamp,
        };
        self.payments[idx] = updated;
        proof {
            assert forall|tx: Seq<u8>| #![auto] self.spec_payment_by_transaction(tx) == old(self).spec_payment_by_transaction(tx) by {
                assert(forall|j: int| 0 <= j < self.payments@.len() ==> self.payments@[j].transaction_id@ == old(self).payments@[j].transaction_id@);
                lemma_tx_index_same_txs(self.payments@, old(self).payments@, tx);
            }
        }
        let ghost before_events = self.events@;
        self.events.push(PaymentEvent::PaymentRefunded(PaymentRefunded { payment_id }));
        proof {
            assert(self.events@.take(before_events.len() as int) =~= before_events);
        }
        Ok(())
    }

    /// The payment recorded under `payment_id`, if any.
    pub fn get_payment(&self, payment_id: u32) -> (r: Option<Payment>)
        ensures
            match r {
                Some(payment) => self.spec_payment(payment_id) == Some(payment@),
                None => self.spec_payment(payment_id) is None,
            },
    {
        let idx = payment_id as usize;
        if idx >= self.payments.len() {
            return None;
        }
        let stored = &self.payments[idx];
        Some(Payment {
            account: stored.account,
            provider: copy_bytes(&stored.provider),
            transaction_id: copy_bytes(&stored.transaction_id),
            amount: stored.amount,
            entitlement_granted: stored.entitlement_granted,
            status: stored.status,
            timestamp: stored.timestamp,
        })
    }

    /// The id of the payment carrying `transaction_id`, if any.
    pub fn get_payment_by_transaction(&self, transaction_id: Vec<u8>) -> (r: Option<u32>)
        requires
            self.wf(),
        ensures
            r == self.spec_payment_by_transaction(transaction_id@),
    {
        self.find_transaction(&transaction_id)
    }
}

} // verus!
