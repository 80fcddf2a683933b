use crate::agreement::{valid_terms, Agreement, PaymentRecord};
use crate::types::Identity;
use vstd::prelude::*;

verus! {

/// What the contract has persisted: the admin, the counters, the agreements
/// and the payment history.
pub struct ContractState {
    pub(crate) admin: Option<Identity>,
    pub(crate) agreement_count: u32,
    pub(crate) payment_count: u32,
    pub(crate) dispute_count: u32,
    pub(crate) agreements: Vec<Agreement>,
    pub(crate) payments: Vec<PaymentRecord>,
}

/// The abstract contents of a [`ContractState`].
pub ghost struct StateView {
    pub admin: Option<Identity>,
    pub agreement_count: u32,
    pub payment_count: u32,
    pub dispute_count: u32,
    pub agreements: Seq<Agreement>,
    pub payments: Seq<PaymentRecord>,
}

impl View for ContractState {
    type V = StateView;

    closed spec fn view(&self) -> StateView {
        StateView {
            admin: self.admin,
            agreement_count: self.agreement_count,
            payment_count: self.payment_count,
            dispute_count: self.dispute_count,
            agreements: self.agreements@,
            payments: self.payments@,
        }
    }
}

/// Selects the payment records of the agreement stored under `id`.
pub open spec fn of_agreement(id: Seq<char>) -> spec_fn(PaymentRecord) -> bool {
    |p: PaymentRecord| p.agreement_id@ == id
}

/// The sum of the amounts of a run of payment records.
pub open spec fn total_amount(h: Seq<PaymentRecord>) -> int
    decreases h.len(),
{
    if h.len() == 0 {
        0
    } else {
        total_amount(h.drop_last()) + h.last().amount
    }
}

/// An agreement's counters agree with its payment history: the records are
/// numbered 1, 2, ... without gaps, as many as the agreement counts, and their
/// amounts add up to the total paid.
pub open spec fn history_matches(a: Agreement, h: Seq<PaymentRecord>) -> bool {
    &&& h.len() == a.payment_count
    &&& forall|j: int| 0 <= j < h.len() ==> #[trigger] h[j].payment_number == j + 1
    &&& a.total_rent_paid == total_amount(h)
}

impl StateView {
    /// An agreement is stored under `id`.
    pub open spec fn has_agreement(self, id: Seq<char>) -> bool {
        exists|i: int| 0 <= i < self.agreements.len() && #[trigger] self.agreements[i].agreement_id@ == id
    }

    /// Position of the agreement stored under `id` (meaningful when there is one).
    pub open spec fn index_of(self, id: Seq<char>) -> int {
        choose|i: int| 0 <= i < self.agreements.len() && #[trigger] self.agreements[i].agreement_id@ == id
    }

    /// The agreement stored under `id` (meaningful when there is one).
    pub open spec fn agreement(self, id: Seq<char>) -> Agreement {
        self.agreements[self.index_of(id)]
    }

    /// The payment records of the agreement stored under `id`, oldest first.
    pub open spec fn payments_of(self, id: Seq<char>) -> Seq<PaymentRecord> {
        self.payments.filter(of_agreement(id))
    }

    /// The agreement stored under `id` has had at least `n` payments, `n >= 1`.
    pub open spec fn has_payment(self, id: Seq<char>, n: u32) -> bool {
        1 <= n <= self.payments_of(id).len()
    }

    /// The record of the `n`-th payment on the agreement stored under `id`.
    pub open spec fn payment(self, id: Seq<char>, n: u32) -> PaymentRecord {
        self.payments_of(id)[n - 1]
    }

    /// The invariants of the persisted state.
    pub open spec fn wf(self) -> bool {
        &&& forall|i: int, j: int|
            0 <= i < j < self.agreements.len() ==> #[trigger] self.agreements[i].agreement_id@
                != #[trigger] self.agreements[j].agreement_id@
        &&& forall|i: int| 0 <= i < self.agreements.len() ==> valid_terms(#[trigger] self.agreements[i])
        &&& forall|k: int|
            0 <= k < self.payments.len() ==> #[trigger] self.payments[k].landlord_amount
                + self.payments[k].agent_amount == self.payments[k].amount
        &&& forall|k: int| 0 <= k < self.payments.len() ==> self.has_agreement(#[trigger] self.payments[k].agreement_id@)
        &&& forall|i: int|
            0 <= i < self.agreements.len() ==> history_matches(
                #[trigger] self.agreements[i],
                self.payments_of(self.agreements[i].agreement_id@),
            )
    }
}

impl ContractState {
    /// An empty state: not initialized, no agreements, no payments.
    pub fn new() -> (r: ContractState)
        ensures
            r@.wf(),
            r@.admin.is_none(),
            r@.agreement_count == 0,
            r@.payment_count == 0,
            r@.dispute_count == 0,
            r@.agreements.len() == 0,
            r@.payments.len() == 0,
    {
        ContractState {
            admin: None,
            agreement_count: 0,
            payment_count: 0,
            dispute_count: 0,
            agreements: Vec::new(),
            payments: Vec::new(),
        }
    }

    /// Position of the agreement stored under `id`, if there is one.
    pub(crate) fn find_agreement(&self, id: &String) -> (r: Option<usize>)
        requires
            self@.wf(),
        ensures
            match r {
                Some(i) => {
                    &&& self@.has_agreement(id@)
                    &&& i == self@.index_of(id@)
                    &&& i < self@.agreements.len()
                },
                None => !self@.has_agreement(id@),
            },
    {
        let mut i: usize = 0;
        while i < self.agreements.len()
            invariant
                self@.wf(),
                0 <= i <= self.agreements@.len(),
                forall|j: int| 0 <= j < i ==> self.agreements@[j].agreement_id@ != id@,
            decreases self.agreements@.len() - i,
        {
            if self.agreements[i].agreement_id == *id {
                proof {
                    let k = self@.index_of(id@);
                    assert(self@.agreements[i as int].agreement_id@ == id@);
                    assert(self@.agreements[k].agreement_id@ == id@);
                    if i < k {
                        assert(self@.agreements[i as int].agreement_id@ != self@.agreements[k].agreement_id@);
                    }
                }
                return Some(i);
            }
            i += 1;
        }
        None
    }
}

impl ContractState {
    pub(crate) fn agreement_at(&self, i: usize) -> (r: &Agreement)
        requires
            i < self@.agreements.len(),
        ensures
            *r == self@.agreements[i as int],
    {
        &self.agreements[i]
    }

    pub(crate) fn payment_at(&self, k: usize) -> (r: &PaymentRecord)
        requires
            k < self@.payments.len(),
        ensures
            *r == self@.payments[k as int],
    {
        &self.payments[k]
    }

    pub(crate) fn num_payments(&self) -> (r: usize)
        ensures
            r == self@.payments.len(),
    {
        self.payments.len()
    }

    pub(crate) fn replace_agreement(&mut self, i: usize, a: Agreement)
        requires
            i < old(self)@.agreements.len(),
        ensures
            final(self)@ == (StateView { agreements: old(self)@.agreements.update(i as int, a), ..old(self)@ }),
    {
        let _ = self.agreements.remove(i);
        self.agreements.insert(i, a);
        assert(self.agreements@ =~= old(self)@.agreements.update(i as int, a));
    }

    pub(crate) fn push_agreement(&mut self, a: Agreement)
        ensures
            final(self)@ == (StateView { agreements: old(self)@.agreements.push(a), ..old(self)@ }),
    {
        self.agreements.push(a);
    }

    pub(crate) fn push_payment(&mut self, p: PaymentRecord)
        ensures
            final(self)@ == (StateView { payments: old(self)@.payments.push(p), ..old(self)@ }),
    {
        self.payments.push(p);
    }

    pub(crate) fn set_admin(&mut self, admin: Option<Identity>)
        ensures
            final(self)@ == (StateView { admin, ..old(self)@ }),
    {
        self.admin = admin;
    }

    /// Sets the agreement, payment and dispute counters.
    pub(crate) fn set_counters(&mut self, agreements: u32, payments: u32, disputes: u32)
        ensures
            final(self)@ == (StateView {
                agreement_count: agreements,
                payment_count: payments,
                dispute_count: disputes,
                ..old(self)@
            }),
    {
        self.agreement_count = agreements;
        self.payment_count = payments;
        self.dispute_count = disputes;
    }

    pub fn admin(&self) -> (r: &Option<Identity>)
        ensures
            *r == self@.admin,
    {
        &self.admin
    }

    pub fn agreement_count(&self) -> (r: u32)
        ensures
            r == self@.agreement_count,
    {
        self.agreement_count
    }

    pub fn payment_count(&self) -> (r: u32)
        ensures
            r == self@.payment_count,
    {
        self.payment_count
    }

    pub fn dispute_count(&self) -> (r: u32)
        ensures
            r == self@.dispute_count,
    {
        self.dispute_count
    }
}

/// In a well-formed state, a stored record with agreement id `id` and number
/// `n` is the `n`-th entry of that agreement's history.
pub proof fn lemma_stored_payment(s: StateView, id: Seq<char>, n: u32, k: int)
    requires
        s.wf(),
        0 <= k < s.payments.len(),
        s.payments[k].agreement_id@ == id,
        s.payments[k].payment_number == n,
    ensures
        s.has_payment(id, n),
        s.payment(id, n) == s.payments[k],
{
    assert(s.has_agreement(s.payments[k].agreement_id@));
    let i = choose|i: int| 0 <= i < s.agreements.len() && #[trigger] s.agreements[i].agreement_id@ == id;
    assert(history_matches(s.agreements[i], s.payments_of(id)));
    s.payments.lemma_filter_contains(of_agreement(id), k);
    let j = choose|j: int| 0 <= j < s.payments_of(id).len() && s.payments_of(id)[j] == s.payments[k];
    assert(s.payments_of(id)[j].payment_number == j + 1);
}

/// In a well-formed state, the `n`-th entry of an agreement's history is a
/// stored record with that agreement's id and number `n`.
pub proof fn lemma_payment_is_stored(s: StateView, id: Seq<char>, n: u32)
    requires
        s.wf(),
        s.has_payment(id, n),
    ensures
        s.payment(id, n).agreement_id@ == id,
        s.payment(id, n).payment_number == n,
        s.payments.contains(s.payment(id, n)),
{
    let p = s.payment(id, n);
    s.payments.lemma_filter_pred(of_agreement(id), n - 1);
    assert(s.payments_of(id).contains(p));
    s.payments.lemma_filter_contains_rev(of_agreement(id), p);
    let k = choose|k: int| 0 <= k < s.payments.len() && s.payments[k] == p;
    assert(s.has_agreement(s.payments[k].agreement_id@));
    let i = choose|i: int| 0 <= i < s.agreements.len() && #[trigger] s.agreements[i].agreement_id@ == id;
    assert(history_matches(s.agreements[i], s.payments_of(id)));
    assert(s.payments_of(id)[n - 1].payment_number == n - 1 + 1);
}

/// Appending a record extends the history of its own agreement and leaves
/// every other history as it was.
pub proof fn lemma_filter_push(s: Seq<PaymentRecord>, x: PaymentRecord, id: Seq<char>)
    ensures
        s.push(x).filter(of_agreement(id)) == (if x.agreement_id@ == id {
            s.filter(of_agreement(id)).push(x)
        } else {
            s.filter(of_agreement(id))
        }),
{
    reveal(Seq::filter);
    assert(s.push(x).drop_last() =~= s);
}

/// The total of a history grows by the amount of a record appended to it.
pub proof fn lemma_total_push(h: Seq<PaymentRecord>, x: PaymentRecord)
    ensures
        total_amount(h.push(x)) == total_amount(h) + x.amount,
{
    assert(h.push(x).drop_last() =~= h);
}

} // verus!
