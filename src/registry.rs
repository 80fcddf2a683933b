use crate::agreement::{valid_terms, Agreement, PaymentRecord};
use crate::split::MAX_COMMISSION_RATE;
use crate::state::{
    history_matches, lemma_payment_is_stored, lemma_stored_payment, of_agreement, total_amount,
    ContractState, StateView,
};
use crate::types::{AgreementStatus, Error, Identity};
use vstd::prelude::*;

verus! {

/// Initialization, the agreement registry and the read accessors.
pub struct ChiomaContract;

/// The state after a first initialization by `admin`: the admin is stored and
/// every counter reads zero.
pub open spec fn after_initialize(s: StateView, admin: Identity) -> StateView {
    StateView { admin: Some(admin), agreement_count: 0, payment_count: 0, dispute_count: 0, ..s }
}

/// The outcome of [`ChiomaContract::initialize`].
pub open spec fn initialize_result(s: StateView) -> Result<(), Error> {
    if s.admin.is_some() {
        Err(Error::AlreadyInitialized)
    } else {
        Ok(())
    }
}

/// Initialization succeeds exactly once: on a state without an admin it
/// succeeds and every counter then reads zero, and a second call fails with
/// `AlreadyInitialized`.
pub proof fn lemma_initialize_once(s: StateView, admin: Identity)
    requires
        s.admin.is_none(),
    ensures
        initialize_result(s) == Ok::<(), Error>(()),
        after_initialize(s, admin).agreement_count == 0,
        after_initialize(s, admin).payment_count == 0,
        after_initialize(s, admin).dispute_count == 0,
        initialize_result(after_initialize(s, admin)) == Err::<(), Error>(Error::AlreadyInitialized),
{
}

/// Why an agreement with these terms cannot be created under `id`, in the
/// order the checks are made; `None` when it can.
pub open spec fn creation_check(
    s: StateView,
    id: Seq<char>,
    monthly_rent: i128,
    start_date: u64,
    end_date: u64,
    commission_rate: u32,
) -> Option<Error> {
    if monthly_rent <= 0 {
        Some(Error::InvalidAmount)
    } else if start_date >= end_date {
        Some(Error::InvalidDateRange)
    } else if commission_rate > MAX_COMMISSION_RATE {
        Some(Error::InvalidCommissionRate)
    } else if s.has_agreement(id) {
        Some(Error::DuplicateAgreement)
    } else if s.agreement_count == u32::MAX {
        Some(Error::CounterOverflow)
    } else {
        None
    }
}

/// The lifecycle moves that [`ChiomaContract::update_status`] allows: a draft
/// becomes active or is terminated; an active agreement is completed,
/// terminated or disputed. Completed, terminated and disputed agreements stay
/// as they are.
pub open spec fn transition_allowed(from: AgreementStatus, to: AgreementStatus) -> bool {
    match (from, to) {
        (AgreementStatus::Draft, AgreementStatus::Active) => true,
        (AgreementStatus::Draft, AgreementStatus::Terminated) => true,
        (AgreementStatus::Active, AgreementStatus::Completed) => true,
        (AgreementStatus::Active, AgreementStatus::Terminated) => true,
        (AgreementStatus::Active, AgreementStatus::Disputed) => true,
        _ => false,
    }
}

proof fn lemma_no_history_for_unknown_id(s: StateView, id: Seq<char>)
    requires
        s.wf(),
        !s.has_agreement(id),
    ensures
        s.payments_of(id).len() == 0,
{
    if s.payments_of(id).len() > 0 {
        let p = s.payments_of(id)[0];
        s.payments.lemma_filter_pred(of_agreement(id), 0);
        assert(s.payments_of(id).contains(p));
        s.payments.lemma_filter_contains_rev(of_agreement(id), p);
        let k = choose|k: int| 0 <= k < s.payments.len() && s.payments[k] == p;
        assert(s.has_agreement(s.payments[k].agreement_id@));
    }
}

impl ChiomaContract {
    /// Stores the admin and resets every counter to zero. Only the first call
    /// succeeds; later ones fail with `AlreadyInitialized` and change nothing.
    pub fn initialize(state: &mut ContractState, admin: Identity) -> (r: Result<(), Error>)
        requires
            old(state)@.wf(),
        ensures
            final(state)@.wf(),
            r == initialize_result(old(state)@),
            r.is_ok() ==> final(state)@ == after_initialize(old(state)@, admin),
            r.is_err() ==> final(state)@ == old(state)@,
    {
        if state.admin().is_some() {
            return Err(Error::AlreadyInitialized);
        }
        state.set_admin(Some(admin));
        state.set_counters(0, 0, 0);
        Ok(())
    }

    /// The version of the contract.
    pub fn version() -> (r: String)
        ensures
            r@ == "1.0.0"@,
    {
        String::from_str("1.0.0")
    }

    /// Fails with `NotInitialized` until an admin has been stored.
    pub fn check_initialized(state: &ContractState) -> (r: Result<(), Error>)
        ensures
            r == (if state@.admin.is_some() {
                Ok::<(), Error>(())
            } else {
                Err(Error::NotInitialized)
            }),
    {
        if state.admin().is_none() {
            return Err(Error::NotInitialized);
        }
        Ok(())
    }

    /// Creates a draft agreement under `agreement_id`, with nothing paid yet.
    ///
    /// The rent must be positive, the start date before the end date, the
    /// commission rate at most `MAX_COMMISSION_RATE` basis points, and the
    /// id unused; each failure has its own error and changes nothing. On
    /// success the agreement counter steps by one.
    pub fn create_agreement(
        state: &mut ContractState,
        agreement_id: String,
        landlord: Identity,
        tenant: Identity,
        agent: Option<Identity>,
        monthly_rent: i128,
        security_deposit: i128,
        start_date: u64,
        end_date: u64,
        commission_rate: u32,
    ) -> (r: Result<(), Error>)
        requires
            old(state)@.wf(),
        ensures
            final(state)@.wf(),
            r == match creation_check(
                old(state)@,
                agreement_id@,
                monthly_rent,
                start_date,
                end_date,
                commission_rate,
            ) {
                Some(e) => Err::<(), Error>(e),
                None => Ok(()),
            },
            r.is_ok() ==> final(state)@ == (StateView {
                agreement_count: (old(state)@.agreement_count + 1) as u32,
                agreements: old(state)@.agreements.push(
                    Agreement {
                        agreement_id,
                        landlord,
                        tenant,
                        agent,
                        monthly_rent,
                        security_deposit,
                        start_date,
                        end_date,
                        commission_rate,
                        status: AgreementStatus::Draft,
                        total_rent_paid: 0,
                        payment_count: 0,
                    },
                ),
                ..old(state)@
            }),
            r.is_ok() ==> final(state)@.has_agreement(agreement_id@),
            r.is_err() ==> final(state)@ == old(state)@,
    {
        if monthly_rent <= 0 {
            return Err(Error::InvalidAmount);
        }
        if start_date >= end_date {
            return Err(Error::InvalidDateRange);
        }
        if commission_rate > MAX_COMMISSION_RATE {
            return Err(Error::InvalidCommissionRate);
        }
        if state.find_agreement(&agreement_id).is_some() {
            return Err(Error::DuplicateAgreement);
        }
        if state.agreement_count() == u32::MAX {
            return Err(Error::CounterOverflow);
        }
        let ghost s0 = state@;
        let ghost id = agreement_id@;
        let agreement = Agreement {
            agreement_id,
            landlord,
            tenant,
            agent,
            monthly_rent,
            security_deposit,
            start_date,
            end_date,
            commission_rate,
            status: AgreementStatus::Draft,
            total_rent_paid: 0,
            payment_count: 0,
        };
        let count = state.agreement_count() + 1;
        state.push_agreement(agreement);
        state.set_counters(count, state.payment_count(), state.dispute_count());
        proof {
            let s1 = state@;
            let n = s0.agreements.len() as int;
            assert(s1.agreements[n].agreement_id@ == id);
            lemma_no_history_for_unknown_id(s0, id);
            assert forall|i: int, j: int|
                0 <= i < j < s1.agreements.len() implies #[trigger] s1.agreements[i].agreement_id@
                    != #[trigger] s1.agreements[j].agreement_id@ by {
                if j < n {
                    assert(s0.agreements[i].agreement_id@ != s0.agreements[j].agreement_id@);
                } else {
                    assert(s0.agreements[i].agreement_id@ != id);
                }
            }
            assert forall|i: int| 0 <= i < s1.agreements.len() implies valid_terms(
                #[trigger] s1.agreements[i],
            ) by {
                if i < n {
                    assert(valid_terms(s0.agreements[i]));
                }
            }
            assert forall|k: int| 0 <= k < s1.payments.len() implies s1.has_agreement(
                #[trigger] s1.payments[k].agreement_id@,
            ) by {
                let pid = s0.payments[k].agreement_id@;
                assert(s0.has_agreement(pid));
                let j = choose|j: int| 0 <= j < s0.agreements.len() && #[trigger] s0.agreements[j].agreement_id@ == pid;
                assert(s1.agreements[j].agreement_id@ == pid);
            }
            assert forall|i: int| 0 <= i < s1.agreements.len() implies history_matches(
                #[trigger] s1.agreements[i],
                s1.payments_of(s1.agreements[i].agreement_id@),
            ) by {
                if i < n {
                    assert(history_matches(s0.agreements[i], s0.payments_of(s0.agreements[i].agreement_id@)));
                } else {
                    assert(s1.payments_of(id) =~= Seq::<PaymentRecord>::empty());
                    assert(total_amount(Seq::<PaymentRecord>::empty()) == 0);
                }
            }
        }
        Ok(())
    }

    /// Moves the agreement stored under `agreement_id` to `status`, where the
    /// lifecycle allows it. Only the status changes.
    pub fn update_status(
        state: &mut ContractState,
        agreement_id: &String,
        status: AgreementStatus,
    ) -> (r: Result<(), Error>)
        requires
            old(state)@.wf(),
        ensures
            final(state)@.wf(),
            !old(state)@.has_agreement(agreement_id@) ==> r == Err::<(), Error>(Error::AgreementNotFound),
            old(state)@.has_agreement(agreement_id@) ==> r == if transition_allowed(
                old(state)@.agreement(agreement_id@).status,
                status,
            ) {
                Ok::<(), Error>(())
            } else {
                Err(Error::InvalidStatusTransition)
            },
            r.is_ok() ==> final(state)@ == (StateView {
                agreements: old(state)@.agreements.update(
                    old(state)@.index_of(agreement_id@),
                    Agreement { status, ..old(state)@.agreement(agreement_id@) },
                ),
                ..old(state)@
            }),
            r.is_err() ==> final(state)@ == old(state)@,
    {
        let i = match state.find_agreement(agreement_id) {
            Some(i) => i,
            None => return Err(Error::AgreementNotFound),
        };
        let current = state.agreement_at(i);
        let allowed = match (current.status, status) {
            (AgreementStatus::Draft, AgreementStatus::Active) => true,
            (AgreementStatus::Draft, AgreementStatus::Terminated) => true,
            (AgreementStatus::Active, AgreementStatus::Completed) => true,
            (AgreementStatus::Active, AgreementStatus::Terminated) => true,
            (AgreementStatus::Active, AgreementStatus::Disputed) => true,
            _ => false,
        };
        if !allowed {
            return Err(Error::InvalidStatusTransition);
        }
        let ghost s0 = state@;
        let mut updated = current.clone();
        updated.status = status;
        state.replace_agreement(i, updated);
        proof {
            let s1 = state@;
            assert forall|a: int, b: int|
                0 <= a < b < s1.agreements.len() implies #[trigger] s1.agreements[a].agreement_id@
                    != #[trigger] s1.agreements[b].agreement_id@ by {
                assert(s0.agreements[a].agreement_id@ != s0.agreements[b].agreement_id@);
            }
            assert forall|j: int| 0 <= j < s1.agreements.len() implies valid_terms(
                #[trigger] s1.agreements[j],
            ) by {
                assert(valid_terms(s0.agreements[j]));
            }
            assert forall|k: int| 0 <= k < s1.payments.len() implies s1.has_agreement(
                #[trigger] s1.payments[k].agreement_id@,
            ) by {
                let pid = s0.payments[k].agreement_id@;
                assert(s0.has_agreement(pid));
                let j = choose|j: int| 0 <= j < s0.agreements.len() && #[trigger] s0.agreements[j].agreement_id@ == pid;
                assert(s1.agreements[j].agreement_id@ == pid);
            }
            assert forall|j: int| 0 <= j < s1.agreements.len() implies history_matches(
                #[trigger] s1.agreements[j],
                s1.payments_of(s1.agreements[j].agreement_id@),
            ) by {
                assert(history_matches(s0.agreements[j], s0.payments_of(s0.agreements[j].agreement_id@)));
            }
        }
        Ok(())
    }

    /// The agreement stored under `agreement_id`.
    pub fn get_agreement(state: &ContractState, agreement_id: &String) -> (r: Result<Agreement, Error>)
        requires
            state@.wf(),
        ensures
            state@.has_agreement(agreement_id@) ==> r == Ok::<Agreement, Error>(state@.agreement(agreement_id@)),
            !state@.has_agreement(agreement_id@) ==> r == Err::<Agreement, Error>(Error::AgreementNotFound),
    {
        match state.find_agreement(agreement_id) {
            Some(i) => Ok(state.agreement_at(i).clone()),
            None => Err(Error::AgreementNotFound),
        }
    }

    /// The record of payment number `payment_number` on the agreement stored
    /// under `agreement_id`.
    pub fn get_payment(
        state: &ContractState,
        agreement_id: &String,
        payment_number: u32,
    ) -> (r: Result<PaymentRecord, Error>)
        requires
            state@.wf(),
        ensures
            state@.has_payment(agreement_id@, payment_number) ==> r == Ok::<PaymentRecord, Error>(
                state@.payment(agreement_id@, payment_number),
            ),
            !state@.has_payment(agreement_id@, payment_number) ==> r == Err::<PaymentRecord, Error>(
                Error::PaymentNotFound,
            ),
    {
        let n = state.num_payments();
        let mut k: usize = 0;
        while k < n
            invariant
                state@.wf(),
                n == state@.payments.len(),
                0 <= k <= n,
                forall|j: int|
                    0 <= j < k ==> !(#[trigger] state@.payments[j].agreement_id@ == agreement_id@
                        && state@.payments[j].payment_number == payment_number),
            decreases n - k,
        {
            let p = state.payment_at(k);
            if p.payment_number == payment_number && p.agreement_id == *agreement_id {
                proof {
                    lemma_stored_payment(state@, agreement_id@, payment_number, k as int);
                }
                return Ok(p.clone());
            }
            k += 1;
        }
        proof {
            if state@.has_payment(agreement_id@, payment_number) {
                lemma_payment_is_stored(state@, agreement_id@, payment_number);
                let p = state@.payment(agreement_id@, payment_number);
                let j = choose|j: int| 0 <= j < state@.payments.len() && state@.payments[j] == p;
                assert(state@.payments[j].agreement_id@ == agreement_id@);
            }
        }
        Err(Error::PaymentNotFound)
    }

    /// The number of payments settled since initialization.
    pub fn get_payment_count(state: &ContractState) -> (r: u32)
        ensures
            r == state@.payment_count,
    {
        state.payment_count()
    }

    /// The cumulative rent paid on the agreement stored under `agreement_id`.
    pub fn get_total_paid(state: &ContractState, agreement_id: &String) -> (r: Result<i128, Error>)
        requires
            state@.wf(),
        ensures
            state@.has_agreement(agreement_id@) ==> r == Ok::<i128, Error>(
                state@.agreement(agreement_id@).total_rent_paid,
            ),
            !state@.has_agreement(agreement_id@) ==> r == Err::<i128, Error>(Error::AgreementNotFound),
    {
        match state.find_agreement(agreement_id) {
            Some(i) => Ok(state.agreement_at(i).total_rent_paid),
            None => Err(Error::AgreementNotFound),
        }
    }
}

} // verus!
