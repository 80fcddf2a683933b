use crate::agreement::{valid_terms, Agreement, PaymentRecord};
use crate::split::{agent_share, calculate_payment_split, landlord_share, lemma_split_conserves};
use crate::state::{
    history_matches, lemma_filter_push, lemma_total_push, ContractState, StateView,
};
use crate::types::{AgreementStatus, Error, Identity};
use vstd::prelude::*;

verus! {

/// Settles rent payments against stored agreements.
pub struct RentalContract;

/// What the host reports after it was asked to authorize the tenant and move
/// the funds of a settlement.
#[derive(Debug, Clone, Copy, PartialEq, Eq, Structural)]
pub enum HostOutcome {
    /// The tenant authorized the payment and every transfer went through.
    Settled,
    /// The tenant's authorization was refused.
    Unauthorized,
    /// A token transfer failed.
    TransferFailed,
}

/// A movement of `amount` tokens from one account to another.
#[derive(Debug, PartialEq, Eq)]
pub struct Transfer {
    pub from: Identity,
    pub to: Identity,
    pub amount: i128,
}

/// What the host must do to settle a payment: have `payer` authorize it,
/// then perform `transfers` in order, in the token `token`.
#[derive(Debug, PartialEq, Eq)]
pub struct Settlement {
    pub payer: Identity,
    pub token: Identity,
    pub amount: i128,
    pub landlord_amount: i128,
    pub agent_amount: i128,
    pub transfers: Vec<Transfer>,
}

/// Why a payment of `amount` on the agreement stored under `id` is refused
/// before anything moves, in the order the checks are made; `None` when it
/// may go ahead.
pub open spec fn payment_check(s: StateView, id: Seq<char>, amount: i128) -> Option<Error> {
    if !s.has_agreement(id) {
        Some(Error::AgreementNotFound)
    } else if s.agreement(id).status != AgreementStatus::Active {
        Some(Error::AgreementNotActive)
    } else if amount != s.agreement(id).monthly_rent {
        Some(Error::InvalidAmount)
    } else {
        None
    }
}

/// The landlord always receives their share; the agent receives theirs only
/// when there is an agent and the share is not zero.
pub open spec fn planned_transfers(a: Agreement, amount: i128) -> Seq<Transfer> {
    let to_landlord = Transfer {
        from: a.tenant,
        to: a.landlord,
        amount: landlord_share(amount as int, a.commission_rate as int) as i128,
    };
    let agent_amount = agent_share(amount as int, a.commission_rate as int);
    match a.agent {
        Some(agent) if agent_amount > 0 => seq![
            to_landlord,
            Transfer { from: a.tenant, to: agent, amount: agent_amount as i128 },
        ],
        _ => seq![to_landlord],
    }
}

/// The counters touched by a payment can take one more step.
pub open spec fn payment_fits(s: StateView, id: Seq<char>, amount: i128) -> bool {
    let a = s.agreement(id);
    &&& a.total_rent_paid + amount <= i128::MAX
    &&& a.payment_count < u32::MAX
    &&& s.payment_count < u32::MAX
}

/// The outcome of [`RentalContract::pay_rent`].
pub open spec fn pay_rent_result(
    s: StateView,
    id: Seq<char>,
    amount: i128,
    outcome: HostOutcome,
) -> Result<(), Error> {
    match payment_check(s, id, amount) {
        Some(e) => Err(e),
        None => match outcome {
            HostOutcome::Unauthorized => Err(Error::NotAuthorized),
            HostOutcome::TransferFailed => Err(Error::PaymentFailed),
            HostOutcome::Settled => if payment_fits(s, id, amount) {
                Ok(())
            } else {
                Err(Error::CounterOverflow)
            },
        },
    }
}

/// The record of the next payment of `amount` on agreement `a`.
pub open spec fn next_record(a: Agreement, amount: i128, timestamp: u64) -> PaymentRecord {
    PaymentRecord {
        agreement_id: a.agreement_id,
        payment_number: (a.payment_count + 1) as u32,
        amount,
        landlord_amount: landlord_share(amount as int, a.commission_rate as int) as i128,
        agent_amount: agent_share(amount as int, a.commission_rate as int) as i128,
        timestamp,
        tenant: a.tenant,
    }
}

/// Agreement `a` after one more payment of `amount`.
pub open spec fn paid_once(a: Agreement, amount: i128) -> Agreement {
    Agreement {
        total_rent_paid: (a.total_rent_paid + amount) as i128,
        payment_count: (a.payment_count + 1) as u32,
        ..a
    }
}

/// The state after a successful payment of `amount` on the agreement stored
/// under `id`: its totals grow, its record is appended, the payment counter
/// steps, and nothing else changes.
pub open spec fn after_payment(s: StateView, id: Seq<char>, amount: i128, timestamp: u64) -> StateView {
    let i = s.index_of(id);
    let a = s.agreements[i];
    StateView {
        payment_count: (s.payment_count + 1) as u32,
        agreements: s.agreements.update(i, paid_once(a, amount)),
        payments: s.payments.push(next_record(a, amount, timestamp)),
        ..s
    }
}

proof fn lemma_payment_preserves_wf(s: StateView, id: Seq<char>, amount: i128, timestamp: u64)
    requires
        s.wf(),
        payment_check(s, id, amount).is_none(),
        payment_fits(s, id, amount),
    ensures
        after_payment(s, id, amount, timestamp).wf(),
{
    let t = after_payment(s, id, amount, timestamp);
    let i = s.index_of(id);
    let a = s.agreements[i];
    let rec = next_record(a, amount, timestamp);
    assert(valid_terms(a));
    lemma_split_conserves(amount as int, a.commission_rate as int);
    assert forall|k: int| 0 <= k < t.payments.len() implies t.has_agreement(
        #[trigger] t.payments[k].agreement_id@,
    ) by {
        if k < s.payments.len() {
            let pid = s.payments[k].agreement_id@;
            assert(s.has_agreement(pid));
            let j = choose|j: int| 0 <= j < s.agreements.len() && #[trigger] s.agreements[j].agreement_id@ == pid;
            assert(t.agreements[j].agreement_id@ == pid);
        } else {
            assert(t.agreements[i].agreement_id@ == id);
        }
    }
    assert forall|j: int| 0 <= j < t.agreements.len() implies history_matches(
        #[trigger] t.agreements[j],
        t.payments_of(t.agreements[j].agreement_id@),
    ) by {
        let jid = s.agreements[j].agreement_id@;
        lemma_filter_push(s.payments, rec, jid);
        assert(history_matches(s.agreements[j], s.payments_of(jid)));
        if j == i {
            lemma_total_push(s.payments_of(jid), rec);
        } else {
            if i < j {
                assert(s.agreements[i].agreement_id@ != s.agreements[j].agreement_id@);
            } else {
                assert(s.agreements[j].agreement_id@ != s.agreements[i].agreement_id@);
            }
        }
    }
    assert forall|i1: int, j1: int|
        0 <= i1 < j1 < t.agreements.len() implies #[trigger] t.agreements[i1].agreement_id@
            != #[trigger] t.agreements[j1].agreement_id@ by {
        assert(s.agreements[i1].agreement_id@ != s.agreements[j1].agreement_id@);
    }
    assert forall|j: int| 0 <= j < t.agreements.len() implies valid_terms(#[trigger] t.agreements[j]) by {
        assert(valid_terms(s.agreements[j]));
    }
    assert forall|k: int| 0 <= k < t.payments.len() implies #[trigger] t.payments[k].landlord_amount
        + t.payments[k].agent_amount == t.payments[k].amount by {
        if k < s.payments.len() {
            assert(s.payments[k].landlord_amount + s.payments[k].agent_amount == s.payments[k].amount);
        }
    }
}

/// Paying anything but the monthly rent on an active agreement is refused as an
/// invalid amount, whatever the host would report; the state is then left as
/// it was (see [`RentalContract::pay_rent`]).
pub proof fn lemma_wrong_amount_refused(s: StateView, id: Seq<char>, amount: i128, outcome: HostOutcome)
    requires
        s.has_agreement(id),
        s.agreement(id).status == AgreementStatus::Active,
        amount != s.agreement(id).monthly_rent,
    ensures
        pay_rent_result(s, id, amount, outcome) == Err::<(), Error>(Error::InvalidAmount),
{
}

/// Paying on an agreement that is not active is refused as such, whatever the
/// amount and whatever the host would report; the state is then left as it
/// was (see [`RentalContract::pay_rent`]).
pub proof fn lemma_inactive_refused(s: StateView, id: Seq<char>, amount: i128, outcome: HostOutcome)
    requires
        s.has_agreement(id),
        s.agreement(id).status != AgreementStatus::Active,
    ensures
        pay_rent_result(s, id, amount, outcome) == Err::<(), Error>(Error::AgreementNotActive),
{
}

/// A payment keeps the agreement where it was, and extends its history by
/// the new record.
proof fn lemma_payment_step(s: StateView, id: Seq<char>, amount: i128, timestamp: u64)
    requires
        s.wf(),
        payment_check(s, id, amount).is_none(),
        payment_fits(s, id, amount),
    ensures
        ({
            let t = after_payment(s, id, amount, timestamp);
            &&& t.wf()
            &&& t.has_agreement(id)
            &&& t.index_of(id) == s.index_of(id)
            &&& t.agreement(id) == paid_once(s.agreement(id), amount)
            &&& t.payments_of(id) == s.payments_of(id).push(next_record(s.agreement(id), amount, timestamp))
            &&& payment_check(t, id, amount).is_none()
        }),
{
    let t = after_payment(s, id, amount, timestamp);
    let i = s.index_of(id);
    lemma_payment_preserves_wf(s, id, amount, timestamp);
    assert(t.agreements[i].agreement_id@ == id);
    let k = t.index_of(id);
    if k < i {
        assert(t.agreements[k].agreement_id@ != t.agreements[i].agreement_id@);
    } else if i < k {
        assert(t.agreements[i].agreement_id@ != t.agreements[k].agreement_id@);
    }
    lemma_filter_push(s.payments, next_record(s.agreement(id), amount, timestamp), id);
}

/// Two successive successful payments of the same amount on one agreement add
/// twice the amount to its total and two to its count, and append two records
/// of that amount, numbered one after the other right after the earlier ones.
pub proof fn lemma_two_payments(s: StateView, id: Seq<char>, amount: i128, t1: u64, t2: u64)
    requires
        s.wf(),
        pay_rent_result(s, id, amount, HostOutcome::Settled) == Ok::<(), Error>(()),
        pay_rent_result(after_payment(s, id, amount, t1), id, amount, HostOutcome::Settled)
            == Ok::<(), Error>(()),
    ensures
        ({
            let s2 = after_payment(after_payment(s, id, amount, t1), id, amount, t2);
            let a = s.agreement(id);
            let h = s2.payments_of(id);
            &&& s2.wf()
            &&& s2.agreement(id).total_rent_paid == a.total_rent_paid + 2 * amount
            &&& s2.agreement(id).payment_count == a.payment_count + 2
            &&& h.len() == a.payment_count + 2
            &&& h[a.payment_count as int].payment_number == a.payment_count + 1
            &&& h[a.payment_count + 1].payment_number == a.payment_count + 2
            &&& h[a.payment_count as int].amount == amount
            &&& h[a.payment_count + 1].amount == amount
        }),
{
    let s1 = after_payment(s, id, amount, t1);
    lemma_payment_step(s, id, amount, t1);
    lemma_payment_step(s1, id, amount, t2);
    assert(history_matches(s.agreements[s.index_of(id)], s.payments_of(id)));
}

/// Builds the immutable receipt of one payment.
pub(crate) fn create_payment_record(
    agreement_id: &String,
    amount: i128,
    landlord_amount: i128,
    agent_amount: i128,
    tenant: &Identity,
    payment_number: u32,
    timestamp: u64,
) -> (r: PaymentRecord)
    ensures
        r == (PaymentRecord {
            agreement_id: *agreement_id,
            payment_number,
            amount,
            landlord_amount,
            agent_amount,
            timestamp,
            tenant: *tenant,
        }),
{
    PaymentRecord {
        agreement_id: agreement_id.clone(),
        payment_number,
        amount,
        landlord_amount,
        agent_amount,
        timestamp,
        tenant: tenant.clone(),
    }
}

impl RentalContract {
    /// Runs the checks that precede any movement of funds and finds the
    /// agreement the payment is for.
    fn validate_payment(state: &ContractState, agreement_id: &String, amount: i128) -> (r: Result<
        usize,
        Error,
    >)
        requires
            state@.wf(),
        ensures
            match payment_check(state@, agreement_id@, amount) {
                Some(e) => r == Err::<usize, Error>(e),
                None => {
                    &&& r.is_ok()
                    &&& r.unwrap() == state@.index_of(agreement_id@)
                    &&& r.unwrap() < state@.agreements.len()
                },
            },
    {
        let i = match state.find_agreement(agreement_id) {
            Some(i) => i,
            None => return Err(Error::AgreementNotFound),
        };
        let agreement = state.agreement_at(i);
        if agreement.status != AgreementStatus::Active {
            return Err(Error::AgreementNotActive);
        }
        if amount != agreement.monthly_rent {
            return Err(Error::InvalidAmount);
        }
        Ok(i)
    }

    /// Decides whether a payment of `amount` may go ahead and, if so, what the
    /// host must do for it: the tenant authorizes, then the landlord's share
    /// and, when there is an agent and the commission is not zero, the agent's
    /// share move from the tenant. Nothing is changed.
    pub fn settlement(
        state: &ContractState,
        agreement_id: &String,
        token: &Identity,
        amount: i128,
    ) -> (r: Result<Settlement, Error>)
        requires
            state@.wf(),
        ensures
            match payment_check(state@, agreement_id@, amount) {
                Some(e) => r == Err::<Settlement, Error>(e),
                None => r.is_ok(),
            },
            r.is_ok() ==> {
                let s = r.unwrap();
                let a = state@.agreement(agreement_id@);
                &&& s.payer == a.tenant
                &&& s.token == *token
                &&& s.amount == amount
                &&& s.landlord_amount == landlord_share(amount as int, a.commission_rate as int)
                &&& s.agent_amount == agent_share(amount as int, a.commission_rate as int)
                &&& s.transfers@ == planned_transfers(a, amount)
            },
    {
        let i = match Self::validate_payment(state, agreement_id, amount) {
            Ok(i) => i,
            Err(e) => return Err(e),
        };
        let agreement = state.agreement_at(i);
        proof {
            assert(valid_terms(state@.agreements[i as int]));
            assert(state@.agreement(agreement_id@) == state@.agreements[i as int]);
        }
        let (landlord_amount, agent_amount) = calculate_payment_split(
            &amount,
            &agreement.commission_rate,
        );
        let mut transfers: Vec<Transfer> = Vec::new();
        transfers.push(
            Transfer {
                from: agreement.tenant.clone(),
                to: agreement.landlord.clone(),
                amount: landlord_amount,
            },
        );
        if let Some(agent) = &agreement.agent {
            if agent_amount > 0 {
                transfers.push(
                    Transfer { from: agreement.tenant.clone(), to: agent.clone(), amount: agent_amount },
                );
            }
        }
        proof {
            assert(transfers@ =~= planned_transfers(state@.agreements[i as int], amount));
        }
        Ok(
            Settlement {
                payer: agreement.tenant.clone(),
                token: token.clone(),
                amount,
                landlord_amount,
                agent_amount,
                transfers,
            },
        )
    }

    /// Commits a rent payment of `amount` on the agreement stored under
    /// `agreement_id`, once the host has reported how authorization and the
    /// transfers of its [`RentalContract::settlement`] went.
    ///
    /// The payment is refused, with nothing changed, when the agreement is
    /// unknown or not active, when `amount` is not exactly the monthly rent,
    /// when the host reports a failure, or when a counter is full. Otherwise
    /// the agreement's total grows by `amount`, its payment count by one, a
    /// record numbered after the previous ones is appended with the exact
    /// commission split and `timestamp`, and the payment counter steps.
    pub fn pay_rent(
        state: &mut ContractState,
        agreement_id: &String,
        amount: i128,
        outcome: HostOutcome,
        timestamp: u64,
    ) -> (r: Result<(), Error>)
        requires
            old(state)@.wf(),
        ensures
            final(state)@.wf(),
            r == pay_rent_result(old(state)@, agreement_id@, amount, outcome),
            r.is_ok() ==> final(state)@ == after_payment(old(state)@, agreement_id@, amount, timestamp),
            r.is_err() ==> final(state)@ == old(state)@,
    {
        let i = match Self::validate_payment(state, agreement_id, amount) {
            Ok(i) => i,
            Err(e) => return Err(e),
        };
        match outcome {
            HostOutcome::Unauthorized => return Err(Error::NotAuthorized),
            HostOutcome::TransferFailed => return Err(Error::PaymentFailed),
            HostOutcome::Settled => {},
        }
        let ghost s0 = state@;
        let agreement = state.agreement_at(i);
        proof {
            assert(valid_terms(s0.agreements[i as int]));
            assert(s0.agreement(agreement_id@) == s0.agreements[i as int]);
        }
        if agreement.payment_count == u32::MAX || state.payment_count() == u32::MAX {
            return Err(Error::CounterOverflow);
        }
        let new_total = match agreement.total_rent_paid.checked_add(amount) {
            Some(t) => t,
            None => return Err(Error::CounterOverflow),
        };
        let (landlord_amount, agent_amount) = calculate_payment_split(
            &amount,
            &agreement.commission_rate,
        );
        let record = create_payment_record(
            &agreement.agreement_id,
            amount,
            landlord_amount,
            agent_amount,
            &agreement.tenant,
            agreement.payment_count + 1,
            timestamp,
        );
        let mut updated = agreement.clone();
        updated.total_rent_paid = new_total;
        updated.payment_count = agreement.payment_count + 1;
        let payments = state.payment_count() + 1;
        state.replace_agreement(i, updated);
        state.push_payment(record);
        state.set_counters(state.agreement_count(), payments, state.dispute_count());
        proof {
            assert(state@ == after_payment(s0, agreement_id@, amount, timestamp));
            lemma_payment_preserves_wf(s0, agreement_id@, amount, timestamp);
        }
        Ok(())
    }
}

} // verus!
