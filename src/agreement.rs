use crate::split::MAX_COMMISSION_RATE;
use crate::types::{AgreementStatus, Identity};
use vstd::prelude::*;

verus! {

/// A rental agreement between a landlord, a tenant and an optional agent.
#[derive(Debug, PartialEq, Eq)]
pub struct Agreement {
    pub agreement_id: String,
    pub landlord: Identity,
    pub tenant: Identity,
    pub agent: Option<Identity>,
    pub monthly_rent: i128,
    pub security_deposit: i128,
    pub start_date: u64,
    pub end_date: u64,
    /// Basis points of each payment that go to the agent.
    pub commission_rate: u32,
    pub status: AgreementStatus,
    pub total_rent_paid: i128,
    pub payment_count: u32,
}

impl Clone for Agreement {
    fn clone(&self) -> (r: Agreement)
        ensures
            r == *self,
    {
        Agreement {
            agreement_id: self.agreement_id.clone(),
            landlord: self.landlord.clone(),
            tenant: self.tenant.clone(),
            agent: match &self.agent {
                Some(agent) => Some(agent.clone()),
                None => None,
            },
            monthly_rent: self.monthly_rent,
            security_deposit: self.security_deposit,
            start_date: self.start_date,
            end_date: self.end_date,
            commission_rate: self.commission_rate,
            status: self.status,
            total_rent_paid: self.total_rent_paid,
            payment_count: self.payment_count,
        }
    }
}

/// The terms every stored agreement satisfies: positive rent, a non-empty
/// validity window and a commission rate within bounds.
pub open spec fn valid_terms(a: Agreement) -> bool {
    &&& a.monthly_rent > 0
    &&& a.start_date < a.end_date
    &&& a.commission_rate <= MAX_COMMISSION_RATE
}

/// The receipt of one settled rent payment. Never changed once created.
#[derive(Debug, PartialEq, Eq)]
pub struct PaymentRecord {
    pub agreement_id: String,
    /// One-based position of this payment among those of its agreement.
    pub payment_number: u32,
    pub amount: i128,
    pub landlord_amount: i128,
    pub agent_amount: i128,
    pub timestamp: u64,
    pub tenant: Identity,
}

impl Clone for PaymentRecord {
    fn clone(&self) -> (r: PaymentRecord)
        ensures
            r == *self,
    {
        PaymentRecord {
            agreement_id: self.agreement_id.clone(),
            payment_number: self.payment_number,
            amount: self.amount,
            landlord_amount: self.landlord_amount,
            agent_amount: self.agent_amount,
            timestamp: self.timestamp,
            tenant: self.tenant.clone(),
        }
    }
}

} // verus!
