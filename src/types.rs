use vstd::prelude::*;

verus! {

/// An account on the host, held as its textual key.
#[derive(Debug, PartialEq, Eq)]
pub struct Identity {
    pub key: String,
}

impl Identity {
    pub fn new(key: String) -> (r: Identity)
        ensures
            r.key == key,
    {
        Identity { key }
    }
}

impl Clone for Identity {
    fn clone(&self) -> (r: Identity)
        ensures
            r == *self,
    {
        Identity { key: self.key.clone() }
    }
}

/// Where an agreement stands in its lifecycle. Only `Active` accepts payments.
#[derive(Debug, Clone, Copy, PartialEq, Eq, Structural)]
pub enum AgreementStatus {
    Draft,
    Active,
    Completed,
    Terminated,
    Disputed,
}

/// Every way an operation of the contract can fail.
#[derive(Debug, Clone, Copy, PartialEq, Eq, Structural)]
pub enum Error {
    /// An admin is already stored.
    AlreadyInitialized,
    /// No admin has been stored yet.
    NotInitialized,
    /// A rent that is not positive, or a payment that is not exactly the rent.
    InvalidAmount,
    /// A start date that is not before the end date.
    InvalidDateRange,
    /// A commission rate above 10000 basis points (the whole payment).
    InvalidCommissionRate,
    /// An agreement is already stored under the id.
    DuplicateAgreement,
    AgreementNotFound,
    PaymentNotFound,
    /// The agreement does not accept payments in its current status.
    AgreementNotActive,
    /// The host refused the tenant's authorization.
    NotAuthorized,
    /// The host could not carry out a transfer.
    PaymentFailed,
    /// The lifecycle does not allow the requested status change.
    InvalidStatusTransition,
    /// A counter or a total has reached the largest value it can hold.
    CounterOverflow,
}

} // verus!
