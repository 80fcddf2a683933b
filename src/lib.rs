//! Rental agreements between a landlord, a tenant and an optional agent, and
//! the settlement of rent payments with an exact commission split.
//!
//! The library holds the contract's persisted state as a value of its own
//! ([`ContractState`]) and decides every operation on it. The host around it
//! (authorization, token transfers, the clock, events) stays with the caller:
//! [`RentalContract::settlement`] says what the host must do for a payment,
//! and [`RentalContract::pay_rent`] commits it once the host reports back.

pub mod agreement;
pub mod split;
pub mod payment;
pub mod registry;
pub mod state;
pub mod types;

pub use agreement::{Agreement, PaymentRecord};
pub use split::calculate_payment_split;
pub use registry::ChiomaContract;
pub use payment::{HostOutcome, RentalContract, Settlement, Transfer};
pub use state::ContractState;
pub use types::{AgreementStatus, Error, Identity};
