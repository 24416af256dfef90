//! Error kinds of the payment engine.
use vstd::prelude::*;
use crate::currency::Currency;

verus! {

/// What went wrong inside the engine (reported as an internal error).
#[derive(Clone, Copy, Debug, PartialEq, Eq, Structural)]
pub enum InternalReason {
    /// An exact amount did not fit the machine integers.
    Overflow,
    /// Paying a crypto order with fiat, or the reverse.
    FiatCryptoMix,
    /// The crypto gateway is not configured.
    NotConfigured,
    /// An amount in a webhook is not a decimal number.
    AmountFormat,
    /// An amount is not a whole number of minor units, or is too large.
    AmountConversion,
    /// A row that must exist is missing.
    MissingRow,
    /// A row with this id already exists.
    DuplicateId,
}

/// The error taxonomy: each kind maps to one HTTP status.
#[derive(Clone, Copy, Debug, PartialEq, Eq, Structural)]
pub enum BillingError {
    NotFound,
    Validation { buyer_currency: Currency, seller_currency: Currency },
    Forbidden,
    AlreadyApplied,
    Internal(InternalReason),
}

pub open spec fn spec_http_status(e: BillingError) -> u16 {
    match e {
        BillingError::NotFound => 404,
        BillingError::Validation { .. } => 400,
        BillingError::Forbidden => 403,
        BillingError::AlreadyApplied => 500,
        BillingError::Internal(_) => 500,
    }
}

impl BillingError {
    /// The HTTP status that the error surfaces as.
    pub fn http_status(&self) -> (r: u16)
        ensures
            r == spec_http_status(*self),
    {
        match self {
            BillingError::NotFound => 404,
            BillingError::Validation { .. } => 400,
            BillingError::Forbidden => 403,
            BillingError::AlreadyApplied => 500,
            BillingError::Internal(_) => 500,
        }
    }
}

} // verus!
