//! Currencies and their minor units.
use vstd::prelude::*;

verus! {

/// A currency of the platform: fiat ones are paid by card, crypto ones
/// on a pooled blockchain account.
#[derive(Clone, Copy, Debug, PartialEq, Eq, Structural, Hash)]
pub enum Currency {
    Eur,
    Usd,
    Rub,
    Stq,
    Eth,
    Btc,
}

/// A currency that the crypto gateway handles.
#[derive(Clone, Copy, Debug, PartialEq, Eq, Structural, Hash)]
pub enum TureCurrency {
    Stq,
    Eth,
    Btc,
}

pub open spec fn spec_is_fiat(c: Currency) -> bool {
    c == Currency::Eur || c == Currency::Usd || c == Currency::Rub
}

/// Number of decimal places between a super-unit and a minor unit
/// (cents, satoshi, wei).
pub open spec fn spec_decimals(c: Currency) -> nat {
    match c {
        Currency::Eur | Currency::Usd | Currency::Rub => 2,
        Currency::Btc => 8,
        Currency::Stq | Currency::Eth => 18,
    }
}

/// The number of minor units in one super-unit.
pub open spec fn spec_unit(c: Currency) -> nat {
    pow10(spec_decimals(c))
}

pub open spec fn pow10(n: nat) -> nat
    decreases n,
{
    if n == 0 {
        1
    } else {
        10 * pow10((n - 1) as nat)
    }
}

pub open spec fn spec_ture_of(c: Currency) -> Option<TureCurrency> {
    match c {
        Currency::Stq => Some(TureCurrency::Stq),
        Currency::Eth => Some(TureCurrency::Eth),
        Currency::Btc => Some(TureCurrency::Btc),
        _ => None,
    }
}

impl Currency {
    pub fn is_fiat(&self) -> (r: bool)
        ensures
            r == spec_is_fiat(*self),
    {
        match self {
            Currency::Eur | Currency::Usd | Currency::Rub => true,
            _ => false,
        }
    }

    pub fn decimals(&self) -> (r: u32)
        ensures
            r as nat == spec_decimals(*self),
    {
        match self {
            Currency::Eur | Currency::Usd | Currency::Rub => 2,
            Currency::Btc => 8,
            Currency::Stq | Currency::Eth => 18,
        }
    }

    /// Minor units in one super-unit: 100 for fiat, 10^8 for BTC, 10^18 for ETH and STQ.
    pub fn unit(&self) -> (r: u64)
        ensures
            r as nat == spec_unit(*self),
            r >= 1,
    {
        reveal_with_fuel(pow10, 19);
        match self {
            Currency::Eur | Currency::Usd | Currency::Rub => 100,
            Currency::Btc => 100_000_000,
            Currency::Stq | Currency::Eth => 1_000_000_000_000_000_000,
        }
    }

    /// The gateway's name for a crypto currency; `None` for fiat.
    pub fn to_ture(&self) -> (r: Option<TureCurrency>)
        ensures
            r == spec_ture_of(*self),
    {
        match self {
            Currency::Stq => Some(TureCurrency::Stq),
            Currency::Eth => Some(TureCurrency::Eth),
            Currency::Btc => Some(TureCurrency::Btc),
            _ => None,
        }
    }
}

impl TureCurrency {
    pub fn to_currency(&self) -> (r: Currency)
        ensures
            spec_ture_of(r) == Some(*self),
    {
        match self {
            TureCurrency::Stq => Currency::Stq,
            TureCurrency::Eth => Currency::Eth,
            TureCurrency::Btc => Currency::Btc,
        }
    }
}

pub proof fn lemma_unit_positive(c: Currency)
    ensures
        spec_unit(c) > 0,
{
    reveal_with_fuel(pow10, 19);
}

} // verus!
