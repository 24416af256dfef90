//! Identifiers of the ledger's rows.
use vstd::prelude::*;

verus! {

/// Relies on uuid's `Uuid::new_v4`: a random identifier, of which nothing is known.
#[verifier::external_body]
fn random_id() -> (r: u128) {
    uuid::Uuid::new_v4().as_u128()
}

/// An invoice; it is the saga id of the checkout that created it.
#[derive(Clone, Copy, Debug, PartialEq, Eq, Structural, Hash)]
pub struct InvoiceId(pub u128);

/// An order of an invoice.
#[derive(Clone, Copy, Debug, PartialEq, Eq, Structural, Hash)]
pub struct OrderId(pub u128);

/// A pooled wallet account of the crypto gateway.
#[derive(Clone, Copy, Debug, PartialEq, Eq, Structural, Hash)]
pub struct AccountId(pub u128);

/// An entry of the event journal.
#[derive(Clone, Copy, Debug, PartialEq, Eq, Structural, Hash)]
pub struct EventId(pub u128);

/// A rate reservation of the crypto gateway.
#[derive(Clone, Copy, Debug, PartialEq, Eq, Structural, Hash)]
pub struct ExchangeId(pub u128);

/// A user wallet.
#[derive(Clone, Copy, Debug, PartialEq, Eq, Structural, Hash)]
pub struct UserWalletId(pub u128);

/// An inbound blockchain transaction, as the gateway names it.
#[derive(Clone, Copy, Debug, PartialEq, Eq, Structural, Hash)]
pub struct TransactionId(pub u128);

/// A store of the marketplace.
#[derive(Clone, Copy, Debug, PartialEq, Eq, Structural, Hash)]
pub struct StoreId(pub i32);

impl InvoiceId {
    pub fn new(id: u128) -> (r: Self)
        ensures
            r.0 == id,
    {
        InvoiceId(id)
    }

    pub fn inner(&self) -> (r: u128)
        ensures
            r == self.0,
    {
        self.0
    }
}

impl OrderId {
    pub fn new(id: u128) -> (r: Self)
        ensures
            r.0 == id,
    {
        OrderId(id)
    }

    pub fn inner(&self) -> (r: u128)
        ensures
            r == self.0,
    {
        self.0
    }

    pub fn into_inner(self) -> (r: u128)
        ensures
            r == self.0,
    {
        self.0
    }

    pub fn generate() -> (r: Self) {
        OrderId(random_id())
    }
}

impl AccountId {
    pub fn new(id: u128) -> (r: Self)
        ensures
            r.0 == id,
    {
        AccountId(id)
    }

    pub fn inner(&self) -> (r: u128)
        ensures
            r == self.0,
    {
        self.0
    }

    pub fn into_inner(self) -> (r: u128)
        ensures
            r == self.0,
    {
        self.0
    }

    pub fn generate() -> (r: Self) {
        AccountId(random_id())
    }
}

impl EventId {
    pub fn new(id: u128) -> (r: Self)
        ensures
            r.0 == id,
    {
        EventId(id)
    }

    pub fn inner(&self) -> (r: u128)
        ensures
            r == self.0,
    {
        self.0
    }

    pub fn generate() -> (r: Self) {
        EventId(random_id())
    }
}

impl ExchangeId {
    pub fn new(id: u128) -> (r: Self)
        ensures
            r.0 == id,
    {
        ExchangeId(id)
    }

    pub fn inner(&self) -> (r: u128)
        ensures
            r == self.0,
    {
        self.0
    }

    pub fn generate() -> (r: Self) {
        ExchangeId(random_id())
    }
}

impl UserWalletId {
    pub fn new(id: u128) -> (r: Self)
        ensures
            r.0 == id,
    {
        UserWalletId(id)
    }

    pub fn inner(&self) -> (r: u128)
        ensures
            r == self.0,
    {
        self.0
    }

    pub fn into_inner(self) -> (r: u128)
        ensures
            r == self.0,
    {
        self.0
    }

    pub fn generate() -> (r: Self) {
        UserWalletId(random_id())
    }
}

impl TransactionId {
    pub fn new(id: u128) -> (r: Self)
        ensures
            r.0 == id,
    {
        TransactionId(id)
    }
}

impl StoreId {
    pub fn new(id: i32) -> (r: Self)
        ensures
            r.0 == id,
    {
        StoreId(id)
    }

    pub fn inner(&self) -> (r: i32)
        ensures
            r == self.0,
    {
        self.0
    }
}

/// The blockchain address of a wallet; unique among accounts.
#[derive(Clone, Debug)]
pub struct WalletAddress(pub String);

impl WalletAddress {
    pub open spec fn view(&self) -> Seq<char> {
        self.0@
    }

    pub fn new(address: String) -> (r: Self)
        ensures
            r@ == address@,
    {
        WalletAddress(address)
    }

    pub fn inner(&self) -> (r: &str)
        ensures
            r@ == self@,
    {
        self.0.as_str()
    }

    pub fn into_inner(self) -> (r: String)
        ensures
            r@ == self@,
    {
        self.0
    }
}

/// A payment intent of the card gateway (`pi_...`).
#[derive(Clone, Debug)]
pub struct PaymentIntentId(pub String);

/// A payout to a seller.
#[derive(Clone, Copy, Debug, PartialEq, Eq, Structural, Hash)]
pub struct PayoutId(pub u128);

} // verus!
