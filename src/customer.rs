//! Customers and their cards, as the card gateway describes them.
use vstd::prelude::*;

verus! {

/// A new card customer with a card token.
#[derive(Clone, Debug)]
pub struct NewCustomerWithSourceRequest {
    pub email: Option<String>,
    pub card_token: String,
}

/// Changes to a card customer.
#[derive(Clone, Debug)]
pub struct UpdateCustomerRequest {
    pub email: Option<String>,
    pub card_token: Option<String>,
}

#[derive(Clone, Copy, Debug, PartialEq, Eq, Structural)]
pub enum CardBrand {
    AmericanExpress,
    DinersClub,
    Discover,
    JCB,
    Visa,
    MasterCard,
    UnionPay,
    Unknown,
}

/// A customer's card.
#[derive(Clone, Debug)]
pub struct Card {
    pub id: String,
    pub brand: CardBrand,
    pub country: String,
    pub customer: Option<String>,
    pub exp_month: u32,
    pub exp_year: u32,
    pub last4: String,
    pub name: Option<String>,
}

} // verus!
