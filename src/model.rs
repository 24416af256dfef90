//! Rows of the ledger: invoices, orders, exchange rates, accounts and fees.
use vstd::prelude::*;
use crate::currency::{Currency, TureCurrency};
use crate::ids::{AccountId, ExchangeId, InvoiceId, OrderId, StoreId, WalletAddress};

verus! {

/// An exchange rate `num / den`: buyer super-units = seller super-units / rate.
#[derive(Clone, Copy, Debug)]
pub struct Rate {
    pub num: u64,
    pub den: u64,
}

impl Rate {
    /// A rate is a positive number.
    pub open spec fn wf(&self) -> bool {
        self.num > 0 && self.den > 0
    }

    /// The 1:1 rate used when buyer and seller pay in the same currency.
    pub fn one() -> (r: Rate)
        ensures
            r.num == 1 && r.den == 1,
    {
        Rate { num: 1, den: 1 }
    }
}

#[derive(Clone, Copy, Debug, PartialEq, Eq, Structural)]
pub enum RateStatus {
    Active,
    Expired,
}

/// One version of an order's exchange rate. Without an exchange id it is the
/// dummy 1:1 rate of a same-currency order.
#[derive(Clone, Copy, Debug)]
pub struct OrderExchangeRate {
    pub id: u64,
    pub order_id: OrderId,
    pub exchange_id: Option<ExchangeId>,
    pub rate: Rate,
    pub status: RateStatus,
}

/// A rate to be stored as the order's new active rate.
#[derive(Clone, Copy, Debug)]
pub struct NewOrderExchangeRate {
    pub order_id: OrderId,
    pub exchange_id: Option<ExchangeId>,
    pub rate: Rate,
}

#[derive(Clone, Copy, Debug, PartialEq, Eq, Structural)]
pub enum PaymentState {
    Initial,
    Captured,
    Refunded,
}

/// One seller's part of an invoice; amounts in the seller currency's minor units.
#[derive(Clone, Copy, Debug)]
pub struct Order {
    pub id: OrderId,
    pub invoice_id: InvoiceId,
    pub seller_currency: Currency,
    pub total_amount: u128,
    pub cashback_amount: u128,
    pub store_id: StoreId,
    pub state: PaymentState,
    pub stripe_fee: Option<u128>,
}

/// A customer checkout. `amount_captured` is in the buyer currency's minor units.
#[derive(Clone, Copy, Debug)]
pub struct Invoice {
    pub id: InvoiceId,
    pub buyer_user_id: i32,
    pub buyer_currency: Currency,
    pub amount_captured: u128,
    pub account_id: Option<AccountId>,
    pub final_amount_paid: Option<u128>,
    pub final_cashback_amount: Option<u128>,
    pub paid_at: Option<i64>,
    pub expired: bool,
}

impl Invoice {
    /// The three final fields are set together, when the invoice is paid.
    pub open spec fn wf(&self) -> bool {
        &&& self.paid_at.is_some() == self.final_amount_paid.is_some()
        &&& self.paid_at.is_some() == self.final_cashback_amount.is_some()
    }

    pub open spec fn is_paid(&self) -> bool {
        self.paid_at.is_some()
    }

    pub open spec fn spec_new(
        id: InvoiceId,
        buyer_user_id: i32,
        buyer_currency: Currency,
        account_id: Option<AccountId>,
    ) -> Invoice {
        Invoice {
            id,
            buyer_user_id,
            buyer_currency,
            amount_captured: 0,
            account_id,
            final_amount_paid: None,
            final_cashback_amount: None,
            paid_at: None,
            expired: false,
        }
    }

    /// A new invoice: nothing captured and not paid.
    pub fn new(
        id: InvoiceId,
        buyer_user_id: i32,
        buyer_currency: Currency,
        account_id: Option<AccountId>,
    ) -> (r: Invoice)
        ensures
            r == Invoice::spec_new(id, buyer_user_id, buyer_currency, account_id),
            r.wf(),
            r.id == id,
            r.buyer_user_id == buyer_user_id,
            r.buyer_currency == buyer_currency,
            r.account_id == account_id,
            r.amount_captured == 0,
            !r.is_paid(),
            !r.expired,
    {
        Invoice {
            id,
            buyer_user_id,
            buyer_currency,
            amount_captured: 0,
            account_id,
            final_amount_paid: None,
            final_cashback_amount: None,
            paid_at: None,
            expired: false,
        }
    }
}

/// A pooled wallet issued by the crypto gateway.
#[derive(Clone, Debug)]
pub struct Account {
    pub id: AccountId,
    pub currency: TureCurrency,
    pub is_pooled: bool,
    pub wallet_address: WalletAddress,
}

#[derive(Clone, Debug, PartialEq, Eq, Structural)]
pub enum SystemAccountType {
    Main,
    Cashback,
}

#[derive(Clone, Copy, Debug, PartialEq, Eq, Structural)]
pub enum FeeStatus {
    NotPaid,
    Paid,
    Fail,
}

/// The marketplace's commission on one order.
#[derive(Clone, Copy, Debug)]
pub struct Fee {
    /// Its position in the ledger, set when it is stored.
    pub id: u64,
    pub order_id: OrderId,
    pub currency: Currency,
    pub amount: u128,
    pub status: FeeStatus,
    pub crypto_currency: Option<Currency>,
    pub crypto_amount: Option<u128>,
}

/// An account of the platform itself.
#[derive(Clone, Debug)]
pub struct SystemAccount {
    pub id: AccountId,
    pub currency: TureCurrency,
    pub account_type: SystemAccountType,
}

/// The platform's own accounts.
#[derive(Clone, Debug)]
pub struct SystemAccounts(pub Vec<SystemAccount>);

impl SystemAccounts {
    /// The main STQ, ETH and BTC accounts and the STQ cashback account.
    pub fn from_ids(main_stq: AccountId, main_eth: AccountId, main_btc: AccountId, cashback_stq: AccountId) -> (r:
        SystemAccounts)
        ensures
            r.0@.len() == 4,
            r.0@[0].id == main_stq && r.0@[0].currency == TureCurrency::Stq && r.0@[0].account_type == SystemAccountType::Main,
            r.0@[1].id == main_eth && r.0@[1].currency == TureCurrency::Eth && r.0@[1].account_type == SystemAccountType::Main,
            r.0@[2].id == main_btc && r.0@[2].currency == TureCurrency::Btc && r.0@[2].account_type == SystemAccountType::Main,
            r.0@[3].id == cashback_stq && r.0@[3].currency == TureCurrency::Stq && r.0@[3].account_type
                == SystemAccountType::Cashback,
    {
        let mut v: Vec<SystemAccount> = Vec::new();
        v.push(SystemAccount { id: main_stq, currency: TureCurrency::Stq, account_type: SystemAccountType::Main });
        v.push(SystemAccount { id: main_eth, currency: TureCurrency::Eth, account_type: SystemAccountType::Main });
        v.push(SystemAccount { id: main_btc, currency: TureCurrency::Btc, account_type: SystemAccountType::Main });
        v.push(SystemAccount { id: cashback_stq, currency: TureCurrency::Stq, account_type: SystemAccountType::Cashback });
        SystemAccounts(v)
    }

    /// The first account of the given currency and type.
    pub fn get(&self, currency: TureCurrency, account_type: SystemAccountType) -> (r: Option<AccountId>)
        ensures
            r matches Some(a) ==> exists|i: int|
                0 <= i < self.0@.len() && (#[trigger] self.0@[i]).id == a && self.0@[i].currency == currency
                    && self.0@[i].account_type == account_type && forall|k: int|
                    0 <= k < i ==> !((#[trigger] self.0@[k]).currency == currency && self.0@[k].account_type == account_type),
            r.is_none() ==> forall|k: int|
                0 <= k < self.0@.len() ==> !((#[trigger] self.0@[k]).currency == currency && self.0@[k].account_type == account_type),
    {
        let mut i: usize = 0;
        while i < self.0.len()
            invariant
                0 <= i <= self.0@.len(),
                forall|k: int|
                    0 <= k < i ==> !((#[trigger] self.0@[k]).currency == currency && self.0@[k].account_type == account_type),
            decreases self.0@.len() - i,
        {
            if self.0[i].currency == currency && self.0[i].account_type == account_type {
                return Some(self.0[i].id);
            }
            i = i + 1;
        }
        None
    }
}

/// How an order's seller is paid.
#[derive(Clone, Copy, Debug)]
pub enum OrderPaymentKind {
    Crypto { crypto_currency: TureCurrency },
    Fiat { currency: Currency, stripe_fee: Option<u128> },
}

impl Order {
    /// Crypto orders name their gateway currency; fiat ones carry the card fee.
    pub fn payment_kind(&self) -> (r: OrderPaymentKind)
        ensures
            match crate::currency::spec_ture_of(self.seller_currency) {
                Some(t) => r matches OrderPaymentKind::Crypto { crypto_currency } && crypto_currency == t,
                None => r matches OrderPaymentKind::Fiat { currency, stripe_fee } && currency == self.seller_currency
                    && stripe_fee == self.stripe_fee,
            },
    {
        match self.seller_currency.to_ture() {
            Some(crypto_currency) => OrderPaymentKind::Crypto { crypto_currency },
            None => OrderPaymentKind::Fiat { currency: self.seller_currency, stripe_fee: self.stripe_fee },
        }
    }
}

} // verus!
