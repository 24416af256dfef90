//! Planning new orders and keeping their exchange rates current: the
//! decisions around the crypto gateway's rate reservations.
use vstd::prelude::*;
use crate::currency::{Currency, spec_is_fiat};
use crate::error::{BillingError, InternalReason};
use crate::ids::{ExchangeId, InvoiceId, OrderId, StoreId};
use crate::model::{Invoice, NewOrderExchangeRate, Order, OrderExchangeRate, PaymentState, Rate, RateStatus};
use crate::pricing::{OrderRates, calculate_invoice_price, payment_intent_amount, priceable, total_frac};

verus! {

/// One store's line of a checkout, in the seller's minor units.
#[derive(Clone, Copy, Debug)]
pub struct CreateOrder {
    pub id: OrderId,
    pub store_id: StoreId,
    pub currency: Currency,
    pub total_amount: u128,
    pub cashback_percent: Option<u64>,
}

/// An order ready to be stored, with its initial rate.
#[derive(Clone, Copy, Debug)]
pub struct PlannedOrder {
    pub order: Order,
    pub exchange_id: Option<ExchangeId>,
    pub rate: Rate,
}

/// Whether pricing an order needs a rate reserved with the crypto gateway:
/// buyer and seller pay in different crypto currencies.
pub open spec fn spec_needs_quote(buyer: Currency, seller: Currency) -> bool {
    !spec_is_fiat(buyer) && !spec_is_fiat(seller) && buyer != seller
}

pub fn needs_quote(buyer: Currency, seller: Currency) -> (r: bool)
    ensures
        r == spec_needs_quote(buyer, seller),
{
    !buyer.is_fiat() && !seller.is_fiat() && buyer != seller
}

/// The initial rate of an order: 1:1 without an exchange id when buyer and
/// seller currencies match; a reserved rate between two different crypto
/// currencies. Two different fiat currencies are a validation error; fiat
/// against crypto is not supported.
pub fn exchange_rate_for(buyer: Currency, seller: Currency, quote: Option<Quote>) -> (r: Result<
    (Option<ExchangeId>, Rate),
    BillingError,
>)
    ensures
        spec_is_fiat(buyer) != spec_is_fiat(seller) ==> r == Err::<(Option<ExchangeId>, Rate), BillingError>(
            BillingError::Internal(InternalReason::FiatCryptoMix),
        ),
        spec_is_fiat(buyer) && spec_is_fiat(seller) && buyer != seller ==> r == Err::<(Option<ExchangeId>, Rate), BillingError>(
            BillingError::Validation { buyer_currency: buyer, seller_currency: seller },
        ),
        spec_is_fiat(buyer) == spec_is_fiat(seller) && buyer == seller ==> (r matches Ok((x, rt)) && x.is_none() && rt.num == 1
            && rt.den == 1),
        spec_needs_quote(buyer, seller) ==> match quote {
            Some(q) => (r matches Ok((x, rt)) && x == Some(q.exchange_id) && rt == q.rate),
            None => r == Err::<(Option<ExchangeId>, Rate), BillingError>(BillingError::Internal(InternalReason::NotConfigured)),
        },
{
    match (buyer.is_fiat(), seller.is_fiat()) {
        (true, true) => if buyer == seller {
            Ok((None, Rate::one()))
        } else {
            Err(BillingError::Validation { buyer_currency: buyer, seller_currency: seller })
        },
        (false, false) => if buyer == seller {
            Ok((None, Rate::one()))
        } else {
            match quote {
                Some(q) => Ok((Some(q.exchange_id), q.rate)),
                None => Err(BillingError::Internal(InternalReason::NotConfigured)),
            }
        },
        _ => Err(BillingError::Internal(InternalReason::FiatCryptoMix)),
    }
}

/// Prepares an order of invoice `invoice_id`: its cashback is
/// `total_amount × cashback_percent / 100` (none without a percent), and its
/// rate as `exchange_rate_for` gives it.
pub fn plan_order(invoice_id: InvoiceId, buyer: Currency, o: &CreateOrder, quote: Option<Quote>) -> (r: Result<
    PlannedOrder,
    BillingError,
>)
    ensures
        r matches Ok(p) ==> {
            &&& p.order.id == o.id
            &&& p.order.invoice_id == invoice_id
            &&& p.order.seller_currency == o.currency
            &&& p.order.total_amount == o.total_amount
            &&& p.order.store_id == o.store_id
            &&& p.order.state == PaymentState::Initial
            &&& p.order.cashback_amount == match o.cashback_percent {
                None => 0,
                Some(pct) => o.total_amount * pct / 100,
            }
        },
        (o.cashback_percent matches Some(pct) && o.total_amount * pct > u128::MAX) ==> r == Err::<PlannedOrder, BillingError>(
            BillingError::Internal(InternalReason::Overflow),
        ),
        !(o.cashback_percent matches Some(pct) && o.total_amount * pct > u128::MAX) ==> match exchange_rate_for_spec(buyer, o.currency, quote) {
            Ok((x, rt)) => (r matches Ok(p) && p.exchange_id == x && p.rate == rt),
            Err(e) => r == Err::<PlannedOrder, BillingError>(e),
        },
{
    let cashback_amount = match o.cashback_percent {
        None => 0,
        Some(pct) => match o.total_amount.checked_mul(pct as u128) {
            None => {
                return Err(BillingError::Internal(InternalReason::Overflow));
            },
            Some(x) => x / 100,
        },
    };
    let (exchange_id, rate) = match exchange_rate_for(buyer, o.currency, quote) {
        Ok(x) => x,
        Err(e) => {
            return Err(e);
        },
    };
    let order = Order {
        id: o.id,
        invoice_id,
        seller_currency: o.currency,
        total_amount: o.total_amount,
        cashback_amount,
        store_id: o.store_id,
        state: PaymentState::Initial,
        stripe_fee: None,
    };
    Ok(PlannedOrder { order, exchange_id, rate })
}

/// The initial rate of an order, as `exchange_rate_for` returns it.
pub open spec fn exchange_rate_for_spec(buyer: Currency, seller: Currency, quote: Option<Quote>) -> Result<
    (Option<ExchangeId>, Rate),
    BillingError,
> {
    if spec_is_fiat(buyer) != spec_is_fiat(seller) {
        Err(BillingError::Internal(InternalReason::FiatCryptoMix))
    } else if buyer == seller {
        Ok((None, Rate { num: 1, den: 1 }))
    } else if spec_is_fiat(buyer) {
        Err(BillingError::Validation { buyer_currency: buyer, seller_currency: seller })
    } else {
        match quote {
            Some(q) => Ok((Some(q.exchange_id), q.rate)),
            None => Err(BillingError::Internal(InternalReason::NotConfigured)),
        }
    }
}

/// The initial rate row of a planned order.
pub open spec fn planned_row(p: PlannedOrder) -> OrderExchangeRate {
    OrderExchangeRate { id: 0, order_id: p.order.id, exchange_id: p.exchange_id, rate: p.rate, status: RateStatus::Active }
}

/// `s` is the planned orders, each with its initial rate only.
pub open spec fn planned_as_rates(planned: Seq<PlannedOrder>, s: Seq<OrderRates>) -> bool {
    &&& s.len() == planned.len()
    &&& forall|i: int| 0 <= i < s.len() ==> (#[trigger] s[i]).order == planned[i].order && s[i].rates@ == seq![planned_row(planned[i])]
}

/// The new rate that stores a planned order's initial rate.
pub open spec fn new_rate_of(p: PlannedOrder) -> NewOrderExchangeRate {
    NewOrderExchangeRate { order_id: p.order.id, exchange_id: p.exchange_id, rate: p.rate }
}

/// The planned orders priced as an invoice would be, each at its initial rate.
pub fn planned_rates(planned: &Vec<PlannedOrder>) -> (r: Vec<OrderRates>)
    ensures
        planned_as_rates(planned@, r@),
{
    let mut out: Vec<OrderRates> = Vec::new();
    let mut i: usize = 0;
    while i < planned.len()
        invariant
            0 <= i <= planned@.len(),
            out@.len() == i,
            forall|k: int| 0 <= k < i ==> (#[trigger] out@[k]).order == planned@[k].order && out@[k].rates@ == seq![planned_row(planned@[k])],
        decreases planned@.len() - i,
    {
        let p = planned[i];
        let rate = OrderExchangeRate {
            id: 0,
            order_id: p.order.id,
            exchange_id: p.exchange_id,
            rate: p.rate,
            status: RateStatus::Active,
        };
        let mut rates: Vec<OrderExchangeRate> = Vec::new();
        rates.push(rate);
        proof {
            assert(rates@ =~= seq![planned_row(planned@[i as int])]);
        }
        out.push(OrderRates { order: p.order, rates });
        i = i + 1;
    }
    out
}

pub open spec fn planned_wf(planned: Seq<PlannedOrder>, id: InvoiceId) -> bool {
    forall|i: int| 0 <= i < planned.len() ==> (#[trigger] planned[i]).rate.wf() && planned[i].order.invoice_id == id
}

/// The amount of the card payment for the planned orders: their exact total
/// in the buyer's minor units. A total that overflows is `Overflow`; one
/// that is not whole or exceeds `u64` is `AmountConversion`.
pub fn card_payment_amount(planned: &Vec<PlannedOrder>, buyer: Currency) -> (r: Result<u64, BillingError>)
    requires
        forall|i: int| 0 <= i < planned@.len() ==> (#[trigger] planned@[i]).rate.wf(),
    ensures
        exists|s: Seq<OrderRates>|
            #[trigger] planned_as_rates(planned@, s) && if !priceable(s, buyer) {
                r == Err::<u64, BillingError>(BillingError::Internal(InternalReason::Overflow))
            } else {
                let t = total_frac(s, buyer);
                &&& t.1 > 0
                &&& (r is Ok) == (t.0 % t.1 == 0 && t.0 / t.1 <= u64::MAX)
                &&& r matches Ok(a) ==> a as int * t.1 == t.0
                &&& r matches Err(e) ==> e == BillingError::Internal(InternalReason::AmountConversion)
            },
{
    let rated = planned_rates(planned);
    proof {
        assert forall|i: int, j: int| 0 <= i < rated@.len() && 0 <= j < rated@[i].rates@.len() implies (#[trigger] rated@[i].rates@[j]).rate.wf() by {
            assert(j == 0);
            assert(planned@[i].rate.wf());
        }
    }
    let dump = match calculate_invoice_price(Invoice::new(InvoiceId(0), 0, buyer, None), &rated, None) {
        Ok(d) => d,
        Err(e) => {
            return Err(e);
        },
    };
    proof {
        crate::pricing::lemma_total_den_positive(rated@, buyer);
    }
    payment_intent_amount(&dump.total_price)
}

/// When an invoice created at `now` expires: after the card timeout for a
/// fiat buyer, after the crypto timeout otherwise, in minutes; saturating.
pub open spec fn spec_expiry_deadline(now: i64, buyer: Currency, crypto_timeout_min: u32, fiat_timeout_min: u32) -> i64 {
    let t = now + 60 * (if spec_is_fiat(buyer) { fiat_timeout_min } else { crypto_timeout_min });
    if t > i64::MAX {
        i64::MAX
    } else {
        t as i64
    }
}

pub fn expiry_deadline(now: i64, buyer: Currency, crypto_timeout_min: u32, fiat_timeout_min: u32) -> (r: i64)
    ensures
        r == spec_expiry_deadline(now, buyer, crypto_timeout_min, fiat_timeout_min),
{
    let minutes = if buyer.is_fiat() { fiat_timeout_min } else { crypto_timeout_min };
    let t = now as i128 + 60 * minutes as i128;
    if t > i64::MAX as i128 {
        i64::MAX
    } else {
        t as i64
    }
}

/// Whether recalculating the invoice asks the crypto gateway about rates:
/// only an unpaid invoice with a crypto buyer does.
pub fn needs_rate_refresh(inv: &Invoice) -> (r: bool)
    ensures
        r == (!inv.is_paid() && !spec_is_fiat(inv.buyer_currency)),
{
    inv.paid_at.is_none() && !inv.buyer_currency.is_fiat()
}

/// What to do about an order's current rate before pricing.
#[derive(Clone, Copy, Debug)]
pub enum RateAction {
    /// The rate stays: a dummy 1:1 rate is never refreshed.
    Keep,
    /// Store this rate; no gateway call is needed.
    Store(NewOrderExchangeRate),
    /// Reserve a new rate with the gateway.
    Reserve,
    /// Ask the gateway to refresh this reservation.
    Refresh(ExchangeId),
}

/// A rate reserved by the crypto gateway.
#[derive(Clone, Copy, Debug)]
pub struct Quote {
    pub exchange_id: ExchangeId,
    pub rate: Rate,
}

/// The gateway's answer to a refresh: the current reservation, and whether
/// it differs from the one asked about.
#[derive(Clone, Copy, Debug)]
pub struct RateRefresh {
    pub quote: Quote,
    pub is_new_rate: bool,
}

/// Decides how to bring an order's rate up to date: an order without a rate
/// gets the dummy 1:1 rate when buyer and seller currencies match, else a new
/// reservation, except that the gateway holds no rates for a fiat seller
/// (`Internal(FiatCryptoMix)`); a dummy rate stays; a reserved rate is
/// refreshed.
pub fn reserve_or_refresh_rate(order: &Order, current: Option<OrderExchangeRate>, buyer: Currency) -> (r: Result<
    RateAction,
    BillingError,
>)
    ensures
        current.is_none() && spec_is_fiat(order.seller_currency) ==> r == Err::<RateAction, BillingError>(
            BillingError::Internal(InternalReason::FiatCryptoMix),
        ),
        current.is_none() && !spec_is_fiat(order.seller_currency) && order.seller_currency == buyer ==> (r matches Ok(
            RateAction::Store(n),
        ) && n.order_id == order.id && n.exchange_id.is_none() && n.rate.num == 1 && n.rate.den == 1),
        current.is_none() && !spec_is_fiat(order.seller_currency) && order.seller_currency != buyer ==> r matches Ok(
            RateAction::Reserve,
        ),
        current matches Some(c) ==> match c.exchange_id {
            None => r matches Ok(RateAction::Keep),
            Some(x) => r == Ok::<RateAction, BillingError>(RateAction::Refresh(x)),
        },
{
    match current {
        None => if order.seller_currency.is_fiat() {
            Err(BillingError::Internal(InternalReason::FiatCryptoMix))
        } else if order.seller_currency == buyer {
            Ok(RateAction::Store(NewOrderExchangeRate { order_id: order.id, exchange_id: None, rate: Rate::one() }))
        } else {
            Ok(RateAction::Reserve)
        },
        Some(c) => match c.exchange_id {
            None => Ok(RateAction::Keep),
            Some(x) => Ok(RateAction::Refresh(x)),
        },
    }
}

/// The new rate of an order from a reservation.
pub fn rate_from_quote(order: &Order, quote: Quote) -> (r: NewOrderExchangeRate)
    ensures
        r.order_id == order.id && r.exchange_id == Some(quote.exchange_id) && r.rate == quote.rate,
{
    NewOrderExchangeRate { order_id: order.id, exchange_id: Some(quote.exchange_id), rate: quote.rate }
}

/// The new rate of an order after a refresh: only a rate that changed is stored.
pub fn rate_from_refresh(order: &Order, refresh: RateRefresh) -> (r: Option<NewOrderExchangeRate>)
    ensures
        !refresh.is_new_rate ==> r.is_none(),
        refresh.is_new_rate ==> (r matches Some(n) && n.order_id == order.id && n.exchange_id == Some(
            refresh.quote.exchange_id,
        ) && n.rate == refresh.quote.rate),
{
    if refresh.is_new_rate {
        Some(rate_from_quote(order, refresh.quote))
    } else {
        None
    }
}

pub open spec fn all_rates_wf(rates: Seq<NewOrderExchangeRate>) -> bool {
    forall|i: int| 0 <= i < rates.len() ==> (#[trigger] rates[i]).rate.wf()
}

} // verus!
