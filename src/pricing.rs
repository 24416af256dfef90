//! The pricing engine: a pure function from an invoice, its orders and their
//! rates to the invoice's exact price in the buyer's currency.
use vstd::prelude::*;
use crate::currency::{Currency, spec_unit};
use crate::error::{BillingError, InternalReason};
use crate::ids::WalletAddress;
use crate::model::{Invoice, Order, OrderExchangeRate, Rate, RateStatus};

verus! {

/// An exact price `num / den` in minor units of the buyer's currency.
#[derive(Clone, Copy, Debug)]
pub struct Price {
    pub num: u128,
    pub den: u128,
}

impl Price {
    pub open spec fn view(&self) -> (int, int) {
        (self.num as int, self.den as int)
    }
}

/// An order with the rates the engine may use for it.
#[derive(Clone, Debug)]
pub struct OrderRates {
    pub order: Order,
    pub rates: Vec<OrderExchangeRate>,
}

/// The per-order breakdown of a priced invoice.
#[derive(Clone, Copy, Debug)]
pub struct OrderDump {
    pub order: Order,
    pub rate: Option<Rate>,
    pub price: Option<Price>,
}

/// A priced invoice.
#[derive(Clone, Debug)]
pub struct InvoiceDump {
    pub invoice: Invoice,
    pub orders: Vec<OrderDump>,
    pub total_price: Price,
    pub total_cashback: u128,
    pub has_missing_rates: bool,
    pub wallet_address: Option<WalletAddress>,
}

/// A fraction whose parts fit `u128`, with a positive denominator.
pub open spec fn fits(f: (int, int)) -> bool {
    0 <= f.0 <= u128::MAX && 0 < f.1 <= u128::MAX
}

/// The first active rate at or after index `i`.
pub open spec fn first_active_from(rates: Seq<OrderExchangeRate>, i: int) -> Option<Rate>
    decreases rates.len() - i,
{
    if i < 0 || i >= rates.len() {
        None
    } else if rates[i].status == RateStatus::Active {
        Some(rates[i].rate)
    } else {
        first_active_from(rates, i + 1)
    }
}

/// The rate that prices an order: its active rate, else 1:1 when the buyer
/// pays in the seller's currency, else none (a missing rate).
pub open spec fn effective_rate(o: Order, rates: Seq<OrderExchangeRate>, buyer: Currency) -> Option<Rate> {
    match first_active_from(rates, 0) {
        Some(r) => Some(r),
        None => if o.seller_currency == buyer {
            Some(Rate { num: 1, den: 1 })
        } else {
            None
        },
    }
}

/// An order's price in buyer minor units:
/// `total_amount / unit(seller) / rate * unit(buyer)`.
pub open spec fn order_frac(o: Order, r: Rate, buyer: Currency) -> (int, int) {
    (
        o.total_amount * r.den * spec_unit(buyer),
        spec_unit(o.seller_currency) * r.num,
    )
}

/// The sum of two fractions, keeping a shared denominator.
pub open spec fn frac_add(a: (int, int), b: (int, int)) -> (int, int) {
    if a.1 == b.1 {
        (a.0 + b.0, a.1)
    } else {
        (a.0 * b.1 + b.0 * a.1, a.1 * b.1)
    }
}

/// An order's price at its effective rate, if it has one.
pub open spec fn order_share(x: OrderRates, buyer: Currency) -> Option<(int, int)> {
    match effective_rate(x.order, x.rates@, buyer) {
        Some(r) => Some(order_frac(x.order, r, buyer)),
        None => None,
    }
}

/// The invoice total: the sum of the priced orders' prices.
pub open spec fn total_frac(s: Seq<OrderRates>, buyer: Currency) -> (int, int)
    decreases s.len(),
{
    if s.len() == 0 {
        (0, 1)
    } else {
        let p = total_frac(s.drop_last(), buyer);
        match order_share(s.last(), buyer) {
            Some(f) => frac_add(p, f),
            None => p,
        }
    }
}

/// Every price and partial sum of the total fits in `u128`.
pub open spec fn total_fits(s: Seq<OrderRates>, buyer: Currency) -> bool
    decreases s.len(),
{
    if s.len() == 0 {
        true
    } else {
        &&& total_fits(s.drop_last(), buyer)
        &&& match order_share(s.last(), buyer) {
            Some(f) => fits(f) && fits(frac_add(total_frac(s.drop_last(), buyer), f)),
            None => true,
        }
    }
}

/// The orders' cashback, summed (STQ minor units).
pub open spec fn cashback_sum(s: Seq<OrderRates>) -> int
    decreases s.len(),
{
    if s.len() == 0 {
        0
    } else {
        cashback_sum(s.drop_last()) + s.last().order.cashback_amount
    }
}

/// The orders' total amounts, summed.
pub open spec fn amount_sum(s: Seq<OrderRates>) -> int
    decreases s.len(),
{
    if s.len() == 0 {
        0
    } else {
        amount_sum(s.drop_last()) + s.last().order.total_amount
    }
}

/// Some order has no rate and a currency other than the buyer's.
pub open spec fn has_missing(s: Seq<OrderRates>, buyer: Currency) -> bool {
    exists|i: int| 0 <= i < s.len() && effective_rate(#[trigger] s[i].order, s[i].rates@, buyer).is_none()
}

/// Every rate of every order is positive.
pub open spec fn rates_wf(s: Seq<OrderRates>) -> bool {
    forall|i: int, j: int| 0 <= i < s.len() && 0 <= j < s[i].rates@.len() ==> (#[trigger] s[i].rates@[j]).rate.wf()
}

/// Whether the invoice can be priced within machine integers.
pub open spec fn priceable(s: Seq<OrderRates>, buyer: Currency) -> bool {
    total_fits(s, buyer) && cashback_sum(s) <= u128::MAX
}

/// `captured >= num / den`.
pub open spec fn spec_covers(captured: int, p: (int, int)) -> bool {
    captured * p.1 >= p.0
}

/// Rounds `num / den` to the nearest integer, ties to even.
pub open spec fn round_half_even(num: int, den: int) -> int {
    let q = num / den;
    let r = num % den;
    if 2 * r > den {
        q + 1
    } else if 2 * r < den {
        q
    } else if q % 2 == 0 {
        q
    } else {
        q + 1
    }
}

proof fn lemma_first_active_step(rates: Seq<OrderExchangeRate>, i: int)
    requires
        0 <= i < rates.len(),
        rates[i].status != RateStatus::Active,
    ensures
        first_active_from(rates, i) == first_active_from(rates, i + 1),
{
}

proof fn lemma_first_active_rate_wf(rates: Seq<OrderExchangeRate>, i: int)
    requires
        forall|j: int| 0 <= j < rates.len() ==> (#[trigger] rates[j]).rate.wf(),
    ensures
        first_active_from(rates, i) matches Some(r) ==> r.wf(),
    decreases rates.len() - i,
{
    if 0 <= i < rates.len() && rates[i].status != RateStatus::Active {
        lemma_first_active_rate_wf(rates, i + 1);
    }
}

/// The rate that prices `order`: its first active rate, else 1:1 for a
/// same-currency order, else `None`.
pub fn select_rate(order: &Order, rates: &Vec<OrderExchangeRate>, buyer: Currency) -> (r: Option<Rate>)
    ensures
        r == effective_rate(*order, rates@, buyer),
{
    let mut i: usize = 0;
    while i < rates.len()
        invariant
            0 <= i <= rates@.len(),
            first_active_from(rates@, 0) == first_active_from(rates@, i as int),
        decreases rates@.len() - i,
    {
        if rates[i].status == RateStatus::Active {
            return Some(rates[i].rate);
        }
        proof {
            lemma_first_active_step(rates@, i as int);
        }
        i = i + 1;
    }
    if order.seller_currency == buyer {
        Some(Rate::one())
    } else {
        None
    }
}

proof fn lemma_mul_u64_fits(a: u64, b: u64)
    ensures
        (a as int) * (b as int) <= u128::MAX,
{
    assert((a as int) * (b as int) <= (u64::MAX as int) * (u64::MAX as int)) by (nonlinear_arith);
}

proof fn lemma_mul_grows(x: int, y: int)
    requires
        x >= 0,
        y >= 1,
    ensures
        x * y >= x,
{
    assert(x * y >= x) by (nonlinear_arith)
        requires x >= 0, y >= 1;
}

/// An order's exact price in buyer minor units, `None` when it does not fit.
pub fn price_of_order(order: &Order, rate: &Rate, buyer: Currency) -> (r: Option<Price>)
    requires
        rate.wf(),
    ensures
        fits(order_frac(*order, *rate, buyer)) ==> (r matches Some(p) && p@ == order_frac(*order, *rate, buyer)),
        !fits(order_frac(*order, *rate, buyer)) ==> r.is_none(),
{
    let ub = buyer.unit();
    let us = order.seller_currency.unit();
    let f = Ghost(order_frac(*order, *rate, buyer));
    proof {
        lemma_mul_u64_fits(us, rate.num);
        assert((us as int) * (rate.num as int) > 0) by (nonlinear_arith)
            requires us >= 1, rate.num >= 1;
        lemma_mul_grows(order.total_amount * rate.den, ub as int);
    }
    let den = (us as u128) * (rate.num as u128);
    match order.total_amount.checked_mul(rate.den as u128) {
        None => {
            proof {
                lemma_mul_grows(order.total_amount * rate.den, ub as int);
            }
            None
        },
        Some(a) => match a.checked_mul(ub as u128) {
            None => None,
            Some(num) => Some(Price { num, den }),
        },
    }
}

/// The sum of two prices, `None` when it does not fit.
pub fn add_prices(a: &Price, b: &Price) -> (r: Option<Price>)
    requires
        a.den > 0,
        b.den > 0,
    ensures
        fits(frac_add(a@, b@)) ==> (r matches Some(p) && p@ == frac_add(a@, b@)),
        !fits(frac_add(a@, b@)) ==> r.is_none(),
{
    if a.den == b.den {
        match a.num.checked_add(b.num) {
            None => None,
            Some(num) => Some(Price { num, den: a.den }),
        }
    } else {
        let ghost s = frac_add(a@, b@);
        proof {
            assert((a.num as int) * (b.den as int) >= 0) by (nonlinear_arith)
                requires a.num >= 0, b.den >= 0;
            assert((b.num as int) * (a.den as int) >= 0) by (nonlinear_arith)
                requires b.num >= 0, a.den >= 0;
            assert((a.den as int) * (b.den as int) > 0) by (nonlinear_arith)
                requires a.den > 0, b.den > 0;
        }
        let x = a.num.checked_mul(b.den);
        let y = b.num.checked_mul(a.den);
        let d = a.den.checked_mul(b.den);
        match (x, y, d) {
            (Some(x), Some(y), Some(d)) => match x.checked_add(y) {
                None => None,
                Some(num) => Some(Price { num, den: d }),
            },
            _ => None,
        }
    }
}

proof fn lemma_total_fits_prefix(s: Seq<OrderRates>, buyer: Currency, i: int)
    requires
        0 <= i <= s.len(),
        total_fits(s, buyer),
    ensures
        total_fits(s.take(i), buyer),
    decreases s.len() - i,
{
    if i < s.len() {
        lemma_total_fits_prefix(s.drop_last(), buyer, i);
        assert(s.drop_last().take(i) =~= s.take(i));
    } else {
        assert(s.take(i) =~= s);
    }
}

proof fn lemma_cashback_prefix(s: Seq<OrderRates>, i: int)
    requires
        0 <= i <= s.len(),
    ensures
        0 <= cashback_sum(s.take(i)) <= cashback_sum(s),
    decreases s.len() - i,
{
    if i < s.len() {
        lemma_cashback_prefix(s.drop_last(), i);
        assert(s.drop_last().take(i) =~= s.take(i));
    } else {
        assert(s.take(i) =~= s);
        lemma_cashback_nonneg(s);
    }
}

proof fn lemma_cashback_nonneg(s: Seq<OrderRates>)
    ensures
        cashback_sum(s) >= 0,
    decreases s.len(),
{
    if s.len() > 0 {
        lemma_cashback_nonneg(s.drop_last());
    }
}

/// Prices an invoice: the total over the orders that have a rate, the total
/// cashback, and whether some order lacks a rate. It fails only when an exact
/// value does not fit in `u128`.
pub fn calculate_invoice_price(
    invoice: Invoice,
    orders: &Vec<OrderRates>,
    wallet_address: Option<WalletAddress>,
) -> (r: Result<InvoiceDump, BillingError>)
    requires
        rates_wf(orders@),
    ensures
        r.is_ok() == priceable(orders@, invoice.buyer_currency),
        r matches Err(e) ==> e == BillingError::Internal(InternalReason::Overflow),
        r matches Ok(d) ==> {
            &&& d.invoice == invoice
            &&& d.total_price@ == total_frac(orders@, invoice.buyer_currency)
            &&& d.total_cashback == cashback_sum(orders@)
            &&& d.has_missing_rates == has_missing(orders@, invoice.buyer_currency)
            &&& d.wallet_address == wallet_address
            &&& d.orders@.len() == orders@.len()
            &&& forall|i: int| 0 <= i < orders@.len() ==> {
                &&& (#[trigger] d.orders@[i]).order == orders@[i].order
                &&& d.orders@[i].rate == effective_rate(orders@[i].order, orders@[i].rates@, invoice.buyer_currency)
                &&& d.orders@[i].price.is_some() == d.orders@[i].rate.is_some()
                &&& (d.orders@[i].price matches Some(p) ==> p@ == order_frac(
                    orders@[i].order,
                    d.orders@[i].rate.unwrap(),
                    invoice.buyer_currency,
                ))
            }
        },
{
    let buyer = invoice.buyer_currency;
    let ghost s = orders@;
    let mut total = Price { num: 0, den: 1 };
    let mut cashback: u128 = 0;
    let mut missing = false;
    let mut dumps: Vec<OrderDump> = Vec::new();
    let mut i: usize = 0;
    while i < orders.len()
        invariant
            s == orders@,
            buyer == invoice.buyer_currency,
            rates_wf(s),
            0 <= i <= s.len(),
            total@ == total_frac(s.take(i as int), buyer),
            total_fits(s.take(i as int), buyer),
            total.den > 0,
            cashback == cashback_sum(s.take(i as int)),
            missing == has_missing(s.take(i as int), buyer),
            dumps@.len() == i,
            forall|k: int| 0 <= k < i ==> {
                &&& (#[trigger] dumps@[k]).order == s[k].order
                &&& dumps@[k].rate == effective_rate(s[k].order, s[k].rates@, buyer)
                &&& dumps@[k].price.is_some() == dumps@[k].rate.is_some()
                &&& (dumps@[k].price matches Some(p) ==> p@ == order_frac(s[k].order, dumps@[k].rate.unwrap(), buyer))
            },
        decreases s.len() - i,
    {
        let ghost t = s.take(i as int + 1);
        proof {
            assert(t.drop_last() =~= s.take(i as int));
            assert(t.last() == s[i as int]);
        }
        let item = &orders[i];
        let rate = select_rate(&item.order, &item.rates, buyer);
        let price = match rate {
            None => None,
            Some(rt) => {
                proof {
                    lemma_first_active_rate_wf(s[i as int].rates@, 0);
                    assert forall|j: int| 0 <= j < s[i as int].rates@.len() implies (#[trigger] s[i as int].rates@[j]).rate.wf() by {
                        assert(rates_wf(s));
                    }
                    lemma_first_active_rate_wf(s[i as int].rates@, 0);
                }
                match price_of_order(&item.order, &rt, buyer) {
                    None => {
                        proof {
                            assert(order_share(t.last(), buyer) == Some(order_frac(s[i as int].order, rt, buyer)));
                            assert(!total_fits(t, buyer));
                            if total_fits(s, buyer) {
                                lemma_total_fits_prefix(s, buyer, i as int + 1);
                            }
                        }
                        return Err(BillingError::Internal(InternalReason::Overflow));
                    },
                    Some(p) => Some(p),
                }
            },
        };
        match price {
            None => {},
            Some(p) => {
                proof {
                    assert(t.drop_last() =~= s.take(i as int));
                }
                match add_prices(&total, &p) {
                    None => {
                        proof {
                            assert(order_share(t.last(), buyer) == Some(p@));
                            assert(!total_fits(t, buyer));
                            if total_fits(s, buyer) {
                                lemma_total_fits_prefix(s, buyer, i as int + 1);
                            }
                        }
                        return Err(BillingError::Internal(InternalReason::Overflow));
                    },
                    Some(sum) => {
                        total = sum;
                    },
                }
            },
        }
        match cashback.checked_add(item.order.cashback_amount) {
            None => {
                proof {
                    lemma_cashback_prefix(s, i as int + 1);
                }
                return Err(BillingError::Internal(InternalReason::Overflow));
            },
            Some(c) => {
                cashback = c;
            },
        }
        if rate.is_none() {
            missing = true;
        }
        proof {
            if rate.is_none() {
                assert(t[i as int] == s[i as int]);
            }
            if missing && rate.is_some() {
                let w = choose|w: int| 0 <= w < s.take(i as int).len() && effective_rate(#[trigger] s.take(i as int)[w].order, s.take(i as int)[w].rates@, buyer).is_none();
                assert(t[w] == s.take(i as int)[w]);
            }
            if has_missing(t, buyer) && rate.is_some() {
                let w = choose|w: int| 0 <= w < t.len() && effective_rate(#[trigger] t[w].order, t[w].rates@, buyer).is_none();
                assert(w < i);
                assert(t[w] == s.take(i as int)[w]);
            }
        }
        dumps.push(OrderDump { order: item.order, rate, price });
        i = i + 1;
    }
    proof {
        assert(s.take(s.len() as int) =~= s);
    }
    Ok(InvoiceDump {
        invoice,
        orders: dumps,
        total_price: total,
        total_cashback: cashback,
        has_missing_rates: missing,
        wallet_address,
    })
}

proof fn lemma_covers_by_quotient(c: int, num: int, den: int)
    requires
        c >= 0,
        num >= 0,
        den > 0,
    ensures
        (c * den >= num) == (c > num / den || (c == num / den && num % den == 0)),
{
    let q = num / den;
    let rem = num % den;
    vstd::arithmetic::div_mod::lemma_fundamental_div_mod(num, den);
    assert(0 <= rem < den);
    if c > q {
        assert(c * den >= (q + 1) * den) by (nonlinear_arith)
            requires c >= q + 1, den > 0;
        assert((q + 1) * den == q * den + den) by (nonlinear_arith);
        assert(num == den * q + rem);
        assert(den * q == q * den) by (nonlinear_arith);
    } else if c == q {
        assert(num == den * q + rem);
        assert(den * q == c * den) by (nonlinear_arith)
            requires c == q;
    } else {
        assert(c * den <= (q - 1) * den) by (nonlinear_arith)
            requires c <= q - 1, den > 0;
        assert((q - 1) * den == q * den - den) by (nonlinear_arith);
        assert(num == den * q + rem);
        assert(den * q == q * den) by (nonlinear_arith);
    }
}

/// Whether `captured` minor units pay for `price` in full.
pub fn covers(captured: u128, price: &Price) -> (r: bool)
    requires
        price.den > 0,
    ensures
        r == spec_covers(captured as int, price@),
{
    let q = price.num / price.den;
    let rem = price.num % price.den;
    proof {
        lemma_covers_by_quotient(captured as int, price.num as int, price.den as int);
    }
    captured > q || (captured == q && rem == 0)
}

/// Whether a priced invoice becomes paid: every order has a rate and the
/// captured amount covers the total.
pub open spec fn spec_has_become_paid(captured: int, d: InvoiceDump) -> bool {
    !d.has_missing_rates && spec_covers(captured, d.total_price@)
}

/// Whether the invoice's captured amount pays for the priced invoice.
pub fn has_become_paid(dump: &InvoiceDump) -> (r: bool)
    requires
        dump.total_price.den > 0,
    ensures
        r == spec_has_become_paid(dump.invoice.amount_captured as int, *dump),
{
    !dump.has_missing_rates && covers(dump.invoice.amount_captured, &dump.total_price)
}

/// A price in whole minor units, rounded half to even.
pub fn to_minor_units(price: &Price) -> (r: u128)
    requires
        price.den > 0,
    ensures
        r as int == round_half_even(price.num as int, price.den as int),
{
    let q = price.num / price.den;
    let rem = price.num % price.den;
    let rest = price.den - rem;
    proof {
        vstd::arithmetic::div_mod::lemma_fundamental_div_mod(price.num as int, price.den as int);
        if rem > 0 {
            assert(q * 2 <= price.num) by (nonlinear_arith)
                requires price.num == price.den * q + rem, price.den >= 2, q >= 0, rem >= 0;
        }
    }
    if rem > rest {
        q + 1
    } else if rem < rest {
        q
    } else if q % 2 == 0 {
        q
    } else {
        q + 1
    }
}

/// The amount of a card payment: the price as a whole number of minor units.
/// A price that is not whole, or that exceeds `u64`, cannot be charged.
pub fn payment_intent_amount(price: &Price) -> (r: Result<u64, BillingError>)
    requires
        price.den > 0,
    ensures
        r.is_ok() == (price.num % price.den == 0 && price.num / price.den <= u64::MAX),
        r matches Ok(a) ==> a as int * price.den == price.num,
        r matches Err(e) ==> e == BillingError::Internal(InternalReason::AmountConversion),
{
    let q = price.num / price.den;
    if price.num % price.den != 0 || q > u64::MAX as u128 {
        return Err(BillingError::Internal(InternalReason::AmountConversion));
    }
    proof {
        vstd::arithmetic::div_mod::lemma_fundamental_div_mod(price.num as int, price.den as int);
        assert(price.den * q == q * price.den) by (nonlinear_arith);
    }
    Ok(q as u64)
}

/// Every order of `s` is paid in the buyer's currency at a 1:1 rate.
pub open spec fn same_currency_at_par(s: Seq<OrderRates>, buyer: Currency) -> bool {
    forall|i: int| 0 <= i < s.len() ==> {
        &&& (#[trigger] s[i]).order.seller_currency == buyer
        &&& (first_active_from(s[i].rates@, 0) matches Some(r) ==> r.num == r.den && r.wf())
    }
}

/// When every order is paid in the buyer's own currency at par (the fiat
/// path), the invoice total is exactly the sum of the orders' amounts.
pub proof fn fiat_total_is_sum_of_orders(s: Seq<OrderRates>, buyer: Currency)
    requires
        same_currency_at_par(s, buyer),
    ensures
        total_frac(s, buyer).1 > 0,
        total_frac(s, buyer).0 == total_frac(s, buyer).1 * amount_sum(s),
    decreases s.len(),
{
    if s.len() > 0 {
        let pre = s.drop_last();
        assert(same_currency_at_par(pre, buyer)) by {
            assert forall|i: int| 0 <= i < pre.len() implies {
                &&& (#[trigger] pre[i]).order.seller_currency == buyer
                &&& (first_active_from(pre[i].rates@, 0) matches Some(r) ==> r.num == r.den && r.wf())
            } by {
                assert(pre[i] == s[i]);
            }
        }
        fiat_total_is_sum_of_orders(pre, buyer);
        let p = total_frac(pre, buyer);
        let x = s.last();
        assert(x == s[s.len() - 1]);
        let r = effective_rate(x.order, x.rates@, buyer).unwrap();
        assert(r.num == r.den && r.num > 0);
        let u = spec_unit(buyer) as int;
        assert(u > 0) by {
            crate::currency::lemma_unit_positive(buyer);
        }
        let f = order_frac(x.order, r, buyer);
        let a = x.order.total_amount as int;
        let n = r.num as int;
        assert(f.0 == a * n * u);
        assert(f.1 == u * n);
        assert(f.1 > 0) by (nonlinear_arith)
            requires f.1 == u * n, u > 0, n > 0;
        assert(f.0 == f.1 * a) by (nonlinear_arith)
            requires f.0 == a * n * u, f.1 == u * n;
        let sp = amount_sum(pre);
        if p.1 == f.1 {
            assert(p.0 + f.0 == p.1 * (sp + a)) by (nonlinear_arith)
                requires p.0 == p.1 * sp, f.0 == f.1 * a, p.1 == f.1;
        } else {
            assert(p.0 * f.1 + f.0 * p.1 == (p.1 * f.1) * (sp + a)) by (nonlinear_arith)
                requires p.0 == p.1 * sp, f.0 == f.1 * a;
            assert(p.1 * f.1 > 0) by (nonlinear_arith)
                requires p.1 > 0, f.1 > 0;
        }
    }
}

/// The total's denominator is positive when the total was computed.
pub proof fn lemma_total_den_positive(s: Seq<OrderRates>, buyer: Currency)
    requires
        total_fits(s, buyer),
    ensures
        total_frac(s, buyer).1 > 0,
    decreases s.len(),
{
    if s.len() > 0 {
        lemma_total_den_positive(s.drop_last(), buyer);
    }
}

} // verus!
