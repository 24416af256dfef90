use billing::currency::Currency;
use billing::error::{BillingError, InternalReason};
use billing::fee::{create_crypto_fee, fee_for_order, fees_for_orders};
use billing::ids::{InvoiceId, OrderId, StoreId};
use billing::model::{FeeStatus, Invoice, Order, OrderExchangeRate, PaymentState, Rate, RateStatus};
use billing::pricing::{
    add_prices, calculate_invoice_price, covers, payment_intent_amount, price_of_order, select_rate, to_minor_units,
    OrderRates, Price,
};

const WEI: u128 = 1_000_000_000_000_000_000;

fn order(id: u128, currency: Currency, total_amount: u128, cashback_amount: u128) -> Order {
    Order {
        id: OrderId(id),
        invoice_id: InvoiceId(7),
        seller_currency: currency,
        total_amount,
        cashback_amount,
        store_id: StoreId(1),
        state: PaymentState::Initial,
        stripe_fee: None,
    }
}

fn active(order_id: u128, num: u64, den: u64) -> OrderExchangeRate {
    OrderExchangeRate { id: 0, order_id: OrderId(order_id), exchange_id: None, rate: Rate { num, den }, status: RateStatus::Active }
}

#[test]
fn check_conversion_currencies() {
    let order_percent = 5;
    let fee_currency = Currency::Eur;
    let crypto_currency = Currency::Stq;
    let order = order(1, crypto_currency, 100 * WEI, 0);
    let new_fee = create_crypto_fee(order_percent, fee_currency, Rate { num: 5, den: 1 }, &order).expect("cannot get new fee");
    assert_eq!(new_fee.amount, 100);
    assert_eq!(new_fee.currency, Currency::Eur);
    assert_eq!(new_fee.crypto_currency, Some(Currency::Stq));
    assert_eq!(new_fee.crypto_amount, Some(100 * WEI));
}

#[test]
fn card_fee_is_percent_of_total() {
    let o = order(1, Currency::Eur, 1000, 0);
    let fee = fee_for_order(&o, 5).unwrap();
    assert_eq!(fee.amount, 50);
    assert_eq!(fee.status, FeeStatus::NotPaid);
    assert_eq!(fee.currency, Currency::Eur);
    let odd = order(2, Currency::Eur, 1999, 0);
    assert_eq!(fee_for_order(&odd, 3).unwrap().amount, 59);
}

#[test]
fn card_fee_overflow_is_internal() {
    let o = order(1, Currency::Eth, u128::MAX, 0);
    assert_eq!(fee_for_order(&o, 2).unwrap_err(), BillingError::Internal(InternalReason::Overflow));
    let all = fees_for_orders(&vec![order(2, Currency::Eur, 10, 0), o], 2);
    assert!(all.is_err());
    let ok = fees_for_orders(&vec![order(2, Currency::Eur, 300, 0), order(3, Currency::Usd, 700, 0)], 10).unwrap();
    assert_eq!(ok.len(), 2);
    assert_eq!(ok[0].amount, 30);
    assert_eq!(ok[1].amount, 70);
}

#[test]
fn fiat_total_is_sum_of_order_amounts() {
    let orders = vec![
        OrderRates { order: order(1, Currency::Eur, 1000, 0), rates: vec![active(1, 1, 1)] },
        OrderRates { order: order(2, Currency::Eur, 250, 0), rates: vec![] },
    ];
    let inv = Invoice::new(InvoiceId(7), 1, Currency::Eur, None);
    let d = calculate_invoice_price(inv, &orders, None).unwrap();
    assert_eq!(d.total_price.num, 1250 * d.total_price.den);
    assert!(!d.has_missing_rates);
    assert_eq!(to_minor_units(&d.total_price), 1250);
    assert_eq!(payment_intent_amount(&d.total_price), Ok(1250));
}

#[test]
fn crypto_total_converts_between_units() {
    // 1 BTC at a rate of 1/30 is 30 ETH.
    let orders = vec![OrderRates { order: order(1, Currency::Btc, 100_000_000, 0), rates: vec![active(1, 1, 30)] }];
    let inv = Invoice::new(InvoiceId(7), 1, Currency::Eth, None);
    let d = calculate_invoice_price(inv, &orders, None).unwrap();
    assert_eq!(to_minor_units(&d.total_price), 30 * WEI);
    assert!(covers(30 * WEI, &d.total_price));
    assert!(!covers(30 * WEI - 1, &d.total_price));
}

#[test]
fn missing_rate_is_reported() {
    let orders = vec![
        OrderRates { order: order(1, Currency::Btc, 100, 3), rates: vec![] },
        OrderRates { order: order(2, Currency::Eth, 100, 4), rates: vec![] },
    ];
    let inv = Invoice::new(InvoiceId(7), 1, Currency::Eth, None);
    let d = calculate_invoice_price(inv, &orders, None).unwrap();
    assert!(d.has_missing_rates);
    assert_eq!(d.total_cashback, 7);
    assert!(d.orders[0].rate.is_none());
    assert!(d.orders[0].price.is_none());
    assert_eq!(to_minor_units(&d.total_price), 100);
}

#[test]
fn pricing_overflow_is_an_error() {
    let orders = vec![OrderRates { order: order(1, Currency::Eur, u128::MAX, 0), rates: vec![active(1, 1, 3)] }];
    let inv = Invoice::new(InvoiceId(7), 1, Currency::Eur, None);
    assert_eq!(
        calculate_invoice_price(inv, &orders, None).unwrap_err(),
        BillingError::Internal(InternalReason::Overflow)
    );
}

#[test]
fn expired_rates_are_not_used() {
    let o = order(1, Currency::Btc, 10, 0);
    let mut old = active(1, 1, 2);
    old.status = RateStatus::Expired;
    let rates = vec![old, active(1, 1, 5)];
    let r = select_rate(&o, &rates, Currency::Eth).unwrap();
    assert_eq!((r.num, r.den), (1, 5));
    assert!(select_rate(&o, &vec![old], Currency::Eth).is_none());
    let same = select_rate(&o, &vec![], Currency::Btc).unwrap();
    assert_eq!((same.num, same.den), (1, 1));
}

#[test]
fn rounding_is_half_to_even() {
    assert_eq!(to_minor_units(&Price { num: 5, den: 2 }), 2);
    assert_eq!(to_minor_units(&Price { num: 7, den: 2 }), 4);
    assert_eq!(to_minor_units(&Price { num: 11, den: 4 }), 3);
    assert_eq!(to_minor_units(&Price { num: 9, den: 4 }), 2);
    assert_eq!(to_minor_units(&Price { num: u128::MAX, den: 1 }), u128::MAX);
}

#[test]
fn card_amount_must_be_whole() {
    assert_eq!(payment_intent_amount(&Price { num: 1001, den: 2 }), Err(BillingError::Internal(InternalReason::AmountConversion)));
    assert_eq!(payment_intent_amount(&Price { num: 1000, den: 1 }), Ok(1000));
    assert!(payment_intent_amount(&Price { num: u64::MAX as u128 + 1, den: 1 }).is_err());
}

#[test]
fn price_arithmetic() {
    let p = price_of_order(&order(1, Currency::Eur, 1000, 0), &Rate { num: 2, den: 1 }, Currency::Eur).unwrap();
    assert_eq!(p.num, 1000 * 100);
    assert_eq!(p.den, 200);
    let s = add_prices(&Price { num: 1, den: 2 }, &Price { num: 1, den: 3 }).unwrap();
    assert_eq!((s.num, s.den), (5, 6));
    let t = add_prices(&Price { num: 1, den: 4 }, &Price { num: 2, den: 4 }).unwrap();
    assert_eq!((t.num, t.den), (3, 4));
    assert!(add_prices(&Price { num: u128::MAX, den: 1 }, &Price { num: 1, den: 1 }).is_none());
}
