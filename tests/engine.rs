use billing::amount::parse_amount;
use billing::currency::{Currency, TureCurrency};
use billing::error::{BillingError, InternalReason};
use billing::events::{Event, EventPayload, EventStatus, EventStore};
use billing::ids::{AccountId, EventId, ExchangeId, InvoiceId, OrderId, PaymentIntentId, StoreId, TransactionId, WalletAddress};
use billing::invoice::{Billing, ExpiryAction, PaymentIntentRow};
use billing::planning::{card_payment_amount, exchange_rate_for, needs_quote, plan_order, rate_from_refresh, reserve_or_refresh_rate, CreateOrder, PlannedOrder, Quote, RateAction, RateRefresh};
use billing::webhook::PaymentsCallback;
use billing::worker::EventAction;
use billing::ledger::Ledger;
use billing::model::{Account, FeeStatus, NewOrderExchangeRate, OrderExchangeRate, Rate, RateStatus};
use billing::pricing::to_minor_units;
use billing::signature::{check_ture_sign, parse_hex};
use sha2::Digest;

const WEI: u128 = 1_000_000_000_000_000_000;

fn paid_events(b: &Billing, id: InvoiceId) -> usize {
    b.events
        .payloads
        .iter()
        .filter(|p| matches!(p, EventPayload::InvoicePaid { invoice_id } if *invoice_id == id))
        .count()
}

fn crypto_order(id: u128, currency: Currency, total_amount: u128) -> CreateOrder {
    CreateOrder { id: OrderId(id), store_id: StoreId(1), currency, total_amount, cashback_percent: None }
}

fn callback(tx: u128, amount: &str, account: Option<AccountId>, address: &str) -> PaymentsCallback {
    PaymentsCallback {
        url: String::from("https://example.com/callback"),
        transaction_id: TransactionId(tx),
        amount_captured: String::from(amount),
        currency: TureCurrency::Stq,
        address: WalletAddress::new(String::from(address)),
        account_id: account,
    }
}

fn crypto_billing(seller: Currency, total: u128, buyer: Currency, quote: Option<Quote>) -> (Billing, InvoiceId, AccountId) {
    let mut b = Billing::new();
    let id = InvoiceId(42);
    let account = AccountId(9);
    b.ledger.insert_account(Account {
        id: account,
        currency: TureCurrency::Stq,
        is_pooled: true,
        wallet_address: WalletAddress::new(String::from("0xpool")),
    });
    let planned = plan_order(id, buyer, &crypto_order(1, seller, total), quote).unwrap();
    b.create_invoice(id, 5, buyer, &vec![planned], Some(account), None, 1_000).unwrap();
    (b, id, account)
}

fn key_pair() -> (secp256k1::SecretKey, String) {
    let secp = secp256k1::Secp256k1::new();
    let sk = secp256k1::SecretKey::from_slice(&[7u8; 32]).unwrap();
    let pk = secp256k1::PublicKey::from_secret_key(&secp, &sk);
    (sk, hex::encode(&pk.serialize()[..]))
}

fn sign(sk: &secp256k1::SecretKey, body: &[u8]) -> String {
    let secp = secp256k1::Secp256k1::new();
    let digest = sha2::Sha256::digest(body);
    let msg = secp256k1::Message::from_slice(&digest).unwrap();
    hex::encode(&secp.sign(&msg, sk).serialize_compact()[..])
}

#[test]
fn fiat_happy_path() {
    let mut b = Billing::new();
    let id = InvoiceId(1);
    let create = CreateOrder { id: OrderId(11), store_id: StoreId(3), currency: Currency::Eur, total_amount: 1000, cashback_percent: Some(0) };
    let planned = plan_order(id, Currency::Eur, &create, None).unwrap();
    let amount = card_payment_amount(&vec![planned], Currency::Eur).unwrap();
    assert_eq!(amount, 1000);
    let intent = PaymentIntentRow::new(PaymentIntentId(String::from("pi_1")), id, amount, Currency::Eur);
    let dump = b.create_invoice(id, 5, Currency::Eur, &vec![planned], None, Some(intent), 3_600).unwrap();
    assert_eq!(to_minor_units(&dump.total_price), 1000);
    assert_eq!(b.events.entries.len(), 1);
    assert!(matches!(b.events.payloads[0], EventPayload::PaymentExpired { invoice_id } if invoice_id == id));
    assert_eq!(b.events.entries[0].scheduled_for, Some(3_600));
    assert_eq!(b.events.entries[0].status, EventStatus::Pending);

    let event = EventPayload::PaymentIntentAmountCapturableUpdated { payment_intent: PaymentIntentId(String::from("pi_1")) };
    let action = b.handle_event(&event, 5, 100).unwrap();
    assert!(matches!(action, EventAction::Nothing));
    let inv = b.ledger.get_invoice(id).unwrap();
    assert_eq!(inv.paid_at, Some(100));
    assert_eq!(inv.final_amount_paid, Some(1000));
    assert_eq!(b.ledger.fees.len(), 1);
    assert_eq!(b.ledger.fees[0].amount, 1000 * 5 / 100);
    assert_eq!(b.ledger.fees[0].status, FeeStatus::NotPaid);
    assert_eq!(paid_events(&b, id), 1);

    // The same gateway event again changes nothing.
    b.handle_event(&event, 5, 200).unwrap();
    assert_eq!(b.ledger.fees.len(), 1);
    assert_eq!(b.ledger.get_invoice(id).unwrap().paid_at, Some(100));
    assert_eq!(paid_events(&b, id), 1);
}

#[test]
fn crypto_happy_path_exact_payment() {
    let (mut b, id, account) = crypto_billing(Currency::Stq, 100 * WEI, Currency::Stq, None);
    assert_eq!(b.ledger.rates.len(), 1);
    assert!(b.ledger.rates[0].exchange_id.is_none());
    let inv = b.reconcile_inbound_tx(&callback(1, "100000000000000000000", Some(account), "0xpool")).unwrap();
    assert_eq!(inv.amount_captured, 100 * WEI);
    let dump = b.recalc_invoice(id, &vec![], 50).unwrap().unwrap();
    assert_eq!(to_minor_units(&dump.total_price), 100 * WEI);
    let paid = b.ledger.get_invoice(id).unwrap();
    assert_eq!(paid.final_amount_paid, Some(100 * WEI));
    assert_eq!(paid.final_amount_paid.unwrap() / WEI, 100);
    assert_eq!(paid.paid_at, Some(50));
    assert_eq!(paid_events(&b, id), 1);
}

#[test]
fn crypto_duplicate_webhook() {
    let (mut b, id, account) = crypto_billing(Currency::Stq, 100 * WEI, Currency::Stq, None);
    for _ in 0..3 {
        b.reconcile_inbound_tx(&callback(1, "100000000000000000000", Some(account), "0xpool")).unwrap();
        b.recalc_invoice(id, &vec![], 50).unwrap();
    }
    assert_eq!(b.ledger.get_invoice(id).unwrap().amount_captured, 100 * WEI);
    assert_eq!(b.ledger.captures.len(), 1);
    assert_eq!(paid_events(&b, id), 1);
}

#[test]
fn crypto_partial_then_complete() {
    // 1 BTC at 1/30: 30 ETH.
    let quote = Quote { exchange_id: ExchangeId(100), rate: Rate { num: 1, den: 30 } };
    let (mut b, id, account) = crypto_billing(Currency::Btc, 100_000_000, Currency::Eth, Some(quote));
    let inv = b.reconcile_inbound_tx(&callback(1, "12000000000000000000", None, "0xpool")).unwrap();
    assert_eq!(inv.amount_captured, 12 * WEI);
    let dump = b.recalc_invoice(id, &vec![], 10).unwrap().unwrap();
    assert!(!dump.has_missing_rates);
    assert!(b.ledger.get_invoice(id).unwrap().paid_at.is_none());

    // The gateway refreshes the reservation to 1/20: 20 ETH.
    let current = b.ledger.get_active_rate_for_order(OrderId(1));
    let order = b.ledger.orders[0];
    let action = reserve_or_refresh_rate(&order, current, Currency::Eth).unwrap();
    assert!(matches!(action, RateAction::Refresh(ExchangeId(100))));
    let refresh = RateRefresh { quote: Quote { exchange_id: ExchangeId(101), rate: Rate { num: 1, den: 20 } }, is_new_rate: true };
    let new_rate = rate_from_refresh(&order, refresh).unwrap();
    b.reconcile_inbound_tx(&callback(2, "8000000000000000000", Some(account), "0xpool")).unwrap();
    let dump = b.recalc_invoice(id, &vec![new_rate], 20).unwrap().unwrap();
    assert_eq!(to_minor_units(&dump.total_price), 20 * WEI);
    assert_eq!(b.ledger.rates.len(), 2);
    assert_eq!(b.ledger.rates[0].status, RateStatus::Expired);
    assert_eq!(b.ledger.rates[1].status, RateStatus::Active);
    assert_eq!(b.ledger.rates[1].exchange_id, Some(ExchangeId(101)));
    let paid = b.ledger.get_invoice(id).unwrap();
    assert_eq!(paid.final_amount_paid, Some(20 * WEI));
    assert_eq!(paid_events(&b, id), 1);
}

#[test]
fn expiry_races_payment() {
    let mut b = Billing::new();
    let id = InvoiceId(3);
    let planned = plan_order(id, Currency::Usd, &crypto_order(1, Currency::Usd, 500), None).unwrap();
    let intent = PaymentIntentRow::new(PaymentIntentId(String::from("pi_x")), id, 500, Currency::Usd);
    b.create_invoice(id, 1, Currency::Usd, &vec![planned], None, Some(intent), 1).unwrap();
    let event = EventPayload::PaymentIntentSucceeded { payment_intent: PaymentIntentId(String::from("pi_x")) };
    b.handle_event(&event, 3, 0).unwrap();
    let action = b.handle_event(&EventPayload::PaymentExpired { invoice_id: id }, 3, 1).unwrap();
    assert!(matches!(action, EventAction::Expiry(ExpiryAction::Nothing)));
    let inv = b.ledger.get_invoice(id).unwrap();
    assert!(inv.paid_at.is_some());
    assert!(!inv.expired);
}

#[test]
fn unpaid_invoice_expires() {
    let (mut b, id, account) = crypto_billing(Currency::Stq, 10, Currency::Stq, None);
    let action = b.handle_payment_expired(id);
    assert!(matches!(action, ExpiryAction::ReleaseAccount(a) if a == account));
    assert!(b.ledger.get_invoice(id).unwrap().expired);

    let mut c = Billing::new();
    let cid = InvoiceId(4);
    let planned = plan_order(cid, Currency::Rub, &crypto_order(1, Currency::Rub, 500), None).unwrap();
    let intent = PaymentIntentRow::new(PaymentIntentId(String::from("pi_y")), cid, 500, Currency::Rub);
    c.create_invoice(cid, 1, Currency::Rub, &vec![planned], None, Some(intent), 1).unwrap();
    assert!(matches!(c.handle_payment_expired(cid), ExpiryAction::CancelPaymentIntent(p) if p.0 == "pi_y"));
}

#[test]
fn unknown_account_webhook() {
    let (mut b, id, _) = crypto_billing(Currency::Stq, 10, Currency::Stq, None);
    let (sk, pk) = key_pair();
    let body = b"{\"transactionId\":\"1\",\"amountCaptured\":\"10\"}";
    let sig = sign(&sk, body);
    let cb = callback(1, "10", None, "0xunknown");
    let before_events = b.events.entries.len();
    assert!(matches!(b.handle_inbound_tx(&pk, &sig, body, &cb), Ok(None)));
    assert_eq!(b.events.entries.len(), before_events);
    assert_eq!(b.ledger.captures.len(), 0);
    assert_eq!(b.ledger.get_invoice(id).unwrap().amount_captured, 0);
    // An account that no invoice uses is acknowledged too.
    let cb2 = callback(1, "10", Some(AccountId(12345)), "0xpool");
    assert!(matches!(b.handle_inbound_tx(&pk, &sig, body, &cb2), Ok(None)));
    assert_eq!(b.reconcile_inbound_tx(&cb2).unwrap_err(), BillingError::NotFound);
}

#[test]
fn signed_webhook_is_counted_and_tampered_one_rejected() {
    let (mut b, id, _) = crypto_billing(Currency::Stq, 10, Currency::Stq, None);
    let (sk, pk) = key_pair();
    let body = b"{\"transactionId\":\"1\",\"amountCaptured\":\"10\"}".to_vec();
    let sig = sign(&sk, &body);
    let cb = callback(1, "10", None, "0xpool");
    let mut tampered = body.clone();
    tampered[5] ^= 1;
    assert_eq!(b.handle_inbound_tx(&pk, &sig, &tampered, &cb).unwrap_err(), BillingError::Forbidden);
    assert_eq!(b.ledger.captures.len(), 0);
    let inv = b.handle_inbound_tx(&pk, &sig, &body, &cb).unwrap().unwrap();
    assert_eq!(inv.amount_captured, 10);
    assert_eq!(b.ledger.get_invoice(id).unwrap().amount_captured, 10);
}

#[test]
fn signature_check() {
    let (sk, pk) = key_pair();
    let body = b"payload";
    let sig = sign(&sk, body);
    assert_eq!(check_ture_sign(&pk, &sig, body), Ok(()));
    assert_eq!(check_ture_sign(&pk, &sig, b"payloaD"), Err(BillingError::Forbidden));
    assert_eq!(check_ture_sign(&pk, "00ff", body), Err(BillingError::Forbidden));
    assert_eq!(check_ture_sign("", &sig, body), Err(BillingError::Forbidden));
    // Upper-case hex and separators decode alike.
    assert_eq!(check_ture_sign(&pk.to_uppercase(), &sig, body), Ok(()));
}

#[test]
fn hex_decoding() {
    assert_eq!(parse_hex("0a1B"), vec![0x0a, 0x1b]);
    assert_eq!(parse_hex("abc"), vec![0xab]);
    assert_eq!(parse_hex("zz0-1"), vec![0x01]);
    assert_eq!(parse_hex(""), Vec::<u8>::new());
}

#[test]
fn amount_parsing() {
    assert_eq!(parse_amount("100000000000000000000"), Some(100 * WEI));
    assert_eq!(parse_amount("0"), Some(0));
    assert_eq!(parse_amount(""), None);
    assert_eq!(parse_amount("12a"), None);
    assert_eq!(parse_amount("+1"), None);
    assert_eq!(parse_amount("340282366920938463463374607431768211455"), Some(u128::MAX));
    assert_eq!(parse_amount("340282366920938463463374607431768211456"), None);
}

#[test]
fn bad_amount_in_webhook() {
    let (mut b, _, account) = crypto_billing(Currency::Stq, 10, Currency::Stq, None);
    assert_eq!(
        b.reconcile_inbound_tx(&callback(1, "1.5", Some(account), "0xpool")).unwrap_err(),
        BillingError::Internal(InternalReason::AmountFormat)
    );
}

#[test]
fn capture_overflow_changes_nothing() {
    let (mut b, id, account) = crypto_billing(Currency::Stq, 10, Currency::Stq, None);
    b.reconcile_inbound_tx(&callback(1, "340282366920938463463374607431768211455", Some(account), "0xpool")).unwrap();
    assert_eq!(
        b.reconcile_inbound_tx(&callback(2, "1", Some(account), "0xpool")).unwrap_err(),
        BillingError::Internal(InternalReason::Overflow)
    );
    assert_eq!(b.ledger.get_invoice(id).unwrap().amount_captured, u128::MAX);
    assert_eq!(b.ledger.captures.len(), 1);
}

#[test]
fn paid_invoice_is_not_recalculated() {
    let (mut b, id, account) = crypto_billing(Currency::Stq, 100, Currency::Stq, None);
    b.reconcile_inbound_tx(&callback(1, "150", Some(account), "0xpool")).unwrap();
    b.recalc_invoice(id, &vec![], 7).unwrap();
    let first = b.ledger.get_invoice(id).unwrap();
    assert_eq!(first.final_amount_paid, Some(100));
    let new_rate = NewOrderExchangeRate { order_id: OrderId(1), exchange_id: Some(ExchangeId(5)), rate: Rate { num: 1, den: 2 } };
    let d = b.recalc_invoice(id, &vec![new_rate], 99).unwrap().unwrap();
    assert_eq!(d.invoice.paid_at, Some(7));
    let again = b.ledger.get_invoice(id).unwrap();
    assert_eq!(again.final_amount_paid, Some(100));
    assert_eq!(again.final_cashback_amount, first.final_cashback_amount);
    assert_eq!(again.paid_at, Some(7));
    assert_eq!(b.ledger.rates.len(), 1);
    assert_eq!(b.recalc_invoice(InvoiceId(999), &vec![], 1).unwrap().is_none(), true);
}

#[test]
fn order_rate_rules() {
    assert_eq!(
        exchange_rate_for(Currency::Eur, Currency::Usd, None).unwrap_err(),
        BillingError::Validation { buyer_currency: Currency::Eur, seller_currency: Currency::Usd }
    );
    assert_eq!(exchange_rate_for(Currency::Eur, Currency::Stq, None).unwrap_err(), BillingError::Internal(InternalReason::FiatCryptoMix));
    assert_eq!(exchange_rate_for(Currency::Eth, Currency::Btc, None).unwrap_err(), BillingError::Internal(InternalReason::NotConfigured));
    let (x, r) = exchange_rate_for(Currency::Stq, Currency::Stq, None).unwrap();
    assert!(x.is_none());
    assert_eq!((r.num, r.den), (1, 1));
    let q = Quote { exchange_id: ExchangeId(8), rate: Rate { num: 3, den: 2 } };
    let (x, r) = exchange_rate_for(Currency::Eth, Currency::Btc, Some(q)).unwrap();
    assert_eq!(x, Some(ExchangeId(8)));
    assert_eq!((r.num, r.den), (3, 2));
    assert!(needs_quote(Currency::Eth, Currency::Btc));
    assert!(!needs_quote(Currency::Eth, Currency::Eth));
    assert!(!needs_quote(Currency::Eur, Currency::Usd));
    let create = CreateOrder { id: OrderId(1), store_id: StoreId(1), currency: Currency::Eur, total_amount: 1000, cashback_percent: Some(5) };
    let planned: PlannedOrder = plan_order(InvoiceId(1), Currency::Eur, &create, None).unwrap();
    assert_eq!(planned.order.cashback_amount, 50);
}

#[test]
fn rate_refresh_rules() {
    let (b, _, _) = crypto_billing(Currency::Stq, 10, Currency::Stq, None);
    let order = b.ledger.orders[0];
    let dummy = b.ledger.get_active_rate_for_order(order.id);
    assert!(matches!(reserve_or_refresh_rate(&order, dummy, Currency::Stq), Ok(RateAction::Keep)));
    assert!(matches!(reserve_or_refresh_rate(&order, None, Currency::Eth), Ok(RateAction::Reserve)));
    assert!(matches!(reserve_or_refresh_rate(&order, None, Currency::Stq), Ok(RateAction::Store(n)) if n.exchange_id.is_none()));
    let mut fiat = order;
    fiat.seller_currency = Currency::Eur;
    assert_eq!(reserve_or_refresh_rate(&fiat, None, Currency::Eth).unwrap_err(), BillingError::Internal(InternalReason::FiatCryptoMix));
    let same = RateRefresh { quote: Quote { exchange_id: ExchangeId(1), rate: Rate { num: 1, den: 1 } }, is_new_rate: false };
    assert!(rate_from_refresh(&order, same).is_none());
}

#[test]
fn one_active_rate_per_order() {
    let mut l = Ledger::new();
    for k in 0..3u64 {
        l.add_new_active_rate(NewOrderExchangeRate { order_id: OrderId(1), exchange_id: None, rate: Rate { num: k + 1, den: 1 } });
    }
    l.add_new_active_rate(NewOrderExchangeRate { order_id: OrderId(2), exchange_id: None, rate: Rate { num: 1, den: 1 } });
    let active: Vec<&OrderExchangeRate> = l.rates.iter().filter(|r| r.status == RateStatus::Active).collect();
    assert_eq!(active.len(), 2);
    assert_eq!(l.get_active_rate_for_order(OrderId(1)).unwrap().rate.num, 3);
    assert_eq!(l.get_all_rates_for_order(OrderId(1)).len(), 3);
}

#[test]
fn duplicate_invoice_is_refused() {
    let (mut b, id, _) = crypto_billing(Currency::Stq, 10, Currency::Stq, None);
    let planned = plan_order(id, Currency::Stq, &crypto_order(2, Currency::Stq, 10), None).unwrap();
    assert_eq!(
        b.create_invoice(id, 5, Currency::Stq, &vec![planned], None, None, 1).unwrap_err(),
        BillingError::Internal(InternalReason::DuplicateId)
    );
    assert_eq!(b.ledger.orders.len(), 1);
}

#[test]
fn lease_recovery() {
    let mut s = EventStore::new();
    let id = EventId::generate();
    s.add_event(Event { id, payload: EventPayload::NoOp }).unwrap();
    assert_eq!(s.tick(0, 10), Some(0));
    assert_eq!(s.entries[0].status, EventStatus::InProgress);
    assert_eq!(s.entries[0].lease_until, Some(10));
    // The worker died: before the lease ends nothing happens.
    assert_eq!(s.tick(5, 10), None);
    assert_eq!(s.entries[0].status, EventStatus::InProgress);
    // Once the lease has run out the entry is taken again.
    assert_eq!(s.tick(10, 10), Some(0));
    assert_eq!(s.entries[0].attempts, 2);
    assert_eq!(s.entries[0].lease_until, Some(20));
    assert!(s.complete_event(id));
    assert_eq!(s.entries[0].status, EventStatus::Completed);
    assert_eq!(s.tick(100, 10), None);
    assert!(!s.fail_event(EventId(0)));
}

#[test]
fn stuck_entry_returns_to_pending() {
    let mut s = EventStore::new();
    let first = EventId(1);
    s.add_scheduled_event(Event { id: first, payload: EventPayload::NoOp }, Some(50)).unwrap();
    s.add_event(Event { id: EventId(2), payload: EventPayload::NoOp }).unwrap();
    // The scheduled entry is not due yet: the second one is taken.
    assert_eq!(s.get_event_for_processing(0, 5), Some(1));
    assert_eq!(s.reset_stuck_events(5), 1);
    assert_eq!(s.entries[1].status, EventStatus::Pending);
    assert_eq!(s.get_event_for_processing(60, 5), Some(0));
    assert!(s.fail_event(first));
    assert_eq!(s.entries[0].status, EventStatus::Failed);
    assert_eq!(s.add_event(Event { id: first, payload: EventPayload::NoOp }), Err(BillingError::Internal(InternalReason::DuplicateId)));
}

#[test]
fn generated_ids_differ() {
    assert_ne!(EventId::generate(), EventId::generate());
    assert_ne!(OrderId::generate(), OrderId::generate());
    assert_ne!(Event::new(EventPayload::NoOp).id, Event::new(EventPayload::NoOp).id);
}

#[test]
fn error_statuses() {
    assert_eq!(BillingError::NotFound.http_status(), 404);
    assert_eq!(BillingError::Forbidden.http_status(), 403);
    assert_eq!(BillingError::Validation { buyer_currency: Currency::Eur, seller_currency: Currency::Usd }.http_status(), 400);
    assert_eq!(BillingError::Internal(InternalReason::Overflow).http_status(), 500);
}

#[test]
fn currency_units() {
    assert_eq!(Currency::Eur.unit(), 100);
    assert_eq!(Currency::Btc.unit(), 100_000_000);
    assert_eq!(Currency::Eth.unit(), 1_000_000_000_000_000_000);
    assert!(Currency::Rub.is_fiat());
    assert!(!Currency::Stq.is_fiat());
    assert_eq!(Currency::Btc.to_ture(), Some(TureCurrency::Btc));
    assert_eq!(Currency::Usd.to_ture(), None);
    assert_eq!(TureCurrency::Eth.to_currency(), Currency::Eth);
    assert_eq!(Currency::Eth.decimals(), 18);
}

#[test]
fn wallet_and_store_ids() {
    let w = WalletAddress::new(String::from("0xabc"));
    assert_eq!(w.inner(), "0xabc");
    assert_eq!(w.into_inner(), String::from("0xabc"));
    let s = StoreId::new(12);
    assert_eq!(s.inner(), 12);
}

#[test]
fn ledger_counts_a_transaction_once() {
    let mut l = Ledger::new();
    let account = AccountId(3);
    l.insert_invoice(billing::model::Invoice::new(InvoiceId(1), 1, Currency::Eth, Some(account))).unwrap();
    let inv = l.increase_amount_captured(account, TransactionId(9), 40).unwrap();
    assert_eq!(inv.amount_captured, 40);
    assert_eq!(l.increase_amount_captured(account, TransactionId(9), 40).unwrap_err(), BillingError::AlreadyApplied);
    assert_eq!(l.get_invoice(InvoiceId(1)).unwrap().amount_captured, 40);
    assert_eq!(l.increase_amount_captured(AccountId(4), TransactionId(9), 40).unwrap_err(), BillingError::NotFound);
    let paid = l.set_invoice_paid(InvoiceId(1), 40, 0, 77).unwrap();
    assert_eq!(paid.paid_at, Some(77));
    let again = l.set_invoice_paid(InvoiceId(1), 99, 5, 88).unwrap();
    assert_eq!(again.final_amount_paid, Some(40));
    assert_eq!(again.paid_at, Some(77));
    assert_eq!(l.set_invoice_paid(InvoiceId(2), 1, 1, 1).unwrap_err(), BillingError::NotFound);
    assert!(!l.mark_expired(InvoiceId(1)));
}

#[test]
fn card_amount_errors() {
    let create = CreateOrder { id: OrderId(1), store_id: StoreId(1), currency: Currency::Eur, total_amount: 1001, cashback_percent: None };
    let mut planned = plan_order(InvoiceId(1), Currency::Eur, &create, None).unwrap();
    planned.rate = Rate { num: 2, den: 1 };
    assert_eq!(card_payment_amount(&vec![planned], Currency::Eur).unwrap_err(), BillingError::Internal(InternalReason::AmountConversion));
    planned.order.total_amount = u128::MAX;
    planned.rate = Rate { num: 1, den: 3 };
    assert_eq!(card_payment_amount(&vec![planned], Currency::Eur).unwrap_err(), BillingError::Internal(InternalReason::Overflow));
}
