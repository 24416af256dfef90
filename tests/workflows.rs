use billing::auth::{request_auth, timestamp_text};
use billing::currency::{Currency, TureCurrency};
use billing::error::{BillingError, InternalReason};
use billing::events::{EventPayload, EventStatus};
use billing::ids::{AccountId, EventId, InvoiceId, OrderId, PaymentIntentId, StoreId, WalletAddress};
use billing::invoice::{Billing, CardEventKind, PaymentIntentRow};
use billing::planning::{expiry_deadline, needs_rate_refresh};
use billing::auth::parse_hex_strict;
use billing::planning::{plan_order, CreateOrder};
use billing::worker::EventAction;
use billing::model::{Account, OrderPaymentKind, SystemAccountType, SystemAccounts};
use sha2::Digest;

fn card_invoice(b: &mut Billing, id: u128, intent: &str, total: u128) -> InvoiceId {
    let invoice_id = InvoiceId(id);
    let create = CreateOrder { id: OrderId(id * 10), store_id: StoreId(1), currency: Currency::Eur, total_amount: total, cashback_percent: None };
    let planned = plan_order(invoice_id, Currency::Eur, &create, None).unwrap();
    let row = PaymentIntentRow::new(PaymentIntentId(String::from(intent)), invoice_id, total as u64, Currency::Eur);
    b.create_invoice(invoice_id, 1, Currency::Eur, &vec![planned], None, Some(row), 10_000).unwrap();
    invoice_id
}

#[test]
fn delete_invoice_removes_its_rows() {
    let mut b = Billing::new();
    let a = card_invoice(&mut b, 1, "pi_a", 100);
    let c = card_invoice(&mut b, 2, "pi_c", 200);
    let cancelled = b.delete_invoice(a);
    assert_eq!(cancelled.map(|p| p.0), Some(String::from("pi_a")));
    assert!(b.ledger.get_invoice(a).is_none());
    assert!(b.ledger.get_invoice(c).is_some());
    assert_eq!(b.ledger.orders.len(), 1);
    assert_eq!(b.ledger.orders[0].invoice_id, c);
    assert_eq!(b.ledger.rates.len(), 1);
    assert_eq!(b.ledger.rates[0].order_id, OrderId(20));
    assert_eq!(b.intents.len(), 1);
    assert!(b.delete_invoice(InvoiceId(77)).is_none());
}

#[test]
fn worker_tick_runs_handlers() {
    let mut b = Billing::new();
    let id = card_invoice(&mut b, 1, "pi_w", 300);
    assert!(b.process_events(0, 30, 5).is_none());
    b.handle_card_event(CardEventKind::PaymentIntentAmountCapturableUpdated, PaymentIntentId(String::from("pi_w"))).unwrap();
    let (eid, res) = b.process_events(1, 30, 5).unwrap();
    assert!(matches!(res, Ok(EventAction::Nothing)));
    let entry = b.events.entries.iter().find(|e| e.id == eid).unwrap();
    assert_eq!(entry.status, EventStatus::Completed);
    assert!(b.ledger.get_invoice(id).unwrap().paid_at.is_some());
    assert_eq!(b.ledger.fees.len(), 1);
    assert_eq!(b.ledger.fees[0].amount, 15);
    // The paid invoice's InvoicePaid is next.
    let (_, res) = b.process_events(2, 30, 5).unwrap();
    assert!(matches!(res, Ok(EventAction::NotifyPaid(x)) if x == id));
    // The expiry comes due later and finds the invoice paid.
    let (_, res) = b.process_events(10_000, 30, 5).unwrap();
    assert!(matches!(res, Ok(EventAction::Expiry(_))));
    assert!(!b.ledger.get_invoice(id).unwrap().expired);
    assert!(b.process_events(10_001, 30, 5).is_none());
}

#[test]
fn failing_handler_fails_the_entry() {
    let mut b = Billing::new();
    b.handle_card_event(CardEventKind::PaymentIntentAmountCapturableUpdated, PaymentIntentId(String::from("pi_unknown"))).unwrap();
    let (eid, res) = b.process_events(0, 30, 5).unwrap();
    assert_eq!(res.unwrap_err(), BillingError::Internal(InternalReason::MissingRow));
    let entry = b.events.entries.iter().find(|e| e.id == eid).unwrap();
    assert_eq!(entry.status, EventStatus::Failed);
}

#[test]
fn card_events_are_routed() {
    let mut b = Billing::new();
    assert_eq!(b.handle_card_event(CardEventKind::Other, PaymentIntentId(String::from("pi"))), Ok(false));
    assert_eq!(b.events.entries.len(), 0);
    assert_eq!(b.handle_card_event(CardEventKind::PaymentIntentPaymentFailed, PaymentIntentId(String::from("pi"))), Ok(true));
    assert!(matches!(&b.events.payloads[0], EventPayload::PaymentIntentPaymentFailed { payment_intent } if payment_intent.0 == "pi"));
    let (_, res) = b.process_events(0, 30, 5).unwrap();
    assert!(matches!(res, Ok(EventAction::RecordPaymentFailure(p)) if p.0 == "pi"));
}

#[test]
fn order_queries() {
    let mut b = Billing::new();
    let id = card_invoice(&mut b, 3, "pi_q", 100);
    assert_eq!(b.invoice_of_order(OrderId(30)), Some(id));
    assert_eq!(b.invoice_of_order(OrderId(31)), None);
    assert_eq!(b.get_invoice_orders_ids(id), vec![OrderId(30)]);
    assert!(b.get_invoice_orders_ids(InvoiceId(4)).is_empty());
    let dump = b.get_invoice_price(id).unwrap().unwrap();
    assert_eq!(dump.total_price.num, 100 * dump.total_price.den);
    assert!(b.get_invoice_price(InvoiceId(4)).unwrap().is_none());
}

#[test]
fn timestamps_render_in_decimal() {
    assert_eq!(timestamp_text(0), b"0".to_vec());
    assert_eq!(timestamp_text(1_546_300_800), b"1546300800".to_vec());
    assert_eq!(timestamp_text(-42), b"-42".to_vec());
    assert_eq!(timestamp_text(i64::MIN), i64::MIN.to_string().into_bytes());
}

#[test]
fn requests_are_signed() {
    let key_hex = "0707070707070707070707070707070707070707070707070707070707070707";
    let h = request_auth(1_546_300_800, key_hex, "token").unwrap();
    assert_eq!(h.authorization, "Bearer token");
    assert_eq!(h.timestamp, b"1546300800".to_vec());
    assert!(h.device_id.is_empty());
    let secp = secp256k1::Secp256k1::new();
    let sk = secp256k1::SecretKey::from_slice(&[7u8; 32]).unwrap();
    let digest = sha2::Sha256::digest(b"1546300800");
    let msg = secp256k1::Message::from_slice(&digest).unwrap();
    let expected = secp.sign(&msg, &sk).serialize_compact();
    assert_eq!(h.sign, hex::encode(&expected[..]));
    assert_eq!(h.sign.len(), 128);
    assert_eq!(h.sign, h.sign.to_lowercase());
    let pk = secp256k1::PublicKey::from_secret_key(&secp, &sk);
    assert!(secp.verify(&msg, &secp256k1::Signature::from_compact(&expected).unwrap(), &pk).is_ok());
    assert_eq!(request_auth(0, "abcd", "t").unwrap_err(), BillingError::Internal(InternalReason::NotConfigured));
    // A key with a stray character or an odd digit count is refused.
    let stray = "070707070707070707070707070707070707070707070707070707070707070z";
    assert!(request_auth(0, stray, "t").is_err());
    assert!(request_auth(0, &key_hex[1..], "t").is_err());
    assert!(request_auth(0, &key_hex.to_uppercase(), "t").is_ok());
    assert!(request_auth(0, "0000000000000000000000000000000000000000000000000000000000000000", "t").is_err());
}

#[test]
fn system_accounts_lookup() {
    let accounts = SystemAccounts::from_ids(AccountId(1), AccountId(2), AccountId(3), AccountId(4));
    assert_eq!(accounts.get(TureCurrency::Stq, SystemAccountType::Main), Some(AccountId(1)));
    assert_eq!(accounts.get(TureCurrency::Btc, SystemAccountType::Main), Some(AccountId(3)));
    assert_eq!(accounts.get(TureCurrency::Stq, SystemAccountType::Cashback), Some(AccountId(4)));
    assert_eq!(accounts.get(TureCurrency::Eth, SystemAccountType::Cashback), None);
}

#[test]
fn payment_kind_by_currency() {
    let mut b = Billing::new();
    card_invoice(&mut b, 5, "pi_k", 100);
    let mut order = b.ledger.orders[0];
    order.stripe_fee = Some(3);
    assert!(matches!(order.payment_kind(), OrderPaymentKind::Fiat { currency: Currency::Eur, stripe_fee: Some(3) }));
    order.seller_currency = Currency::Eth;
    assert!(matches!(order.payment_kind(), OrderPaymentKind::Crypto { crypto_currency: TureCurrency::Eth }));
}

#[test]
fn wallet_lookup_picks_the_account() {
    let mut b = Billing::new();
    b.ledger.insert_account(Account { id: AccountId(1), currency: TureCurrency::Eth, is_pooled: true, wallet_address: WalletAddress::new(String::from("0x1")) });
    b.ledger.insert_account(Account { id: AccountId(2), currency: TureCurrency::Eth, is_pooled: true, wallet_address: WalletAddress::new(String::from("0x2")) });
    assert_eq!(b.ledger.get_account_by_wallet_address(&WalletAddress::new(String::from("0x2"))), Some(AccountId(2)));
    assert_eq!(b.ledger.get_account_by_wallet_address(&WalletAddress::new(String::from("0x3"))), None);
}

#[test]
fn payment_failure_is_recorded() {
    let mut b = Billing::new();
    let id = card_invoice(&mut b, 6, "pi_f", 100);
    b.handle_card_event(CardEventKind::PaymentIntentPaymentFailed, PaymentIntentId(String::from("pi_f"))).unwrap();
    let (_, res) = b.process_events(0, 30, 5).unwrap();
    assert!(matches!(res, Ok(EventAction::RecordPaymentFailure(_))));
    assert!(b.intents[0].payment_failed);
    assert!(b.ledger.get_invoice(id).unwrap().paid_at.is_none());
    assert!(!b.mark_intent_failed(&PaymentIntentId(String::from("pi_none"))));
}

#[test]
fn expiry_deadlines() {
    assert_eq!(expiry_deadline(1_000, Currency::Eur, 30, 10), 1_600);
    assert_eq!(expiry_deadline(1_000, Currency::Btc, 30, 10), 2_800);
    assert_eq!(expiry_deadline(i64::MAX - 5, Currency::Eth, 1, 1), i64::MAX);
}

#[test]
fn refresh_only_unpaid_crypto_invoices() {
    let mut b = Billing::new();
    let id = card_invoice(&mut b, 8, "pi_r", 100);
    let inv = b.ledger.get_invoice(id).unwrap();
    assert!(!needs_rate_refresh(&inv));
    let mut crypto = inv;
    crypto.buyer_currency = Currency::Eth;
    assert!(needs_rate_refresh(&crypto));
    crypto.paid_at = Some(1);
    assert!(!needs_rate_refresh(&crypto));
}

#[test]
fn strict_hex_keys() {
    assert_eq!(parse_hex_strict("0aFF"), Some(vec![0x0a, 0xff]));
    assert_eq!(parse_hex_strict("0aF"), None);
    assert_eq!(parse_hex_strict("0a-F"), None);
    assert_eq!(parse_hex_strict(""), Some(vec![]));
}

#[test]
fn payment_intent_ids_are_not_reused() {
    let mut b = Billing::new();
    card_invoice(&mut b, 9, "pi_same", 100);
    let invoice_id = InvoiceId(10);
    let create = CreateOrder { id: OrderId(100), store_id: StoreId(1), currency: Currency::Eur, total_amount: 5, cashback_percent: None };
    let planned = plan_order(invoice_id, Currency::Eur, &create, None).unwrap();
    let row = PaymentIntentRow::new(PaymentIntentId(String::from("pi_same")), invoice_id, 5, Currency::Eur);
    assert_eq!(
        b.create_invoice(invoice_id, 1, Currency::Eur, &vec![planned], None, Some(row), 1).unwrap_err(),
        BillingError::Internal(InternalReason::DuplicateId)
    );
    assert!(b.ledger.get_invoice(invoice_id).is_none());
}

#[test]
fn missing_account_row() {
    let mut b = Billing::new();
    let invoice_id = InvoiceId(11);
    let create = CreateOrder { id: OrderId(110), store_id: StoreId(1), currency: Currency::Stq, total_amount: 5, cashback_percent: None };
    let planned = plan_order(invoice_id, Currency::Stq, &create, None).unwrap();
    assert_eq!(
        b.create_invoice(invoice_id, 1, Currency::Stq, &vec![planned], Some(AccountId(404)), None, 1).unwrap_err(),
        BillingError::Internal(InternalReason::MissingRow)
    );
    assert_eq!(b.events.entries.len(), 0);
}

#[test]
fn taken_event_ids_are_refused() {
    let mut b = Billing::new();
    let id = card_invoice(&mut b, 12, "pi_e", 100);
    let taken = b.events.entries[0].id;
    // Creating with a journaled event id.
    let other = InvoiceId(13);
    let create = CreateOrder { id: OrderId(130), store_id: StoreId(1), currency: Currency::Eur, total_amount: 5, cashback_percent: None };
    let planned = plan_order(other, Currency::Eur, &create, None).unwrap();
    assert_eq!(
        b.create_invoice_with_event(other, 1, Currency::Eur, &vec![planned], None, None, 1, taken).unwrap_err(),
        BillingError::Internal(InternalReason::DuplicateId)
    );
    // Settling the card payment with a journaled event id changes nothing.
    assert_eq!(
        b.payment_intent_success_with_event(&PaymentIntentId(String::from("pi_e")), 5, 0, taken).unwrap_err(),
        BillingError::Internal(InternalReason::DuplicateId)
    );
    assert!(b.ledger.get_invoice(id).unwrap().paid_at.is_none());
    assert_eq!(b.ledger.fees.len(), 0);
    // A fresh id settles it.
    b.payment_intent_success_with_event(&PaymentIntentId(String::from("pi_e")), 5, 0, EventId(424242)).unwrap();
    assert!(b.ledger.get_invoice(id).unwrap().paid_at.is_some());
    assert!(b.events.entries.iter().any(|e| e.id == EventId(424242)));
    // Unknown intent.
    assert_eq!(
        b.payment_intent_success(&PaymentIntentId(String::from("pi_none")), 5, 0).unwrap_err(),
        BillingError::Internal(InternalReason::MissingRow)
    );
}

#[test]
fn recalculation_with_given_event() {
    let mut b = Billing::new();
    let id = InvoiceId(20);
    b.ledger.insert_account(Account { id: AccountId(5), currency: TureCurrency::Stq, is_pooled: true, wallet_address: WalletAddress::new(String::from("0x5")) });
    let create = CreateOrder { id: OrderId(200), store_id: StoreId(1), currency: Currency::Stq, total_amount: 10, cashback_percent: None };
    let planned = plan_order(id, Currency::Stq, &create, None).unwrap();
    b.create_invoice(id, 1, Currency::Stq, &vec![planned], Some(AccountId(5)), None, 1).unwrap();
    let taken = b.events.entries[0].id;
    let mut l = b.ledger.clone();
    l.increase_amount_captured(AccountId(5), billing::ids::TransactionId(1), 10).unwrap();
    b.ledger = l;
    let event = billing::events::Event { id: taken, payload: EventPayload::InvoicePaid { invoice_id: id } };
    assert_eq!(b.recalculate_with_event(id, 3, event).unwrap_err(), BillingError::Internal(InternalReason::DuplicateId));
    assert!(b.ledger.get_invoice(id).unwrap().paid_at.is_none());
    let event = billing::events::Event { id: EventId(99), payload: EventPayload::InvoicePaid { invoice_id: id } };
    let dump = b.recalculate_with_event(id, 3, event).unwrap();
    assert_eq!(dump.total_price.num, 10 * dump.total_price.den);
    assert_eq!(b.ledger.get_invoice(id).unwrap().final_amount_paid, Some(10));
    assert_eq!(b.recalculate_with_event(InvoiceId(21), 3, billing::events::Event { id: EventId(98), payload: EventPayload::InvoicePaid { invoice_id: InvoiceId(21) } }).unwrap_err(), BillingError::Internal(InternalReason::MissingRow));
}

#[test]
fn crypto_dump_carries_the_wallet() {
    let mut b = Billing::new();
    let id = InvoiceId(30);
    b.ledger.insert_account(Account { id: AccountId(7), currency: TureCurrency::Stq, is_pooled: true, wallet_address: WalletAddress::new(String::from("0xpool7")) });
    let create = CreateOrder { id: OrderId(300), store_id: StoreId(1), currency: Currency::Stq, total_amount: 100, cashback_percent: None };
    let planned = plan_order(id, Currency::Stq, &create, None).unwrap();
    let dump = b.create_invoice(id, 1, Currency::Stq, &vec![planned], Some(AccountId(7)), None, 1).unwrap();
    assert_eq!(dump.wallet_address.map(|w| w.into_inner()), Some(String::from("0xpool7")));
    assert_eq!(dump.orders.len(), 1);
    assert_eq!(dump.orders[0].order.id, OrderId(300));
    let again = b.get_invoice_price(id).unwrap().unwrap();
    assert_eq!(again.wallet_address.map(|w| w.into_inner()), Some(String::from("0xpool7")));
}

#[test]
fn card_event_with_given_id() {
    let mut b = Billing::new();
    assert_eq!(b.handle_card_event_with_event(CardEventKind::PaymentIntentPaymentFailed, PaymentIntentId(String::from("pi")), EventId(5)), Ok(true));
    assert_eq!(b.events.entries[0].id, EventId(5));
    assert_eq!(
        b.handle_card_event_with_event(CardEventKind::PaymentIntentPaymentFailed, PaymentIntentId(String::from("pi")), EventId(5)),
        Err(BillingError::Internal(InternalReason::DuplicateId))
    );
    assert_eq!(b.handle_card_event_with_event(CardEventKind::Other, PaymentIntentId(String::from("pi")), EventId(5)), Ok(false));
}

#[test]
fn fees_get_ledger_ids() {
    let mut b = Billing::new();
    card_invoice(&mut b, 40, "pi_40", 100);
    card_invoice(&mut b, 41, "pi_41", 200);
    b.payment_intent_success(&PaymentIntentId(String::from("pi_40")), 10, 0).unwrap();
    b.payment_intent_success(&PaymentIntentId(String::from("pi_41")), 10, 0).unwrap();
    assert_eq!(b.ledger.fees.len(), 2);
    assert_eq!(b.ledger.fees[0].id, 0);
    assert_eq!(b.ledger.fees[1].id, 1);
    assert_eq!(b.ledger.fees[1].amount, 20);
}
