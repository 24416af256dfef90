//! The invoice service: the engine's state and its invariant, recalculation
//! and paid detection, creation, expiry, card-payment success and deletion.
//! Calls to the gateways happen outside; their answers come in as arguments.
use vstd::prelude::*;
use crate::currency::Currency;
use crate::error::{BillingError, InternalReason};
use crate::events::{EntryState, Event, EventPayload, EventStatus, EventStore};
use crate::fee::{fees_for_orders, spec_fee_amount};
use crate::ids::{AccountId, EventId, InvoiceId, OrderId, PaymentIntentId, WalletAddress};
use crate::ledger::{Ledger, apply_rates};
use crate::model::{Fee, FeeStatus, Invoice, NewOrderExchangeRate, Order, OrderExchangeRate, RateStatus};
use crate::planning::{PlannedOrder, all_rates_wf, new_rate_of, planned_as_rates, planned_rates, planned_wf};
use crate::pricing::{
    InvoiceDump, OrderRates, calculate_invoice_price, cashback_sum, effective_rate, has_become_paid, has_missing, order_frac,
    priceable, round_half_even, to_minor_units, total_frac,
};

verus! {

/// The link between a card payment intent and the invoice it pays.
#[derive(Clone, Debug)]
pub struct PaymentIntentRow {
    pub id: PaymentIntentId,
    pub invoice_id: InvoiceId,
    pub amount: u64,
    pub currency: Currency,
    /// The card gateway reported that the payment failed.
    pub payment_failed: bool,
}

/// The whole state of the engine: the ledger, the event journal and the
/// payment intents of card-paid invoices.
#[derive(Clone, Debug)]
pub struct Billing {
    pub ledger: Ledger,
    pub events: EventStore,
    pub intents: Vec<PaymentIntentRow>,
}

/// How many `InvoicePaid` events for `id` the journal holds.
pub open spec fn paid_events(p: Seq<EventPayload>, id: InvoiceId) -> nat
    decreases p.len(),
{
    if p.len() == 0 {
        0
    } else {
        paid_events(p.drop_last(), id) + if p.last() == (EventPayload::InvoicePaid { invoice_id: id }) {
            1nat
        } else {
            0nat
        }
    }
}

pub proof fn lemma_paid_events_push(p: Seq<EventPayload>, x: EventPayload, id: InvoiceId)
    ensures
        paid_events(p.push(x), id) == paid_events(p, id) + if x == (EventPayload::InvoicePaid { invoice_id: id }) {
            1nat
        } else {
            0nat
        },
{
    assert(p.push(x).drop_last() =~= p);
}

/// The orders of the invoice `id` in `l`, each with all of its rates.
pub open spec fn gathered(l: Ledger, id: InvoiceId, s: Seq<OrderRates>) -> bool {
    let os = l.orders@.filter(|o: Order| o.invoice_id == id);
    &&& s.len() == os.len()
    &&& forall|i: int| 0 <= i < s.len() ==> {
        &&& (#[trigger] s[i]).order == os[i]
        &&& s[i].rates@ == l.rates@.filter(|x: OrderExchangeRate| x.order_id == os[i].id)
    }
}

/// The journal only grew: every entry of `a` is still in `b`, unchanged.
pub open spec fn journal_grows(a: EventStore, b: EventStore) -> bool {
    &&& a.entries@.len() <= b.entries@.len()
    &&& forall|k: int| 0 <= k < a.entries@.len() ==> #[trigger] b.entries@[k] == a.entries@[k]
}

/// Every paid invoice of `a` is still in `b`, with the same payment time and
/// final amounts.
#[verifier::opaque]
pub open spec fn paid_kept(a: Ledger, b: Ledger) -> bool {
    forall|i: int|
        0 <= i < a.invoices@.len() && (#[trigger] a.invoices@[i]).is_paid() ==> (b.invoice(a.invoices@[i].id) matches Some(x)
            && x.paid_at == a.invoices@[i].paid_at && x.final_amount_paid == a.invoices@[i].final_amount_paid
            && x.final_cashback_amount == a.invoices@[i].final_cashback_amount)
}

/// `paid_kept` from position-wise facts: the first invoices of `b` are those
/// of `a`, in place, and the paid ones keep their final fields.
pub proof fn lemma_paid_kept(a: Ledger, b: Ledger)
    requires
        b.wf(),
        a.invoices@.len() <= b.invoices@.len(),
        forall|i: int| 0 <= i < a.invoices@.len() ==> (#[trigger] b.invoices@[i]).id == a.invoices@[i].id,
        forall|i: int|
            0 <= i < a.invoices@.len() && (#[trigger] a.invoices@[i]).is_paid() ==> b.invoices@[i].paid_at == a.invoices@[i].paid_at
                && b.invoices@[i].final_amount_paid == a.invoices@[i].final_amount_paid
                && b.invoices@[i].final_cashback_amount == a.invoices@[i].final_cashback_amount,
    ensures
        paid_kept(a, b),
{
    reveal(paid_kept);
    assert forall|i: int| 0 <= i < a.invoices@.len() && (#[trigger] a.invoices@[i]).is_paid() implies (b.invoice(
        a.invoices@[i].id,
    ) matches Some(x) && x.paid_at == a.invoices@[i].paid_at && x.final_amount_paid == a.invoices@[i].final_amount_paid
        && x.final_cashback_amount == a.invoices@[i].final_cashback_amount) by {
        assert(b.invoices@[i].id == a.invoices@[i].id);
        crate::ledger::lemma_index_unique(b.invoices@, i, a.invoices@[i].id);
    }
}

/// Keeping paid invoices final composes.
pub proof fn lemma_paid_kept_trans(a: Ledger, b: Ledger, c: Ledger)
    requires
        b.wf(),
        paid_kept(a, b),
        paid_kept(b, c),
    ensures
        paid_kept(a, c),
{
    reveal(paid_kept);
    assert forall|i: int| 0 <= i < a.invoices@.len() && (#[trigger] a.invoices@[i]).is_paid() implies (c.invoice(
        a.invoices@[i].id,
    ) matches Some(x) && x.paid_at == a.invoices@[i].paid_at && x.final_amount_paid == a.invoices@[i].final_amount_paid
        && x.final_cashback_amount == a.invoices@[i].final_cashback_amount) by {
        let id = a.invoices@[i].id;
        let y = b.invoice(id).unwrap();
        let k = crate::ledger::invoice_index(b.invoices@, id).unwrap();
        assert(b.invoices@[k] == y);
        assert(b.invoices@[k].is_paid());
    }
}

/// The invoice once paid: the final amounts and the time are recorded.
pub open spec fn paid_invoice(inv: Invoice, final_amount: int, final_cashback: int, now: i64) -> Invoice {
    Invoice {
        final_amount_paid: Some(final_amount as u128),
        final_cashback_amount: Some(final_cashback as u128),
        paid_at: Some(now),
        ..inv
    }
}

/// The invoice's account, if it names one, is in the ledger.
pub open spec fn account_ok(l: Ledger, inv: Invoice) -> bool {
    inv.account_id matches Some(a) ==> exists|k: int| 0 <= k < l.accounts@.len() && (#[trigger] l.accounts@[k]).id == a
}

/// `k` is the first account of `l` with id `a`.
pub open spec fn first_account_with_id(l: Ledger, a: AccountId, k: int) -> bool {
    &&& 0 <= k < l.accounts@.len()
    &&& l.accounts@[k].id == a
    &&& forall|j: int| 0 <= j < k ==> (#[trigger] l.accounts@[j]).id != a
}

/// `w` is the wallet of `inv`'s account in `l`: none without an account,
/// else the address of the account (the first with its id).
pub open spec fn wallet_matches(l: Ledger, inv: Invoice, w: Option<WalletAddress>) -> bool {
    match inv.account_id {
        None => w.is_none(),
        Some(a) => w matches Some(x) && exists|k: int| #[trigger] first_account_with_id(l, a, k) && x@ == l.accounts@[k].wallet_address@,
    }
}

/// `d` prices the invoice `inv` from its orders `s` in the ledger `l`: the
/// totals, the per-order breakdown and the wallet address.
pub open spec fn priced(d: InvoiceDump, l: Ledger, inv: Invoice, s: Seq<OrderRates>) -> bool {
    &&& d.invoice == inv
    &&& d.total_price@ == total_frac(s, inv.buyer_currency)
    &&& d.total_cashback == cashback_sum(s)
    &&& d.has_missing_rates == has_missing(s, inv.buyer_currency)
    &&& wallet_matches(l, inv, d.wallet_address)
    &&& d.orders@.len() == s.len()
    &&& forall|i: int| 0 <= i < s.len() ==> {
        &&& (#[trigger] d.orders@[i]).order == s[i].order
        &&& d.orders@[i].rate == effective_rate(s[i].order, s[i].rates@, inv.buyer_currency)
        &&& d.orders@[i].price.is_some() == d.orders@[i].rate.is_some()
        &&& (d.orders@[i].price matches Some(p) ==> p@ == order_frac(s[i].order, d.orders@[i].rate.unwrap(), inv.buyer_currency))
    }
}

/// The result of pricing `inv` from its orders `s` in the ledger `l`: a
/// missing account row, else an overflow, else the priced invoice.
pub open spec fn price_outcome(l: Ledger, inv: Invoice, s: Seq<OrderRates>, r: Result<InvoiceDump, BillingError>) -> bool {
    if !account_ok(l, inv) {
        r == Err::<InvoiceDump, BillingError>(BillingError::Internal(InternalReason::MissingRow))
    } else if !priceable(s, inv.buyer_currency) {
        r == Err::<InvoiceDump, BillingError>(BillingError::Internal(InternalReason::Overflow))
    } else {
        r matches Ok(d) && priced(d, l, inv, s)
    }
}

/// The unpaid invoice `inv`, priced from `s`, is paid for: no order lacks a
/// rate and the captured amount covers the total.
pub open spec fn pays(inv: Invoice, s: Seq<OrderRates>) -> bool {
    &&& !inv.is_paid()
    &&& !has_missing(s, inv.buyer_currency)
    &&& crate::pricing::spec_covers(inv.amount_captured as int, total_frac(s, inv.buyer_currency))
}

/// The journal holds an entry with id `eid`.
pub open spec fn journaled(e: EventStore, eid: EventId) -> bool {
    exists|k: int| 0 <= k < e.entries@.len() && (#[trigger] e.entries@[k]).id == eid
}

/// `b2` is `b` with invoice `id` (that is `inv`) paid at `now` with the
/// given final amounts, and one `InvoicePaid` journaled under `eid`.
pub open spec fn paid_recorded(
    b: Billing,
    id: InvoiceId,
    inv: Invoice,
    final_amount: int,
    final_cashback: int,
    now: i64,
    eid: EventId,
    b2: Billing,
) -> bool {
    let paid = paid_invoice(inv, final_amount, final_cashback, now);
    &&& b2.ledger.invoices@ == b.ledger.invoices@.update(crate::ledger::invoice_index(b.ledger.invoices@, id).unwrap(), paid)
    &&& b2.ledger.invoice(id) == Some(paid)
    &&& b2.ledger.orders == b.ledger.orders
    &&& b2.ledger.rates == b.ledger.rates
    &&& b2.ledger.accounts == b.ledger.accounts
    &&& b2.ledger.captures == b.ledger.captures
    &&& b2.ledger.fees == b.ledger.fees
    &&& b2.events.payloads@ == b.events.payloads@.push(EventPayload::InvoicePaid { invoice_id: id })
    &&& b2.events.entries@ == b.events.entries@.push(
        EntryState { id: eid, status: EventStatus::Pending, scheduled_for: None, attempts: 0, lease_until: None },
    )
    &&& b2.intents == b.intents
}

/// What recalculating the invoice `inv` (id `id`) from its orders `s` does.
pub open spec fn recalculated_from(
    b: Billing,
    id: InvoiceId,
    inv: Invoice,
    s: Seq<OrderRates>,
    now: i64,
    eid: EventId,
    r: Result<InvoiceDump, BillingError>,
    b2: Billing,
) -> bool {
    if !account_ok(b.ledger, inv) || !priceable(s, inv.buyer_currency) || !pays(inv, s) {
        price_outcome(b.ledger, inv, s, r) && b2 == b
    } else if journaled(b.events, eid) {
        r == Err::<InvoiceDump, BillingError>(BillingError::Internal(InternalReason::DuplicateId)) && b2 == b
    } else {
        (r matches Ok(d) && priced(d, b.ledger, inv, s)) && paid_recorded(
            b,
            id,
            inv,
            round_half_even(total_frac(s, inv.buyer_currency).0, total_frac(s, inv.buyer_currency).1),
            cashback_sum(s),
            now,
            eid,
            b2,
        )
    }
}

/// What recalculating invoice `id` at `now` does, from `b` to `b2` with
/// result `r`, an `InvoicePaid` being journaled under `eid`: a missing
/// invoice is a missing row; otherwise the invoice is priced from all its
/// rates, and an unpaid invoice that is paid for is recorded as paid with
/// its total rounded half to even and its cashback.
pub open spec fn recalculated(b: Billing, id: InvoiceId, now: i64, eid: EventId, r: Result<InvoiceDump, BillingError>, b2: Billing) -> bool {
    match b.ledger.invoice(id) {
        None => r == Err::<InvoiceDump, BillingError>(BillingError::Internal(InternalReason::MissingRow)) && b2 == b,
        Some(inv) => exists|s: Seq<OrderRates>| #[trigger] gathered(b.ledger, id, s) && recalculated_from(b, id, inv, s, now, eid, r, b2),
    }
}

/// `b2` is `b` with the rates `ns` stored, each as its order's active rate.
pub open spec fn rates_saved(b: Billing, ns: Seq<NewOrderExchangeRate>, b2: Billing) -> bool {
    &&& b2.ledger.rates@ == apply_rates(b.ledger.rates@, ns)
    &&& b2.ledger.invoices == b.ledger.invoices
    &&& b2.ledger.orders == b.ledger.orders
    &&& b2.ledger.accounts == b.ledger.accounts
    &&& b2.ledger.captures == b.ledger.captures
    &&& b2.ledger.fees == b.ledger.fees
    &&& b2.events == b.events
    &&& b2.intents == b.intents
}

/// An optional result read as a plain one; `None` reads as not found.
pub open spec fn some_result(r: Result<Option<InvoiceDump>, BillingError>) -> Result<InvoiceDump, BillingError> {
    match r {
        Ok(Some(d)) => Ok(d),
        Ok(None) => Err(BillingError::NotFound),
        Err(e) => Err(e),
    }
}

impl Billing {
    /// The ledger and the journal are well formed, payment intents are
    /// linked once each, and the journal holds one `InvoicePaid` for each
    /// paid invoice and none for an unpaid one.
    pub open spec fn wf(&self) -> bool {
        &&& self.ledger.wf()
        &&& self.events.wf()
        &&& forall|a: int, b: int|
            0 <= a < self.intents@.len() && 0 <= b < self.intents@.len() && #[trigger] self.intents@[a].id.0@
                == #[trigger] self.intents@[b].id.0@ ==> a == b
        &&& forall|i: int| 0 <= i < self.ledger.invoices@.len() ==> paid_events(
            self.events.payloads@,
            (#[trigger] self.ledger.invoices@[i]).id,
        ) == if self.ledger.invoices@[i].is_paid() {
            1nat
        } else {
            0nat
        }
    }

    pub fn new() -> (r: Billing)
        ensures
            r.wf(),
            r.ledger.invoices@.len() == 0,
            r.events.entries@.len() == 0,
            r.intents@.len() == 0,
    {
        Billing { ledger: Ledger::new(), events: EventStore::new(), intents: Vec::new() }
    }

    /// The invoice's orders with all of their rates.
    pub fn gather(&self, id: InvoiceId) -> (r: Vec<OrderRates>)
        requires
            self.ledger.wf(),
        ensures
            gathered(self.ledger, id, r@),
            crate::pricing::rates_wf(r@),
    {
        let orders = self.ledger.get_orders_by_invoice(id);
        let ghost os = orders@;
        let mut out: Vec<OrderRates> = Vec::new();
        let mut i: usize = 0;
        while i < orders.len()
            invariant
                self.ledger.wf(),
                os == orders@,
                os == self.ledger.orders@.filter(|o: Order| o.invoice_id == id),
                0 <= i <= os.len(),
                out@.len() == i,
                forall|k: int| 0 <= k < i ==> {
                    &&& (#[trigger] out@[k]).order == os[k]
                    &&& out@[k].rates@ == self.ledger.rates@.filter(|x: OrderExchangeRate| x.order_id == os[k].id)
                },
                forall|k: int, j: int| 0 <= k < i && 0 <= j < out@[k].rates@.len() ==> (#[trigger] out@[k].rates@[j]).rate.wf(),
            decreases os.len() - i,
        {
            let order = orders[i];
            let rates = self.ledger.get_all_rates_for_order(order.id);
            out.push(OrderRates { order, rates });
            i = i + 1;
        }
        out
    }

    /// The wallet address of the invoice's account, if it has one.
    fn wallet_of(&self, inv: &Invoice) -> (r: Result<Option<WalletAddress>, BillingError>)
        ensures
            (r is Ok) == account_ok(self.ledger, *inv),
            r matches Ok(w) ==> wallet_matches(self.ledger, *inv, w),
            r matches Err(e) ==> e == BillingError::Internal(InternalReason::MissingRow),
    {
        match inv.account_id {
            None => Ok(None),
            Some(a) => match self.ledger.find_account(a) {
                None => Err(BillingError::Internal(InternalReason::MissingRow)),
                Some(i) => {
                    proof {
                        assert(first_account_with_id(self.ledger, a, i as int));
                    }
                    Ok(Some(WalletAddress(self.ledger.accounts[i].wallet_address.0.clone())))
                },
            },
        }
    }

    /// Prices the invoice `id` from the ledger, with all of its rates: `None`
    /// for a missing invoice, else the outcome of `price_outcome`.
    pub fn get_invoice_price(&self, id: InvoiceId) -> (r: Result<Option<InvoiceDump>, BillingError>)
        requires
            self.ledger.wf(),
        ensures
            self.ledger.invoice(id).is_none() ==> r matches Ok(None),
            self.ledger.invoice(id) matches Some(inv) ==> exists|s: Seq<OrderRates>|
                #[trigger] gathered(self.ledger, id, s) && price_outcome(self.ledger, inv, s, some_result(r)),
    {
        let inv = match self.ledger.get_invoice(id) {
            None => {
                return Ok(None);
            },
            Some(inv) => inv,
        };
        let orders = self.gather(id);
        let wallet = match self.wallet_of(&inv) {
            Ok(w) => w,
            Err(e) => {
                proof {
                    assert(price_outcome(self.ledger, inv, orders@, some_result(Err(e))));
                }
                return Err(e);
            },
        };
        let r = match calculate_invoice_price(inv, &orders, wallet) {
            Ok(d) => Ok(Some(d)),
            Err(e) => Err(e),
        };
        proof {
            assert(price_outcome(self.ledger, inv, orders@, some_result(r)));
        }
        r
    }

    /// Recomputes the invoice's price and, when it has just become paid,
    /// records the final amounts (the total rounded to minor units, half to
    /// even, and the total cashback) at `now` and journals one `InvoicePaid`.
    /// A paid invoice is priced and left as it is.
    pub fn calculate_invoice_price_and_set_final_price_if_paid(&mut self, id: InvoiceId, now: i64) -> (r: Result<
        InvoiceDump,
        BillingError,
    >)
        requires
            old(self).wf(),
        ensures
            final(self).wf(),
            paid_kept(old(self).ledger, final(self).ledger),
            journal_grows(old(self).events, final(self).events),
            exists|eid: EventId| #[trigger] recalculated(*old(self), id, now, eid, r, *final(self)),
    {
        let event = Event::new(EventPayload::InvoicePaid { invoice_id: id });
        let r = self.recalculate_with_event(id, now, event);
        r
    }

    /// As `calculate_invoice_price_and_set_final_price_if_paid`, with the
    /// `InvoicePaid` to journal given.
    pub fn recalculate_with_event(&mut self, id: InvoiceId, now: i64, event: Event) -> (r: Result<InvoiceDump, BillingError>)
        requires
            old(self).wf(),
            event.payload == (EventPayload::InvoicePaid { invoice_id: id }),
        ensures
            final(self).wf(),
            paid_kept(old(self).ledger, final(self).ledger),
            journal_grows(old(self).events, final(self).events),
            recalculated(*old(self), id, now, event.id, r, *final(self)),
    {
        proof {
            lemma_paid_kept(self.ledger, self.ledger);
        }
        let eid = event.id;
        let inv = match self.ledger.get_invoice(id) {
            None => {
                return Err(BillingError::Internal(InternalReason::MissingRow));
            },
            Some(inv) => inv,
        };
        let orders = self.gather(id);
        let wallet = match self.wallet_of(&inv) {
            Ok(w) => w,
            Err(e) => {
                proof {
                    assert(recalculated_from(*self, id, inv, orders@, now, eid, Err(e), *self));
                }
                return Err(e);
            },
        };
        let dump = match calculate_invoice_price(inv, &orders, wallet) {
            Ok(d) => d,
            Err(e) => {
                proof {
                    assert(recalculated_from(*self, id, inv, orders@, now, eid, Err(e), *self));
                }
                return Err(e);
            },
        };
        proof {
            crate::pricing::lemma_total_den_positive(orders@, inv.buyer_currency);
        }
        if inv.paid_at.is_some() || !has_become_paid(&dump) {
            proof {
                assert(recalculated_from(*self, id, inv, orders@, now, eid, Ok(dump), *self));
            }
            return Ok(dump);
        }
        let final_amount = to_minor_units(&dump.total_price);
        let ghost before = *self;
        match self.record_paid(id, final_amount, dump.total_cashback, now, event) {
            Ok(()) => {},
            Err(e) => {
                proof {
                    assert(recalculated_from(before, id, inv, orders@, now, eid, Err(e), *self));
                }
                return Err(e);
            },
        }
        proof {
            assert(recalculated_from(before, id, inv, orders@, now, eid, Ok(dump), *self));
        }
        Ok(dump)
    }
}

impl Billing {
    /// Records that the unpaid invoice `id` is paid, with its final amounts,
    /// and journals `event` (its `InvoicePaid`). An event id already in the
    /// journal is refused and nothing changes.
    fn record_paid(&mut self, id: InvoiceId, final_amount: u128, final_cashback: u128, now: i64, event: Event) -> (r: Result<
        (),
        BillingError,
    >)
        requires
            old(self).wf(),
            old(self).ledger.invoice(id) matches Some(inv) && !inv.is_paid(),
            event.payload == (EventPayload::InvoicePaid { invoice_id: id }),
        ensures
            final(self).wf(),
            paid_kept(old(self).ledger, final(self).ledger),
            journal_grows(old(self).events, final(self).events),
            journaled(old(self).events, event.id) ==> *final(self) == *old(self) && r == Err::<(), BillingError>(
                BillingError::Internal(InternalReason::DuplicateId),
            ),
            !journaled(old(self).events, event.id) ==> r is Ok && paid_recorded(
                *old(self),
                id,
                old(self).ledger.invoice(id).unwrap(),
                final_amount as int,
                final_cashback as int,
                now,
                event.id,
                *final(self),
            ),
    {
        proof {
            lemma_paid_kept(self.ledger, self.ledger);
        }
        if self.events.find(event.id).is_some() {
            return Err(BillingError::Internal(InternalReason::DuplicateId));
        }
        let ghost before = *self;
        let ghost eid = event.id;
        let _ = self.ledger.set_invoice_paid(id, final_amount, final_cashback, now);
        let _ = self.events.add_event(event);
        proof {
            let k = crate::ledger::invoice_index(before.ledger.invoices@, id).unwrap();
            assert forall|i: int| 0 <= i < self.ledger.invoices@.len() implies paid_events(
                self.events.payloads@,
                (#[trigger] self.ledger.invoices@[i]).id,
            ) == if self.ledger.invoices@[i].is_paid() {
                1nat
            } else {
                0nat
            } by {
                lemma_paid_events_push(before.events.payloads@, EventPayload::InvoicePaid { invoice_id: id }, self.ledger.invoices@[i].id);
                assert(self.ledger.invoices@[i].id == before.ledger.invoices@[i].id);
                if i != k {
                    assert(before.ledger.invoices@[i].id != id);
                }
            }
            assert forall|i: int| 0 <= i < before.ledger.invoices@.len() && (#[trigger] before.ledger.invoices@[i]).is_paid() implies
                self.ledger.invoices@[i].paid_at == before.ledger.invoices@[i].paid_at
                    && self.ledger.invoices@[i].final_amount_paid == before.ledger.invoices@[i].final_amount_paid
                    && self.ledger.invoices@[i].final_cashback_amount == before.ledger.invoices@[i].final_cashback_amount by {
                if i == k {
                    assert(!before.ledger.invoices@[k].is_paid());
                }
            }
            lemma_paid_kept(before.ledger, self.ledger);
        }
        Ok(())
    }
}

/// `k` is the first link of the payment intent `pi`.
pub open spec fn first_intent_at(intents: Seq<PaymentIntentRow>, pi: Seq<char>, k: int) -> bool {
    &&& 0 <= k < intents.len()
    &&& intents[k].id.0@ == pi
    &&& forall|j: int| 0 <= j < k ==> (#[trigger] intents[j]).id.0@ != pi
}

/// What a successful card payment of the intent `pi` does, from `b` to
/// `b2` with result `r`, an `InvoicePaid` being journaled under `eid`.
pub open spec fn intent_settled(
    b: Billing,
    pi: Seq<char>,
    order_percent: u64,
    now: i64,
    eid: EventId,
    r: Result<(), BillingError>,
    b2: Billing,
) -> bool {
    &&& (forall|k: int| 0 <= k < b.intents@.len() ==> (#[trigger] b.intents@[k]).id.0@ != pi) ==> r
        == Err::<(), BillingError>(BillingError::Internal(InternalReason::MissingRow)) && b2 == b
    &&& forall|k: int| #[trigger] first_intent_at(b.intents@, pi, k) ==> invoice_settled(b, b.intents@[k].invoice_id, order_percent, now, eid, r, b2)
}

/// What a successful card payment for invoice `id` does: a missing invoice
/// is a missing row; a paid one is left as it is; an unpaid one gets one fee
/// per order (an overflowing fee fails), and is recorded as paid at its
/// full price as `recalculated_from` records it, unless its account row is
/// missing, its price overflows or `eid` is taken.
pub open spec fn invoice_settled(
    b: Billing,
    id: InvoiceId,
    order_percent: u64,
    now: i64,
    eid: EventId,
    r: Result<(), BillingError>,
    b2: Billing,
) -> bool {
    let orders = b.ledger.orders@.filter(|o: Order| o.invoice_id == id);
    match b.ledger.invoice(id) {
        None => r == Err::<(), BillingError>(BillingError::Internal(InternalReason::MissingRow)) && b2 == b,
        Some(inv) => if inv.is_paid() {
            r == Ok::<(), BillingError>(()) && b2 == b
        } else if exists|j: int| 0 <= j < orders.len() && #[trigger] orders[j].total_amount * order_percent > u128::MAX {
            r == Err::<(), BillingError>(BillingError::Internal(InternalReason::Overflow)) && b2 == b
        } else {
            exists|s: Seq<OrderRates>|
                #[trigger] gathered(b.ledger, id, s) && if !account_ok(b.ledger, inv) {
                    r == Err::<(), BillingError>(BillingError::Internal(InternalReason::MissingRow)) && b2 == b
                } else if !priceable(s, inv.buyer_currency) {
                    r == Err::<(), BillingError>(BillingError::Internal(InternalReason::Overflow)) && b2 == b
                } else if journaled(b.events, eid) {
                    r == Err::<(), BillingError>(BillingError::Internal(InternalReason::DuplicateId)) && b2 == b
                } else {
                    &&& r is Ok
                    &&& exists|mid: Billing|
                        #[trigger] paid_recorded(
                            b,
                            id,
                            inv,
                            round_half_even(total_frac(s, inv.buyer_currency).0, total_frac(s, inv.buyer_currency).1),
                            cashback_sum(s),
                            now,
                            eid,
                            mid,
                        ) && b2.ledger.invoices == mid.ledger.invoices && b2.events == mid.events && b2.intents == mid.intents
                            && b2.ledger.orders == b.ledger.orders && b2.ledger.rates == b.ledger.rates
                            && b2.ledger.accounts == b.ledger.accounts && b2.ledger.captures == b.ledger.captures
                    &&& b2.ledger.fees@.len() == b.ledger.fees@.len() + orders.len()
                    &&& forall|j: int| 0 <= j < b.ledger.fees@.len() ==> #[trigger] b2.ledger.fees@[j] == b.ledger.fees@[j]
                    &&& forall|j: int| 0 <= j < orders.len() ==> {
                        let o = orders[j];
                        let f = #[trigger] b2.ledger.fees@[b.ledger.fees@.len() + j];
                        &&& f.id == (b.ledger.fees@.len() + j) as u64
                        &&& f.order_id == o.id
                        &&& f.currency == o.seller_currency
                        &&& f.amount == spec_fee_amount(o.total_amount as int, order_percent as int)
                        &&& f.status == FeeStatus::NotPaid
                    }
                }
        },
    }
}

/// What the worker must do outside after a payment expired.
#[derive(Clone, Debug)]
pub enum ExpiryAction {
    /// The invoice was paid or is gone: nothing to do.
    Nothing,
    /// Cancel the card payment intent.
    CancelPaymentIntent(PaymentIntentId),
    /// Give the pooled account back to the crypto gateway.
    ReleaseAccount(AccountId),
}

/// What handling an expired payment of invoice `id` does, from `b` to `b2`
/// with action `r`.
pub open spec fn expiry_handled(b: Billing, id: InvoiceId, r: ExpiryAction, b2: Billing) -> bool {
    &&& b2.events == b.events
    &&& b2.intents == b.intents
    &&& b.ledger.invoice(id).is_none() ==> (r matches ExpiryAction::Nothing) && b2 == b
    &&& b.ledger.invoice(id) matches Some(inv) ==> inv.is_paid() ==> (r matches ExpiryAction::Nothing)
                && b2 == b
    &&& b.ledger.invoice(id) matches Some(inv) ==> !inv.is_paid() ==> {
                &&& b2.ledger.invoice(id) == Some(Invoice { expired: true, ..inv })
                &&& (r matches ExpiryAction::CancelPaymentIntent(p) ==> exists|k: int|
                    0 <= k < b.intents@.len() && (#[trigger] b.intents@[k]).invoice_id == id
                        && b.intents@[k].id.0@ == p.0@)
                &&& (r matches ExpiryAction::ReleaseAccount(a) ==> inv.account_id == Some(a) && forall|k: int|
                    0 <= k < b.intents@.len() ==> (#[trigger] b.intents@[k]).invoice_id != id)
                &&& (r matches ExpiryAction::Nothing ==> inv.account_id.is_none() && forall|k: int|
                    0 <= k < b.intents@.len() ==> (#[trigger] b.intents@[k]).invoice_id != id)
            }
}

impl Billing {
    /// Stores each new rate as its order's active rate, in order.
    pub fn save_rates(&mut self, rates: &Vec<NewOrderExchangeRate>)
        requires
            old(self).wf(),
            all_rates_wf(rates@),
        ensures
            paid_kept(old(self).ledger, final(self).ledger),
            final(self).wf(),
            final(self).ledger.invoices == old(self).ledger.invoices,
            final(self).ledger.orders == old(self).ledger.orders,
            final(self).ledger.accounts == old(self).ledger.accounts,
            final(self).ledger.captures == old(self).ledger.captures,
            final(self).ledger.fees == old(self).ledger.fees,
            final(self).events == old(self).events,
            final(self).intents == old(self).intents,
            final(self).ledger.rates@ == apply_rates(old(self).ledger.rates@, rates@),
            final(self).ledger.rates@.len() == old(self).ledger.rates@.len() + rates@.len(),
            forall|k: int| 0 <= k < rates@.len() ==> {
                let x = #[trigger] final(self).ledger.rates@[old(self).ledger.rates@.len() + k];
                x.order_id == rates@[k].order_id && x.exchange_id == rates@[k].exchange_id && x.rate == rates@[k].rate
            },
    {
        proof {
            lemma_paid_kept(self.ledger, self.ledger);
        }
        let ghost n0 = self.ledger.rates@.len();
        let mut i: usize = 0;
        while i < rates.len()
            invariant
                self.wf(),
                all_rates_wf(rates@),
                0 <= i <= rates@.len(),
                self.ledger.invoices == old(self).ledger.invoices,
                self.ledger.orders == old(self).ledger.orders,
                self.ledger.accounts == old(self).ledger.accounts,
                self.ledger.captures == old(self).ledger.captures,
                self.ledger.fees == old(self).ledger.fees,
                self.events == old(self).events,
                self.intents == old(self).intents,
                n0 == old(self).ledger.rates@.len(),
                self.ledger.rates@.len() == n0 + i,
                self.ledger.rates@ == apply_rates(old(self).ledger.rates@, rates@.take(i as int)),
                forall|k: int| 0 <= k < i ==> {
                    let x = #[trigger] self.ledger.rates@[n0 + k];
                    x.order_id == rates@[k].order_id && x.exchange_id == rates@[k].exchange_id && x.rate == rates@[k].rate
                },
            decreases rates@.len() - i,
        {
            let ghost prev = self.ledger.rates@;
            self.ledger.add_new_active_rate(rates[i]);
            proof {
                assert(rates@.take(i as int + 1).drop_last() =~= rates@.take(i as int));
            }
            proof {
                assert forall|k: int| 0 <= k < i + 1 implies {
                    let x = #[trigger] self.ledger.rates@[n0 + k];
                    x.order_id == rates@[k].order_id && x.exchange_id == rates@[k].exchange_id && x.rate == rates@[k].rate
                } by {
                    if k < i {
                        assert(self.ledger.rates@[n0 + k] == crate::ledger::expire_if_of(prev[n0 + k], rates@[i as int].order_id));
                    }
                }
            }
            i = i + 1;
        }
        proof {
            lemma_paid_kept(old(self).ledger, self.ledger);
            assert(rates@.take(rates@.len() as int) =~= rates@);
        }
    }

    /// Recalculates an invoice: a paid invoice is priced from its stored
    /// rates and nothing changes; otherwise the refreshed rates are stored
    /// and the invoice is recalculated as `recalculated` says. A missing
    /// invoice gives `None`.
    pub fn recalc_invoice(&mut self, id: InvoiceId, new_rates: &Vec<NewOrderExchangeRate>, now: i64) -> (r: Result<
        Option<InvoiceDump>,
        BillingError,
    >)
        requires
            old(self).wf(),
            all_rates_wf(new_rates@),
        ensures
            final(self).wf(),
            paid_kept(old(self).ledger, final(self).ledger),
            old(self).ledger.invoice(id).is_none() ==> (r matches Ok(None)) && *final(self) == *old(self),
            old(self).ledger.invoice(id) matches Some(inv) ==> {
                &&& inv.is_paid() ==> *final(self) == *old(self) && exists|s: Seq<OrderRates>|
                    #[trigger] gathered(old(self).ledger, id, s) && price_outcome(old(self).ledger, inv, s, some_result(r))
                &&& !inv.is_paid() ==> exists|mid: Billing|
                    #[trigger] rates_saved(*old(self), new_rates@, mid) && exists|eid: EventId|
                        #[trigger] recalculated(mid, id, now, eid, some_result(r), *final(self))
            },
    {
        proof {
            lemma_paid_kept(self.ledger, self.ledger);
        }
        let inv = match self.ledger.get_invoice(id) {
            None => {
                return Ok(None);
            },
            Some(inv) => inv,
        };
        if inv.paid_at.is_some() {
            return self.get_invoice_price(id);
        }
        self.save_rates(new_rates);
        let ghost mid = *self;
        proof {
            assert(rates_saved(*old(self), new_rates@, mid));
        }
        let res = self.calculate_invoice_price_and_set_final_price_if_paid(id, now);
        proof {
            lemma_paid_kept_trans(old(self).ledger, mid.ledger, self.ledger);
        }
        let r = match res {
            Ok(d) => Ok(Some(d)),
            Err(e) => Err(e),
        };
        proof {
            assert(some_result(r) == res);
        }
        r
    }

    /// A payment expired: an unpaid invoice is marked expired and its card
    /// intent, or else its pooled account, is to be released. A paid invoice
    /// is left as it is.
    pub fn handle_payment_expired(&mut self, id: InvoiceId) -> (r: ExpiryAction)
        requires
            old(self).wf(),
        ensures
            final(self).wf(),
            paid_kept(old(self).ledger, final(self).ledger),
            expiry_handled(*old(self), id, r, *final(self)),
    {
        proof {
            lemma_paid_kept(self.ledger, self.ledger);
        }
        let ghost before = *self;
        if !self.ledger.mark_expired(id) {
            return ExpiryAction::Nothing;
        }
        proof {
            let k = crate::ledger::invoice_index(before.ledger.invoices@, id).unwrap();
            assert forall|i: int| 0 <= i < self.ledger.invoices@.len() implies paid_events(
                self.events.payloads@,
                (#[trigger] self.ledger.invoices@[i]).id,
            ) == if self.ledger.invoices@[i].is_paid() {
                1nat
            } else {
                0nat
            } by {
                assert(self.ledger.invoices@[i].id == before.ledger.invoices@[i].id);
                assert(self.ledger.invoices@[i].is_paid() == before.ledger.invoices@[i].is_paid());
            }
            crate::ledger::lemma_index_unique(self.ledger.invoices@, k, id);
            lemma_paid_kept(before.ledger, self.ledger);
        }
        if let Some(k) = self.intent_of_invoice(id) {
            return ExpiryAction::CancelPaymentIntent(PaymentIntentId(self.intents[k].id.0.clone()));
        }
        let inv = self.ledger.get_invoice(id).unwrap();
        match inv.account_id {
            Some(a) => ExpiryAction::ReleaseAccount(a),
            None => ExpiryAction::Nothing,
        }
    }

    /// The position of the payment intent of invoice `id`.
    pub fn intent_of_invoice(&self, id: InvoiceId) -> (r: Option<usize>)
        ensures
            r matches Some(i) ==> i < self.intents@.len() && self.intents@[i as int].invoice_id == id,
            r.is_none() ==> forall|k: int| 0 <= k < self.intents@.len() ==> (#[trigger] self.intents@[k]).invoice_id != id,
    {
        let mut k: usize = 0;
        while k < self.intents.len()
            invariant
                0 <= k <= self.intents@.len(),
                forall|j: int| 0 <= j < k ==> (#[trigger] self.intents@[j]).invoice_id != id,
            decreases self.intents@.len() - k,
        {
            if self.intents[k].invoice_id == id {
                return Some(k);
            }
            k = k + 1;
        }
        None
    }

    /// Records that the card payment of intent `id` failed; returns whether
    /// the intent is known. Nothing else changes.
    pub fn mark_intent_failed(&mut self, id: &PaymentIntentId) -> (r: bool)
        requires
            old(self).wf(),
        ensures
            paid_kept(old(self).ledger, final(self).ledger),
            final(self).wf(),
            final(self).ledger == old(self).ledger,
            final(self).events == old(self).events,
            r == exists|k: int| 0 <= k < old(self).intents@.len() && (#[trigger] old(self).intents@[k]).id.0@ == id.0@,
            !r ==> *final(self) == *old(self),
            r ==> exists|k: int|
                0 <= k < old(self).intents@.len() && (#[trigger] old(self).intents@[k]).id.0@ == id.0@
                    && final(self).intents@ == old(self).intents@.update(k, PaymentIntentRow { payment_failed: true, ..old(self).intents@[k] }),
    {
        proof {
            lemma_paid_kept(self.ledger, self.ledger);
        }
        match self.find_intent(id) {
            None => false,
            Some(k) => {
                let ghost before = self.intents@;
                let row = self.intents.remove(k);
                self.intents.insert(k, PaymentIntentRow { payment_failed: true, ..row });
                proof {
                    assert(self.intents@ =~= before.update(k as int, PaymentIntentRow { payment_failed: true, ..before[k as int] }));
                }
                true
            },
        }
    }

    /// The position of the payment intent `id`.
    pub fn find_intent(&self, id: &PaymentIntentId) -> (r: Option<usize>)
        ensures
            r matches Some(i) ==> first_intent_at(self.intents@, id.0@, i as int),
            r.is_none() ==> forall|k: int| 0 <= k < self.intents@.len() ==> (#[trigger] self.intents@[k]).id.0@ != id.0@,
    {
        let mut i: usize = 0;
        while i < self.intents.len()
            invariant
                0 <= i <= self.intents@.len(),
                forall|k: int| 0 <= k < i ==> (#[trigger] self.intents@[k]).id.0@ != id.0@,
            decreases self.intents@.len() - i,
        {
            if self.intents[i].id.0 == id.0 {
                return Some(i);
            }
            i = i + 1;
        }
        None
    }

    /// A card payment succeeded (or its amount became capturable): the
    /// invoice of the intent becomes paid, at its full price, with one fee per
    /// order and one `InvoicePaid`. An invoice that is already paid is left
    /// as it is.
    pub fn payment_intent_success(&mut self, payment_intent: &PaymentIntentId, order_percent: u64, now: i64) -> (r:
        Result<(), BillingError>)
        requires
            old(self).wf(),
        ensures
            final(self).wf(),
            paid_kept(old(self).ledger, final(self).ledger),
            journal_grows(old(self).events, final(self).events),
            exists|eid: EventId| #[trigger] intent_settled(*old(self), payment_intent.0@, order_percent, now, eid, r, *final(self)),
    {
        let eid = EventId::generate();
        self.payment_intent_success_with_event(payment_intent, order_percent, now, eid)
    }

    /// As `payment_intent_success`, with the id of its `InvoicePaid` given.
    pub fn payment_intent_success_with_event(
        &mut self,
        payment_intent: &PaymentIntentId,
        order_percent: u64,
        now: i64,
        eid: EventId,
    ) -> (r: Result<(), BillingError>)
        requires
            old(self).wf(),
        ensures
            final(self).wf(),
            paid_kept(old(self).ledger, final(self).ledger),
            journal_grows(old(self).events, final(self).events),
            intent_settled(*old(self), payment_intent.0@, order_percent, now, eid, r, *final(self)),
    {
        proof {
            lemma_paid_kept(self.ledger, self.ledger);
        }
        let k = match self.find_intent(payment_intent) {
            None => {
                return Err(BillingError::Internal(InternalReason::MissingRow));
            },
            Some(k) => k,
        };
        proof {
            assert forall|k2: int| #[trigger] first_intent_at(self.intents@, payment_intent.0@, k2) implies k2 == k by {
                if k2 < k {
                    assert(self.intents@[k2].id.0@ != payment_intent.0@);
                } else if k2 > k {
                    assert(self.intents@[k as int].id.0@ != payment_intent.0@);
                }
            }
        }
        let id = self.intents[k].invoice_id;
        let r = self.settle_invoice(id, order_percent, now, eid);
        r
    }

    /// The card payment for invoice `id` succeeded: see `invoice_settled`.
    fn settle_invoice(&mut self, id: InvoiceId, order_percent: u64, now: i64, eid: EventId) -> (r: Result<(), BillingError>)
        requires
            old(self).wf(),
        ensures
            final(self).wf(),
            paid_kept(old(self).ledger, final(self).ledger),
            journal_grows(old(self).events, final(self).events),
            invoice_settled(*old(self), id, order_percent, now, eid, r, *final(self)),
    {
        proof {
            lemma_paid_kept(self.ledger, self.ledger);
        }
        let inv = match self.ledger.get_invoice(id) {
            None => {
                return Err(BillingError::Internal(InternalReason::MissingRow));
            },
            Some(inv) => inv,
        };
        if inv.paid_at.is_some() {
            return Ok(());
        }
        let orders = self.ledger.get_orders_by_invoice(id);
        let fees = match fees_for_orders(&orders, order_percent) {
            Ok(f) => f,
            Err(e) => {
                return Err(e);
            },
        };
        let rated = self.gather(id);
        let wallet = match self.wallet_of(&inv) {
            Ok(w) => w,
            Err(e) => {
                proof {
                    assert(gathered(self.ledger, id, rated@));
                }
                return Err(e);
            },
        };
        let dump = match calculate_invoice_price(inv, &rated, wallet) {
            Ok(d) => d,
            Err(e) => {
                proof {
                    assert(gathered(self.ledger, id, rated@));
                }
                return Err(e);
            },
        };
        proof {
            crate::pricing::lemma_total_den_positive(rated@, inv.buyer_currency);
        }
        let final_amount = to_minor_units(&dump.total_price);
        let ghost before = *self;
        match self.record_paid(id, final_amount, dump.total_cashback, now, Event { id: eid, payload: EventPayload::InvoicePaid { invoice_id: id } }) {
            Ok(()) => {},
            Err(e) => {
                proof {
                    assert(gathered(before.ledger, id, rated@));
                }
                return Err(e);
            },
        }
        let ghost mid = *self;
        let ghost n0 = self.ledger.fees@.len();
        let mut i: usize = 0;
        while i < fees.len()
            invariant
                self.wf(),
                0 <= i <= fees@.len(),
                self.ledger.invoices == mid.ledger.invoices,
                self.ledger.orders == mid.ledger.orders,
                self.ledger.rates == mid.ledger.rates,
                self.ledger.accounts == mid.ledger.accounts,
                self.ledger.captures == mid.ledger.captures,
                self.events == mid.events,
                self.intents == mid.intents,
                self.ledger.fees@.len() == n0 + i,
                forall|j: int| 0 <= j < n0 ==> #[trigger] self.ledger.fees@[j] == mid.ledger.fees@[j],
                forall|j: int| 0 <= j < i ==> #[trigger] self.ledger.fees@[n0 + j] == (Fee { id: (n0 + j) as u64, ..fees@[j] }),
            decreases fees@.len() - i,
        {
            let ghost prev = self.ledger.fees@;
            self.ledger.insert_fee(fees[i]);
            proof {
                assert forall|j: int| 0 <= j < i + 1 implies #[trigger] self.ledger.fees@[n0 + j] == (Fee { id: (n0 + j) as u64, ..fees@[j] }) by {
                    if j < i {
                        assert(self.ledger.fees@[n0 + j] == prev[n0 + j]);
                    }
                }
                assert forall|j: int| 0 <= j < n0 implies #[trigger] self.ledger.fees@[j] == mid.ledger.fees@[j] by {
                    assert(self.ledger.fees@[j] == prev[j]);
                }
            }
            i = i + 1;
        }
        proof {
            assert(gathered(before.ledger, id, rated@));
            lemma_paid_kept(mid.ledger, self.ledger);
            lemma_paid_kept_trans(old(self).ledger, mid.ledger, self.ledger);
            assert(paid_recorded(
                before,
                id,
                inv,
                round_half_even(total_frac(rated@, inv.buyer_currency).0, total_frac(rated@, inv.buyer_currency).1),
                cashback_sum(rated@),
                now,
                eid,
                mid,
            ));
        }
        Ok(())
    }
}

/// What creating an invoice does, from `b` to `b2` with result `r`, its
/// `PaymentExpired` being journaled under `eid`: a taken id (invoice, paid
/// event, event or payment intent) is refused, then a missing account row,
/// then a price that overflows; otherwise the invoice, its orders, their
/// initial active rates, the scheduled expiry and the intent link are stored.
pub open spec fn created(
    b: Billing,
    id: InvoiceId,
    buyer_user_id: i32,
    buyer_currency: Currency,
    planned: Seq<PlannedOrder>,
    account_id: Option<AccountId>,
    intent: Option<PaymentIntentRow>,
    expires_at: i64,
    eid: EventId,
    r: Result<InvoiceDump, BillingError>,
    b2: Billing,
) -> bool {
    let inv = Invoice::spec_new(id, buyer_user_id, buyer_currency, account_id);
    let taken = b.ledger.invoice(id).is_some() || paid_events(b.events.payloads@, id) > 0 || journaled(b.events, eid)
        || (intent matches Some(row) && exists|k: int| 0 <= k < b.intents@.len() && (#[trigger] b.intents@[k]).id.0@ == row.id.0@);
    if taken {
        r == Err::<InvoiceDump, BillingError>(BillingError::Internal(InternalReason::DuplicateId)) && b2 == b
    } else if !account_ok(b.ledger, inv) {
        r == Err::<InvoiceDump, BillingError>(BillingError::Internal(InternalReason::MissingRow)) && b2 == b
    } else {
        exists|s: Seq<OrderRates>|
            #[trigger] planned_as_rates(planned, s) && if !priceable(s, buyer_currency) {
                r == Err::<InvoiceDump, BillingError>(BillingError::Internal(InternalReason::Overflow)) && b2 == b
            } else {
                &&& r matches Ok(d) && priced(d, b.ledger, inv, s)
                &&& b2.ledger.invoices@ == b.ledger.invoices@.push(inv)
                &&& b2.ledger.invoice(id) == Some(inv)
                &&& b2.ledger.orders@ == b.ledger.orders@ + planned.map_values(|p: PlannedOrder| p.order)
                &&& b2.ledger.rates@ == apply_rates(b.ledger.rates@, planned.map_values(|p: PlannedOrder| new_rate_of(p)))
                &&& b2.ledger.accounts == b.ledger.accounts
                &&& b2.ledger.captures == b.ledger.captures
                &&& b2.ledger.fees == b.ledger.fees
                &&& b2.events.payloads@ == b.events.payloads@.push(EventPayload::PaymentExpired { invoice_id: id })
                &&& b2.events.entries@ == b.events.entries@.push(
                    EntryState { id: eid, status: EventStatus::Pending, scheduled_for: Some(expires_at), attempts: 0, lease_until: None },
                )
                &&& b2.intents@ == match intent {
                    Some(row) => b.intents@.push(row),
                    None => b.intents@,
                }
            }
    }
}

impl Billing {
    /// Whether the journal holds an `InvoicePaid` for `id`.
    pub fn has_paid_event(&self, id: InvoiceId) -> (r: bool)
        ensures
            r == (paid_events(self.events.payloads@, id) > 0),
    {
        let ghost p = self.events.payloads@;
        let mut i: usize = 0;
        while i < self.events.payloads.len()
            invariant
                p == self.events.payloads@,
                0 <= i <= p.len(),
                paid_events(p.take(i as int), id) == 0,
            decreases p.len() - i,
        {
            proof {
                assert(p.take(i as int + 1).drop_last() =~= p.take(i as int));
            }
            match &self.events.payloads[i] {
                EventPayload::InvoicePaid { invoice_id } => {
                    if *invoice_id == id {
                        proof {
                            lemma_paid_events_prefix(p, id, i as int + 1);
                        }
                        return true;
                    }
                },
                _ => {},
            }
            i = i + 1;
        }
        proof {
            assert(p.take(p.len() as int) =~= p);
        }
        false
    }

    /// Creates an invoice with its orders, each with its initial active rate,
    /// and schedules its `PaymentExpired` at `expires_at`. A card-paid invoice
    /// gets its payment intent link; a crypto-paid one its pooled account.
    pub fn create_invoice(
        &mut self,
        id: InvoiceId,
        buyer_user_id: i32,
        buyer_currency: Currency,
        planned: &Vec<PlannedOrder>,
        account_id: Option<AccountId>,
        intent: Option<PaymentIntentRow>,
        expires_at: i64,
    ) -> (r: Result<InvoiceDump, BillingError>)
        requires
            old(self).wf(),
            planned_wf(planned@, id),
        ensures
            paid_kept(old(self).ledger, final(self).ledger),
            final(self).wf(),
            exists|eid: EventId| #[trigger] created(
                *old(self),
                id,
                buyer_user_id,
                buyer_currency,
                planned@,
                account_id,
                intent,
                expires_at,
                eid,
                r,
                *final(self),
            ),
    {
        let eid = EventId::generate();
        self.create_invoice_with_event(id, buyer_user_id, buyer_currency, planned, account_id, intent, expires_at, eid)
    }

    /// As `create_invoice`, with the id of its `PaymentExpired` given.
    pub fn create_invoice_with_event(
        &mut self,
        id: InvoiceId,
        buyer_user_id: i32,
        buyer_currency: Currency,
        planned: &Vec<PlannedOrder>,
        account_id: Option<AccountId>,
        intent: Option<PaymentIntentRow>,
        expires_at: i64,
        eid: EventId,
    ) -> (r: Result<InvoiceDump, BillingError>)
        requires
            old(self).wf(),
            planned_wf(planned@, id),
        ensures
            paid_kept(old(self).ledger, final(self).ledger),
            final(self).wf(),
            created(*old(self), id, buyer_user_id, buyer_currency, planned@, account_id, intent, expires_at, eid, r, *final(self)),
    {
        proof {
            lemma_paid_kept(self.ledger, self.ledger);
        }
        if self.ledger.find_invoice(id).is_some() || self.has_paid_event(id) {
            return Err(BillingError::Internal(InternalReason::DuplicateId));
        }
        if self.events.find(eid).is_some() {
            return Err(BillingError::Internal(InternalReason::DuplicateId));
        }
        match &intent {
            Some(row) => {
                if self.find_intent(&row.id).is_some() {
                    return Err(BillingError::Internal(InternalReason::DuplicateId));
                }
            },
            None => {},
        }
        let event = Event { id: eid, payload: EventPayload::PaymentExpired { invoice_id: id } };
        let invoice = Invoice::new(id, buyer_user_id, buyer_currency, account_id);
        let wallet = match self.wallet_of(&invoice) {
            Ok(w) => w,
            Err(e) => {
                return Err(e);
            },
        };
        let ghost news = planned@.map_values(|p: PlannedOrder| new_rate_of(p));
        let rated = planned_rates(planned);
        proof {
            assert forall|a: int, j: int| 0 <= a < rated@.len() && 0 <= j < rated@[a].rates@.len() implies (#[trigger] rated@[a].rates@[j]).rate.wf() by {
                assert(j == 0);
                assert(planned@[a].rate.wf());
            }
        }
        let dump = match calculate_invoice_price(invoice, &rated, wallet) {
            Ok(d) => d,
            Err(e) => {
                proof {
                    assert(planned_as_rates(planned@, rated@));
                }
                return Err(e);
            },
        };
        let ghost before = *self;
        let _ = self.events.add_scheduled_event(event, Some(expires_at));
        let _ = self.ledger.insert_invoice(invoice);
        match intent {
            Some(row) => self.intents.push(row),
            None => {},
        }
        proof {
            let n = before.ledger.invoices@.len();
            assert forall|i: int| 0 <= i < self.ledger.invoices@.len() implies paid_events(
                self.events.payloads@,
                (#[trigger] self.ledger.invoices@[i]).id,
            ) == if self.ledger.invoices@[i].is_paid() {
                1nat
            } else {
                0nat
            } by {
                lemma_paid_events_push(before.events.payloads@, EventPayload::PaymentExpired { invoice_id: id }, self.ledger.invoices@[i].id);
                if i < n {
                    assert(self.ledger.invoices@[i] == before.ledger.invoices@[i]);
                }
            }
            crate::ledger::lemma_index_unique(self.ledger.invoices@, n as int, id);
        }
        let ghost mid = *self;
        let mut i: usize = 0;
        while i < planned.len()
            invariant
                self.wf(),
                planned_wf(planned@, id),
                0 <= i <= planned@.len(),
                self.ledger.invoices == mid.ledger.invoices,
                self.events == mid.events,
                self.intents == mid.intents,
                self.ledger.orders@ == mid.ledger.orders@ + planned@.take(i as int).map_values(|p: PlannedOrder| p.order),
                self.ledger.rates@.len() == mid.ledger.rates@.len() + i,
                news == planned@.map_values(|p: PlannedOrder| new_rate_of(p)),
                self.ledger.rates@ == apply_rates(mid.ledger.rates@, news.take(i as int)),
                self.ledger.accounts == mid.ledger.accounts,
                self.ledger.captures == mid.ledger.captures,
                self.ledger.fees == mid.ledger.fees,
                forall|k: int| 0 <= k < i ==> {
                    let x = #[trigger] self.ledger.rates@[mid.ledger.rates@.len() + k];
                    x.order_id == planned@[k].order.id && x.exchange_id == planned@[k].exchange_id && x.rate == planned@[k].rate
                },
            decreases planned@.len() - i,
        {
            let p = planned[i];
            self.ledger.insert_order(p.order);
            let ghost prev = self.ledger.rates@;
            self.ledger.add_new_active_rate(NewOrderExchangeRate { order_id: p.order.id, exchange_id: p.exchange_id, rate: p.rate });
            proof {
                assert(news.take(i as int + 1).drop_last() =~= news.take(i as int));
                assert(news[i as int] == new_rate_of(p));
                assert(planned@.take(i as int + 1).map_values(|p: PlannedOrder| p.order) =~= planned@.take(i as int).map_values(
                    |p: PlannedOrder| p.order,
                ).push(p.order));
                assert forall|k: int| 0 <= k < i + 1 implies {
                    let x = #[trigger] self.ledger.rates@[mid.ledger.rates@.len() + k];
                    x.order_id == planned@[k].order.id && x.exchange_id == planned@[k].exchange_id && x.rate == planned@[k].rate
                } by {
                    if k < i {
                        assert(self.ledger.rates@[mid.ledger.rates@.len() + k] == crate::ledger::expire_if_of(
                            prev[mid.ledger.rates@.len() + k],
                            p.order.id,
                        ));
                    }
                }
            }
            i = i + 1;
        }
        proof {
            assert(planned@.take(planned@.len() as int) =~= planned@);
            assert forall|a: int| 0 <= a < rated@.len() implies crate::pricing::effective_rate(rated@[a].order, rated@[a].rates@, buyer_currency)
                == Some(planned@[a].rate) by {
                assert(crate::pricing::first_active_from(rated@[a].rates@, 0) == Some(rated@[a].rates@[0].rate));
            }
            assert(self.ledger.invoices@ == old(self).ledger.invoices@.push(invoice));
            lemma_paid_kept(old(self).ledger, self.ledger);
            assert(news.take(news.len() as int) =~= news);
            assert(planned_as_rates(planned@, rated@));
        }
        Ok(dump)
    }
}

pub proof fn lemma_paid_events_prefix(p: Seq<EventPayload>, id: InvoiceId, i: int)
    requires
        0 < i <= p.len(),
        p[i - 1] == (EventPayload::InvoicePaid { invoice_id: id }),
    ensures
        paid_events(p, id) > 0,
    decreases p.len() - i,
{
    if i < p.len() {
        lemma_paid_events_prefix(p.drop_last(), id, i);
    }
}


/// The orders of `orders` that belong to invoice `id` include one with `order_id`.
pub open spec fn order_of_invoice(orders: Seq<Order>, id: InvoiceId, order_id: OrderId) -> bool {
    exists|k: int| 0 <= k < orders.len() && (#[trigger] orders[k]).invoice_id == id && orders[k].id == order_id
}

impl Billing {
    /// Deletes an invoice with its orders, their rates and its payment
    /// intent link, in one step. Returns the payment intent that was linked,
    /// which is then to be cancelled with the card gateway.
    pub fn delete_invoice(&mut self, id: InvoiceId) -> (r: Option<PaymentIntentId>)
        requires
            old(self).wf(),
        ensures
            final(self).wf(),
            final(self).ledger.invoice(id).is_none(),
            forall|k: int| 0 <= k < final(self).ledger.orders@.len() ==> (#[trigger] final(self).ledger.orders@[k]).invoice_id != id,
            forall|k: int| 0 <= k < final(self).ledger.rates@.len() ==> !order_of_invoice(
                old(self).ledger.orders@,
                id,
                (#[trigger] final(self).ledger.rates@[k]).order_id,
            ),
            forall|k: int| 0 <= k < final(self).intents@.len() ==> (#[trigger] final(self).intents@[k]).invoice_id != id,
            forall|i: int| 0 <= i < old(self).ledger.invoices@.len() && (#[trigger] old(self).ledger.invoices@[i]).id != id
                ==> final(self).ledger.invoice(old(self).ledger.invoices@[i].id) == Some(old(self).ledger.invoices@[i]),
            forall|k: int| 0 <= k < old(self).ledger.orders@.len() && (#[trigger] old(self).ledger.orders@[k]).invoice_id != id
                ==> final(self).ledger.orders@.contains(old(self).ledger.orders@[k]),
            r matches Some(p) ==> exists|k: int|
                0 <= k < old(self).intents@.len() && (#[trigger] old(self).intents@[k]).invoice_id == id && old(self).intents@[k].id.0@ == p.0@,
            r.is_none() ==> forall|k: int| 0 <= k < old(self).intents@.len() ==> (#[trigger] old(self).intents@[k]).invoice_id != id,
            final(self).events == old(self).events,
            final(self).ledger.accounts == old(self).ledger.accounts,
            final(self).ledger.captures == old(self).ledger.captures,
            final(self).ledger.fees == old(self).ledger.fees,
    {
        let ghost ol = self.ledger;
        // Invoices.
        let mut invoices: Vec<Invoice> = Vec::new();
        let ghost mut src: Seq<int> = Seq::empty();
        let mut i: usize = 0;
        while i < self.ledger.invoices.len()
            invariant
                self.ledger == ol,
                ol.wf(),
                0 <= i <= ol.invoices@.len(),
                src.len() == invoices@.len(),
                forall|j: int| 0 <= j < src.len() ==> 0 <= #[trigger] src[j] < i && invoices@[j] == ol.invoices@[src[j]],
                forall|a: int, b: int| 0 <= a < b < src.len() ==> src[a] < src[b],
                forall|j: int| 0 <= j < invoices@.len() ==> (#[trigger] invoices@[j]).id != id,
                forall|k: int| 0 <= k < i && (#[trigger] ol.invoices@[k]).id != id ==> exists|j: int| 0 <= j < src.len() && src[j] == k,
            decreases ol.invoices@.len() - i,
        {
            let inv = self.ledger.invoices[i];
            let ghost src0 = src;
            if inv.id != id {
                invoices.push(inv);
                proof {
                    src = src.push(i as int);
                }
            }
            proof {
                assert forall|k: int| 0 <= k < i + 1 && (#[trigger] ol.invoices@[k]).id != id implies exists|j: int| 0 <= j < src.len() && src[j] == k by {
                    if k == i {
                        assert(src[src.len() - 1] == k);
                    } else {
                        let j = choose|j: int| 0 <= j < src0.len() && src0[j] == k;
                        assert(src[j] == src0[j]);
                    }
                }
            }
            i = i + 1;
        }
        // Orders.
        let mut orders: Vec<Order> = Vec::new();
        let mut k: usize = 0;
        while k < self.ledger.orders.len()
            invariant
                self.ledger == ol,
                0 <= k <= ol.orders@.len(),
                forall|j: int| 0 <= j < orders@.len() ==> (#[trigger] orders@[j]).invoice_id != id,
                forall|j: int| 0 <= j < k && (#[trigger] ol.orders@[j]).invoice_id != id ==> orders@.contains(ol.orders@[j]),
            decreases ol.orders@.len() - k,
        {
            let o = self.ledger.orders[k];
            let ghost o0 = orders@;
            if o.invoice_id != id {
                orders.push(o);
            }
            proof {
                assert forall|j: int| 0 <= j < k + 1 && (#[trigger] ol.orders@[j]).invoice_id != id implies orders@.contains(ol.orders@[j]) by {
                    if j == k {
                        assert(orders@[orders@.len() - 1] == o);
                    } else {
                        assert(o0.contains(ol.orders@[j]));
                        let w = choose|w: int| 0 <= w < o0.len() && o0[w] == ol.orders@[j];
                        assert(orders@[w] == o0[w]);
                    }
                }
            }
            k = k + 1;
        }
        // Rates of the deleted orders.
        let mut rates: Vec<OrderExchangeRate> = Vec::new();
        let ghost mut rsrc: Seq<int> = Seq::empty();
        let mut m: usize = 0;
        while m < self.ledger.rates.len()
            invariant
                self.ledger == ol,
                ol.wf(),
                0 <= m <= ol.rates@.len(),
                rsrc.len() == rates@.len(),
                forall|j: int| 0 <= j < rsrc.len() ==> 0 <= #[trigger] rsrc[j] < m && rates@[j] == ol.rates@[rsrc[j]],
                forall|a: int, b: int| 0 <= a < b < rsrc.len() ==> rsrc[a] < rsrc[b],
                forall|j: int| 0 <= j < rates@.len() ==> !order_of_invoice(ol.orders@, id, (#[trigger] rates@[j]).order_id),
            decreases ol.rates@.len() - m,
        {
            let x = self.ledger.rates[m];
            if !self.order_belongs(x.order_id, id) {
                rates.push(x);
                proof {
                    rsrc = rsrc.push(m as int);
                }
            }
            m = m + 1;
        }
        // The payment intent link.
        let mut removed: Option<PaymentIntentId> = None;
        let mut intents: Vec<PaymentIntentRow> = Vec::new();
        let ghost oi = self.intents@;
        let ghost mut isrc: Seq<int> = Seq::empty();
        let mut n: usize = 0;
        while n < self.intents.len()
            invariant
                self.intents@ == oi,
                old(self).wf(),
                oi == old(self).intents@,
                0 <= n <= oi.len(),
                isrc.len() == intents@.len(),
                forall|j: int| 0 <= j < isrc.len() ==> 0 <= #[trigger] isrc[j] < n && intents@[j].id.0@ == oi[isrc[j]].id.0@,
                forall|a: int, b: int| 0 <= a < b < isrc.len() ==> isrc[a] < isrc[b],
                forall|j: int| 0 <= j < intents@.len() ==> (#[trigger] intents@[j]).invoice_id != id,
                removed matches Some(p) ==> exists|j: int| 0 <= j < oi.len() && (#[trigger] oi[j]).invoice_id == id && oi[j].id.0@ == p.0@,
                removed.is_none() ==> forall|j: int| 0 <= j < n ==> (#[trigger] oi[j]).invoice_id != id,
            decreases oi.len() - n,
        {
            if self.intents[n].invoice_id == id {
                if removed.is_none() {
                    removed = Some(PaymentIntentId(self.intents[n].id.0.clone()));
                }
            } else {
                intents.push(self.intents[n].clone_row());
                proof {
                    isrc = isrc.push(n as int);
                }
            }
            n = n + 1;
        }
        self.ledger.invoices = invoices;
        self.ledger.orders = orders;
        self.ledger.rates = rates;
        self.intents = intents;
        proof {
            let ni = self.ledger.invoices@;
            assert forall|a: int, b: int| 0 <= a < ni.len() && 0 <= b < ni.len() && #[trigger] ni[a].id == #[trigger] ni[b].id implies a == b by {
                assert(ol.invoices@[src[a]].id == ol.invoices@[src[b]].id);
                if a < b {
                    assert(src[a] < src[b]);
                } else if b < a {
                    assert(src[b] < src[a]);
                }
            }
            assert forall|j: int| 0 <= j < ni.len() implies (#[trigger] ni[j]).wf() by {
                assert(ol.invoices@[src[j]].wf());
            }
            let nt = self.intents@;
            assert forall|a: int, b: int| 0 <= a < nt.len() && 0 <= b < nt.len() && #[trigger] nt[a].id.0@ == #[trigger] nt[b].id.0@ implies a == b by {
                assert(oi[isrc[a]].id.0@ == oi[isrc[b]].id.0@);
                if a < b {
                    assert(isrc[a] < isrc[b]);
                } else if b < a {
                    assert(isrc[b] < isrc[a]);
                }
            }
            let nr = self.ledger.rates@;
            assert forall|j: int| 0 <= j < nr.len() implies (#[trigger] nr[j]).rate.wf() by {
                assert(ol.rates@[rsrc[j]].rate.wf());
            }
            assert forall|a: int, b: int|
                0 <= a < nr.len() && 0 <= b < nr.len() && nr[a].status == RateStatus::Active && nr[b].status == RateStatus::Active
                    && #[trigger] nr[a].order_id == #[trigger] nr[b].order_id implies a == b by {
                assert(ol.rates@[rsrc[a]].order_id == ol.rates@[rsrc[b]].order_id);
                if a < b {
                    assert(rsrc[a] < rsrc[b]);
                } else if b < a {
                    assert(rsrc[b] < rsrc[a]);
                }
            }
            assert forall|j: int| 0 <= j < ni.len() implies paid_events(self.events.payloads@, (#[trigger] ni[j]).id) == if ni[j].is_paid() {
                1nat
            } else {
                0nat
            } by {
                assert(ni[j] == ol.invoices@[src[j]]);
            }
            assert(self.ledger.invoice(id).is_none());
            assert forall|q: int| 0 <= q < ol.invoices@.len() && (#[trigger] ol.invoices@[q]).id != id implies self.ledger.invoice(
                ol.invoices@[q].id,
            ) == Some(ol.invoices@[q]) by {
                let j = choose|j: int| 0 <= j < src.len() && src[j] == q;
                crate::ledger::lemma_index_unique(ni, j, ol.invoices@[q].id);
            }
        }
        removed
    }

    /// Whether the order `order_id` belongs to invoice `id`.
    fn order_belongs(&self, order_id: OrderId, id: InvoiceId) -> (r: bool)
        ensures
            r == order_of_invoice(self.ledger.orders@, id, order_id),
    {
        let mut k: usize = 0;
        while k < self.ledger.orders.len()
            invariant
                0 <= k <= self.ledger.orders@.len(),
                forall|j: int| 0 <= j < k ==> !((#[trigger] self.ledger.orders@[j]).invoice_id == id && self.ledger.orders@[j].id == order_id),
            decreases self.ledger.orders@.len() - k,
        {
            if self.ledger.orders[k].invoice_id == id && self.ledger.orders[k].id == order_id {
                return true;
            }
            k = k + 1;
        }
        false
    }
}

impl PaymentIntentRow {
    /// A new link, with no failure reported.
    pub fn new(id: PaymentIntentId, invoice_id: InvoiceId, amount: u64, currency: Currency) -> (r: PaymentIntentRow)
        ensures
            r.id == id && r.invoice_id == invoice_id && r.amount == amount && r.currency == currency && !r.payment_failed,
    {
        PaymentIntentRow { id, invoice_id, amount, currency, payment_failed: false }
    }

    /// A copy of the row.
    pub fn clone_row(&self) -> (r: PaymentIntentRow)
        ensures
            r.id.0@ == self.id.0@ && r.invoice_id == self.invoice_id && r.amount == self.amount && r.currency == self.currency
                && r.payment_failed == self.payment_failed,
    {
        PaymentIntentRow {
            id: PaymentIntentId(self.id.0.clone()),
            invoice_id: self.invoice_id,
            amount: self.amount,
            currency: self.currency,
            payment_failed: self.payment_failed,
        }
    }
}


/// The kind of a card gateway webhook event, as far as the engine cares.
#[derive(Clone, Copy, Debug, PartialEq, Eq, Structural)]
pub enum CardEventKind {
    PaymentIntentAmountCapturableUpdated,
    PaymentIntentPaymentFailed,
    Other,
}

/// The journal event for a card webhook: an intent whose amount became
/// capturable has succeeded; a failed one is recorded; others are ignored.
pub open spec fn spec_card_event(kind: CardEventKind, payment_intent: PaymentIntentId) -> Option<EventPayload> {
    match kind {
        CardEventKind::PaymentIntentAmountCapturableUpdated => Some(EventPayload::PaymentIntentSucceeded { payment_intent }),
        CardEventKind::PaymentIntentPaymentFailed => Some(EventPayload::PaymentIntentPaymentFailed { payment_intent }),
        CardEventKind::Other => None,
    }
}

impl Billing {
    /// Journals the event that a card webhook calls for; returns whether it
    /// added one. Unrecognised kinds are acknowledged without an event.
    pub fn handle_card_event(&mut self, kind: CardEventKind, payment_intent: PaymentIntentId) -> (r: Result<bool, BillingError>)
        requires
            old(self).wf(),
        ensures
            paid_kept(old(self).ledger, final(self).ledger),
            final(self).wf(),
            final(self).ledger == old(self).ledger,
            final(self).intents == old(self).intents,
            r is Err ==> *final(self) == *old(self),
            r matches Err(e) ==> e == BillingError::Internal(InternalReason::DuplicateId),
            r == Ok::<bool, BillingError>(false) ==> *final(self) == *old(self) && kind == CardEventKind::Other,
            r == Ok::<bool, BillingError>(true) ==> (spec_card_event(kind, payment_intent) matches Some(p)
                && final(self).events.payloads@ == old(self).events.payloads@.push(p)),
            kind == CardEventKind::Other ==> r == Ok::<bool, BillingError>(false),
            kind != CardEventKind::Other ==> r is Ok ==> r == Ok::<bool, BillingError>(true),
    {
        let eid = EventId::generate();
        self.handle_card_event_with_event(kind, payment_intent, eid)
    }

    /// As `handle_card_event`, with the id of the journaled event given: a
    /// recognised kind is journaled under `eid` unless that id is taken.
    pub fn handle_card_event_with_event(&mut self, kind: CardEventKind, payment_intent: PaymentIntentId, eid: EventId) -> (r: Result<
        bool,
        BillingError,
    >)
        requires
            old(self).wf(),
        ensures
            paid_kept(old(self).ledger, final(self).ledger),
            final(self).wf(),
            final(self).ledger == old(self).ledger,
            final(self).intents == old(self).intents,
            r is Err ==> *final(self) == *old(self),
            r matches Err(e) ==> e == BillingError::Internal(InternalReason::DuplicateId),
            r == Ok::<bool, BillingError>(false) ==> *final(self) == *old(self) && kind == CardEventKind::Other,
            r == Ok::<bool, BillingError>(true) ==> (spec_card_event(kind, payment_intent) matches Some(p)
                && final(self).events.payloads@ == old(self).events.payloads@.push(p)),
            kind == CardEventKind::Other ==> r == Ok::<bool, BillingError>(false),
            kind != CardEventKind::Other ==> r is Ok ==> r == Ok::<bool, BillingError>(true),
            kind != CardEventKind::Other ==> ((r is Err) == journaled(old(self).events, eid)),
            r == Ok::<bool, BillingError>(true) ==> final(self).events.entries@ == old(self).events.entries@.push(
                EntryState { id: eid, status: EventStatus::Pending, scheduled_for: None, attempts: 0, lease_until: None },
            ),
    {
        proof {
            lemma_paid_kept(self.ledger, self.ledger);
        }
        let ghost pi = payment_intent;
        let payload = match kind {
            CardEventKind::PaymentIntentAmountCapturableUpdated => EventPayload::PaymentIntentSucceeded { payment_intent },
            CardEventKind::PaymentIntentPaymentFailed => EventPayload::PaymentIntentPaymentFailed { payment_intent },
            CardEventKind::Other => {
                return Ok(false);
            },
        };
        let ghost p = payload;
        let event = Event { id: eid, payload };
        let ghost before = *self;
        match self.events.add_event(event) {
            Err(e) => Err(e),
            Ok(()) => {
                proof {
                    assert forall|a: int| 0 <= a < self.ledger.invoices@.len() implies paid_events(
                        self.events.payloads@,
                        (#[trigger] self.ledger.invoices@[a]).id,
                    ) == if self.ledger.invoices@[a].is_paid() {
                        1nat
                    } else {
                        0nat
                    } by {
                        lemma_paid_events_push(before.events.payloads@, p, self.ledger.invoices@[a].id);
                    }
                }
                Ok(true)
            },
        }
    }

    /// The invoice that the order `order_id` belongs to.
    pub fn invoice_of_order(&self, order_id: OrderId) -> (r: Option<InvoiceId>)
        ensures
            r matches Some(id) ==> exists|k: int|
                0 <= k < self.ledger.orders@.len() && (#[trigger] self.ledger.orders@[k]).id == order_id
                    && self.ledger.orders@[k].invoice_id == id,
            r.is_none() ==> forall|k: int| 0 <= k < self.ledger.orders@.len() ==> (#[trigger] self.ledger.orders@[k]).id != order_id,
    {
        let mut k: usize = 0;
        while k < self.ledger.orders.len()
            invariant
                0 <= k <= self.ledger.orders@.len(),
                forall|j: int| 0 <= j < k ==> (#[trigger] self.ledger.orders@[j]).id != order_id,
            decreases self.ledger.orders@.len() - k,
        {
            if self.ledger.orders[k].id == order_id {
                return Some(self.ledger.orders[k].invoice_id);
            }
            k = k + 1;
        }
        None
    }

    /// The ids of the invoice's orders, in the order they were stored.
    pub fn get_invoice_orders_ids(&self, id: InvoiceId) -> (r: Vec<OrderId>)
        ensures
            r@ == self.ledger.orders@.filter(|o: Order| o.invoice_id == id).map_values(|o: Order| o.id),
    {
        let orders = self.ledger.get_orders_by_invoice(id);
        let mut out: Vec<OrderId> = Vec::new();
        let mut k: usize = 0;
        while k < orders.len()
            invariant
                0 <= k <= orders@.len(),
                out@ == orders@.take(k as int).map_values(|o: Order| o.id),
            decreases orders@.len() - k,
        {
            out.push(orders[k].id);
            proof {
                assert(orders@.take(k as int + 1).map_values(|o: Order| o.id) =~= orders@.take(k as int).map_values(|o: Order| o.id).push(
                    orders@[k as int].id,
                ));
            }
            k = k + 1;
        }
        proof {
            assert(orders@.take(orders@.len() as int) =~= orders@);
        }
        out
    }
}

} // verus!
