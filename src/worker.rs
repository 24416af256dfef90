//! The event worker: what each journal event does to the ledger, and one
//! tick of the single consumer.
use vstd::prelude::*;
use crate::error::BillingError;
use crate::events::{EventPayload, EventStatus, ticked, with_status};
use crate::ids::{EventId, InvoiceId, OrderId, PaymentIntentId};
use crate::invoice::{
    Billing, ExpiryAction, PaymentIntentRow, expiry_handled, intent_settled, journal_grows, lemma_paid_kept,
    paid_events, paid_kept,
};

verus! {

/// What the worker must do outside once an event was handled.
#[derive(Clone, Debug)]
pub enum EventAction {
    Nothing,
    /// Tell the saga service that the invoice is paid.
    NotifyPaid(InvoiceId),
    /// Record that the card payment failed.
    RecordPaymentFailure(PaymentIntentId),
    /// Capture the card payment of the order.
    CapturePayment(OrderId),
    /// What an expired payment asks for.
    Expiry(ExpiryAction),
}

/// A handler's result without its action.
pub open spec fn unit_result(r: Result<EventAction, BillingError>) -> Result<(), BillingError> {
    match r {
        Ok(_) => Ok(()),
        Err(e) => Err(e),
    }
}

/// What handling `payload` does, from `b` to `b2` with result `r`. An
/// intent's id is read through its text only.
pub open spec fn event_handled(b: Billing, payload: EventPayload, order_percent: u64, now: i64, r: Result<EventAction, BillingError>, b2: Billing) -> bool {
    &&& journal_grows(b.events, b2.events)
    &&& match payload {
        EventPayload::NoOp => r matches Ok(EventAction::Nothing) && b2 == b,
        EventPayload::InvoicePaid { invoice_id } => r matches Ok(EventAction::NotifyPaid(x)) && x == invoice_id && b2 == b,
        EventPayload::PaymentIntentPaymentFailed { payment_intent } => {
            &&& (r matches Ok(EventAction::RecordPaymentFailure(p)) && p.0@ == payment_intent.0@)
            &&& b2.ledger == b.ledger
            &&& b2.events == b.events
            &&& (forall|k: int| 0 <= k < b.intents@.len() ==> (#[trigger] b.intents@[k]).id.0@ != payment_intent.0@) ==> b2 == b
            &&& (exists|k: int| 0 <= k < b.intents@.len() && (#[trigger] b.intents@[k]).id.0@ == payment_intent.0@) ==> exists|k: int|
                0 <= k < b.intents@.len() && (#[trigger] b.intents@[k]).id.0@ == payment_intent.0@ && b2.intents@ == b.intents@.update(
                    k,
                    PaymentIntentRow { payment_failed: true, ..b.intents@[k] },
                )
        },
        EventPayload::PaymentIntentCapture { order_id } => r matches Ok(EventAction::CapturePayment(x)) && x == order_id && b2 == b,
        EventPayload::PayoutInitiated { .. } => r matches Ok(EventAction::Nothing) && b2 == b,
        EventPayload::PaymentExpired { invoice_id } => r matches Ok(EventAction::Expiry(a)) && expiry_handled(b, invoice_id, a, b2),
        EventPayload::PaymentIntentAmountCapturableUpdated { payment_intent } => (exists|eid: EventId|
            #[trigger] intent_settled(b, payment_intent.0@, order_percent, now, eid, unit_result(r), b2)) && (r matches Ok(a) ==> a matches EventAction::Nothing),
        EventPayload::PaymentIntentSucceeded { payment_intent } => (exists|eid: EventId|
            #[trigger] intent_settled(b, payment_intent.0@, order_percent, now, eid, unit_result(r), b2)) && (r matches Ok(a) ==> a matches EventAction::Nothing),
    }
}

/// Two payloads of the same kind with the same ids, intents compared by text.
pub open spec fn same_payload(a: EventPayload, b: EventPayload) -> bool {
    match (a, b) {
        (EventPayload::NoOp, EventPayload::NoOp) => true,
        (EventPayload::InvoicePaid { invoice_id: x }, EventPayload::InvoicePaid { invoice_id: y }) => x == y,
        (EventPayload::PaymentIntentPaymentFailed { payment_intent: x }, EventPayload::PaymentIntentPaymentFailed { payment_intent: y }) => x.0@ == y.0@,
        (
            EventPayload::PaymentIntentAmountCapturableUpdated { payment_intent: x },
            EventPayload::PaymentIntentAmountCapturableUpdated { payment_intent: y },
        ) => x.0@ == y.0@,
        (EventPayload::PaymentIntentSucceeded { payment_intent: x }, EventPayload::PaymentIntentSucceeded { payment_intent: y }) => x.0@ == y.0@,
        (EventPayload::PaymentIntentCapture { order_id: x }, EventPayload::PaymentIntentCapture { order_id: y }) => x == y,
        (EventPayload::PaymentExpired { invoice_id: x }, EventPayload::PaymentExpired { invoice_id: y }) => x == y,
        (EventPayload::PayoutInitiated { payout_id: x }, EventPayload::PayoutInitiated { payout_id: y }) => x == y,
        _ => false,
    }
}

/// A copy of a payload.
pub fn copy_payload(p: &EventPayload) -> (r: EventPayload)
    ensures
        same_payload(r, *p),
{
    match p {
        EventPayload::NoOp => EventPayload::NoOp,
        EventPayload::InvoicePaid { invoice_id } => EventPayload::InvoicePaid { invoice_id: *invoice_id },
        EventPayload::PaymentIntentPaymentFailed { payment_intent } => EventPayload::PaymentIntentPaymentFailed {
            payment_intent: PaymentIntentId(payment_intent.0.clone()),
        },
        EventPayload::PaymentIntentAmountCapturableUpdated { payment_intent } => EventPayload::PaymentIntentAmountCapturableUpdated {
            payment_intent: PaymentIntentId(payment_intent.0.clone()),
        },
        EventPayload::PaymentIntentSucceeded { payment_intent } => EventPayload::PaymentIntentSucceeded {
            payment_intent: PaymentIntentId(payment_intent.0.clone()),
        },
        EventPayload::PaymentIntentCapture { order_id } => EventPayload::PaymentIntentCapture { order_id: *order_id },
        EventPayload::PaymentExpired { invoice_id } => EventPayload::PaymentExpired { invoice_id: *invoice_id },
        EventPayload::PayoutInitiated { payout_id } => EventPayload::PayoutInitiated { payout_id: *payout_id },
    }
}

/// Handling depends on a payload's kind, ids and intent text only.
pub proof fn lemma_handled_same(
    b: Billing,
    p: EventPayload,
    q: EventPayload,
    order_percent: u64,
    now: i64,
    r: Result<EventAction, BillingError>,
    b2: Billing,
)
    requires
        same_payload(p, q),
        event_handled(b, p, order_percent, now, r, b2),
    ensures
        event_handled(b, q, order_percent, now, r, b2),
{
}

/// The status a handled entry ends in.
pub open spec fn finished_status(r: Result<EventAction, BillingError>) -> EventStatus {
    if r is Ok {
        EventStatus::Completed
    } else {
        EventStatus::Failed
    }
}

impl Billing {
    /// Runs the handler of an event's payload. Card success marks the
    /// invoice paid with its fees; expiry marks an unpaid invoice expired;
    /// the other kinds only ask for outside work.
    pub fn handle_event(&mut self, payload: &EventPayload, order_percent: u64, now: i64) -> (r: Result<EventAction, BillingError>)
        requires
            old(self).wf(),
        ensures
            paid_kept(old(self).ledger, final(self).ledger),
            final(self).wf(),
            event_handled(*old(self), *payload, order_percent, now, r, *final(self)),
    {
        proof {
            lemma_paid_kept(self.ledger, self.ledger);
        }
        match payload {
            EventPayload::NoOp => Ok(EventAction::Nothing),
            EventPayload::InvoicePaid { invoice_id } => Ok(EventAction::NotifyPaid(*invoice_id)),
            EventPayload::PaymentIntentPaymentFailed { payment_intent } => {
                self.mark_intent_failed(payment_intent);
                Ok(EventAction::RecordPaymentFailure(PaymentIntentId(payment_intent.0.clone())))
            },
            EventPayload::PaymentIntentAmountCapturableUpdated { payment_intent } => {
                let res = self.payment_intent_success(payment_intent, order_percent, now);
                let r = match res {
                    Ok(()) => Ok(EventAction::Nothing),
                    Err(e) => Err(e),
                };
                proof {
                    match res {
                        Ok(u) => {
                            assert(u == ());
                            assert(unit_result(r) == Ok::<(), BillingError>(()));
                        },
                        Err(e) => {
                            assert(unit_result(r) == Err::<(), BillingError>(e));
                        },
                    }
                }
                r
            },
            EventPayload::PaymentIntentSucceeded { payment_intent } => {
                let res = self.payment_intent_success(payment_intent, order_percent, now);
                let r = match res {
                    Ok(()) => Ok(EventAction::Nothing),
                    Err(e) => Err(e),
                };
                proof {
                    match res {
                        Ok(u) => {
                            assert(u == ());
                            assert(unit_result(r) == Ok::<(), BillingError>(()));
                        },
                        Err(e) => {
                            assert(unit_result(r) == Err::<(), BillingError>(e));
                        },
                    }
                }
                r
            },
            EventPayload::PaymentIntentCapture { order_id } => Ok(EventAction::CapturePayment(*order_id)),
            EventPayload::PaymentExpired { invoice_id } => Ok(EventAction::Expiry(self.handle_payment_expired(*invoice_id))),
            EventPayload::PayoutInitiated { .. } => Ok(EventAction::Nothing),
        }
    }
}


impl Billing {
    /// One tick of the event worker: stuck entries are recovered, the oldest
    /// due entry is taken and its handler run, and the entry is completed if
    /// the handler succeeded, failed otherwise. Returns the entry's id and
    /// the handler's result, or `None` when nothing was due.
    pub fn process_events(&mut self, now: i64, lease: u32, order_percent: u64) -> (r: Option<
        (EventId, Result<EventAction, BillingError>),
    >)
        requires
            old(self).wf(),
        ensures
            paid_kept(old(self).ledger, final(self).ledger),
            final(self).wf(),
            r.is_none() ==> {
                &&& final(self).ledger == old(self).ledger
                &&& final(self).intents == old(self).intents
                &&& final(self).events.payloads == old(self).events.payloads
                &&& ticked(old(self).events.entries@, now, lease, None, final(self).events.entries@)
            },
            r matches Some((eid, res)) ==> exists|i: usize, mid: Billing, b3: Billing|
                ticked(old(self).events.entries@, now, lease, Some(i), mid.events.entries@) && {
                    &&& mid.ledger == old(self).ledger
                    &&& mid.intents == old(self).intents
                    &&& mid.events.payloads == old(self).events.payloads
                    &&& mid.events.entries@[i as int].id == eid
                    &&& #[trigger] event_handled(mid, old(self).events.payloads@[i as int], order_percent, now, res, b3)
                    &&& final(self).ledger == b3.ledger
                    &&& final(self).intents == b3.intents
                    &&& final(self).events.payloads == b3.events.payloads
                    &&& final(self).events.entries@ == b3.events.entries@.update(
                        i as int,
                        with_status(b3.events.entries@[i as int], finished_status(res)),
                    )
                },
    {
        proof {
            lemma_paid_kept(self.ledger, self.ledger);
        }
        let ghost start = *self;
        let i = match self.events.tick(now, lease) {
            None => {
                return None;
            },
            Some(i) => i,
        };
        proof {
            assert forall|a: int| 0 <= a < self.ledger.invoices@.len() implies paid_events(
                self.events.payloads@,
                (#[trigger] self.ledger.invoices@[a]).id,
            ) == if self.ledger.invoices@[a].is_paid() {
                1nat
            } else {
                0nat
            } by {
                assert(start.ledger.invoices@[a] == self.ledger.invoices@[a]);
            }
        }
        let ghost mid = *self;
        let eid = self.events.entries[i].id;
        let payload = copy_payload(&self.events.payloads[i]);
        let res = self.handle_event(&payload, order_percent, now);
        proof {
            lemma_handled_same(mid, payload, mid.events.payloads@[i as int], order_percent, now, res, *self);
            assert(self.events.entries@[i as int] == mid.events.entries@[i as int]);
        }
        let ghost b3 = *self;
        if res.is_ok() {
            self.events.complete_event(eid);
        } else {
            self.events.fail_event(eid);
        }
        proof {
            assert(b3.events.entries@[i as int].id == eid);
            assert forall|a: int| 0 <= a < self.ledger.invoices@.len() implies paid_events(
                self.events.payloads@,
                (#[trigger] self.ledger.invoices@[a]).id,
            ) == if self.ledger.invoices@[a].is_paid() {
                1nat
            } else {
                0nat
            } by {
                assert(b3.ledger.invoices@[a] == self.ledger.invoices@[a]);
            }
            let k = choose|k: int|
                0 <= k < b3.events.entries@.len() && (#[trigger] b3.events.entries@[k]).id == eid
                    && self.events.entries@ == b3.events.entries@.update(k, with_status(b3.events.entries@[k], finished_status(res)));
            assert(b3.events.entries@[k].id == b3.events.entries@[i as int].id);
            assert(k == i as int);
            assert(ticked(start.events.entries@, now, lease, Some(i), mid.events.entries@));
        }
        Some((eid, res))
    }
}

} // verus!
