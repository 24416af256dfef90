//! The event journal: a durable FIFO of lifecycle events with scheduled
//! delivery and per-entry leases, drained by a single worker.
use vstd::prelude::*;
use crate::error::{BillingError, InternalReason};
use crate::ids::{EventId, InvoiceId, OrderId, PaymentIntentId, PayoutId};

verus! {

/// What an event asks for; it carries ids only, never mutable state.
#[derive(Clone, Debug)]
pub enum EventPayload {
    NoOp,
    InvoicePaid { invoice_id: InvoiceId },
    PaymentIntentPaymentFailed { payment_intent: PaymentIntentId },
    PaymentIntentAmountCapturableUpdated { payment_intent: PaymentIntentId },
    PaymentIntentSucceeded { payment_intent: PaymentIntentId },
    PaymentIntentCapture { order_id: OrderId },
    PaymentExpired { invoice_id: InvoiceId },
    PayoutInitiated { payout_id: PayoutId },
}

impl EventPayload {
    /// The variant's name.
    pub fn kind_name(&self) -> (r: &'static str) {
        match self {
            EventPayload::NoOp => "NoOp",
            EventPayload::InvoicePaid { .. } => "InvoicePaid",
            EventPayload::PaymentIntentPaymentFailed { .. } => "PaymentIntentPaymentFailed",
            EventPayload::PaymentIntentAmountCapturableUpdated { .. } => "PaymentIntentAmountCapturableUpdated",
            EventPayload::PaymentIntentSucceeded { .. } => "PaymentIntentSucceeded",
            EventPayload::PaymentIntentCapture { .. } => "PaymentIntentCapture",
            EventPayload::PaymentExpired { .. } => "PaymentExpired",
            EventPayload::PayoutInitiated { .. } => "PayoutInitiated",
        }
    }
}

/// An event with its journal id.
#[derive(Clone, Debug)]
pub struct Event {
    pub id: EventId,
    pub payload: EventPayload,
}

impl Event {
    /// A new event with a fresh random id.
    pub fn new(payload: EventPayload) -> (r: Event)
        ensures
            r.payload == payload,
    {
        Event { id: EventId::generate(), payload }
    }
}

#[derive(Clone, Copy, Debug, PartialEq, Eq, Structural)]
pub enum EventStatus {
    Pending,
    InProgress,
    Completed,
    Failed,
}

/// The delivery state of one journal entry. Times are unix seconds.
#[derive(Clone, Copy, Debug)]
pub struct EntryState {
    pub id: EventId,
    pub status: EventStatus,
    pub scheduled_for: Option<i64>,
    pub attempts: u32,
    pub lease_until: Option<i64>,
}

/// The journal; `payloads[i]` is the payload of `entries[i]`.
#[derive(Clone, Debug)]
pub struct EventStore {
    pub entries: Vec<EntryState>,
    pub payloads: Vec<EventPayload>,
}

/// An entry that the worker may take at time `now`.
pub open spec fn is_ready(e: EntryState, now: i64) -> bool {
    e.status == EventStatus::Pending && (e.scheduled_for matches Some(t) ==> t <= now)
}

/// An entry whose worker is presumed dead: its lease ran out.
pub open spec fn is_stuck(e: EntryState, now: i64) -> bool {
    e.status == EventStatus::InProgress && (e.lease_until matches Some(t) ==> t <= now)
}

pub open spec fn reset_entry(e: EntryState, now: i64) -> EntryState {
    if is_stuck(e, now) {
        EntryState { status: EventStatus::Pending, lease_until: None, ..e }
    } else {
        e
    }
}

pub open spec fn lease_end(now: i64, lease: u32) -> i64 {
    if now + lease > i64::MAX {
        i64::MAX
    } else {
        (now + lease) as i64
    }
}

pub open spec fn taken(e: EntryState, now: i64, lease: u32) -> EntryState {
    EntryState {
        status: EventStatus::InProgress,
        lease_until: Some(lease_end(now, lease)),
        attempts: if e.attempts == u32::MAX { u32::MAX } else { (e.attempts + 1) as u32 },
        ..e
    }
}

pub open spec fn with_status(e: EntryState, s: EventStatus) -> EntryState {
    EntryState { status: s, ..e }
}

/// One tick of the journal from `a` to `b`: every stuck entry is reset, then
/// the oldest entry due at `now`, if any, is taken (`r` is its position).
pub open spec fn ticked(a: Seq<EntryState>, now: i64, lease: u32, r: Option<usize>, b: Seq<EntryState>) -> bool {
    &&& b.len() == a.len()
    &&& match r {
        None => forall|k: int| 0 <= k < a.len() ==> #[trigger] b[k] == reset_entry(a[k], now) && !is_ready(reset_entry(a[k], now), now),
        Some(i) => {
            &&& i < a.len()
            &&& is_ready(reset_entry(a[i as int], now), now)
            &&& forall|k: int| 0 <= k < i ==> !is_ready(reset_entry(#[trigger] a[k], now), now)
            &&& b[i as int] == taken(reset_entry(a[i as int], now), now, lease)
            &&& forall|k: int| 0 <= k < a.len() && k != i ==> #[trigger] b[k] == reset_entry(a[k], now)
        },
    }
}

impl EventStore {
    pub open spec fn wf(&self) -> bool {
        &&& self.entries@.len() == self.payloads@.len()
        &&& forall|i: int, j: int|
            0 <= i < self.entries@.len() && 0 <= j < self.entries@.len()
                && #[trigger] self.entries@[i].id == #[trigger] self.entries@[j].id ==> i == j
    }

    pub fn new() -> (r: EventStore)
        ensures
            r.wf(),
            r.entries@.len() == 0,
    {
        EventStore { entries: Vec::new(), payloads: Vec::new() }
    }

    /// The position of the entry with `id`.
    pub fn find(&self, id: EventId) -> (r: Option<usize>)
        ensures
            r matches Some(i) ==> i < self.entries@.len() && self.entries@[i as int].id == id,
            r.is_none() ==> forall|k: int| 0 <= k < self.entries@.len() ==> (#[trigger] self.entries@[k]).id != id,
    {
        let mut i: usize = 0;
        while i < self.entries.len()
            invariant
                0 <= i <= self.entries@.len(),
                forall|k: int| 0 <= k < i ==> (#[trigger] self.entries@[k]).id != id,
            decreases self.entries@.len() - i,
        {
            if self.entries[i].id == id {
                return Some(i);
            }
            i = i + 1;
        }
        None
    }

    /// The payload of the entry at `i`.
    pub fn payload(&self, i: usize) -> (r: &EventPayload)
        requires
            self.wf(),
            i < self.entries@.len(),
        ensures
            *r == self.payloads@[i as int],
    {
        &self.payloads[i]
    }

    /// Appends an event, due at once (`None`) or at `scheduled_for`.
    pub fn add_scheduled_event(&mut self, event: Event, scheduled_for: Option<i64>) -> (r: Result<(), BillingError>)
        requires
            old(self).wf(),
        ensures
            final(self).wf(),
            (exists|k: int| 0 <= k < old(self).entries@.len() && (#[trigger] old(self).entries@[k]).id == event.id)
                ==> r == Err::<(), BillingError>(BillingError::Internal(InternalReason::DuplicateId)) && *final(self) == *old(self),
            (forall|k: int| 0 <= k < old(self).entries@.len() ==> (#[trigger] old(self).entries@[k]).id != event.id) ==> {
                &&& r is Ok
                &&& final(self).entries@ == old(self).entries@.push(EntryState {
                    id: event.id,
                    status: EventStatus::Pending,
                    scheduled_for,
                    attempts: 0,
                    lease_until: None,
                })
                &&& final(self).payloads@ == old(self).payloads@.push(event.payload)
            },
    {
        if self.find(event.id).is_some() {
            return Err(BillingError::Internal(InternalReason::DuplicateId));
        }
        let ghost n = self.entries@.len();
        self.entries.push(EntryState {
            id: event.id,
            status: EventStatus::Pending,
            scheduled_for,
            attempts: 0,
            lease_until: None,
        });
        self.payloads.push(event.payload);
        proof {
            assert forall|a: int, b: int|
                0 <= a < self.entries@.len() && 0 <= b < self.entries@.len()
                    && #[trigger] self.entries@[a].id == #[trigger] self.entries@[b].id implies a == b by {
                if a < n && b == n {
                    assert(old(self).entries@[a].id == event.id);
                } else if b < n && a == n {
                    assert(old(self).entries@[b].id == event.id);
                }
            }
        }
        Ok(())
    }

    /// Appends an event that is due at once.
    pub fn add_event(&mut self, event: Event) -> (r: Result<(), BillingError>)
        requires
            old(self).wf(),
        ensures
            final(self).wf(),
            (exists|k: int| 0 <= k < old(self).entries@.len() && (#[trigger] old(self).entries@[k]).id == event.id)
                ==> r == Err::<(), BillingError>(BillingError::Internal(InternalReason::DuplicateId)) && *final(self) == *old(self),
            (forall|k: int| 0 <= k < old(self).entries@.len() ==> (#[trigger] old(self).entries@[k]).id != event.id) ==> {
                &&& r is Ok
                &&& final(self).entries@ == old(self).entries@.push(EntryState {
                    id: event.id,
                    status: EventStatus::Pending,
                    scheduled_for: None,
                    attempts: 0,
                    lease_until: None,
                })
                &&& final(self).payloads@ == old(self).payloads@.push(event.payload)
            },
    {
        self.add_scheduled_event(event, None)
    }

    /// Crash recovery: every in-progress entry whose lease has run out by
    /// `now` is pending again. Returns how many were reset.
    pub fn reset_stuck_events(&mut self, now: i64) -> (r: usize)
        requires
            old(self).wf(),
        ensures
            final(self).wf(),
            final(self).entries@.len() == old(self).entries@.len(),
            forall|k: int| 0 <= k < old(self).entries@.len() ==> #[trigger] final(self).entries@[k] == reset_entry(
                old(self).entries@[k],
                now,
            ),
            final(self).payloads == old(self).payloads,
    {
        let mut count: usize = 0;
        let mut i: usize = 0;
        while i < self.entries.len()
            invariant
                self.entries@.len() == old(self).entries@.len(),
                0 <= i <= self.entries@.len(),
                count <= i,
                forall|k: int| 0 <= k < i ==> #[trigger] self.entries@[k] == reset_entry(old(self).entries@[k], now),
                forall|k: int| i <= k < self.entries@.len() ==> #[trigger] self.entries@[k] == old(self).entries@[k],
                self.payloads == old(self).payloads,
            decreases self.entries@.len() - i,
        {
            let e = self.entries[i];
            let stuck = e.status == EventStatus::InProgress && match e.lease_until {
                Some(t) => t <= now,
                None => true,
            };
            if stuck {
                self.entries.set(i, EntryState { status: EventStatus::Pending, lease_until: None, ..e });
                count = count + 1;
            }
            i = i + 1;
        }
        proof {
            assert forall|a: int, b: int|
                0 <= a < self.entries@.len() && 0 <= b < self.entries@.len()
                    && #[trigger] self.entries@[a].id == #[trigger] self.entries@[b].id implies a == b by {
                assert(old(self).entries@[a].id == self.entries@[a].id);
                assert(old(self).entries@[b].id == self.entries@[b].id);
            }
        }
        count
    }

    /// Takes the oldest entry that is due at `now`: it becomes in progress
    /// with a lease of `lease` seconds. Returns its position.
    pub fn get_event_for_processing(&mut self, now: i64, lease: u32) -> (r: Option<usize>)
        requires
            old(self).wf(),
        ensures
            final(self).wf(),
            final(self).payloads == old(self).payloads,
            r.is_none() ==> *final(self) == *old(self) && forall|k: int|
                0 <= k < old(self).entries@.len() ==> !is_ready(#[trigger] old(self).entries@[k], now),
            r matches Some(i) ==> {
                &&& i < old(self).entries@.len()
                &&& is_ready(old(self).entries@[i as int], now)
                &&& forall|k: int| 0 <= k < i ==> !is_ready(#[trigger] old(self).entries@[k], now)
                &&& final(self).entries@ == old(self).entries@.update(i as int, taken(old(self).entries@[i as int], now, lease))
            },
    {
        let mut i: usize = 0;
        while i < self.entries.len()
            invariant
                *self == *old(self),
                old(self).wf(),
                0 <= i <= self.entries@.len(),
                forall|k: int| 0 <= k < i ==> !is_ready(#[trigger] self.entries@[k], now),
            decreases self.entries@.len() - i,
        {
            let e = self.entries[i];
            let due = match e.scheduled_for {
                Some(t) => t <= now,
                None => true,
            };
            if e.status == EventStatus::Pending && due {
                let until = if now as i128 + lease as i128 > i64::MAX as i128 {
                    i64::MAX
                } else {
                    (now as i128 + lease as i128) as i64
                };
                let attempts = e.attempts.saturating_add(1);
                self.entries.set(i, EntryState {
                    status: EventStatus::InProgress,
                    lease_until: Some(until),
                    attempts,
                    ..e
                });
                proof {
                    assert forall|a: int, b: int|
                        0 <= a < self.entries@.len() && 0 <= b < self.entries@.len()
                            && #[trigger] self.entries@[a].id == #[trigger] self.entries@[b].id implies a == b by {
                        assert(old(self).entries@[a].id == self.entries@[a].id);
                        assert(old(self).entries@[b].id == self.entries@[b].id);
                    }
                }
                return Some(i);
            }
            i = i + 1;
        }
        None
    }

    /// Sets the final status of the entry with `id`; returns whether it exists.
    fn finish(&mut self, id: EventId, status: EventStatus) -> (r: bool)
        requires
            old(self).wf(),
        ensures
            final(self).wf(),
            final(self).payloads == old(self).payloads,
            r == exists|k: int| 0 <= k < old(self).entries@.len() && (#[trigger] old(self).entries@[k]).id == id,
            !r ==> *final(self) == *old(self),
            r ==> exists|k: int|
                0 <= k < old(self).entries@.len() && (#[trigger] old(self).entries@[k]).id == id
                    && final(self).entries@ == old(self).entries@.update(k, with_status(old(self).entries@[k], status)),
    {
        match self.find(id) {
            None => false,
            Some(i) => {
                let e = self.entries[i];
                self.entries.set(i, EntryState { status, ..e });
                proof {
                    assert forall|a: int, b: int|
                        0 <= a < self.entries@.len() && 0 <= b < self.entries@.len()
                            && #[trigger] self.entries@[a].id == #[trigger] self.entries@[b].id implies a == b by {
                        assert(old(self).entries@[a].id == self.entries@[a].id);
                        assert(old(self).entries@[b].id == self.entries@[b].id);
                    }
                    assert(self.entries@ == old(self).entries@.update(i as int, with_status(old(self).entries@[i as int], status)));
                }
                true
            },
        }
    }

    /// The handler succeeded: the entry is completed.
    pub fn complete_event(&mut self, id: EventId) -> (r: bool)
        requires
            old(self).wf(),
        ensures
            final(self).wf(),
            final(self).payloads == old(self).payloads,
            r == exists|k: int| 0 <= k < old(self).entries@.len() && (#[trigger] old(self).entries@[k]).id == id,
            !r ==> *final(self) == *old(self),
            r ==> exists|k: int|
                0 <= k < old(self).entries@.len() && (#[trigger] old(self).entries@[k]).id == id
                    && final(self).entries@ == old(self).entries@.update(
                    k,
                    with_status(old(self).entries@[k], EventStatus::Completed),
                ),
    {
        self.finish(id, EventStatus::Completed)
    }

    /// The handler failed: the entry is failed and is not retried.
    pub fn fail_event(&mut self, id: EventId) -> (r: bool)
        requires
            old(self).wf(),
        ensures
            final(self).wf(),
            final(self).payloads == old(self).payloads,
            r == exists|k: int| 0 <= k < old(self).entries@.len() && (#[trigger] old(self).entries@[k]).id == id,
            !r ==> *final(self) == *old(self),
            r ==> exists|k: int|
                0 <= k < old(self).entries@.len() && (#[trigger] old(self).entries@[k]).id == id
                    && final(self).entries@ == old(self).entries@.update(
                    k,
                    with_status(old(self).entries@[k], EventStatus::Failed),
                ),
    {
        self.finish(id, EventStatus::Failed)
    }

    /// One tick of the worker: recover stuck entries, then take the oldest
    /// due one. An entry whose worker died is pending again, or taken again
    /// with a fresh lease, after the first tick past the end of its lease.
    pub fn tick(&mut self, now: i64, lease: u32) -> (r: Option<usize>)
        requires
            old(self).wf(),
        ensures
            final(self).wf(),
            final(self).payloads == old(self).payloads,
            final(self).entries@.len() == old(self).entries@.len(),
            forall|k: int| 0 <= k < old(self).entries@.len() && is_stuck(#[trigger] old(self).entries@[k], now) ==> {
                ||| final(self).entries@[k].status == EventStatus::Pending
                ||| (r == Some(k as usize) && final(self).entries@[k] == taken(reset_entry(old(self).entries@[k], now), now, lease))
            },
            r matches Some(i) ==> i < old(self).entries@.len() && is_ready(reset_entry(old(self).entries@[i as int], now), now),
            r.is_none() ==> forall|k: int| 0 <= k < old(self).entries@.len() ==> !is_ready(
                reset_entry(#[trigger] old(self).entries@[k], now),
                now,
            ),
            forall|k: int| 0 <= k < old(self).entries@.len() ==> (#[trigger] final(self).entries@[k]).id == old(self).entries@[k].id,
            ticked(old(self).entries@, now, lease, r, final(self).entries@),
    {
        self.reset_stuck_events(now);
        let ghost mid = self.entries@;
        let r = self.get_event_for_processing(now, lease);
        proof {
            assert forall|k: int| 0 <= k < old(self).entries@.len() implies (#[trigger] self.entries@[k]).id == old(self).entries@[k].id by {
                assert(mid[k] == reset_entry(old(self).entries@[k], now));
            }
            if r.is_none() {
                assert forall|k: int| 0 <= k < old(self).entries@.len() implies !is_ready(
                    reset_entry(#[trigger] old(self).entries@[k], now),
                    now,
                ) by {
                    assert(mid[k] == reset_entry(old(self).entries@[k], now));
                }
            }
            match r {
                None => {},
                Some(i) => {
                    assert forall|k: int| 0 <= k < i implies !is_ready(reset_entry(#[trigger] old(self).entries@[k], now), now) by {
                        assert(mid[k] == reset_entry(old(self).entries@[k], now));
                    }
                    assert(mid[i as int] == reset_entry(old(self).entries@[i as int], now));
                    assert forall|k: int| 0 <= k < old(self).entries@.len() && k != i implies #[trigger] self.entries@[k] == reset_entry(old(self).entries@[k], now) by {
                        assert(mid[k] == reset_entry(old(self).entries@[k], now));
                    }
                },
            }
        }
        r
    }
}

/// At most one entry per id is in progress: ids are unique in the journal.
pub proof fn one_in_progress_per_id(s: EventStore, i: int, j: int)
    requires
        s.wf(),
        0 <= i < s.entries@.len(),
        0 <= j < s.entries@.len(),
        s.entries@[i].status == EventStatus::InProgress,
        s.entries@[j].status == EventStatus::InProgress,
        s.entries@[i].id == s.entries@[j].id,
    ensures
        i == j,
{
}

} // verus!
