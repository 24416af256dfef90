//! The ledger store: invoices, orders, versioned exchange rates, accounts,
//! captured transactions and fees, with the domain queries of the engine.
use vstd::prelude::*;
use crate::error::{BillingError, InternalReason};
use crate::ids::{AccountId, InvoiceId, OrderId, TransactionId, WalletAddress};
use crate::model::{Account, Fee, Invoice, NewOrderExchangeRate, Order, OrderExchangeRate, RateStatus};

verus! {

/// One inbound transaction counted on an invoice.
#[derive(Clone, Copy, Debug)]
pub struct Capture {
    pub account_id: AccountId,
    pub transaction_id: TransactionId,
    pub invoice_id: InvoiceId,
    pub amount: u128,
}

/// The rows of the ledger.
#[derive(Clone, Debug)]
pub struct Ledger {
    pub invoices: Vec<Invoice>,
    pub orders: Vec<Order>,
    pub rates: Vec<OrderExchangeRate>,
    pub accounts: Vec<Account>,
    pub captures: Vec<Capture>,
    pub fees: Vec<Fee>,
}

/// At most one active rate per order.
pub open spec fn one_active_rate(rates: Seq<OrderExchangeRate>) -> bool {
    forall|i: int, j: int|
        0 <= i < rates.len() && 0 <= j < rates.len() && rates[i].status == RateStatus::Active
            && rates[j].status == RateStatus::Active && #[trigger] rates[i].order_id == #[trigger] rates[j].order_id
            ==> i == j
}

pub open spec fn captured_before(captures: Seq<Capture>, a: AccountId, t: TransactionId) -> bool {
    exists|i: int| 0 <= i < captures.len() && (#[trigger] captures[i]).account_id == a && captures[i].transaction_id == t
}

pub open spec fn invoice_index(invoices: Seq<Invoice>, id: InvoiceId) -> Option<int> {
    if exists|i: int| 0 <= i < invoices.len() && (#[trigger] invoices[i]).id == id {
        Some(choose|i: int| 0 <= i < invoices.len() && (#[trigger] invoices[i]).id == id)
    } else {
        None
    }
}

impl Ledger {
    pub open spec fn wf(&self) -> bool {
        &&& forall|i: int| 0 <= i < self.invoices@.len() ==> (#[trigger] self.invoices@[i]).wf()
        &&& forall|i: int, j: int|
            0 <= i < self.invoices@.len() && 0 <= j < self.invoices@.len()
                && #[trigger] self.invoices@[i].id == #[trigger] self.invoices@[j].id ==> i == j
        &&& forall|i: int| 0 <= i < self.rates@.len() ==> (#[trigger] self.rates@[i]).rate.wf()
        &&& one_active_rate(self.rates@)
        &&& forall|i: int, j: int|
            0 <= i < self.captures@.len() && 0 <= j < self.captures@.len()
                && #[trigger] self.captures@[i].account_id == #[trigger] self.captures@[j].account_id
                && self.captures@[i].transaction_id == self.captures@[j].transaction_id ==> i == j
    }

    /// The invoice with `id`, if any.
    pub open spec fn invoice(&self, id: InvoiceId) -> Option<Invoice> {
        match invoice_index(self.invoices@, id) {
            Some(i) => Some(self.invoices@[i]),
            None => None,
        }
    }

    pub fn new() -> (r: Ledger)
        ensures
            r.wf(),
            r.invoices@.len() == 0,
            r.orders@.len() == 0,
            r.rates@.len() == 0,
            r.accounts@.len() == 0,
            r.captures@.len() == 0,
            r.fees@.len() == 0,
    {
        Ledger {
            invoices: Vec::new(),
            orders: Vec::new(),
            rates: Vec::new(),
            accounts: Vec::new(),
            captures: Vec::new(),
            fees: Vec::new(),
        }
    }

    /// The position of the invoice with `id`.
    pub fn find_invoice(&self, id: InvoiceId) -> (r: Option<usize>)
        requires
            self.wf(),
        ensures
            r matches Some(i) ==> i < self.invoices@.len() && self.invoices@[i as int].id == id
                && invoice_index(self.invoices@, id) == Some(i as int),
            r.is_none() ==> invoice_index(self.invoices@, id).is_none(),
    {
        let mut i: usize = 0;
        while i < self.invoices.len()
            invariant
                self.wf(),
                0 <= i <= self.invoices@.len(),
                forall|k: int| 0 <= k < i ==> (#[trigger] self.invoices@[k]).id != id,
            decreases self.invoices@.len() - i,
        {
            if self.invoices[i].id == id {
                proof {
                    let ii = i as int;
                    assert(0 <= ii < self.invoices@.len() && self.invoices@[ii].id == id);
                    let c = choose|c: int| 0 <= c < self.invoices@.len() && (#[trigger] self.invoices@[c]).id == id;
                    assert(self.invoices@[c].id == self.invoices@[ii].id);
                    assert(c == ii);
                }
                return Some(i);
            }
            i = i + 1;
        }
        None
    }

    /// The invoice with `id`.
    pub fn get_invoice(&self, id: InvoiceId) -> (r: Option<Invoice>)
        requires
            self.wf(),
        ensures
            r == self.invoice(id),
    {
        match self.find_invoice(id) {
            Some(i) => Some(self.invoices[i]),
            None => None,
        }
    }

    /// The first invoice that receives funds on `account_id`.
    pub fn get_invoice_by_account_id(&self, account_id: AccountId) -> (r: Option<Invoice>)
        ensures
            r matches Some(inv) ==> exists|i: int| 0 <= i < self.invoices@.len() && self.invoices@[i] == inv
                && inv.account_id == Some(account_id),
            r.is_none() ==> forall|i: int| 0 <= i < self.invoices@.len() ==> (#[trigger] self.invoices@[i]).account_id != Some(account_id),
    {
        let mut i: usize = 0;
        while i < self.invoices.len()
            invariant
                0 <= i <= self.invoices@.len(),
                forall|k: int| 0 <= k < i ==> (#[trigger] self.invoices@[k]).account_id != Some(account_id),
            decreases self.invoices@.len() - i,
        {
            match self.invoices[i].account_id {
                Some(a) => {
                    if a == account_id {
                        return Some(self.invoices[i]);
                    }
                },
                None => {},
            }
            i = i + 1;
        }
        None
    }

    /// The account whose wallet has `address`.
    pub fn get_account_by_wallet_address(&self, address: &WalletAddress) -> (r: Option<AccountId>)
        ensures
            r matches Some(a) ==> exists|i: int| 0 <= i < self.accounts@.len() && (#[trigger] self.accounts@[i]).id == a
                && self.accounts@[i].wallet_address@ == address@
                && forall|k: int| 0 <= k < i ==> (#[trigger] self.accounts@[k]).wallet_address@ != address@,
            r.is_none() ==> forall|i: int| 0 <= i < self.accounts@.len() ==> (#[trigger] self.accounts@[i]).wallet_address@ != address@,
    {
        let mut i: usize = 0;
        while i < self.accounts.len()
            invariant
                0 <= i <= self.accounts@.len(),
                forall|k: int| 0 <= k < i ==> (#[trigger] self.accounts@[k]).wallet_address@ != address@,
            decreases self.accounts@.len() - i,
        {
            if self.accounts[i].wallet_address.0 == address.0 {
                return Some(self.accounts[i].id);
            }
            i = i + 1;
        }
        None
    }

    /// The position of the account with `id`.
    pub fn find_account(&self, id: AccountId) -> (r: Option<usize>)
        ensures
            r matches Some(i) ==> i < self.accounts@.len() && self.accounts@[i as int].id == id
                && forall|k: int| 0 <= k < i ==> (#[trigger] self.accounts@[k]).id != id,
            r.is_none() ==> forall|k: int| 0 <= k < self.accounts@.len() ==> (#[trigger] self.accounts@[k]).id != id,
    {
        let mut i: usize = 0;
        while i < self.accounts.len()
            invariant
                0 <= i <= self.accounts@.len(),
                forall|k: int| 0 <= k < i ==> (#[trigger] self.accounts@[k]).id != id,
            decreases self.accounts@.len() - i,
        {
            if self.accounts[i].id == id {
                return Some(i);
            }
            i = i + 1;
        }
        None
    }

    /// Whether the transaction was already counted.
    pub fn has_capture(&self, account_id: AccountId, transaction_id: TransactionId) -> (r: bool)
        ensures
            r == captured_before(self.captures@, account_id, transaction_id),
    {
        let mut i: usize = 0;
        while i < self.captures.len()
            invariant
                0 <= i <= self.captures@.len(),
                forall|k: int| 0 <= k < i ==> !((#[trigger] self.captures@[k]).account_id == account_id
                    && self.captures@[k].transaction_id == transaction_id),
            decreases self.captures@.len() - i,
        {
            if self.captures[i].account_id == account_id && self.captures[i].transaction_id == transaction_id {
                return true;
            }
            i = i + 1;
        }
        false
    }

    /// The orders of an invoice, in the order they were stored.
    pub fn get_orders_by_invoice(&self, invoice_id: InvoiceId) -> (r: Vec<Order>)
        ensures
            r@ == self.orders@.filter(|o: Order| o.invoice_id == invoice_id),
    {
        let mut out: Vec<Order> = Vec::new();
        let mut i: usize = 0;
        while i < self.orders.len()
            invariant
                0 <= i <= self.orders@.len(),
                out@ == self.orders@.take(i as int).filter(|o: Order| o.invoice_id == invoice_id),
            decreases self.orders@.len() - i,
        {
            proof {
                reveal(Seq::filter);
                assert(self.orders@.take(i as int + 1).drop_last() =~= self.orders@.take(i as int));
            }
            if self.orders[i].invoice_id == invoice_id {
                out.push(self.orders[i]);
            }
            i = i + 1;
        }
        proof {
            assert(self.orders@.take(self.orders@.len() as int) =~= self.orders@);
        }
        out
    }

    /// Every rate of an order, active and expired, oldest first.
    pub fn get_all_rates_for_order(&self, order_id: OrderId) -> (r: Vec<OrderExchangeRate>)
        ensures
            r@ == self.rates@.filter(|x: OrderExchangeRate| x.order_id == order_id),
            self.wf() ==> forall|k: int| 0 <= k < r@.len() ==> (#[trigger] r@[k]).rate.wf(),
    {
        let mut out: Vec<OrderExchangeRate> = Vec::new();
        let mut i: usize = 0;
        while i < self.rates.len()
            invariant
                0 <= i <= self.rates@.len(),
                out@ == self.rates@.take(i as int).filter(|x: OrderExchangeRate| x.order_id == order_id),
                self.wf() ==> forall|k: int| 0 <= k < out@.len() ==> (#[trigger] out@[k]).rate.wf(),
            decreases self.rates@.len() - i,
        {
            proof {
                reveal(Seq::filter);
                assert(self.rates@.take(i as int + 1).drop_last() =~= self.rates@.take(i as int));
            }
            if self.rates[i].order_id == order_id {
                out.push(self.rates[i]);
            }
            i = i + 1;
        }
        proof {
            assert(self.rates@.take(self.rates@.len() as int) =~= self.rates@);
        }
        out
    }

    /// The order's active rate, if it has one.
    pub fn get_active_rate_for_order(&self, order_id: OrderId) -> (r: Option<OrderExchangeRate>)
        ensures
            r matches Some(x) ==> exists|i: int| 0 <= i < self.rates@.len() && self.rates@[i] == x
                && x.order_id == order_id && x.status == RateStatus::Active,
            r.is_none() ==> forall|i: int| 0 <= i < self.rates@.len() ==> !((#[trigger] self.rates@[i]).order_id == order_id
                && self.rates@[i].status == RateStatus::Active),
    {
        let mut i: usize = 0;
        while i < self.rates.len()
            invariant
                0 <= i <= self.rates@.len(),
                forall|k: int| 0 <= k < i ==> !((#[trigger] self.rates@[k]).order_id == order_id
                    && self.rates@[k].status == RateStatus::Active),
            decreases self.rates@.len() - i,
        {
            if self.rates[i].order_id == order_id && self.rates[i].status == RateStatus::Active {
                return Some(self.rates[i]);
            }
            i = i + 1;
        }
        None
    }

    /// The position of the first invoice that receives funds on `account_id`.
    pub fn find_invoice_by_account(&self, account_id: AccountId) -> (r: Option<usize>)
        ensures
            r matches Some(i) ==> i < self.invoices@.len() && self.invoices@[i as int].account_id == Some(account_id)
                && forall|k: int| 0 <= k < i ==> (#[trigger] self.invoices@[k]).account_id != Some(account_id),
            r.is_none() ==> forall|k: int| 0 <= k < self.invoices@.len() ==> (#[trigger] self.invoices@[k]).account_id != Some(account_id),
    {
        let mut i: usize = 0;
        while i < self.invoices.len()
            invariant
                0 <= i <= self.invoices@.len(),
                forall|k: int| 0 <= k < i ==> (#[trigger] self.invoices@[k]).account_id != Some(account_id),
            decreases self.invoices@.len() - i,
        {
            if let Some(a) = self.invoices[i].account_id {
                if a == account_id {
                    return Some(i);
                }
            }
            i = i + 1;
        }
        None
    }

    /// Stores `new_rate` as the order's active rate; the order's previous
    /// active rate becomes expired in the same step.
    pub fn add_new_active_rate(&mut self, new_rate: NewOrderExchangeRate) -> (r: OrderExchangeRate)
        requires
            old(self).wf(),
            new_rate.rate.wf(),
        ensures
            final(self).wf(),
            r.order_id == new_rate.order_id && r.exchange_id == new_rate.exchange_id && r.rate == new_rate.rate
                && r.status == RateStatus::Active && r.id == old(self).rates@.len() as u64,
            final(self).rates@.len() == old(self).rates@.len() + 1,
            final(self).rates@.last() == r,
            final(self).rates@ == add_active_rate(old(self).rates@, new_rate),
            forall|i: int| 0 <= i < old(self).rates@.len() ==> #[trigger] final(self).rates@[i] == expire_if_of(
                old(self).rates@[i],
                new_rate.order_id,
            ),
            final(self).invoices == old(self).invoices,
            final(self).orders == old(self).orders,
            final(self).accounts == old(self).accounts,
            final(self).captures == old(self).captures,
            final(self).fees == old(self).fees,
    {
        let ghost before = self.rates@;
        let oid = new_rate.order_id;
        let mut i: usize = 0;
        while i < self.rates.len()
            invariant
                self.rates@.len() == before.len(),
                0 <= i <= before.len(),
                forall|k: int| 0 <= k < i ==> #[trigger] self.rates@[k] == expire_if_of(before[k], oid),
                forall|k: int| i <= k < before.len() ==> #[trigger] self.rates@[k] == before[k],
                self.invoices == old(self).invoices,
                self.orders == old(self).orders,
                self.accounts == old(self).accounts,
                self.captures == old(self).captures,
                self.fees == old(self).fees,
                before == old(self).rates@,
            decreases before.len() - i,
        {
            let cur = self.rates[i];
            if cur.order_id == oid && cur.status == RateStatus::Active {
                let expired = OrderExchangeRate {
                    id: cur.id,
                    order_id: cur.order_id,
                    exchange_id: cur.exchange_id,
                    rate: cur.rate,
                    status: RateStatus::Expired,
                };
                self.rates.set(i, expired);
            }
            i = i + 1;
        }
        let r = OrderExchangeRate {
            id: self.rates.len() as u64,
            order_id: oid,
            exchange_id: new_rate.exchange_id,
            rate: new_rate.rate,
            status: RateStatus::Active,
        };
        self.rates.push(r);
        proof {
            let rs = self.rates@;
            assert forall|a: int, b: int|
                0 <= a < rs.len() && 0 <= b < rs.len() && rs[a].status == RateStatus::Active
                    && rs[b].status == RateStatus::Active && #[trigger] rs[a].order_id == #[trigger] rs[b].order_id
                implies a == b by {
                if a < before.len() && b < before.len() {
                    assert(before[a].order_id == before[b].order_id);
                }
            }
            assert forall|k: int| 0 <= k < rs.len() implies (#[trigger] rs[k]).rate.wf() by {
                if k < before.len() {
                    assert(old(self).rates@[k].rate.wf());
                }
            }
            assert(rs =~= add_active_rate(before, new_rate));
        }
        r
    }

    /// Counts an inbound transaction on the invoice of `account_id`. A
    /// transaction counts once: delivering it again fails with
    /// `AlreadyApplied` and changes nothing.
    pub fn increase_amount_captured(
        &mut self,
        account_id: AccountId,
        transaction_id: TransactionId,
        amount: u128,
    ) -> (r: Result<Invoice, BillingError>)
        requires
            old(self).wf(),
        ensures
            final(self).wf(),
            captured_before(old(self).captures@, account_id, transaction_id) ==> r == Err::<Invoice, BillingError>(
                BillingError::AlreadyApplied,
            ) && *final(self) == *old(self),
            !captured_before(old(self).captures@, account_id, transaction_id) ==> match r {
                Ok(inv) => exists|i: int|
                    0 <= i < old(self).invoices@.len() && old(self).invoices@[i].account_id == Some(account_id)
                        && (forall|k: int| 0 <= k < i ==> (#[trigger] old(self).invoices@[k]).account_id != Some(account_id))
                        && inv == (Invoice { amount_captured: (old(self).invoices@[i].amount_captured + amount) as u128, ..old(self).invoices@[i] })
                        && final(self).invoices@ == old(self).invoices@.update(i, inv)
                        && final(self).captures@ == old(self).captures@.push(
                            Capture { account_id, transaction_id, invoice_id: inv.id, amount },
                        ),
                Err(e) => *final(self) == *old(self) && (e == BillingError::NotFound ==> forall|k: int|
                    0 <= k < old(self).invoices@.len() ==> (#[trigger] old(self).invoices@[k]).account_id != Some(account_id))
                    && (e == BillingError::Internal(InternalReason::Overflow) ==> exists|i: int|
                    0 <= i < old(self).invoices@.len() && old(self).invoices@[i].account_id == Some(account_id)
                        && (forall|k: int| 0 <= k < i ==> (#[trigger] old(self).invoices@[k]).account_id != Some(account_id))
                        && old(self).invoices@[i].amount_captured + amount > u128::MAX)
                    && (e == BillingError::NotFound || e == BillingError::Internal(InternalReason::Overflow)),
            },
            r.is_ok() ==> {
                &&& final(self).orders == old(self).orders
                &&& final(self).rates == old(self).rates
                &&& final(self).accounts == old(self).accounts
                &&& final(self).fees == old(self).fees
            },
    {
        if self.has_capture(account_id, transaction_id) {
            return Err(BillingError::AlreadyApplied);
        }
        let i = match self.find_invoice_by_account(account_id) {
            Some(i) => i,
            None => {
                return Err(BillingError::NotFound);
            },
        };
        let inv = self.invoices[i];
        let total = match inv.amount_captured.checked_add(amount) {
            Some(t) => t,
            None => {
                return Err(BillingError::Internal(InternalReason::Overflow));
            },
        };
        let updated = Invoice { amount_captured: total, ..inv };
        self.invoices.set(i, updated);
        self.captures.push(Capture { account_id, transaction_id, invoice_id: inv.id, amount });
        proof {
            let cs = self.captures@;
            let n = old(self).captures@.len();
            assert forall|a: int, b: int|
                0 <= a < cs.len() && 0 <= b < cs.len() && #[trigger] cs[a].account_id == #[trigger] cs[b].account_id
                    && cs[a].transaction_id == cs[b].transaction_id implies a == b by {
                if a == n && b < n {
                    assert(old(self).captures@[b].account_id == account_id);
                } else if b == n && a < n {
                    assert(old(self).captures@[a].account_id == account_id);
                }
            }
            assert forall|a: int, b: int|
                0 <= a < self.invoices@.len() && 0 <= b < self.invoices@.len()
                    && #[trigger] self.invoices@[a].id == #[trigger] self.invoices@[b].id implies a == b by {
                assert(old(self).invoices@[a].id == self.invoices@[a].id);
                assert(old(self).invoices@[b].id == self.invoices@[b].id);
            }
            assert(old(self).invoices@[i as int].wf());
        }
        Ok(updated)
    }

    /// Records the final amounts of a paid invoice. An invoice that is
    /// already paid keeps its final amounts and payment time.
    pub fn set_invoice_paid(
        &mut self,
        invoice_id: InvoiceId,
        final_amount_paid: u128,
        final_cashback_amount: u128,
        paid_at: i64,
    ) -> (r: Result<Invoice, BillingError>)
        requires
            old(self).wf(),
        ensures
            final(self).wf(),
            old(self).invoice(invoice_id).is_none() ==> r == Err::<Invoice, BillingError>(BillingError::NotFound)
                && *final(self) == *old(self),
            old(self).invoice(invoice_id) matches Some(inv) ==> {
                &&& inv.is_paid() ==> r == Ok::<Invoice, BillingError>(inv) && *final(self) == *old(self)
                &&& !inv.is_paid() ==> {
                    let paid = Invoice {
                        final_amount_paid: Some(final_amount_paid),
                        final_cashback_amount: Some(final_cashback_amount),
                        paid_at: Some(paid_at),
                        ..inv
                    };
                    &&& r == Ok::<Invoice, BillingError>(paid)
                    &&& final(self).invoices@ == old(self).invoices@.update(invoice_index(old(self).invoices@, invoice_id).unwrap(), paid)
                    &&& final(self).invoice(invoice_id) == Some(paid)
                    &&& final(self).orders == old(self).orders
                    &&& final(self).rates == old(self).rates
                    &&& final(self).accounts == old(self).accounts
                    &&& final(self).captures == old(self).captures
                    &&& final(self).fees == old(self).fees
                }
            },
    {
        let i = match self.find_invoice(invoice_id) {
            Some(i) => i,
            None => {
                return Err(BillingError::NotFound);
            },
        };
        let inv = self.invoices[i];
        if inv.paid_at.is_some() {
            return Ok(inv);
        }
        let paid = Invoice {
            final_amount_paid: Some(final_amount_paid),
            final_cashback_amount: Some(final_cashback_amount),
            paid_at: Some(paid_at),
            ..inv
        };
        self.invoices.set(i, paid);
        proof {
            assert forall|a: int, b: int|
                0 <= a < self.invoices@.len() && 0 <= b < self.invoices@.len()
                    && #[trigger] self.invoices@[a].id == #[trigger] self.invoices@[b].id implies a == b by {
                assert(old(self).invoices@[a].id == self.invoices@[a].id);
                assert(old(self).invoices@[b].id == self.invoices@[b].id);
            }
            assert forall|k: int| 0 <= k < self.invoices@.len() implies (#[trigger] self.invoices@[k]).wf() by {
                if k != i {
                    assert(old(self).invoices@[k].wf());
                }
            }
            lemma_index_unique(self.invoices@, i as int, invoice_id);
        }
        Ok(paid)
    }
}

impl Ledger {
    /// Stores a new invoice; its id must be fresh.
    pub fn insert_invoice(&mut self, invoice: Invoice) -> (r: Result<(), BillingError>)
        requires
            old(self).wf(),
            invoice.wf(),
        ensures
            final(self).wf(),
            old(self).invoice(invoice.id).is_some() ==> r == Err::<(), BillingError>(
                BillingError::Internal(InternalReason::DuplicateId),
            ) && *final(self) == *old(self),
            old(self).invoice(invoice.id).is_none() ==> r is Ok && final(self).invoices@ == old(self).invoices@.push(invoice)
                && final(self).orders == old(self).orders && final(self).rates == old(self).rates
                && final(self).accounts == old(self).accounts && final(self).captures == old(self).captures
                && final(self).fees == old(self).fees,
    {
        if self.find_invoice(invoice.id).is_some() {
            return Err(BillingError::Internal(InternalReason::DuplicateId));
        }
        self.invoices.push(invoice);
        proof {
            let n = old(self).invoices@.len();
            assert forall|a: int, b: int|
                0 <= a < self.invoices@.len() && 0 <= b < self.invoices@.len()
                    && #[trigger] self.invoices@[a].id == #[trigger] self.invoices@[b].id implies a == b by {
                if a < n && b == n {
                    assert(old(self).invoices@[a].id == invoice.id);
                } else if b < n && a == n {
                    assert(old(self).invoices@[b].id == invoice.id);
                }
            }
            assert forall|k: int| 0 <= k < self.invoices@.len() implies (#[trigger] self.invoices@[k]).wf() by {
                if k < n {
                    assert(old(self).invoices@[k].wf());
                }
            }
        }
        Ok(())
    }

    /// Stores a new order.
    pub fn insert_order(&mut self, order: Order)
        requires
            old(self).wf(),
        ensures
            final(self).wf(),
            final(self).orders@ == old(self).orders@.push(order),
            final(self).invoices == old(self).invoices,
            final(self).rates == old(self).rates,
            final(self).accounts == old(self).accounts,
            final(self).captures == old(self).captures,
            final(self).fees == old(self).fees,
    {
        self.orders.push(order);
    }

    /// Caches an account of the crypto gateway.
    pub fn insert_account(&mut self, account: Account)
        requires
            old(self).wf(),
        ensures
            final(self).wf(),
            final(self).accounts@ == old(self).accounts@.push(account),
            final(self).invoices == old(self).invoices,
            final(self).orders == old(self).orders,
            final(self).rates == old(self).rates,
            final(self).captures == old(self).captures,
            final(self).fees == old(self).fees,
    {
        self.accounts.push(account);
    }

    /// Stores a fee.
    /// Stores a fee under the next id.
    pub fn insert_fee(&mut self, fee: Fee)
        requires
            old(self).wf(),
        ensures
            final(self).wf(),
            final(self).fees@ == old(self).fees@.push(Fee { id: old(self).fees@.len() as u64, ..fee }),
            final(self).invoices == old(self).invoices,
            final(self).orders == old(self).orders,
            final(self).rates == old(self).rates,
            final(self).accounts == old(self).accounts,
            final(self).captures == old(self).captures,
    {
        let id = self.fees.len() as u64;
        self.fees.push(Fee { id, ..fee });
    }

    /// Marks an unpaid invoice as expired; returns whether it did. A paid
    /// invoice, or a missing one, is left as it is.
    pub fn mark_expired(&mut self, invoice_id: InvoiceId) -> (r: bool)
        requires
            old(self).wf(),
        ensures
            final(self).wf(),
            r == (old(self).invoice(invoice_id) matches Some(inv) && !inv.is_paid()),
            !r ==> *final(self) == *old(self),
            r ==> final(self).invoices@ == old(self).invoices@.update(
                invoice_index(old(self).invoices@, invoice_id).unwrap(),
                Invoice { expired: true, ..old(self).invoice(invoice_id).unwrap() },
            ) && final(self).orders == old(self).orders && final(self).rates == old(self).rates
                && final(self).accounts == old(self).accounts && final(self).captures == old(self).captures
                && final(self).fees == old(self).fees,
    {
        let i = match self.find_invoice(invoice_id) {
            Some(i) => i,
            None => {
                return false;
            },
        };
        let inv = self.invoices[i];
        if inv.paid_at.is_some() {
            return false;
        }
        self.invoices.set(i, Invoice { expired: true, ..inv });
        proof {
            assert forall|a: int, b: int|
                0 <= a < self.invoices@.len() && 0 <= b < self.invoices@.len()
                    && #[trigger] self.invoices@[a].id == #[trigger] self.invoices@[b].id implies a == b by {
                assert(old(self).invoices@[a].id == self.invoices@[a].id);
                assert(old(self).invoices@[b].id == self.invoices@[b].id);
            }
            assert forall|k: int| 0 <= k < self.invoices@.len() implies (#[trigger] self.invoices@[k]).wf() by {
                assert(old(self).invoices@[k].wf());
            }
        }
        true
    }
}

/// No order ever has two active rates: every operation of the ledger keeps
/// this, and the ledger starts empty.
pub proof fn active_rate_is_unique(l: Ledger, i: int, j: int)
    requires
        l.wf(),
        0 <= i < l.rates@.len(),
        0 <= j < l.rates@.len(),
        l.rates@[i].status == RateStatus::Active,
        l.rates@[j].status == RateStatus::Active,
        l.rates@[i].order_id == l.rates@[j].order_id,
    ensures
        i == j,
{
}

/// The rates after storing `n` as its order's active rate: the order's
/// active rate expires and `n` is appended, active, with the next id.
pub open spec fn add_active_rate(rs: Seq<OrderExchangeRate>, n: NewOrderExchangeRate) -> Seq<OrderExchangeRate> {
    rs.map_values(|x: OrderExchangeRate| expire_if_of(x, n.order_id)).push(
        OrderExchangeRate {
            id: rs.len() as u64,
            order_id: n.order_id,
            exchange_id: n.exchange_id,
            rate: n.rate,
            status: RateStatus::Active,
        },
    )
}

/// The rates after storing each of `ns` in turn.
pub open spec fn apply_rates(rs: Seq<OrderExchangeRate>, ns: Seq<NewOrderExchangeRate>) -> Seq<OrderExchangeRate>
    decreases ns.len(),
{
    if ns.len() == 0 {
        rs
    } else {
        add_active_rate(apply_rates(rs, ns.drop_last()), ns.last())
    }
}

/// The rate itself, expired if it is the active rate of `order_id`.
pub open spec fn expire_if_of(x: OrderExchangeRate, order_id: OrderId) -> OrderExchangeRate {
    if x.order_id == order_id && x.status == RateStatus::Active {
        OrderExchangeRate { status: RateStatus::Expired, ..x }
    } else {
        x
    }
}

pub(crate) proof fn lemma_index_unique(invoices: Seq<Invoice>, i: int, id: InvoiceId)
    requires
        0 <= i < invoices.len(),
        invoices[i].id == id,
        forall|a: int, b: int|
            0 <= a < invoices.len() && 0 <= b < invoices.len() && #[trigger] invoices[a].id == #[trigger] invoices[b].id
                ==> a == b,
    ensures
        invoice_index(invoices, id) == Some(i),
{
    let c = choose|c: int| 0 <= c < invoices.len() && (#[trigger] invoices[c]).id == id;
    assert(invoices[c].id == invoices[i].id);
}

} // verus!
