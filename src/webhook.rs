//! Inbound transactions of the crypto gateway: authentication, account
//! resolution, and counting each transaction once.
use vstd::prelude::*;
use vstd::string::StringSliceAdditionalSpecFns;
use crate::amount::{parse_amount, spec_parse_amount};
use crate::currency::TureCurrency;
use crate::error::{BillingError, InternalReason};
use crate::ids::{AccountId, TransactionId, WalletAddress};
use crate::invoice::{Billing, lemma_paid_kept, paid_events, paid_kept};
use crate::ledger::{Capture, Ledger, captured_before};
use crate::model::Invoice;
use crate::signature::{check_ture_sign, decode_hex, ecdsa_verifies, sha256_of};

verus! {

/// The crypto gateway's callback about an inbound transaction.
#[derive(Clone, Debug)]
pub struct PaymentsCallback {
    pub url: String,
    pub transaction_id: TransactionId,
    pub amount_captured: String,
    pub currency: TureCurrency,
    pub address: WalletAddress,
    pub account_id: Option<AccountId>,
}

/// The account the callback is about: the one it names, else the first
/// account whose wallet has the callback's address.
pub open spec fn resolves_to(l: Ledger, cb: PaymentsCallback, a: AccountId) -> bool {
    match cb.account_id {
        Some(x) => x == a,
        None => exists|i: int| #[trigger] first_account_at(l, cb.address@, i) && l.accounts@[i].id == a,
    }
}

/// `i` is the first account whose wallet has `address`.
pub open spec fn first_account_at(l: Ledger, address: Seq<char>, i: int) -> bool {
    &&& 0 <= i < l.accounts@.len()
    &&& l.accounts@[i].wallet_address@ == address
    &&& forall|k: int| 0 <= k < i ==> (#[trigger] l.accounts@[k]).wallet_address@ != address
}

/// No account can be found for the callback.
pub open spec fn unresolved(l: Ledger, cb: PaymentsCallback) -> bool {
    cb.account_id.is_none() && forall|i: int|
        0 <= i < l.accounts@.len() ==> (#[trigger] l.accounts@[i]).wallet_address@ != cb.address@
}

/// `i` is the first invoice that receives funds on `a`.
pub open spec fn first_invoice_of(invoices: Seq<Invoice>, a: AccountId, i: int) -> bool {
    &&& 0 <= i < invoices.len()
    &&& invoices[i].account_id == Some(a)
    &&& forall|k: int| 0 <= k < i ==> (#[trigger] invoices[k]).account_id != Some(a)
}

pub open spec fn no_invoice_of(invoices: Seq<Invoice>, a: AccountId) -> bool {
    forall|k: int| 0 <= k < invoices.len() ==> (#[trigger] invoices[k]).account_id != Some(a)
}

/// What counting the callback's transaction does, from `b` to `b2` with result `r`.
#[verifier::opaque]
pub open spec fn reconciled(b: Billing, cb: PaymentsCallback, r: Result<Invoice, BillingError>, b2: Billing) -> bool {
    let l = b.ledger;
    let amount = spec_parse_amount(cb.amount_captured@);
    &&& b2.events == b.events
    &&& b2.intents == b.intents
    &&& b2.ledger.accounts == l.accounts
    &&& r is Err ==> b2 == b
    &&& r matches Err(e) ==> e != BillingError::AlreadyApplied
    &&& unresolved(l, cb) ==> r == Err::<Invoice, BillingError>(BillingError::NotFound)
    &&& !unresolved(l, cb) && amount.is_none() ==> r == Err::<Invoice, BillingError>(
        BillingError::Internal(InternalReason::AmountFormat),
    )
    &&& forall|a: AccountId|
        #[trigger] resolves_to(l, cb, a) && amount.is_some() ==> {
            &&& no_invoice_of(l.invoices@, a) ==> r == Err::<Invoice, BillingError>(BillingError::NotFound)
            &&& forall|i: int|
                #[trigger] first_invoice_of(l.invoices@, a, i) ==> {
                    &&& captured_before(l.captures@, a, cb.transaction_id) ==> r == Ok::<Invoice, BillingError>(
                        l.invoices@[i],
                    ) && b2 == b
                    &&& !captured_before(l.captures@, a, cb.transaction_id) ==> match r {
                        Ok(inv) => {
                            &&& inv == (Invoice {
                                amount_captured: (l.invoices@[i].amount_captured + amount.unwrap()) as u128,
                                ..l.invoices@[i]
                            })
                            &&& b2.ledger.invoices@ == l.invoices@.update(i, inv)
                            &&& b2.ledger.captures@ == l.captures@.push(
                                Capture {
                                    account_id: a,
                                    transaction_id: cb.transaction_id,
                                    invoice_id: inv.id,
                                    amount: amount.unwrap(),
                                },
                            )
                            &&& b2.ledger.orders == l.orders
                            &&& b2.ledger.rates == l.rates
                            &&& b2.ledger.accounts == l.accounts
                            &&& b2.ledger.fees == l.fees
                        },
                        Err(e) => e == BillingError::Internal(InternalReason::Overflow)
                            && l.invoices@[i].amount_captured + amount.unwrap() > u128::MAX,
                    }
                }
        }
}

proof fn lemma_reconciled_counted(
    b: Billing,
    cb: PaymentsCallback,
    a: AccountId,
    i: int,
    inv: Invoice,
    b2: Billing,
)
    requires
        forall|x: AccountId| #[trigger] resolves_to(b.ledger, cb, x) ==> x == a,
        resolves_to(b.ledger, cb, a),
        forall|k: int| #[trigger] first_invoice_of(b.ledger.invoices@, a, k) ==> k == i,
        first_invoice_of(b.ledger.invoices@, a, i),
        spec_parse_amount(cb.amount_captured@) is Some,
        !captured_before(b.ledger.captures@, a, cb.transaction_id),
        inv == (Invoice {
            amount_captured: (b.ledger.invoices@[i].amount_captured + spec_parse_amount(cb.amount_captured@).unwrap()) as u128,
            ..b.ledger.invoices@[i]
        }),
        b2.ledger.invoices@ == b.ledger.invoices@.update(i, inv),
        b2.ledger.captures@ == b.ledger.captures@.push(
            Capture {
                account_id: a,
                transaction_id: cb.transaction_id,
                invoice_id: inv.id,
                amount: spec_parse_amount(cb.amount_captured@).unwrap(),
            },
        ),
        b2.ledger.orders == b.ledger.orders,
        b2.ledger.rates == b.ledger.rates,
        b2.ledger.accounts == b.ledger.accounts,
        b2.ledger.fees == b.ledger.fees,
        b2.events == b.events,
        b2.intents == b.intents,
    ensures
        reconciled(b, cb, Ok(inv), b2),
{
    reveal(reconciled);
    lemma_resolved_known(b.ledger, cb, a);
    assert(!no_invoice_of(b.ledger.invoices@, a)) by {
        assert(b.ledger.invoices@[i].account_id == Some(a));
    }
}

proof fn lemma_reconciled_seen(b: Billing, cb: PaymentsCallback, a: AccountId, i: int)
    requires
        forall|x: AccountId| #[trigger] resolves_to(b.ledger, cb, x) ==> x == a,
        resolves_to(b.ledger, cb, a),
        forall|k: int| #[trigger] first_invoice_of(b.ledger.invoices@, a, k) ==> k == i,
        first_invoice_of(b.ledger.invoices@, a, i),
        spec_parse_amount(cb.amount_captured@) is Some,
        captured_before(b.ledger.captures@, a, cb.transaction_id),
    ensures
        reconciled(b, cb, Ok(b.ledger.invoices@[i]), b),
{
    reveal(reconciled);
    lemma_resolved_known(b.ledger, cb, a);
    assert(!no_invoice_of(b.ledger.invoices@, a)) by {
        assert(b.ledger.invoices@[i].account_id == Some(a));
    }
}

proof fn lemma_resolved_known(l: Ledger, cb: PaymentsCallback, a: AccountId)
    requires
        resolves_to(l, cb, a),
    ensures
        !unresolved(l, cb),
{
    if cb.account_id.is_none() {
        let w = choose|w: int| #[trigger] first_account_at(l, cb.address@, w) && l.accounts@[w].id == a;
        assert(l.accounts@[w].wallet_address@ == cb.address@);
    }
}

proof fn lemma_reconciled_unresolved(b: Billing, cb: PaymentsCallback)
    requires
        unresolved(b.ledger, cb),
    ensures
        reconciled(b, cb, Err(BillingError::NotFound), b),
{
    reveal(reconciled);
    assert forall|x: AccountId| #[trigger] resolves_to(b.ledger, cb, x) implies false by {
        let w = choose|w: int| #[trigger] first_account_at(b.ledger, cb.address@, w) && b.ledger.accounts@[w].id == x;
        assert(b.ledger.accounts@[w].wallet_address@ != cb.address@);
    }
}

proof fn lemma_reconciled_bad_amount(b: Billing, cb: PaymentsCallback, a: AccountId)
    requires
        resolves_to(b.ledger, cb, a),
        spec_parse_amount(cb.amount_captured@) is None,
    ensures
        reconciled(b, cb, Err(BillingError::Internal(InternalReason::AmountFormat)), b),
{
    reveal(reconciled);
    lemma_resolved_known(b.ledger, cb, a);
}

proof fn lemma_reconciled_no_invoice(b: Billing, cb: PaymentsCallback, a: AccountId)
    requires
        forall|x: AccountId| #[trigger] resolves_to(b.ledger, cb, x) ==> x == a,
        resolves_to(b.ledger, cb, a),
        spec_parse_amount(cb.amount_captured@) is Some,
        no_invoice_of(b.ledger.invoices@, a),
    ensures
        reconciled(b, cb, Err(BillingError::NotFound), b),
{
    reveal(reconciled);
    lemma_resolved_known(b.ledger, cb, a);
    assert forall|k: int| #[trigger] first_invoice_of(b.ledger.invoices@, a, k) implies false by {
        assert(b.ledger.invoices@[k].account_id == Some(a));
    }
}

proof fn lemma_reconciled_overflow(b: Billing, cb: PaymentsCallback, a: AccountId, i: int)
    requires
        forall|x: AccountId| #[trigger] resolves_to(b.ledger, cb, x) ==> x == a,
        resolves_to(b.ledger, cb, a),
        forall|k: int| #[trigger] first_invoice_of(b.ledger.invoices@, a, k) ==> k == i,
        first_invoice_of(b.ledger.invoices@, a, i),
        spec_parse_amount(cb.amount_captured@) is Some,
        !captured_before(b.ledger.captures@, a, cb.transaction_id),
        b.ledger.invoices@[i].amount_captured + spec_parse_amount(cb.amount_captured@).unwrap() > u128::MAX,
    ensures
        reconciled(b, cb, Err(BillingError::Internal(InternalReason::Overflow)), b),
{
    reveal(reconciled);
    lemma_resolved_known(b.ledger, cb, a);
    assert(!no_invoice_of(b.ledger.invoices@, a)) by {
        assert(b.ledger.invoices@[i].account_id == Some(a));
    }
}

impl Billing {
    /// Counts an inbound transaction: resolves its account (named, or found
    /// by wallet address), parses the amount, and adds it to the linked
    /// invoice once per transaction. A transaction seen before leaves the
    /// ledger as it is and yields the invoice.
    #[verifier::rlimit(80)]
    #[verifier::spinoff_prover]
    pub fn reconcile_inbound_tx(&mut self, callback: &PaymentsCallback) -> (r: Result<Invoice, BillingError>)
        requires
            old(self).wf(),
        ensures
            paid_kept(old(self).ledger, final(self).ledger),
            final(self).wf(),
            reconciled(*old(self), *callback, r, *final(self)),
    {
        proof {
            lemma_paid_kept(self.ledger, self.ledger);
        }
        let account_id = match callback.account_id {
            Some(a) => a,
            None => match self.ledger.get_account_by_wallet_address(&callback.address) {
                Some(a) => a,
                None => {
                    proof {
                        lemma_reconciled_unresolved(*self, *callback);
                    }
                    return Err(BillingError::NotFound);
                },
            },
        };
        proof {
            if callback.account_id.is_none() {
                let v = choose|v: int| 0 <= v < self.ledger.accounts@.len() && (#[trigger] self.ledger.accounts@[v]).id == account_id
                    && self.ledger.accounts@[v].wallet_address@ == callback.address@
                    && forall|k: int| 0 <= k < v ==> (#[trigger] self.ledger.accounts@[k]).wallet_address@ != callback.address@;
                assert(first_account_at(self.ledger, callback.address@, v));
            }
            assert(resolves_to(self.ledger, *callback, account_id));
            assert forall|a: AccountId| #[trigger] resolves_to(self.ledger, *callback, a) implies a == account_id by {
                if callback.account_id.is_none() {
                    let w = choose|w: int| #[trigger] first_account_at(self.ledger, callback.address@, w) && self.ledger.accounts@[w].id == a;
                    let v = choose|v: int| #[trigger] first_account_at(self.ledger, callback.address@, v) && self.ledger.accounts@[v].id == account_id;
                    if w < v {
                        assert(self.ledger.accounts@[w].wallet_address@ != callback.address@);
                    } else if v < w {
                        assert(self.ledger.accounts@[v].wallet_address@ != callback.address@);
                    }
                }
            }
        }
        let amount = match parse_amount(callback.amount_captured.as_str()) {
            Some(x) => x,
            None => {
                proof {
                    lemma_reconciled_bad_amount(*self, *callback, account_id);
                }
                return Err(BillingError::Internal(InternalReason::AmountFormat));
            },
        };
        let i = match self.ledger.find_invoice_by_account(account_id) {
            Some(i) => i,
            None => {
                proof {
                    lemma_reconciled_no_invoice(*self, *callback, account_id);
                }
                return Err(BillingError::NotFound);
            },
        };
        proof {
            assert(first_invoice_of(self.ledger.invoices@, account_id, i as int));
            assert forall|k: int| #[trigger] first_invoice_of(self.ledger.invoices@, account_id, k) implies k == i as int by {
                if k < i {
                    assert(self.ledger.invoices@[k].account_id != Some(account_id));
                } else if k > i {
                    assert(self.ledger.invoices@[i as int].account_id != Some(account_id));
                }
            }
        }
        let ghost before = *self;
        let res = self.ledger.increase_amount_captured(account_id, callback.transaction_id, amount);
        match res {
            Ok(inv) => {
                proof {
                    let w = choose|w: int|
                        0 <= w < before.ledger.invoices@.len() && before.ledger.invoices@[w].account_id == Some(account_id)
                            && (forall|k: int| 0 <= k < w ==> (#[trigger] before.ledger.invoices@[k]).account_id != Some(account_id))
                            && inv == (Invoice { amount_captured: (before.ledger.invoices@[w].amount_captured + amount) as u128, ..before.ledger.invoices@[w] })
                            && self.ledger.invoices@ == before.ledger.invoices@.update(w, inv)
                            && self.ledger.captures@ == before.ledger.captures@.push(
                                Capture { account_id, transaction_id: callback.transaction_id, invoice_id: inv.id, amount },
                            );
                    assert(first_invoice_of(before.ledger.invoices@, account_id, w));
                    lemma_reconciled_counted(before, *callback, account_id, w, inv, *self);
                    lemma_paid_kept(before.ledger, self.ledger);
                    assert forall|j: int| 0 <= j < self.ledger.invoices@.len() implies paid_events(
                        self.events.payloads@,
                        (#[trigger] self.ledger.invoices@[j]).id,
                    ) == if self.ledger.invoices@[j].is_paid() {
                        1nat
                    } else {
                        0nat
                    } by {
                        assert(before.ledger.invoices@[j].id == self.ledger.invoices@[j].id);
                        assert(before.ledger.invoices@[j].is_paid() == self.ledger.invoices@[j].is_paid());
                    }
                }
                Ok(inv)
            },
            Err(BillingError::AlreadyApplied) => {
                proof {
                    lemma_reconciled_seen(before, *callback, account_id, i as int);
                }
                Ok(self.ledger.invoices[i])
            },
            Err(e) => {
                proof {
                    assert(before.ledger.invoices@[i as int].account_id == Some(account_id));
                    assert(e == BillingError::Internal(InternalReason::Overflow));
                    let w = choose|w: int|
                        0 <= w < before.ledger.invoices@.len() && before.ledger.invoices@[w].account_id == Some(account_id)
                            && (forall|k: int| 0 <= k < w ==> (#[trigger] before.ledger.invoices@[k]).account_id != Some(account_id))
                            && before.ledger.invoices@[w].amount_captured + amount > u128::MAX;
                    assert(first_invoice_of(before.ledger.invoices@, account_id, w));
                    assert(w == i as int);
                    lemma_reconciled_overflow(before, *callback, account_id, i as int);
                }
                Err(e)
            },
        }
    }

    /// Handles a signed callback of the crypto gateway. A bad signature is
    /// `Forbidden` and changes nothing. A callback about an unknown account,
    /// or an account linked to no invoice, is acknowledged (`Ok(None)`) and
    /// changes nothing. Otherwise the transaction is counted once, and the
    /// invoice is returned for recalculation.
    pub fn handle_inbound_tx(
        &mut self,
        sign_public_key: &str,
        signature: &str,
        body: &[u8],
        callback: &PaymentsCallback,
    ) -> (r: Result<Option<Invoice>, BillingError>)
        requires
            old(self).wf(),
        ensures
            paid_kept(old(self).ledger, final(self).ledger),
            final(self).wf(),
            !ecdsa_verifies(sha256_of(body@), decode_hex(signature.spec_bytes()), decode_hex(sign_public_key.spec_bytes()))
                ==> r == Err::<Option<Invoice>, BillingError>(BillingError::Forbidden) && *final(self) == *old(self),
            ecdsa_verifies(sha256_of(body@), decode_hex(signature.spec_bytes()), decode_hex(sign_public_key.spec_bytes()))
                ==> exists|r0: Result<Invoice, BillingError>| #[trigger] reconciled(*old(self), *callback, r0, *final(self)) && r == match r0 {
                Ok(inv) => Ok(Some(inv)),
                Err(BillingError::NotFound) => Ok(None),
                Err(e) => Err(e),
            },
    {
        proof {
            lemma_paid_kept(self.ledger, self.ledger);
        }
        match check_ture_sign(sign_public_key, signature, body) {
            Err(e) => {
                return Err(e);
            },
            Ok(()) => {},
        }
        let ghost before = *self;
        let res = self.reconcile_inbound_tx(callback);
        proof {
            assert(reconciled(before, *callback, res, *self));
        }
        match res {
            Ok(inv) => Ok(Some(inv)),
            Err(BillingError::NotFound) => Ok(None),
            Err(e) => Err(e),
        }
    }
}

proof fn lemma_first_invoice_exists(invoices: Seq<Invoice>, a: AccountId, k: int)
    requires
        0 <= k < invoices.len(),
        invoices[k].account_id == Some(a),
    ensures
        exists|i: int| #[trigger] first_invoice_of(invoices, a, i),
    decreases k,
{
    if forall|j: int| 0 <= j < k ==> (#[trigger] invoices[j]).account_id != Some(a) {
        assert(first_invoice_of(invoices, a, k));
    } else {
        let j = choose|j: int| 0 <= j < k && (#[trigger] invoices[j]).account_id == Some(a);
        lemma_first_invoice_exists(invoices, a, j);
    }
}

proof fn lemma_first_account_exists(l: Ledger, address: Seq<char>, k: int)
    requires
        0 <= k < l.accounts@.len(),
        l.accounts@[k].wallet_address@ == address,
    ensures
        exists|v: int| #[trigger] first_account_at(l, address, v),
    decreases k,
{
    if forall|j: int| 0 <= j < k ==> (#[trigger] l.accounts@[j]).wallet_address@ != address {
        assert(first_account_at(l, address, k));
    } else {
        let j = choose|j: int| 0 <= j < k && (#[trigger] l.accounts@[j]).wallet_address@ == address;
        lemma_first_account_exists(l, address, j);
    }
}

proof fn lemma_resolved_exists(l: Ledger, cb: PaymentsCallback)
    requires
        !unresolved(l, cb),
    ensures
        exists|a: AccountId| #[trigger] resolves_to(l, cb, a),
{
    match cb.account_id {
        Some(x) => {
            assert(resolves_to(l, cb, x));
        },
        None => {
            let w = choose|w: int| 0 <= w < l.accounts@.len() && (#[trigger] l.accounts@[w]).wallet_address@ == cb.address@;
            lemma_first_account_exists(l, cb.address@, w);
            let v = choose|v: int| #[trigger] first_account_at(l, cb.address@, v);
            assert(resolves_to(l, cb, l.accounts@[v].id));
        },
    }
}

proof fn lemma_reconciled_ok(b: Billing, cb: PaymentsCallback, inv: Invoice, b2: Billing)
    requires
        reconciled(b, cb, Ok(inv), b2),
    ensures
        !unresolved(b.ledger, cb),
        spec_parse_amount(cb.amount_captured@) is Some,
        b2.ledger.accounts == b.ledger.accounts,
        forall|a: AccountId| #[trigger] resolves_to(b.ledger, cb, a) ==> !no_invoice_of(b.ledger.invoices@, a),
{
    reveal(reconciled);
    let amount = spec_parse_amount(cb.amount_captured@);
    assert(amount.is_some());
    assert forall|a: AccountId| #[trigger] resolves_to(b.ledger, cb, a) implies !no_invoice_of(b.ledger.invoices@, a) by {
        if no_invoice_of(b.ledger.invoices@, a) {
            assert(resolves_to(b.ledger, cb, a) && amount.is_some());
        }
    }
}

/// Delivering the same inbound transaction a second time changes nothing
/// and yields the invoice again: the amount is counted once. With the
/// journal's invariant (one `InvoicePaid` per paid invoice), a repeated
/// delivery cannot add a second `InvoicePaid` either.
pub proof fn capture_is_idempotent(
    b0: Billing,
    cb: PaymentsCallback,
    inv: Invoice,
    b1: Billing,
    r2: Result<Invoice, BillingError>,
    b2: Billing,
)
    requires
        reconciled(b0, cb, Ok(inv), b1),
        reconciled(b1, cb, r2, b2),
    ensures
        b2 == b1,
        r2 is Ok,
{
    lemma_reconciled_ok(b0, cb, inv, b1);
    let l0 = b0.ledger;
    lemma_resolved_exists(l0, cb);
    let a = choose|a: AccountId| #[trigger] resolves_to(l0, cb, a);
    assert(resolves_to(l0, cb, a));
    assert(!no_invoice_of(l0.invoices@, a));
    let k = choose|k: int| 0 <= k < l0.invoices@.len() && (#[trigger] l0.invoices@[k]).account_id == Some(a);
    lemma_first_invoice_exists(l0.invoices@, a, k);
    let i = choose|i: int| #[trigger] first_invoice_of(l0.invoices@, a, i);
    lemma_reconciled_at(b0, cb, Ok(inv), b1, a, i);
    let l1 = b1.ledger;
    assert(resolves_to(l1, cb, a)) by {
        if cb.account_id.is_none() {
            let v = choose|v: int| #[trigger] first_account_at(l0, cb.address@, v) && l0.accounts@[v].id == a;
            assert(first_account_at(l1, cb.address@, v));
        }
    }
    assert(first_invoice_of(l1.invoices@, a, i)) by {
        assert forall|j: int| 0 <= j < i implies (#[trigger] l1.invoices@[j]).account_id != Some(a) by {
            assert(l1.invoices@[j] == l0.invoices@[j]);
        }
    }
    assert(captured_before(l1.captures@, a, cb.transaction_id)) by {
        if !captured_before(l0.captures@, a, cb.transaction_id) {
            let n = l0.captures@.len() as int;
            assert(l1.captures@[n].account_id == a && l1.captures@[n].transaction_id == cb.transaction_id);
        }
    }
    lemma_reconciled_at(b1, cb, r2, b2, a, i);
}

proof fn lemma_reconciled_at(b: Billing, cb: PaymentsCallback, r: Result<Invoice, BillingError>, b2: Billing, a: AccountId, i: int)
    requires
        reconciled(b, cb, r, b2),
        resolves_to(b.ledger, cb, a),
        first_invoice_of(b.ledger.invoices@, a, i),
        spec_parse_amount(cb.amount_captured@) is Some,
    ensures
        captured_before(b.ledger.captures@, a, cb.transaction_id) ==> r == Ok::<Invoice, BillingError>(b.ledger.invoices@[i]) && b2 == b,
        !captured_before(b.ledger.captures@, a, cb.transaction_id) && r is Ok ==> {
            &&& b2.ledger.accounts == b.ledger.accounts
            &&& b2.ledger.invoices@.len() == b.ledger.invoices@.len()
            &&& forall|j: int| 0 <= j < b.ledger.invoices@.len() && j != i ==> #[trigger] b2.ledger.invoices@[j] == b.ledger.invoices@[j]
            &&& b2.ledger.invoices@[i].account_id == Some(a)
            &&& b2.ledger.captures@ == b.ledger.captures@.push(
                Capture {
                    account_id: a,
                    transaction_id: cb.transaction_id,
                    invoice_id: r.unwrap().id,
                    amount: spec_parse_amount(cb.amount_captured@).unwrap(),
                },
            )
        },
{
    reveal(reconciled);
}

} // verus!
