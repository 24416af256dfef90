//! The marketplace's commission on captured orders.
use vstd::prelude::*;
use crate::currency::Currency;
use crate::error::{BillingError, InternalReason};
use crate::model::{Fee, FeeStatus, Order, Rate};
use crate::pricing::{order_frac, price_of_order, round_half_even, to_minor_units, fits};

verus! {

/// The commission on an order: `total_amount × order_percent / 100`, in the
/// seller's minor units, rounded down.
pub open spec fn spec_fee_amount(total: int, order_percent: int) -> int {
    total * order_percent / 100
}

/// The fee of an order paid by card: a commission in the seller's currency,
/// not paid yet. Fails only when `total_amount × order_percent` exceeds `u128`.
pub fn fee_for_order(order: &Order, order_percent: u64) -> (r: Result<Fee, BillingError>)
    ensures
        r is Ok == (order.total_amount * order_percent <= u128::MAX),
        r matches Err(e) ==> e == BillingError::Internal(InternalReason::Overflow),
        r matches Ok(f) ==> {
            &&& f.order_id == order.id
            &&& f.currency == order.seller_currency
            &&& f.amount == spec_fee_amount(order.total_amount as int, order_percent as int)
            &&& f.status == FeeStatus::NotPaid
            &&& f.crypto_currency.is_none()
            &&& f.crypto_amount.is_none()
        },
{
    match order.total_amount.checked_mul(order_percent as u128) {
        None => Err(BillingError::Internal(InternalReason::Overflow)),
        Some(x) => Ok(Fee {
            id: 0,
            order_id: order.id,
            currency: order.seller_currency,
            amount: x / 100,
            status: FeeStatus::NotPaid,
            crypto_currency: None,
            crypto_amount: None,
        }),
    }
}

/// The fees of all `orders`, in order; none if one of them overflows.
pub fn fees_for_orders(orders: &Vec<Order>, order_percent: u64) -> (r: Result<Vec<Fee>, BillingError>)
    ensures
        r is Ok == forall|i: int| 0 <= i < orders@.len() ==> #[trigger] orders@[i].total_amount * order_percent <= u128::MAX,
        r matches Err(e) ==> e == BillingError::Internal(InternalReason::Overflow),
        r matches Ok(fs) ==> fs@.len() == orders@.len() && forall|i: int| 0 <= i < fs@.len() ==> {
            &&& (#[trigger] fs@[i]).order_id == orders@[i].id
            &&& fs@[i].currency == orders@[i].seller_currency
            &&& fs@[i].amount == spec_fee_amount(orders@[i].total_amount as int, order_percent as int)
            &&& fs@[i].status == FeeStatus::NotPaid
            &&& fs@[i].crypto_currency.is_none()
            &&& fs@[i].crypto_amount.is_none()
        },
{
    let mut out: Vec<Fee> = Vec::new();
    let mut i: usize = 0;
    while i < orders.len()
        invariant
            0 <= i <= orders@.len(),
            out@.len() == i,
            forall|k: int| 0 <= k < i ==> #[trigger] orders@[k].total_amount * order_percent <= u128::MAX,
            forall|k: int| 0 <= k < i ==> {
                &&& (#[trigger] out@[k]).order_id == orders@[k].id
                &&& out@[k].currency == orders@[k].seller_currency
                &&& out@[k].amount == spec_fee_amount(orders@[k].total_amount as int, order_percent as int)
                &&& out@[k].status == FeeStatus::NotPaid
                &&& out@[k].crypto_currency.is_none()
                &&& out@[k].crypto_amount.is_none()
            },
        decreases orders@.len() - i,
    {
        match fee_for_order(&orders[i], order_percent) {
            Err(e) => {
                return Err(e);
            },
            Ok(f) => {
                out.push(f);
            },
        }
        i = i + 1;
    }
    Ok(out)
}

/// The fee of a crypto order billed in a fiat currency: the order's total is
/// converted at `rate` (fiat super-units = crypto super-units / rate),
/// rounded half to even to `fee_currency`'s minor units, then one percent of
/// it (rounded down) is taken `order_percent` times. Fails when a value does
/// not fit `u128`.
pub fn create_crypto_fee(order_percent: u64, fee_currency: Currency, rate: Rate, order: &Order) -> (r: Result<Fee, BillingError>)
    requires
        rate.wf(),
    ensures
        !fits(order_frac(*order, rate, fee_currency)) ==> r == Err::<Fee, BillingError>(BillingError::Internal(InternalReason::Overflow)),
        fits(order_frac(*order, rate, fee_currency)) ==> {
            let f = order_frac(*order, rate, fee_currency);
            let converted = round_half_even(f.0, f.1);
            &&& r is Ok == ((converted / 100) * order_percent <= u128::MAX)
            &&& r matches Err(e) ==> e == BillingError::Internal(InternalReason::Overflow)
            &&& r matches Ok(fee) ==> {
                &&& fee.order_id == order.id
                &&& fee.currency == fee_currency
                &&& fee.amount == (converted / 100) * order_percent
                &&& fee.status == FeeStatus::NotPaid
                &&& fee.crypto_currency == Some(order.seller_currency)
                &&& fee.crypto_amount == Some(order.total_amount)
            }
        },
{
    let price = match price_of_order(order, &rate, fee_currency) {
        None => {
            return Err(BillingError::Internal(InternalReason::Overflow));
        },
        Some(p) => p,
    };
    proof {
        crate::currency::lemma_unit_positive(order.seller_currency);
        assert(price.den > 0) by (nonlinear_arith)
            requires price.den == crate::currency::spec_unit(order.seller_currency) * rate.num,
                crate::currency::spec_unit(order.seller_currency) > 0, rate.num > 0;
    }
    let converted = to_minor_units(&price);
    let one_percent = converted / 100;
    match one_percent.checked_mul(order_percent as u128) {
        None => Err(BillingError::Internal(InternalReason::Overflow)),
        Some(amount) => Ok(Fee {
            id: 0,
            order_id: order.id,
            currency: fee_currency,
            amount,
            status: FeeStatus::NotPaid,
            crypto_currency: Some(order.seller_currency),
            crypto_amount: Some(order.total_amount),
        }),
    }
}

} // verus!
