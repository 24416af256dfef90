//! Payment lifecycle engine of a billing service.
//!
//! - `pricing`: exact prices of invoices from their orders and exchange rates.
//! - `ledger`: invoices, orders, versioned rates (one active per order),
//!   accounts, captured transactions (each counted once) and fees.
//! - `events`: the durable event journal, with scheduled delivery and leases.
//! - `invoice`: the engine's state and its invariant (one `InvoicePaid` per
//!   paid invoice), recalculation and paid detection, creation, expiry,
//!   card-payment success and deletion.
//! - `planning`: initial rates of new orders and rate refresh decisions.
//! - `webhook`: inbound crypto transactions, authenticated and counted once.
//! - `worker`: what each event does, and one tick of the single worker.
//! - `signature`, `auth`: callback signature checks and request signing.

pub mod currency;
pub mod ids;
pub mod error;
pub mod model;
pub mod pricing;
pub mod ledger;
pub mod events;
pub mod signature;
pub mod amount;
pub mod invoice;
pub mod planning;
pub mod webhook;
pub mod worker;
pub mod fee;
pub mod customer;
pub mod auth;
