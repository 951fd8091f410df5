//! Verified core of a newsletter backend: an idempotency ledger that lets a
//! client retry "publish" safely, and a durable delivery queue drained by a
//! worker with bounded retries.

pub mod text;
pub mod domain;
pub mod delivery;
pub mod idempotency;
pub mod store;
pub mod laws;
pub mod notice;
pub mod subscriptions;
pub mod settings;
pub mod telemetry;
pub mod email_client;
