//! A store of killmails (reports of combat outcomes) and the queries that
//! derive combat history, activity and friend/enemy relations from it.
//!
//! - `database`: the store, its insert-or-ignore writes, the history,
//!   relation and activity queries, and the retention sweep.
//! - `properties`: what holds across those operations (idempotent inserts,
//!   late attackers, retention, window boundaries).
//! - `timestamp`: timestamp text, its order, and the calendar through chrono.
//! - `api`, `gateway`: what the services report.
//! - `killmail`, `evetech`, `providers`, `gui`: the records and lookups that
//!   surround the store.
pub mod api;
pub mod database;
pub mod evetech;
pub mod gateway;
pub mod gui;
pub mod killmail;
pub mod properties;
pub mod providers;
pub mod tally;
pub mod timestamp;
