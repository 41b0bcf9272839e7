//! Core of a personal health tracker: diet cycles, weight logs, and the
//! bookkeeping around one shared SQLite store.
//!
//! The store itself is reached only through the [`guard::ConnectionGuard`],
//! which serializes every operation on the single connection.  Calendar dates
//! and weight values are parsed and formatted by verified code; the SQL
//! round-trips sit behind a small set of trusted wrappers in [`store`].

pub mod clock;
pub mod console;
pub mod cycles;
pub mod date;
pub mod digits;
pub mod errors;
pub mod guard;
pub mod logwriter;
pub mod message;
pub mod order;
pub mod schema;
pub mod store;
pub mod tabs;
pub mod weight;
pub mod weights;
