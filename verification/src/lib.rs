//! Decision core of a daily market-quote ingestion pipeline.
//!
//! One run lists the active instruments from their metadata records, asks a
//! provider for the daily quotes of each, and writes every price of every
//! quote as a point of its own series. The library decides what is read,
//! asked for and written, and in which order; a driver outside it talks to
//! the stores and the provider.

pub mod model;
pub mod naming;
pub mod pipeline;
pub mod protocol;
pub mod quote;
pub mod registry;
pub mod runs;
pub mod store;
pub mod text;
