//! A small CRUD library over a table of items, together with the request
//! accounting that a monitoring endpoint exposes.
//!
//! `models` holds the persisted entity and its transient input payload;
//! `store` is the items table itself, with its uniqueness invariant;
//! `handlers` turns store operations into HTTP outcomes; `metrics` keeps
//! per-request counters and latency histograms.

pub mod models;
pub mod store;
pub mod handlers;
pub mod metrics;
