//! Ingestion and reconciliation core of a tick-driven service that polls a
//! game's public API (an online-players list and a leaderboard) and
//! reconciles what it fetched into a relational store: player records with
//! online status, experience and rank, plus an append-only per-day
//! experience history.
//!
//! The crate holds the verified core: the reconciliation engine that turns
//! fetched feeds into upsert operations, the store model that applies them
//! atomically, and the scheduler decisions that keep one tick's failure
//! from corrupting the next. Fetching over HTTP and executing SQL stay
//! outside, handing plain values in and taking plain values back.

pub mod data;
pub mod model;
pub mod engine;
pub mod store;
pub mod scheduler;
pub mod laws;
