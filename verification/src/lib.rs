//! A timezone-aware reminder scheduling library.
//!
//! Reminders carry a [`schedule::Schedule`]: either a single firing instant or
//! a recurrent calendar grid of bitmap-encoded constraints. The engine keeps
//! reminders in an in-memory priority store, computes each next firing instant
//! strictly after a given time, and exposes the decisions an event loop needs.

pub mod bitmap;
pub mod civil;
pub mod durable;
pub mod engine;
pub mod grid;
pub mod localtime;
pub mod parsing;
pub mod schedule;
pub mod store;
pub mod tz;
pub mod users;
