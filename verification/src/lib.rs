//! Core of a directory monitor for PDF files.
//!
//! Raw filesystem change events (as reported by a watcher at the process
//! edge) are classified into typed domain events for files with the `.pdf`
//! extension, carried over an ordered delivery channel to a consumer, and
//! folded into a per-file status map plus an append-only log.

pub mod channel;
pub mod config;
pub mod email;
pub mod events;
pub mod tracker;
