//! Verified core of a keyboard-driven review console for a ledger service.

pub mod app;
pub mod command;
pub mod config;
pub mod grouping;
pub mod hints;
pub mod protocol;
pub mod queue;
pub mod text;
