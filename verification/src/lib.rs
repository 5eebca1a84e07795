//! Deterministic simulation testing of recorded cluster jobs.

pub mod capture;
pub mod cli;
pub mod clock;
pub mod event;
pub mod fault;
pub mod invariant_laws;
pub mod invariant_reports;
pub mod invariants;
pub mod json;
pub mod listing;
pub mod log;
pub mod replay;
pub mod replay_laws;
pub mod rng;
pub mod runtime;
pub mod search;
pub mod search_laws;
pub mod store;
pub mod tally;
pub mod text;
pub mod text_laws;
pub mod view_laws;
