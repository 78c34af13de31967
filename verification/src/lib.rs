//! Judges recorded Model Context Protocol sessions against the requirements of
//! a protocol revision.
//!
//! A trace is a sequence of events (JSON-RPC messages, HTTP frames, transport
//! open and close) with strictly increasing `seq`. [`trace`] reads events from
//! their JSON records, [`context`] classifies every message once and follows
//! the lifecycle, [`checks`] holds the registered checks, each of which states
//! exactly where in a trace it reports, and [`engine`] walks a requirement
//! [`requirement::Registry`] over a trace into a [`report::Report`].

pub mod json;
pub mod text;
pub mod message;
pub mod context;
pub mod pairing;
pub mod keymap;
pub mod report;
pub mod revision;
pub mod checks;
pub mod trace;
pub mod declared;
pub mod requirement;
pub mod engine;
