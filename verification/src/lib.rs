//! Reconciliation engine for a terminal-workspace host: a session-selection
//! workflow and a registry of toggleable background tasks.
//!
//! The engine never talks to the host itself. Every entry point takes the
//! current state and one event, updates the state, and hands back the
//! requests that the caller is to pass on to the host.

pub mod text;
pub mod action;
pub mod task_manager;
pub mod session_manager;
pub mod engine;
