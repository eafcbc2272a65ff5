//! Chat-driven operations console for a small fleet of backend servers.
//!
//! Operators send commands over a messaging channel to check server health,
//! fetch logs and manage alert subscriptions; long-running watchers probe
//! health and tail logs, and notify subscribed chats when a configured
//! keyword condition is met.  This crate holds the verified core: command
//! parsing, the identity/auth gate, subscription bookkeeping, health
//! classification, watcher match decisions, outbound message chunking and
//! response formatting.  Network, file and subprocess work lives outside.

use vstd::prelude::*;

pub mod auth;
pub mod chat;
pub mod cli;
pub mod client;
pub mod command;
pub mod config;
pub mod event;
pub mod handler;
pub mod health;
pub mod server;
pub mod subscribe;
pub mod telegram;
pub mod text;

verus! {

/// The chunk limit for outbound chat messages, in characters.
pub const MESSAGE_CHUNK_LIMIT: usize = 4000;

} // verus!
