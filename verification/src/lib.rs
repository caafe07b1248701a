//! In-memory key/value store built around a single state-owning actor.
//!
//! Clients issue line-based text commands (`get <key>`, `set <key> <value>`).
//! A per-connection parser turns each line into a typed command; a single
//! store actor consumes commands in arrival order, mutates the mapping, and
//! decides which response text (if any) goes back to which client. Everything
//! that decides — parsing, state transitions, response wording — lives here
//! and is verified; sockets, channels and task plumbing stay outside.

pub mod command;
pub mod parser;
pub mod laws;
pub mod store;
