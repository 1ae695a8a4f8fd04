//! Pulse listens to the Wikimedia edit stream: it detects the articles that erupt, keeps a
//! radar of the conflicts, and runs a game that is settled by the stream's own ground truth.
//!
//! This library is what the services decide and compute, verified. What they ask of Valkey
//! is built here word for word as [`command::Command`]s; whoever holds the connections, the
//! files and the clock carries it out and hands back plain values.

// The stream and its events.
pub mod sse;
pub mod raw;
pub mod event;
pub mod ip;

// The detector.
pub mod keys;
pub mod state;
pub mod gates;
pub mod classify;
pub mod revert;
pub mod radar;
pub mod patrol;
pub mod settle;

// The game.
pub mod session;
pub mod game;

// What they share.
pub mod command;
pub mod config;
pub mod stamp;
pub mod text;
