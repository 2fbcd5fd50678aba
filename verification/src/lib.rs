//! Multi-session agent execution hub: verified core logic.
//!
//! The library models the state of a local service that supervises
//! interactive agent child processes in two variants — raw terminal
//! streams and line-delimited structured messages — mirrors their
//! output to many subscribers over bounded drop-oldest channels,
//! persists session metadata and compressed scrollback, and guards
//! remote access behind pairing-code and PIN authentication.
//!
//! The host around this library performs the process, file, network
//! and timer work; every rule about what to do, in which order, and
//! what the resulting state is, lives here with its proof.

pub mod api;
pub mod auth;
pub mod bus;
pub mod codec;
pub mod detect;
pub mod jsonio;
pub mod mcp;
pub mod protocol;
pub mod registry;
pub mod session;
pub mod settings;
pub mod store;
pub mod strutil;
pub mod supervisor;
pub mod table;
