//! The core of a five-hundred-seat chat server with live voting, and of the
//! bots that put it under load.
//!
//! Everything here is a state machine or a computation on plain values: the
//! sockets, the clock and the terminal stay with the caller.
pub mod bot;
pub mod channel;
pub mod client;
pub mod framing;
pub mod metrics;
pub mod protocol;
pub mod ratelimit;
pub mod room;
pub mod server;
pub mod text;
pub mod tui;
pub mod vote;
