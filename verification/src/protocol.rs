//! The messages that clients and server exchange.
use vstd::prelude::*;

verus! {

/// How many options a vote has.
pub const N_OPTIONS: usize = 4;

/// The longest line, in bytes and without its `\n`, that the server reads.
pub const MAX_LINE_LEN: usize = 65536;

/// An exact fraction of the votes: `part` out of `whole`.
#[derive(Debug, Clone, Copy, PartialEq, Eq)]
pub struct Share {
    pub part: u64,
    pub whole: u128,
}

/// Client to server.
#[derive(Debug, Clone, PartialEq, Eq)]
pub enum ClientMsg {
    /// Sets the nickname that later chat messages carry.
    SetNick { name: String },
    /// A chat message, with the sender's clock (Unix ms) when it was sent.
    Chat { text: String, client_ts: u64 },
    /// A vote for one of the options `0..N_OPTIONS`.
    Vote { option: usize },
    /// Takes the vote back.
    Unvote,
}

/// Server to client.
#[derive(Debug, Clone, PartialEq, Eq)]
pub enum ServerMsg {
    /// Sent once, to a newcomer only: how many participants there are.
    Welcome { peer_count: u64 },
    /// A chat message for everybody. `client_ts` echoes what the sender wrote,
    /// so that the sender can measure the round trip on one clock.
    Chat { from: u64, nick: Option<String>, text: String, sent_at: u64, client_ts: u64 },
    /// The state of the vote, and what part of all votes each option has.
    VoteSnapshot { counts: [u64; N_OPTIONS], percentages: [Share; N_OPTIONS] },
    /// Somebody came or went.
    Presence { id: u64, joined: bool },
    /// Something went wrong on the server's side.
    Error { msg: String },
}

/// What flows through the broadcast channel, inside the server only.
#[derive(Debug, Clone, PartialEq, Eq)]
pub enum BroadcastEvent {
    Server(ServerMsg),
    /// The server is going down.
    Shutdown,
}

} // verus!
