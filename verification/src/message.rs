//! The addressing model and the message types that travel on the two
//! process-wide channels.
//!
//! Every outbound value is an envelope `(Client, ServerMessage)`: the tag
//! selects which identities receive the payload.  Every inbound value is an
//! envelope `(UserId, ClientMessage)`: the identity of the sending connection
//! paired with its command.

use vstd::prelude::*;

verus! {

/// Stable key naming the authenticated principal behind a connection.
pub type UserId = i32;

/// Addressing tag of an outbound message: either one identity or everyone.
#[derive(Clone, Copy, PartialEq, Eq, Structural, Debug)]
pub enum Client {
    User(UserId),
    All,
}

impl Client {
    /// Whether a message tagged with this value is delivered to `user_id`.
    pub open spec fn spec_includes(&self, user_id: UserId) -> bool {
        match self {
            Client::All => true,
            Client::User(client) => client == user_id,
        }
    }

    /// `All` matches every identity; `User(u)` matches only `u`.
    #[verifier::when_used_as_spec(spec_includes)]
    pub fn includes(&self, user_id: UserId) -> (r: bool)
        ensures
            r == self.spec_includes(user_id),
    {
        match self {
            Client::All => true,
            Client::User(client) => *client == user_id,
        }
    }
}

/// A message addressed to one identity reaches that identity and no other;
/// a message addressed to all reaches every identity.
pub proof fn lemma_addressing_correct(u: UserId, v: UserId)
    requires
        u != v,
    ensures
        Client::User(u).spec_includes(u),
        !Client::User(u).spec_includes(v),
        forall|w: UserId| Client::All.spec_includes(w),
{
}

/// One row of the leaderboard as persistence reports it; either column may be
/// missing, and the router must not assume completeness.
#[derive(Clone, PartialEq, Eq, Debug)]
pub struct ScoreboardEntry {
    pub username: Option<String>,
    pub score: Option<i32>,
}

/// Event published by the authority, consumed by zero or more connections.
#[derive(Clone, PartialEq, Eq, Debug)]
pub enum ServerMessage {
    /// A single recipient's new score.
    UpdateScore(i32),
    /// Global leaderboard snapshot, ordered by score descending.
    UpdateScoreboard(Vec<ScoreboardEntry>),
}

/// Command produced by a connection on decode, consumed exactly once by the
/// authority.
#[derive(Clone, Copy, PartialEq, Eq, Structural, Debug)]
pub enum ClientMessage {
    /// Add one point to the sender's score.
    Increment,
    /// Request the current score and scoreboard on connect.
    Init,
}

} // verus!
