//! Verified core of a small real-time score game server.
//!
//! Many concurrent client connections feed commands into a single sequential
//! authority that mutates shared score state and publishes results back to a
//! subset of connected clients.  This crate holds the verified logic of that
//! router: the addressing model, the wire codec, the authority's state
//! transition over a score store, the broker's wiring protocol, a deadline
//! scheduler, and the form validation rules.  The surrounding process (HTTP,
//! websockets, SQL, password hashing) is unverified glue that calls into this
//! crate with plain values.

pub mod adapter;
pub mod authority;
pub mod broker;
pub mod codec;
pub mod error;
pub mod event;
pub mod message;
pub mod session;
pub mod store;
pub mod user;
