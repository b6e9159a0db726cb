//! Per-connection bridge decisions between the duplex text-frame transport
//! and the broker's typed channels.
//!
//! The surrounding connection task runs two concurrent loops.  The inbound
//! loop reads a text frame and asks [`inbound_command`] what, if anything,
//! to put on the inbound channel; the outbound loop receives an envelope
//! from its subscription and asks [`outbound_frame`] what, if anything, to
//! write back to the transport.  Everything the loops decide is here; the
//! loops themselves only move bytes and suspend.

use vstd::prelude::*;
use crate::codec::decode_client_message;
use crate::codec::encode_server_message;
use crate::codec::frame_decodes_to;
use crate::codec::json_server_message;
use crate::message::Client;
use crate::message::ClientMessage;
use crate::message::ServerMessage;
use crate::message::UserId;

verus! {

/// Decodes one inbound text frame into the envelope to enqueue for the
/// authority: every frame that parses as a command is forwarded as the
/// connection's identity paired with that command.  A malformed or
/// unrecognized frame yields nothing and is dropped.
pub fn inbound_command(user_id: UserId, frame: &String) -> (r: Option<(UserId, ClientMessage)>)
    ensures
        r == Some((user_id, ClientMessage::Increment)) <==> frame_decodes_to(
            frame@,
            "Increment"@,
        ),
        r == Some((user_id, ClientMessage::Init)) <==> frame_decodes_to(frame@, "Init"@),
        r is None <==> !frame_decodes_to(frame@, "Increment"@) && !frame_decodes_to(
            frame@,
            "Init"@,
        ),
{
    match decode_client_message(frame) {
        Some(message) => Some((user_id, message)),
        None => None,
    }
}

/// Decides what one received envelope means for the connection identified
/// as `user_id`: the encoded payload when the addressing tag includes this
/// identity, nothing (silent discard) otherwise.
pub fn outbound_frame(user_id: UserId, client: &Client, message: &ServerMessage) -> (r: Option<
    String,
>)
    ensures
        r is Some <==> client.spec_includes(user_id),
        r is Some ==> r->0@ == json_server_message(*message),
{
    if client.includes(user_id) {
        Some(encode_server_message(message))
    } else {
        None
    }
}

} // verus!
