use scorehub::adapter::{inbound_command, outbound_frame};
use scorehub::broker::ClientCreator;
use scorehub::message::{Client, ClientMessage, ServerMessage};

#[test]
fn user_tag_reaches_its_identity_and_no_other() {
    assert!(Client::User(1).includes(1));
    assert!(!Client::User(1).includes(2));
    assert!(!Client::User(2).includes(1));
    assert!(Client::All.includes(1));
    assert!(Client::All.includes(2));
    assert!(Client::All.includes(-7));
}

#[test]
fn outbound_loop_forwards_only_included_envelopes() {
    let message = ServerMessage::UpdateScore(3);
    // Addressed to identity 1: connection 1 writes it, connection 2 drops it.
    let frame = outbound_frame(1, &Client::User(1), &message);
    assert_eq!(frame.as_deref(), Some("{\"UpdateScore\":3}"));
    assert!(outbound_frame(2, &Client::User(1), &message).is_none());
    // Addressed to all: every connection writes it.
    assert!(outbound_frame(1, &Client::All, &message).is_some());
    assert!(outbound_frame(2, &Client::All, &message).is_some());
}

#[test]
fn inbound_loop_tags_commands_with_the_connection_identity() {
    let r = inbound_command(42, &String::from("\"Increment\""));
    assert_eq!(r, Some((42, ClientMessage::Increment)));
    let r = inbound_command(7, &String::from("\"Init\""));
    assert_eq!(r, Some((7, ClientMessage::Init)));
    assert!(inbound_command(42, &String::from("nonsense")).is_none());
}

#[test]
fn registry_numbers_subscriptions_after_init() {
    let mut registry = ClientCreator::new();
    registry.init();
    assert_eq!(registry.create(), 0);
    assert_eq!(registry.create(), 1);
    assert_eq!(registry.create(), 2);
}
