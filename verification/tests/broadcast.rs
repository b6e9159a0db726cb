//! The outbound channel's lossy-broadcast policy, observed on the real
//! primitive the process uses: a stalled subscriber loses its oldest
//! undelivered messages but never blocks the publisher or its peers.

use scorehub::message::{Client, ServerMessage};
use tokio::sync::broadcast;
use tokio::sync::broadcast::error::TryRecvError;

#[test]
fn stalled_subscriber_does_not_block_publishing() {
    let (tx, mut active) = broadcast::channel::<(Client, ServerMessage)>(2);
    let mut stalled = tx.subscribe();

    // The authority publishes five envelopes; the active subscriber keeps
    // consuming, the stalled one never does.
    for i in 0..5 {
        tx.send((Client::All, ServerMessage::UpdateScore(i))).unwrap();
        let (_, message) = active.try_recv().unwrap();
        assert!(matches!(message, ServerMessage::UpdateScore(s) if s == i));
    }

    // Publishing never blocked and the active subscriber saw every value.
    // The stalled subscriber lost the oldest messages beyond its capacity,
    // observes the gap, and then continues from what is retained.
    match stalled.try_recv() {
        Err(TryRecvError::Lagged(missed)) => assert_eq!(missed, 3),
        other => panic!("expected a lag report, got {:?}", other),
    }
    let (_, message) = stalled.try_recv().unwrap();
    assert!(matches!(message, ServerMessage::UpdateScore(3)));
    let (_, message) = stalled.try_recv().unwrap();
    assert!(matches!(message, ServerMessage::UpdateScore(4)));
    assert!(matches!(stalled.try_recv(), Err(TryRecvError::Empty)));
}
