use scorehub::authority::step;
use scorehub::message::{Client, ClientMessage, ServerMessage};
use scorehub::store::Store;

#[test]
fn increment_publishes_score_to_sender_and_board_to_all() {
    // Two identities; identity 1 increments.  Only connection 1 gets the
    // UpdateScore, every connection gets an UpdateScoreboard listing both
    // users with 1's score incremented by one.
    let mut store = Store::new();
    store.register(1, Some(String::from("alice")));
    store.register(2, Some(String::from("bob")));

    let out = step(&mut store, 1, ClientMessage::Increment);
    assert_eq!(out.len(), 2);

    let (to, message) = &out[0];
    assert_eq!(*to, Client::User(1));
    assert!(matches!(message, ServerMessage::UpdateScore(1)));

    let (to, message) = &out[1];
    assert_eq!(*to, Client::All);
    match message {
        ServerMessage::UpdateScoreboard(board) => {
            assert_eq!(board.len(), 2);
            assert_eq!(board[0].username.as_deref(), Some("alice"));
            assert_eq!(board[0].score, Some(1));
            assert_eq!(board[1].username.as_deref(), Some("bob"));
            assert_eq!(board[1].score, Some(0));
        }
        _ => panic!("second envelope must carry the scoreboard"),
    }

    // Delivery: the first envelope reaches identity 1 and never identity 2;
    // the second reaches both.
    assert!(out[0].0.includes(1));
    assert!(!out[0].0.includes(2));
    assert!(out[1].0.includes(1));
    assert!(out[1].0.includes(2));
}

#[test]
fn sequential_increments_observe_strictly_increasing_scores() {
    let mut store = Store::new();
    store.register(5, None);
    let mut observed = Vec::new();
    for _ in 0..4 {
        let out = step(&mut store, 5, ClientMessage::Increment);
        match out[0].1 {
            ServerMessage::UpdateScore(s) => observed.push(s),
            _ => panic!("first envelope must carry the score"),
        }
    }
    assert_eq!(observed, vec![1, 2, 3, 4]);
}

#[test]
fn init_without_prior_score_reads_default_and_mutates_nothing() {
    // Init from an identity with no persisted score returns the store
    // default of zero and the current scoreboard, without mutating any
    // score.
    let mut store = Store::new();
    store.register(1, Some(String::from("alice")));
    step(&mut store, 1, ClientMessage::Increment);

    let out = step(&mut store, 9, ClientMessage::Init);
    assert!(matches!(out[0].1, ServerMessage::UpdateScore(0)));
    assert_eq!(out[0].0, Client::User(9));
    match &out[1].1 {
        ServerMessage::UpdateScoreboard(board) => {
            assert_eq!(board.len(), 1);
            assert_eq!(board[0].score, Some(1));
        }
        _ => panic!("second envelope must carry the scoreboard"),
    }
    assert_eq!(store.get_score(9), 0);
    assert_eq!(store.get_score(1), 1);
}

#[test]
fn scoreboard_sorts_descending_and_keeps_row_order_on_ties() {
    let mut store = Store::new();
    store.register(1, Some(String::from("a")));
    store.register(2, Some(String::from("b")));
    store.register(3, Some(String::from("c")));
    store.register(4, Some(String::from("d")));
    // Scores: a=1, b=3, c=1, d=0.
    step(&mut store, 1, ClientMessage::Increment);
    for _ in 0..3 {
        step(&mut store, 2, ClientMessage::Increment);
    }
    step(&mut store, 3, ClientMessage::Increment);

    let board = store.get_scoreboard();
    let names: Vec<Option<&str>> = board.iter().map(|e| e.username.as_deref()).collect();
    let scores: Vec<Option<i32>> = board.iter().map(|e| e.score).collect();
    assert_eq!(names, vec![Some("b"), Some("a"), Some("c"), Some("d")]);
    assert_eq!(scores, vec![Some(3), Some(1), Some(1), Some(0)]);
}
