use scorehub::codec::{decode_client_message, encode_server_message};
use scorehub::message::{ClientMessage, ScoreboardEntry, ServerMessage};

#[test]
fn encodes_scores_including_negative_ones() {
    assert_eq!(
        encode_server_message(&ServerMessage::UpdateScore(7)),
        "{\"UpdateScore\":7}"
    );
    assert_eq!(
        encode_server_message(&ServerMessage::UpdateScore(0)),
        "{\"UpdateScore\":0}"
    );
    assert_eq!(
        encode_server_message(&ServerMessage::UpdateScore(-12)),
        "{\"UpdateScore\":-12}"
    );
    assert_eq!(
        encode_server_message(&ServerMessage::UpdateScore(i32::MIN)),
        "{\"UpdateScore\":-2147483648}"
    );
}

#[test]
fn encodes_scoreboards_with_missing_columns_and_escapes() {
    let board = vec![
        ScoreboardEntry { username: Some(String::from("alice")), score: Some(3) },
        ScoreboardEntry { username: None, score: Some(-1) },
        ScoreboardEntry { username: Some(String::from("a\"b\\c")), score: None },
    ];
    let encoded = encode_server_message(&ServerMessage::UpdateScoreboard(board));
    assert_eq!(
        encoded,
        "{\"UpdateScoreboard\":[{\"username\":\"alice\",\"score\":3},\
         {\"username\":null,\"score\":-1},\
         {\"username\":\"a\\\"b\\\\c\",\"score\":null}]}"
    );
}

#[test]
fn encodes_the_empty_scoreboard() {
    let encoded = encode_server_message(&ServerMessage::UpdateScoreboard(Vec::new()));
    assert_eq!(encoded, "{\"UpdateScoreboard\":[]}");
}

#[test]
fn encoded_events_are_valid_json_with_the_expected_shape() {
    let board = vec![
        ScoreboardEntry { username: Some(String::from("x")), score: Some(2) },
        ScoreboardEntry { username: None, score: None },
    ];
    let encoded = encode_server_message(&ServerMessage::UpdateScoreboard(board));
    let value: serde_json::Value = serde_json::from_str(&encoded).unwrap();
    let rows = value
        .as_object()
        .unwrap()
        .get("UpdateScoreboard")
        .unwrap()
        .as_array()
        .unwrap();
    assert_eq!(rows.len(), 2);
    assert_eq!(rows[0].get("username").unwrap().as_str(), Some("x"));
    assert_eq!(rows[0].get("score").unwrap().as_i64(), Some(2));
    assert!(rows[1].get("username").unwrap().is_null());
    assert!(rows[1].get("score").unwrap().is_null());

    let score = encode_server_message(&ServerMessage::UpdateScore(-5));
    let value: serde_json::Value = serde_json::from_str(&score).unwrap();
    assert_eq!(value.get("UpdateScore").unwrap().as_i64(), Some(-5));
}

#[test]
fn decodes_exactly_the_two_command_frames() {
    assert!(matches!(
        decode_client_message(&String::from("\"Increment\"")),
        Some(ClientMessage::Increment)
    ));
    assert!(matches!(
        decode_client_message(&String::from("\"Init\"")),
        Some(ClientMessage::Init)
    ));
    assert!(decode_client_message(&String::from("Increment")).is_none());
    assert!(decode_client_message(&String::from("\"increment\"")).is_none());
    assert!(decode_client_message(&String::from("")).is_none());
    assert!(decode_client_message(&String::from("   ")).is_none());
    assert!(decode_client_message(&String::from("\"Init\" x")).is_none());
}

#[test]
fn decodes_the_tagged_object_form_and_surrounding_whitespace() {
    // A JSON reader also accepts the tagged-object rendering of a
    // payload-free command, and skips whitespace around tokens.
    assert!(matches!(
        decode_client_message(&String::from("{\"Increment\":null}")),
        Some(ClientMessage::Increment)
    ));
    assert!(matches!(
        decode_client_message(&String::from("{\"Increment\": null}")),
        Some(ClientMessage::Increment)
    ));
    assert!(matches!(
        decode_client_message(&String::from(" \"Init\"")),
        Some(ClientMessage::Init)
    ));
    assert!(matches!(
        decode_client_message(&String::from("\t{ \"Init\" : null }\r\n")),
        Some(ClientMessage::Init)
    ));
    // But not payloads other than null, missing colons, or trailing junk.
    assert!(decode_client_message(&String::from("{\"Increment\":1}")).is_none());
    assert!(decode_client_message(&String::from("{\"Increment\" null}")).is_none());
    assert!(decode_client_message(&String::from("{\"Increment\":null,}")).is_none());
    assert!(decode_client_message(&String::from("{}")).is_none());
    assert!(decode_client_message(&String::from("{\"Increment\":null} x")).is_none());
}

#[test]
fn command_frames_match_their_json_serialization() {
    // The recognized frames are exactly serde_json's rendering of the two
    // unit variants.
    let inc: serde_json::Value = serde_json::from_str("\"Increment\"").unwrap();
    assert_eq!(inc.as_str(), Some("Increment"));
    assert!(matches!(
        decode_client_message(&serde_json::to_string("Increment").unwrap()),
        Some(ClientMessage::Increment)
    ));
    assert!(matches!(
        decode_client_message(&serde_json::to_string("Init").unwrap()),
        Some(ClientMessage::Init)
    ));
    // The object form is valid JSON of the same shape serde produces for
    // adjacently tagged unit variants.
    let v: serde_json::Value = serde_json::from_str(" { \"Init\" : null } ").unwrap();
    assert!(v.as_object().unwrap().get("Init").unwrap().is_null());
    assert!(matches!(
        decode_client_message(&String::from(" { \"Init\" : null } ")),
        Some(ClientMessage::Init)
    ));
}

#[test]
fn control_characters_escape_like_a_json_writer() {
    let board = vec![ScoreboardEntry {
        username: Some(String::from("a\u{1}b\tc\nd")),
        score: Some(0),
    }];
    let encoded = encode_server_message(&ServerMessage::UpdateScoreboard(board));
    assert_eq!(
        encoded,
        "{\"UpdateScoreboard\":[{\"username\":\"a\\u0001b\\tc\\nd\",\"score\":0}]}"
    );
    // And the result stays parseable JSON that round-trips the characters.
    let value: serde_json::Value = serde_json::from_str(&encoded).unwrap();
    let rows = value.as_object().unwrap().get("UpdateScoreboard").unwrap().as_array().unwrap();
    assert_eq!(rows[0].get("username").unwrap().as_str(), Some("a\u{1}b\tc\nd"));
}
