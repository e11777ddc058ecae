use airmash_games::fetch::{classify_reply, decode_server_response, FetchOutcome, Unavailable};
use airmash_games::json::JsonValue;

#[test]
fn success_with_players_gives_count() {
    assert_eq!(classify_reply(200, Some("{\"players\":5}")), FetchOutcome::Players(5));
    assert_eq!(
        classify_reply(204, Some("{\"other\":1, \"players\": 4294967295}")),
        FetchOutcome::Players(u32::MAX)
    );
}

#[test]
fn bad_status_gives_no_count() {
    assert_eq!(
        classify_reply(503, Some("{\"players\":5}")),
        FetchOutcome::Unavailable(Unavailable::Status(503))
    );
    assert_eq!(
        classify_reply(199, None),
        FetchOutcome::Unavailable(Unavailable::Status(199))
    );
}

#[test]
fn unreadable_body_gives_no_count() {
    assert_eq!(classify_reply(200, None), FetchOutcome::Unavailable(Unavailable::Body));
}

#[test]
fn malformed_body_gives_no_count() {
    for body in [
        "",
        "not json",
        "{\"players\":",
        "{\"players\":-1}",
        "{\"players\":1.5}",
        "{\"players\":4294967296}",
        "{\"players\":\"5\"}",
        "{\"count\":5}",
        "[5]",
    ] {
        assert_eq!(
            classify_reply(200, Some(body)),
            FetchOutcome::Unavailable(Unavailable::Json),
            "{}",
            body
        );
    }
}

#[test]
fn outcome_players() {
    assert_eq!(FetchOutcome::Players(3).players(), Some(3));
    assert_eq!(FetchOutcome::Unavailable(Unavailable::Transport).players(), None);
}

#[test]
fn players_read_from_decoded_value() {
    let v = Some(JsonValue::Object(vec![("players".to_string(), JsonValue::UInt(9))]));
    assert_eq!(decode_server_response(&v).unwrap().players, 9);
    let v = Some(JsonValue::Object(vec![("players".to_string(), JsonValue::NegInt(-9))]));
    assert!(decode_server_response(&v).is_none());
    let v = Some(JsonValue::Object(vec![
        ("players".to_string(), JsonValue::UInt(1)),
        ("players".to_string(), JsonValue::UInt(2)),
    ]));
    assert_eq!(decode_server_response(&v).unwrap().players, 2);
    assert!(decode_server_response(&Some(JsonValue::UInt(9))).is_none());
    assert!(decode_server_response(&None).is_none());
}

#[test]
fn numbers_of_every_kind_are_told_apart() {
    for body in ["{\"players\":7}", "{\"players\":7.0}", "{\"players\":-7}", "{\"players\":7e0}"] {
        let expected = if body == "{\"players\":7}" {
            FetchOutcome::Players(7)
        } else {
            FetchOutcome::Unavailable(Unavailable::Json)
        };
        assert_eq!(classify_reply(200, Some(body)), expected, "{}", body);
    }
    assert_eq!(
        classify_reply(200, Some("{\"players\":7} trailing")),
        FetchOutcome::Unavailable(Unavailable::Json)
    );
}
