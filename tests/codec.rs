use chatey::{decode, encode, ClientMessage, CodecError};

fn msg(name: &str, body: &str, at: u64) -> ClientMessage {
    ClientMessage::new_at(name.to_string(), body.to_string(), at)
}

fn same(a: &ClientMessage, b: &ClientMessage) -> bool {
    a.get_message() == b.get_message()
        && a.get_username() == b.get_username()
        && a.get_timestamp() == b.get_timestamp()
}

#[test]
fn encode_plain_message() {
    let m = msg("Alice", "hi", 1234);
    assert_eq!(
        encode(&m),
        "{\"input_message\":\"hi\",\"from_username\":\"Alice\",\"timestamp\":1234}"
    );
}

#[test]
fn encode_escapes_quotes_backslashes_and_controls() {
    let m = msg("a\"b", "x\\y\n\t\u{1}\u{8}\u{c}\r\u{1f}", 0);
    assert_eq!(
        encode(&m),
        "{\"input_message\":\"x\\\\y\\n\\t\\u0001\\b\\f\\r\\u001f\",\"from_username\":\"a\\\"b\",\"timestamp\":0}"
    );
}

#[test]
fn encode_leaves_other_characters_alone() {
    let m = msg("Zoë", "héllo / 日本 \u{7f}", 7);
    assert_eq!(
        encode(&m),
        "{\"input_message\":\"héllo / 日本 \u{7f}\",\"from_username\":\"Zoë\",\"timestamp\":7}"
    );
}

#[test]
fn round_trip_keeps_every_field() {
    let cases = [
        ("Alice", "hi", 1u64),
        ("", "", 0u64),
        ("SYSTEM", "Bob has exited the channel", u64::MAX),
        ("q\"uote", "back\\slash \"x\" \u{0}\u{1b}\n\r\t end", 1700000000000),
        ("ünï", "😀 emoji and \u{7f} del", 42),
    ];
    for (name, body, at) in cases {
        let m = msg(name, body, at);
        let back = decode(&encode(&m)).expect("round trip");
        assert!(same(&m, &back), "{name:?} {body:?} {at}");
    }
}

#[test]
fn encoding_matches_serde_json() {
    let bodies = ["plain", "", "a\"b\\c", "\u{0}\u{1}\u{1f}\n\r\t\u{8}\u{c}", "日本 😀 \u{7f} /"];
    for body in bodies {
        let m = msg("n\u{2}", body, 99);
        let text = encode(&m);
        let v: serde_json::Value = serde_json::from_str(&text).expect("valid JSON");
        assert_eq!(v["input_message"].as_str(), Some(body));
        assert_eq!(v["from_username"].as_str(), Some("n\u{2}"));
        assert_eq!(v["timestamp"].as_u64(), Some(99));
        let quoted = serde_json::to_string(body).unwrap();
        assert!(text.starts_with(&format!("{{\"input_message\":{quoted},")));
    }
}

#[test]
fn decode_reads_a_well_formed_frame() {
    let m = decode("{\"input_message\":\"a\\u0007b\",\"from_username\":\"Bob\",\"timestamp\":55}").unwrap();
    assert_eq!(m.get_message(), "a\u{7}b");
    assert_eq!(m.get_username(), "Bob");
    assert_eq!(m.get_timestamp(), 55);
}

#[test]
fn decode_refuses_other_frames() {
    let bad = [
        "",
        "hello",
        "{\"input_message\":\"hi\",\"from_username\":\"A\",\"timestamp\":12",
        "{\"input_message\":\"hi\",\"from_username\":\"A\",\"timestamp\":}",
        "{\"input_message\":\"hi\",\"from_username\":\"A\",\"timestamp\":012}",
        "{\"input_message\":\"hi\",\"from_username\":\"A\",\"timestamp\":18446744073709551616}",
        "{\"input_message\":\"hi\",\"from_username\":\"A\",\"timestamp\":-1}",
        "{\"input_message\":\"h\ni\",\"from_username\":\"A\",\"timestamp\":1}",
        "{\"input_message\":\"\\u000A\",\"from_username\":\"A\",\"timestamp\":1}",
        "{\"input_message\":\"\\u000a\",\"from_username\":\"A\",\"timestamp\":1}",
        "{\"input_message\":\"\\u0041\",\"from_username\":\"A\",\"timestamp\":1}",
        "{\"input_message\":\"\\/\",\"from_username\":\"A\",\"timestamp\":1}",
        "{\"input_message\":\"hi\" ,\"from_username\":\"A\",\"timestamp\":1}",
        "{\"from_username\":\"A\",\"input_message\":\"hi\",\"timestamp\":1}",
        "{\"input_message\":\"hi\",\"from_username\":\"A\",\"timestamp\":1} ",
    ];
    for frame in bad {
        assert!(matches!(decode(frame), Err(CodecError::MalformedFrame)), "{frame:?}");
    }
}

#[test]
fn decode_reads_the_largest_timestamp() {
    let m = decode("{\"input_message\":\"\",\"from_username\":\"\",\"timestamp\":18446744073709551615}").unwrap();
    assert_eq!(m.get_timestamp(), u64::MAX);
    assert_eq!(m.get_message(), "");
}
