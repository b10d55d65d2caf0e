use snapchat_log_parser::error::DecodeError;
use snapchat_log_parser::json::Json;
use snapchat_log_parser::timestamp::Timestamp;
use snapchat_log_parser::types::{
    decode_document, decode_media_type, decode_message, text_to_opt, MediaType, Message,
    SnapchatData,
};

fn noon_2021() -> Timestamp {
    Timestamp { year: 2021, month: 1, day: 1, hour: 12, minute: 0, second: 0 }
}

fn sample_json() -> &'static str {
    r#"
        {
            "Received Saved Chat History": [{"From": "Felix422", "Media Type": "TEXT", "Created": "2021-01-01 12:00:00 UTC", "Text": "Test Message"}],
            "Sent Saved Chat History": [{"To": "Felix422", "Media Type": "TEXT", "Created": "2021-01-01 12:00:00 UTC", "Text": "Test Message"}]
        }
    "#
}

fn sample_data() -> SnapchatData {
    SnapchatData {
        saved_received: vec![Message::Received {
            from: String::from("Felix422"),
            media_type: MediaType::Text,
            created_at: noon_2021(),
            text: Some(String::from("Test Message")),
        }],
        saved_sent: vec![Message::Sent {
            to: String::from("Felix422"),
            media_type: MediaType::Text,
            created_at: noon_2021(),
            text: Some(String::from("Test Message")),
        }],
    }
}

fn message_object(user_key: &str, user: &str, media: &str, created: &str, text: &str) -> Json {
    Json::Obj(vec![
        (String::from(user_key), Json::Str(String::from(user))),
        (String::from("Media Type"), Json::Str(String::from(media))),
        (String::from("Created"), Json::Str(String::from(created))),
        (String::from("Text"), Json::Str(String::from(text))),
    ])
}

#[test]
fn parse_logs_from_str() {
    let json = r#"
        {
            "Received Saved Chat History": [{"From": "Felix422", "Media Type": "TEXT", "Created": "2021-01-01 12:00:00 UTC", "Text": "Test Message"}],
            "Sent Saved Chat History": [{"To": "Felix422", "Media Type": "TEXT", "Created": "2021-01-01 12:00:00 UTC", "Text": "Test Message"}]
        }
    "#;
    let parsed_data = SnapchatData::from_str(json).unwrap();
    assert_eq!(parsed_data, sample_data())
}

#[test]
fn getters() {
    let data = sample_data();
    assert_eq!(data.saved_received[0].recipient(), String::from("Felix422"));
    assert_eq!(data.saved_received[0].media_type(), MediaType::Text);
    assert_eq!(data.saved_received[0].created_at(), noon_2021());
    assert_eq!(data.saved_received[0].text(), Some(String::from("Test Message")));
}

#[test]
fn from_reader_agrees_with_from_str() {
    let json = sample_json();
    assert_eq!(
        SnapchatData::from_reader(json.as_bytes()),
        SnapchatData::from_str(json)
    );
    let missing = r#"{"Received Saved Chat History": []}"#;
    assert_eq!(
        SnapchatData::from_reader(missing.as_bytes()),
        SnapchatData::from_str(missing)
    );
}

#[test]
fn from_reader_rejects_invalid_utf8() {
    let bytes = [b'{', 0xff, 0xfe, b'}'];
    assert_eq!(SnapchatData::from_reader(&bytes), Err(DecodeError::SyntaxError));
}

#[test]
fn from_str_rejects_malformed_json() {
    assert_eq!(SnapchatData::from_str("{not json"), Err(DecodeError::SyntaxError));
    assert_eq!(SnapchatData::from_str(""), Err(DecodeError::SyntaxError));
}

#[test]
fn decoding_received_message() {
    let j = message_object("From", "Felix422", "TEXT", "2021-01-01 12:00:00 UTC", "Test Message");
    let m = decode_message(&j).unwrap();
    assert_eq!(
        m,
        Message::Received {
            from: String::from("Felix422"),
            media_type: MediaType::Text,
            created_at: noon_2021(),
            text: Some(String::from("Test Message")),
        }
    );
    assert_eq!(m.text(), Some(String::from("Test Message")));
}

#[test]
fn decoding_empty_text_gives_none() {
    let j = message_object("From", "Felix422", "TEXT", "2021-01-01 12:00:00 UTC", "");
    let m = decode_message(&j).unwrap();
    assert_eq!(m.text(), None);
    let doc = r#"
        {
            "Received Saved Chat History": [{"From": "Felix422", "Media Type": "TEXT", "Created": "2021-01-01 12:00:00 UTC", "Text": ""}],
            "Sent Saved Chat History": []
        }
    "#;
    let data = SnapchatData::from_str(doc).unwrap();
    assert_eq!(data.saved_received[0].text(), None);
}

#[test]
fn decoding_unknown_media_type_fails() {
    let j = message_object("From", "Felix422", "UNKNOWN", "2021-01-01 12:00:00 UTC", "x");
    assert_eq!(decode_message(&j), Err(DecodeError::UnrecognizedMediaType));
    let doc = r#"
        {
            "Received Saved Chat History": [{"From": "Felix422", "Media Type": "UNKNOWN", "Created": "2021-01-01 12:00:00 UTC", "Text": "x"}],
            "Sent Saved Chat History": []
        }
    "#;
    assert_eq!(SnapchatData::from_str(doc), Err(DecodeError::UnrecognizedMediaType));
}

#[test]
fn decoding_missing_sent_history_fails() {
    let doc = r#"
        {
            "Received Saved Chat History": []
        }
    "#;
    assert_eq!(SnapchatData::from_str(doc), Err(DecodeError::SchemaMismatch));
}

#[test]
fn decoding_wrong_timestamp_format_fails() {
    let j = message_object("From", "Felix422", "TEXT", "2021-01-01T12:00:00Z", "x");
    assert_eq!(decode_message(&j), Err(DecodeError::MalformedTimestamp));
    let doc = r#"
        {
            "Received Saved Chat History": [{"From": "Felix422", "Media Type": "TEXT", "Created": "2021-01-01T12:00:00Z", "Text": "x"}],
            "Sent Saved Chat History": []
        }
    "#;
    assert_eq!(SnapchatData::from_str(doc), Err(DecodeError::MalformedTimestamp));
}

#[test]
fn decoding_both_counterpart_keys_fails() {
    let j = Json::Obj(vec![
        (String::from("To"), Json::Str(String::from("a"))),
        (String::from("From"), Json::Str(String::from("b"))),
        (String::from("Media Type"), Json::Str(String::from("TEXT"))),
        (String::from("Created"), Json::Str(String::from("2021-01-01 12:00:00 UTC"))),
        (String::from("Text"), Json::Str(String::from("x"))),
    ]);
    assert_eq!(decode_message(&j), Err(DecodeError::SchemaMismatch));
}

#[test]
fn decoding_message_without_counterpart_or_wrong_types_fails() {
    let j = Json::Obj(vec![(String::from("Media Type"), Json::Str(String::from("TEXT")))]);
    assert_eq!(decode_message(&j), Err(DecodeError::SchemaMismatch));
    assert_eq!(decode_message(&Json::Str(String::from("x"))), Err(DecodeError::SchemaMismatch));
    let j = Json::Obj(vec![
        (String::from("From"), Json::Num),
        (String::from("Media Type"), Json::Str(String::from("TEXT"))),
        (String::from("Created"), Json::Str(String::from("2021-01-01 12:00:00 UTC"))),
        (String::from("Text"), Json::Str(String::from("x"))),
    ]);
    assert_eq!(decode_message(&j), Err(DecodeError::SchemaMismatch));
    let j = message_object("From", "Felix422", "TEXT", "2021-01-01 12:00:00 UTC", "x");
    if let Json::Obj(mut entries) = j {
        entries.retain(|(k, _)| k != "Text");
        assert_eq!(decode_message(&Json::Obj(entries)), Err(DecodeError::SchemaMismatch));
    } else {
        unreachable!();
    }
}

#[test]
fn media_type_table() {
    let cases = [
        ("TEXT", MediaType::Text),
        ("MEDIA", MediaType::Media),
        ("STICKER", MediaType::Sticker),
        ("SHARE", MediaType::Share),
        ("NOTE", MediaType::Note),
        ("LOCATION", MediaType::Location),
    ];
    for (tag, mt) in cases {
        assert_eq!(decode_media_type(&String::from(tag)), Ok(mt));
    }
    for tag in ["text", "Text", "UNKNOWN", "", "TEXT "] {
        assert_eq!(
            decode_media_type(&String::from(tag)),
            Err(DecodeError::UnrecognizedMediaType)
        );
    }
}

#[test]
fn text_normalization() {
    assert_eq!(text_to_opt(String::new()), None);
    assert_eq!(text_to_opt(String::from("hi")), Some(String::from("hi")));
}

#[test]
fn decode_document_empty_histories() {
    let j = Json::Obj(vec![
        (String::from("Received Saved Chat History"), Json::Arr(vec![])),
        (String::from("Sent Saved Chat History"), Json::Arr(vec![])),
    ]);
    let data = decode_document(&j).unwrap();
    assert!(data.saved_received.is_empty());
    assert!(data.saved_sent.is_empty());
    let parsed = SnapchatData::from_str(
        r#"{"Received Saved Chat History": [], "Sent Saved Chat History": []}"#,
    )
    .unwrap();
    assert_eq!(parsed, data);
}

#[test]
fn one_bad_element_fails_the_document() {
    let doc = r#"
        {
            "Received Saved Chat History": [
                {"From": "a", "Media Type": "TEXT", "Created": "2021-01-01 12:00:00 UTC", "Text": "ok"},
                {"From": "b", "Media Type": "BOGUS", "Created": "2021-01-01 12:00:00 UTC", "Text": "bad"}
            ],
            "Sent Saved Chat History": []
        }
    "#;
    assert_eq!(SnapchatData::from_str(doc), Err(DecodeError::UnrecognizedMediaType));
}
