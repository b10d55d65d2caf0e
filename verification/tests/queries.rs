use snapchat_log_parser::timestamp::Timestamp;
use snapchat_log_parser::types::{MediaType, Message, SnapchatData};

fn at(hour: u8, minute: u8) -> Timestamp {
    Timestamp { year: 2021, month: 1, day: 1, hour, minute, second: 0 }
}

fn received(from: &str, t: Timestamp) -> Message {
    Message::Received {
        from: String::from(from),
        media_type: MediaType::Text,
        created_at: t,
        text: None,
    }
}

fn sent(to: &str, t: Timestamp) -> Message {
    Message::Sent {
        to: String::from(to),
        media_type: MediaType::Text,
        created_at: t,
        text: None,
    }
}

#[test]
fn user_chats_returns_both_directions() {
    let data = SnapchatData {
        saved_received: vec![Message::Received {
            from: String::from("Felix422"),
            media_type: MediaType::Text,
            created_at: at(12, 0),
            text: Some(String::from("Test Message")),
        }],
        saved_sent: vec![Message::Sent {
            to: String::from("Felix422"),
            media_type: MediaType::Text,
            created_at: at(12, 0),
            text: Some(String::from("Test Message")),
        }],
    };
    let chats = data.get_user_chats("Felix422");
    assert_eq!(chats.len(), 2);
    for m in &chats {
        assert_eq!(m.recipient(), String::from("Felix422"));
    }
    assert!(chats.iter().any(|m| matches!(m, Message::Received { .. })));
    assert!(chats.iter().any(|m| matches!(m, Message::Sent { .. })));
}

#[test]
fn user_chats_filters_and_sorts() {
    let data = SnapchatData {
        saved_received: vec![
            received("ann", at(15, 0)),
            received("bob", at(9, 0)),
            received("ann", at(8, 0)),
        ],
        saved_sent: vec![sent("ann", at(12, 30)), sent("cid", at(7, 0))],
    };
    let chats = data.get_user_chats("ann");
    let times: Vec<Timestamp> = chats.iter().map(|m| m.created_at()).collect();
    assert_eq!(times, vec![at(8, 0), at(12, 30), at(15, 0)]);
    for m in &chats {
        assert_eq!(m.recipient(), String::from("ann"));
    }
}

#[test]
fn user_chats_empty_when_no_match() {
    let data = SnapchatData {
        saved_received: vec![received("ann", at(15, 0))],
        saved_sent: vec![],
    };
    assert!(data.get_user_chats("Ann").is_empty());
    let empty = SnapchatData { saved_received: vec![], saved_sent: vec![] };
    assert!(empty.get_user_chats("ann").is_empty());
}

#[test]
fn user_list_is_deduplicated_union() {
    let data = SnapchatData {
        saved_received: vec![
            received("ann", at(8, 0)),
            received("bob", at(9, 0)),
            received("ann", at(10, 0)),
        ],
        saved_sent: vec![sent("bob", at(11, 0)), sent("cid", at(12, 0))],
    };
    let mut users = data.get_user_list();
    assert!(users.len() <= 5);
    users.sort();
    assert_eq!(users, vec![
        String::from("ann"),
        String::from("bob"),
        String::from("cid"),
    ]);
}

#[test]
fn user_list_of_empty_aggregate_is_empty() {
    let data = SnapchatData { saved_received: vec![], saved_sent: vec![] };
    assert!(data.get_user_list().is_empty());
}

#[test]
fn user_list_does_not_consume_the_aggregate() {
    let data = SnapchatData {
        saved_received: vec![received("ann", at(8, 0))],
        saved_sent: vec![],
    };
    let first = data.get_user_list();
    let second = data.get_user_list();
    assert_eq!(first, second);
    assert_eq!(first, vec![String::from("ann")]);
}
