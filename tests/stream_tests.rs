use redis_ipc::stream::{
    latest_message, message_from_entry, parse_id, stringify_id, StreamCursor, StreamEntry,
    StreamMessage,
};
use redis_ipc::IpcErrorKind;

fn entry(id: &str, content: Option<&str>) -> StreamEntry {
    StreamEntry { id: id.to_string(), content: content.map(|c| c.to_string()) }
}

#[test]
fn stream_id_decoding() {
    let example = "123456-789102";

    let result = parse_id(example).unwrap();

    assert_eq!(result, (123456, 789102));
}

#[test]
#[should_panic]
fn stream_id_decoding_fails_on_too_short() {
    let example = "123456";

    let _ = parse_id(example).unwrap();
}

#[test]
#[should_panic]
fn stream_id_decoding_fails_on_too_bg_num() {
    let example = "999999999999999999999999-123";

    let _ = parse_id(example).unwrap();
}

#[test]
fn stream_id_errors_are_invalid_data() {
    for text in ["123456", "999999999999999999999999-123", "", "-", "1-", "-1", "1-2-3", "+-2", "1-+", "++1-2", "a-1", "1 -2"] {
        let err = parse_id(text).unwrap_err();
        assert_eq!(*err.kind(), IpcErrorKind::InvalidData, "{}", text);
    }
}

#[test]
fn stream_id_edges_of_u64() {
    assert_eq!(parse_id("18446744073709551615-0").unwrap(), (u64::MAX, 0));
    assert!(parse_id("18446744073709551616-0").is_err());
    assert_eq!(parse_id("0-18446744073709551615").unwrap(), (0, u64::MAX));
    assert_eq!(parse_id("007-08").unwrap(), (7, 8));
    assert_eq!(parse_id("+1-2").unwrap(), (1, 2));
    assert_eq!(parse_id("1-+2").unwrap(), (1, 2));
}

#[test]
fn stream_id_text() {
    assert_eq!(stringify_id(&(12, 7)), "12-7");
    assert_eq!(stringify_id(&(0, 0)), "0-0");
    assert_eq!(stringify_id(&(1700000000000, 3)), "1700000000000-3");
    assert_eq!(stringify_id(&(u64::MAX, u64::MAX)), "18446744073709551615-18446744073709551615");
}

#[test]
fn stream_id_round_trip() {
    for id in [(0, 0), (1, 2), (123456, 789102), (u64::MAX, 1), (10, 100)] {
        assert_eq!(parse_id(&stringify_id(&id)).unwrap(), id);
    }
}

#[test]
fn stream_ids_order_as_tuples() {
    let ids: Vec<(u64, u64)> = ["1-0", "1-1", "2-0", "10-0"].iter().map(|t| parse_id(t).unwrap()).collect();
    for w in ids.windows(2) {
        assert!(w[0] < w[1]);
    }
}

#[test]
fn stream_message_accessors() {
    let m = StreamMessage::new((3, 4), "x".to_string());
    assert_eq!(m.get_id(), (3, 4));
    assert_eq!(m.get_content(), "x");
    assert_eq!(m.into_parts(), ((3, 4), "x".to_string()));
}

#[test]
fn entry_becomes_message() {
    let m = message_from_entry(&entry("5-1", Some("{\"a\":1}"))).unwrap();
    assert_eq!(m.get_id(), (5, 1));
    assert_eq!(m.get_content(), "{\"a\":1}");
    let missing = message_from_entry(&entry("5-1", None)).unwrap_err();
    assert_eq!(*missing.kind(), IpcErrorKind::InvalidData);
    let bad_id = message_from_entry(&entry("5", Some("1"))).unwrap_err();
    assert_eq!(*bad_id.kind(), IpcErrorKind::InvalidData);
}

#[test]
fn latest_of_empty_stream_is_none() {
    assert!(latest_message(&Vec::new()).unwrap().is_none());
}

#[test]
fn latest_is_first_entry_of_reply() {
    let m = latest_message(&vec![entry("9-2", Some("\"last\""))]).unwrap().unwrap();
    assert_eq!(m.get_id(), (9, 2));
    assert_eq!(m.get_content(), "\"last\"");
    assert!(latest_message(&vec![entry("x", Some("1"))]).is_err());
}

#[test]
fn cursor_starts_at_new_entries_only() {
    let cursor = StreamCursor::new();
    assert_eq!(cursor.last_id(), (0, 0));
    assert_eq!(cursor.read_position(), "$");
}

#[test]
fn cursor_follows_entries_in_append_order() {
    let mut cursor = StreamCursor::new();
    let first = cursor.accept_reply(&vec![vec![entry("5-1", Some("1"))]]).unwrap();
    assert_eq!(first.get_id(), (5, 1));
    assert_eq!(cursor.last_id(), (5, 1));
    assert_eq!(cursor.read_position(), "5-1");
    let second = cursor.accept_reply(&vec![vec![entry("5-2", Some("2")), entry("6-0", Some("3"))]]).unwrap();
    assert_eq!(second.get_id(), (5, 2));
    assert_eq!(second.get_content(), "2");
    assert_eq!(cursor.read_position(), "5-2");
}

#[test]
fn cursor_never_moves_back() {
    let mut cursor = StreamCursor::new();
    cursor.accept_reply(&vec![vec![entry("7-0", Some("1"))]]).unwrap();
    for older in ["7-0", "6-9", "0-1"] {
        let err = cursor.accept_reply(&vec![vec![entry(older, Some("1"))]]).unwrap_err();
        assert_eq!(*err.kind(), IpcErrorKind::InvalidData);
        assert_eq!(cursor.last_id(), (7, 0));
    }
    let bad = cursor.accept_reply(&vec![vec![entry("8-0", None)]]).unwrap_err();
    assert_eq!(*bad.kind(), IpcErrorKind::InvalidData);
    assert_eq!(cursor.last_id(), (7, 0));
}

#[test]
fn empty_read_reply_is_timeout() {
    let mut cursor = StreamCursor::new();
    let none = cursor.accept_reply(&Vec::new()).unwrap_err();
    assert_eq!(*none.kind(), IpcErrorKind::Timeout);
    let no_entries = cursor.accept_reply(&vec![Vec::new()]).unwrap_err();
    assert_eq!(*no_entries.kind(), IpcErrorKind::Timeout);
    assert_eq!(cursor.last_id(), (0, 0));
}
