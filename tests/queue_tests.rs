use redis_ipc::queue::{
    blocking_pop_reply, encode_queue_message, keeps_waiting, pop_reply, ReadQueueMessage,
    WriteQueueMessage,
};
use redis_ipc::IpcErrorKind;

#[test]
fn fresh_ids_are_hyphenated_uuids() {
    let a = WriteQueueMessage::with_fresh_id(1u8);
    let b = WriteQueueMessage::with_fresh_id(2u8);
    let id = a.get_uuid();
    assert_eq!(id.len(), 36);
    for (i, c) in id.chars().enumerate() {
        if i == 14 {
            assert_eq!(c, '4');
        } else if i == 19 {
            assert!(['8', '9', 'a', 'b'].contains(&c));
        } else if [8, 13, 18, 23].contains(&i) {
            assert_eq!(c, '-');
        } else {
            assert!(c.is_ascii_digit() || ('a'..='f').contains(&c));
        }
    }
    assert_ne!(a.get_uuid(), b.get_uuid());
    assert_eq!(*a.get_content(), 1);
}

#[test]
fn queue_envelope_text() {
    let m = WriteQueueMessage::new("abc-1".to_string(), "{\"title\":\"Hello test!\"}".to_string());
    assert_eq!(
        encode_queue_message(&m),
        "{\"uuid\":\"abc-1\",\"content\":{\"title\":\"Hello test!\"}}"
    );
}

#[test]
fn queue_envelope_round_trip() {
    let m = WriteQueueMessage::with_fresh_id("\"payload\"".to_string());
    let text = encode_queue_message(&m);
    let back = ReadQueueMessage::from_str(text).unwrap();
    assert!(!back.get_uuid().is_empty());
    assert_eq!(back.get_uuid(), m.get_uuid());
    assert_eq!(back.get_content(), "\"payload\"");
}

#[test]
fn queue_envelope_escapes_ids_as_json() {
    let m = WriteQueueMessage::new("a\"b\\c\nd\u{1}e/é".to_string(), "1".to_string());
    assert_eq!(
        encode_queue_message(&m),
        "{\"uuid\":\"a\\\"b\\\\c\\nd\\u0001e/é\",\"content\":1}"
    );
}

#[test]
fn queue_envelope_round_trip_for_any_id() {
    for id in ["", "a\"b", "back\\slash", "tab\there", "\u{8}\u{c}\r\n\u{1f}\u{0}", "ünïcødé ✓ 😀"] {
        let m = WriteQueueMessage::new(id.to_string(), "{\"k\":[1,2]}".to_string());
        let back = ReadQueueMessage::from_str(encode_queue_message(&m)).unwrap();
        assert_eq!(back.get_uuid(), id);
        assert_eq!(back.get_content(), "{\"k\":[1,2]}");
    }
}

#[test]
fn queue_envelope_reads_every_json_escape() {
    let text = "{\"uuid\":\"\\\"\\\\\\/\\b\\f\\n\\r\\t\\u0041\\u00e9\\ud83d\\ude00\",\"content\":1}";
    let m = ReadQueueMessage::<String>::from_str(text.to_string()).unwrap();
    assert_eq!(m.get_uuid(), "\"\\/\u{8}\u{c}\n\r\tAé😀");
    assert_eq!(m.get_content(), "1");
}

#[test]
fn queue_envelope_allows_json_whitespace() {
    let text = " \n{ \"uuid\" : \"x\" ,\t\"content\" : {\"a\": 1} }\r\n";
    let m = ReadQueueMessage::<String>::from_str(text.to_string()).unwrap();
    assert_eq!(m.get_uuid(), "x");
    assert_eq!(m.get_content(), " {\"a\": 1} ");
}

#[test]
fn queue_envelope_rejects_other_text() {
    for text in [
        "",
        "{\"uuid\":\"x\"}",
        "{\"uuid\":\"x\",\"content\":1",
        "{\"uuid\":\"a\"b\",\"content\":1}",
        "{\"uuid\":\"a\\qb\",\"content\":1}",
        "{\"uuid\":\"\\ud83d\",\"content\":1}",
        "{\"uuid\":\"\\ude00\",\"content\":1}",
        "{\"uuid\":\"\\u12\",\"content\":1}",
        "{\"uuid\":\"a\nb\",\"content\":1}",
        "{\"uuid\":\"x\",\"content\":1} x",
    ] {
        let err = ReadQueueMessage::<String>::from_str(text.to_string()).unwrap_err();
        assert_eq!(*err.kind(), IpcErrorKind::InvalidData, "{}", text);
    }
}

#[test]
fn read_message_accessors() {
    let m = ReadQueueMessage::new("id".to_string(), 5u32);
    assert_eq!(m.get_uuid(), "id");
    assert_eq!(*m.get_content(), 5);
    assert_eq!(m.into_parts(), ("id".to_string(), 5));
}

#[test]
fn pop_of_empty_queue_is_none() {
    assert!(pop_reply(None).unwrap().is_none());
}

#[test]
fn pop_takes_first_element() {
    let got = pop_reply(Some(vec!["a".to_string(), "b".to_string()])).unwrap();
    assert_eq!(got, Some("a".to_string()));
    let err = pop_reply(Some(Vec::new())).unwrap_err();
    assert_eq!(*err.kind(), IpcErrorKind::InvalidData);
}

#[test]
fn blocking_pop_on_empty_queue_times_out() {
    assert_eq!(*blocking_pop_reply(None).unwrap_err().kind(), IpcErrorKind::Timeout);
    assert_eq!(*blocking_pop_reply(Some(Vec::new())).unwrap_err().kind(), IpcErrorKind::Timeout);
}

#[test]
fn blocking_pop_takes_element_after_queue_name() {
    let got = blocking_pop_reply(Some(vec!["queue".to_string(), "elem".to_string()])).unwrap();
    assert_eq!(got, "elem");
    let err = blocking_pop_reply(Some(vec!["queue".to_string()])).unwrap_err();
    assert_eq!(*err.kind(), IpcErrorKind::InvalidData);
}

#[test]
fn endless_reader_waits_on_transient_failures_only() {
    assert!(keeps_waiting(IpcErrorKind::Timeout));
    assert!(keeps_waiting(IpcErrorKind::ConnectionFailure));
    assert!(keeps_waiting(IpcErrorKind::InvalidData));
    assert!(!keeps_waiting(IpcErrorKind::MemoryAccessError));
    assert!(!keeps_waiting(IpcErrorKind::OtherIoError));
    assert!(!keeps_waiting(IpcErrorKind::Other));
}

#[test]
fn queue_envelope_allows_content_first() {
    let text = "{\"content\": {\"t\": \"a,}\\\"]\", \"n\": [1, {\"x\": null}]} , \"uuid\" : \"i\\u0064\" }";
    let m = ReadQueueMessage::<String>::from_str(text.to_string()).unwrap();
    assert_eq!(m.get_uuid(), "id");
    assert_eq!(m.get_content(), " {\"t\": \"a,}\\\"]\", \"n\": [1, {\"x\": null}]}");
    let bare = ReadQueueMessage::<String>::from_str("{\"content\":true,\"uuid\":\"x\"}".to_string()).unwrap();
    assert_eq!(bare.get_content(), "true");
    assert!(ReadQueueMessage::<String>::from_str("{\"content\":1,\"uuid\":\"x\",}".to_string()).is_err());
}
