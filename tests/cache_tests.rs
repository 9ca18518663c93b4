use redis_ipc::cache::{
    decode_cache_element, element_from_reply, encode_cache_element, expiry_seconds,
    next_poll_step, CacheElement, PollStep, POLL_INTERVAL_MS,
};
use redis_ipc::IpcErrorKind;

#[test]
fn cache_element_accessors() {
    let e = CacheElement::new(42, "v".to_string());
    assert_eq!(e.get_timestamp_128(), 42);
    assert_eq!(e.get_content(), "v");
    assert_eq!(e.into_parts(), (42, "v".to_string()));
}

#[test]
fn cache_envelope_text() {
    let e = CacheElement::new(1700000000000, "\"hello\"".to_string());
    assert_eq!(encode_cache_element(&e), "{\"timestamp\":1700000000000,\"content\":\"hello\"}");
    let zero = CacheElement::new(0, "{\"title\":\"Hello test!\"}".to_string());
    assert_eq!(encode_cache_element(&zero), "{\"timestamp\":0,\"content\":{\"title\":\"Hello test!\"}}");
}

#[test]
fn cache_envelope_round_trip() {
    for (ts, content) in [(0u128, "1"), (1700000000000, "\"héllo ✓\""), (u128::MAX, "{\"a\":[1,2,{}]}"), (9, "")] {
        let text = encode_cache_element(&CacheElement::new(ts, content.to_string()));
        let back = decode_cache_element(&text).unwrap();
        assert_eq!(back.get_timestamp_128(), ts);
        assert_eq!(back.get_content(), content);
    }
}

#[test]
fn cache_envelope_rejects_other_text() {
    for text in [
        "",
        "{}",
        "{\"timestamp\":,\"content\":1}",
        "{\"timestamp\":12,\"content\":1",
        "{\"timestamp\":01,\"content\":1}",
        "{\"timestamp\":00,\"content\":1}",
        "{\"timestamp\":-1,\"content\":1}",
        "{\"timestamp\":1.5,\"content\":1}",
        "{\"timestamp\":1,\"content\":1} x",
        "{\"timestamp\":340282366920938463463374607431768211456,\"content\":1}",
    ] {
        let err = decode_cache_element(text).unwrap_err();
        assert_eq!(*err.kind(), IpcErrorKind::InvalidData, "{}", text);
    }
}

#[test]
fn cache_envelope_keeps_whole_content() {
    let e = decode_cache_element("{\"timestamp\":5,\"content\":{\"x\":\"}\"}}").unwrap();
    assert_eq!(e.get_timestamp_128(), 5);
    assert_eq!(e.get_content(), "{\"x\":\"}\"}");
}

#[test]
fn missing_field_is_none_not_error() {
    assert!(element_from_reply(None).unwrap().is_none());
}

#[test]
fn present_field_is_decoded() {
    let e = element_from_reply(Some("{\"timestamp\":77,\"content\":\"v\"}".to_string())).unwrap().unwrap();
    assert_eq!(e.get_timestamp_128(), 77);
    assert_eq!(e.get_content(), "\"v\"");
    let err = element_from_reply(Some("not json".to_string())).unwrap_err();
    assert_eq!(*err.kind(), IpcErrorKind::InvalidData);
}

#[test]
fn stamped_element_reads_the_clock() {
    let e = CacheElement::now("1".to_string()).unwrap();
    assert!(e.get_timestamp_128() > 1_600_000_000_000);
    assert_eq!(e.get_content(), "1");
}

#[test]
fn expiry_is_rounded_up_and_clamped() {
    assert_eq!(expiry_seconds(15_000), 15);
    assert_eq!(expiry_seconds(0), 0);
    assert_eq!(expiry_seconds(1), 1);
    assert_eq!(expiry_seconds(500), 1);
    assert_eq!(expiry_seconds(1_001), 2);
    assert_eq!(expiry_seconds(i64::MAX as u128 * 1000), i64::MAX);
    assert_eq!(expiry_seconds(u128::MAX), i64::MAX);
}

#[test]
fn cache_envelope_allows_json_whitespace() {
    let e = decode_cache_element("\t{ \"timestamp\" :\n42 , \"content\":\"v\" } ").unwrap();
    assert_eq!(e.get_timestamp_128(), 42);
    assert_eq!(e.get_content(), "\"v\" ");
}

#[test]
fn blocking_get_delivers_value_set_before_the_bound() {
    // a field set 500 ms into a read bounded by one second
    assert_eq!(next_poll_step(false, Some(1000), 450), PollStep::Sleep(POLL_INTERVAL_MS));
    assert_eq!(next_poll_step(true, Some(1000), 500), PollStep::Deliver);
    assert_eq!(next_poll_step(true, Some(1000), 5000), PollStep::Deliver);
}

#[test]
fn blocking_get_gives_up_at_the_bound() {
    assert_eq!(next_poll_step(false, Some(200), 0), PollStep::Sleep(50));
    assert_eq!(next_poll_step(false, Some(200), 180), PollStep::Sleep(20));
    assert_eq!(next_poll_step(false, Some(200), 200), PollStep::GiveUp);
    assert_eq!(next_poll_step(false, Some(200), 249), PollStep::GiveUp);
}

#[test]
fn blocking_get_without_bound_never_gives_up() {
    assert_eq!(next_poll_step(false, None, 0), PollStep::Sleep(50));
    assert_eq!(next_poll_step(false, None, u128::MAX), PollStep::Sleep(50));
}

#[test]
fn zero_bound_is_immediate() {
    assert_eq!(next_poll_step(false, Some(0), 0), PollStep::GiveUp);
}

#[test]
fn cache_envelope_allows_content_first() {
    let e = decode_cache_element("{\"content\":\"v\",\"timestamp\":12}").unwrap();
    assert_eq!(e.get_timestamp_128(), 12);
    assert_eq!(e.get_content(), "\"v\"");
    let nested = decode_cache_element("{ \"content\" : [1, \"]\", {}] , \"timestamp\" : 0 }").unwrap();
    assert_eq!(nested.get_timestamp_128(), 0);
    assert_eq!(nested.get_content(), " [1, \"]\", {}]");
    assert!(decode_cache_element("{\"content\":1,\"timestamp\":012}").is_err());
}
