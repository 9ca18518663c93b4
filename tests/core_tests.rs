use redis_ipc::decimal::{decimal_text, parse_decimal};
use redis_ipc::timeout::store_block_millis;
use redis_ipc::{IpcError, IpcErrorKind};

#[test]
fn error_keeps_kind_and_text() {
    let e = IpcError::new(IpcErrorKind::Timeout, "Request timed out.");
    assert_eq!(*e.kind(), IpcErrorKind::Timeout);
    assert_eq!(e.get_ref(), "Request timed out.");
    assert_eq!(e.into_inner(), "Request timed out.");
}

#[test]
fn decimal_text_of_edges() {
    assert_eq!(decimal_text(0), "0");
    assert_eq!(decimal_text(9), "9");
    assert_eq!(decimal_text(10), "10");
    assert_eq!(decimal_text(u128::MAX), "340282366920938463463374607431768211455");
}

#[test]
fn parse_decimal_of_edges() {
    assert_eq!(parse_decimal("0"), Some(0));
    assert_eq!(parse_decimal("00042"), Some(42));
    assert_eq!(parse_decimal("340282366920938463463374607431768211455"), Some(u128::MAX));
    assert_eq!(parse_decimal("340282366920938463463374607431768211456"), None);
    assert_eq!(parse_decimal(""), None);
    assert_eq!(parse_decimal("+1"), None);
    assert_eq!(parse_decimal("1a"), None);
}

#[test]
fn store_never_sees_zero_for_a_bound() {
    assert_eq!(store_block_millis(None), 0);
    assert_eq!(store_block_millis(Some(0)), 1);
    assert_eq!(store_block_millis(Some(200)), 200);
    assert_eq!(store_block_millis(Some(u128::MAX)), usize::MAX);
}
