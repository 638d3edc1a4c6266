use runnel::engine::{duration_ms, BrokerError};
use runnel::naming::{path_component, validate_name};
use runnel::text::decimal_text;

#[test]
fn path_components_are_hexadecimal() {
    assert_eq!(path_component("ab/"), "61622f");
}

#[test]
fn names_are_checked() {
    assert!(validate_name("stream", "orders.v1_x-2").is_ok());
    assert!(validate_name("stream", "").is_err());
    assert!(validate_name("stream", "a b").is_err());
}

#[test]
fn different_names_have_different_directories() {
    assert_ne!(path_component("a"), path_component("b"));
    assert_eq!(path_component("\u{e9}"), "c3a9");
}

#[test]
fn refused_names_are_told() {
    match validate_name("consumer", "a/b") {
        Err(BrokerError::InvalidName { kind, name }) => {
            assert_eq!((kind, name.as_str()), ("consumer", "a/b"));
        }
        result => panic!("unexpected result: {result:?}"),
    }
    assert!(validate_name("stream", &"n".repeat(128)).is_ok());
    assert!(validate_name("stream", &"n".repeat(129)).is_err());
}

#[test]
fn numbers_are_written_in_decimal() {
    assert_eq!(decimal_text(0), "0");
    assert_eq!(decimal_text(1_234_567_890), "1234567890");
    assert_eq!(decimal_text(u64::MAX), "18446744073709551615");
}

#[test]
fn spans_are_told_in_milliseconds() {
    assert_eq!(duration_ms(2, 1_999_999), 2_001);
    assert_eq!(duration_ms(u64::MAX, 0), u64::MAX);
}
