use tuwunel::utils::string::{
    camel_to_snake_case, camel_to_snake_string, common_prefix, str_contains, str_eq,
    str_from_bytes, string_from_bytes, to_small_string, truncate_deterministic,
};
use tuwunel::error::Error;

#[test]
fn common_prefix_doc_example() {
    let input = ["conduwuit", "conduit", "construct"];
    assert_eq!(common_prefix(&input), "con");
}

#[test]
fn common_prefix_empty_and_single() {
    let none: [&str; 0] = [];
    assert_eq!(common_prefix(&none), "");
    assert_eq!(common_prefix(&["abc"]), "abc");
    assert_eq!(common_prefix(&["abc", "xyz"]), "");
    assert_eq!(common_prefix(&["abc", "abcdef", "ab"]), "ab");
}

#[test]
fn common_prefix_non_ascii_counts_characters() {
    assert_eq!(common_prefix(&["ééa", "ééb"]), "éé");
}

#[test]
fn camel_to_snake() {
    assert_eq!(camel_to_snake_string("CamelToSnake"), "camel_to_snake");
    assert_eq!(camel_to_snake_string("camelCase"), "camel_case");
    assert_eq!(camel_to_snake_string("HTTPServer"), "httpserver");
    assert_eq!(camel_to_snake_string(""), "");
    let mut out = String::from("x:");
    camel_to_snake_case(&mut out, b"RoomId");
    assert_eq!(out, "x:room_id");
}

#[test]
fn camel_to_snake_latin1_bytes() {
    // each byte of the UTF-8 form is read as a Latin-1 character
    assert_eq!(camel_to_snake_string("é"), "\u{c3}\u{a9}");
}

#[test]
fn truncate_deterministic_values() {
    // "abc" sums to 294; 294 % 3 == 0
    assert_eq!(truncate_deterministic("abc", None), "");
    // "abcd" sums to 394; 394 % 4 == 2
    assert_eq!(truncate_deterministic("abcd", None), "ab");
    // clamped up to at least 3
    assert_eq!(truncate_deterministic("abcd", Some(3..4)), "abc");
    assert_eq!(truncate_deterministic("", None), "");
}

#[test]
fn utf8_parsing() {
    assert_eq!(str_from_bytes(b"hello"), Ok("hello"));
    assert!(matches!(str_from_bytes(&[0xff, 0xfe]), Err(Error::Utf8 { valid_up_to: 0, ref message }) if !message.is_empty()));
    assert!(matches!(str_from_bytes(b"ab\xffc"), Err(Error::Utf8 { valid_up_to: 2, .. })));
    assert_eq!(string_from_bytes("héllo".as_bytes()), Ok(String::from("héllo")));
}

#[test]
fn small_string_is_decimal() {
    assert_eq!(to_small_string(0), "0");
    assert_eq!(to_small_string(7), "7");
    assert_eq!(to_small_string(1234567890), "1234567890");
    assert_eq!(to_small_string(u64::MAX), u64::MAX.to_string());
}

#[test]
fn text_helpers() {
    assert!(str_eq("abc", "abc"));
    assert!(!str_eq("abc", "abd"));
    assert!(str_contains("@alice:example.com", "alice"));
    assert!(str_contains("abc", ""));
    assert!(!str_contains("abc", "abcd"));
    assert!(!str_contains("abc", "ac"));
}

#[test]
fn snake_case_is_settled() {
    for s in ["FooBar", "HTTPServer", "already_snake", "aB1C", ""] {
        let once = camel_to_snake_string(s);
        assert!(!once.bytes().any(|b| b.is_ascii_uppercase()));
        assert_eq!(camel_to_snake_string(&once), once);
    }
}
