use bytes::Bytes;
use daw_nexus::announce::{extract_id, parse_decimal};

fn id_of(text: &str) -> Option<u64> {
    extract_id(Bytes::copy_from_slice(text.as_bytes()))
}

#[test]
fn announced_id_is_read() {
    assert_eq!(id_of("id=123456789 addr=10.0.0.1:4242"), Some(123456789));
    assert_eq!(id_of("HELLO id=0 addr="), Some(0));
    assert_eq!(id_of("\u{20ac} id=007 addr=x"), Some(7));
}

#[test]
fn payload_without_announcement_has_no_id() {
    assert_eq!(id_of(""), None);
    assert_eq!(id_of("id= addr=x"), None);
    assert_eq!(id_of("id=12addr=x"), None);
    assert_eq!(id_of("id=12  addr=x"), None);
    assert_eq!(id_of("id=-12 addr=x"), None);
    assert_eq!(id_of("ID=12 addr=x"), None);
    assert_eq!(id_of("id=1x2 addr=x"), None);
}

#[test]
fn first_announcement_counts() {
    assert_eq!(id_of("id=5 addr=a id=6 addr=b"), Some(5));
    assert_eq!(id_of("id=5 id=6 addr=b"), Some(6));
    assert_eq!(id_of("id=id=8 addr=b"), Some(8));
}

#[test]
fn id_must_fit() {
    assert_eq!(id_of("id=18446744073709551615 addr=x"), Some(u64::MAX));
    assert_eq!(id_of("id=18446744073709551616 addr=x"), None);
    assert_eq!(id_of("id=99999999999999999999999 addr=x"), None);
    assert_eq!(id_of("id=18446744073709551616 addr=x id=4 addr=y"), None);
}

#[test]
fn digits_of_other_scripts_are_announced_but_not_read() {
    assert_eq!(id_of("id=\u{664}\u{662} addr=x"), None);
    assert_eq!(id_of("id=\u{664}\u{662} addr=x id=42 addr=y"), None);
}

#[test]
fn bytes_that_are_not_text_have_no_id() {
    assert_eq!(extract_id(Bytes::from_static(b"id=12 addr=x\xff")), None);
    assert_eq!(extract_id(Bytes::from_static(b"\xc3(")), None);
}

#[test]
fn every_id_is_read_back() {
    for id in [0u64, 9, 10, 1 << 32, u64::MAX - 1, u64::MAX] {
        assert_eq!(id_of(&format!("peer id={} addr=h", id)), Some(id));
        assert_eq!(parse_decimal(&id.to_string()), Some(id));
    }
}

#[test]
fn decimal_numbers_are_made_of_digits() {
    assert_eq!(parse_decimal(""), None);
    assert_eq!(parse_decimal("12a"), None);
    assert_eq!(parse_decimal("\u{664}"), None);
    assert_eq!(parse_decimal("0042"), Some(42));
    assert_eq!(parse_decimal("18446744073709551615"), Some(u64::MAX));
    assert_eq!(parse_decimal("18446744073709551616"), None);
}

#[test]
fn appended_text_does_not_matter() {
    let text = "id=12 id=5 addr=";
    for more in ["x", " id=6 addr=y", "id=7 addr=", "\u{664}"] {
        assert_eq!(id_of(&format!("{}{}", text, more)), id_of(text));
    }
    assert_eq!(id_of(text), Some(5));
}
