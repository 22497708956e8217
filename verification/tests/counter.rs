use spotted::decimal::{format_i32, parse_i32};
use spotted::definitions::{spotted_nmr_from_contents, updated_spotted_contents, SpottedStruct};

#[test]
fn format_i32_writes_decimal_text() {
    assert_eq!(format_i32(0), "0");
    assert_eq!(format_i32(42), "42");
    assert_eq!(format_i32(-7), "-7");
    assert_eq!(format_i32(i32::MAX), "2147483647");
    assert_eq!(format_i32(i32::MIN), "-2147483648");
}

#[test]
fn parse_i32_accepts_what_std_accepts() {
    assert_eq!(parse_i32("42"), Some(42));
    assert_eq!(parse_i32("+5"), Some(5));
    assert_eq!(parse_i32("-0"), Some(0));
    assert_eq!(parse_i32("007"), Some(7));
    assert_eq!(parse_i32("-2147483648"), Some(i32::MIN));
    assert_eq!(parse_i32("2147483647"), Some(i32::MAX));
}

#[test]
fn parse_i32_refuses_what_std_refuses() {
    for text in ["", "-", "+", "4 2", "5\n", " 5", "2147483648", "-2147483649", "12a", "99999999999999999999", "--1"] {
        assert_eq!(parse_i32(text), None, "{:?}", text);
        assert!(text.parse::<i32>().is_err());
    }
}

#[test]
fn parse_i32_agrees_with_std_parse() {
    for text in ["0", "1", "-1", "+0", "123456", "-98765", "2147483647", "-2147483648", "00000000000000000012"] {
        assert_eq!(parse_i32(text), text.parse::<i32>().ok(), "{:?}", text);
    }
}

#[test]
fn format_then_parse_gives_the_number_back() {
    for n in [0, 1, -1, 9, 10, -10, 12345, i32::MAX, i32::MIN, 1_000_000_000] {
        assert_eq!(parse_i32(&format_i32(n)), Some(n));
        assert_eq!(format_i32(n), n.to_string());
    }
}

#[test]
fn new_spotted_is_empty() {
    let s = SpottedStruct::new();
    assert_eq!(s.id, "");
    assert_eq!(s.spt_num, 0);
    assert_eq!(s.mensagem, "");
    assert_eq!(s.identificacao, "");
    assert_eq!(s.link, "");
}

#[test]
fn spotted_from_fields_keeps_the_texts() {
    let s = SpottedStruct::from_fields(None, Some("oi".to_string()), Some("anon".to_string()));
    assert_eq!(s.id, "");
    assert_eq!(s.mensagem, "oi");
    assert_eq!(s.identificacao, "anon");
    assert_eq!(s.spt_num, 0);
    assert_eq!(s.link, "");
}

#[test]
fn counter_contents_read_as_number_or_zero() {
    assert_eq!(spotted_nmr_from_contents("17"), 17);
    assert_eq!(spotted_nmr_from_contents("abc"), 0);
    assert_eq!(spotted_nmr_from_contents("17\n"), 0);
    assert_eq!(spotted_nmr_from_contents(""), 0);
    assert_eq!(spotted_nmr_from_contents("-3"), -3);
}

#[test]
fn update_then_read_gives_next_number() {
    assert_eq!(updated_spotted_contents("17"), "18");
    assert_eq!(updated_spotted_contents("garbage"), "1");
    assert_eq!(updated_spotted_contents("-1"), "0");
    let next = updated_spotted_contents("41");
    assert_eq!(spotted_nmr_from_contents(&next), 42);
}
