use ji_chan::parse::{parse_i32, parse_u64};
use ji_chan::text::{chars_less, chars_of, place_of_key, u64_text};

#[test]
fn decimal_text_of_numbers() {
    assert_eq!(u64_text(0), "0");
    assert_eq!(u64_text(7), "7");
    assert_eq!(u64_text(1234), "1234");
    assert_eq!(u64_text(u64::MAX), "18446744073709551615");
}

#[test]
fn unsigned_parsing_accepts_digits_with_optional_plus() {
    assert_eq!(parse_u64("123"), Some(123));
    assert_eq!(parse_u64("+5"), Some(5));
    assert_eq!(parse_u64("007"), Some(7));
    assert_eq!(parse_u64("18446744073709551615"), Some(u64::MAX));
}

#[test]
fn unsigned_parsing_rejects_other_text() {
    assert_eq!(parse_u64(""), None);
    assert_eq!(parse_u64("+"), None);
    assert_eq!(parse_u64("-5"), None);
    assert_eq!(parse_u64("12a"), None);
    assert_eq!(parse_u64(" 12"), None);
    assert_eq!(parse_u64("18446744073709551616"), None);
    assert_eq!(parse_u64("99999999999999999999999"), None);
}

#[test]
fn signed_parsing_follows_the_range() {
    assert_eq!(parse_i32("-2147483648"), Some(i32::MIN));
    assert_eq!(parse_i32("2147483647"), Some(i32::MAX));
    assert_eq!(parse_i32("+42"), Some(42));
    assert_eq!(parse_i32("-0"), Some(0));
    assert_eq!(parse_i32("2147483648"), None);
    assert_eq!(parse_i32("-2147483649"), None);
    assert_eq!(parse_i32("-"), None);
    assert_eq!(parse_i32("_index"), None);
}

#[test]
fn decimal_round_trip() {
    for n in [0u64, 1, 9, 10, 99, 100, 123456789, u64::MAX] {
        assert_eq!(parse_u64(&u64_text(n)), Some(n));
    }
    for i in [0i32, -1, 1, 2024, i32::MIN, i32::MAX] {
        assert_eq!(parse_i32(&i.to_string()), Some(i));
    }
}

#[test]
fn keys_order_like_strings() {
    let pairs = [("", "a"), ("a", "ab"), ("ab", "b"), ("B", "a"), ("10", "2"), ("字", "日"), ("z", "字")];
    for (a, b) in pairs {
        assert!(chars_less(&chars_of(a), &chars_of(b)), "{} < {}", a, b);
        assert!(!chars_less(&chars_of(b), &chars_of(a)), "{} < {}", b, a);
        assert_eq!(chars_less(&chars_of(a), &chars_of(b)), a < b);
    }
    assert!(!chars_less(&chars_of("same"), &chars_of("same")));
    let entries = vec![(String::from("a"), String::from("1")), (String::from("c"), String::from("3"))];
    assert_eq!(place_of_key(&entries, &String::from("b")), 1);
    assert_eq!(place_of_key(&entries, &String::from("0")), 0);
    assert_eq!(place_of_key(&entries, &String::from("d")), 2);
}
