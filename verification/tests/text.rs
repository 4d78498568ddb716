use queue_processor::text::{
    chars_of, concat2, join, lex_le_chars, parse_u64, str_eq, str_le,
};

#[test]
fn lexicographic_order_of_texts() {
    assert!(str_le("", ""));
    assert!(str_le("", "a"));
    assert!(!str_le("a", ""));
    assert!(str_le("a", "a"));
    assert!(str_le("a", "ab"));
    assert!(!str_le("ab", "a"));
    assert!(str_le("ab", "b"));
    assert!(!str_le("b", "ab"));
    assert!(str_le("Z", "a"));
    assert!(!str_le("a", "Z"));
    assert!(str_le("abc", "abd"));
    assert!(!str_le("abd", "abc"));
    assert!(str_le("z", "é"));
    assert!(str_le("é", "日本"));
    assert!(!str_le("日本", "é"));
}

#[test]
fn order_agrees_with_the_standard_one() {
    let words = ["", "a", "A", "ab", "b", "é", "z", "zz", "日", "10", "9", "player#1"];
    for x in words {
        for y in words {
            assert_eq!(str_le(x, y), x <= y, "{:?} {:?}", x, y);
            assert_eq!(lex_le_chars(&chars_of(x), &chars_of(y)), x <= y);
        }
    }
}

#[test]
fn equality_of_texts() {
    assert!(str_eq("", ""));
    assert!(str_eq("queue#solo", "queue#solo"));
    assert!(!str_eq("a", "A"));
    assert!(!str_eq("a", "ab"));
}

#[test]
fn characters_of_a_text() {
    assert_eq!(chars_of(""), Vec::<char>::new());
    assert_eq!(chars_of("aé日"), vec!['a', 'é', '日']);
}

#[test]
fn joining_texts() {
    let none: Vec<String> = vec![];
    assert_eq!(join(&none, "::"), "");
    assert_eq!(join(&vec!["a".to_string()], "::"), "a");
    assert_eq!(join(&vec!["a".to_string(), "b".to_string()], "::"), "a::b");
    assert_eq!(join(&vec!["".to_string(), "".to_string(), "x".to_string()], ","), ",,x");
    assert_eq!(concat2("queue#", "solo"), "queue#solo");
    assert_eq!(concat2("", ""), "");
}

#[test]
fn reading_decimal_numbers() {
    assert_eq!(parse_u64("0"), Some(0));
    assert_eq!(parse_u64("007"), Some(7));
    assert_eq!(parse_u64("1700000000"), Some(1_700_000_000));
    assert_eq!(parse_u64("+42"), Some(42));
    assert_eq!(parse_u64("18446744073709551615"), Some(u64::MAX));
    assert_eq!(parse_u64("18446744073709551616"), None);
    assert_eq!(parse_u64("99999999999999999999999"), None);
    assert_eq!(parse_u64(""), None);
    assert_eq!(parse_u64("+"), None);
    assert_eq!(parse_u64("-1"), None);
    assert_eq!(parse_u64("++1"), None);
    assert_eq!(parse_u64("1+"), None);
    assert_eq!(parse_u64("12a"), None);
    assert_eq!(parse_u64(" 12"), None);
    assert_eq!(parse_u64("1.5"), None);
    assert_eq!(parse_u64("١٢"), None);
}

#[test]
fn reading_agrees_with_the_standard_parser() {
    let texts = [
        "0", "1", "+1", "-1", "", "+", "00", "18446744073709551615", "18446744073709551616",
        "1844674407370955161x", "x", "1 ", "+0", "123456789", "0x10", "１２",
    ];
    for t in texts {
        assert_eq!(parse_u64(t), t.parse::<u64>().ok(), "{:?}", t);
    }
}
