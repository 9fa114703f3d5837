use touchhle::ns_regular_expression::{
    text_checking_result_range, text_checking_result_range_at_index, utf16_range_to_utf8_byte_range,
    utf16_substring, NSRange, NSRegularExpressionHostObject,
};

fn range(location: u32, length: u32) -> NSRange {
    NSRange { location, length }
}

#[test]
fn ascii_range_maps_to_same_bytes() {
    assert_eq!(utf16_range_to_utf8_byte_range("hello world", range(6, 5)), Some((6, 11)));
    assert_eq!(utf16_range_to_utf8_byte_range("hello", range(0, 5)), Some((0, 5)));
    assert_eq!(utf16_range_to_utf8_byte_range("hello", range(5, 0)), Some((5, 5)));
}

#[test]
fn multibyte_characters_are_counted_in_utf16_units() {
    // 'é' is one UTF-16 unit and two UTF-8 bytes; '😀' is two units and four bytes.
    let s = "aé😀b";
    assert_eq!(utf16_range_to_utf8_byte_range(s, range(1, 1)), Some((1, 3)));
    assert_eq!(utf16_range_to_utf8_byte_range(s, range(2, 2)), Some((3, 7)));
    assert_eq!(utf16_range_to_utf8_byte_range(s, range(4, 1)), Some((7, 8)));
    assert_eq!(utf16_substring(s, range(2, 3)), Some("😀b".to_string()));
}

#[test]
fn range_inside_a_surrogate_pair_is_refused() {
    let s = "a😀b";
    assert_eq!(utf16_range_to_utf8_byte_range(s, range(2, 1)), None);
    assert_eq!(utf16_range_to_utf8_byte_range(s, range(0, 2)), None);
    assert_eq!(utf16_substring(s, range(0, 2)), None);
}

#[test]
fn range_past_the_end_is_refused() {
    assert_eq!(utf16_range_to_utf8_byte_range("abc", range(2, 2)), None);
    assert_eq!(utf16_range_to_utf8_byte_range("abc", range(4, 0)), None);
    assert_eq!(utf16_substring("", range(0, 0)), Some(String::new()));
}

#[test]
fn regex_counts_matches_in_range() {
    let re = NSRegularExpressionHostObject::regularExpressionWithPattern(Some("a+")).unwrap();
    assert_eq!(re.numberOfMatchesInString(Some("aa b aaa c a"), range(0, 12)), 3);
    assert_eq!(re.numberOfMatchesInString(Some("aa b aaa c a"), range(2, 6)), 1);
    assert!(re.firstMatchInString(Some("xxa"), range(0, 3)));
    assert!(!re.firstMatchInString(Some("xxa"), range(0, 2)));
}

#[test]
fn regex_nil_string_or_bad_range_gives_nothing() {
    let re = NSRegularExpressionHostObject::regularExpressionWithPattern(Some("a")).unwrap();
    assert_eq!(re.numberOfMatchesInString(None, range(0, 1)), 0);
    assert_eq!(re.numberOfMatchesInString(Some("a"), range(0, 5)), 0);
    assert!(!re.firstMatchInString(None, range(0, 0)));
}

#[test]
fn regex_with_invalid_or_nil_pattern_is_nil() {
    assert!(NSRegularExpressionHostObject::regularExpressionWithPattern(Some("foo(bar")).is_none());
    assert!(NSRegularExpressionHostObject::regularExpressionWithPattern(None).is_none());
    let mut o = NSRegularExpressionHostObject::allocWithZone();
    assert!(!o.initWithPattern(Some("(")));
    assert_eq!(o.numberOfMatchesInString(Some("((("), range(0, 3)), 0);
    assert!(o.initWithPattern(Some("\\(")));
    assert_eq!(o.numberOfMatchesInString(Some("((("), range(0, 3)), 3);
}

#[test]
fn text_checking_result_ranges_are_empty() {
    assert_eq!(text_checking_result_range(), range(0, 0));
    assert_eq!(text_checking_result_range_at_index(3), range(0, 0));
}
