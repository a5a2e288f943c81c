use scrum_poker::text::{first_field, name_le, str_equals, u8_to_string};

#[test]
fn decimal_text_of_bytes() {
    for v in [0u8, 7, 10, 42, 99, 100, 205, 255] {
        assert_eq!(u8_to_string(v), v.to_string());
    }
}

#[test]
fn string_equality() {
    assert!(str_equals("abc", "abc"));
    assert!(!str_equals("abc", "abd"));
    assert!(!str_equals("abc", "ab"));
    assert!(str_equals("", ""));
}

#[test]
fn name_order() {
    assert!(name_le("ab", "abc"));
    assert!(!name_le("abc", "ab"));
    assert!(name_le("abc", "abd"));
    assert!(name_le("", "a"));
    assert!(name_le("a", "a"));
    assert!(name_le("Z", "a"));
    assert!(name_le("z", "é"));
}

#[test]
fn first_field_of_a_token() {
    assert_eq!(first_field("{\"a\":1}|1700000000000"), "{\"a\":1}");
    assert_eq!(first_field("no bar"), "no bar");
    assert_eq!(first_field("|x"), "");
    assert_eq!(first_field(""), "");
}

#[test]
fn parse_u8_reads_as_std_does() {
    let inputs = [
        "", "0", "7", "34", "255", "256", "1000", "+5", "+", "-1", "-0", "007", " 1", "1 ", "a", "1a", "٣", "99999999999",
    ];
    for s in inputs {
        assert_eq!(scrum_poker::text::parse_u8(s), s.parse::<u8>().ok(), "input {:?}", s);
    }
}
