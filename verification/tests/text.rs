use dynastyscans::text::{chars_of, decimal_string, find, join, parse_i32, same_text};

#[test]
fn decimal_string_writes_like_std() {
    for n in [0, 1, 9, 10, 11, 99, 100, 2024, -1, -10, -2024, i32::MAX, i32::MIN, i32::MIN + 1] {
        assert_eq!(decimal_string(n), n.to_string());
    }
    assert_eq!(decimal_string(2), "2");
    assert_eq!(decimal_string(-2147483648), "-2147483648");
}

#[test]
fn parse_i32_reads_like_std() {
    for text in [
        "", "0", "7", "12", "+12", "-12", "-0", "+0", "007", "-007", "+", "-", "+-1", "--1", " 1", "1 ", "1a", "a1",
        "2147483647", "2147483648", "-2147483648", "-2147483649", "00000000000000000002147483647",
        "99999999999999999999999", "Next", "→", "1→", "１２",
    ] {
        assert_eq!(parse_i32(text), text.parse::<i32>().ok(), "for {text:?}");
    }
    assert_eq!(parse_i32("42"), Some(42));
    assert_eq!(parse_i32("-2147483648"), Some(i32::MIN));
    assert_eq!(parse_i32("2147483648"), None);
}

#[test]
fn find_gives_the_first_place() {
    let text = chars_of("abcabc");
    assert_eq!(find(&text, &chars_of("bc")), Some(1));
    assert_eq!(find(&text, &chars_of("abc")), Some(0));
    assert_eq!(find(&text, &chars_of("cab")), Some(2));
    assert_eq!(find(&text, &chars_of("abcabc")), Some(0));
    assert_eq!(find(&text, &chars_of("abcabcd")), None);
    assert_eq!(find(&text, &chars_of("x")), None);
    assert_eq!(find(&text, &chars_of("")), Some(0));
    assert_eq!(find(&chars_of(""), &chars_of("")), Some(0));
    assert_eq!(find(&chars_of("é?dsCover"), &chars_of("?dsCover")), Some(1));
}

#[test]
fn small_string_helpers() {
    assert_eq!(chars_of("aé→"), vec!['a', 'é', '→']);
    assert_eq!(join("ab", "cd"), "abcd");
    assert_eq!(join("", ""), "");
    assert!(same_text("Sort", "Sort"));
    assert!(!same_text("Sort", "sort"));
    assert!(!same_text("Sort", "Sorts"));
    assert!(same_text("", ""));
}
