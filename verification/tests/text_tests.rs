use blue_book::text::{
    chars_of, decimal_digits, find, i32_to_string, padded_left, padded_right, parse_i32, parse_u32,
    replace, split_whitespace, string_of, trim, u64_to_string,
};

fn cs(s: &str) -> Vec<char> {
    s.chars().collect()
}

fn st(v: &[char]) -> String {
    v.iter().collect()
}

#[test]
fn chars_round_trip() {
    let v = chars_of("héllo wörld");
    assert_eq!(v, cs("héllo wörld"));
    assert_eq!(string_of(&v), "héllo wörld");
}

#[test]
fn trim_removes_unicode_whitespace() {
    assert_eq!(st(&trim(&cs("  \t abc d \n"))), "abc d");
    assert_eq!(st(&trim(&cs("\u{3000}x\u{a0}"))), "x");
    assert_eq!(st(&trim(&cs("   "))), "");
    assert_eq!(st(&trim(&cs(""))), "");
    for s in ["  a b  ", "\u{2028}z", "q\u{85}", "plain"] {
        assert_eq!(st(&trim(&cs(s))), s.trim());
    }
}

#[test]
fn split_whitespace_matches_std() {
    for s in ["TRACK 01 AUDIO", "  INDEX   00 00:00:00 ", "", "   ", "a\tb\nc", "one"] {
        let words: Vec<String> = split_whitespace(&cs(s)).iter().map(|w| st(w)).collect();
        let expected: Vec<String> = s.split_whitespace().map(|w| w.to_string()).collect();
        assert_eq!(words, expected);
    }
}

#[test]
fn find_substrings() {
    assert!(find(&cs("0777746207270"), &cs("077774620727")));
    assert!(!find(&cs("0777"), &cs("07778")));
    assert!(find(&cs("abc"), &cs("")));
    assert!(find(&cs("1987-05-01"), &cs("1987")));
    assert!(!find(&cs("1987-05-01"), &cs("1988")));
}

#[test]
fn replace_matches_std() {
    let cases = [
        ("{artist}/{album}", "{artist}", "Queen"),
        ("aaaa", "aa", "b"),
        ("no match here", "xyz", "!"),
        ("ababab", "aba", "X"),
        ("", "a", "b"),
    ];
    for (s, p, r) in cases {
        assert_eq!(st(&replace(&cs(s), &cs(p), &cs(r))), s.replace(p, r));
    }
}

#[test]
fn decimal_text() {
    assert_eq!(st(&decimal_digits(0)), "0");
    assert_eq!(st(&decimal_digits(1987)), "1987");
    assert_eq!(u64_to_string(u64::MAX), u64::MAX.to_string());
    assert_eq!(i32_to_string(-42), "-42");
    assert_eq!(i32_to_string(i32::MIN), i32::MIN.to_string());
    assert_eq!(i32_to_string(7), "7");
}

#[test]
fn parse_numbers_like_std() {
    for s in ["0", "16808", "+5", "-5", "", "+", "4294967295", "4294967296", "00042", "1a", "٣"] {
        assert_eq!(parse_u32(&cs(s)), s.parse::<u32>().ok(), "u32 {s:?}");
    }
    for s in ["0", "-0", "-1", "+1", "-", "+", "2147483647", "2147483648", "-2147483648", "-2147483649", "12x"] {
        assert_eq!(parse_i32(&cs(s)), s.parse::<i32>().ok(), "i32 {s:?}");
    }
}

#[test]
fn number_text_round_trip() {
    for n in [0u32, 9, 10, 16808, u32::MAX] {
        assert_eq!(parse_u32(&decimal_digits(n as u64)), Some(n));
    }
    for x in [0i32, -1, 12, i32::MIN, i32::MAX] {
        assert_eq!(parse_i32(&cs(&i32_to_string(x))), Some(x));
    }
}

#[test]
fn padding() {
    assert_eq!(st(&padded_left(&cs("1"), 2, ' ')), " 1");
    assert_eq!(st(&padded_left(&cs("12"), 2, ' ')), "12");
    assert_eq!(st(&padded_left(&cs("5"), 2, '0')), "05");
    assert_eq!(st(&padded_right(&cs("Field"), 20)), format!("{:<20}", "Field"));
    assert_eq!(st(&padded_right(&cs("a very long field name!"), 20)), "a very long field name!");
}
