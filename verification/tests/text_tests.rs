use limitless::text::{decimal_of, parse_i32, parse_u32, trim_text};

fn chars(s: &str) -> Vec<char> {
    s.chars().collect()
}

#[test]
fn parsing_matches_std() {
    for s in ["0", "+5", "-5", "-", "+", "", " 1", "2147483647", "2147483648", "-2147483648", "-2147483649", "007", "1a", "-0", "+-1"] {
        assert_eq!(parse_i32(&chars(s)), s.parse::<i32>().ok(), "i32 {:?}", s);
        assert_eq!(parse_u32(&chars(s)), s.parse::<u32>().ok(), "u32 {:?}", s);
    }
    assert_eq!(parse_u32(&chars("4294967295")), Some(u32::MAX));
    assert_eq!(parse_u32(&chars("00000000000000000000042")), Some(42));
}

#[test]
fn formatting_matches_std() {
    for i in [0i64, 7, 10, -1, 1234567890, -2147483648, i64::MAX] {
        assert_eq!(decimal_of(i).into_iter().collect::<String>(), i.to_string());
    }
}

#[test]
fn trimming_matches_std() {
    for s in ["", "  ", " a ", "\t\r\na b\u{a0}", "\u{3000}x\u{2029}"] {
        assert_eq!(trim_text(s), s.trim());
    }
}

#[test]
fn white_space_agrees_with_std_everywhere() {
    for u in 0u32..0x110000 {
        if let Some(c) = char::from_u32(u) {
            assert_eq!(limitless::text::is_white_space(c), c.is_whitespace(), "U+{:04X}", u);
        }
    }
}
