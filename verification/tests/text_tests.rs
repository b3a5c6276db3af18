use tuber_lib::number::{decimal_string, parse_u64, parse_usize, IntError};
use tuber_lib::text::{chars_of, split_lines, split_words, string_of, trim_slice};

fn chars(s: &str) -> Vec<char> {
    s.chars().collect()
}

fn strings(v: Vec<Vec<char>>) -> Vec<String> {
    v.into_iter().map(|l| l.into_iter().collect()).collect()
}

#[test]
fn lines_follow_str_lines() {
    for text in ["", "a", "a\n", "a\r\nb", "a\n\nb\n", "\n", "x\r", "x\ry\r\n", "\r\n\r\n"] {
        let expected: Vec<String> = text.lines().map(|l| l.to_string()).collect();
        assert_eq!(strings(split_lines(&chars(text))), expected, "lines of {:?}", text);
    }
}

#[test]
fn words_follow_split_whitespace() {
    for text in ["", "  ", "a b", "  RESERVED  5\t10 \n", "x\u{3000}y\u{85}z"] {
        let expected: Vec<String> = text.split_whitespace().map(|w| w.to_string()).collect();
        assert_eq!(strings(split_words(&chars(text))), expected, "words of {:?}", text);
    }
}

#[test]
fn trim_follows_str_trim() {
    for text in ["", "   ", " a b ", "\u{3000}x\u{85}", "\u{200b}x", "\tx\n"] {
        let t: String = trim_slice(&chars(text), None).iter().collect();
        assert_eq!(t, text.trim(), "trim of {:?}", text);
    }
    let q: String = trim_slice(&chars("\"\"a\"b\""), Some('"')).iter().collect();
    assert_eq!(q, "a\"b");
}

#[test]
fn chars_and_strings_round_trip() {
    let s = "héllo — wörld";
    assert_eq!(chars_of(s), chars(s));
    assert_eq!(string_of(&chars(s)), s);
}

#[test]
fn parse_numbers_like_std() {
    assert_eq!(parse_u64(&chars("")), Err(IntError::Empty));
    assert_eq!(parse_u64(&chars("+")), Err(IntError::InvalidDigit));
    assert_eq!(parse_u64(&chars("-")), Err(IntError::InvalidDigit));
    assert_eq!(parse_u64(&chars("-1")), Err(IntError::InvalidDigit));
    assert_eq!(parse_u64(&chars("+12")), Ok(12));
    assert_eq!(parse_u64(&chars("12a")), Err(IntError::InvalidDigit));
    assert_eq!(parse_u64(&chars("18446744073709551615")), Ok(u64::MAX));
    assert_eq!(parse_u64(&chars("18446744073709551616")), Err(IntError::PosOverflow));
    assert_eq!(parse_u64(&chars("99999999999999999999x")), Err(IntError::PosOverflow));
    assert_eq!(parse_u64(&chars("1x99999999999999999999")), Err(IntError::InvalidDigit));
    assert_eq!(parse_usize(&chars("4096")), Ok(4096usize));
}

#[test]
fn decimal_text_reads_back() {
    for n in [0u64, 7, 10, 42, 100, 12345, u64::MAX] {
        let s = decimal_string(n);
        assert_eq!(s, n.to_string());
        assert_eq!(parse_u64(&chars(&s)), Ok(n));
    }
}
