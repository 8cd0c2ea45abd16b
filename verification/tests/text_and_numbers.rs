use camera::decimal::{format_i64, parse_i64_chars};
use camera::text::{lines_chars, skip_bytes_chars, split_chars, to_chars, trim_chars};

fn chars(s: &str) -> Vec<char> {
    s.chars().collect()
}

fn text(v: &[char]) -> String {
    v.iter().collect()
}

fn parse(s: &str) -> Option<i64> {
    parse_i64_chars(&chars(s))
}

#[test]
fn format_writes_decimal() {
    assert_eq!(format_i64(0), "0");
    assert_eq!(format_i64(7), "7");
    assert_eq!(format_i64(1920), "1920");
    assert_eq!(format_i64(-45), "-45");
    assert_eq!(format_i64(i64::MAX), "9223372036854775807");
    assert_eq!(format_i64(i64::MIN), "-9223372036854775808");
}

#[test]
fn format_agrees_with_to_string() {
    for n in [-1000007i64, -10, -1, 0, 1, 9, 10, 99, 100, 65535, 1_700_000_000_000] {
        assert_eq!(format_i64(n), n.to_string());
    }
}

#[test]
fn parse_reads_back_what_format_writes() {
    for n in [i64::MIN, -123456789, -1, 0, 1, 42, 1080, i64::MAX] {
        assert_eq!(parse(&format_i64(n)), Some(n));
    }
}

#[test]
fn parse_accepts_what_std_accepts() {
    assert_eq!(parse("1920"), Some(1920));
    assert_eq!(parse("+12"), Some(12));
    assert_eq!(parse("-0"), Some(0));
    assert_eq!(parse("007"), Some(7));
    assert_eq!(parse("-9223372036854775808"), Some(i64::MIN));
}

#[test]
fn parse_rejects_what_std_rejects() {
    for s in ["", "+", "-", "12a", " 12", "1 2", "+-1", "9223372036854775808", "-9223372036854775809", "99999999999999999999999"] {
        assert_eq!(parse(s), None, "{:?}", s);
        assert!(s.parse::<i64>().is_err());
    }
}

#[test]
fn lines_follow_str_lines() {
    for s in ["", "a", "a\n", "a\r\nb", "a\n\nb\n", "\n", "x\r", "x\r\n\r\n", "one\ntwo\r\nthree"] {
        let got: Vec<String> = lines_chars(&chars(s)).iter().map(|l| text(l)).collect();
        let want: Vec<String> = s.lines().map(|l| l.to_string()).collect();
        assert_eq!(got, want, "{:?}", s);
    }
}

#[test]
fn trim_follows_str_trim() {
    for s in ["", "  ", "\tx y \n", "\u{a0}a\u{3000}", "\u{2003}b\u{85}", "abc"] {
        assert_eq!(text(&trim_chars(&chars(s))), s.trim(), "{:?}", s);
    }
}

#[test]
fn split_follows_str_split() {
    for (s, c) in [("1920x1080", 'x'), ("x", 'x'), ("", 'x'), ("a'b'c", '\''), ("0 : imx", ':')] {
        let got: Vec<String> = split_chars(&chars(s), c).iter().map(|p| text(p)).collect();
        let want: Vec<String> = s.split(c).map(|p| p.to_string()).collect();
        assert_eq!(got, want);
    }
}

#[test]
fn skip_bytes_counts_utf8_bytes() {
    assert_eq!(skip_bytes_chars(&chars("abcdef"), 2).map(|v| text(&v)), Some("cdef".to_string()));
    assert_eq!(skip_bytes_chars(&chars("abc"), 3).map(|v| text(&v)), Some(String::new()));
    assert_eq!(skip_bytes_chars(&chars("abc"), 4), None);
    // 'é' takes two bytes: offset 1 falls inside it.
    assert_eq!(skip_bytes_chars(&chars("éa"), 1), None);
    assert_eq!(skip_bytes_chars(&chars("éa"), 2).map(|v| text(&v)), Some("a".to_string()));
}

#[test]
fn to_chars_keeps_every_character() {
    assert_eq!(to_chars("héllo"), vec!['h', 'é', 'l', 'l', 'o']);
}
