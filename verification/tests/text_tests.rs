use vcp_iptv_manager::num::{format_i64, format_u64, parse_i32, parse_i64, parse_u16, parse_u64, parse_usize};
use vcp_iptv_manager::text::{chars_of, lines_exec, trim_chars};

fn s(v: Vec<char>) -> String {
    v.into_iter().collect()
}

#[test]
fn parses_integers_like_std() {
    for t in ["0", "+17", "65535", "65536", "-1", "", "+", "1a", " 1", "007"] {
        assert_eq!(parse_u16(&chars_of(t)), t.parse::<u16>().ok(), "u16 {t:?}");
        assert_eq!(parse_u64(&chars_of(t)), t.parse::<u64>().ok(), "u64 {t:?}");
        assert_eq!(parse_usize(&chars_of(t)), t.parse::<usize>().ok(), "usize {t:?}");
    }
    for t in ["-2147483648", "2147483647", "2147483648", "-2147483649", "-", "-0", "+5", "--1", "９"] {
        assert_eq!(parse_i32(&chars_of(t)), t.parse::<i32>().ok(), "i32 {t:?}");
    }
    for t in ["-9223372036854775808", "9223372036854775807", "9223372036854775808", "18446744073709551615", "12"] {
        assert_eq!(parse_i64(&chars_of(t)), t.parse::<i64>().ok(), "i64 {t:?}");
    }
    assert_eq!(parse_u64(&chars_of("18446744073709551615")), Some(u64::MAX));
    assert_eq!(parse_u64(&chars_of("18446744073709551616")), None);
}

#[test]
fn formats_integers_like_std() {
    for n in [0u64, 7, 10, 99, 100, 4096, u64::MAX] {
        assert_eq!(s(format_u64(n)), n.to_string());
    }
    for n in [0i64, -1, 42, i64::MIN, i64::MAX] {
        assert_eq!(s(format_i64(n)), n.to_string());
    }
    for n in [0u64, 5, 123456789, u64::MAX] {
        assert_eq!(parse_u64(&format_u64(n)), Some(n));
    }
}

#[test]
fn trims_and_splits_like_std() {
    for t in ["", "  ", " a b ", "\u{3000}频道\u{3000}", "\t\r\nx\u{a0}", "x"] {
        assert_eq!(s(trim_chars(&chars_of(t))), t.trim());
        let once = trim_chars(&chars_of(t));
        assert_eq!(trim_chars(&once), once);
    }
    for t in ["", "a", "a\n", "a\r\nb", "\n", "a\n\nb\n", "a\rb\r", "x\r"] {
        let got: Vec<String> = lines_exec(&chars_of(t)).into_iter().map(s).collect();
        let want: Vec<String> = t.lines().map(|l| l.to_string()).collect();
        assert_eq!(got, want, "{t:?}");
    }
}
