use pulse::config::{
    database_url, detect_domain_suffix, number_i64, number_u16, number_usize, optional, port,
    required, stream_url, valkey_url,
};
use pulse::text::{format_i64, parse_i64, parse_unsigned, split, split_once, strip_prefix, trim};

fn set(v: &str) -> Option<String> {
    Some(v.to_string())
}

#[test]
fn a_missing_required_variable_is_named() {
    assert_eq!(required("X", set("v")), Ok("v".to_string()));
    assert_eq!(
        required("X", None),
        Err("missing required env var X".to_string())
    );
    assert_eq!(valkey_url(set("redis://h")), Ok("redis://h".to_string()));
    assert_eq!(
        valkey_url(None),
        Err("missing required env var VALKEY_URL".to_string())
    );
    assert_eq!(
        database_url(None),
        Err("missing required env var DATABASE_URL".to_string())
    );
    assert_eq!(database_url(set("")), Ok(String::new()));
}

#[test]
fn optional_variables_fall_back_only_when_unset() {
    assert_eq!(optional(set("v"), "f"), "v");
    assert_eq!(optional(set(""), "f"), "");
    assert_eq!(optional(None, "f"), "f");
    assert_eq!(
        stream_url(None),
        "https://stream.wikimedia.org/v2/stream/recentchange"
    );
    assert_eq!(stream_url(set("http://localhost")), "http://localhost");
    assert_eq!(detect_domain_suffix(None), ".wikipedia.org");
    assert_eq!(detect_domain_suffix(set("")), "");
}

#[test]
fn numbers_fall_back_when_unreadable() {
    assert_eq!(port(None), 3000);
    assert_eq!(port(set("8080")), 8080);
    assert_eq!(port(set("65536")), 3000);
    assert_eq!(port(set("-1")), 3000);
    assert_eq!(port(set(" 80")), 3000);
    assert_eq!(number_u16(set("+80"), 1), 80);
    assert_eq!(number_usize(set("12"), 1), 12);
    assert_eq!(number_usize(set("1.5"), 1), 1);
    assert_eq!(number_i64(set("-12"), 1), -12);
    assert_eq!(number_i64(set(""), 1), 1);
    assert_eq!(number_i64(None, 1), 1);
}

#[test]
fn decimals_are_written_and_read_as_std_does() {
    for n in [0, 1, -1, 9, 10, -10, 1_800_000_000_000, i64::MAX, i64::MIN] {
        assert_eq!(format_i64(n), n.to_string());
        assert_eq!(parse_i64(&n.to_string()), Some(n));
    }
    for s in [
        "", "+", "-", "+5", "-0", "00012", "9223372036854775807", "9223372036854775808",
        "-9223372036854775808", "-9223372036854775809", "1 ", "१", "1_0", "--1", "+-1",
    ] {
        assert_eq!(parse_i64(s), s.parse::<i64>().ok(), "{s:?}");
        assert_eq!(
            parse_unsigned(s, u64::from(u16::MAX)),
            s.parse::<u16>().ok().map(u64::from),
            "{s:?}"
        );
        assert_eq!(parse_unsigned(s, u64::MAX), s.parse::<u64>().ok(), "{s:?}");
    }
}

#[test]
fn text_is_taken_apart_as_std_does() {
    for s in ["", ";", "a;b", ";a;;b;", "é;日本; x", "no separator"] {
        let expected: Vec<String> = s.split(';').map(|p| p.to_string()).collect();
        assert_eq!(split(s, ';'), expected, "{s:?}");
        let once = s.split_once(';').map(|(a, b)| (a.to_string(), b.to_string()));
        assert_eq!(split_once(s, ';'), once, "{s:?}");
    }
    for s in [
        "", " ", "  a b  ", "\u{3000}日本\u{a0}", "\t\r\nx\u{85}", "\u{200b}x", "x\u{2029}\u{202f}",
        "\u{1680}\u{2000}\u{200a}\u{2028}\u{205f}", "\u{c}\u{b}y", "\u{180e}z\u{feff}",
    ] {
        assert_eq!(trim(s), s.trim(), "{s:?}");
    }
    assert_eq!(strip_prefix("ab", "a"), Some("b".to_string()));
    assert_eq!(strip_prefix("ab", "b"), None);
    assert_eq!(strip_prefix("a", "ab"), None);
}
