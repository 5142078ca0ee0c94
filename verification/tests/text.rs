use lb_monitor::score::{bits_are_nan, bits_equal, bits_less};
use lb_monitor::text::{
    contains, ends_with, has_char, integer_text, join, natural_text, padded_text, parse_integer,
    remove_char, split_filled, starts_with, text_before, to_ascii_lowercase, trim, trim_end_char,
};

fn texts(values: &[&str]) -> Vec<String> {
    values.iter().map(|value| value.to_string()).collect()
}

#[test]
fn numbers_are_written_in_decimal() {
    assert_eq!(natural_text(0), "0");
    assert_eq!(natural_text(u64::MAX), "18446744073709551615");
    assert_eq!(integer_text(i64::MIN), "-9223372036854775808");
    assert_eq!(integer_text(42), "42");
    assert_eq!(padded_text(7, 4), "0007");
    assert_eq!(padded_text(12345, 4), "12345");
}

#[test]
fn integers_are_read_like_rust_reads_them() {
    for text in ["0", "-0", "+7", "007", "9223372036854775807", "-9223372036854775808"] {
        assert_eq!(parse_integer(text), text.parse::<i64>().ok());
    }
    for text in ["", "+", "-", "1 ", "9223372036854775808", "-9223372036854775809", "１", "1e3"] {
        assert_eq!(parse_integer(text), None);
        assert!(text.parse::<i64>().is_err());
    }
}

#[test]
fn splitting_undoes_joining() {
    let parts = texts(&["alpha", "beta", "gamma"]);
    assert_eq!(join(&parts, ","), "alpha,beta,gamma");
    assert_eq!(split_filled(&join(&parts, ","), ','), parts);
    assert_eq!(split_filled(",a,,b,", ','), texts(&["a", "b"]));
    assert!(split_filled("", ',').is_empty());
    assert_eq!(join(&Vec::new(), ", "), "");
}

#[test]
fn parts_are_found() {
    assert!(contains("leaderboard", "board"));
    assert!(contains("anything", ""));
    assert!(!contains("board", "boards"));
    assert!(starts_with("https://x", "https://"));
    assert!(!starts_with("h", "https://"));
    assert!(ends_with("index.js", ".js"));
    assert!(!ends_with("index.jsx", ".js"));
}

#[test]
fn ends_are_trimmed() {
    assert_eq!(trim(" \u{a0}\t a b \n"), "a b");
    assert_eq!(trim(" \n "), "");
    assert_eq!(trim_end_char("a//b//", '/'), "a//b");
    assert_eq!(trim_end_char("///", '/'), "");
    assert_eq!(remove_char("1,234,567", ','), "1234567");
    assert_eq!(to_ascii_lowercase("StartTLS Ä"), "starttls Ä");
}

#[test]
fn texts_are_ordered_like_rust_orders_them() {
    let words = ["", "a", "ab", "b", "Z", "ä", "dummy-10000", "dummy-9999", "\u{10ffff}", "\u{ffff}"];
    for a in words {
        for b in words {
            assert_eq!(text_before(a, b), a < b);
        }
    }
}

#[test]
fn scores_are_compared_like_floats() {
    let values = [
        0.0, -0.0, 1.0, -1.0, 0.5, f64::MIN_POSITIVE, 5e-324, -5e-324, f64::MAX, f64::MIN,
        f64::INFINITY, f64::NEG_INFINITY, f64::NAN, -f64::NAN,
    ];
    for a in values {
        assert_eq!(bits_are_nan(a.to_bits()), a.is_nan());
        for b in values {
            assert_eq!(bits_equal(a.to_bits(), b.to_bits()), a == b);
            assert_eq!(bits_less(a.to_bits(), b.to_bits()), a < b);
        }
    }
}

#[test]
fn white_space_is_what_rust_takes_it_for() {
    let listed = |c: u32| {
        matches!(
            c,
            0x9..=0xd
                | 0x20
                | 0x85
                | 0xa0
                | 0x1680
                | 0x2000..=0x200a
                | 0x2028
                | 0x2029
                | 0x202f
                | 0x205f
                | 0x3000
        )
    };
    for c in '\0'..=char::MAX {
        assert_eq!(trim(&c.to_string()).is_empty(), listed(c as u32), "{c:?}");
    }
}

#[test]
fn characters_are_found() {
    assert!(has_char("a\nb", '\n'));
    assert!(!has_char("a\nb", '\r'));
    assert!(!has_char("", 'a'));
}

#[test]
fn numerals_are_read_back() {
    for n in [0u64, 7, 10, 999, 1000, 10000, 123456789] {
        assert_eq!(parse_integer(&padded_text(n, 4)), Some(n as i64));
        assert_eq!(parse_integer(&padded_text(n, 12)), Some(n as i64));
    }
}
