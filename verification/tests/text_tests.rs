//! Tests for the text helpers that every renderer builds on; each result is
//! checked against what `format!` or `str` gives for the same input.

use forge::text::{
    chars_of, collect, concat_all, dec_string, join_all, owned, push_blocks, push_char, push_counted,
    push_counted_nat, push_dec, push_dec_i64, push_dec_wide, push_hex, push_hex_byte, push_str, space,
    str_eq, str_lt, trim_chars,
};

#[test]
fn decimal_and_hex_match_format() {
    for n in [0u64, 7, 10, 99, 100, 65535, u64::MAX] {
        assert_eq!(dec_string(n), format!("{n}"));
        let mut s = String::new();
        push_hex(&mut s, n);
        assert_eq!(s, format!("{n:X}"));
        let mut s = String::new();
        push_hex_byte(&mut s, n);
        assert_eq!(s, format!("{n:#04X}"));
        let mut s = String::from(">");
        push_dec(&mut s, n);
        assert_eq!(s, format!(">{n}"));
    }
    for n in [0u128, 1, u64::MAX as u128 + 1, u128::MAX] {
        let mut s = String::new();
        push_dec_wide(&mut s, n);
        assert_eq!(s, format!("{n}"));
    }
    for n in [0i64, -1, 42, i64::MIN, i64::MAX] {
        let mut s = String::new();
        push_dec_i64(&mut s, n);
        assert_eq!(s, format!("{n}"));
    }
}

#[test]
fn counted_nouns() {
    let mut s = String::new();
    push_counted(&mut s, 1, "pin", "pins");
    push_str(&mut s, ", ");
    push_counted(&mut s, 0, "bus", "buses");
    push_str(&mut s, ", ");
    push_counted_nat(&mut s, 2, "port", "ports");
    assert_eq!(s, "1 pin, 0 buses, 2 ports");
}

#[test]
fn joining_and_blocks() {
    let pieces = vec!["a".to_string(), "bc".to_string(), "".to_string()];
    assert_eq!(concat_all(&pieces), "abc");
    assert_eq!(join_all(&pieces, ", "), "a, bc, ");
    assert_eq!(join_all(&Vec::new(), ", "), "");
    let mut s = owned("head");
    push_blocks(&mut s, &pieces);
    assert_eq!(s, "head\na\n\nbc\n\n\n");
    push_char(&mut s, '!');
    assert!(s.ends_with('!'));
}

#[test]
fn comparisons_follow_str() {
    let words = ["", "a", "ab", "b", "B", "\u{e9}", "abc"];
    for a in words {
        for b in words {
            assert_eq!(str_lt(a, b), a < b, "{a:?} < {b:?}");
            assert_eq!(str_eq(a, b), a == b);
        }
    }
}

#[test]
fn trimming_follows_str_trim() {
    for text in ["", "  ", " x ", "\t\nx y\r\n", "\u{3000}wide\u{a0}", "plain"] {
        let v = chars_of(text);
        assert_eq!(collect(&trim_chars(&v)), text.trim());
    }
    for c in [' ', '\t', '\n', '\u{85}', '\u{2028}', 'x', '_', '\u{200b}'] {
        assert_eq!(space(c), c.is_whitespace(), "{c:?}");
    }
}
