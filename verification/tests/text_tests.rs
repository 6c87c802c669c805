use vitals_cosmic::text::{parse_u8, push_decimal, same_text, text_less};

#[test]
fn parse_u8_agrees_with_std_on_numbers() {
    for n in 0u32..1200 {
        let s = n.to_string();
        assert_eq!(parse_u8(&s), s.parse::<u8>().ok(), "input {s}");
        let plus = format!("+{s}");
        assert_eq!(parse_u8(&plus), plus.parse::<u8>().ok(), "input {plus}");
        let zeros = format!("00{s}");
        assert_eq!(parse_u8(&zeros), zeros.parse::<u8>().ok(), "input {zeros}");
    }
}

#[test]
fn parse_u8_agrees_with_std_on_odd_inputs() {
    let inputs = [
        "", "+", "-", "-0", "-5", "++5", " 5", "5 ", "5a", "a5", "0x10", "1_0", "\u{0663}", "255",
        "256", "+255", "+256", "000000000000000000007", "99999999999999999999", "+-1",
    ];
    for s in inputs {
        assert_eq!(parse_u8(s), s.parse::<u8>().ok(), "input {s:?}");
    }
}

#[test]
fn decimal_text_of_every_byte() {
    for n in 0u16..=255 {
        let mut out = String::from("x");
        push_decimal(&mut out, n as u8);
        assert_eq!(out, format!("x{n}"));
    }
}

#[test]
fn same_text_compares_content() {
    assert!(same_text("fan", "fan"));
    assert!(!same_text("fan", "fans"));
    assert!(!same_text("fan", "Fan"));
    assert!(same_text("", ""));
    assert!(same_text("\u{00e9}t\u{00e9}", "\u{00e9}t\u{00e9}"));
}

#[test]
fn text_less_is_the_order_of_strings() {
    let words = [
        "", "a", "b", "ab", "abc", "abd", "B", "cpu", "cpu0", "cpu1", "Core 1", "Core 10",
        "Core 2", "\u{00e9}", "z", "zz", "\u{4e2d}", "\u{1f600}",
    ];
    for a in words {
        for b in words {
            assert_eq!(text_less(a, b), a < b, "{a:?} < {b:?}");
        }
    }
}
