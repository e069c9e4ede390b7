use jp_estat::decimal::{decimal_digits, digits_value};
use jp_estat::number::{parse_i64_chars, parse_u64_chars};
use jp_estat::text::{char_is_white_space, is_blank, same_text, trim, without_char};

#[test]
fn white_space_is_that_of_std() {
    for v in 0..=0x11_0000u32 {
        if let Some(c) = char::from_u32(v) {
            assert_eq!(char_is_white_space(c), c.is_whitespace(), "U+{:04X}", v);
        }
    }
}

#[test]
fn trim_is_that_of_std() {
    let samples = [
        "", " ", "a", " a", "a ", "  a b  ", "\u{3000}人口\u{3000}", "\t\r\n x \u{85}\u{a0}",
        "\u{2003}\u{2003}", "a\u{3000}b", " \u{200b} ",
    ];
    for s in samples {
        assert_eq!(trim(s), s.trim(), "text {:?}", s);
        assert_eq!(is_blank(s), s.trim().is_empty(), "text {:?}", s);
    }
}

#[test]
fn characters_are_taken_out() {
    assert_eq!(without_char("a\u{3000}b\u{3000}", '\u{3000}'), "ab");
    assert_eq!(without_char("\u{3000}\u{3000}", '\u{3000}'), "");
    assert_eq!(without_char("人口（総数）", '\u{3000}'), "人口（総数）");
    assert_eq!(without_char("", 'x'), "");
    assert_eq!(without_char("xaxbx", 'x'), "ab");
}

#[test]
fn texts_are_compared() {
    assert!(same_text("", ""));
    assert!(same_text("人口", "人口"));
    assert!(!same_text("人口", "人"));
    assert!(!same_text("ab", "ba"));
}

#[test]
fn decimal_digits_round_trip() {
    for n in [0u64, 7, 10, 99, 100, 5339, 53393599212, u64::MAX] {
        let digits = decimal_digits(n);
        assert_eq!(digits, n.to_string().into_bytes());
        if digits.len() <= 19 {
            assert_eq!(digits_value(&digits, digits.len()), n);
        }
    }
    assert_eq!(digits_value(b"53393599", 4), 5339);
    assert_eq!(digits_value(b"53393599", 0), 0);
    assert_eq!(digits_value(b"0012", 4), 12);
}

#[test]
fn numbers_are_read_as_std_reads_them() {
    let samples = [
        "", "0", "+0", "-0", "12", "+12", "-12", "18446744073709551615", "18446744073709551616",
        "9223372036854775807", "9223372036854775808", "-9223372036854775808",
        "-9223372036854775809", "000000000000000000000000000000000000001", "+", "-", "1+", "1-1",
        " 1", "1 ", "１", "0x10", "340282366920938463463374607431768211456",
    ];
    for s in samples {
        let chars: Vec<char> = s.chars().collect();
        assert_eq!(parse_u64_chars(&chars, 0, chars.len()), s.parse::<u64>().ok(), "text {:?}", s);
        assert_eq!(parse_i64_chars(&chars, 0, chars.len()), s.parse::<i64>().ok(), "text {:?}", s);
    }
    let chars: Vec<char> = "ab-42cd".chars().collect();
    assert_eq!(parse_i64_chars(&chars, 2, 5), Some(-42));
    assert_eq!(parse_u64_chars(&chars, 3, 5), Some(42));
    assert_eq!(parse_u64_chars(&chars, 3, 3), None);
}
