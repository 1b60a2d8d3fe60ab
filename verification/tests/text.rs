use astproc::text::{chars_of, is_space, parse_number, parse_range, push_decimal, trim, trim_range};

#[test]
fn push_decimal_appends_the_digits() {
    let mut out = String::from("pid ");
    push_decimal(&mut out, 0);
    assert_eq!(out, "pid 0");
    push_decimal(&mut out, 7);
    push_decimal(&mut out, 10);
    push_decimal(&mut out, 4294967295);
    assert_eq!(out, "pid 07104294967295");
}

#[test]
fn push_decimal_agrees_with_the_standard_formatter() {
    let mut numbers =
        vec![0u32, 1, 9, 10, 19, 99, 100, 999, 1000, 65535, 65536, u32::MAX - 1, u32::MAX];
    let mut n: u32 = 1;
    for _ in 0..1000 {
        n = n.wrapping_mul(1664525).wrapping_add(1013904223);
        numbers.push(n);
        numbers.push(n >> 16);
        numbers.push(n >> 24);
    }
    for n in numbers {
        let mut out = String::new();
        push_decimal(&mut out, n);
        assert_eq!(out, n.to_string());
    }
}

#[test]
fn is_space_agrees_with_the_standard_library_on_every_character() {
    for code in 0..=0x10ffffu32 {
        if let Some(c) = char::from_u32(code) {
            assert_eq!(is_space(c), c.is_whitespace(), "U+{:04X}", code);
        }
    }
}

#[test]
fn trim_takes_white_space_from_both_ends() {
    assert_eq!(trim(""), "");
    assert_eq!(trim("   "), "");
    assert_eq!(trim("a"), "a");
    assert_eq!(trim(" a"), "a");
    assert_eq!(trim("a "), "a");
    assert_eq!(trim("\t a b \r\n"), "a b");
    assert_eq!(trim("\u{2028}\u{3000}é ü\u{85}\u{a0}"), "é ü");
    assert_eq!(trim("\u{200b}a\u{200b}"), "\u{200b}a\u{200b}");
}

#[test]
fn trim_agrees_with_the_standard_library() {
    let pieces =
        ["", " ", "\t", "a", "é", "\u{a0}", "\n", "b c", "\u{1680}", "\u{feff}", "\u{2009}"];
    for a in pieces {
        for b in pieces {
            for c in pieces {
                let text = format!("{}{}{}", a, b, c);
                assert_eq!(trim(&text), text.trim(), "{:?}", text);
            }
        }
    }
}

#[test]
fn trim_range_finds_the_part_that_stays() {
    let chars = chars_of("ab  cd  ef");
    assert_eq!(trim_range(&chars, 0, 10), (0, 10));
    assert_eq!(trim_range(&chars, 2, 8), (4, 6));
    assert_eq!(trim_range(&chars, 2, 4), (4, 4));
    assert_eq!(trim_range(&chars, 3, 3), (3, 3));
    assert_eq!(trim_range(&chars, 1, 5), (1, 5));
}

#[test]
fn chars_of_lists_the_characters() {
    assert_eq!(chars_of(""), Vec::<char>::new());
    assert_eq!(chars_of("a│é"), vec!['a', '│', 'é']);
}

#[test]
fn parse_number_reads_what_a_u32_can_hold() {
    assert_eq!(parse_number("0"), Some(0));
    assert_eq!(parse_number("00"), Some(0));
    assert_eq!(parse_number("+0"), Some(0));
    assert_eq!(parse_number("123456789"), Some(123456789));
    assert_eq!(parse_number("4294967295"), Some(4294967295));
    assert_eq!(parse_number("4294967296"), None);
    assert_eq!(parse_number("4294967300"), None);
    assert_eq!(parse_number("42949672950"), None);
    assert_eq!(parse_number("18446744073709551616"), None);
    assert_eq!(parse_number(""), None);
    assert_eq!(parse_number("+"), None);
    assert_eq!(parse_number("12a"), None);
    assert_eq!(parse_number("99999999999a"), None);
    assert_eq!(parse_number("٣"), None);
}

#[test]
fn parse_range_reads_a_part() {
    let chars = chars_of("ab+12cd");
    assert_eq!(parse_range(&chars, 2, 5), Some(12));
    assert_eq!(parse_range(&chars, 3, 5), Some(12));
    assert_eq!(parse_range(&chars, 3, 4), Some(1));
    assert_eq!(parse_range(&chars, 2, 3), None);
    assert_eq!(parse_range(&chars, 3, 3), None);
    assert_eq!(parse_range(&chars, 1, 5), None);
    assert_eq!(parse_range(&chars, 3, 6), None);
}

#[test]
fn a_number_written_in_decimal_reads_back() {
    let mut n: u32 = 7;
    for _ in 0..2000 {
        n = n.wrapping_mul(1664525).wrapping_add(1013904223);
        for number in [n, n >> 8, n >> 20, n >> 28] {
            let mut text = String::new();
            push_decimal(&mut text, number);
            assert_eq!(parse_number(&text), Some(number));
        }
    }
    for number in [0, 9, 10, u32::MAX] {
        let mut text = String::new();
        push_decimal(&mut text, number);
        assert_eq!(parse_number(&text), Some(number));
    }
}
