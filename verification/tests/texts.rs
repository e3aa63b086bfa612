use uptimed::text::{
    blank, chars_of, digits_only, has_prefix, leading_word, parse_thousandths, parse_unsigned,
    split, trim, trim_bounds, Misread,
};

fn chars(text: &str) -> Vec<char> {
    text.chars().collect()
}

fn text_of(chars: &[char]) -> String {
    chars.iter().collect()
}

#[test]
fn blank_is_unicode_white_space() {
    for code in 0u32..=0x10ffff {
        if let Some(c) = char::from_u32(code) {
            assert_eq!(blank(c), c.is_whitespace(), "U+{:04X}", code);
        }
    }
}

#[test]
fn chars_of_gives_every_character() {
    assert_eq!(chars_of(""), Vec::<char>::new());
    assert_eq!(chars_of("a b"), vec!['a', ' ', 'b']);
    assert_eq!(chars_of("h\u{e9}\u{3000}"), vec!['h', '\u{e9}', '\u{3000}']);
}

#[test]
fn trim_strips_both_ends() {
    assert_eq!(text_of(trim(&chars("  150\n"))), "150");
    assert_eq!(text_of(trim(&chars("\t a b \r\n"))), "a b");
    assert_eq!(text_of(trim(&chars("abc"))), "abc");
    assert_eq!(text_of(trim(&chars(""))), "");
    assert_eq!(text_of(trim(&chars(" \n\t "))), "");
    assert_eq!(text_of(trim(&chars("\u{a0}x\u{2003}"))), "x");
}

#[test]
fn trim_agrees_with_std() {
    for text in ["", " ", "a", " a", "a ", "  a  b  ", "\n\n", "x\u{85}", "\u{1680}y z\u{205f}"] {
        assert_eq!(text_of(trim(&chars(text))), text.trim());
    }
}

#[test]
fn trim_bounds_delimit_the_trimmed_text() {
    assert_eq!(trim_bounds(&chars("  ab ")), (2, 4));
    assert_eq!(trim_bounds(&chars("ab")), (0, 2));
    assert_eq!(trim_bounds(&chars("")), (0, 0));
    let (start, end) = trim_bounds(&chars("   "));
    assert_eq!(start, end);
}

#[test]
fn split_gives_every_field() {
    let text = chars("a:b::c");
    let parts: Vec<String> = split(&text, ':').iter().map(|p| text_of(p)).collect();
    assert_eq!(parts, vec!["a", "b", "", "c"]);
}

#[test]
fn split_of_empty_text_is_one_empty_field() {
    let text = chars("");
    let parts = split(&text, ' ');
    assert_eq!(parts.len(), 1);
    assert!(parts[0].is_empty());
}

#[test]
fn split_keeps_empty_fields_at_the_ends() {
    let text = chars("\nab\n");
    let parts: Vec<String> = split(&text, '\n').iter().map(|p| text_of(p)).collect();
    assert_eq!(parts, vec!["", "ab", ""]);
}

#[test]
fn split_agrees_with_std() {
    for text in ["", "a", " ", "a b", " a  b ", "one two three", "   "] {
        let cs = chars(text);
        let ours: Vec<String> = split(&cs, ' ').iter().map(|p| text_of(p)).collect();
        let theirs: Vec<String> = text.split(' ').map(|p| p.to_string()).collect();
        assert_eq!(ours, theirs);
    }
}

#[test]
fn leading_word_is_the_first_field_of_the_trimmed_text() {
    assert_eq!(text_of(leading_word(&chars("12345.67 54321.00\n"))), "12345.67");
    assert_eq!(text_of(leading_word(&chars("  0.52 0.40 0.35 1/234 5678\n"))), "0.52");
    assert_eq!(text_of(leading_word(&chars("single"))), "single");
    assert_eq!(text_of(leading_word(&chars(""))), "");
    assert_eq!(text_of(leading_word(&chars("a\tb c"))), "a\tb");
}

#[test]
fn has_prefix_examples() {
    assert!(has_prefix(&chars("MemTotal:  1 kB"), &chars("MemTotal")));
    assert!(has_prefix(&chars("MemTotal"), &chars("MemTotal")));
    assert!(has_prefix(&chars("anything"), &chars("")));
    assert!(!has_prefix(&chars("MemTota"), &chars("MemTotal")));
    assert!(!has_prefix(&chars(" MemTotal"), &chars("MemTotal")));
    assert!(!has_prefix(&chars("MemFree: 1"), &chars("MemTotal")));
    assert!(!has_prefix(&chars(""), &chars("x")));
}

#[test]
fn parse_unsigned_reads_digits() {
    assert_eq!(parse_unsigned(&chars("0")), Some(0));
    assert_eq!(parse_unsigned(&chars("150")), Some(150));
    assert_eq!(parse_unsigned(&chars("007")), Some(7));
    assert_eq!(parse_unsigned(&chars("+42")), Some(42));
    assert_eq!(parse_unsigned(&chars("18446744073709551615")), Some(u64::MAX));
    assert_eq!(parse_unsigned(&chars("00018446744073709551615")), Some(u64::MAX));
}

#[test]
fn parse_unsigned_refuses_what_is_no_number() {
    assert_eq!(parse_unsigned(&chars("")), None);
    assert_eq!(parse_unsigned(&chars("+")), None);
    assert_eq!(parse_unsigned(&chars("-1")), None);
    assert_eq!(parse_unsigned(&chars("++1")), None);
    assert_eq!(parse_unsigned(&chars("1+")), None);
    assert_eq!(parse_unsigned(&chars("12a")), None);
    assert_eq!(parse_unsigned(&chars(" 12")), None);
    assert_eq!(parse_unsigned(&chars("1.5")), None);
    assert_eq!(parse_unsigned(&chars("\u{661}")), None);
}

#[test]
fn parse_unsigned_refuses_what_does_not_fit() {
    assert_eq!(parse_unsigned(&chars("18446744073709551616")), None);
    assert_eq!(parse_unsigned(&chars("99999999999999999999")), None);
    assert_eq!(parse_unsigned(&chars("184467440737095516150")), None);
}

#[test]
fn parse_unsigned_agrees_with_std() {
    for text in ["", "0", "+0", "-0", "12", "+", "1 ", "18446744073709551615", "18446744073709551616", "0x10", "1_000"] {
        assert_eq!(parse_unsigned(&chars(text)), text.parse::<u64>().ok(), "{:?}", text);
    }
}

#[test]
fn digits_only_examples() {
    assert!(digits_only(&chars("")));
    assert!(digits_only(&chars("0123456789")));
    assert!(!digits_only(&chars("12a")));
    assert!(!digits_only(&chars("+1")));
    assert!(!digits_only(&chars("1.5")));
    assert!(!digits_only(&chars(" ")));
    assert!(!digits_only(&chars("\u{662}")));
    assert!(!digits_only(&chars("/")));
    assert!(!digits_only(&chars(":")));
}

#[test]
fn parse_thousandths_reads_digits_and_point() {
    assert_eq!(parse_thousandths(&chars("1.0")), Ok(1000));
    assert_eq!(parse_thousandths(&chars("12345.67")), Ok(12345670));
    assert_eq!(parse_thousandths(&chars("0.52")), Ok(520));
    assert_eq!(parse_thousandths(&chars("7")), Ok(7000));
    assert_eq!(parse_thousandths(&chars("7.")), Ok(7000));
    assert_eq!(parse_thousandths(&chars(".5")), Ok(500));
    assert_eq!(parse_thousandths(&chars("+2.50")), Ok(2500));
    assert_eq!(parse_thousandths(&chars("0.000")), Ok(0));
    assert_eq!(parse_thousandths(&chars("0.123")), Ok(123));
    assert_eq!(parse_thousandths(&chars("007.1")), Ok(7100));
}

#[test]
fn parse_thousandths_cuts_off_beyond_the_third_place() {
    assert_eq!(parse_thousandths(&chars("0.1239")), Ok(123));
    assert_eq!(parse_thousandths(&chars("0.0009")), Ok(0));
    assert_eq!(parse_thousandths(&chars("1.00000000000000000000")), Ok(1000));
    assert_eq!(parse_thousandths(&chars("3.14159265358979323846264338327950288")), Ok(3141));
    assert_eq!(parse_thousandths(&chars("1.9999999999999999999999999")), Ok(1999));
}

#[test]
fn parse_thousandths_refuses_what_is_no_number() {
    for text in ["", ".", "+", "+.", "1.2.3", "1..2", "-1.5", "1,5", "1.5 ", "1e3", "abc", "1.x", "x.1"] {
        assert_eq!(parse_thousandths(&chars(text)), Err(Misread::Malformed), "{:?}", text);
    }
}

#[test]
fn parse_thousandths_refuses_a_whole_part_that_does_not_fit() {
    assert_eq!(
        parse_thousandths(&chars("18446744073709551615.999")),
        Ok(1000 * (u64::MAX as u128) + 999)
    );
    assert_eq!(parse_thousandths(&chars("18446744073709551616")), Err(Misread::TooLarge));
    assert_eq!(parse_thousandths(&chars("18446744073709551616.0")), Err(Misread::TooLarge));
    assert_eq!(parse_thousandths(&chars("99999999999999999999999.5")), Err(Misread::TooLarge));
    assert_eq!(parse_thousandths(&chars("99999999999999999999999.x")), Err(Misread::Malformed));
}
