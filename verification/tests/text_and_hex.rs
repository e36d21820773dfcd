use mcbot::text::decimal_string;
use mcbot::text::parse_decimal_u32;
use mcbot::useful::hex;
use mcbot::useful::hex_one_char;

#[test]
fn hex_renders_both_nibbles() {
    assert_eq!(hex(0xAB), ['A', 'B']);
    assert_eq!(hex(0x00), ['0', '0']);
    assert_eq!(hex(0xFF), ['F', 'F']);
    assert_eq!(hex(0x1F), ['1', 'F']);
}

#[test]
fn hex_one_char_covers_digits_and_letters() {
    assert_eq!(hex_one_char(0), Some('0'));
    assert_eq!(hex_one_char(9), Some('9'));
    assert_eq!(hex_one_char(10), Some('A'));
    assert_eq!(hex_one_char(15), Some('F'));
    assert_eq!(hex_one_char(16), None);
    assert_eq!(hex_one_char(255), None);
}

#[test]
fn decimal_string_matches_to_string() {
    for n in [0u32, 7, 10, 99, 100, 12345, 4294967295] {
        assert_eq!(decimal_string(n), n.to_string());
    }
}

fn chars(s: &str) -> Vec<char> {
    s.chars().collect()
}

#[test]
fn parse_decimal_u32_agrees_with_std() {
    let cases = [
        "", "+", "-", "0", "00", "7", "+7", "-7", "42", "1a", " 1", "1 ", "4294967295", "4294967296",
        "+4294967295", "99999999999", "0004294967295", "٣", "++1",
    ];
    for case in cases {
        assert_eq!(parse_decimal_u32(&chars(case)), case.parse::<u32>().ok(), "input {:?}", case);
    }
}

#[test]
fn decimal_reads_back() {
    for n in [0u32, 1, 9, 10, 65535, 4294967295] {
        assert_eq!(parse_decimal_u32(&chars(&decimal_string(n))), Some(n));
    }
}
