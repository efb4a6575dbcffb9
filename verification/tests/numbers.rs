use bvh_anim_parser::number::{check_number, frame_rate_of, read_usize, Number};
use bvh_anim_parser::text::{chars_of, lines_of, tokens_of, trimmed};

fn chars(s: &str) -> Vec<char> {
    s.chars().collect()
}

fn text(v: &Vec<char>) -> String {
    v.iter().collect()
}

fn rate(s: &str) -> u32 {
    frame_rate_of(&chars(s))
}

#[test]
fn numbers_are_recognised() {
    for good in [
        "0", "1", "-1", "+1", "1.", ".5", "-.5", "1.5", "0.008333", "1e5", "1E5", "1e+5", "1.5e-3",
        "inf", "-inf", "+Infinity", "NaN", "nan", "007",
    ] {
        assert!(check_number(&chars(good)), "{}", good);
        assert_eq!(Number::parse(&chars(good)).unwrap().as_str(), good);
    }
    for bad in [
        "", "+", "-", ".", "e5", "1e", "1e+", "1.2.3", "1 ", " 1", "1,5", "0x10", "infinit", "na",
        "--1", "1e5.0", "one",
    ] {
        assert!(!check_number(&chars(bad)), "{}", bad);
        assert!(Number::parse(&chars(bad)).is_none());
    }
}

#[test]
fn zero_literal() {
    assert_eq!(Number::zero().as_str(), "0");
    assert_eq!(Number::zero().clone().as_str(), "0");
    assert_eq!(Number::zero().duplicate(), Number::zero());
}

#[test]
fn unsigned_integers_are_read() {
    assert_eq!(read_usize(&chars("0")), Some(0));
    assert_eq!(read_usize(&chars("598")), Some(598));
    assert_eq!(read_usize(&chars("+7")), Some(7));
    assert_eq!(read_usize(&chars("0012")), Some(12));
    assert_eq!(read_usize(&chars(&usize::MAX.to_string())), Some(usize::MAX));
    assert_eq!(read_usize(&chars("")), None);
    assert_eq!(read_usize(&chars("+")), None);
    assert_eq!(read_usize(&chars("-1")), None);
    assert_eq!(read_usize(&chars("1.0")), None);
    assert_eq!(read_usize(&chars("12a")), None);
    assert_eq!(read_usize(&chars("99999999999999999999999999")), None);
}

#[test]
fn frame_rate_rounds_the_inverse() {
    assert_eq!(rate("0.008333"), 120);
    assert_eq!(rate("0.0083333"), 120);
    assert_eq!(rate("0.0333333"), 30);
    assert_eq!(rate("0.04"), 25);
    assert_eq!(rate("1"), 1);
    assert_eq!(rate("1.0"), 1);
    assert_eq!(rate("0.5"), 2);
    assert_eq!(rate("1e-3"), 1000);
    assert_eq!(rate("10E-4"), 1000);
    assert_eq!(rate("+0.016667"), 60);
    // 1 / 0.3 is 3.33, 1 / 0.7 is 1.43, 1 / 0.4 is 2.5, 1 / 2 is 0.5.
    assert_eq!(rate("0.3"), 3);
    assert_eq!(rate("0.7"), 1);
    assert_eq!(rate("0.4"), 3);
    assert_eq!(rate("2"), 1);
    assert_eq!(rate("2.000001"), 0);
    assert_eq!(rate("3"), 0);
}

#[test]
fn frame_rate_at_the_edges() {
    assert_eq!(rate("0"), u32::MAX);
    assert_eq!(rate("0.000"), u32::MAX);
    assert_eq!(rate("0e5"), u32::MAX);
    assert_eq!(rate("-0"), 0);
    assert_eq!(rate("-0.04"), 0);
    assert_eq!(rate("inf"), 0);
    assert_eq!(rate("nan"), 0);
    assert_eq!(rate("fast"), 0);
    assert_eq!(rate(""), 0);
    assert_eq!(rate("1e-9"), 1_000_000_000);
    assert_eq!(rate("1e-10"), u32::MAX);
    assert_eq!(rate("1e-400"), u32::MAX);
    assert_eq!(rate("1e-99999999999999999999999999999999999999"), u32::MAX);
    assert_eq!(rate("1e400"), 0);
    assert_eq!(rate("1e99999999999999999999999999999999999999"), 0);
    assert_eq!(rate("0.00000000023283064365386962890625"), u32::MAX);
    assert_eq!(rate("0.0000000002328306437"), 4_294_967_295);
    assert_eq!(rate("0.00000000025"), 4_000_000_000);
    assert_eq!(rate("0.0400000000000000000000000000000001"), 25);
    assert_eq!(rate("00000000000000000000000000.04"), 25);
    assert_eq!(rate("40000000000000000000000000e-27"), 25);
}

#[test]
fn frame_rate_reads_every_digit() {
    // 0.4 is the frame time of 2.5 frames a second, which rounds up.
    assert_eq!(rate("0.400000000000000000000000000"), 3);
    assert_eq!(rate("0.40000000000000000000000001"), 2);
    assert_eq!(rate("0.39999999999999999999999999"), 3);
    assert_eq!(rate("4000000000000000000000000000e-28"), 3);
    assert_eq!(rate("4000000000000000000000000001e-28"), 2);
    // One over 120.5 lies between these two.
    assert_eq!(rate("0.008298755186721991701244813278"), 121);
    assert_eq!(rate("0.008298755186721991701244813279"), 120);
    assert_eq!(rate("0.0083330000000000000000000000000000001"), 120);
    assert_eq!(rate("123456789012345678901234567890"), 0);
    assert_eq!(rate("0.00000000000000000000000000000000000000000001"), u32::MAX);
    assert_eq!(rate("0.00000000023283064367922844479995"), u32::MAX);
}

#[test]
fn frame_rate_of_a_literal() {
    assert_eq!(Number::parse(&chars("0.008333")).unwrap().frame_rate(), 120);
    assert_eq!(Number::zero().frame_rate(), u32::MAX);
}

#[test]
fn text_is_split_into_lines() {
    let lines = lines_of(&chars("a\n\nbc\r\n d \n"));
    let lines: Vec<String> = lines.iter().map(text).collect();
    assert_eq!(lines, vec!["a", "", "bc\r", " d "]);
    assert!(lines_of(&chars("")).is_empty());
    assert_eq!(lines_of(&chars("\n")).len(), 1);
    assert_eq!(lines_of(&chars("x")).len(), 1);
    assert_eq!(chars_of("héllo"), chars("héllo"));
}

#[test]
fn lines_are_split_into_tokens() {
    let tokens = tokens_of(&chars("  1.0\t2.0 \u{a0} 3.0\r"));
    let tokens: Vec<String> = tokens.iter().map(text).collect();
    assert_eq!(tokens, vec!["1.0", "2.0", "3.0"]);
    assert!(tokens_of(&chars(" \t ")).is_empty());
    assert_eq!(text(&trimmed(&chars(" \t a b \r\n"))), "a b");
    assert_eq!(text(&trimmed(&chars("   "))), "");
}
