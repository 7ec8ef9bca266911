use route_summary::decimal::{decimal_string, parse_bounded};

fn chars(s: &str) -> Vec<char> {
    s.chars().collect()
}

const NUMERALS: [&str; 30] = [
    "",
    "+",
    "-",
    "0",
    "7",
    "007",
    "+5",
    "++5",
    "+-5",
    "-0",
    "-1",
    "32",
    "33",
    "255",
    "256",
    "0255",
    "00000000000000000000000000000255",
    "99999999999999999999",
    "2 5",
    " 1",
    "1 ",
    "1e2",
    "0x10",
    "1_0",
    "1.0",
    "\u{663}",
    "\u{ff11}",
    "+0",
    "+000",
    "12a",
];

#[test]
fn parse_bounded_by_255_agrees_with_u8_from_str() {
    for s in NUMERALS {
        let expected = s.parse::<u8>().ok().map(u32::from);
        assert_eq!(parse_bounded(&chars(s), 255), expected, "{:?}", s);
    }
}

#[test]
fn parse_bounded_by_u32_max_agrees_with_u32_from_str() {
    for s in NUMERALS {
        assert_eq!(parse_bounded(&chars(s), u32::MAX), s.parse::<u32>().ok(), "{:?}", s);
    }
    assert_eq!(parse_bounded(&chars("4294967295"), u32::MAX), Some(u32::MAX));
    assert_eq!(parse_bounded(&chars("4294967296"), u32::MAX), None);
    assert_eq!(parse_bounded(&chars("42949672950"), u32::MAX), None);
}

#[test]
fn parse_bounded_reads_every_octet() {
    for n in 0u32..=255 {
        assert_eq!(parse_bounded(&chars(&n.to_string()), 255), Some(n));
    }
}

#[test]
fn parse_bounded_refuses_what_exceeds_the_limit() {
    assert_eq!(parse_bounded(&chars("32"), 32), Some(32));
    assert_eq!(parse_bounded(&chars("33"), 32), None);
    assert_eq!(parse_bounded(&chars("0"), 0), Some(0));
    assert_eq!(parse_bounded(&chars("1"), 0), None);
    assert_eq!(parse_bounded(&chars("300"), 255), None);
}

#[test]
fn parse_bounded_takes_the_first_digit_as_most_significant() {
    assert_eq!(parse_bounded(&chars("123"), 255), Some(123));
    assert_eq!(parse_bounded(&chars("+120"), 255), Some(120));
    assert_eq!(parse_bounded(&chars("021"), 255), Some(21));
}

#[test]
fn decimal_string_agrees_with_display() {
    for n in (0u32..=1000).chain([9999, 10_000, 65_535, 1_000_000, 4_294_967_295]) {
        assert_eq!(decimal_string(n), n.to_string());
    }
}

#[test]
fn decimal_string_has_no_leading_zeros() {
    assert_eq!(decimal_string(0), "0");
    assert_eq!(decimal_string(10), "10");
    assert_eq!(decimal_string(105), "105");
}

#[test]
fn reading_a_written_number_gives_it_back() {
    for n in [0u32, 1, 9, 10, 99, 100, 255, 256, 65_536, 4_294_967_295] {
        assert_eq!(parse_bounded(&chars(&decimal_string(n)), u32::MAX), Some(n));
    }
}
