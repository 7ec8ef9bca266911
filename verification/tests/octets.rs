use route_summary::octets::{dotted_string, parse_octet_fields};
use route_summary::{parse_octets, IPv4Address};

#[test]
fn parse_octets_puts_the_first_octet_in_the_top_byte() {
    assert_eq!(parse_octets("1.2.3.4"), Some(0x0102_0304));
    assert_eq!(parse_octets("192.168.1.5"), Some(0xc0a8_0105));
    assert_eq!(parse_octets("10.0.0.0"), Some(0x0a00_0000));
    assert_eq!(parse_octets("0.0.0.1"), Some(1));
    assert_eq!(parse_octets("128.0.0.0"), Some(0x8000_0000));
}

#[test]
fn parse_octets_reads_the_extremes() {
    assert_eq!(parse_octets("0.0.0.0"), Some(0));
    assert_eq!(parse_octets("255.255.255.255"), Some(u32::MAX));
}

#[test]
fn parse_octets_wants_exactly_four_fields() {
    assert_eq!(parse_octets("1.2.3"), None);
    assert_eq!(parse_octets("1.2.3.4.5"), None);
    assert_eq!(parse_octets("1"), None);
    assert_eq!(parse_octets(""), None);
    assert_eq!(parse_octets("1.2.3.4."), None);
    assert_eq!(parse_octets(".1.2.3.4"), None);
    assert_eq!(parse_octets("..."), None);
}

#[test]
fn parse_octets_wants_every_field_to_be_an_octet() {
    assert_eq!(parse_octets("256.1.1.1"), None);
    assert_eq!(parse_octets("1.1.1.256"), None);
    assert_eq!(parse_octets("1..2.3"), None);
    assert_eq!(parse_octets("a.b.c.d"), None);
    assert_eq!(parse_octets("1.2.3.-4"), None);
    assert_eq!(parse_octets("1.2.3.4 "), None);
    assert_eq!(parse_octets(" 1.2.3.4"), None);
    assert_eq!(parse_octets("1.2.3.0x4"), None);
    assert_eq!(parse_octets("1.2.3.99999999999999999999"), None);
}

#[test]
fn parse_octets_takes_signs_and_leading_zeros() {
    assert_eq!(parse_octets("+1.02.003.0004"), Some(0x0102_0304));
    assert_eq!(parse_octets("000.000.000.000"), Some(0));
}

#[test]
fn parse_octets_agrees_with_parsing_each_field_as_u8() {
    let fields = ["0", "1", "255", "256", "+7", "07", "", "x", "-1", " 1"];
    for a in fields {
        for b in fields {
            let s = format!("{}.9.{}.{}", a, b, a);
            let expected = match (a.parse::<u8>(), b.parse::<u8>()) {
                (Ok(a), Ok(b)) => Some(u32::from_be_bytes([a, 9, b, a])),
                _ => None,
            };
            assert_eq!(parse_octets(&s), expected, "{:?}", s);
        }
    }
}

#[test]
fn parse_octet_fields_reads_characters() {
    let chars: Vec<char> = "172.16.254.1".chars().collect();
    assert_eq!(parse_octet_fields(&chars), Some(0xac10_fe01));
}

#[test]
fn dotted_string_writes_the_top_byte_first() {
    assert_eq!(dotted_string(0x0102_0304), "1.2.3.4");
    assert_eq!(dotted_string(0xc0a8_0105), "192.168.1.5");
    assert_eq!(dotted_string(0), "0.0.0.0");
    assert_eq!(dotted_string(u32::MAX), "255.255.255.255");
    assert_eq!(dotted_string(0x0a00_0064), "10.0.0.100");
}

#[test]
fn reading_written_octets_gives_the_value_back() {
    let mut value: u32 = 1;
    for _ in 0..2000 {
        assert_eq!(parse_octets(&dotted_string(value)), Some(value));
        value = value.wrapping_mul(1_664_525).wrapping_add(1_013_904_223);
    }
}

#[test]
fn address_round_trip_normalizes() {
    for (given, normal) in [
        ("192.168.1.5", "192.168.1.5"),
        ("010.001.000.255", "10.1.0.255"),
        ("+1.+2.+3.+4", "1.2.3.4"),
        ("0.0.0.0", "0.0.0.0"),
        ("255.255.255.255", "255.255.255.255"),
    ] {
        let address = IPv4Address::parse(given).unwrap();
        assert_eq!(address.to_string(), normal);
        assert_eq!(IPv4Address::parse(&address.to_string()), Some(address));
    }
}

#[test]
fn address_parse_refuses_three_components() {
    assert_eq!(IPv4Address::parse("1.2.3"), None);
}

#[test]
fn address_holds_its_bits() {
    let address = IPv4Address::new(0xc0a8_0100);
    assert_eq!(address.bits(), 0xc0a8_0100);
    assert_eq!(address.to_string(), "192.168.1.0");
    assert_eq!(IPv4Address::parse("192.168.1.0").map(|a| a.bits()), Some(0xc0a8_0100));
}
