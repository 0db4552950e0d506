use std::str::FromStr;

use bytesize::{ByteSizeIec, ByteSizeSi, Error, GB, KB, KIB, MIB};

#[test]
fn test_parse_int_si() {
    assert_eq!(ByteSizeSi::from_str("999"), Ok(ByteSizeSi(999)));
    assert_eq!(ByteSizeSi::from_str("999B"), Ok(ByteSizeSi::b(999u64)));
    assert_eq!(ByteSizeSi::from_str("999kB"), Ok(ByteSizeSi::kb(999)));
    assert_eq!(ByteSizeSi::from_str("999MB"), Ok(ByteSizeSi::mb(999)));
    assert_eq!(ByteSizeSi::from_str("999GB"), Ok(ByteSizeSi::gb(999)));
    assert_eq!(ByteSizeSi::from_str("999TB"), Ok(ByteSizeSi::tb(999)));
    assert_eq!(ByteSizeSi::from_str("999PB"), Ok(ByteSizeSi::pb(999)));
    assert_eq!(ByteSizeSi::from_str("18EB"), Ok(ByteSizeSi::eb(18)));
}

#[test]
fn test_parse_float_si() {
    let expected = 114.514 * KB as f64;
    assert_eq!(ByteSizeSi::from_str("114.514KB"), Ok(ByteSizeSi::b(expected as u64)));

    let expected = 0.1919810 * GB as f64;
    assert_eq!(ByteSizeSi::from_str("0.1919810GB"), Ok(ByteSizeSi::b(expected as u64)));
}

#[test]
fn test_parse_max_si() {
    let size = ByteSizeSi::from_str("18.4EB").unwrap();
    assert!(size < ByteSizeSi(u64::MAX));

    let size = ByteSizeSi::from_str("18.5EB").unwrap();
    assert_eq!(size, ByteSizeSi(u64::MAX));

    let size = ByteSizeSi::from_str("114514.0EB").unwrap();
    assert_eq!(size, ByteSizeSi(u64::MAX));
}

#[test]
fn test_parse_int_iec() {
    assert_eq!(ByteSizeIec::from_str("1023"), Ok(ByteSizeIec(1023)));
    assert_eq!(ByteSizeIec::from_str("1023B"), Ok(ByteSizeIec::b(1023u64)));
    assert_eq!(ByteSizeIec::from_str("1023KiB"), Ok(ByteSizeIec::kib(1023)));
    assert_eq!(ByteSizeIec::from_str("1023MiB"), Ok(ByteSizeIec::mib(1023)));
    assert_eq!(ByteSizeIec::from_str("1023GiB"), Ok(ByteSizeIec::gib(1023)));
    assert_eq!(ByteSizeIec::from_str("1023TiB"), Ok(ByteSizeIec::tib(1023)));
    assert_eq!(ByteSizeIec::from_str("1023PiB"), Ok(ByteSizeIec::pib(1023)));
    assert_eq!(ByteSizeIec::from_str("15EiB"), Ok(ByteSizeIec::eib(15)));
}

#[test]
fn test_parse_float_iec() {
    let expected = 114.514 * KIB as f64;
    assert_eq!(ByteSizeIec::from_str("114.514KiB"), Ok(ByteSizeIec::b(expected as u64)));

    let expected = 0.1919810 * MIB as f64;
    assert_eq!(ByteSizeIec::from_str("0.1919810MiB"), Ok(ByteSizeIec::b(expected as u64)));
}

#[test]
fn test_parse_max_iec() {
    let size = ByteSizeIec::from_str("15.9EiB").unwrap();
    assert!(size < ByteSizeIec(u64::MAX));

    let size = ByteSizeIec::from_str("16.0EiB").unwrap();
    assert_eq!(size, ByteSizeIec(u64::MAX));

    let size = ByteSizeIec::from_str("114514.0EiB").unwrap();
    assert_eq!(size, ByteSizeIec(u64::MAX));
}

#[test]
fn test_parse_min() {
    assert_eq!(ByteSizeSi::from_str("0B"), Ok(ByteSizeSi(u64::MIN)));
    assert_eq!(ByteSizeSi::from_str("0.9B"), Ok(ByteSizeSi(u64::MIN)));

    assert_eq!(ByteSizeIec::from_str("0B"), Ok(ByteSizeIec(u64::MIN)));
    assert_eq!(ByteSizeIec::from_str("0.9B"), Ok(ByteSizeIec(u64::MIN)));
}

#[test]
fn test_parse_with_mid_spaces() {
    assert_eq!(ByteSizeSi::from_str("114.514 kB"), Ok(ByteSizeSi(114514)));
    assert_eq!(ByteSizeIec::from_str("114.514    KiB"), Ok(ByteSizeIec(117262)));
    assert_eq!(ByteSizeSi::from_str("114.514\tKB"), Err(Error::Unit));
}

#[test]
fn test_cross_parse() {
    assert_eq!(ByteSizeIec::from_str("114.514 KB"), Ok(ByteSizeIec(114514)));
    assert_eq!(ByteSizeSi::from_str("5.5 GiB"), Ok(ByteSizeSi::b(5632 * MIB)));
}

#[test]
fn test_parse_error() {
    assert_eq!(ByteSizeIec::from_str("114.514"), Err(Error::Invalid));
    assert_eq!(ByteSizeSi::from_str("114.514 "), Err(Error::Unit));
    assert_eq!(ByteSizeSi::from_str(""), Err(Error::Empty));
    assert_eq!(ByteSizeSi::from_str(".123GB"), Err(Error::Invalid));
    assert_eq!(ByteSizeSi::from_str("2.5E10 B"), Err(Error::Unit));
    assert_eq!(ByteSizeIec::from_str("11. TiB"), Err(Error::Invalid));
    assert_eq!(ByteSizeIec::from_str("-9MiB"), Err(Error::Invalid));
    assert_eq!(ByteSizeSi::from_str("inf B"), Err(Error::Invalid));
}

#[test]
fn oversized_whole_number_with_unit_saturates() {
    assert_eq!(ByteSizeSi::from_str("19EB"), Ok(ByteSizeSi(u64::MAX)));
    assert_eq!(ByteSizeIec::from_str("17EiB"), Ok(ByteSizeIec(u64::MAX)));
    assert_eq!(ByteSizeSi::from_str("18446744073709551615kB"), Ok(ByteSizeSi(u64::MAX)));
}

#[test]
fn whole_number_with_unit_is_exact_product() {
    assert_eq!(ByteSizeSi::parse("7kB"), Ok(ByteSizeSi(7_000)));
    assert_eq!(ByteSizeSi::parse("7 K"), Ok(ByteSizeSi(7_000)));
    assert_eq!(ByteSizeIec::parse("3Gi"), Ok(ByteSizeIec(3 * 1_073_741_824)));
    assert_eq!(ByteSizeIec::parse("18446744073709551615B"), Ok(ByteSizeIec(u64::MAX)));
    assert_eq!(ByteSizeSi::parse("1e"), Ok(ByteSizeSi(1_000_000_000_000_000_000)));
}

#[test]
fn bare_numbers_are_bytes() {
    assert_eq!(bytesize::parse_byte_size("0"), Ok(0));
    assert_eq!(bytesize::parse_byte_size("18446744073709551615"), Ok(u64::MAX));
    assert_eq!(bytesize::parse_byte_size("007"), Ok(7));
}

#[test]
fn oversized_integer_mantissa_is_invalid() {
    assert_eq!(bytesize::parse_byte_size("18446744073709551616"), Err(Error::Invalid));
    assert_eq!(bytesize::parse_byte_size("99999999999999999999B"), Err(Error::Invalid));
    assert_eq!(bytesize::parse_byte_size("99999999999999999999X"), Err(Error::Invalid));
}

#[test]
fn oversized_fractional_mantissa_saturates() {
    assert_eq!(bytesize::parse_byte_size("99999999999999999999.5B"), Ok(u64::MAX));
    assert_eq!(bytesize::parse_byte_size("18446744073709551615.9B"), Ok(u64::MAX));
    assert_eq!(bytesize::parse_byte_size("18446744073709551614.9B"), Ok(u64::MAX - 1));
}

#[test]
fn fractions_truncate_toward_zero() {
    assert_eq!(bytesize::parse_byte_size("0.999999999999999999999999B"), Ok(0));
    assert_eq!(bytesize::parse_byte_size("1.9999kB"), Ok(1999));
    assert_eq!(bytesize::parse_byte_size("0.0001KiB"), Ok(0));
    assert_eq!(bytesize::parse_byte_size("0.001KiB"), Ok(1));
    assert_eq!(bytesize::parse_byte_size("2.5 MiB"), Ok(2_621_440));
}

#[test]
fn units_ignore_ascii_case() {
    assert_eq!(bytesize::parse_byte_size("5KIB"), Ok(5 * 1024));
    assert_eq!(bytesize::parse_byte_size("5kib"), Ok(5 * 1024));
    assert_eq!(bytesize::parse_byte_size("5 gB"), Ok(5_000_000_000));
    assert_eq!(bytesize::parse_byte_size("5b"), Ok(5));
}

#[test]
fn unit_errors() {
    assert_eq!(bytesize::parse_byte_size("5 "), Err(Error::Unit));
    assert_eq!(bytesize::parse_byte_size("5x"), Err(Error::Unit));
    assert_eq!(bytesize::parse_byte_size("5kbb"), Err(Error::Unit));
    assert_eq!(bytesize::parse_byte_size("5ib"), Err(Error::Unit));
    assert_eq!(bytesize::parse_byte_size("5 +kB"), Err(Error::Unit));
    assert_eq!(bytesize::parse_byte_size("1.5\u{a0}kB"), Err(Error::Unit));
}

#[test]
fn parse_unit_table() {
    assert_eq!(bytesize::parse_unit(&['b']), Ok(1));
    assert_eq!(bytesize::parse_unit(&['M', 'b']), Ok(1_000_000));
    assert_eq!(bytesize::parse_unit(&['T', 'i']), Ok(1_099_511_627_776));
    assert_eq!(bytesize::parse_unit(&['p', 'I', 'B']), Ok(1_125_899_906_842_624));
    assert_eq!(bytesize::parse_unit(&['E']), Ok(1_000_000_000_000_000_000));
    assert_eq!(bytesize::parse_unit(&[]), Err(Error::Unit));
    assert_eq!(bytesize::parse_unit(&['b', 'i']), Err(Error::Unit));
    assert_eq!(bytesize::parse_unit(&['x', 'b']), Err(Error::Unit));
}

#[test]
fn error_messages() {
    assert_eq!(Error::Empty.message(), "cannot parse bytesize from empty string");
    assert_eq!(Error::Invalid.message(), "invalid number found in string");
    assert_eq!(Error::Unit.message(), "cannot recognize byte unit in string");
}

#[test]
fn kelvin_sign_lowers_to_k() {
    assert_eq!(bytesize::parse_byte_size("5\u{212A}B"), Ok(5_000));
    assert_eq!(bytesize::parse_byte_size("5\u{212A}iB"), Ok(5 * 1024));
    assert_eq!(ByteSizeSi::from_str("2 \u{212A}"), Ok(ByteSizeSi(2_000)));
    assert_eq!(bytesize::parse_unit(&['\u{212A}', 'I']), Ok(1024));
    assert_eq!(bytesize::parse_unit(&['\u{212A}', '\u{212A}']), Err(Error::Unit));
}
