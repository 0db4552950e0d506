use std::str::FromStr;

use bytesize::{format_byte_size, ByteSizeIec, ByteSizeSi, Flavor};

#[test]
fn test_display_si() {
    assert_eq!("725B", &ByteSizeSi::b(725u64).to_string());
    assert_eq!("310.0kB", &ByteSizeSi::kb(310).to_string());
    assert_eq!("18.7MB", &ByteSizeSi::kb(18666).to_string());
    assert_eq!("806.2GB", &ByteSizeSi::mb(806233).to_string());
    assert_eq!("25.3TB", &ByteSizeSi::gb(25270).to_string());
    assert_eq!("12.7PB", &ByteSizeSi::tb(12722).to_string());
    assert_eq!("18.0EB", &ByteSizeSi::eb(18).to_string());
}

#[test]
fn test_display_iec() {
    assert_eq!("523B", &ByteSizeIec(523).to_string());
    assert_eq!("1.2KiB", &ByteSizeIec(1228).to_string());
    assert_eq!("7.8MiB", &ByteSizeIec::kib(7987).to_string());
    assert_eq!("91.5GiB", &ByteSizeIec::mib(93696).to_string());
    assert_eq!("290.8TiB", &ByteSizeIec::gib(297779).to_string());
    assert_eq!("477.9PiB", &ByteSizeIec::tib(489369).to_string());
    assert_eq!("15.0EiB", &ByteSizeIec::eib(15).to_string());
}

#[test]
fn small_counts_are_plain_bytes() {
    assert_eq!(format_byte_size(0, Flavor::Decimal), "0B");
    assert_eq!(format_byte_size(0, Flavor::Binary), "0B");
    assert_eq!(format_byte_size(999, Flavor::Decimal), "999B");
    assert_eq!(format_byte_size(1000, Flavor::Binary), "1000B");
    assert_eq!(format_byte_size(1023, Flavor::Binary), "1023B");
}

#[test]
fn step_boundaries() {
    assert_eq!(format_byte_size(1000, Flavor::Decimal), "1.0kB");
    assert_eq!(format_byte_size(1024, Flavor::Binary), "1.0KiB");
    assert_eq!(format_byte_size(1_000_000, Flavor::Decimal), "1.0MB");
    assert_eq!(format_byte_size(u64::MAX, Flavor::Decimal), "18.4EB");
    assert_eq!(format_byte_size(u64::MAX, Flavor::Binary), "16.0EiB");
}

#[test]
fn rounding_to_one_digit() {
    assert_eq!(format_byte_size(1049, Flavor::Decimal), "1.0kB");
    assert_eq!(format_byte_size(1051, Flavor::Decimal), "1.1kB");
    assert_eq!(format_byte_size(1280, Flavor::Binary), "1.2KiB");
    assert_eq!(format_byte_size(1_150, Flavor::Decimal), "1.2kB");
    assert_eq!(format_byte_size(999_999, Flavor::Decimal), "1000.0kB");
}

#[test]
fn format_parse_format_is_stable() {
    let counts: [u64; 9] = [0, 999, 1000, 18_666_000, 1228, 93_696 * 1024 * 1024, 123_456_789_012, u64::MAX - 1, u64::MAX];
    for &v in counts.iter() {
        let text = ByteSizeSi(v).to_string();
        assert_eq!(ByteSizeSi::from_str(&text).unwrap().to_string(), text);
        let text = ByteSizeIec(v).to_string();
        assert_eq!(ByteSizeIec::from_str(&text).unwrap().to_string(), text);
    }
}

#[test]
fn round_trip_fails_only_where_rounding_carries() {
    let text = ByteSizeSi(999_999).to_string();
    assert_eq!(text, "1000.0kB");
    assert_eq!(ByteSizeSi::from_str(&text).unwrap().to_string(), "1.0MB");
}
