use blktopo::device::Devno;

#[test]
fn parse_major_minor_round_trip() {
    let d = Devno::from_str("8:0").unwrap();
    assert_eq!(d.major(), 8);
    assert_eq!(d.minor(), 0);
    assert_eq!(d.format(), "8:0");
}

#[test]
fn parse_larger_numbers_round_trip() {
    let d = Devno::from_str("259:65535").unwrap();
    assert_eq!(d.major(), 259);
    assert_eq!(d.minor(), 65535);
    assert_eq!(d.format(), "259:65535");
}

#[test]
fn parse_raw_dev_t() {
    // 2048 is the packed form of major 8, minor 0.
    let d = Devno::from_str("2048").unwrap();
    assert_eq!(d.major(), 8);
    assert_eq!(d.minor(), 0);
    assert_eq!(d.raw(), 2048);
}

#[test]
fn pack_and_unpack_parts() {
    let d = Devno::from((8u32, 1u32));
    assert_eq!(d.major(), 8);
    assert_eq!(d.minor(), 1);
    let e = Devno::from(d.raw());
    assert_eq!(d, e);
}

#[test]
fn pack_matches_linux_layout() {
    // Large major and minor exercise the split bit fields.
    let d = Devno::from((0xabcde, 0x123456));
    assert_eq!(d.major(), 0xabcde);
    assert_eq!(d.minor(), 0x123456);
    assert_eq!(d.format(), format!("{}:{}", 0xabcdeu32, 0x123456u32));
}

#[test]
fn noncanonical_input_formats_canonically() {
    // A redundant leading zero parses, but formatting yields the
    // canonical rendering, not the original text.
    let d = Devno::from_str("08:0").unwrap();
    assert_eq!(d.major(), 8);
    assert_eq!(d.format(), "8:0");
}

#[test]
fn reject_malformed() {
    assert!(Devno::from_str("").is_err());
    assert!(Devno::from_str("abc").is_err());
    assert!(Devno::from_str("8:").is_err());
    assert!(Devno::from_str(":0").is_err());
    assert!(Devno::from_str("8:0:1").is_err());
    assert!(Devno::from_str("8 :0").is_err());
}

#[test]
fn reject_out_of_range() {
    assert!(Devno::from_str("4294967296:0").is_err());
    assert!(Devno::from_str("0:4294967296").is_err());
    assert!(Devno::from_str("99999999999999999999").is_err());
}

#[test]
fn ordering_follows_raw_value() {
    let a = Devno::from(5u64);
    let b = Devno::from(9u64);
    assert!(a < b);
    assert!(a == Devno::from(5u64));
}
