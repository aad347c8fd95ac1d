//! The argument surface: defaults, spellings and sizes.

use rawio::cli::{
    parse_size, Command, HexArgs, Location, PartsArgs, PitArgs, PitSource, SchemeArg, TableSource,
    DEFAULT_HEX_LENGTH,
};
use rawio::pit::DEFAULT_SCAN_BUDGET;

fn at(offset: u64) -> Location {
    Location { offset: Some(offset), partition: None, partition_id: None }
}

/// The default has to be the one that reads what is really there; a wrong
/// table resolving to a plausible range is what costs a card.
#[test]
fn the_scheme_defaults_to_auto() {
    let command = Command::Parts(PartsArgs { device: "d".into(), table: TableSource::default() });
    let Command::Parts(args) = command else {
        panic!("expected parts")
    };

    assert_eq!(args.table.scheme, SchemeArg::Auto);
    assert_eq!(args.table.pit_source.pit_offset, None);
    assert_eq!(args.table.pit_source.pit_scan, DEFAULT_SCAN_BUDGET);
}

#[test]
fn every_scheme_is_spelled_the_way_the_output_spells_it() {
    for (given, expected) in [
        ("auto", SchemeArg::Auto),
        ("mbr", SchemeArg::Mbr),
        ("gpt", SchemeArg::Gpt),
        ("pit", SchemeArg::Pit),
    ] {
        assert_eq!(SchemeArg::named(given), Some(expected), "{given}");
    }
    assert!(SchemeArg::named("ebr").is_none());
    assert!(SchemeArg::named("").is_none());
    assert!(SchemeArg::named("mbrs").is_none());
}

/// The offset is what the search exists to avoid needing.
#[test]
fn the_pit_offset_is_optional() {
    let command = Command::Pit(PitArgs { device: "d".into(), pit_source: PitSource::default() });
    let Command::Pit(args) = command else {
        panic!("expected pit")
    };

    assert_eq!(args.pit_source.pit_offset, None);
}

/// A hexdump is opened to look at one structure; defaulting to a whole
/// partition would print gigabytes at a terminal.
#[test]
fn a_hexdump_prints_one_sector_unless_told_otherwise() {
    let command = Command::Hex(HexArgs::new("d".into(), at(0), TableSource::default()));
    let Command::Hex(args) = command else {
        panic!("expected hex")
    };

    assert_eq!(args.length, DEFAULT_HEX_LENGTH);
    assert!(!args.no_squeeze);
}

#[test]
fn sizes_accept_decimal_hex_and_suffixes() {
    assert_eq!(parse_size("512").unwrap(), 512);
    assert_eq!(parse_size("0x200").unwrap(), 512);
    assert_eq!(parse_size("4K").unwrap(), 4096);
    assert_eq!(parse_size("2M").unwrap(), 2 << 20);
    assert_eq!(parse_size("1g").unwrap(), 1 << 30);
}

#[test]
fn sizes_reject_junk_and_overflow() {
    assert!(parse_size("-1").is_err());
    assert!(parse_size("12x").is_err());
    assert!(parse_size("18446744073709551615G").is_err());
}

/// Underscores group digits, blanks around are nobody's business, and `+` is a
/// sign like any other number may carry.
#[test]
fn sizes_forgive_what_a_person_types() {
    assert_eq!(parse_size(" 1_048_576 ").unwrap(), 1 << 20);
    assert_eq!(parse_size("4 K").unwrap(), 4096);
    assert_eq!(parse_size("0X1be").unwrap(), 446);
    assert_eq!(parse_size("+7").unwrap(), 7);
    assert_eq!(parse_size("18446744073709551615").unwrap(), u64::MAX);
    assert_eq!(parse_size("17179869183G").unwrap(), 17179869183 << 30);
}

/// The message quotes what was typed.
#[test]
fn a_refused_size_is_quoted() {
    assert_eq!(parse_size("12x").unwrap_err(), "\"12x\" is not a byte count");
    assert_eq!(parse_size("").unwrap_err(), "\"\" is not a byte count");
    assert_eq!(parse_size("a\"b\n").unwrap_err(), "\"a\\\"b\\n\" is not a byte count");
    assert_eq!(
        parse_size("17179869184G").unwrap_err(),
        "\"17179869184G\" overflows a 64-bit byte count"
    );
}

#[test]
fn a_budget_of_nothing_lifts_the_cap() {
    assert_eq!(PitSource { pit_offset: None, pit_scan: 0 }.scan_budget(), None);
    assert_eq!(PitSource::default().scan_budget(), Some(DEFAULT_SCAN_BUDGET));
}

#[test]
fn a_location_is_given_by_any_of_its_forms() {
    let none = Location { offset: None, partition: None, partition_id: None };
    assert!(none.given().is_none());
    assert!(at(0).given().is_some());
    assert!(Location { partition: Some("LOG".into()), ..none.clone() }.given().is_some());
    assert!(Location { partition_id: Some(1), ..none }.given().is_some());
}

/// What is printed as a size is read as one, and a suffix scales it.
#[test]
fn sizes_read_back() {
    for n in [0u64, 1, 512, 123_456_789, u64::MAX] {
        assert_eq!(parse_size(&n.to_string()), Ok(n));
        assert_eq!(parse_size(&format!("0x{n:x}")), Ok(n));
    }
    for (suffix, shift) in [("K", 10), ("m", 20), ("G", 30)] {
        assert_eq!(parse_size(&format!("3{suffix}")), Ok(3 << shift));
        assert_eq!(parse_size(&format!("0x3{suffix}")), Ok(3 << shift));
    }
}
