//! The layout of a hexdump.

use rawio::hexdump::{self, offset_width, Hexdump, LINE};

fn render(start: u64, data: &[u8], squeeze: bool, chunk: usize) -> String {
    let mut out = String::new();
    let mut dump = Hexdump::new(start, start + data.len() as u64, squeeze);
    for piece in data.chunks(chunk) {
        dump.push(piece, &mut out).unwrap();
    }
    dump.finish(&mut out).unwrap();
    out
}

/// The output is only worth anything if it is the output every reader
/// already knows; this is `hexdump -C` of the same bytes.
#[test]
fn a_line_is_what_hexdump_c_prints() {
    let bytes = b"\xeb\x3c\x90MSDOS5.0\x00\x02\x08\x20\x00";

    assert_eq!(
        hexdump::line(0, 8, bytes),
        "00000000  eb 3c 90 4d 53 44 4f 53  35 2e 30 00 02 08 20 00  |.<.MSDOS5.0... .|"
    );
}

/// The character column has to stay where it was, or a short last line
/// makes the whole dump unreadable.
#[test]
fn a_short_line_keeps_the_character_column() {
    let full = hexdump::line(0, 8, &[0u8; LINE]);
    let short = hexdump::line(0x50, 8, b"abc");

    assert_eq!(short.find('|'), full.find('|'));
    assert!(short.ends_with("|abc|"), "{short}");
}

/// Anything outside printable ASCII is a dot, including the high half no
/// terminal agrees on.
#[test]
fn only_printable_ascii_reaches_the_character_column() {
    let bytes: Vec<u8> = vec![0x00, 0x1f, 0x20, 0x7e, 0x7f, 0x80, 0xff, b'A'];
    let rendered = hexdump::line(0, 8, &bytes);

    assert!(rendered.ends_with("|.. ~...A|"), "{rendered}");
}

#[test]
fn the_last_line_is_the_offset_the_dump_stopped_at() {
    let out = render(0x50, b"abc", true, 16);

    assert_eq!(
        out,
        "00000050  61 62 63                                          |abc|\n00000053\n"
    );
}

/// A card is mostly one repeated byte; printing every line of it hides the
/// three that matter.
#[test]
fn a_run_of_identical_lines_collapses_to_a_star() {
    let mut data = vec![0u8; LINE * 4];
    data[LINE * 3] = 0xff;

    let out = render(0, &data, true, 16);
    let lines: Vec<&str> = out.lines().collect();

    assert_eq!(lines.len(), 4, "{out}");
    assert!(lines[0].starts_with("00000000  00 00"), "{out}");
    assert_eq!(lines[1], "*");
    assert!(lines[2].starts_with("00000030  ff 00"), "{out}");
    assert_eq!(lines[3], "00000040");
}

#[test]
fn nothing_collapses_when_the_squeeze_is_off() {
    let out = render(0, &[0u8; LINE * 4], false, 16);

    assert_eq!(out.lines().count(), 5, "{out}");
    assert!(!out.contains('*'), "{out}");
}

/// The device hands over whatever the read returned, which has nothing to
/// do with 16.
#[test]
fn chunks_that_do_not_land_on_a_line_boundary_still_print_whole_lines() {
    let data: Vec<u8> = (0..100u8).collect();

    let whole = render(0, &data, true, 100);
    for chunk in [1, 3, 7, 16, 33] {
        assert_eq!(render(0, &data, true, chunk), whole, "chunk {chunk}");
    }
}

/// A dump that crosses four gibibytes must not change column halfway.
#[test]
fn the_offset_column_is_wide_enough_for_the_whole_dump() {
    assert_eq!(offset_width(0), 8);
    assert_eq!(offset_width(u64::from(u32::MAX)), 8);
    assert_eq!(offset_width(u64::from(u32::MAX) + 1), 16);

    let out = render(0xffff_fff0, &[0u8; LINE * 2], true, 32);
    let widths: Vec<usize> = out
        .lines()
        .filter(|l| *l != "*")
        .map(|l| l.split_whitespace().next().unwrap().len())
        .collect();

    assert!(widths.iter().all(|w| *w == 16), "{out}");
}

/// Two pushes print what one push of both would.
#[test]
fn the_cuts_between_pushes_do_not_show() {
    let data: Vec<u8> = (0..200u8).collect();
    for cut in [0, 1, 15, 16, 17, 100, 200] {
        let (first, second) = data.split_at(cut);
        let (mut apart, mut whole) = (String::new(), String::new());
        let mut one = Hexdump::new(0, 200, true);
        one.push(first, &mut apart).unwrap();
        one.push(second, &mut apart).unwrap();
        let mut other = Hexdump::new(0, 200, true);
        other.push(&data, &mut whole).unwrap();
        assert_eq!(apart, whole, "{cut}");
    }
}

#[test]
fn the_columns_of_a_dump_do_not_move() {
    for (offset, end) in [(0u64, 0x40u64), (0x30, 0x40), (0x30, 1 << 33), (1 << 32, 1 << 33)] {
        let width = offset_width(end);
        for len in 0..=LINE {
            let line = hexdump::line(offset, width, &vec![b'|'; len]);
            assert_eq!(line.find('|'), Some(width + 2 + hexdump::FIELD + 1), "{line}");
            assert_eq!(line.len(), width + 2 + hexdump::FIELD + 2 + len + 1, "{line}");
        }
    }
}

/// An empty dump says where it stopped and nothing else.
#[test]
fn an_empty_dump_is_its_last_offset() {
    assert_eq!(render(0x200, &[], true, 16), "00000200\n");
}
