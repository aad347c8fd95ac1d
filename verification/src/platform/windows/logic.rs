//! Windows-specific logic with no syscalls in it, so the whole test suite runs
//! on the development host.

use vstd::prelude::*;
use vstd::slice::*;
use vstd::string::*;

use crate::cli;
use crate::device::Removability;
use crate::number;
use crate::text;

verus! {

/// Win32 error codes that show up on the physical-disk path often enough to be
/// worth naming in the output. The numeric code is always printed too.
pub const ERROR_ACCESS_DENIED: i32 = 5;

pub const ERROR_SHARING_VIOLATION: i32 = 32;

pub const ERROR_WRITE_PROTECT: i32 = 19;

pub const ERROR_INVALID_PARAMETER: i32 = 87;

pub const ERROR_DEVICE_NOT_CONNECTED: i32 = 1167;

pub const ERROR_DEVICE_REMOVED: i32 = 1617;

/// `STORAGE_BUS_TYPE` values kept for classification.
pub const BUS_TYPE_USB: u32 = 0x07;

pub const BUS_TYPE_SD: u32 = 0x0C;

pub const BUS_TYPE_MMC: u32 = 0x0D;

/// The device namespace every physical drive lives in.
pub open spec fn device_namespace() -> Seq<char> {
    seq!['\\', '\\', '.', '\\']
}

/// The namespace of verbatim paths.
pub open spec fn verbatim_namespace() -> Seq<char> {
    seq!['\\', '\\', '?', '\\']
}

/// What a drive is called before its number.
pub open spec fn drive_word() -> Seq<char> {
    seq!['P', 'h', 'y', 's', 'i', 'c', 'a', 'l', 'D', 'r', 'i', 'v', 'e']
}

pub open spec fn drive_path(index: u32) -> Seq<char> {
    device_namespace() + drive_word() + text::dec(index as nat)
}

pub fn physical_drive_path(index: u32) -> (path: String)
    ensures
        path@ == drive_path(index),
{
    let mut path = text::string_of(vec!['\\', '\\', '.', '\\'].as_slice());
    let word = text::string_of(
        vec!['P', 'h', 'y', 's', 'i', 'c', 'a', 'l', 'D', 'r', 'i', 'v', 'e'].as_slice(),
    );
    path.append(word.as_str());
    text::push_dec(&mut path, index as u64);
    path
}

/// `value` without `prefix` in front, where it is there but for the case of its
/// letters.
pub open spec fn stripped_ignoring_case(value: Seq<char>, prefix: Seq<char>) -> Option<Seq<char>> {
    if value.len() >= prefix.len() && text::same_ignoring_case(
        value.subrange(0, prefix.len() as int),
        prefix,
    ) {
        Some(value.subrange(prefix.len() as int, value.len() as int))
    } else {
        None
    }
}

/// The number of the drive an identifier means, or why it means none.
pub open spec fn drive_named(id: Seq<char>) -> Result<u32, Seq<char>> {
    let trimmed = text::trimmed(id);
    let tail = if device_namespace().is_prefix_of(trimmed) || verbatim_namespace().is_prefix_of(
        trimmed,
    ) {
        trimmed.subrange(4, trimmed.len() as int)
    } else {
        trimmed
    };
    let digits = match stripped_ignoring_case(tail, drive_word()) {
        Some(rest) => rest,
        None => tail,
    };
    match number::spelled(digits, 10, u32::MAX as nat) {
        Some(n) => Ok(n as u32),
        None => Err(
            text::quoted(id) + " is not a physical drive (expected e.g. 2 or PhysicalDrive2)"@,
        ),
    }
}

/// How many characters of `prefix` stand in front of `value`, all or none.
fn strip_prefix_ignore_case<'a>(value: &'a [char], prefix: &str) -> (rest: Option<&'a [char]>)
    ensures
        match rest {
            Some(rest) => stripped_ignoring_case(value@, prefix@) == Some(rest@),
            None => stripped_ignoring_case(value@, prefix@) is None,
        },
{
    let len: usize = prefix.unicode_len();
    if value.len() < len {
        return None;
    }
    let head = text::string_of(slice_subrange(value, 0, len));
    if text::eq_ignore_case(head.as_str(), prefix) {
        Some(slice_subrange(value, len, value.len()))
    } else {
        None
    }
}

/// Accepts the forms a user is likely to paste: the bare index, the drive name,
/// and the full device path produced by `rawio list`.
pub fn parse_device_id(id: &str) -> (result: Result<u32, String>)
    ensures
        cli::parse_outcome(result) == drive_named(id@),
{
    let chars = text::chars_of(id);
    let trimmed = text::trim_chars(chars.as_slice());
    let from: usize = if text::starts_with(
        trimmed.as_slice(),
        vec!['\\', '\\', '.', '\\'].as_slice(),
    ) || text::starts_with(trimmed.as_slice(), vec!['\\', '\\', '?', '\\'].as_slice()) {
        4
    } else {
        0
    };
    let tail = slice_subrange(trimmed.as_slice(), from, trimmed.len());
    assert(from == 0 ==> tail@ =~= trimmed@);
    let word = text::string_of(
        vec!['P', 'h', 'y', 's', 'i', 'c', 'a', 'l', 'D', 'r', 'i', 'v', 'e'].as_slice(),
    );
    let digits = match strip_prefix_ignore_case(tail, word.as_str()) {
        Some(rest) => rest,
        None => tail,
    };
    match number::parse(digits, 10, u32::MAX as u64) {
        Some(index) => Ok(index as u32),
        None => {
            let mut message = text::quote(id);
            message.append(" is not a physical drive (expected e.g. 2 or PhysicalDrive2)");
            Err(message)
        },
    }
}

pub open spec fn verdict_on(removable_media: bool, bus_type: u32) -> Removability {
    if removable_media || bus_type == BUS_TYPE_SD || bus_type == BUS_TYPE_MMC {
        Removability::Removable
    } else {
        Removability::Fixed
    }
}

/// `RemovableMedia` from `STORAGE_DEVICE_DESCRIPTOR` is the only signal
/// available: a USB external SSD reports the same as a USB SD card reader.
pub fn classify(removable_media: bool, bus_type: u32) -> (verdict: Removability)
    ensures
        verdict == verdict_on(removable_media, bus_type),
{
    if removable_media || bus_type == BUS_TYPE_SD || bus_type == BUS_TYPE_MMC {
        Removability::Removable
    } else {
        Removability::Fixed
    }
}

pub open spec fn error_hint(code: i32) -> Seq<char> {
    if code == ERROR_ACCESS_DENIED {
        "access denied - run elevated"@
    } else if code == ERROR_SHARING_VIOLATION {
        "sharing violation - a volume on this disk is in use"@
    } else if code == ERROR_WRITE_PROTECT {
        "media is write protected"@
    } else if code == ERROR_INVALID_PARAMETER {
        "invalid parameter - offset or length is likely unaligned"@
    } else if code == ERROR_DEVICE_NOT_CONNECTED || code == ERROR_DEVICE_REMOVED {
        "device is gone"@
    } else {
        "unexpected Win32 error"@
    }
}

pub fn describe_error(code: i32) -> (hint: &'static str)
    ensures
        hint@ == error_hint(code),
{
    if code == ERROR_ACCESS_DENIED {
        "access denied - run elevated"
    } else if code == ERROR_SHARING_VIOLATION {
        "sharing violation - a volume on this disk is in use"
    } else if code == ERROR_WRITE_PROTECT {
        "media is write protected"
    } else if code == ERROR_INVALID_PARAMETER {
        "invalid parameter - offset or length is likely unaligned"
    } else if code == ERROR_DEVICE_NOT_CONNECTED || code == ERROR_DEVICE_REMOVED {
        "device is gone"
    } else {
        "unexpected Win32 error"
    }
}

/// A drive is found again under the path it is listed by, under its bare name,
/// and under its bare number, whatever the case of its letters and the white
/// space around it.
pub proof fn a_drive_answers_to_its_path_name_and_number(
    index: u32,
    word: Seq<char>,
    before: Seq<char>,
    after: Seq<char>,
)
    requires
        text::same_ignoring_case(word, drive_word()),
        text::blank(before),
        text::blank(after),
    ensures
        ({
            let digits = text::dec(index as nat);
            let name = word + digits;
            &&& drive_path(index) == device_namespace() + drive_word() + digits
            &&& drive_named(before + (device_namespace() + name) + after) == Ok::<u32, Seq<char>>(
                index,
            )
            &&& drive_named(before + (verbatim_namespace() + name) + after) == Ok::<
                u32,
                Seq<char>,
            >(index)
            &&& drive_named(before + name + after) == Ok::<u32, Seq<char>>(index)
            &&& drive_named(before + digits + after) == Ok::<u32, Seq<char>>(index)
        }),
{
    let digits = text::dec(index as nat);
    let name = word + digits;
    number::decimals_read_back(index as nat);
    assert('0' <= digits[0] <= '9');
    assert('0' <= digits[digits.len() - 1] <= '9');
    assert(text::lowered(word[0]) == text::lowered(drive_word()[0]));
    assert(name[0] == word[0] && name.last() == digits.last());
    assert(name.subrange(0, 13) =~= word);
    assert(name.subrange(13, name.len() as int) =~= digits);
    text::blanks_around_are_trimmed(before, name, after);
    text::blanks_around_are_trimmed(before, digits, after);
    let device = device_namespace() + name;
    let verbatim = verbatim_namespace() + name;
    assert(device[0] == '\\' && device.last() == digits.last());
    assert(verbatim[0] == '\\' && verbatim.last() == digits.last());
    text::blanks_around_are_trimmed(before, device, after);
    text::blanks_around_are_trimmed(before, verbatim, after);
    assert(device.subrange(0, 4) =~= device_namespace());
    assert(device.subrange(4, device.len() as int) =~= name);
    assert(verbatim.subrange(0, 4) =~= verbatim_namespace());
    assert(verbatim.subrange(4, verbatim.len() as int) =~= name);
    if device_namespace().is_prefix_of(name) {
        assert(name[0] == device_namespace()[0]);
    }
    if verbatim_namespace().is_prefix_of(name) {
        assert(name[0] == verbatim_namespace()[0]);
    }
    if device_namespace().is_prefix_of(digits) {
        assert(digits[0] == device_namespace()[0]);
    }
    if verbatim_namespace().is_prefix_of(digits) {
        assert(digits[0] == verbatim_namespace()[0]);
    }
    if stripped_ignoring_case(digits, drive_word()) is Some {
        let head = digits.subrange(0, 13);
        assert(text::lowered(head[0]) == text::lowered(drive_word()[0]));
    }
}

/// A disk that is neither removable media nor on a card bus is never writable.
pub proof fn a_fixed_disk_off_the_card_buses_is_never_writable(bus_type: u32)
    requires
        bus_type != BUS_TYPE_SD,
        bus_type != BUS_TYPE_MMC,
    ensures
        !(verdict_on(false, bus_type) is Removable),
{
}

/// Removable media can be written on any bus, and what sits on the bus of an SD
/// card or of an MMC can be written whatever it says; nothing else can.
pub proof fn what_windows_takes_for_removable(removable_media: bool, bus_type: u32)
    ensures
        verdict_on(removable_media, bus_type) is Removable <==> removable_media || bus_type == 12
            || bus_type == 13,
        !(verdict_on(removable_media, bus_type) is Unknown),
{
}

/// A drive number is not accepted with anything around it but the names a drive
/// has: what is left once they are off is digits, and the number they spell.
pub proof fn a_drive_is_a_number(id: Seq<char>)
    ensures
        drive_named(id) matches Ok(index) ==> exists|digits: Seq<char>|
            {
                &&& #[trigger] digits.is_suffix_of(text::trimmed(id))
                &&& number::spelled(digits, 10, 0xFFFF_FFFF) == Some(index as nat)
            },
{
    if let Ok(index) = drive_named(id) {
        let trimmed = text::trimmed(id);
        let tail = if device_namespace().is_prefix_of(trimmed)
            || verbatim_namespace().is_prefix_of(trimmed) {
            trimmed.subrange(4, trimmed.len() as int)
        } else {
            trimmed
        };
        let digits = match stripped_ignoring_case(tail, drive_word()) {
            Some(rest) => rest,
            None => tail,
        };
        assert(digits.is_suffix_of(trimmed)) by {
            let k = trimmed.len() - digits.len();
            assert(digits =~= trimmed.subrange(k, trimmed.len() as int));
        }
        assert(number::spelled(digits, 10, 0xFFFF_FFFF) == Some(index as nat));
    }
}

/// The codes that are worth a word get one, and no others do.
pub proof fn a_code_is_named_where_it_is_known(code: i32)
    ensures
        error_hint(code) == "access denied - run elevated"@ <==> code == 5,
        error_hint(code) == "media is write protected"@ <==> code == 19,
        error_hint(code) == "device is gone"@ <==> code == 1167 || code == 1617,
        error_hint(code) == "unexpected Win32 error"@ <==> code != 5 && code != 19 && code != 32
            && code != 87 && code != 1167 && code != 1617,
        error_hint(32) != error_hint(87),
{
    reveal_strlit("access denied - run elevated");
    reveal_strlit("sharing violation - a volume on this disk is in use");
    reveal_strlit("media is write protected");
    reveal_strlit("invalid parameter - offset or length is likely unaligned");
    reveal_strlit("device is gone");
    reveal_strlit("unexpected Win32 error");
    assert("access denied - run elevated"@[0] == 'a');
    assert("sharing violation - a volume on this disk is in use"@[0] == 's');
    assert("media is write protected"@[0] == 'm');
    assert("invalid parameter - offset or length is likely unaligned"@[0] == 'i');
    assert("device is gone"@[0] == 'd');
    assert("unexpected Win32 error"@[0] == 'u');
}

/// A drive is listed under the path that Windows opens it by.
pub proof fn a_drive_is_listed_by_its_path(index: u32)
    ensures
        drive_path(index) == seq![
            '\\',
            '\\',
            '.',
            '\\',
            'P',
            'h',
            'y',
            's',
            'i',
            'c',
            'a',
            'l',
            'D',
            'r',
            'i',
            'v',
            'e',
        ] + text::dec(index as nat),
        drive_named(drive_path(index)) == Ok::<u32, Seq<char>>(index),
{
    let head = seq![
        '\\',
        '\\',
        '.',
        '\\',
        'P',
        'h',
        'y',
        's',
        'i',
        'c',
        'a',
        'l',
        'D',
        'r',
        'i',
        'v',
        'e',
    ];
    assert(device_namespace() + drive_word() =~= head);
    let nothing = Seq::<char>::empty();
    a_drive_answers_to_its_path_name_and_number(index, drive_word(), nothing, nothing);
    let name = drive_word() + text::dec(index as nat);
    assert(nothing + (device_namespace() + name) + nothing =~= drive_path(index));
}

} // verus!
