//! Linux backend. Device identity and sysfs paths are pure logic; the ioctls
//! belong to the host.

use vstd::prelude::*;
use vstd::slice::*;
use vstd::string::*;

use crate::device;
use crate::device::{Access, Backend, DeviceInfo, DeviceInfoView, Removability};
use crate::device::{VolumeLock, VolumeLockView};
use crate::error::{DeviceError, DeviceErrorView, Stage};
use crate::platform;
use crate::platform::SystemDevice;
use crate::text;
use crate::trace::{StepView, Trace};

verus! {

#[derive(Debug)]
pub struct LinuxBackend;

impl Default for LinuxBackend {
    fn default() -> (backend: LinuxBackend)
        ensures
            backend == LinuxBackend,
    {
        LinuxBackend
    }
}

impl LinuxBackend {
    pub fn new() -> (backend: LinuxBackend)
        ensures
            backend == LinuxBackend,
    {
        LinuxBackend
    }
}

impl Backend for LinuxBackend {
    type Device = SystemDevice;

    type State = ();

    open spec fn state(&self) -> () {
        ()
    }

    open spec fn enumerate_step(state: (), trace: Seq<StepView>) -> (
        Result<Seq<DeviceInfoView>, DeviceErrorView>,
        Seq<StepView>,
        (),
    ) {
        (Err(platform::unwritten(Stage::Enumerate)), trace, state)
    }

    open spec fn open_step(state: (), id: Seq<char>, access: Access, trace: Seq<StepView>) -> (
        Result<DeviceInfoView, DeviceErrorView>,
        Seq<StepView>,
        (),
    ) {
        let answer = match named(id) {
            Ok(_) => Err(platform::unwritten(Stage::Open)),
            Err(message) => Err(DeviceErrorView::plain(Stage::Open, message)),
        };
        (answer, trace, state)
    }

    open spec fn rehearse_step(state: (), id: Seq<char>, trace: Seq<StepView>) -> (
        Result<Seq<VolumeLockView>, DeviceErrorView>,
        Seq<StepView>,
        (),
    ) {
        (Ok(Seq::empty()), trace, state)
    }

    fn enumerate(&mut self, _trace: &mut Trace) -> (result: Result<Vec<DeviceInfo>, DeviceError>) {
        Err(platform::not_written(Stage::Enumerate))
    }

    fn open(&mut self, id: &str, _access: Access, _trace: &mut Trace) -> (result: Result<
        SystemDevice,
        DeviceError,
    >) {
        match device_name(id) {
            Ok(_) => Err(platform::not_written(Stage::Open)),
            Err(message) => Err(DeviceError::new(Stage::Open, message.as_str())),
        }
    }

    fn rehearse_write(&mut self, _id: &str, _trace: &mut Trace) -> (result: Result<
        Vec<VolumeLock>,
        DeviceError,
    >) {
        let locks: Vec<VolumeLock> = Vec::new();
        assert(device::lock_views(locks@) =~= Seq::empty());
        Ok(locks)
    }
}

/// True when `s` has a `c` in it.
pub open spec fn holds(s: Seq<char>, c: char) -> bool {
    exists|i: int| 0 <= i < s.len() && #[trigger] s[i] == c
}

/// The digits 0 to 9.
pub open spec fn is_digit(c: char) -> bool {
    '0' <= c <= '9'
}

/// A number behind a `p` that stands behind a digit. That is how the kernel
/// names the partitions of a device whose own name ends in a digit:
/// `nvme0n1p1`, `loop0p1`, `mmcblk0p1`.
pub open spec fn numbered_behind_a_p(name: Seq<char>) -> bool {
    exists|i: int| #[trigger] splits_at_a_p(name, i)
}

/// The `p` stands at `i`.
pub open spec fn splits_at_a_p(name: Seq<char>, i: int) -> bool {
    &&& 0 < i < name.len() - 1
    &&& name[i] == 'p'
    &&& is_digit(name[i - 1])
    &&& forall|j: int| i < j < name.len() ==> is_digit(#[trigger] name[j])
}

/// The device families that are lettered: their partitions are numbered
/// straight behind the letters, as in `sda1`.
pub open spec fn lettered(name: Seq<char>) -> bool {
    ||| seq!['s', 'd'].is_prefix_of(name)
    ||| seq!['h', 'd'].is_prefix_of(name)
    ||| seq!['v', 'd'].is_prefix_of(name)
    ||| seq!['x', 'v', 'd'].is_prefix_of(name)
}

/// The names the kernel gives to partitions.
pub open spec fn is_partition(name: Seq<char>) -> bool {
    ||| lettered(name) && is_digit(name.last())
    ||| seq!['m', 'm', 'c', 'b', 'l', 'k'].is_prefix_of(name) && holds(name, 'p')
    ||| numbered_behind_a_p(name)
}

/// The kernel's name for the whole device an identifier means, or why it means
/// none.
pub open spec fn named(id: Seq<char>) -> Result<Seq<char>, Seq<char>> {
    let trimmed = text::trimmed(id);
    let dev = seq!['/', 'd', 'e', 'v', '/'];
    let name = if dev.is_prefix_of(trimmed) {
        trimmed.subrange(5, trimmed.len() as int)
    } else {
        trimmed
    };
    if name.len() == 0 || holds(name, '/') {
        Err(text::quoted(id) + " is not a block device name"@)
    } else if is_partition(name) {
        Err(text::quoted(id) + " is a partition; pass the whole device"@)
    } else {
        Ok(name)
    }
}

/// A name or why there is none, by what it says.
pub open spec fn name_outcome(result: Result<String, String>) -> Result<Seq<char>, Seq<char>> {
    match result {
        Ok(name) => Ok(name@),
        Err(message) => Err(message@),
    }
}

fn contains(chars: &[char], c: char) -> (found: bool)
    ensures
        found == holds(chars@, c),
{
    let mut i: usize = 0;
    while i < chars.len()
        invariant
            i <= chars@.len(),
            forall|j: int| 0 <= j < i ==> #[trigger] chars@[j] != c,
        decreases chars@.len() - i,
    {
        if chars[i] == c {
            return true;
        }
        i += 1;
    }
    false
}

fn ends_behind_a_p(name: &[char]) -> (found: bool)
    ensures
        found == numbered_behind_a_p(name@),
{
    let mut i: usize = name.len();
    while i > 0 && '0' <= name[i - 1] && name[i - 1] <= '9'
        invariant
            i <= name@.len(),
            forall|j: int| i <= j < name@.len() ==> is_digit(#[trigger] name@[j]),
        decreases i,
    {
        i -= 1;
    }
    // A digit ends the name, a `p` comes before the run of them, and another
    // digit before that.
    let found = i < name.len() && i > 1 && name[i - 1] == 'p' && '0' <= name[i - 2] && name[i - 2]
        <= '9';
    proof {
        if found {
            assert(splits_at_a_p(name@, i - 1));
        }
        if numbered_behind_a_p(name@) {
            let p = choose|p: int| #[trigger] splits_at_a_p(name@, p);
            if p < i - 1 {
                assert(is_digit(name@[i - 1]));
            }
            if p >= i {
                assert(is_digit(name@[p]));
            }
        }
    }
    found
}

fn names_a_partition(name: &[char]) -> (found: bool)
    requires
        name@.len() > 0,
    ensures
        found == is_partition(name@),
{
    let last: char = name[name.len() - 1];
    let lettered = text::starts_with(name, vec!['s', 'd'].as_slice()) || text::starts_with(
        name,
        vec!['h', 'd'].as_slice(),
    ) || text::starts_with(name, vec!['v', 'd'].as_slice()) || text::starts_with(
        name,
        vec!['x', 'v', 'd'].as_slice(),
    );
    if lettered && '0' <= last && last <= '9' {
        return true;
    }
    if text::starts_with(name, vec!['m', 'm', 'c', 'b', 'l', 'k'].as_slice()) && contains(
        name,
        'p',
    ) {
        return true;
    }
    ends_behind_a_p(name)
}

/// Accepts `sda` and `/dev/sda`; rejects partitions, which are not raw devices.
pub fn device_name(id: &str) -> (result: Result<String, String>)
    ensures
        name_outcome(result) == named(id@),
{
    let chars = text::chars_of(id);
    let trimmed = text::trim_chars(chars.as_slice());
    let from: usize = if text::starts_with(
        trimmed.as_slice(),
        vec!['/', 'd', 'e', 'v', '/'].as_slice(),
    ) {
        5
    } else {
        0
    };
    assert(seq!['/', 'd', 'e', 'v', '/'].is_prefix_of(trimmed@) ==> trimmed@.len() >= 5);
    let name = slice_subrange(trimmed.as_slice(), from, trimmed.len());
    assert(from == 0 ==> name@ =~= trimmed@);
    if name.len() == 0 || contains(name, '/') {
        let mut message = text::quote(id);
        message.append(" is not a block device name");
        return Err(message);
    }
    if names_a_partition(name) {
        let mut message = text::quote(id);
        message.append(" is a partition; pass the whole device");
        return Err(message);
    }
    Ok(text::string_of(name))
}

pub open spec fn removable_attribute(name: Seq<char>) -> Seq<char> {
    "/sys/block/"@ + name + "/removable"@
}

pub fn sysfs_removable_path(name: &str) -> (path: String)
    ensures
        path@ == removable_attribute(name@),
{
    let mut path = "/sys/block/".to_owned();
    path.append(name);
    path.append("/removable");
    path
}

/// What the kernel's attribute says of a device.
pub open spec fn classified(attribute: Option<Seq<char>>) -> Removability {
    match attribute {
        None => Removability::Unknown,
        Some(value) => if text::trimmed(value) == seq!['1'] {
            Removability::Removable
        } else if text::trimmed(value) == seq!['0'] {
            Removability::Fixed
        } else {
            Removability::Unknown
        },
    }
}

/// `/sys/block/<dev>/removable` is 1 for removable media. Anything else,
/// including an unreadable attribute, stays unwritable.
pub fn classify(removable_attr: Option<&str>) -> (verdict: Removability)
    ensures
        verdict == classified(
            match removable_attr {
                Some(value) => Some(value@),
                None => None,
            },
        ),
{
    match removable_attr {
        None => Removability::Unknown,
        Some(value) => {
            let chars = text::chars_of(value);
            let kept = text::trim_chars(chars.as_slice());
            if kept.len() == 1 && kept[0] == '1' {
                assert(kept@ =~= seq!['1']);
                Removability::Removable
            } else if kept.len() == 1 && kept[0] == '0' {
                assert(kept@ =~= seq!['0']);
                Removability::Fixed
            } else {
                Removability::Unknown
            }
        },
    }
}

/// A device is writable only where its attribute says 1; one that says nothing,
/// or anything else, is not.
pub proof fn only_a_one_makes_a_device_writable(attribute: Option<Seq<char>>)
    ensures
        classified(attribute) is Removable <==> attribute is Some && text::trimmed(attribute->0)
            == seq!['1'],
{
    let one = seq!['1'];
    let zero = seq!['0'];
    assert(one[0] != zero[0]);
}

/// A name is accepted as the device it names, with or without the directory in
/// front of it.
pub proof fn the_directory_does_not_change_the_name(name: Seq<char>)
    requires
        name.len() > 0,
        !text::is_white(name[0]),
        !text::is_white(name.last()),
        !holds(name, '/'),
        named(name) is Ok,
    ensures
        named(name) == Ok::<Seq<char>, Seq<char>>(name),
        named(seq!['/', 'd', 'e', 'v', '/'] + name) == Ok::<Seq<char>, Seq<char>>(name),
{
    let dev = seq!['/', 'd', 'e', 'v', '/'];
    let path = dev + name;
    assert(path[0] == '/');
    assert(path.last() == name.last());
    assert(path.subrange(0, 5) =~= dev);
    assert(path.subrange(5, path.len() as int) =~= name);
    if dev.is_prefix_of(name) {
        assert(name[0] == dev[0]);
    }
}

/// A partition is not accepted under any name the kernel gives it: that of a
/// lettered disk with a number behind it, or that of a disk ending in a digit
/// with `p` and a number behind it.
pub proof fn a_partition_is_never_a_device(disk: Seq<char>, number: nat)
    requires
        disk.len() > 0,
        !text::is_white(disk[0]),
        !holds(disk, '/'),
        lettered(disk) || is_digit(disk.last()),
    ensures
        named(
            disk + if is_digit(disk.last()) {
                seq!['p'] + text::dec(number)
            } else {
                text::dec(number)
            },
        ) is Err,
{
    let digits = text::dec(number);
    crate::number::decimals_read_back(number);
    let name = disk + if is_digit(disk.last()) {
        seq!['p'] + digits
    } else {
        digits
    };
    assert('0' <= digits[digits.len() - 1] <= '9');
    assert(name.last() == digits.last());
    assert(name[0] == disk[0]);
    text::blanks_around_are_trimmed(Seq::empty(), name, Seq::empty());
    assert(Seq::<char>::empty() + name + Seq::<char>::empty() =~= name);
    let dev = seq!['/', 'd', 'e', 'v', '/'];
    if dev.is_prefix_of(name) {
        assert(name[0] == dev[0]);
        assert(disk[0] == '/');
    }
    if is_digit(disk.last()) {
        assert(splits_at_a_p(name, disk.len() as int)) by {
            assert forall|j: int| disk.len() < j < name.len() implies is_digit(
                #[trigger] name[j],
            ) by {
                assert(name[j] == digits[j - disk.len() - 1]);
            }
        }
    } else {
        assert(name.subrange(0, 2) =~= disk.subrange(0, 2));
        if seq!['x', 'v', 'd'].is_prefix_of(disk) {
            assert(name.subrange(0, 3) =~= disk.subrange(0, 3));
        }
    }
}

proof fn a_plain_name_is_taken(name: Seq<char>)
    requires
        name.len() > 0,
        !text::is_white(name[0]),
        !text::is_white(name.last()),
        !holds(name, '/'),
        !is_partition(name),
    ensures
        named(name) == Ok::<Seq<char>, Seq<char>>(name),
{
    text::blanks_around_are_trimmed(Seq::empty(), name, Seq::empty());
    assert(Seq::<char>::empty() + name + Seq::<char>::empty() =~= name);
    let dev = seq!['/', 'd', 'e', 'v', '/'];
    if dev.is_prefix_of(name) {
        assert(name[0] == dev[0]);
    }
}

/// A whole disk is accepted under the name the kernel gives it: letters behind
/// `sd`, a number behind `mmcblk`, and two numbers behind `nvme` and `n`.
pub proof fn a_whole_disk_is_a_device(letters: Seq<char>, first: nat, second: nat)
    requires
        letters.len() > 0,
        forall|i: int| 0 <= i < letters.len() ==> 'a' <= #[trigger] letters[i] <= 'z',
    ensures
        named(seq!['s', 'd'] + letters) == Ok::<Seq<char>, Seq<char>>(seq!['s', 'd'] + letters),
        named(seq!['m', 'm', 'c', 'b', 'l', 'k'] + text::dec(first)) == Ok::<
            Seq<char>,
            Seq<char>,
        >(seq!['m', 'm', 'c', 'b', 'l', 'k'] + text::dec(first)),
        named(seq!['n', 'v', 'm', 'e'] + text::dec(first) + seq!['n'] + text::dec(second)) == Ok::<
            Seq<char>,
            Seq<char>,
        >(seq!['n', 'v', 'm', 'e'] + text::dec(first) + seq!['n'] + text::dec(second)),
{
    crate::number::decimals_read_back(first);
    crate::number::decimals_read_back(second);
    let one = text::dec(first);
    let two = text::dec(second);
    let sd = seq!['s', 'd'] + letters;
    assert forall|i: int| 0 <= i < sd.len() implies 'a' <= #[trigger] sd[i] <= 'z' by {
        if i >= 2 {
            assert(sd[i] == letters[i - 2]);
        }
    }
    assert('a' <= sd[0] <= 'z' && 'a' <= sd[sd.len() - 1] <= 'z');
    if numbered_behind_a_p(sd) {
        let p = choose|p: int| #[trigger] splits_at_a_p(sd, p);
        assert(is_digit(sd[p - 1]));
    }
    if seq!['m', 'm', 'c', 'b', 'l', 'k'].is_prefix_of(sd) {
        assert(sd[0] == seq!['m', 'm', 'c', 'b', 'l', 'k'][0]);
    }
    a_plain_name_is_taken(sd);

    let mmc = seq!['m', 'm', 'c', 'b', 'l', 'k'] + one;
    assert forall|i: int| 0 <= i < mmc.len() implies #[trigger] mmc[i] != 'p' && mmc[i] != '/' by {
        if i >= 6 {
            assert(mmc[i] == one[i - 6]);
        }
    }
    assert(mmc.last() == one[one.len() - 1]);
    not_lettered(mmc, 'm', 'm');
    a_plain_name_is_taken(mmc);

    let nvme = seq!['n', 'v', 'm', 'e'] + one + seq!['n'] + two;
    assert forall|i: int| 0 <= i < nvme.len() implies #[trigger] nvme[i] != 'p' && nvme[i]
        != '/' by {
        if i >= 4 + one.len() + 1 {
            assert(nvme[i] == two[i - 5 - one.len()]);
        } else if i == 4 + one.len() {
            assert(nvme[i] == 'n');
        } else if i >= 4 {
            assert(nvme[i] == one[i - 4]);
        }
    }
    assert(nvme.last() == two[two.len() - 1]);
    not_lettered(nvme, 'n', 'v');
    if seq!['m', 'm', 'c', 'b', 'l', 'k'].is_prefix_of(nvme) {
        assert(nvme[0] == seq!['m', 'm', 'c', 'b', 'l', 'k'][0]);
    }
    a_plain_name_is_taken(nvme);
}

proof fn not_lettered(name: Seq<char>, first: char, second: char)
    requires
        name.len() >= 2,
        name[0] == first,
        name[1] == second,
        first == 'm' || first == 'n',
    ensures
        !lettered(name),
{
    if seq!['s', 'd'].is_prefix_of(name) {
        assert(name[0] == seq!['s', 'd'][0]);
    }
    if seq!['h', 'd'].is_prefix_of(name) {
        assert(name[0] == seq!['h', 'd'][0]);
    }
    if seq!['v', 'd'].is_prefix_of(name) {
        assert(name[0] == seq!['v', 'd'][0]);
    }
    if seq!['x', 'v', 'd'].is_prefix_of(name) {
        assert(name[0] == seq!['x', 'v', 'd'][0]);
    }
}

} // verus!
