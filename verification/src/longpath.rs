//! Windows refuses a path at or beyond `MAX_PATH` unless it is written in the
//! extended-length form. Nothing else about a path is touched.

use vstd::prelude::*;
use vstd::slice::*;
use vstd::string::*;

use crate::figures;
use crate::text;

verus! {

/// Including the terminating NUL, so a usable path is at most 259 characters.
pub const MAX_PATH: usize = 260;

/// The UTF-16 units a text takes, which is what Windows counts.
pub open spec fn utf16_len(s: Seq<char>) -> nat
    decreases s.len(),
{
    if s.len() == 0 {
        0
    } else {
        utf16_len(s.drop_last()) + if s.last() as u32 >= 0x1_0000 {
            2nat
        } else {
            1nat
        }
    }
}

/// What an absolute path becomes when its length demands it. Paths that are
/// already verbatim, or name a device rather than a file, are left alone.
pub open spec fn extended(absolute: Seq<char>) -> Option<Seq<char>> {
    if seq!['\\', '\\', '?', '\\'].is_prefix_of(absolute) || seq![
        '\\',
        '\\',
        '.',
        '\\',
    ].is_prefix_of(absolute) {
        None
    } else if utf16_len(absolute) < MAX_PATH {
        None
    } else if seq!['\\', '\\'].is_prefix_of(absolute) {
        Some(
            seq!['\\', '\\', '?', '\\', 'U', 'N', 'C', '\\'] + absolute.subrange(
                2,
                absolute.len() as int,
            ),
        )
    } else {
        Some(seq!['\\', '\\', '?', '\\'] + absolute)
    }
}

/// Rewrites an absolute Windows path into its extended-length form when the
/// length demands it. `None` means the path is already usable as it stands.
///
/// Takes and returns strings so the Windows rule is exercised on any host; the
/// caller resolves the path to an absolute one first, because the extended-length
/// form disables the normalisation that would otherwise resolve `.` and `..`.
pub fn extend(absolute: &str) -> (path: Option<String>)
    ensures
        match path {
            Some(path) => extended(absolute@) == Some(path@),
            None => extended(absolute@) is None,
        },
{
    let chars = text::chars_of(absolute);
    // Already verbatim, or the device namespace, which is not a file path.
    if text::starts_with(chars.as_slice(), vec!['\\', '\\', '?', '\\'].as_slice())
        || text::starts_with(chars.as_slice(), vec!['\\', '\\', '.', '\\'].as_slice()) {
        return None;
    }
    let mut units: usize = 0;
    let mut i: usize = 0;
    assert(chars@.take(0) =~= Seq::empty());
    while i < chars.len() && units < MAX_PATH
        invariant
            i <= chars@.len(),
            units <= MAX_PATH + 1,
            units == utf16_len(chars@.take(i as int)),
        decreases chars@.len() - i,
    {
        assert(chars@.take(i + 1).drop_last() =~= chars@.take(i as int));
        units = units + if chars[i] as u32 >= 0x1_0000 {
            2
        } else {
            1
        };
        i += 1;
    }
    if units < MAX_PATH {
        assert(chars@.take(i as int) =~= chars@);
        return None;
    }
    proof {
        more_text_takes_more_units(chars@, i as int);
    }
    if text::starts_with(chars.as_slice(), vec!['\\', '\\'].as_slice()) {
        let mut path = text::string_of(vec!['\\', '\\', '?', '\\', 'U', 'N', 'C', '\\'].as_slice());
        let rest = text::string_of(slice_subrange(chars.as_slice(), 2, chars.len()));
        path.append(rest.as_str());
        return Some(path);
    }
    let mut path = text::string_of(vec!['\\', '\\', '?', '\\'].as_slice());
    path.append(absolute);
    Some(path)
}

proof fn more_text_takes_more_units(s: Seq<char>, n: int)
    requires
        0 <= n <= s.len(),
    ensures
        utf16_len(s.take(n)) <= utf16_len(s),
    decreases s.len(),
{
    if n < s.len() {
        assert(s.drop_last().take(n) =~= s.take(n));
        more_text_takes_more_units(s.drop_last(), n);
    } else {
        assert(s.take(n) =~= s);
    }
}

/// The path to hand to the OS when opening `given`. `absolute` is its absolute
/// form, known only on a host where a long path has to be rewritten.
pub open spec fn opened_as(given: Seq<char>, absolute: Option<Seq<char>>) -> Seq<char> {
    match absolute {
        None => given,
        Some(absolute) => match extended(absolute) {
            Some(path) => path,
            None => given,
        },
    }
}

/// The path to hand to the OS when opening `given`.
pub fn for_open(given: &str, absolute: Option<&str>) -> (path: String)
    ensures
        path@ == opened_as(
            given@,
            match absolute {
                Some(absolute) => Some(absolute@),
                None => None,
            },
        ),
{
    match absolute {
        None => given.to_owned(),
        Some(absolute) => match extend(absolute) {
            Some(path) => path,
            None => given.to_owned(),
        },
    }
}

/// A path that is short, already verbatim or a device name is opened exactly as
/// it was typed; so is every path on a host that does not need the rule.
pub proof fn other_paths_are_opened_as_typed(given: Seq<char>, absolute: Option<Seq<char>>)
    requires
        absolute matches Some(path) ==> utf16_len(path) < MAX_PATH || seq![
            '\\',
            '\\',
            '?',
            '\\',
        ].is_prefix_of(path) || seq!['\\', '\\', '.', '\\'].is_prefix_of(path),
    ensures
        opened_as(given, absolute) == given,
{
}

/// Rewriting happens once: what comes out is already usable as it stands.
pub proof fn an_extended_path_is_left_alone(absolute: Seq<char>)
    ensures
        extended(absolute) matches Some(path) ==> extended(path) is None,
{
    if let Some(path) = extended(absolute) {
        let verbatim = seq!['\\', '\\', '?', '\\'];
        assert(path.subrange(0, 4) =~= verbatim);
    }
}

proof fn units_are_counted(s: Seq<char>, t: Seq<char>)
    ensures
        utf16_len(s + t) == utf16_len(s) + figures::encoded(t).len(),
    decreases t.len(),
{
    if t.len() == 0 {
        assert(s + t =~= s);
    } else {
        let c = seq![t[0]];
        let rest = t.subrange(1, t.len() as int);
        assert(s + t =~= (s + c) + rest);
        units_are_counted(s + c, rest);
        assert((s + c).drop_last() =~= s);
        assert((s + c).last() == t[0]);
    }
}

/// The units a path takes are those that spell it in UTF-16.
pub proof fn a_path_takes_the_units_that_spell_it(s: Seq<char>)
    ensures
        utf16_len(s) == figures::encoded(s).len(),
{
    units_are_counted(Seq::empty(), s);
    assert(Seq::<char>::empty() + s =~= s);
}

/// A path of 260 units or more is rewritten, and only such a path: a share gets
/// `\\?\UNC\` in place of its two backslashes, and every other path `\\?\` in
/// front. What it names is not touched.
pub proof fn a_long_path_is_rewritten(path: Seq<char>)
    ensures
        ({
            let verbatim = path.len() >= 4 && path[0] == '\\' && path[1] == '\\' && (path[2]
                == '?' || path[2] == '.') && path[3] == '\\';
            let share = path.len() >= 2 && path[0] == '\\' && path[1] == '\\';
            &&& extended(path) is Some <==> figures::encoded(path).len() >= 260 && !verbatim
            &&& extended(path) matches Some(longer) ==> {
                &&& longer.subrange(0, 4) == seq!['\\', '\\', '?', '\\']
                &&& share ==> {
                    &&& longer.subrange(4, 8) == seq!['U', 'N', 'C', '\\']
                    &&& longer.subrange(8, longer.len() as int) == path.subrange(
                        2,
                        path.len() as int,
                    )
                }
                &&& !share ==> longer.subrange(4, longer.len() as int) == path
            }
        }),
{
    a_path_takes_the_units_that_spell_it(path);
    let question = seq!['\\', '\\', '?', '\\'];
    let dot = seq!['\\', '\\', '.', '\\'];
    let two = seq!['\\', '\\'];
    if path.len() >= 4 {
        let head = path.subrange(0, 4);
        if path[0] == '\\' && path[1] == '\\' && path[2] == '?' && path[3] == '\\' {
            assert(head =~= question);
        }
        if path[0] == '\\' && path[1] == '\\' && path[2] == '.' && path[3] == '\\' {
            assert(head =~= dot);
        }
        assert(head[0] == path[0] && head[1] == path[1] && head[2] == path[2] && head[3]
            == path[3]);
        assert(question[2] == '?' && dot[2] == '.');
    }
    if path.len() >= 2 {
        let head = path.subrange(0, 2);
        if path[0] == '\\' && path[1] == '\\' {
            assert(head =~= two);
        }
        assert(head[0] == path[0] && head[1] == path[1]);
    }
    if let Some(longer) = extended(path) {
        assert(longer.subrange(0, 4) =~= question);
        if two.is_prefix_of(path) {
            assert(longer.subrange(4, 8) =~= seq!['U', 'N', 'C', '\\']);
            assert(longer.subrange(8, longer.len() as int) =~= path.subrange(
                2,
                path.len() as int,
            ));
        } else {
            assert(longer.subrange(4, longer.len() as int) =~= path);
        }
    }
}

} // verus!
