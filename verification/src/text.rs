//! Text as the rest of the crate spells it: numbers in decimal and hexadecimal,
//! columns of a fixed width, and the comparisons that names go through.

use vstd::prelude::*;
use vstd::slice::*;
use vstd::string::*;

use crate::error;

verus! {

/// `String::push` appends the one character it is given.
pub assume_specification[ String::push ](s: &mut String, c: char)
    ensures
        final(s)@ == old(s)@.push(c),
;

/// The digit that stands for `d`, lower case past nine.
pub open spec fn digit(d: nat) -> char {
    if d < 10 {
        (48 + d) as char
    } else {
        (87 + d) as char
    }
}

/// `n` in decimal, without leading zeros.
pub open spec fn dec(n: nat) -> Seq<char>
    decreases n,
{
    if n < 10 {
        seq![digit(n)]
    } else {
        dec(n / 10).push(digit(n % 10))
    }
}

/// `n` in decimal with a sign in front of a negative one.
pub open spec fn signed_dec(n: int) -> Seq<char> {
    if n < 0 {
        "-"@ + dec((-n) as nat)
    } else {
        dec(n as nat)
    }
}

/// `n` in lower-case hexadecimal, without leading zeros.
pub open spec fn hex(n: nat) -> Seq<char>
    decreases n,
{
    if n < 16 {
        seq![digit(n)]
    } else {
        hex(n / 16).push(digit(n % 16))
    }
}

/// `count` copies of `c`.
pub open spec fn repeated(c: char, count: nat) -> Seq<char> {
    Seq::new(count, |i: int| c)
}

/// The padding that brings `len` characters up to `width`.
pub open spec fn shortfall(len: nat, width: nat) -> nat {
    if len < width {
        (width - len) as nat
    } else {
        0
    }
}

/// `text` flush left in a column of `width` characters.
pub open spec fn left(text: Seq<char>, width: nat) -> Seq<char> {
    text + repeated(' ', shortfall(text.len(), width))
}

/// `text` flush right in a column of `width` characters.
pub open spec fn right(text: Seq<char>, width: nat) -> Seq<char> {
    repeated(' ', shortfall(text.len(), width)) + text
}

/// `n` in hexadecimal, zero padded to `width` digits.
pub open spec fn hex_padded(n: nat, width: nat) -> Seq<char> {
    repeated('0', shortfall(hex(n).len(), width)) + hex(n)
}

fn digit_char(d: u8) -> (c: char)
    requires
        d < 16,
    ensures
        c == digit(d as nat),
{
    if d < 10 {
        (48 + d) as char
    } else {
        (87 + d) as char
    }
}

/// Appends `n` in decimal.
pub fn push_dec(out: &mut String, n: u64)
    ensures
        final(out)@ == old(out)@ + dec(n as nat),
    decreases n,
{
    if n >= 10 {
        push_dec(out, n / 10);
    }
    out.push(digit_char((n % 10) as u8));
    assert(out@ =~= old(out)@ + dec(n as nat));
}

/// Appends `n` in decimal, signed.
pub fn push_signed(out: &mut String, n: i32)
    ensures
        final(out)@ == old(out)@ + signed_dec(n as int),
{
    let wide: i64 = n as i64;
    if wide < 0 {
        out.append("-");
        push_dec(out, (-wide) as u64);
    } else {
        push_dec(out, wide as u64);
    }
    assert(out@ =~= old(out)@ + signed_dec(n as int));
}

/// Appends `n` in hexadecimal without padding.
fn push_hex_digits(out: &mut String, n: u64)
    ensures
        final(out)@ == old(out)@ + hex(n as nat),
    decreases n,
{
    if n >= 16 {
        push_hex_digits(out, n / 16);
    }
    out.push(digit_char((n % 16) as u8));
    assert(out@ =~= old(out)@ + hex(n as nat));
}

/// Appends `count` copies of `c`.
pub fn push_repeated(out: &mut String, c: char, count: usize)
    ensures
        final(out)@ == old(out)@ + repeated(c, count as nat),
{
    let mut i: usize = 0;
    assert(out@ =~= old(out)@ + repeated(c, 0));
    while i < count
        invariant
            i <= count,
            out@ == old(out)@ + repeated(c, i as nat),
        decreases count - i,
    {
        out.push(c);
        i += 1;
        assert(out@ =~= old(out)@ + repeated(c, i as nat));
    }
}

/// Appends `text` flush left in `width` characters.
pub fn push_left(out: &mut String, text: &str, width: usize)
    ensures
        final(out)@ == old(out)@ + left(text@, width as nat),
{
    out.append(text);
    let len = text.unicode_len();
    if len < width {
        push_repeated(out, ' ', width - len);
    }
    assert(out@ =~= old(out)@ + left(text@, width as nat));
}

/// Appends `text` flush right in `width` characters.
pub fn push_right(out: &mut String, text: &str, width: usize)
    ensures
        final(out)@ == old(out)@ + right(text@, width as nat),
{
    let len = text.unicode_len();
    if len < width {
        push_repeated(out, ' ', width - len);
    }
    out.append(text);
    assert(out@ =~= old(out)@ + right(text@, width as nat));
}

/// `n` in decimal.
pub fn decimal(n: u64) -> (text: String)
    ensures
        text@ == dec(n as nat),
{
    let mut text = String::new();
    push_dec(&mut text, n);
    assert(text@ =~= dec(n as nat));
    text
}

/// Appends `n` in hexadecimal, zero padded to `width` digits.
pub fn push_hex(out: &mut String, n: u64, width: usize)
    ensures
        final(out)@ == old(out)@ + hex_padded(n as nat, width as nat),
{
    let mut digits = String::new();
    push_hex_digits(&mut digits, n);
    assert(digits@ =~= hex(n as nat));
    let len = digits.as_str().unicode_len();
    if len < width {
        push_repeated(out, '0', width - len);
    }
    out.append(digits.as_str());
    assert(out@ =~= old(out)@ + hex_padded(n as nat, width as nat));
}

/// The characters of `text`, one by one.
pub fn chars_of(text: &str) -> (chars: Vec<char>)
    ensures
        chars@ == text@,
{
    let mut chars: Vec<char> = Vec::new();
    for c in it: text.chars()
        invariant
            chars@ == it.seq().take(it.index() as int),
            it.seq() == text@,
    {
        chars.push(c);
        assert(chars@ =~= it.seq().take(it.index() + 1));
    }
    assert(chars@ =~= text@);
    chars
}

/// The text those characters spell.
pub fn string_of(chars: &[char]) -> (text: String)
    ensures
        text@ == chars@,
{
    let mut text = String::new();
    let mut i: usize = 0;
    while i < chars.len()
        invariant
            i <= chars@.len(),
            text@ == chars@.take(i as int),
        decreases chars@.len() - i,
    {
        text.push(chars[i]);
        i += 1;
        assert(text@ =~= chars@.take(i as int));
    }
    assert(text@ =~= chars@);
    text
}

/// True when `chars` begins with `prefix`.
pub fn starts_with(chars: &[char], prefix: &[char]) -> (found: bool)
    ensures
        found == prefix@.is_prefix_of(chars@),
{
    if prefix.len() > chars.len() {
        return false;
    }
    let mut i: usize = 0;
    while i < prefix.len()
        invariant
            i <= prefix@.len() <= chars@.len(),
            forall|j: int| 0 <= j < i ==> chars@[j] == #[trigger] prefix@[j],
        decreases prefix@.len() - i,
    {
        if chars[i] != prefix[i] {
            proof {
                if prefix@.is_prefix_of(chars@) {
                    assert(prefix@[i as int] == chars@.subrange(0, prefix@.len() as int)[i as int]);
                }
            }
            return false;
        }
        i += 1;
    }
    assert(prefix@ =~= chars@.subrange(0, prefix@.len() as int));
    true
}

/// True when `chars` ends in `suffix`.
fn ends_with(chars: &[char], suffix: &[char]) -> (found: bool)
    ensures
        found == suffix@.is_suffix_of(chars@),
{
    if suffix.len() > chars.len() {
        return false;
    }
    let base: usize = chars.len() - suffix.len();
    let mut i: usize = 0;
    while i < suffix.len()
        invariant
            i <= suffix@.len(),
            base + suffix@.len() == chars@.len() <= usize::MAX,
            forall|j: int| 0 <= j < i ==> chars@[base + j] == #[trigger] suffix@[j],
        decreases suffix@.len() - i,
    {
        if chars[base + i] != suffix[i] {
            proof {
                if suffix@.is_suffix_of(chars@) {
                    assert(suffix@[i as int] == chars@.subrange(
                        base as int,
                        chars@.len() as int,
                    )[i as int]);
                }
            }
            return false;
        }
        i += 1;
    }
    assert(suffix@ =~= chars@.subrange(base as int, chars@.len() as int));
    true
}

/// `text` with every copy of `suffix` at its end taken off.
pub fn trim_end_matches(text: &str, suffix: &str) -> (kept: String)
    ensures
        kept@ == error::without_suffix(text@, suffix@),
{
    let chars = chars_of(text);
    let ending = chars_of(suffix);
    let mut end: usize = chars.len();
    assert(chars@.take(end as int) =~= text@);
    while ending.len() > 0 && ends_with(slice_subrange(chars.as_slice(), 0, end), ending.as_slice())
        invariant
            end <= chars@.len(),
            ending@ == suffix@,
            error::without_suffix(chars@.take(end as int), suffix@) == error::without_suffix(
                text@,
                suffix@,
            ),
        decreases end,
    {
        assert(chars@.subrange(0, end as int) =~= chars@.take(end as int));
        assert(chars@.take(end as int).subrange(0, end - suffix@.len()) =~= chars@.take(
            end - suffix@.len(),
        ));
        end -= ending.len();
    }
    assert(chars@.subrange(0, end as int) =~= chars@.take(end as int));
    string_of(slice_subrange(chars.as_slice(), 0, end))
}

/// `char::from_u32` gives the character of every Unicode scalar value and
/// nothing for any other number: the surrogates and all above 0x10FFFF.
pub assume_specification[ char::from_u32 ](i: u32) -> (c: Option<char>)
    ensures
        c == if i <= 0xD7FF || 0xE000 <= i <= 0x10FFFF {
            Some(i as char)
        } else {
            None
        },
;

/// A string as `{:?}` prints it: in quotes, with the characters escaped that
/// Rust escapes there.
pub uninterp spec fn quoted(s: Seq<char>) -> Seq<char>;

/// `format!` with `{:?}` on a string. Which characters it escapes, and how, is
/// a table of the standard library's; the result goes by the name `quoted`.
#[verifier::external_body]
pub(crate) fn quote(s: &str) -> (printed: String)
    ensures
        printed@ == quoted(s@),
{
    format!("{:?}", s)
}

pub open spec fn is_high_surrogate(unit: u16) -> bool {
    0xD800 <= unit <= 0xDBFF
}

pub open spec fn is_low_surrogate(unit: u16) -> bool {
    0xDC00 <= unit <= 0xDFFF
}

/// The character a pair of surrogates stands for.
pub open spec fn paired(high: u16, low: u16) -> char {
    (0x1_0000 + (high - 0xD800) * 0x400 + (low - 0xDC00)) as char
}

/// UTF-16 as characters, with U+FFFD for each surrogate that stands alone.
pub open spec fn decoded_utf16(units: Seq<u16>) -> Seq<char>
    decreases units.len(),
{
    if units.len() == 0 {
        Seq::empty()
    } else if !is_high_surrogate(units[0]) && !is_low_surrogate(units[0]) {
        seq![units[0] as char] + decoded_utf16(units.subrange(1, units.len() as int))
    } else if is_high_surrogate(units[0]) && units.len() > 1 && is_low_surrogate(units[1]) {
        seq![paired(units[0], units[1])] + decoded_utf16(units.subrange(2, units.len() as int))
    } else {
        seq!['\u{FFFD}'] + decoded_utf16(units.subrange(1, units.len() as int))
    }
}

/// The character with this code.
fn char_of(code: u32) -> (c: char)
    requires
        code <= 0xD7FF || 0xE000 <= code <= 0x10FFFF,
    ensures
        c == code as char,
{
    match char::from_u32(code) {
        Some(c) => c,
        None => '\u{FFFD}',
    }
}

/// Reads UTF-16, with U+FFFD for each surrogate that stands alone.
pub fn decode_utf16(units: &[u16]) -> (chars: Vec<char>)
    ensures
        chars@ == decoded_utf16(units@),
{
    let mut chars: Vec<char> = Vec::new();
    let mut i: usize = 0;
    let ghost len = units@.len() as int;
    assert(units@.subrange(0, len) =~= units@);
    assert(chars@ + decoded_utf16(units@) =~= decoded_utf16(units@));
    while i < units.len()
        invariant
            i <= units@.len(),
            len == units@.len(),
            decoded_utf16(units@) == chars@ + decoded_utf16(units@.subrange(i as int, len)),
        decreases units@.len() - i,
    {
        let unit: u16 = units[i];
        let ghost rest = units@.subrange(i as int, len);
        let ghost before = chars@;
        assert(rest[0] == unit);
        assert(rest.subrange(1, rest.len() as int) =~= units@.subrange(i + 1, len));
        if unit < 0xD800 || unit > 0xDFFF {
            chars.push(char_of(unit as u32));
            assert(before + decoded_utf16(rest) =~= chars@ + decoded_utf16(
                units@.subrange(i + 1, len),
            ));
            i += 1;
        } else if unit <= 0xDBFF && i + 1 < units.len() && 0xDC00 <= units[i + 1] && units[i + 1]
            <= 0xDFFF {
            let low: u16 = units[i + 1];
            assert(rest[1] == low);
            assert(rest.subrange(2, rest.len() as int) =~= units@.subrange(i + 2, len));
            let code: u32 = 0x1_0000 + (unit as u32 - 0xD800) * 0x400 + (low as u32 - 0xDC00);
            chars.push(char_of(code));
            assert(before + decoded_utf16(rest) =~= chars@ + decoded_utf16(
                units@.subrange(i + 2, len),
            ));
            i += 2;
        } else {
            chars.push('\u{FFFD}');
            assert(before + decoded_utf16(rest) =~= chars@ + decoded_utf16(
                units@.subrange(i + 1, len),
            ));
            i += 1;
        }
    }
    assert(units@.subrange(i as int, len) =~= Seq::empty());
    assert(chars@ + Seq::<char>::empty() =~= chars@);
    chars
}

/// The characters Unicode counts as white space.
pub open spec fn is_white(c: char) -> bool {
    let code = c as u32;
    ||| 0x09 <= code <= 0x0D
    ||| code == 0x20
    ||| code == 0x85
    ||| code == 0xA0
    ||| code == 0x1680
    ||| 0x2000 <= code <= 0x200A
    ||| code == 0x2028
    ||| code == 0x2029
    ||| code == 0x202F
    ||| code == 0x205F
    ||| code == 0x3000
}

fn white(c: char) -> (found: bool)
    ensures
        found == is_white(c),
{
    let code: u32 = c as u32;
    (0x09 <= code && code <= 0x0D) || code == 0x20 || code == 0x85 || code == 0xA0 || code == 0x1680
        || (0x2000 <= code && code <= 0x200A) || code == 0x2028 || code == 0x2029 || code == 0x202F
        || code == 0x205F || code == 0x3000
}

/// `s` without the white space it starts with.
pub open spec fn trimmed_start(s: Seq<char>) -> Seq<char>
    decreases s.len(),
{
    if s.len() > 0 && is_white(s[0]) {
        trimmed_start(s.subrange(1, s.len() as int))
    } else {
        s
    }
}

/// `s` without the white space it ends with.
pub open spec fn trimmed_end(s: Seq<char>) -> Seq<char>
    decreases s.len(),
{
    if s.len() > 0 && is_white(s.last()) {
        trimmed_end(s.drop_last())
    } else {
        s
    }
}

/// `s` without the white space around it.
pub open spec fn trimmed(s: Seq<char>) -> Seq<char> {
    trimmed_end(trimmed_start(s))
}

/// White space and nothing else.
pub open spec fn blank(s: Seq<char>) -> bool {
    forall|i: int| 0 <= i < s.len() ==> is_white(#[trigger] s[i])
}

/// White space around a text does not show once it is trimmed.
pub proof fn blanks_around_are_trimmed(before: Seq<char>, body: Seq<char>, after: Seq<char>)
    requires
        blank(before),
        blank(after),
        body.len() > 0,
        !is_white(body[0]),
        !is_white(body.last()),
    ensures
        trimmed(before + body + after) == body,
    decreases before.len() + after.len(),
{
    let s = before + body + after;
    if before.len() > 0 {
        let rest = before.subrange(1, before.len() as int);
        assert(s[0] == before[0]);
        assert(s.subrange(1, s.len() as int) =~= rest + body + after);
        blanks_around_are_trimmed(rest, body, after);
    } else {
        assert(s =~= body + after);
        assert(s[0] == body[0]);
        if after.len() > 0 {
            assert(s.last() == after.last());
            assert(s.drop_last() =~= before + body + after.drop_last());
            blanks_around_are_trimmed(before, body, after.drop_last());
            assert(s.drop_last()[0] == body[0]);
        } else {
            assert(s =~= body);
        }
    }
}

/// The characters left once the white space around them is gone.
pub fn trim_chars(chars: &[char]) -> (kept: Vec<char>)
    ensures
        kept@ == trimmed(chars@),
{
    let mut from: usize = 0;
    assert(chars@.subrange(0, chars@.len() as int) =~= chars@);
    while from < chars.len() && white(chars[from])
        invariant
            from <= chars@.len(),
            trimmed_start(chars@.subrange(from as int, chars@.len() as int)) == trimmed_start(
                chars@,
            ),
        decreases chars@.len() - from,
    {
        let ghost rest = chars@.subrange(from as int, chars@.len() as int);
        assert(rest[0] == chars@[from as int]);
        assert(rest.subrange(1, rest.len() as int) =~= chars@.subrange(
            from + 1,
            chars@.len() as int,
        ));
        from += 1;
    }
    let ghost rest = chars@.subrange(from as int, chars@.len() as int);
    proof {
        if from < chars@.len() {
            assert(rest[0] == chars@[from as int]);
        }
    }
    assert(trimmed_start(chars@) == rest);
    let mut to: usize = chars.len();
    while to > from && white(chars[to - 1])
        invariant
            from <= to <= chars@.len(),
            trimmed_end(chars@.subrange(from as int, to as int)) == trimmed_end(rest),
        decreases to,
    {
        let ghost here = chars@.subrange(from as int, to as int);
        assert(here.last() == chars@[to - 1]);
        assert(here.drop_last() =~= chars@.subrange(from as int, to - 1));
        to -= 1;
    }
    proof {
        if to > from {
            assert(chars@.subrange(from as int, to as int).last() == chars@[to - 1]);
        }
    }
    let mut kept: Vec<char> = Vec::new();
    kept.extend_from_slice(slice_subrange(chars, from, to));
    assert(kept@ =~= chars@.subrange(from as int, to as int));
    kept
}

/// The text left once the white space around it is gone.
pub fn trim(text: &str) -> (kept: String)
    ensures
        kept@ == trimmed(text@),
{
    let chars = chars_of(text);
    string_of(trim_chars(chars.as_slice()).as_slice())
}

/// An ASCII capital as its small letter, anything else as it is.
pub open spec fn lowered(c: char) -> char {
    if 'A' <= c <= 'Z' {
        (c as u32 + 32) as char
    } else {
        c
    }
}

/// Equal but for the case of ASCII letters.
pub open spec fn same_ignoring_case(a: Seq<char>, b: Seq<char>) -> bool {
    &&& a.len() == b.len()
    &&& forall|i: int| 0 <= i < a.len() ==> lowered(#[trigger] a[i]) == lowered(b[i])
}

fn lower(c: char) -> (low: char)
    ensures
        low == lowered(c),
{
    if 'A' <= c && c <= 'Z' {
        (c as u8 + 32) as char
    } else {
        c
    }
}

/// True when two names are equal but for the case of ASCII letters.
pub fn eq_ignore_case(a: &str, b: &str) -> (same: bool)
    ensures
        same == same_ignoring_case(a@, b@),
{
    let left = chars_of(a);
    let right = chars_of(b);
    if left.len() != right.len() {
        return false;
    }
    let mut i: usize = 0;
    while i < left.len()
        invariant
            i <= left@.len() == right@.len(),
            left@ == a@,
            right@ == b@,
            forall|j: int| 0 <= j < i ==> lowered(#[trigger] left@[j]) == lowered(right@[j]),
        decreases left@.len() - i,
    {
        if lower(left[i]) != lower(right[i]) {
            assert(lowered(a@[i as int]) != lowered(b@[i as int]));
            return false;
        }
        i += 1;
    }
    true
}

/// The items with `separator` between them.
pub open spec fn joined(items: Seq<Seq<char>>, separator: Seq<char>) -> Seq<char>
    decreases items.len(),
{
    if items.len() == 0 {
        Seq::empty()
    } else if items.len() == 1 {
        items[0]
    } else {
        joined(items.drop_last(), separator) + separator + items.last()
    }
}

/// The texts by what they say.
pub open spec fn views(items: Seq<String>) -> Seq<Seq<char>> {
    Seq::new(items.len(), |i: int| items[i]@)
}

/// Joins the items with `separator` between them.
pub fn join(items: &Vec<String>, separator: &str) -> (text: String)
    ensures
        text@ == joined(views(items@), separator@),
{
    let mut text = String::new();
    let mut i: usize = 0;
    assert(views(items@).take(0) =~= Seq::empty());
    while i < items.len()
        invariant
            i <= items@.len(),
            text@ == joined(views(items@).take(i as int), separator@),
        decreases items@.len() - i,
    {
        let ghost before = views(items@).take(i as int);
        let ghost after = views(items@).take(i + 1);
        assert(after.drop_last() =~= before);
        if i > 0 {
            text.append(separator);
        }
        text.append(items[i].as_str());
        assert(i == 0 ==> text@ =~= after[0]);
        i += 1;
    }
    assert(views(items@).take(i as int) =~= views(items@));
    text
}

} // verus!
