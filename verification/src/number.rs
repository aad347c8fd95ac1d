//! Numbers as a user types them.

use vstd::prelude::*;
use vstd::slice::*;

use crate::text;

verus! {

/// What a digit is worth, if it is one in this radix.
pub open spec fn digit_value(c: char, radix: nat) -> Option<nat> {
    let worth: nat = if '0' <= c <= '9' {
        (c as u32 - '0' as u32) as nat
    } else if 'a' <= c <= 'z' {
        (c as u32 - 'a' as u32 + 10) as nat
    } else if 'A' <= c <= 'Z' {
        (c as u32 - 'A' as u32 + 10) as nat
    } else {
        radix
    };
    if worth < radix {
        Some(worth)
    } else {
        None
    }
}

/// The number a run of digits spells, if every one of them is a digit.
pub open spec fn positional(s: Seq<char>, radix: nat) -> Option<nat>
    decreases s.len(),
{
    if s.len() == 0 {
        Some(0)
    } else {
        match (positional(s.drop_last(), radix), digit_value(s.last(), radix)) {
            (Some(high), Some(low)) => Some(high * radix + low),
            _ => None,
        }
    }
}

/// The number a text spells in this radix: at least one digit, a plus sign in
/// front allowed, and no more than `most`.
pub open spec fn spelled(s: Seq<char>, radix: nat, most: nat) -> Option<nat> {
    let digits = if s.len() > 0 && s[0] == '+' {
        s.subrange(1, s.len() as int)
    } else {
        s
    };
    if digits.len() == 0 {
        None
    } else {
        match positional(digits, radix) {
            Some(n) => if n <= most {
                Some(n)
            } else {
                None
            },
            None => None,
        }
    }
}

fn value_of(c: char, radix: u32) -> (value: Option<u32>)
    requires
        radix <= 36,
    ensures
        match value {
            Some(v) => digit_value(c, radix as nat) == Some(v as nat),
            None => digit_value(c, radix as nat) is None,
        },
{
    let worth: u32 = if '0' <= c && c <= '9' {
        c as u32 - '0' as u32
    } else if 'a' <= c && c <= 'z' {
        c as u32 - 'a' as u32 + 10
    } else if 'A' <= c && c <= 'Z' {
        c as u32 - 'A' as u32 + 10
    } else {
        radix
    };
    if worth < radix {
        Some(worth)
    } else {
        None
    }
}

/// More digits never make a smaller number.
proof fn a_prefix_spells_no_more(s: Seq<char>, radix: nat, n: int)
    requires
        0 <= n <= s.len(),
        radix >= 1,
    ensures
        positional(s, radix) matches Some(whole) ==> positional(s.take(n), radix) matches Some(
            part,
        ) && part <= whole,
    decreases s.len(),
{
    if n < s.len() {
        assert(s.drop_last().take(n) =~= s.take(n));
        a_prefix_spells_no_more(s.drop_last(), radix, n);
        if let Some(high) = positional(s.drop_last(), radix) {
            assert(high <= high * radix) by (nonlinear_arith)
                requires
                    radix >= 1,
            ;
        }
    } else {
        assert(s.take(n) =~= s);
    }
}

/// Reads a number of at most `most`.
pub fn parse(chars: &[char], radix: u32, most: u64) -> (value: Option<u64>)
    requires
        2 <= radix <= 36,
    ensures
        match value {
            Some(n) => spelled(chars@, radix as nat, most as nat) == Some(n as nat),
            None => spelled(chars@, radix as nat, most as nat) is None,
        },
{
    let from: usize = if chars.len() > 0 && chars[0] == '+' {
        1
    } else {
        0
    };
    let digits = slice_subrange(chars, from, chars.len());
    assert(from == 0 ==> digits@ =~= chars@);
    if digits.len() == 0 {
        return None;
    }
    let mut value: u64 = 0;
    let mut i: usize = 0;
    assert(digits@.take(0) =~= Seq::empty());
    while i < digits.len()
        invariant
            i <= digits@.len(),
            2 <= radix <= 36,
            positional(digits@.take(i as int), radix as nat) == Some(value as nat),
            value <= most,
            digits@.len() > 0,
            from == 0 || from == 1,
            from == 1 <==> chars@.len() > 0 && chars@[0] == '+',
            digits@ == chars@.subrange(from as int, chars@.len() as int),
            from == 0 ==> digits@ == chars@,
        decreases digits@.len() - i,
    {
        let ghost next = digits@.take(i + 1);
        assert(next.drop_last() =~= digits@.take(i as int));
        proof {
            a_prefix_spells_no_more(digits@, radix as nat, i + 1);
        }
        let low: u32 = match value_of(digits[i], radix) {
            Some(low) => low,
            None => {
                return None;
            },
        };
        let scaled: u64 = match value.checked_mul(radix as u64) {
            Some(scaled) => scaled,
            None => {
                return None;
            },
        };
        value = match scaled.checked_add(low as u64) {
            Some(value) => value,
            None => {
                return None;
            },
        };
        if value > most {
            return None;
        }
        i += 1;
    }
    assert(digits@.take(i as int) =~= digits@);
    Some(value)
}

/// A number read back from its decimal spelling is the number.
pub proof fn decimals_read_back(n: nat)
    ensures
        positional(text::dec(n), 10) == Some(n),
        text::dec(n).len() > 0,
        forall|i: int|
            0 <= i < text::dec(n).len() ==> '0' <= #[trigger] text::dec(n)[i] <= '9',
    decreases n,
{
    if n < 10 {
        let s = text::dec(n);
        assert(s.drop_last() =~= Seq::empty());
        assert(positional(s.drop_last(), 10) == Some(0nat));
        assert(s.last() == (48 + n) as char);
    } else {
        decimals_read_back(n / 10);
        let s = text::dec(n);
        assert(s.drop_last() =~= text::dec(n / 10));
        assert(s.last() == text::digit(n % 10));
        assert forall|i: int| 0 <= i < s.len() implies '0' <= #[trigger] s[i] <= '9' by {
            if i < s.len() - 1 {
                assert(s[i] == text::dec(n / 10)[i]);
            }
        }
    }
}

/// A number read back from its hexadecimal spelling is the number.
pub proof fn hexadecimals_read_back(n: nat)
    ensures
        positional(text::hex(n), 16) == Some(n),
        text::hex(n).len() > 0,
        forall|i: int|
            0 <= i < text::hex(n).len() ==> {
                ||| '0' <= #[trigger] text::hex(n)[i] <= '9'
                ||| 'a' <= text::hex(n)[i] <= 'f'
            },
    decreases n,
{
    if n < 16 {
        let s = text::hex(n);
        assert(s.drop_last() =~= Seq::empty());
        assert(positional(s.drop_last(), 16) == Some(0nat));
        assert(s.last() == text::digit(n));
    } else {
        hexadecimals_read_back(n / 16);
        let s = text::hex(n);
        assert(s.drop_last() =~= text::hex(n / 16));
        assert(s.last() == text::digit(n % 16));
        assert forall|i: int| 0 <= i < s.len() implies {
            ||| '0' <= #[trigger] s[i] <= '9'
            ||| 'a' <= s[i] <= 'f'
        } by {
            if i < s.len() - 1 {
                assert(s[i] == text::hex(n / 16)[i]);
            }
        }
    }
}

/// What the digits are worth: the tens digits count up from `0`, the letters go
/// on from ten in either case, and a digit the radix does not have is none.
pub proof fn a_digit_is_worth_its_place(d: nat, radix: nat)
    requires
        d < 36,
        radix <= 36,
    ensures
        d < 10 ==> digit_value((0x30 + d) as char, radix) == if d < radix {
            Some(d)
        } else {
            None
        },
        d >= 10 ==> digit_value((0x61 + d - 10) as char, radix) == if d < radix {
            Some(d)
        } else {
            None
        },
        d >= 10 ==> digit_value((0x41 + d - 10) as char, radix) == if d < radix {
            Some(d)
        } else {
            None
        },
{
}

/// Nothing but a digit or a letter is a digit.
pub proof fn nothing_else_is_a_digit(c: char, radix: nat)
    requires
        radix <= 36,
        !(0x30 <= c as u32 <= 0x39 || 0x41 <= c as u32 <= 0x5A || 0x61 <= c as u32 <= 0x7A),
    ensures
        digit_value(c, radix) is None,
{
}

/// `radix` times itself, `n` times over.
pub open spec fn power(radix: nat, n: nat) -> nat
    decreases n,
{
    if n == 0 {
        1
    } else {
        radix * power(radix, (n - 1) as nat)
    }
}

/// Digits count by where they stand: what is written in front of `tail` counts
/// once more by the radix for each digit of it.
pub proof fn digits_count_by_where_they_stand(head: Seq<char>, tail: Seq<char>, radix: nat)
    ensures
        positional(head + tail, radix) == match (positional(head, radix), positional(tail, radix)) {
            (Some(high), Some(low)) => Some(high * power(radix, tail.len()) + low),
            _ => None::<nat>,
        },
    decreases tail.len(),
{
    if tail.len() == 0 {
        assert(head + tail =~= head);
        if let Some(high) = positional(head, radix) {
            assert(high * 1 == high) by (nonlinear_arith);
            assert(high * power(radix, 0) == high);
        }
    } else {
        let all = head + tail;
        assert(all.drop_last() =~= head + tail.drop_last());
        assert(all.last() == tail.last());
        digits_count_by_where_they_stand(head, tail.drop_last(), radix);
        if positional(head, radix) is Some && positional(tail, radix) is Some {
            let high = positional(head, radix)->0;
            let mid = positional(tail.drop_last(), radix)->0;
            let low = digit_value(tail.last(), radix)->0;
            let p = power(radix, (tail.len() - 1) as nat);
            assert((high * p + mid) * radix + low == high * (radix * p) + (mid * radix + low))
                by (nonlinear_arith);
        }
    }
}

proof fn zeros_are_worth_nothing(n: nat)
    ensures
        positional(text::repeated('0', n), 16) == Some(0nat),
    decreases n,
{
    if n > 0 {
        let s = text::repeated('0', n);
        assert(s.drop_last() =~= text::repeated('0', (n - 1) as nat));
        zeros_are_worth_nothing((n - 1) as nat);
    }
}

proof fn hexadecimals_are_short(n: nat, digits: nat)
    requires
        0 < digits,
        n < power(16, digits),
    ensures
        0 < text::hex(n).len() <= digits,
    decreases digits,
{
    if n >= 16 {
        if digits == 1 {
            reveal_with_fuel(power, 2);
        }
        let p = power(16, (digits - 1) as nat);
        assert(n / 16 < p) by (nonlinear_arith)
            requires
                n < 16 * p,
        ;
        hexadecimals_are_short(n / 16, (digits - 1) as nat);
    }
}

/// A number in a column of hexadecimal digits fills the column and reads back.
pub proof fn padded_hexadecimals_read_back(n: nat, width: nat)
    requires
        0 < width,
        n < power(16, width),
    ensures
        text::hex_padded(n, width).len() == width,
        positional(text::hex_padded(n, width), 16) == Some(n),
        forall|i: int|
            0 <= i < width ==> {
                ||| '0' <= #[trigger] text::hex_padded(n, width)[i] <= '9'
                ||| 'a' <= text::hex_padded(n, width)[i] <= 'f'
            },
{
    hexadecimals_are_short(n, width);
    hexadecimals_read_back(n);
    let pad = text::shortfall(text::hex(n).len(), width);
    zeros_are_worth_nothing(pad);
    digits_count_by_where_they_stand(text::repeated('0', pad), text::hex(n), 16);
    let p = power(16, text::hex(n).len());
    assert(0 * p == 0) by (nonlinear_arith);
    assert(positional(text::hex_padded(n, width), 16) == Some((0 * p + n) as nat));
    assert forall|i: int| 0 <= i < width implies {
        ||| '0' <= #[trigger] text::hex_padded(n, width)[i] <= '9'
        ||| 'a' <= text::hex_padded(n, width)[i] <= 'f'
    } by {
        if i >= pad {
            assert(text::hex_padded(n, width)[i] == text::hex(n)[i - pad]);
        }
    }
}

/// A number is spelled in decimal with no zero in front.
pub proof fn decimals_have_no_zero_in_front(n: nat)
    ensures
        n > 0 ==> text::dec(n)[0] != '0',
        n == 0 ==> text::dec(n) == seq!['0'],
    decreases n,
{
    if n >= 10 {
        decimals_have_no_zero_in_front(n / 10);
        decimals_read_back(n / 10);
        assert(text::dec(n)[0] == text::dec(n / 10)[0]);
    } else {
        assert(text::dec(n) =~= seq![(48 + n) as char]);
        assert(((48 + n) as char) as u32 == 48 + n);
        if n == 0 {
            assert(text::dec(0) =~= seq!['0']);
        }
    }
}

} // verus!
