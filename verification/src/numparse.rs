use vstd::prelude::*;

use crate::unpacker::lemma_skip_skip;
use vstd::string::StrSliceExecFns;

verus! {

pub open spec fn is_dec_digit(c: char) -> bool {
    48 <= c as u32 <= 57
}

pub open spec fn dec_val(c: char) -> int
    recommends
        is_dec_digit(c),
{
    c as u32 - 48
}

pub open spec fn is_hex_digit(c: char) -> bool {
    (48 <= c as u32 <= 57) || (97 <= c as u32 <= 102) || (65 <= c as u32 <= 70)
}

pub open spec fn hex_val(c: char) -> int
    recommends
        is_hex_digit(c),
{
    if 48 <= c as u32 <= 57 {
        c as u32 - 48
    } else if 97 <= c as u32 <= 102 {
        c as u32 - 87
    } else {
        c as u32 - 55
    }
}

/// Value of a run of decimal digits, folded left onto `acc`: `None` on a
/// non-digit or once the value would pass `limit`.
pub open spec fn parse_dec_digits(s: Seq<char>, acc: int, limit: int) -> Option<int>
    decreases s.len(),
{
    if s.len() == 0 {
        Some(acc)
    } else if !is_dec_digit(s[0]) {
        None
    } else if acc * 10 + dec_val(s[0]) > limit {
        None
    } else {
        parse_dec_digits(s.skip(1), acc * 10 + dec_val(s[0]), limit)
    }
}

/// Value of a run of hexadecimal digits, folded left onto `acc`.
pub open spec fn parse_hex_digits(s: Seq<char>, acc: int, limit: int) -> Option<int>
    decreases s.len(),
{
    if s.len() == 0 {
        Some(acc)
    } else if !is_hex_digit(s[0]) {
        None
    } else if acc * 16 + hex_val(s[0]) > limit {
        None
    } else {
        parse_hex_digits(s.skip(1), acc * 16 + hex_val(s[0]), limit)
    }
}

/// Value of `s` as a decimal unsigned 32-bit integer: an optional plus sign,
/// then at least one digit.
pub open spec fn u32_dec_of(s: Seq<char>) -> Option<int> {
    let body = if s.len() > 0 && s[0] == '+' {
        s.skip(1)
    } else {
        s
    };
    if body.len() == 0 {
        None
    } else {
        parse_dec_digits(body, 0, 0xffffffff)
    }
}

/// Value of `s` as a decimal signed 32-bit integer: an optional sign, then at
/// least one digit.
pub open spec fn i32_dec_of(s: Seq<char>) -> Option<int> {
    if s.len() > 0 && s[0] == '-' {
        let body = s.skip(1);
        if body.len() == 0 {
            None
        } else {
            match parse_dec_digits(body, 0, 0x80000000) {
                Some(v) => Some(-v),
                None => None,
            }
        }
    } else {
        let body = if s.len() > 0 && s[0] == '+' {
            s.skip(1)
        } else {
            s
        };
        if body.len() == 0 {
            None
        } else {
            parse_dec_digits(body, 0, 0x7fffffff)
        }
    }
}

/// Value of `s` as a hexadecimal unsigned 32-bit integer: an optional plus
/// sign, then at least one hex digit.
pub open spec fn u32_hex_of(s: Seq<char>) -> Option<int> {
    let body = if s.len() > 0 && s[0] == '+' {
        s.skip(1)
    } else {
        s
    };
    if body.len() == 0 {
        None
    } else {
        parse_hex_digits(body, 0, 0xffffffff)
    }
}

/// Canonical decimal digit for a value below ten.
pub open spec fn dec_digit_char(d: int) -> char
    recommends
        0 <= d < 10,
{
    if d == 0 { '0' } else if d == 1 { '1' } else if d == 2 { '2' } else if d == 3 { '3' }
    else if d == 4 { '4' } else if d == 5 { '5' } else if d == 6 { '6' } else if d == 7 { '7' }
    else if d == 8 { '8' } else { '9' }
}

/// Canonical lower-case hexadecimal digit for a value below sixteen.
pub open spec fn hex_digit_char(d: int) -> char
    recommends
        0 <= d < 16,
{
    if d < 10 { dec_digit_char(d) }
    else if d == 10 { 'a' } else if d == 11 { 'b' } else if d == 12 { 'c' }
    else if d == 13 { 'd' } else if d == 14 { 'e' } else { 'f' }
}

/// Canonical decimal digits of a non-negative value, most significant first.
pub open spec fn dec_string_of(v: int) -> Seq<char>
    recommends
        v >= 0,
    decreases v,
{
    if v < 10 {
        seq![dec_digit_char(v)]
    } else {
        dec_string_of(v / 10).push(dec_digit_char(v % 10))
    }
}

/// Canonical hexadecimal digits of a non-negative value.
pub open spec fn hex_string_of(v: int) -> Seq<char>
    recommends
        v >= 0,
    decreases v,
{
    if v < 16 {
        seq![hex_digit_char(v)]
    } else {
        hex_string_of(v / 16).push(hex_digit_char(v % 16))
    }
}

/// Canonical decimal text of a signed value.
pub open spec fn i32_string_of(v: int) -> Seq<char> {
    if v < 0 {
        seq!['-'] + dec_string_of(-v)
    } else {
        dec_string_of(v)
    }
}

/// Appending a digit to a run multiplies the parsed value by the base and
/// adds the digit, within the limit.
proof fn lemma_dec_parse_push(s: Seq<char>, c: char, acc: int, limit: int)
    ensures
        parse_dec_digits(s.push(c), acc, limit) == (match parse_dec_digits(s, acc, limit) {
            Some(u) => if is_dec_digit(c) && u * 10 + dec_val(c) <= limit {
                Some(u * 10 + dec_val(c))
            } else {
                None::<int>
            },
            None => None::<int>,
        }),
    decreases s.len(),
{
    reveal_with_fuel(parse_dec_digits, 3);
    if s.len() == 0 {
        assert(s.push(c) =~= seq![c]);
        assert(seq![c].skip(1) =~= Seq::<char>::empty());
    } else {
        assert(s.push(c)[0] == s[0]);
        assert(s.push(c).skip(1) =~= s.skip(1).push(c));
        lemma_dec_parse_push(s.skip(1), c, acc * 10 + dec_val(s[0]), limit);
    }
}

/// Appending a hex digit to a run multiplies the parsed value by sixteen and
/// adds the digit, within the limit.
proof fn lemma_hex_parse_push(s: Seq<char>, c: char, acc: int, limit: int)
    ensures
        parse_hex_digits(s.push(c), acc, limit) == (match parse_hex_digits(s, acc, limit) {
            Some(u) => if is_hex_digit(c) && u * 16 + hex_val(c) <= limit {
                Some(u * 16 + hex_val(c))
            } else {
                None::<int>
            },
            None => None::<int>,
        }),
    decreases s.len(),
{
    reveal_with_fuel(parse_hex_digits, 3);
    if s.len() == 0 {
        assert(s.push(c) =~= seq![c]);
        assert(seq![c].skip(1) =~= Seq::<char>::empty());
    } else {
        assert(s.push(c)[0] == s[0]);
        assert(s.push(c).skip(1) =~= s.skip(1).push(c));
        lemma_hex_parse_push(s.skip(1), c, acc * 16 + hex_val(s[0]), limit);
    }
}

/// The canonical decimal digits of a value re-parse to that value.
pub proof fn lemma_dec_round_trip(v: int, limit: int)
    requires
        0 <= v <= limit,
    ensures
        dec_string_of(v).len() >= 1,
        is_dec_digit(dec_string_of(v)[0]),
        parse_dec_digits(dec_string_of(v), 0, limit) == Some(v),
    decreases v,
{
    reveal_with_fuel(parse_dec_digits, 3);
    if v < 10 {
        let c = dec_digit_char(v);
        assert(dec_val(c) == v);
        assert(seq![c].skip(1) =~= Seq::<char>::empty());
    } else {
        lemma_dec_round_trip(v / 10, limit);
        lemma_dec_parse_push(dec_string_of(v / 10), dec_digit_char(v % 10), 0, limit);
        assert(v / 10 * 10 + v % 10 == v);
        assert(dec_string_of(v)[0] == dec_string_of(v / 10)[0]);
    }
}

/// The canonical hexadecimal digits of a value re-parse to that value.
pub proof fn lemma_hex_round_trip(v: int, limit: int)
    requires
        0 <= v <= limit,
    ensures
        hex_string_of(v).len() >= 1,
        is_hex_digit(hex_string_of(v)[0]),
        parse_hex_digits(hex_string_of(v), 0, limit) == Some(v),
    decreases v,
{
    reveal_with_fuel(parse_hex_digits, 3);
    if v < 16 {
        let c = hex_digit_char(v);
        assert(hex_val(c) == v);
        assert(seq![c].skip(1) =~= Seq::<char>::empty());
    } else {
        lemma_hex_round_trip(v / 16, limit);
        lemma_hex_parse_push(hex_string_of(v / 16), hex_digit_char(v % 16), 0, limit);
        assert(v / 16 * 16 + v % 16 == v);
        assert(hex_string_of(v)[0] == hex_string_of(v / 16)[0]);
    }
}

/// The canonical decimal text of an unsigned 32-bit value re-parses to it.
pub proof fn lemma_u32_dec_round_trip(v: u32)
    ensures
        u32_dec_of(dec_string_of(v as int)) == Some(v as int),
{
    lemma_dec_round_trip(v as int, 0xffffffff);
    assert(dec_string_of(v as int)[0] != '+');
}

/// The canonical decimal text of a signed 32-bit value re-parses to it.
pub proof fn lemma_i32_dec_round_trip(v: i32)
    ensures
        i32_dec_of(i32_string_of(v as int)) == Some(v as int),
{
    if v < 0 {
        lemma_dec_round_trip(-(v as int), 0x80000000);
        let s = i32_string_of(v as int);
        assert(s[0] == '-');
        assert(s.skip(1) =~= dec_string_of(-(v as int)));
    } else {
        lemma_dec_round_trip(v as int, 0x7fffffff);
        let s = i32_string_of(v as int);
        assert(s[0] != '-' && s[0] != '+');
    }
}

/// The canonical hexadecimal text of an unsigned 32-bit value re-parses to
/// it.
pub proof fn lemma_u32_hex_round_trip(v: u32)
    ensures
        u32_hex_of(hex_string_of(v as int)) == Some(v as int),
{
    lemma_hex_round_trip(v as int, 0xffffffff);
    assert(hex_string_of(v as int)[0] != '+');
}

/// Folds the decimal digits of `s` from `start` on.
fn dec_run(s: &str, start: usize, limit: u32) -> (r: Option<u32>)
    requires
        start as int <= s@.len(),
    ensures
        r matches Some(v) ==> v <= limit && parse_dec_digits(
            s@.skip(start as int),
            0,
            limit as int,
        ) == Some(v as int),
        r is None ==> parse_dec_digits(s@.skip(start as int), 0, limit as int) is None,
{
    let n: usize = s.unicode_len();
    let mut i: usize = start;
    let mut acc: u32 = 0;
    while i < n
        invariant
            start <= i <= n,
            n as int == s@.len(),
            acc <= limit,
            parse_dec_digits(s@.skip(start as int), 0, limit as int) == parse_dec_digits(
                s@.skip(i as int),
                acc as int,
                limit as int,
            ),
        decreases n - i,
    {
        let c: char = s.get_char(i);
        proof {
            assert(s@.skip(i as int)[0] == c);
        }
        if !(c >= '0' && c <= '9') {
            return None;
        }
        let d: u32 = (c as u32) - 48;
        let next: u64 = (acc as u64) * 10 + (d as u64);
        if next > limit as u64 {
            return None;
        }
        proof {
            lemma_skip_skip(s@, i as int, 1);
        }
        acc = next as u32;
        i = i + 1;
    }
    proof {
        assert(s@.skip(n as int).len() == 0);
    }
    Some(acc)
}

/// Folds the hexadecimal digits of `s` from `start` on.
fn hex_run(s: &str, start: usize, limit: u32) -> (r: Option<u32>)
    requires
        start as int <= s@.len(),
    ensures
        r matches Some(v) ==> v <= limit && parse_hex_digits(
            s@.skip(start as int),
            0,
            limit as int,
        ) == Some(v as int),
        r is None ==> parse_hex_digits(s@.skip(start as int), 0, limit as int) is None,
{
    let n: usize = s.unicode_len();
    let mut i: usize = start;
    let mut acc: u32 = 0;
    while i < n
        invariant
            start <= i <= n,
            n as int == s@.len(),
            acc <= limit,
            parse_hex_digits(s@.skip(start as int), 0, limit as int) == parse_hex_digits(
                s@.skip(i as int),
                acc as int,
                limit as int,
            ),
        decreases n - i,
    {
        let c: char = s.get_char(i);
        proof {
            assert(s@.skip(i as int)[0] == c);
        }
        let d: u32 = if c >= '0' && c <= '9' {
            (c as u32) - 48
        } else if c >= 'a' && c <= 'f' {
            (c as u32) - 87
        } else if c >= 'A' && c <= 'F' {
            (c as u32) - 55
        } else {
            return None;
        };
        let next: u64 = (acc as u64) * 16 + (d as u64);
        if next > limit as u64 {
            return None;
        }
        proof {
            lemma_skip_skip(s@, i as int, 1);
        }
        acc = next as u32;
        i = i + 1;
    }
    proof {
        assert(s@.skip(n as int).len() == 0);
    }
    Some(acc)
}

/// Parses `s` as a decimal unsigned 32-bit integer.
pub fn parse_u32_dec(s: &str) -> (r: Option<u32>)
    ensures
        r matches Some(v) ==> u32_dec_of(s@) == Some(v as int),
        r is None ==> u32_dec_of(s@) is None,
{
    let n: usize = s.unicode_len();
    let mut start: usize = 0;
    if n > 0 && s.get_char(0) == '+' {
        start = 1;
    }
    if start == n {
        return None;
    }
    proof {
        if start == 1 {
            assert(s@.skip(0).skip(1) =~= s@.skip(1));
        } else {
            assert(s@.skip(0) =~= s@);
        }
    }
    dec_run(s, start, 0xffffffff)
}

/// Parses `s` as a decimal signed 32-bit integer.
pub fn parse_i32_dec(s: &str) -> (r: Option<i32>)
    ensures
        r matches Some(v) ==> i32_dec_of(s@) == Some(v as int),
        r is None ==> i32_dec_of(s@) is None,
{
    let n: usize = s.unicode_len();
    if n > 0 && s.get_char(0) == '-' {
        if n == 1 {
            return None;
        }
        match dec_run(s, 1, 0x80000000) {
            Some(v) => Some((-(v as i64)) as i32),
            None => None,
        }
    } else {
        let mut start: usize = 0;
        if n > 0 && s.get_char(0) == '+' {
            start = 1;
        }
        if start == n {
            return None;
        }
        proof {
            if start == 0 {
                assert(s@.skip(0) =~= s@);
            }
        }
        match dec_run(s, start, 0x7fffffff) {
            Some(v) => Some(v as i32),
            None => None,
        }
    }
}

/// Parses `s` as a hexadecimal unsigned 32-bit integer.
pub fn parse_u32_hex(s: &str) -> (r: Option<u32>)
    ensures
        r matches Some(v) ==> u32_hex_of(s@) == Some(v as int),
        r is None ==> u32_hex_of(s@) is None,
{
    let n: usize = s.unicode_len();
    let mut start: usize = 0;
    if n > 0 && s.get_char(0) == '+' {
        start = 1;
    }
    if start == n {
        return None;
    }
    proof {
        if start == 0 {
            assert(s@.skip(0) =~= s@);
        }
    }
    hex_run(s, start, 0xffffffff)
}

} // verus!
