//! Geometry: reading a position or a size out of the text in which a platform
//! prints it, the test whether a point lies in a window, and the point at
//! which an element is clicked.
//!
//! A printed pair looks like `x:120.000000 y:48.000000`, somewhere inside a
//! longer line. Of each number only the whole part is read: an optional sign,
//! then digits, up to the first full stop.

use vstd::prelude::*;
use crate::text::chars_of;

verus! {

/// The place just behind the first `key`, `:` at or after `from`.
pub open spec fn find_key(s: Seq<char>, key: char, from: int) -> Option<int>
    decreases s.len() - from,
{
    if from < 0 || from + 1 >= s.len() {
        None
    } else if s[from] == key && s[from + 1] == ':' {
        Some(from + 2)
    } else {
        find_key(s, key, from + 1)
    }
}

/// The place of the first full stop at or after `from`.
pub open spec fn find_stop(s: Seq<char>, from: int) -> Option<int>
    decreases s.len() - from,
{
    if from < 0 || from >= s.len() {
        None
    } else if s[from] == '.' {
        Some(from)
    } else {
        find_stop(s, from + 1)
    }
}

pub open spec fn is_digit(c: char) -> bool {
    '0' <= c <= '9'
}

pub open spec fn all_digits(s: Seq<char>) -> bool {
    forall|i: int| 0 <= i < s.len() ==> is_digit(#[trigger] s[i])
}

/// The number that a run of decimal digits spells.
pub open spec fn digits_value(s: Seq<char>) -> int
    decreases s.len(),
{
    if s.len() == 0 {
        0
    } else {
        10 * digits_value(s.drop_last()) + (s.last() as int - '0' as int)
    }
}

/// The number that `s` spells: an optional `+` or `-`, then one digit or more,
/// and nothing else, with a value that a 32-bit integer holds.
pub open spec fn parse_number(s: Seq<char>) -> Option<int> {
    let signed = s.len() > 0 && (s[0] == '-' || s[0] == '+');
    let digits = if signed {
        s.drop_first()
    } else {
        s
    };
    let value = if signed && s[0] == '-' {
        -digits_value(digits)
    } else {
        digits_value(digits)
    };
    if digits.len() > 0 && all_digits(digits) && i32::MIN <= value <= i32::MAX {
        Some(value)
    } else {
        None
    }
}

/// The number printed behind the first `key`, `:` at or after `from`, with the
/// place where it starts.
pub open spec fn parse_field(s: Seq<char>, key: char, from: int) -> Option<(int, int)> {
    match find_key(s, key, from) {
        None => None,
        Some(start) => match find_stop(s, start) {
            None => None,
            Some(stop) => match parse_number(s.subrange(start, stop)) {
                None => None,
                Some(value) => Some((value, start)),
            },
        },
    }
}

/// The two numbers printed behind `first`, `:` and, after that, behind
/// `second`, `:`.
pub open spec fn parse_pair(s: Seq<char>, first: char, second: char) -> Option<(int, int)> {
    match parse_field(s, first, 0) {
        None => None,
        Some((a, start)) => match parse_field(s, second, start) {
            None => None,
            Some((b, _)) => Some((a, b)),
        },
    }
}

/// What is read out of a printed pair: its two numbers, or `(0, 0)` where the
/// text does not hold them.
pub open spec fn pair_or_origin(s: Seq<char>, first: char, second: char) -> (int, int) {
    match parse_pair(s, first, second) {
        Some(p) => p,
        None => (0, 0),
    }
}

fn scan_key(s: &Vec<char>, key: char, from: usize) -> (r: Option<usize>)
    requires
        from <= s.len(),
    ensures
        match find_key(s@, key, from as int) {
            Some(start) => r == Some(start as usize) && from + 2 <= start <= s.len(),
            None => r is None,
        },
{
    let mut i: usize = from;
    while i < s.len() && i + 1 < s.len()
        invariant
            from <= i <= s.len(),
            find_key(s@, key, from as int) == find_key(s@, key, i as int),
        decreases s.len() - i,
    {
        if s[i] == key && s[i + 1] == ':' {
            return Some(i + 2);
        }
        i += 1;
    }
    None
}

fn scan_stop(s: &Vec<char>, from: usize) -> (r: Option<usize>)
    requires
        from <= s.len(),
    ensures
        match find_stop(s@, from as int) {
            Some(stop) => r == Some(stop as usize) && from <= stop < s.len(),
            None => r is None,
        },
{
    let mut i: usize = from;
    while i < s.len()
        invariant
            from <= i <= s.len(),
            find_stop(s@, from as int) == find_stop(s@, i as int),
        decreases s.len() - i,
    {
        if s[i] == '.' {
            return Some(i);
        }
        i += 1;
    }
    None
}

/// A run of digits is worth no less than any of its beginnings.
proof fn lemma_digits_grow(s: Seq<char>, i: int)
    requires
        all_digits(s),
        0 <= i <= s.len(),
    ensures
        0 <= digits_value(s.take(i)) <= digits_value(s),
    decreases s.len() - i,
{
    lemma_digits_nonnegative(s.take(i));
    if i < s.len() {
        lemma_digits_grow(s, i + 1);
        assert(s.take(i + 1).drop_last() =~= s.take(i));
        assert(is_digit(s[i]));
    } else {
        assert(s.take(i) =~= s);
    }
}

proof fn lemma_digits_nonnegative(s: Seq<char>)
    requires
        all_digits(s),
    ensures
        0 <= digits_value(s),
    decreases s.len(),
{
    if s.len() > 0 {
        lemma_digits_nonnegative(s.drop_last());
        assert(is_digit(s[s.len() - 1]));
    }
}

/// Reads the number spelt by `s[from..to]`.
fn scan_number(s: &Vec<char>, from: usize, to: usize) -> (r: Option<i32>)
    requires
        from <= to <= s.len(),
    ensures
        match parse_number(s@.subrange(from as int, to as int)) {
            Some(value) => r == Some(value as i32),
            None => r is None,
        },
{
    let ghost text = s@.subrange(from as int, to as int);
    if from == to {
        return None;
    }
    let negative = s[from] == '-';
    let signed = negative || s[from] == '+';
    let first: usize = if signed {
        from + 1
    } else {
        from
    };
    let ghost digits = s@.subrange(first as int, to as int);
    assert(digits =~= if signed {
        text.drop_first()
    } else {
        text
    });
    if first == to {
        return None;
    }
    let mut acc: i64 = 0;
    let mut i: usize = first;
    assert(digits.take(0) =~= Seq::<char>::empty());
    while i < to
        invariant
            first <= i <= to <= s.len(),
            first < to,
            text == s@.subrange(from as int, to as int),
            digits == s@.subrange(first as int, to as int),
            signed == (text.len() > 0 && (text[0] == '-' || text[0] == '+')),
            negative == (signed && text[0] == '-'),
            digits == if signed {
                text.drop_first()
            } else {
                text
            },
            all_digits(digits.take(i - first)),
            acc == digits_value(digits.take(i - first)),
            0 <= acc <= 0x8000_0000,
        decreases to - i,
    {
        let c = s[i];
        if !(c >= '0' && c <= '9') {
            assert(!is_digit(digits[i - first]));
            return None;
        }
        let d: i64 = (c as u32 - '0' as u32) as i64;
        proof {
            assert(digits.take(i - first + 1).drop_last() =~= digits.take(i - first));
            assert(digits.take(i - first + 1).last() == c);
            assert forall|k: int| 0 <= k < i - first + 1 implies is_digit(
                #[trigger] digits.take(i - first + 1)[k],
            ) by {
                if k < i - first {
                    assert(digits.take(i - first)[k] == digits.take(i - first + 1)[k]);
                }
            }
        }
        acc = acc * 10 + d;
        if acc > 0x8000_0000 {
            proof {
                if all_digits(digits) {
                    lemma_digits_grow(digits, i - first + 1);
                }
            }
            return None;
        }
        i += 1;
    }
    assert(digits.take(to - first) =~= digits);
    if negative {
        Some((-acc) as i32)
    } else if acc <= 0x7fff_ffff {
        Some(acc as i32)
    } else {
        None
    }
}

/// Reads the number behind `key`, `:`.
fn scan_field(s: &Vec<char>, key: char, from: usize) -> (r: Option<(i32, usize)>)
    requires
        from <= s.len(),
    ensures
        match parse_field(s@, key, from as int) {
            Some((value, start)) => r == Some((value as i32, start as usize)) && start <= s.len(),
            None => r is None,
        },
{
    let start = match scan_key(s, key, from) {
        Some(start) => start,
        None => {
            return None;
        },
    };
    let stop = match scan_stop(s, start) {
        Some(stop) => stop,
        None => {
            return None;
        },
    };
    match scan_number(s, start, stop) {
        Some(value) => Some((value, start)),
        None => None,
    }
}

/// Reads a printed pair: the number behind `first`, `:` and the number behind
/// the next `second`, `:`. Text that does not hold both reads as `(0, 0)`.
pub fn read_pair(text: &str, first: char, second: char) -> (r: (i32, i32))
    ensures
        (r.0 as int, r.1 as int) == pair_or_origin(text@, first, second),
{
    let s = chars_of(text);
    let (a, start) = match scan_field(&s, first, 0) {
        Some(found) => found,
        None => {
            return (0, 0);
        },
    };
    match scan_field(&s, second, start) {
        Some((b, _)) => (a, b),
        None => (0, 0),
    }
}

/// Whether the point `(px, py)` lies in the rectangle with corner `(x, y)` and
/// the given extent, its border included.
pub open spec fn within(px: int, py: int, x: int, y: int, width: int, height: int) -> bool {
    x <= px <= x + width && y <= py <= y + height
}

pub fn in_bounds(px: i32, py: i32, x: i32, y: i32, width: i32, height: i32) -> (r: bool)
    ensures
        r == within(px as int, py as int, x as int, y as int, width as int, height as int),
{
    let right: i64 = x as i64 + width as i64;
    let bottom: i64 = y as i64 + height as i64;
    px >= x && px as i64 <= right && py >= y && py as i64 <= bottom
}

/// Half of `n`, rounded towards zero.
pub open spec fn half(n: int) -> int {
    if n >= 0 {
        n / 2
    } else {
        -((-n) / 2)
    }
}

/// The middle of a stretch that starts at `start` and is `extent` long.
pub open spec fn middle(start: int, extent: int) -> int {
    start + half(extent)
}

pub fn midpoint(start: i32, extent: i32) -> (r: i64)
    ensures
        r == middle(start as int, extent as int),
{
    let e: i64 = extent as i64;
    let h: i64 = if e >= 0 {
        e / 2
    } else {
        -((-e) / 2)
    };
    start as i64 + h
}

} // verus!
