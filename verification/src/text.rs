//! Character-level helpers shared by the field parsers.

use vstd::prelude::*;
use vstd::std_specs::iter::IteratorSpec;

verus! {

/// Whether `c` is one of the ASCII digits `0` to `9`.
pub open spec fn is_digit(c: char) -> bool {
    '0' <= c <= '9'
}

/// The number that the ASCII digit `c` stands for.
pub open spec fn digit_value(c: char) -> nat
    recommends
        is_digit(c),
{
    (c as u32 - '0' as u32) as nat
}

/// Whether every character of `s` is an ASCII digit.
pub open spec fn all_digits(s: Seq<char>) -> bool {
    forall|i: int| 0 <= i < s.len() ==> is_digit(#[trigger] s[i])
}

/// The number written by the digit string `s` in base ten; the empty string stands for zero.
pub open spec fn decimal_value(s: Seq<char>) -> nat
    decreases s.len(),
{
    if s.len() == 0 {
        0
    } else {
        decimal_value(s.drop_last()) * 10 + digit_value(s.last())
    }
}

/// Reads the characters of `s` into a vector.
pub fn chars_of(s: &str) -> (v: Vec<char>)
    ensures
        v@ == s@,
{
    let mut v: Vec<char> = Vec::new();
    let mut it = s.chars();
    loop
        invariant
            it.obeys_prophetic_iter_laws(),
            it.decrease() is Some,
            s@ == v@ + it.remaining(),
        decreases it.decrease()->0,
    {
        match it.next() {
            Some(c) => {
                v.push(c);
            },
            None => {
                return v;
            },
        }
    }
}

/// Reads the characters of `s` into a vector, giving up as soon as more than `limit` of them
/// have been seen.
pub fn chars_up_to(s: &str, limit: usize) -> (r: Option<Vec<char>>)
    ensures
        match r {
            Some(v) => v@ == s@ && s@.len() <= limit,
            None => s@.len() > limit,
        },
{
    let mut v: Vec<char> = Vec::new();
    let mut it = s.chars();
    loop
        invariant
            it.obeys_prophetic_iter_laws(),
            it.decrease() is Some,
            s@ == v@ + it.remaining(),
            v@.len() <= limit,
        decreases it.decrease()->0,
    {
        match it.next() {
            Some(c) => {
                if v.len() == limit {
                    return None;
                }
                v.push(c);
            },
            None => {
                return Some(v);
            },
        }
    }
}

/// Whether two strings hold the same characters.
pub fn str_eq(a: &str, b: &str) -> (r: bool)
    ensures
        r == (a@ == b@),
{
    let mut ia = a.chars();
    let mut ib = b.chars();
    let ghost mut seen: Seq<char> = Seq::empty();
    loop
        invariant
            ia.obeys_prophetic_iter_laws(),
            ib.obeys_prophetic_iter_laws(),
            ia.decrease() is Some,
            a@ == seen + ia.remaining(),
            b@ == seen + ib.remaining(),
        decreases ia.decrease()->0,
    {
        let ca = ia.next();
        let cb = ib.next();
        match (ca, cb) {
            (Some(x), Some(y)) => {
                if x != y {
                    assert(a@[seen.len() as int] == x);
                    assert(b@[seen.len() as int] == y);
                    return false;
                }
                proof {
                    seen = seen.push(x);
                }
            },
            (None, None) => {
                return true;
            },
            _ => {
                assert(a@.len() != b@.len());
                return false;
            },
        }
    }
}

/// The position of the first `c` in `s`, or the length of `s` where it holds none.
pub open spec fn first_index(s: Seq<char>, c: char) -> int
    decreases s.len(),
{
    if s.len() == 0 || s[0] == c {
        0
    } else {
        1 + first_index(s.drop_first(), c)
    }
}

/// `first_index` is the one position before which no `c` stands and at which one does, or
/// the string ends.
pub proof fn lemma_first_index(s: Seq<char>, c: char, i: int)
    requires
        0 <= i <= s.len(),
        forall|j: int| 0 <= j < i ==> #[trigger] s[j] != c,
        i < s.len() ==> s[i] == c,
    ensures
        first_index(s, c) == i,
    decreases s.len(),
{
    if s.len() > 0 && s[0] != c {
        let rest = s.drop_first();
        assert forall|j: int| 0 <= j < i - 1 implies #[trigger] rest[j] != c by {
            assert(rest[j] == s[j + 1]);
        }
        lemma_first_index(rest, c, i - 1);
    }
}

/// `s` without the `+` that it may start with.
pub open spec fn unsigned_part(s: Seq<char>) -> Seq<char> {
    if s.len() > 0 && s[0] == '+' {
        s.drop_first()
    } else {
        s
    }
}

/// The number that `s` writes as an integer: one or more ASCII digits, which a `+` may
/// precede. `None` for any other string.
pub open spec fn parse_integer(s: Seq<char>) -> Option<nat> {
    let digits = unsigned_part(s);
    if digits.len() > 0 && all_digits(digits) {
        Some(decimal_value(digits))
    } else {
        None
    }
}

/// The whole part of the number that `s` writes in decimal notation: ASCII digits with at
/// most one `.` among them, which a `+` may precede, and at least one digit in all. What
/// follows the `.` is dropped. `None` for any other string.
pub open spec fn parse_decimal_floor(s: Seq<char>) -> Option<nat> {
    let body = unsigned_part(s);
    let point = first_index(body, '.');
    let whole = body.take(point);
    let fraction = body.skip(point + 1);
    if point < body.len() {
        if all_digits(whole) && all_digits(fraction) && whole.len() + fraction.len() > 0 {
            Some(decimal_value(whole))
        } else {
            None
        }
    } else if body.len() > 0 && all_digits(body) {
        Some(decimal_value(body))
    } else {
        None
    }
}

/// The smaller of two numbers.
pub open spec fn at_most(n: nat, cap: nat) -> nat {
    if n <= cap {
        n
    } else {
        cap
    }
}

/// The position of the first `c` in `chars[start..end]`, or `end` where it holds none.
pub fn find_char(chars: &Vec<char>, start: usize, end: usize, c: char) -> (r: usize)
    requires
        start <= end <= chars.len(),
    ensures
        r == start + first_index(chars@.subrange(start as int, end as int), c),
        start <= r <= end,
{
    let mut i: usize = start;
    while i < end && chars[i] != c
        invariant
            start <= i <= end <= chars.len(),
            forall|j: int| start <= j < i ==> #[trigger] chars@[j] != c,
        decreases end - i,
    {
        i = i + 1;
    }
    proof {
        lemma_first_index(chars@.subrange(start as int, end as int), c, i - start);
    }
    i
}

/// Reads one ASCII digit.
pub fn read_digit(c: char) -> (r: Option<u8>)
    ensures
        r == if is_digit(c) {
            Some(digit_value(c) as u8)
        } else {
            None
        },
{
    let n: u32 = c as u32;
    if 48 <= n && n <= 57 {
        Some((n - 48) as u8)
    } else {
        None
    }
}

/// Reads `chars[start..end]` as a string of digits: its value, or `cap` where the value is
/// larger; `None` where anything but a digit stands in it.
pub fn read_digits(chars: &Vec<char>, start: usize, end: usize, cap: u64) -> (r: Option<u64>)
    requires
        start <= end <= chars.len(),
        cap <= 0x1_0000_0000,
    ensures
        r == if all_digits(chars@.subrange(start as int, end as int)) {
            Some(at_most(decimal_value(chars@.subrange(start as int, end as int)), cap as nat) as u64)
        } else {
            None
        },
{
    let ghost digits = chars@.subrange(start as int, end as int);
    let mut value: u64 = 0;
    let mut i: usize = start;
    while i < end
        invariant
            start <= i <= end <= chars.len(),
            cap <= 0x1_0000_0000,
            digits == chars@.subrange(start as int, end as int),
            all_digits(digits.take(i - start)),
            value == at_most(decimal_value(digits.take(i - start)), cap as nat),
        decreases end - i,
    {
        let c = chars[i];
        proof {
            assert(digits[i - start] == c);
            assert(digits.take(i - start + 1).drop_last() == digits.take(i - start));
            assert(digits.take(i - start + 1).last() == c);
        }
        let n: u8 = match read_digit(c) {
            Some(n) => n,
            None => {
                assert(!is_digit(digits[i - start]));
                return None;
            },
        };
        proof {
            let before = digits.take(i - start);
            let after = digits.take(i - start + 1);
            assert(is_digit(c));
            assert forall|j: int| 0 <= j < after.len() implies is_digit(#[trigger] after[j]) by {
                if j < before.len() {
                    assert(after[j] == before[j]);
                }
            }
        }
        let next: u64 = value * 10 + n as u64;
        value = if next <= cap {
            next
        } else {
            cap
        };
        i = i + 1;
    }
    assert(digits.take(end - start) == digits);
    Some(value)
}

/// Reads `chars[start..end]` as an integer of at most `max`.
pub fn read_integer(chars: &Vec<char>, start: usize, end: usize, max: u32) -> (r: Option<u32>)
    requires
        start <= end <= chars.len(),
    ensures
        r == match parse_integer(chars@.subrange(start as int, end as int)) {
            Some(n) => if n <= max {
                Some(n as u32)
            } else {
                None
            },
            None => None,
        },
{
    let ghost s = chars@.subrange(start as int, end as int);
    let from: usize = if start < end && chars[start] == '+' {
        start + 1
    } else {
        start
    };
    proof {
        assert(unsigned_part(s) == chars@.subrange(from as int, end as int));
    }
    if from == end {
        return None;
    }
    match read_digits(chars, from, end, max as u64 + 1) {
        Some(n) => if n <= max as u64 {
            Some(n as u32)
        } else {
            None
        },
        None => None,
    }
}

/// Reads `chars[start..end]` as a number in decimal notation and gives its whole part, or
/// `cap` where that is larger.
pub fn read_decimal_floor(chars: &Vec<char>, start: usize, end: usize, cap: u32) -> (r: Option<
    u32,
>)
    requires
        start <= end <= chars.len(),
    ensures
        r == match parse_decimal_floor(chars@.subrange(start as int, end as int)) {
            Some(n) => Some(at_most(n, cap as nat) as u32),
            None => None,
        },
{
    let ghost s = chars@.subrange(start as int, end as int);
    let from: usize = if start < end && chars[start] == '+' {
        start + 1
    } else {
        start
    };
    let ghost body = chars@.subrange(from as int, end as int);
    let point: usize = find_char(chars, from, end, '.');
    proof {
        assert(unsigned_part(s) == body);
        assert(body.take(point - from) == chars@.subrange(from as int, point as int));
    }
    if point < end {
        proof {
            assert(body.skip(point - from + 1) == chars@.subrange(point + 1, end as int));
        }
        let whole = read_digits(chars, from, point, cap as u64);
        let fraction = read_digits(chars, point + 1, end, 0);
        match (whole, fraction) {
            (Some(n), Some(_)) => if point - from + (end - (point + 1)) > 0 {
                Some(n as u32)
            } else {
                None
            },
            _ => None,
        }
    } else if from == end {
        None
    } else {
        match read_digits(chars, from, end, cap as u64) {
            Some(n) => Some(n as u32),
            None => None,
        }
    }
}

} // verus!
