//! Sixteen-byte catalog identifiers and their textual form.

use crate::text::chars_up_to;
use vstd::prelude::*;

verus! {

/// A sixteen-byte identifier that the catalog assigns to programs, courses and labels.
#[derive(Debug, Clone, Copy, PartialEq, Eq, Hash)]
pub struct GUID {
    inner: [u8; 16],
}

/// Why a string could not be read as a [`GUID`].
#[derive(Debug, Clone, Copy, PartialEq, Eq)]
pub enum GUIDParsingError {
    /// Fewer than 32 characters, or fewer than 32 hexadecimal digits among them.
    TooShort,
    /// More than 36 characters.
    TooLong,
    /// A character that is neither a hexadecimal digit nor `-`.
    InvalidCharacter,
}

/// The value of the hexadecimal digit `c`, in either case; `None` for any other character.
pub open spec fn hex_to_num_spec(c: char) -> Option<u8> {
    if '0' <= c <= '9' {
        Some((c as u32 - '0' as u32) as u8)
    } else if 'a' <= c <= 'f' {
        Some((c as u32 - 'a' as u32 + 10) as u8)
    } else if 'A' <= c <= 'F' {
        Some((c as u32 - 'A' as u32 + 10) as u8)
    } else {
        None
    }
}

/// Whether `c` may appear in the textual form of a GUID.
pub open spec fn is_guid_char(c: char) -> bool {
    c == '-' || hex_to_num_spec(c) is Some
}

/// The characters of `s` other than `-`, in order.
pub open spec fn strip_dashes(s: Seq<char>) -> Seq<char>
    decreases s.len(),
{
    if s.len() == 0 {
        s
    } else if s.last() == '-' {
        strip_dashes(s.drop_last())
    } else {
        strip_dashes(s.drop_last()).push(s.last())
    }
}

/// The byte written by the two hexadecimal digits `hi` and `lo`, most significant first.
pub open spec fn hex_pair(hi: char, lo: char) -> u8 {
    (hex_to_num_spec(hi)->0 * 16 + hex_to_num_spec(lo)->0) as u8
}

/// The sixteen bytes written by the first 32 digits of the digit string `digits`.
pub open spec fn guid_bytes(digits: Seq<char>) -> Seq<u8>
    recommends
        digits.len() >= 32,
{
    Seq::new(16, |k: int| hex_pair(digits[2 * k], digits[2 * k + 1]))
}

/// What reading `s` as a GUID gives: its sixteen bytes, or the reason why it has none.
///
/// The length is judged first, then the characters, then the number of digits.
pub open spec fn parse_guid(s: Seq<char>) -> Result<Seq<u8>, GUIDParsingError> {
    if s.len() < 32 {
        Err(GUIDParsingError::TooShort)
    } else if s.len() > 36 {
        Err(GUIDParsingError::TooLong)
    } else if exists|i: int| 0 <= i < s.len() && !is_guid_char(#[trigger] s[i]) {
        Err(GUIDParsingError::InvalidCharacter)
    } else if strip_dashes(s).len() < 32 {
        Err(GUIDParsingError::TooShort)
    } else {
        Ok(guid_bytes(strip_dashes(s)))
    }
}

/// Reads one hexadecimal digit.
pub fn hex_to_num(c: char) -> (r: Option<u8>)
    ensures
        r == hex_to_num_spec(c),
{
    let n: u32 = c as u32;
    if 48 <= n && n <= 57 {
        Some((n - 48) as u8)
    } else if 97 <= n && n <= 102 {
        Some((n - 97 + 10) as u8)
    } else if 65 <= n && n <= 70 {
        Some((n - 65 + 10) as u8)
    } else {
        None
    }
}

impl View for GUID {
    type V = Seq<u8>;

    closed spec fn view(&self) -> Seq<u8> {
        self.inner@
    }
}

/// An identifier has sixteen bytes.
pub proof fn lemma_guid_len(guid: GUID)
    ensures
        guid@.len() == 16,
{
}

impl GUID {
    /// The identifier made of the given bytes.
    pub fn from_bytes(bytes: [u8; 16]) -> (r: GUID)
        ensures
            r@ == bytes@,
    {
        GUID { inner: bytes }
    }

    /// The bytes of the identifier.
    pub fn to_bytes(&self) -> (r: [u8; 16])
        ensures
            r@ == self@,
    {
        self.inner
    }

    /// Reads an identifier from its textual form: 32 hexadecimal digits, in which `-` may
    /// stand anywhere, in a string of 32 to 36 characters.
    pub fn try_from(s: &str) -> (r: Result<GUID, GUIDParsingError>)
        ensures
            match parse_guid(s@) {
                Ok(bytes) => r is Ok && r->Ok_0@ == bytes,
                Err(e) => r == Err::<GUID, GUIDParsingError>(e),
            },
    {
        match chars_up_to(s, 36) {
            Some(chars) => {
                proof {
                    assert(chars@.subrange(0, chars@.len() as int) == chars@);
                }
                GUID::from_chars(&chars, 0, chars.len())
            },
            None => Err(GUIDParsingError::TooLong),
        }
    }

    /// Reads an identifier from the characters `chars[start..end]`, as `try_from` reads it
    /// from a string.
    pub fn from_chars(chars: &Vec<char>, start: usize, end: usize) -> (r: Result<
        GUID,
        GUIDParsingError,
    >)
        requires
            start <= end <= chars.len(),
        ensures
            match parse_guid(chars@.subrange(start as int, end as int)) {
                Ok(bytes) => r is Ok && r->Ok_0@ == bytes,
                Err(e) => r == Err::<GUID, GUIDParsingError>(e),
            },
    {
        let ghost text = chars@.subrange(start as int, end as int);
        if end - start < 32 {
            return Err(GUIDParsingError::TooShort);
        }
        if end - start > 36 {
            return Err(GUIDParsingError::TooLong);
        }
        let mut nibbles: Vec<u8> = Vec::new();
        let mut i: usize = start;
        while i < end
            invariant
                text == chars@.subrange(start as int, end as int),
                32 <= text.len() <= 36,
                start <= i <= end <= chars.len(),
                forall|j: int| 0 <= j < i - start ==> is_guid_char(#[trigger] text[j]),
                nibbles@.len() == strip_dashes(text.take(i - start)).len(),
                forall|k: int|
                    0 <= k < nibbles@.len() ==> Some(#[trigger] nibbles@[k]) == hex_to_num_spec(
                        strip_dashes(text.take(i - start))[k],
                    ),
            decreases end - i,
        {
            let c = chars[i];
            proof {
                assert(text[i - start] == c);
                assert(text.take(i - start + 1).drop_last() == text.take(i - start));
                assert(text.take(i - start + 1).last() == c);
            }
            if c != '-' {
                match hex_to_num(c) {
                    Some(n) => {
                        nibbles.push(n);
                    },
                    None => {
                        assert(!is_guid_char(text[i - start]));
                        return Err(GUIDParsingError::InvalidCharacter);
                    },
                }
            }
            i = i + 1;
        }
        assert(text.take(end - start) == text);
        if nibbles.len() < 32 {
            return Err(GUIDParsingError::TooShort);
        }
        let mut inner = [0u8; 16];
        let mut k: usize = 0;
        while k < 16
            invariant
                k <= 16,
                nibbles@.len() >= 32,
                forall|j: int| 0 <= j < nibbles@.len() ==> #[trigger] nibbles@[j] < 16,
                forall|j: int|
                    0 <= j < k ==> #[trigger] inner@[j] == nibbles@[2 * j] * 16 + nibbles@[2 * j
                        + 1],
            decreases 16 - k,
        {
            inner[k] = nibbles[2 * k] * 16 + nibbles[2 * k + 1];
            k = k + 1;
        }
        assert(inner@ == guid_bytes(strip_dashes(text)));
        Ok(GUID { inner })
    }
}

/// The usual written form of the 32 digits `digits`: groups of 8, 4, 4, 4 and 12 digits with
/// a `-` between them.
pub open spec fn hyphenated(digits: Seq<char>) -> Seq<char>
    recommends
        digits.len() == 32,
{
    digits.subrange(0, 8) + seq!['-'] + digits.subrange(8, 12) + seq!['-'] + digits.subrange(
        12,
        16,
    ) + seq!['-'] + digits.subrange(16, 20) + seq!['-'] + digits.subrange(20, 32)
}

/// Stripping the dashes of two strings joined is joining what stripping each of them gives.
pub proof fn lemma_strip_dashes_concat(a: Seq<char>, b: Seq<char>)
    ensures
        strip_dashes(a + b) == strip_dashes(a) + strip_dashes(b),
    decreases b.len(),
{
    if b.len() == 0 {
        assert(a + b == a);
        assert(strip_dashes(a) + strip_dashes(b) == strip_dashes(a));
    } else {
        assert((a + b).drop_last() == a + b.drop_last());
        assert((a + b).last() == b.last());
        lemma_strip_dashes_concat(a, b.drop_last());
        if b.last() != '-' {
            assert((strip_dashes(a) + strip_dashes(b.drop_last())).push(b.last()) == strip_dashes(
                a,
            ) + strip_dashes(b.drop_last()).push(b.last()));
        }
    }
}

/// A string without dashes is left as it is.
pub proof fn lemma_strip_dashes_without_dash(s: Seq<char>)
    requires
        forall|i: int| 0 <= i < s.len() ==> #[trigger] s[i] != '-',
    ensures
        strip_dashes(s) == s,
    decreases s.len(),
{
    if s.len() > 0 {
        lemma_strip_dashes_without_dash(s.drop_last());
        assert(s.drop_last().push(s.last()) == s);
    }
}

/// Every character that stripping the dashes keeps was in the string, and every character of
/// the string other than `-` is kept.
pub proof fn lemma_strip_dashes_keeps_others(s: Seq<char>)
    ensures
        forall|k: int|
            0 <= k < strip_dashes(s).len() ==> s.contains(#[trigger] strip_dashes(s)[k])
                && strip_dashes(s)[k] != '-',
        forall|i: int| 0 <= i < s.len() && #[trigger] s[i] != '-' ==> strip_dashes(s).contains(s[i]),
    decreases s.len(),
{
    if s.len() > 0 {
        let init = s.drop_last();
        lemma_strip_dashes_keeps_others(init);
        assert forall|k: int| 0 <= k < strip_dashes(s).len() implies s.contains(
            #[trigger] strip_dashes(s)[k],
        ) && strip_dashes(s)[k] != '-' by {
            if k < strip_dashes(init).len() {
                let c = strip_dashes(init)[k];
                assert(init.contains(c));
                let j = choose|j: int| 0 <= j < init.len() && init[j] == c;
                assert(s[j] == c);
            } else {
                assert(s[s.len() - 1] == s.last());
            }
        }
        assert forall|i: int| 0 <= i < s.len() && #[trigger] s[i] != '-' implies strip_dashes(
            s,
        ).contains(s[i]) by {
            if i < init.len() {
                assert(init[i] == s[i]);
                let k = choose|k: int|
                    0 <= k < strip_dashes(init).len() && strip_dashes(init)[k] == s[i];
                assert(strip_dashes(s)[k] == s[i]);
            } else {
                assert(strip_dashes(s)[strip_dashes(s).len() - 1] == s[i]);
            }
        }
    }
}

/// Reading a GUID looks at nothing but the length of the string being in range and its
/// characters other than `-`: two strings of 32 to 36 characters that differ only in where
/// their dashes stand read alike.
pub proof fn lemma_guid_ignores_dashes(s1: Seq<char>, s2: Seq<char>)
    requires
        32 <= s1.len() <= 36,
        32 <= s2.len() <= 36,
        strip_dashes(s1) == strip_dashes(s2),
    ensures
        parse_guid(s1) == parse_guid(s2),
{
    lemma_strip_dashes_keeps_others(s1);
    lemma_strip_dashes_keeps_others(s2);
    let bad1 = exists|i: int| 0 <= i < s1.len() && !is_guid_char(#[trigger] s1[i]);
    let bad2 = exists|i: int| 0 <= i < s2.len() && !is_guid_char(#[trigger] s2[i]);
    if bad1 {
        let i = choose|i: int| 0 <= i < s1.len() && !is_guid_char(#[trigger] s1[i]);
        assert(strip_dashes(s2).contains(s1[i]));
        let k = choose|k: int| 0 <= k < strip_dashes(s2).len() && strip_dashes(s2)[k] == s1[i];
        assert(s2.contains(strip_dashes(s2)[k]));
        let j = choose|j: int| 0 <= j < s2.len() && s2[j] == s1[i];
        assert(!is_guid_char(s2[j]));
    }
    if bad2 {
        let i = choose|i: int| 0 <= i < s2.len() && !is_guid_char(#[trigger] s2[i]);
        assert(strip_dashes(s1).contains(s2[i]));
        let k = choose|k: int| 0 <= k < strip_dashes(s1).len() && strip_dashes(s1)[k] == s2[i];
        assert(s1.contains(strip_dashes(s1)[k]));
        let j = choose|j: int| 0 <= j < s1.len() && s1[j] == s2[i];
        assert(!is_guid_char(s1[j]));
    }
}

/// A string of 32 hexadecimal digits and the same digits with `-` after the 8th, 12th, 16th
/// and 20th give the same sixteen bytes.
pub proof fn lemma_guid_hyphenated_same(digits: Seq<char>)
    requires
        digits.len() == 32,
        forall|i: int| 0 <= i < 32 ==> hex_to_num_spec(#[trigger] digits[i]) is Some,
    ensures
        parse_guid(digits) == Ok::<Seq<u8>, GUIDParsingError>(guid_bytes(digits)),
        parse_guid(hyphenated(digits)) == parse_guid(digits),
{
    let dash = seq!['-'];
    let a = digits.subrange(0, 8);
    let b = digits.subrange(8, 12);
    let c = digits.subrange(12, 16);
    let d = digits.subrange(16, 20);
    let e = digits.subrange(20, 32);
    lemma_strip_dashes_without_dash(digits);
    lemma_strip_dashes_without_dash(a);
    lemma_strip_dashes_without_dash(b);
    lemma_strip_dashes_without_dash(c);
    lemma_strip_dashes_without_dash(d);
    lemma_strip_dashes_without_dash(e);
    assert(strip_dashes(dash) == Seq::<char>::empty()) by {
        assert(dash.drop_last() == Seq::<char>::empty());
        assert(strip_dashes(dash.drop_last()) == Seq::<char>::empty());
    }
    lemma_strip_dashes_concat(a, dash);
    lemma_strip_dashes_concat(a + dash, b);
    lemma_strip_dashes_concat(a + dash + b, dash);
    lemma_strip_dashes_concat(a + dash + b + dash, c);
    lemma_strip_dashes_concat(a + dash + b + dash + c, dash);
    lemma_strip_dashes_concat(a + dash + b + dash + c + dash, d);
    lemma_strip_dashes_concat(a + dash + b + dash + c + dash + d, dash);
    lemma_strip_dashes_concat(a + dash + b + dash + c + dash + d + dash, e);
    assert(strip_dashes(hyphenated(digits)) == a + b + c + d + e);
    assert(a + b + c + d + e == digits);
    lemma_guid_ignores_dashes(hyphenated(digits), digits);
}

impl GUIDParsingError {
    /// The error in words.
    pub open spec fn text(self) -> Seq<char> {
        match self {
            GUIDParsingError::TooShort => "String provided is too short"@,
            GUIDParsingError::TooLong => "String provided is too long"@,
            GUIDParsingError::InvalidCharacter => "String contains invalid characters"@,
        }
    }

    /// The error in words.
    pub fn message(&self) -> (r: &'static str)
        ensures
            r@ == self.text(),
    {
        match self {
            GUIDParsingError::TooShort => "String provided is too short",
            GUIDParsingError::TooLong => "String provided is too long",
            GUIDParsingError::InvalidCharacter => "String contains invalid characters",
        }
    }
}

} // verus!
