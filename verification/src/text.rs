//! Reading a number from a line of text.
use vstd::prelude::*;
use vstd::utf8;

verus! {

broadcast use vstd::seq::group_seq_axioms;

/// Whether `c` has the Unicode property `White_Space`.
pub open spec fn is_white_space(c: char) -> bool {
    let p = c as u32;
    ||| 0x09 <= p <= 0x0d
    ||| p == 0x20
    ||| p == 0x85
    ||| p == 0xa0
    ||| p == 0x1680
    ||| 0x2000 <= p <= 0x200a
    ||| p == 0x2028
    ||| p == 0x2029
    ||| p == 0x202f
    ||| p == 0x205f
    ||| p == 0x3000
}

/// `s` without its leading white space.
pub open spec fn trim_start(s: Seq<char>) -> Seq<char>
    decreases s.len(),
{
    if s.len() > 0 && is_white_space(s[0]) {
        trim_start(s.subrange(1, s.len() as int))
    } else {
        s
    }
}

/// `s` without its trailing white space.
pub open spec fn trim_end(s: Seq<char>) -> Seq<char>
    decreases s.len(),
{
    if s.len() > 0 && is_white_space(s[s.len() - 1]) {
        trim_end(s.subrange(0, s.len() - 1))
    } else {
        s
    }
}

/// `s` without white space at either end.
pub open spec fn trimmed(s: Seq<char>) -> Seq<char> {
    trim_end(trim_start(s))
}

/// Whether `c` is one of the ten ASCII digits.
pub open spec fn is_digit(c: char) -> bool {
    '0' <= c <= '9'
}

/// The number that the decimal digits `s` write.
pub open spec fn digits_value(s: Seq<char>) -> nat
    decreases s.len(),
{
    if s.len() == 0 {
        0
    } else {
        digits_value(s.subrange(0, s.len() - 1)) * 10 + (s[s.len() - 1] as u32 - '0' as u32) as nat
    }
}

/// `s` without one leading plus sign.
pub open spec fn without_sign(s: Seq<char>) -> Seq<char> {
    if s.len() > 0 && s[0] == '+' {
        s.subrange(1, s.len() as int)
    } else {
        s
    }
}

/// Whether `s` is a number of 64 bits: an optional plus sign and at least one digit, and
/// nothing else.
pub open spec fn is_u64_text(s: Seq<char>) -> bool {
    let digits = without_sign(s);
    &&& digits.len() > 0
    &&& forall|i: int| 0 <= i < digits.len() ==> is_digit(#[trigger] digits[i])
    &&& digits_value(digits) <= u64::MAX
}

/// The number that `s` writes, if it writes one.
pub open spec fn parsed_u64(s: Seq<char>) -> Option<u64> {
    if is_u64_text(s) {
        Some(digits_value(without_sign(s)) as u64)
    } else {
        None
    }
}

/// The characters whose code points are `points`.
pub open spec fn chars_of(points: Seq<u32>) -> Seq<char> {
    points.map_values(|p: u32| p as char)
}

/// Whether every number in `points` is the code point of a character.
pub open spec fn all_scalars(points: Seq<u32>) -> bool {
    forall|i: int| 0 <= i < points.len() ==> utf8::is_scalar(#[trigger] points[i])
}

/// The values that the bytes of one character can combine to.
proof fn lemma_codepoint_bounds(b1: u8, b2: u8, b3: u8)
    ensures
        utf8::codepoint_width_1(b1) <= 0x7f,
        utf8::codepoint_width_2(b1, b2) <= 0x7ff,
        utf8::codepoint_width_3(b1, b2, b3) <= 0xffff,
{
    assert((b1 & 0x7F) as u32 <= 0x7f) by (bit_vector);
    assert((((b1 & 0x1F) as u32) << 6) | ((b2 & 0x3f) as u32) <= 0x7ff) by (bit_vector);
    assert((((b1 & 0x0F) as u32) << 12) | (((b2 & 0x3f) as u32) << 6) | ((b3 & 0x3f) as u32)
        <= 0xffff) by (bit_vector);
}

/// Whether `b` is a byte that continues a character.
fn is_continuation(b: u8) -> (r: bool)
    ensures
        r == utf8::is_continuation_byte(b),
{
    0x80 <= b && b <= 0xbf
}

/// The first character of `bytes` from position `at` on, with its length in bytes. `None` says
/// that no character is encoded there.
fn decode_first(bytes: &[u8], at: usize, end: usize) -> (r: Option<(u32, usize)>)
    requires
        at < end <= bytes@.len(),
    ensures
        r is Some <==> utf8::valid_first_scalar(bytes@.subrange(at as int, end as int)),
        r matches Some((point, len)) ==> {
            let rest = bytes@.subrange(at as int, end as int);
            &&& utf8::is_scalar(point)
            &&& point == utf8::decode_first_scalar(rest)
            &&& len == utf8::length_of_first_scalar(rest)
            &&& 0 < len <= end - at
        },
{
    let ghost rest = bytes@.subrange(at as int, end as int);
    let b1: u8 = bytes[at];
    let left: usize = end - at;
    if b1 <= 0x7f {
        proof {
            lemma_codepoint_bounds(b1, 0, 0);
        }
        Some(((b1 & 0x7F) as u32, 1))
    } else if 0xc0 <= b1 && b1 <= 0xdf {
        if left < 2 || !is_continuation(bytes[at + 1]) {
            return None;
        }
        let b2: u8 = bytes[at + 1];
        let point: u32 = (((b1 & 0x1F) as u32) << 6) | ((b2 & 0x3f) as u32);
        proof {
            lemma_codepoint_bounds(b1, b2, 0);
        }
        if point < 0x80 {
            None
        } else {
            Some((point, 2))
        }
    } else if 0xe0 <= b1 && b1 <= 0xef {
        if left < 3 || !is_continuation(bytes[at + 1]) || !is_continuation(bytes[at + 2]) {
            return None;
        }
        let b2: u8 = bytes[at + 1];
        let b3: u8 = bytes[at + 2];
        let point: u32 = (((b1 & 0x0F) as u32) << 12) | (((b2 & 0x3f) as u32) << 6) | ((b3
            & 0x3f) as u32);
        proof {
            lemma_codepoint_bounds(b1, b2, b3);
        }
        if point < 0x800 || (0xd800 <= point && point <= 0xdfff) {
            None
        } else {
            Some((point, 3))
        }
    } else if 0xf0 <= b1 && b1 <= 0xf7 {
        if left < 4 || !is_continuation(bytes[at + 1]) || !is_continuation(bytes[at + 2])
            || !is_continuation(bytes[at + 3]) {
            return None;
        }
        let b2: u8 = bytes[at + 1];
        let b3: u8 = bytes[at + 2];
        let b4: u8 = bytes[at + 3];
        let point: u32 = (((b1 & 0x07) as u32) << 18) | (((b2 & 0x3f) as u32) << 12) | (((b3
            & 0x3f) as u32) << 6) | ((b4 & 0x3f) as u32);
        if point < 0x10000 || point > 0x10ffff {
            None
        } else {
            Some((point, 4))
        }
    } else {
        None
    }
}

/// The code points of the text that bytes `start..end` encode, or `None` when they are not
/// UTF-8.
fn decode(bytes: &[u8], start: usize, end: usize) -> (r: Option<Vec<u32>>)
    requires
        start <= end <= bytes@.len(),
    ensures
        r is Some <==> utf8::valid_utf8(bytes@.subrange(start as int, end as int)),
        r matches Some(points) ==> all_scalars(points@) && chars_of(points@) == utf8::decode_utf8(
            bytes@.subrange(start as int, end as int),
        ),
{
    let ghost line = bytes@.subrange(start as int, end as int);
    let mut points: Vec<u32> = Vec::new();
    let mut at: usize = start;
    assert(chars_of(points@) =~= Seq::<char>::empty());
    while at < end
        invariant
            start <= at <= end <= bytes@.len(),
            line == bytes@.subrange(start as int, end as int),
            all_scalars(points@),
            utf8::valid_utf8(line) == utf8::valid_utf8(bytes@.subrange(at as int, end as int)),
            utf8::valid_utf8(line) ==> utf8::decode_utf8(line) == chars_of(points@)
                + utf8::decode_utf8(bytes@.subrange(at as int, end as int)),
        decreases end - at,
    {
        let ghost rest = bytes@.subrange(at as int, end as int);
        match decode_first(bytes, at, end) {
            None => {
                return None;
            },
            Some((point, len)) => {
                let ghost before = points@;
                points.push(point);
                at = at + len;
                proof {
                    assert(utf8::pop_first_scalar(rest) =~= bytes@.subrange(at as int, end as int));
                    if utf8::valid_utf8(line) {
                        assert(chars_of(points@) =~= chars_of(before).push(point as char));
                        assert(utf8::decode_utf8(line) =~= chars_of(points@) + utf8::decode_utf8(
                            bytes@.subrange(at as int, end as int),
                        ));
                    }
                }
            },
        }
    }
    assert(bytes@.subrange(at as int, end as int).len() == 0);
    assert(utf8::decode_utf8(line) =~= chars_of(points@));
    Some(points)
}

/// Whether `p` is the code point of a white-space character.
fn is_white_space_point(p: u32) -> (r: bool)
    requires
        utf8::is_scalar(p),
    ensures
        r == is_white_space(p as char),
{
    (0x09 <= p && p <= 0x0d) || p == 0x20 || p == 0x85 || p == 0xa0 || p == 0x1680 || (0x2000 <= p
        && p <= 0x200a) || p == 0x2028 || p == 0x2029 || p == 0x202f || p == 0x205f || p == 0x3000
}

/// The range of `points` that is left when white space is trimmed at both ends.
fn trim(points: &Vec<u32>) -> (r: (usize, usize))
    requires
        all_scalars(points@),
    ensures
        r.0 <= r.1 <= points@.len(),
        chars_of(points@).subrange(r.0 as int, r.1 as int) == trimmed(chars_of(points@)),
{
    let ghost text = chars_of(points@);
    let mut start: usize = 0;
    assert(text.subrange(0, text.len() as int) =~= text);
    while start < points.len() && is_white_space_point(points[start])
        invariant
            start <= points.len(),
            all_scalars(points@),
            text == chars_of(points@),
            trim_start(text) == trim_start(text.subrange(start as int, text.len() as int)),
        ensures
            trim_start(text) == text.subrange(start as int, text.len() as int),
        decreases points.len() - start,
    {
        let ghost rest = text.subrange(start as int, text.len() as int);
        assert(rest.subrange(1, rest.len() as int) =~= text.subrange(start + 1, text.len() as int));
        start = start + 1;
    }
    let mut end: usize = points.len();
    let ghost tail = trim_start(text);
    assert(text.subrange(start as int, end as int) == tail);
    while start < end && is_white_space_point(points[end - 1])
        invariant
            start <= end <= points.len(),
            all_scalars(points@),
            text == chars_of(points@),
            trim_end(tail) == trim_end(text.subrange(start as int, end as int)),
        ensures
            start <= end <= points.len(),
            trim_end(tail) == text.subrange(start as int, end as int),
        decreases end - start,
    {
        let ghost rest = text.subrange(start as int, end as int);
        assert(rest.subrange(0, rest.len() - 1) =~= text.subrange(start as int, end - 1));
        end = end - 1;
    }
    (start, end)
}

/// A number that starts with these digits is at least as large as they are.
proof fn lemma_digits_value_grows(s: Seq<char>, n: int)
    requires
        0 <= n <= s.len(),
        forall|i: int| 0 <= i < s.len() ==> is_digit(#[trigger] s[i]),
    ensures
        digits_value(s.subrange(0, n)) <= digits_value(s),
    decreases s.len() - n,
{
    if n < s.len() {
        lemma_digits_value_grows(s, n + 1);
        let longer = s.subrange(0, n + 1);
        assert(longer.subrange(0, longer.len() - 1) =~= s.subrange(0, n));
    } else {
        assert(s.subrange(0, n) =~= s);
    }
}

/// The number that `points[start..end]` writes, if it writes one.
fn parse_points(points: &Vec<u32>, start: usize, end: usize) -> (r: Option<u64>)
    requires
        start <= end <= points@.len(),
        all_scalars(points@),
    ensures
        r == parsed_u64(chars_of(points@).subrange(start as int, end as int)),
{
    let ghost text = chars_of(points@);
    let ghost s = text.subrange(start as int, end as int);
    let mut first: usize = start;
    if first < end && points[first] == 0x2b {
        first = first + 1;
    }
    let ghost digits = without_sign(s);
    assert(digits =~= text.subrange(first as int, end as int));
    if first == end {
        return None;
    }
    let mut value: u64 = 0;
    let mut i: usize = first;
    while i < end
        invariant
            start <= first <= i <= end <= points@.len(),
            all_scalars(points@),
            text == chars_of(points@),
            s == text.subrange(start as int, end as int),
            digits == without_sign(s),
            digits == text.subrange(first as int, end as int),
            forall|j: int| 0 <= j < i - first ==> is_digit(#[trigger] digits[j]),
            value == digits_value(digits.subrange(0, i - first)),
        decreases end - i,
    {
        let p: u32 = points[i];
        assert(digits[i - first] == p as char);
        if p < 0x30 || p > 0x39 {
            assert(!is_digit(digits[i - first]));
            return None;
        }
        let digit: u64 = (p - 0x30) as u64;
        let ghost longer = digits.subrange(0, i - first + 1);
        proof {
            assert(longer.subrange(0, longer.len() - 1) =~= digits.subrange(0, i - first));
            assert(digits_value(longer) == value * 10 + digit);
            if value * 10 + digit > u64::MAX && is_u64_text(s) {
                lemma_digits_value_grows(digits, i - first + 1);
            }
        }
        if value > (u64::MAX - digit) / 10 {
            return None;
        }
        value = value * 10 + digit;
        i = i + 1;
    }
    assert(digits.subrange(0, end - first) =~= digits);
    Some(value)
}

/// What a line of bytes says.
pub enum Line {
    /// It is not UTF-8.
    Undecodable,
    /// It is text that writes no number.
    Other,
    /// It writes a number, with optional white space around it.
    Number(u64),
}

/// What the bytes of `line` say.
pub open spec fn line_of(line: Seq<u8>) -> Line {
    if !utf8::valid_utf8(line) {
        Line::Undecodable
    } else {
        match parsed_u64(trimmed(utf8::decode_utf8(line))) {
            Some(n) => Line::Number(n),
            None => Line::Other,
        }
    }
}

/// White space is the characters that Unicode gives the property `White_Space`, and no others.
pub proof fn law_white_space(c: char)
    ensures
        is_white_space(c) <==> {
            ||| '\u{9}' <= c <= '\u{d}'
            ||| c == ' '
            ||| c == '\u{85}'
            ||| c == '\u{a0}'
            ||| c == '\u{1680}'
            ||| '\u{2000}' <= c <= '\u{200a}'
            ||| c == '\u{2028}'
            ||| c == '\u{2029}'
            ||| c == '\u{202f}'
            ||| c == '\u{205f}'
            ||| c == '\u{3000}'
        },
{
}

/// Trimming at the start takes away white space up to the first character that is none.
proof fn lemma_trim_start(s: Seq<char>, n: int)
    requires
        0 <= n <= s.len(),
        forall|i: int| 0 <= i < n ==> is_white_space(#[trigger] s[i]),
        n < s.len() ==> !is_white_space(s[n]),
    ensures
        trim_start(s) == s.subrange(n, s.len() as int),
    decreases n,
{
    if n > 0 {
        let rest = s.subrange(1, s.len() as int);
        assert forall|i: int| 0 <= i < n - 1 implies is_white_space(#[trigger] rest[i]) by {
            assert(rest[i] == s[i + 1]);
        }
        lemma_trim_start(rest, n - 1);
        assert(rest.subrange(n - 1, rest.len() as int) =~= s.subrange(n, s.len() as int));
    } else {
        assert(s.subrange(0, s.len() as int) =~= s);
    }
}

/// Trimming at the end takes away white space down to the last character that is none.
proof fn lemma_trim_end(s: Seq<char>, n: int)
    requires
        0 <= n <= s.len(),
        forall|i: int| n <= i < s.len() ==> is_white_space(#[trigger] s[i]),
        n > 0 ==> !is_white_space(s[n - 1]),
    ensures
        trim_end(s) == s.subrange(0, n),
    decreases s.len() - n,
{
    if n < s.len() {
        let rest = s.subrange(0, s.len() - 1);
        assert forall|i: int| n <= i < rest.len() implies is_white_space(#[trigger] rest[i]) by {
            assert(rest[i] == s[i]);
        }
        assert(is_white_space(s[s.len() - 1]));
        lemma_trim_end(rest, n);
        assert(rest.subrange(0, n) =~= s.subrange(0, n));
    } else {
        assert(s.subrange(0, n) =~= s);
    }
}

/// What trimming leaves: a stretch of the text with nothing but white space around it.
proof fn lemma_trimmed(s: Seq<char>) -> (r: (int, int))
    ensures
        0 <= r.0 <= r.1 <= s.len(),
        trimmed(s) == s.subrange(r.0, r.1),
        forall|i: int|
            (0 <= i < r.0 || r.1 <= i < s.len()) ==> is_white_space(#[trigger] s[i]),
{
    let a = lemma_trim_start_stops(s);
    let rest = s.subrange(a, s.len() as int);
    let b = lemma_trim_end_stops(rest);
    assert(rest.subrange(0, b) =~= s.subrange(a, a + b));
    assert forall|i: int| (0 <= i < a || a + b <= i < s.len()) implies is_white_space(
        #[trigger] s[i],
    ) by {
        if i >= a + b {
            assert(rest[i - a] == s[i]);
        }
    }
    (a, a + b)
}

/// Where trimming at the start stops.
proof fn lemma_trim_start_stops(s: Seq<char>) -> (n: int)
    ensures
        0 <= n <= s.len(),
        trim_start(s) == s.subrange(n, s.len() as int),
        forall|i: int| 0 <= i < n ==> is_white_space(#[trigger] s[i]),
    decreases s.len(),
{
    if s.len() > 0 && is_white_space(s[0]) {
        let rest = s.subrange(1, s.len() as int);
        let n = lemma_trim_start_stops(rest);
        assert(rest.subrange(n, rest.len() as int) =~= s.subrange(n + 1, s.len() as int));
        assert forall|i: int| 0 <= i < n + 1 implies is_white_space(#[trigger] s[i]) by {
            if i > 0 {
                assert(rest[i - 1] == s[i]);
            }
        }
        n + 1
    } else {
        assert(s.subrange(0, s.len() as int) =~= s);
        0
    }
}

/// Where trimming at the end stops.
proof fn lemma_trim_end_stops(s: Seq<char>) -> (n: int)
    ensures
        0 <= n <= s.len(),
        trim_end(s) == s.subrange(0, n),
        forall|i: int| n <= i < s.len() ==> is_white_space(#[trigger] s[i]),
    decreases s.len(),
{
    if s.len() > 0 && is_white_space(s[s.len() - 1]) {
        let rest = s.subrange(0, s.len() - 1);
        let n = lemma_trim_end_stops(rest);
        assert(rest.subrange(0, n) =~= s.subrange(0, n));
        assert forall|i: int| n <= i < s.len() implies is_white_space(#[trigger] s[i]) by {
            if i < s.len() - 1 {
                assert(rest[i] == s[i]);
            }
        }
        n
    } else {
        assert(s.subrange(0, s.len() as int) =~= s);
        s.len() as int
    }
}

/// The value of decimal digits, taken in from left to right.
proof fn lemma_digits_folded(s: Seq<char>, f: spec_fn(int, char) -> int)
    requires
        forall|i: int| 0 <= i < s.len() ==> '0' <= #[trigger] s[i] <= '9',
        forall|v: int, c: char| #[trigger] f(v, c) == v * 10 + (c as int - 48),
    ensures
        digits_value(s) == s.fold_left(0, f),
    decreases s.len(),
{
    if s.len() > 0 {
        let front = s.drop_last();
        assert(front =~= s.subrange(0, s.len() - 1));
        lemma_digits_folded(front, f);
    }
}

/// A line of text says a number exactly when it is made of digits, one or more and with a value
/// below 2^64, with nothing in front of them but white space and at most one plus sign, which
/// then touches them, and with nothing but white space behind them. This says that such a line is
/// read as that number.
pub proof fn law_number_lines_are_read(line: Seq<u8>, d: int, b: int)
    requires
        utf8::valid_utf8(line),
        0 <= d < b <= utf8::decode_utf8(line).len(),
        forall|i: int|
            0 <= i < d ==> is_white_space(#[trigger] utf8::decode_utf8(line)[i]) || (i == d - 1
                && utf8::decode_utf8(line)[i] == '+'),
        forall|i: int| d <= i < b ==> '0' <= #[trigger] utf8::decode_utf8(line)[i] <= '9',
        forall|i: int|
            b <= i < utf8::decode_utf8(line).len() ==> is_white_space(
                #[trigger] utf8::decode_utf8(line)[i],
            ),
        utf8::decode_utf8(line).subrange(d, b).fold_left(
            0int,
            |v: int, c: char| v * 10 + (c as int - 48),
        ) <= u64::MAX,
    ensures
        line_of(line) matches Line::Number(n) && n == utf8::decode_utf8(line).subrange(
            d,
            b,
        ).fold_left(0int, |v: int, c: char| v * 10 + (c as int - 48)),
{
    let text = utf8::decode_utf8(line);
    let f = |v: int, c: char| v * 10 + (c as int - 48);
    let digits = text.subrange(d, b);
    let a = if d > 0 && text[d - 1] == '+' {
        d - 1
    } else {
        d
    };
    assert forall|i: int| 0 <= i < a implies is_white_space(#[trigger] text[i]) by {}
    assert(!is_white_space(text[a]));
    lemma_trim_start(text, a);
    let rest = text.subrange(a, text.len() as int);
    assert forall|i: int| b - a <= i < rest.len() implies is_white_space(#[trigger] rest[i]) by {
        assert(rest[i] == text[i + a]);
    }
    assert(rest[b - a - 1] == text[b - 1]);
    assert(!is_white_space(text[b - 1]));
    lemma_trim_end(rest, b - a);
    let s = rest.subrange(0, b - a);
    assert(trimmed(text) == s);
    assert(s[0] == text[a]);
    assert(without_sign(s) =~= digits);
    assert forall|i: int| 0 <= i < digits.len() implies '0' <= #[trigger] digits[i] <= '9' by {
        assert(digits[i] == text[i + d]);
    }
    lemma_digits_folded(digits, f);
}

/// And this says that no other line is read as a number.
pub proof fn law_only_number_lines_are_read(line: Seq<u8>)
    ensures
        line_of(line) is Undecodable <==> !utf8::valid_utf8(line),
        line_of(line) matches Line::Number(n) ==> exists|d: int, b: int|
            0 <= d < b <= utf8::decode_utf8(line).len() && n == (
            #[trigger] utf8::decode_utf8(line).subrange(d, b)).fold_left(
                0int,
                |v: int, c: char| v * 10 + (c as int - 48),
            ) && (forall|i: int|
                0 <= i < d ==> is_white_space(#[trigger] utf8::decode_utf8(line)[i]) || (i == d - 1
                    && utf8::decode_utf8(line)[i] == '+')) && (forall|i: int|
                d <= i < b ==> '0' <= #[trigger] utf8::decode_utf8(line)[i] <= '9') && (forall|
                i: int,
            |
                b <= i < utf8::decode_utf8(line).len() ==> is_white_space(
                    #[trigger] utf8::decode_utf8(line)[i],
                )),
{
    if let Line::Number(n) = line_of(line) {
        let text = utf8::decode_utf8(line);
        let f = |v: int, c: char| v * 10 + (c as int - 48);
        let (a, b) = lemma_trimmed(text);
        let s = text.subrange(a, b);
        let d = if s.len() > 0 && s[0] == '+' {
            a + 1
        } else {
            a
        };
        let digits = text.subrange(d, b);
        assert(without_sign(s) =~= digits);
        assert forall|i: int| d <= i < b implies '0' <= #[trigger] text[i] <= '9' by {
            assert(is_digit(without_sign(s)[i - d]));
        }
        assert forall|i: int| 0 <= i < digits.len() implies '0' <= #[trigger] digits[i] <= '9' by {
            assert(digits[i] == text[i + d]);
        }
        lemma_digits_folded(digits, f);
        assert forall|i: int| 0 <= i < d implies is_white_space(#[trigger] text[i]) || (i == d - 1
            && text[i] == '+') by {
            if i >= a {
                assert(s[0] == text[a]);
            }
        }
        assert(text.subrange(d, b).fold_left(0int, f) == n);
    }
}

/// What the line in `bytes[start..end]` says.
pub fn read_line(bytes: &[u8], start: usize, end: usize) -> (line: Line)
    requires
        start <= end <= bytes@.len(),
    ensures
        line == line_of(bytes@.subrange(start as int, end as int)),
{
    match decode(bytes, start, end) {
        None => Line::Undecodable,
        Some(points) => {
            let (from, to) = trim(&points);
            match parse_points(&points, from, to) {
                Some(n) => Line::Number(n),
                None => Line::Other,
            }
        },
    }
}

} // verus!
