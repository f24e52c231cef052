//! Page-offset files: one decimal number per line, each the offset of a guest page.
use vstd::prelude::*;
use vstd::arithmetic::power2;

use crate::text;
use crate::text::{read_line, Line};

verus! {

broadcast use vstd::seq::group_seq_axioms;

/// The position of the first line feed in `bytes` from `at` on, or the end of `bytes`.
pub open spec fn line_end(bytes: Seq<u8>, at: int) -> int
    decreases bytes.len() - at,
{
    if at >= bytes.len() || bytes[at] == 10 {
        at
    } else {
        line_end(bytes, at + 1)
    }
}

/// The numbers in the lines of `bytes` from position `at` on, in order. A line that writes no
/// number is passed over; the first line that is not UTF-8 ends the reading.
pub open spec fn numbers_in_lines(bytes: Seq<u8>, at: int) -> Seq<u64>
    decreases bytes.len() - at,
{
    if at >= bytes.len() {
        Seq::empty()
    } else {
        proof {
            lemma_line_end(bytes, at);
        }
        let end = line_end(bytes, at);
        match text::line_of(bytes.subrange(at, end)) {
            Line::Undecodable => Seq::empty(),
            Line::Other => if end < bytes.len() {
                numbers_in_lines(bytes, end + 1)
            } else {
                Seq::empty()
            },
            Line::Number(n) => if end < bytes.len() {
                seq![n] + numbers_in_lines(bytes, end + 1)
            } else {
                seq![n]
            },
        }
    }
}

/// A line ends at or behind its start, within the bytes.
pub proof fn lemma_line_end(bytes: Seq<u8>, at: int)
    requires
        at <= bytes.len(),
    ensures
        at <= line_end(bytes, at) <= bytes.len(),
    decreases bytes.len() - at,
{
    if at < bytes.len() && bytes[at] != 10 {
        lemma_line_end(bytes, at + 1);
    }
}

/// `offset` with the bits below the page size cleared.
pub open spec fn aligned(offset: u64, page_size: u64) -> u64 {
    offset & !((page_size - 1) as u64)
}

/// Whether each number is larger than all before it.
pub open spec fn strictly_increasing(s: Seq<u64>) -> bool {
    forall|i: int, j: int| 0 <= i < j < s.len() ==> s[i] < s[j]
}

/// Whether the offsets are in increasing order and at least a page apart.
pub open spec fn pages_apart(s: Seq<u64>, ps: int) -> bool {
    forall|i: int, j: int| 0 <= i < j < s.len() ==> #[trigger] s[i] + ps <= #[trigger] s[j]
}

/// `s` with `x` put in its place, or `s` itself when it holds `x` already.
pub open spec fn inserted(s: Seq<u64>, x: u64) -> Seq<u64>
    decreases s.len(),
{
    if s.len() == 0 || s[s.len() - 1] < x {
        s.push(x)
    } else if s[s.len() - 1] == x {
        s
    } else {
        inserted(s.subrange(0, s.len() - 1), x).push(s[s.len() - 1])
    }
}

/// The numbers of `s`, each once, in increasing order.
pub open spec fn sorted_set(s: Seq<u64>) -> Seq<u64>
    decreases s.len(),
{
    if s.len() == 0 {
        s
    } else {
        inserted(sorted_set(s.subrange(0, s.len() - 1)), s[s.len() - 1])
    }
}

/// The numbers of `s`, each aligned to its page.
pub open spec fn all_aligned(s: Seq<u64>, page_size: u64) -> Seq<u64> {
    s.map_values(|o: u64| aligned(o, page_size))
}

/// The page offsets that a file with these contents lists: aligned, in increasing order, each
/// once.
pub open spec fn page_offsets(contents: Seq<u8>, page_size: u64) -> Seq<u64> {
    sorted_set(all_aligned(numbers_in_lines(contents, 0), page_size))
}

/// Inserting keeps the order and adds exactly one number.
proof fn lemma_inserted(s: Seq<u64>, x: u64)
    requires
        strictly_increasing(s),
    ensures
        strictly_increasing(inserted(s, x)),
        forall|y: u64| #[trigger] inserted(s, x).contains(y) <==> s.contains(y) || y == x,
    decreases s.len(),
{
    let r = inserted(s, x);
    if s.len() == 0 || s[s.len() - 1] < x {
        assert(r[s.len() as int] == x);
        assert forall|y: u64| s.contains(y) implies #[trigger] r.contains(y) by {
            let i = s.index_of(y);
            assert(r[i] == y);
        }
    } else if s[s.len() - 1] == x {
    } else {
        let last = s[s.len() - 1];
        let front = s.subrange(0, s.len() - 1);
        lemma_inserted(front, x);
        let inner = inserted(front, x);
        assert forall|i: int| 0 <= i < inner.len() implies inner[i] < last by {
            assert(inner.contains(inner[i]));
            if inner[i] != x {
                let k = front.index_of(inner[i]);
                assert(front[k] == s[k]);
            }
        }
        assert forall|y: u64| #[trigger] r.contains(y) <==> s.contains(y) || y == x by {
            if r.contains(y) {
                let i = r.index_of(y);
                if i < inner.len() {
                    assert(inner[i] == y);
                    assert(inner.contains(y));
                    if y != x {
                        let k = front.index_of(y);
                        assert(s[k] == y);
                    }
                } else {
                    assert(s[s.len() - 1] == y);
                }
            }
            if s.contains(y) {
                let k = s.index_of(y);
                if k < front.len() {
                    assert(front[k] == y);
                    assert(inner.contains(y));
                    let i = inner.index_of(y);
                    assert(r[i] == y);
                } else {
                    assert(r[inner.len() as int] == y);
                }
            }
            if y == x {
                assert(inner.contains(x));
                let i = inner.index_of(x);
                assert(r[i] == x);
            }
        }
    }
}

/// `sorted_set` orders, and keeps exactly the numbers that there are.
pub proof fn law_sorted_set(s: Seq<u64>)
    ensures
        strictly_increasing(sorted_set(s)),
        forall|y: u64| #[trigger] sorted_set(s).contains(y) <==> s.contains(y),
    decreases s.len(),
{
    if s.len() > 0 {
        let front = s.subrange(0, s.len() - 1);
        law_sorted_set(front);
        lemma_inserted(sorted_set(front), s[s.len() - 1]);
        assert forall|y: u64| #[trigger] sorted_set(s).contains(y) <==> s.contains(y) by {
            if s.contains(y) {
                let k = s.index_of(y);
                if k < front.len() {
                    assert(front[k] == y);
                }
            }
            if front.contains(y) {
                let k = front.index_of(y);
                assert(s[k] == y);
            }
            assert(s.contains(s[s.len() - 1]));
        }
    }
}

/// An increasing sequence is determined by the numbers it holds.
proof fn lemma_increasing_unique(a: Seq<u64>, b: Seq<u64>)
    requires
        strictly_increasing(a),
        strictly_increasing(b),
        forall|y: u64| a.contains(y) <==> b.contains(y),
    ensures
        a == b,
    decreases a.len(),
{
    if a.len() == 0 {
        if b.len() > 0 {
            assert(b.contains(b[0]));
            assert(a.contains(b[0]));
        }
        assert(a =~= b);
    } else {
        assert(a.contains(a[0]));
        assert(b.contains(a[0]));
        let la = a[a.len() - 1];
        let lb = b[b.len() - 1];
        assert(a.contains(la));
        assert(b.contains(lb));
        assert(la == lb) by {
            assert(b.contains(la));
            assert(a.contains(lb));
            let i = b.index_of(la);
            let j = a.index_of(lb);
            assert(b[i] == la && a[j] == lb);
        }
        let fa = a.subrange(0, a.len() - 1);
        let fb = b.subrange(0, b.len() - 1);
        assert forall|y: u64| fa.contains(y) <==> fb.contains(y) by {
            if fa.contains(y) {
                let i = fa.index_of(y);
                assert(a[i] == y);
                assert(a.contains(y));
                assert(b.contains(y));
                let j = b.index_of(y);
                assert(j < b.len() - 1);
                assert(fb[j] == y);
            }
            if fb.contains(y) {
                let j = fb.index_of(y);
                assert(b[j] == y);
                assert(b.contains(y));
                assert(a.contains(y));
                let i = a.index_of(y);
                assert(i < a.len() - 1);
                assert(fa[i] == y);
            }
        }
        lemma_increasing_unique(fa, fb);
        assert(a =~= fa.push(la));
        assert(b =~= fb.push(lb));
    }
}

/// The offsets read from a file are strictly increasing, so that no page is named twice.
pub proof fn law_page_offsets_increase(contents: Seq<u8>, page_size: u64)
    ensures
        strictly_increasing(page_offsets(contents, page_size)),
{
    law_sorted_set(all_aligned(numbers_in_lines(contents, 0), page_size));
}

/// A page offset is read exactly when some line names an address within that page.
pub proof fn law_page_offsets_are_the_lines(contents: Seq<u8>, page_size: u64, offset: u64)
    ensures
        page_offsets(contents, page_size).contains(offset) <==> exists|i: int|
            0 <= i < numbers_in_lines(contents, 0).len() && aligned(
                #[trigger] numbers_in_lines(contents, 0)[i],
                page_size,
            ) == offset,
{
    let numbers = numbers_in_lines(contents, 0);
    let pages = all_aligned(numbers, page_size);
    law_sorted_set(pages);
    if pages.contains(offset) {
        let i = pages.index_of(offset);
        assert(aligned(numbers[i], page_size) == offset);
    }
    if exists|i: int|
        0 <= i < numbers.len() && aligned(#[trigger] numbers[i], page_size) == offset {
        let i = choose|i: int|
            0 <= i < numbers.len() && aligned(#[trigger] numbers[i], page_size) == offset;
        assert(pages[i] == offset);
    }
}

/// For a page size that is a power of two, aligning rounds down to a multiple of it.
pub proof fn law_aligned_rounds_down(offset: u64, exponent: nat)
    requires
        exponent < 64,
    ensures
        0 < power2::pow2(exponent) <= u64::MAX,
        aligned(offset, power2::pow2(exponent) as u64) as int == offset - offset as int
            % power2::pow2(exponent) as int,
{
    power2::lemma_pow2_pos(exponent);
    if exponent < 63 {
        power2::lemma_pow2_strictly_increases(exponent, 63);
    }
    power2::lemma2_to64();
    power2::lemma2_to64_rest();
    let size = power2::pow2(exponent) as u64;
    let mask = (size - 1) as u64;
    assert(vstd::bits::low_bits_mask(exponent) == mask);
    vstd::bits::lemma_u64_low_bits_mask_is_mod(offset, exponent);
    assert(offset & mask == offset % size);
    assert((offset & !mask) == offset - (offset & mask)) by (bit_vector);
}

/// For a page size that is a power of two, every offset read is a multiple of it, and the
/// offsets are at least a page apart: they name pages that do not overlap.
pub proof fn law_page_offsets_are_pages(contents: Seq<u8>, exponent: nat)
    requires
        exponent < 64,
    ensures
        0 < power2::pow2(exponent) <= u64::MAX,
        forall|i: int|
            #![trigger page_offsets(contents, power2::pow2(exponent) as u64)[i]]
            0 <= i < page_offsets(contents, power2::pow2(exponent) as u64).len()
                ==> page_offsets(contents, power2::pow2(exponent) as u64)[i] as int
                % power2::pow2(exponent) as int == 0,
        pages_apart(
            page_offsets(contents, power2::pow2(exponent) as u64),
            power2::pow2(exponent) as int,
        ),
{
    law_aligned_rounds_down(0, exponent);
    let ps = power2::pow2(exponent) as u64;
    let offs = page_offsets(contents, ps);
    law_page_offsets_increase(contents, ps);
    assert forall|i: int| #![trigger offs[i]] 0 <= i < offs.len() implies offs[i] as int
        % ps as int == 0 by {
        law_page_offsets_are_the_lines(contents, ps, offs[i]);
        assert(offs.contains(offs[i]));
        let numbers = numbers_in_lines(contents, 0);
        let k = choose|k: int|
            0 <= k < numbers.len() && aligned(#[trigger] numbers[k], ps) == offs[i];
        law_aligned_rounds_down(numbers[k], exponent);
        let n = numbers[k] as int;
        let p = ps as int;
        assert((n - n % p) % p == 0) by (nonlinear_arith)
            requires
                p > 0,
        ;
    }
    assert forall|i: int, j: int| 0 <= i < j < offs.len() implies #[trigger] offs[i] + ps
        <= #[trigger] offs[j] by {
        let a = offs[i] as int;
        let b = offs[j] as int;
        let p = ps as int;
        assert(a + p <= b) by (nonlinear_arith)
            requires
                a < b,
                p > 0,
                a % p == 0,
                b % p == 0,
        ;
    }
}

/// A line ends at the first line feed, or at the end of the bytes.
proof fn lemma_line_end_is(bytes: Seq<u8>, at: int, end: int)
    requires
        at <= end <= bytes.len(),
        0 <= at,
        forall|i: int| at <= i < end ==> #[trigger] bytes[i] != 10,
        end == bytes.len() || bytes[end] == 10,
    ensures
        line_end(bytes, at) == end,
    decreases end - at,
{
    if at < end {
        assert(bytes[at] != 10);
        lemma_line_end_is(bytes, at + 1, end);
    }
}

/// Up to where a line ends there is no line feed.
proof fn lemma_line_has_no_feed(bytes: Seq<u8>, at: int)
    requires
        0 <= at <= bytes.len(),
    ensures
        forall|i: int| at <= i < line_end(bytes, at) ==> #[trigger] bytes[i] != 10,
        line_end(bytes, at) == bytes.len() || bytes[line_end(bytes, at)] == 10,
    decreases bytes.len() - at,
{
    if at < bytes.len() && bytes[at] != 10 {
        lemma_line_has_no_feed(bytes, at + 1);
    }
}

/// The number in the line from `at` to `end` is among those read from the line at `from` on, when
/// every line in between is text.
proof fn lemma_line_is_reached(contents: Seq<u8>, from: int, at: int, end: int, n: u64)
    requires
        0 <= from <= at <= end <= contents.len(),
        from == 0 || contents[from - 1] == 10,
        at == 0 || contents[at - 1] == 10,
        end == contents.len() || contents[end] == 10,
        forall|i: int| at <= i < end ==> #[trigger] contents[i] != 10,
        forall|p: int, e: int|
            0 <= p <= e < at && (p == 0 || contents[p - 1] == 10) && contents[e] == 10 && (forall|
                i: int,
            |
                p <= i < e ==> #[trigger] contents[i] != 10) ==> !(text::line_of(
                #[trigger] contents.subrange(p, e),
            ) is Undecodable),
        text::line_of(contents.subrange(at, end)) == Line::Number(n),
        at < contents.len(),
    ensures
        numbers_in_lines(contents, from).contains(n),
    decreases at - from,
{
    let all = numbers_in_lines(contents, from);
    lemma_line_end(contents, from);
    lemma_line_has_no_feed(contents, from);
    let e = line_end(contents, from);
    if from == at {
        lemma_line_end_is(contents, at, end);
        assert(all[0] == n);
    } else {
        assert(e < at) by {
            if e >= at {
                assert(contents[at - 1] != 10);
            }
        }
        assert(!(text::line_of(contents.subrange(from, e)) is Undecodable));
        lemma_line_is_reached(contents, e + 1, at, end, n);
        let tail = numbers_in_lines(contents, e + 1);
        let k = tail.index_of(n);
        match text::line_of(contents.subrange(from, e)) {
            Line::Number(_) => {
                assert(all[k + 1] == n);
            },
            _ => {
                assert(all[k] == n);
            },
        }
    }
}

/// Each number that is read stands in a line, and all lines before that are text.
proof fn lemma_number_has_a_line(contents: Seq<u8>, from: int, k: int) -> (r: (int, int))
    requires
        0 <= from,
        from == 0 || (from <= contents.len() && contents[from - 1] == 10),
        0 <= k < numbers_in_lines(contents, from).len(),
    ensures
        from <= r.0 <= r.1 <= contents.len(),
        r.0 == 0 || contents[r.0 - 1] == 10,
        r.1 == contents.len() || contents[r.1] == 10,
        forall|i: int| r.0 <= i < r.1 ==> #[trigger] contents[i] != 10,
        text::line_of(contents.subrange(r.0, r.1)) == Line::Number(
            numbers_in_lines(contents, from)[k],
        ),
        forall|p: int, e: int|
            from <= p <= e < r.0 && (p == 0 || contents[p - 1] == 10) && contents[e] == 10 && (
            forall|i: int| p <= i < e ==> #[trigger] contents[i] != 10) ==> !(text::line_of(
                #[trigger] contents.subrange(p, e),
            ) is Undecodable),
    decreases contents.len() - from,
{
    lemma_line_end(contents, from);
    lemma_line_has_no_feed(contents, from);
    let end = line_end(contents, from);
    let here = text::line_of(contents.subrange(from, end));
    if here is Number && k == 0 {
        (from, end)
    } else {
        let next = if here is Number {
            k - 1
        } else {
            k
        };
        let r = lemma_number_has_a_line(contents, end + 1, next);
        assert forall|p: int, e: int|
            from <= p <= e < r.0 && (p == 0 || contents[p - 1] == 10) && contents[e] == 10 && (
            forall|i: int| p <= i < e ==> #[trigger] contents[i] != 10) implies !(text::line_of(
            #[trigger] contents.subrange(p, e),
        ) is Undecodable) by {
            if p <= end {
                if p > from {
                    assert(contents[p - 1] != 10);
                }
                assert(p == from);
                lemma_line_end_is(contents, from, e);
            }
        }
        r
    }
}

/// Every line that says a number is read, unless a line before it is not text: the number, with
/// the bits below the page size cleared, is among the offsets.
pub proof fn law_every_listed_page_is_read(
    contents: Seq<u8>,
    page_size: u64,
    at: int,
    end: int,
    n: u64,
)
    requires
        page_size > 0,
        0 <= at <= end <= contents.len(),
        at == 0 || contents[at - 1] == 10,
        end == contents.len() || contents[end] == 10,
        forall|i: int| at <= i < end ==> #[trigger] contents[i] != 10,
        forall|p: int, e: int|
            0 <= p <= e < at && (p == 0 || contents[p - 1] == 10) && contents[e] == 10 && (forall|
                i: int,
            |
                p <= i < e ==> #[trigger] contents[i] != 10) ==> !(text::line_of(
                #[trigger] contents.subrange(p, e),
            ) is Undecodable),
        text::line_of(contents.subrange(at, end)) == Line::Number(n),
    ensures
        page_offsets(contents, page_size).contains(n & !((page_size - 1) as u64)),
{
    if at == contents.len() {
        text::law_only_number_lines_are_read(contents.subrange(at, end));
        assert(contents.subrange(at, end).len() == 0);
    }
    lemma_line_is_reached(contents, 0, at, end, n);
    let numbers = numbers_in_lines(contents, 0);
    let i = numbers.index_of(n);
    law_page_offsets_are_the_lines(contents, page_size, aligned(n, page_size));
    assert(aligned(numbers[i], page_size) == aligned(n, page_size));
}

/// Nothing else is read: each offset comes from a line that says a number, before which all lines
/// are text.
pub proof fn law_only_listed_pages_are_read(contents: Seq<u8>, page_size: u64, offset: u64)
    requires
        page_size > 0,
        page_offsets(contents, page_size).contains(offset),
    ensures
        exists|at: int, end: int|
            0 <= at <= end <= contents.len() && (at == 0 || contents[at - 1] == 10) && (end
                == contents.len() || contents[end] == 10) && (forall|i: int|
                at <= i < end ==> #[trigger] contents[i] != 10) && (forall|p: int, e: int|
                0 <= p <= e < at && (p == 0 || contents[p - 1] == 10) && contents[e] == 10 && (
                forall|i: int| p <= i < e ==> #[trigger] contents[i] != 10) ==> !(text::line_of(
                    #[trigger] contents.subrange(p, e),
                ) is Undecodable)) && (text::line_of(
                #[trigger] contents.subrange(at, end),
            ) matches Line::Number(n) && offset == n & !((page_size - 1) as u64)),
{
    let numbers = numbers_in_lines(contents, 0);
    law_page_offsets_are_the_lines(contents, page_size, offset);
    let i = choose|i: int|
        0 <= i < numbers.len() && aligned(#[trigger] numbers[i], page_size) == offset;
    let (at, end) = lemma_number_has_a_line(contents, 0, i);
    assert(text::line_of(contents.subrange(at, end)) == Line::Number(numbers[i]));
}

/// The offsets are in increasing order, and none comes twice.
pub proof fn law_pages_are_read_in_order(contents: Seq<u8>, page_size: u64, k: int, l: int)
    requires
        0 <= k < l < page_offsets(contents, page_size).len(),
    ensures
        page_offsets(contents, page_size)[k] < page_offsets(contents, page_size)[l],
{
    law_page_offsets_increase(contents, page_size);
}

/// A list of one line, the decimal digits of a number below 2^64, is read as that number rounded
/// down to its page, however large it is.
pub proof fn law_a_single_number_is_read(digits: Seq<char>, exponent: nat)
    requires
        exponent < 64,
        digits.len() > 0,
        forall|i: int| 0 <= i < digits.len() ==> '0' <= #[trigger] digits[i] <= '9',
        digits.fold_left(0int, |v: int, c: char| v * 10 + (c as int - 48)) <= u64::MAX,
    ensures
        ({
            let value = digits.fold_left(0int, |v: int, c: char| v * 10 + (c as int - 48));
            let ps = power2::pow2(exponent);
            let offs = page_offsets(
                vstd::utf8::encode_utf8(digits) + seq![10u8],
                power2::pow2(exponent) as u64,
            );
            &&& offs.len() == 1
            &&& offs[0] == value - value % ps as int
        }),
{
    broadcast use {
        vstd::utf8::encode_utf8_valid_utf8,
        vstd::utf8::encode_utf8_decode_utf8,
        vstd::utf8::is_ascii_chars_encode_utf8,
    };

    let value = digits.fold_left(0int, |v: int, c: char| v * 10 + (c as int - 48));
    law_aligned_rounds_down(0, exponent);
    let ps = power2::pow2(exponent) as u64;
    let line = vstd::utf8::encode_utf8(digits);
    let contents = line + seq![10u8];
    let n = line.len() as int;
    assert(vstd::utf8::is_ascii_chars(digits));
    assert(vstd::utf8::decode_utf8(line) == digits);
    assert(digits.subrange(0, digits.len() as int) =~= digits);
    text::law_number_lines_are_read(line, 0, digits.len() as int);
    assert(contents.subrange(0, n) =~= line);
    assert forall|i: int| 0 <= i < n implies #[trigger] contents[i] != 10 by {
        assert(contents[i] == line[i]);
        assert(line[i] == digits[i] as u8);
    }
    lemma_line_end_is(contents, 0, n);
    assert(numbers_in_lines(contents, n + 1) == Seq::<u64>::empty());
    let numbers = numbers_in_lines(contents, 0);
    assert(numbers =~= seq![value as u64]);
    let pages = all_aligned(numbers, ps);
    assert(pages =~= seq![aligned(value as u64, ps)]);
    assert(sorted_set(pages) =~= pages) by {
        reveal_with_fuel(sorted_set, 2);
        assert(pages.subrange(0, 0) =~= Seq::<u64>::empty());
    }
    law_aligned_rounds_down(value as u64, exponent);
}

/// Merges two increasing sequences into one that holds the numbers of both.
fn merge(a: &Vec<u64>, b: &Vec<u64>) -> (r: Vec<u64>)
    requires
        strictly_increasing(a@),
        strictly_increasing(b@),
    ensures
        strictly_increasing(r@),
        forall|y: u64| #[trigger] r@.contains(y) <==> a@.contains(y) || b@.contains(y),
{
    let mut r: Vec<u64> = Vec::with_capacity(a.len());
    let mut i: usize = 0;
    let mut j: usize = 0;
    while i < a.len() || j < b.len()
        invariant
            i <= a.len(),
            j <= b.len(),
            strictly_increasing(a@),
            strictly_increasing(b@),
            strictly_increasing(r@),
            forall|k: int, l: int| 0 <= k < r.len() && i <= l < a.len() ==> r@[k] < a@[l],
            forall|k: int, l: int| 0 <= k < r.len() && j <= l < b.len() ==> r@[k] < b@[l],
            forall|l: int| 0 <= l < i ==> r@.contains(#[trigger] a@[l]),
            forall|l: int| 0 <= l < j ==> r@.contains(#[trigger] b@[l]),
            forall|k: int|
                0 <= k < r.len() ==> a@.contains(#[trigger] r@[k]) || b@.contains(r@[k]),
        decreases a.len() - i + b.len() - j,
    {
        let ghost before = r@;
        let next: u64 = if j >= b.len() {
            a[i]
        } else if i >= a.len() {
            b[j]
        } else if a[i] <= b[j] {
            a[i]
        } else {
            b[j]
        };
        assert(a@.contains(next) || b@.contains(next)) by {
            if i < a.len() && next == a@[i as int] {
                assert(a@.contains(a@[i as int]));
            } else {
                assert(b@.contains(b@[j as int]));
            }
        }
        r.push(next);
        proof {
            assert(r@[before.len() as int] == next);
            assert forall|l: int| 0 <= l < i implies r@.contains(#[trigger] a@[l]) by {
                let k = before.index_of(a@[l]);
                assert(r@[k] == a@[l]);
            }
            assert forall|l: int| 0 <= l < j implies r@.contains(#[trigger] b@[l]) by {
                let k = before.index_of(b@[l]);
                assert(r@[k] == b@[l]);
            }
        }
        if i < a.len() && a[i] == next {
            i = i + 1;
        }
        if j < b.len() && b[j] == next {
            j = j + 1;
        }
    }
    proof {
        assert forall|y: u64| #[trigger] r@.contains(y) <==> a@.contains(y) || b@.contains(y) by {
            if r@.contains(y) {
                let k = r@.index_of(y);
                assert(r@[k] == y);
            }
            if a@.contains(y) {
                let l = a@.index_of(y);
                assert(a@[l] == y);
            }
            if b@.contains(y) {
                let l = b@.index_of(y);
                assert(b@[l] == y);
            }
        }
    }
    r
}

/// The numbers of `v[start..end]`, each once, in increasing order.
fn sort_dedup(v: &Vec<u64>, start: usize, end: usize) -> (r: Vec<u64>)
    requires
        start <= end <= v.len(),
    ensures
        strictly_increasing(r@),
        forall|y: u64|
            #[trigger] r@.contains(y) <==> v@.subrange(start as int, end as int).contains(y),
    decreases end - start,
{
    let ghost part = v@.subrange(start as int, end as int);
    if end - start == 0 {
        Vec::new()
    } else if end - start == 1 {
        let mut r: Vec<u64> = Vec::new();
        r.push(v[start]);
        assert(r@ =~= part);
        r
    } else {
        let mid: usize = start + (end - start) / 2;
        let left: Vec<u64> = sort_dedup(v, start, mid);
        let right: Vec<u64> = sort_dedup(v, mid, end);
        let r: Vec<u64> = merge(&left, &right);
        proof {
            let lo = v@.subrange(start as int, mid as int);
            let hi = v@.subrange(mid as int, end as int);
            assert forall|y: u64| #[trigger] r@.contains(y) <==> part.contains(y) by {
                if part.contains(y) {
                    let k = part.index_of(y);
                    if k < lo.len() {
                        assert(lo[k] == y);
                        assert(lo.contains(y));
                    } else {
                        assert(hi[k - lo.len()] == y);
                        assert(hi.contains(y));
                    }
                }
                if lo.contains(y) {
                    let k = lo.index_of(y);
                    assert(part[k] == y);
                }
                if hi.contains(y) {
                    let k = hi.index_of(y);
                    assert(part[k + lo.len()] == y);
                }
            }
        }
        r
    }
}

/// Reads the page offsets that a file with these contents lists, one number per line. Each is
/// aligned to its page; the result is in increasing order and names no page twice. Lines that
/// write no number are passed over, and the first line that is not UTF-8 ends the reading.
pub fn read_page_offsets(contents: &[u8], page_size: u64) -> (offsets: Vec<u64>)
    requires
        page_size > 0,
    ensures
        offsets@ == page_offsets(contents@, page_size),
{
    let mask: u64 = !(page_size - 1);
    let mut pages: Vec<u64> = Vec::new();
    let mut at: usize = 0;
    let ghost all = all_aligned(numbers_in_lines(contents@, 0), page_size);
    let ghost mut rest = numbers_in_lines(contents@, 0);
    assert(pages@ + all_aligned(rest, page_size) =~= all);
    while at < contents.len()
        invariant_except_break
            rest == numbers_in_lines(contents@, at as int),
        invariant
            at <= contents@.len(),
            page_size > 0,
            mask == !((page_size - 1) as u64),
            pages@ + all_aligned(rest, page_size) == all,
        ensures
            rest.len() == 0,
        decreases contents@.len() - at,
    {
        let mut end: usize = at;
        while end < contents.len() && contents[end] != 10
            invariant
                at <= end <= contents@.len(),
                line_end(contents@, at as int) == line_end(contents@, end as int),
            ensures
                at <= end <= contents@.len(),
                end == line_end(contents@, at as int),
            decreases contents@.len() - end,
        {
            end = end + 1;
        }
        let ghost before = pages@;
        let ghost tail = if end < contents@.len() {
            numbers_in_lines(contents@, end + 1)
        } else {
            Seq::empty()
        };
        match read_line(contents, at, end) {
            Line::Undecodable => {
                break;
            },
            Line::Other => {
                proof {
                    rest = tail;
                }
            },
            Line::Number(n) => {
                pages.push(n & mask);
                proof {
                    assert(rest =~= seq![n] + tail);
                    assert(before + all_aligned(rest, page_size) =~= pages@ + all_aligned(
                        tail,
                        page_size,
                    ));
                    rest = tail;
                }
            },
        }
        if end == contents.len() {
            break;
        }
        at = end + 1;
    }
    assert(pages@ =~= all);
    let offsets: Vec<u64> = sort_dedup(&pages, 0, pages.len());
    proof {
        assert(pages@.subrange(0, pages@.len() as int) =~= all);
        law_sorted_set(all);
        lemma_increasing_unique(offsets@, sorted_set(all));
    }
    offsets
}

/// How much of a file that could not be read to its end is complete lines: the number of bytes up
/// to and with the last line break. Without a line break it is 0.
pub fn complete_lines(contents: &[u8]) -> (len: usize)
    ensures
        len <= contents@.len(),
        len > 0 ==> contents@[len - 1] == 10,
        forall|i: int| len <= i < contents@.len() ==> contents@[i] != 10,
{
    let mut len: usize = contents.len();
    while len > 0 && contents[len - 1] != 10
        invariant
            len <= contents@.len(),
            forall|i: int| len <= i < contents@.len() ==> contents@[i] != 10,
        decreases len,
    {
        len = len - 1;
    }
    len
}

} // verus!
