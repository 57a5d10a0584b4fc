//! Byte offsets, scalar indexes and line positions of a text.

use vstd::prelude::*;

use crate::text;

verus! {

/// How many bytes the UTF-8 encoding of a scalar value takes.
pub open spec fn scalar_width(c: char) -> nat {
    vstd::utf8::encode_scalar(c as u32).len()
}

/// Computes `scalar_width`.
pub fn width_of(c: char) -> (result: usize)
    ensures
        result == scalar_width(c),
        1 <= result <= 4,
{
    if c <= '\u{7f}' {
        1
    } else if c <= '\u{7ff}' {
        2
    } else if c <= '\u{ffff}' {
        3
    } else {
        4
    }
}

/// Every scalar value takes one to four bytes.
pub proof fn lemma_scalar_width(c: char)
    ensures
        1 <= scalar_width(c) <= 4,
{
}

/// The byte offset of the scalar value with index `k`.
pub open spec fn offset_of(s: Seq<char>, k: int) -> nat {
    text::byte_len(s.take(k))
}

proof fn lemma_encode_push(s: Seq<char>, c: char)
    ensures
        text::byte_len(s.push(c)) == text::byte_len(s) + scalar_width(c),
    decreases s.len(),
{
    reveal_with_fuel(vstd::utf8::encode_utf8, 2);
    if s.len() == 0 {
        assert(s.push(c).drop_first() =~= Seq::<char>::empty());
    } else {
        assert(s.push(c).drop_first() =~= s.drop_first().push(c));
        lemma_encode_push(s.drop_first(), c);
    }
}

/// Offsets grow by the width of each scalar value, from zero to the length.
pub proof fn lemma_offset_step(s: Seq<char>, k: int)
    requires
        0 <= k < s.len(),
    ensures
        offset_of(s, k + 1) == offset_of(s, k) + scalar_width(s[k]),
        1 <= scalar_width(s[k]) <= 4,
{
    assert(s.take(k + 1) =~= s.take(k).push(s[k]));
    lemma_encode_push(s.take(k), s[k]);
    lemma_scalar_width(s[k]);
}

/// A later scalar value has a greater offset.
pub proof fn lemma_offset_increases(s: Seq<char>, i: int, j: int)
    requires
        0 <= i <= j <= s.len(),
    ensures
        i < j ==> offset_of(s, i) < offset_of(s, j),
        offset_of(s, i) <= offset_of(s, j) <= text::byte_len(s),
        offset_of(s, i) + (j - i) <= offset_of(s, j),
    decreases s.len() - i,
{
    if i < j {
        lemma_offset_step(s, i);
        lemma_offset_increases(s, i + 1, j);
    } else if j < s.len() {
        lemma_offset_step(s, j);
        lemma_offset_increases(s, j + 1, s.len() as int);
    } else {
        assert(s.take(j) =~= s);
    }
}

/// Whether a scalar value, or the end, has a byte offset.
pub open spec fn is_index_at(s: Seq<char>, offset: int, k: int) -> bool {
    0 <= k <= s.len() && offset_of(s, k) == offset
}

/// Whether a byte offset lies on a boundary between scalar values.
pub open spec fn is_boundary(s: Seq<char>, offset: int) -> bool {
    exists|k: int| #[trigger] is_index_at(s, offset, k)
}

/// The index of the scalar value at a byte offset on a boundary.
pub open spec fn index_at(s: Seq<char>, offset: int) -> int {
    choose|k: int| #[trigger] is_index_at(s, offset, k)
}

/// At most one index has an offset.
pub proof fn lemma_index_unique(s: Seq<char>, offset: int, k: int)
    requires
        is_index_at(s, offset, k),
    ensures
        is_boundary(s, offset),
        index_at(s, offset) == k,
{
    let m = index_at(s, offset);
    assert(is_index_at(s, offset, m));
    if m < k {
        lemma_offset_increases(s, m, k);
    } else if k < m {
        lemma_offset_increases(s, k, m);
    }
}

/// The length in bytes of a text.
pub fn byte_length(value: &str) -> (result: usize)
    ensures
        result == text::byte_len(value@),
{
    value.as_bytes().len()
}

/// Finds the scalar value at a byte offset.
pub fn find_index(chars: &[char], total: usize, offset: usize) -> (result: Option<usize>)
    requires
        total == text::byte_len(chars@),
    ensures
        match result {
            Some(k) => is_index_at(chars@, offset as int, k as int) && index_at(
                chars@,
                offset as int,
            ) == k,
            None => !is_boundary(chars@, offset as int),
        },
{
    let mut k: usize = 0;
    let mut here: usize = 0;
    assert(chars@.take(0) =~= Seq::<char>::empty());
    while k < chars.len() && here < offset
        invariant
            total == text::byte_len(chars@),
            k <= chars@.len(),
            here == offset_of(chars@, k as int),
            forall|j: int| 0 <= j < k ==> #[trigger] offset_of(chars@, j) < offset,
        decreases chars@.len() - k,
    {
        proof {
            lemma_offset_step(chars@, k as int);
            lemma_offset_increases(chars@, k + 1, chars@.len() as int);
        }
        here = here + width_of(chars[k]);
        k = k + 1;
    }
    if here == offset {
        proof {
            lemma_index_unique(chars@, offset as int, k as int);
        }
        Some(k)
    } else {
        proof {
            if is_boundary(chars@, offset as int) {
                let m = index_at(chars@, offset as int);
                assert(is_index_at(chars@, offset as int, m));
                if k <= m {
                    lemma_offset_increases(chars@, k as int, m);
                }
                assert(false);
            }
        }
        None
    }
}

/// Computes `offset_of`.
pub fn find_offset(chars: &[char], total: usize, k: usize) -> (result: usize)
    requires
        total == text::byte_len(chars@),
        k <= chars@.len(),
    ensures
        result == offset_of(chars@, k as int),
{
    let mut i: usize = 0;
    let mut here: usize = 0;
    assert(chars@.take(0) =~= Seq::<char>::empty());
    while i < k
        invariant
            total == text::byte_len(chars@),
            i <= k <= chars@.len(),
            here == offset_of(chars@, i as int),
        decreases k - i,
    {
        proof {
            lemma_offset_step(chars@, i as int);
            lemma_offset_increases(chars@, i + 1, chars@.len() as int);
        }
        here = here + width_of(chars[i]);
        i = i + 1;
    }
    here
}

/// How many line feeds a text holds.
pub open spec fn line_feeds(s: Seq<char>) -> nat
    decreases s.len(),
{
    if s.len() == 0 {
        0
    } else {
        line_feeds(s.drop_last()) + (if s.last() == '\n' {
            1nat
        } else {
            0nat
        })
    }
}

/// The index at which the line of index `k` starts.
pub open spec fn line_start(s: Seq<char>, k: int) -> int {
    text::last_position(s.take(k), '\n') + 1
}

/// The one-based line of index `k`.
pub open spec fn line_of(s: Seq<char>, k: int) -> int {
    line_feeds(s.take(k)) as int + 1
}

/// The one-based column of index `k`, in scalar values.
pub open spec fn column_of(s: Seq<char>, k: int) -> int {
    k - line_start(s, k) + 1
}

/// There are at most as many line feeds as scalar values.
pub proof fn lemma_line_feeds(s: Seq<char>)
    ensures
        line_feeds(s) <= s.len(),
    decreases s.len(),
{
    if s.len() > 0 {
        lemma_line_feeds(s.drop_last());
    }
}

/// The line and the column of an index, both one-based.
pub fn line_and_column(chars: &[char], k: usize) -> (result: (usize, usize))
    requires
        k <= chars@.len() < usize::MAX,
    ensures
        result.0 == line_of(chars@, k as int),
        result.1 == column_of(chars@, k as int),
        1 <= result.0 <= k + 1,
        1 <= result.1 <= k + 1,
{
    let mut line: usize = 1;
    let mut start: usize = 0;
    let mut i: usize = 0;
    while i < k
        invariant
            i <= k <= chars@.len() < usize::MAX,
            line == line_of(chars@, i as int),
            line <= i + 1,
            start == line_start(chars@, i as int),
            start <= i,
        decreases k - i,
    {
        assert(chars@.take(i + 1).drop_last() =~= chars@.take(i as int));
        assert(chars@.take(i + 1).last() == chars@[i as int]);
        if chars[i] == '\n' {
            line = line + 1;
            start = i + 1;
        }
        i = i + 1;
    }
    (line, k - start + 1)
}

/// The index at which line `l`, counted from zero, starts; the length, where
/// there are fewer lines.
pub open spec fn nth_line_start(s: Seq<char>, l: nat) -> int
    decreases l,
{
    if l == 0 {
        0
    } else {
        let p = text::first_position(s, '\n');
        if p >= s.len() {
            s.len() as int
        } else {
            p + 1 + nth_line_start(s.skip(p + 1), (l - 1) as nat)
        }
    }
}

/// How many scalar values stand on the line that starts at an index, without
/// its line feed.
pub open spec fn line_length(s: Seq<char>, start: int) -> int {
    text::first_position(s.skip(start), '\n')
}

/// A line starts inside the text or at its end.
pub proof fn lemma_nth_line_start_bounds(s: Seq<char>, l: nat)
    ensures
        0 <= nth_line_start(s, l) <= s.len(),
    decreases l,
{
    if l > 0 {
        text::lemma_first_position(s, '\n');
        let p = text::first_position(s, '\n');
        if p < s.len() {
            lemma_nth_line_start_bounds(s.skip(p + 1), (l - 1) as nat);
        }
    }
}

/// Finds the start of a line, counted from zero.
pub fn find_line(chars: &[char], l: usize) -> (result: usize)
    ensures
        result == nth_line_start(chars@, l as nat),
        result <= chars@.len(),
{
    let len: usize = chars.len();
    let mut start: usize = 0;
    let mut left: usize = l;
    assert(chars@.skip(0) =~= chars@);
    while left > 0 && start < len
        invariant
            len == chars@.len(),
            start <= chars@.len(),
            nth_line_start(chars@, l as nat) == start + nth_line_start(
                chars@.skip(start as int),
                left as nat,
            ),
        decreases left,
    {
        let rest = &chars[start..len];
        let p: usize = text::find_char(rest, '\n');
        proof {
            text::lemma_first_position(chars@.skip(start as int), '\n');
            assert(rest@ =~= chars@.skip(start as int));
        }
        if p >= len - start {
            return len;
        }
        proof {
            assert(chars@.skip(start as int).skip(p + 1) =~= chars@.skip(start + p + 1));
        }
        start = start + p + 1;
        left = left - 1;
    }
    proof {
        if left > 0 {
            text::lemma_first_position(chars@.skip(start as int), '\n');
        }
    }
    start
}

proof fn lemma_line_feeds_front(s: Seq<char>, p: int)
    requires
        0 <= p < s.len(),
        s[p] == '\n',
        forall|i: int| 0 <= i < p ==> s[i] != '\n',
    ensures
        line_feeds(s) == 1 + line_feeds(s.skip(p + 1)),
        text::last_position(s, '\n') == p + 1 + text::last_position(s.skip(p + 1), '\n'),
    decreases s.len(),
{
    if s.len() == p + 1 {
        lemma_no_line_feeds(s.drop_last());
        assert(s.skip(p + 1) =~= Seq::<char>::empty());
    } else {
        let t = s.drop_last();
        lemma_line_feeds_front(t, p);
        assert(t.skip(p + 1) =~= s.skip(p + 1).drop_last());
        assert(s.skip(p + 1).last() == s.last());
    }
}

proof fn lemma_no_line_feeds(s: Seq<char>)
    requires
        forall|i: int| 0 <= i < s.len() ==> s[i] != '\n',
    ensures
        line_feeds(s) == 0,
        text::last_position(s, '\n') == -1,
    decreases s.len(),
{
    if s.len() > 0 {
        lemma_no_line_feeds(s.drop_last());
    }
}

/// Counting the line feeds before an index finds the start of its line.
pub proof fn lemma_line_of_start(s: Seq<char>, k: int)
    requires
        0 <= k <= s.len(),
    ensures
        nth_line_start(s, line_feeds(s.take(k))) == line_start(s, k),
        0 <= line_start(s, k) <= k,
        k <= line_start(s, k) + line_length(s, line_start(s, k)),
    decreases k,
{
    text::lemma_first_position(s, '\n');
    let p = text::first_position(s, '\n');
    if p >= k {
        lemma_no_line_feeds(s.take(k));
        assert(s.skip(0) =~= s);
    } else {
        let t = s.skip(p + 1);
        let m = k - p - 1;
        assert(s.take(k).skip(p + 1) =~= t.take(m));
        lemma_line_feeds_front(s.take(k), p);
        lemma_line_of_start(t, m);
        let start = line_start(t, m);
        assert(t.skip(start) =~= s.skip(p + 1 + start));
    }
}

/// An index on a line, counted from zero, is on that line.
pub proof fn lemma_start_of_line(s: Seq<char>, l: nat, k: int)
    requires
        nth_line_start(s, l) < s.len(),
        nth_line_start(s, l) <= k <= nth_line_start(s, l) + line_length(s, nth_line_start(s, l)),
    ensures
        k <= s.len(),
        line_feeds(s.take(k)) == l,
        line_start(s, k) == nth_line_start(s, l),
    decreases l,
{
    text::lemma_first_position(s, '\n');
    let p = text::first_position(s, '\n');
    if l == 0 {
        assert(s.skip(0) =~= s);
        lemma_no_line_feeds(s.take(k));
    } else {
        let t = s.skip(p + 1);
        let start = nth_line_start(t, (l - 1) as nat);
        lemma_nth_line_start_bounds(t, (l - 1) as nat);
        assert(t.skip(start) =~= s.skip(p + 1 + start));
        lemma_start_of_line(t, (l - 1) as nat, k - p - 1);
        assert(s.take(k).skip(p + 1) =~= t.take(k - p - 1));
        lemma_line_feeds_front(s.take(k), p);
    }
}

/// Whether a scalar value is white space.
pub open spec fn is_white_space(c: char) -> bool {
    ||| '\u{9}' <= c <= '\u{d}'
    ||| c == '\u{20}'
    ||| c == '\u{85}'
    ||| c == '\u{a0}'
    ||| c == '\u{1680}'
    ||| '\u{2000}' <= c <= '\u{200a}'
    ||| c == '\u{2028}'
    ||| c == '\u{2029}'
    ||| c == '\u{202f}'
    ||| c == '\u{205f}'
    ||| c == '\u{3000}'
}

/// Computes `is_white_space`.
pub fn white_space(c: char) -> (result: bool)
    ensures
        result == is_white_space(c),
{
    '\u{9}' <= c && c <= '\u{d}' || c == '\u{20}' || c == '\u{85}' || c == '\u{a0}' || c
        == '\u{1680}' || '\u{2000}' <= c && c <= '\u{200a}' || c == '\u{2028}' || c == '\u{2029}'
        || c == '\u{202f}' || c == '\u{205f}' || c == '\u{3000}'
}

/// A text without the white space that it starts with.
pub open spec fn trimmed_start(s: Seq<char>) -> Seq<char>
    decreases s.len(),
{
    if s.len() > 0 && is_white_space(s[0]) {
        trimmed_start(s.drop_first())
    } else {
        s
    }
}

/// A text without the white space that it ends with.
pub open spec fn trimmed_end(s: Seq<char>) -> Seq<char>
    decreases s.len(),
{
    if s.len() > 0 && is_white_space(s.last()) {
        trimmed_end(s.drop_last())
    } else {
        s
    }
}

/// A text without the white space around it.
pub open spec fn trimmed(s: Seq<char>) -> Seq<char> {
    trimmed_end(trimmed_start(s))
}

/// Finds the bounds of a text without the white space around it.
pub fn trim_bounds(chars: &[char], start: usize, end: usize) -> (result: (usize, usize))
    requires
        start <= end <= chars@.len(),
    ensures
        start <= result.0 <= result.1 <= end,
        chars@.subrange(result.0 as int, result.1 as int) == trimmed(
            chars@.subrange(start as int, end as int),
        ),
{
    let ghost whole = chars@.subrange(start as int, end as int);
    let mut low: usize = start;
    while low < end && white_space(chars[low])
        invariant
            start <= low <= end <= chars@.len(),
            trimmed_start(whole) == trimmed_start(chars@.subrange(low as int, end as int)),
        decreases end - low,
    {
        assert(chars@.subrange(low as int, end as int).drop_first() =~= chars@.subrange(
            low + 1,
            end as int,
        ));
        low = low + 1;
    }
    let ghost middle = chars@.subrange(low as int, end as int);
    assert(trimmed_start(whole) == middle);
    let mut high: usize = end;
    while high > low && white_space(chars[high - 1])
        invariant
            start <= low <= high <= end <= chars@.len(),
            trimmed_end(middle) == trimmed_end(chars@.subrange(low as int, high as int)),
        decreases high - low,
    {
        assert(chars@.subrange(low as int, high as int).drop_last() =~= chars@.subrange(
            low as int,
            high - 1,
        ));
        high = high - 1;
    }
    (low, high)
}

/// Computes `trimmed` of a part of a text.
pub fn trim_part(chars: &[char], start: usize, end: usize) -> (result: String)
    requires
        start <= end <= chars@.len(),
    ensures
        result@ == trimmed(chars@.subrange(start as int, end as int)),
{
    let (low, high) = trim_bounds(chars, start, end);
    text::slice_text(chars, low, high)
}

} // verus!
