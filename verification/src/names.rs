//! Dotted names and versions.

use vstd::prelude::*;

use crate::text;

verus! {

/// Whether a scalar value can stand in a segment of a name: a lower-case ASCII
/// letter, a digit or a hyphen, and an underscore where it is allowed.
pub open spec fn is_segment_scalar(c: char, underscore: bool) -> bool {
    ||| 'a' <= c <= 'z'
    ||| text::is_digit(c)
    ||| c == '-'
    ||| underscore && c == '_'
}

/// Whether a text is a segment of a name.
pub open spec fn is_segment(s: Seq<char>, underscore: bool) -> bool {
    &&& s.len() > 0
    &&& forall|i: int| 0 <= i < s.len() ==> is_segment_scalar(#[trigger] s[i], underscore)
}

/// Whether a text is made of segments separated by dots.
pub open spec fn is_dotted(s: Seq<char>, underscore: bool) -> bool {
    let segments = text::split_on(s, '.');
    forall|i: int| 0 <= i < segments.len() ==> is_segment(#[trigger] segments[i], underscore)
}

fn segment(value: &str, underscore: bool) -> (result: bool)
    ensures
        result == is_segment(value@, underscore),
{
    let chars = text::chars_of(value);
    if chars.len() == 0 {
        return false;
    }
    let mut i: usize = 0;
    while i < chars.len()
        invariant
            chars@ == value@,
            chars@.len() > 0,
            i <= chars@.len(),
            forall|j: int| 0 <= j < i ==> is_segment_scalar(#[trigger] value@[j], underscore),
        decreases chars@.len() - i,
    {
        let c = chars[i];
        let allowed: bool = ('a' <= c && c <= 'z') || ('0' <= c && c <= '9') || c == '-' || (
        underscore && c == '_');
        if !allowed {
            assert(!is_segment_scalar(value@[i as int], underscore));
            return false;
        }
        i = i + 1;
    }
    true
}

fn dotted(value: &str, underscore: bool) -> (result: bool)
    ensures
        result == is_dotted(value@, underscore),
{
    let chars = text::chars_of(value);
    let segments = text::split_chars(chars.as_slice(), '.');
    let ghost pieces = text::split_on(value@, '.');
    assert(pieces.len() == segments@.len());
    let mut i: usize = 0;
    while i < segments.len()
        invariant
            pieces == text::split_on(value@, '.'),
            text::texts(segments@) == pieces,
            pieces.len() == segments@.len(),
            i <= segments@.len(),
            forall|j: int| 0 <= j < i ==> is_segment(#[trigger] pieces[j], underscore),
        decreases segments@.len() - i,
    {
        assert(text::texts(segments@)[i as int] == segments@[i as int]@);
        if !segment(segments[i].as_str(), underscore) {
            assert(!is_segment(pieces[i as int], underscore));
            return false;
        }
        i = i + 1;
    }
    true
}

/// Whether a text is a dotted name of lower-case ASCII letters, digits and
/// hyphens.
pub fn is_dotted_name(value: &str) -> (result: bool)
    ensures
        result == is_dotted(value@, false),
{
    dotted(value, false)
}

/// Whether a text is a dotted name that may hold underscores, too.
pub fn is_capability_name(value: &str) -> (result: bool)
    ensures
        result == is_dotted(value@, true),
{
    dotted(value, true)
}

/// Whether a text is a sequence of decimal digits.
pub open spec fn is_digits(s: Seq<char>) -> bool {
    &&& s.len() > 0
    &&& forall|i: int| 0 <= i < s.len() ==> text::is_digit(#[trigger] s[i])
}

/// Whether a text is a version of three numbers separated by dots.
pub open spec fn is_version(s: Seq<char>) -> bool {
    let parts = text::split_on(s, '.');
    &&& parts.len() == 3
    &&& is_digits(parts[0])
    &&& is_digits(parts[1])
    &&& is_digits(parts[2])
}

fn digits(value: &str) -> (result: bool)
    ensures
        result == is_digits(value@),
{
    let chars = text::chars_of(value);
    if chars.len() == 0 {
        return false;
    }
    let mut i: usize = 0;
    while i < chars.len()
        invariant
            chars@ == value@,
            chars@.len() > 0,
            i <= chars@.len(),
            forall|j: int| 0 <= j < i ==> text::is_digit(#[trigger] value@[j]),
        decreases chars@.len() - i,
    {
        if !('0' <= chars[i] && chars[i] <= '9') {
            assert(!text::is_digit(value@[i as int]));
            return false;
        }
        i = i + 1;
    }
    true
}

/// Computes `is_version`.
pub fn is_semver(value: &str) -> (result: bool)
    ensures
        result == is_version(value@),
{
    let chars = text::chars_of(value);
    let parts = text::split_chars(chars.as_slice(), '.');
    let ghost pieces = text::split_on(value@, '.');
    assert(pieces.len() == parts@.len());
    if parts.len() != 3 {
        return false;
    }
    assert(text::texts(parts@)[0] == parts@[0]@);
    assert(text::texts(parts@)[1] == parts@[1]@);
    assert(text::texts(parts@)[2] == parts@[2]@);
    digits(parts[0].as_str()) && digits(parts[1].as_str()) && digits(parts[2].as_str())
}

/// A dotted name holds no white space and is not empty, so that it can be a
/// directory and a word of a query.
pub proof fn law_dotted_name_is_plain(s: Seq<char>, underscore: bool)
    requires
        is_dotted(s, underscore),
    ensures
        s.len() > 0,
        forall|i: int|
            0 <= i < s.len() ==> (#[trigger] s[i]) == '.' || is_segment_scalar(s[i], underscore),
    decreases s.len(),
{
    let p = text::first_position(s, '.');
    let segments = text::split_on(s, '.');
    text::lemma_first_position(s, '.');
    if p >= s.len() {
        assert(segments[0] == s);
    } else {
        let rest = s.skip(p + 1);
        let others = text::split_on(rest, '.');
        assert(segments[0] == s.take(p));
        assert(is_segment(segments[0], underscore));
        assert forall|i: int| 0 <= i < others.len() implies is_segment(
            #[trigger] others[i],
            underscore,
        ) by {
            assert(segments[i + 1] == others[i]);
        }
        law_dotted_name_is_plain(rest, underscore);
        assert forall|i: int| 0 <= i < s.len() implies (#[trigger] s[i]) == '.'
            || is_segment_scalar(s[i], underscore) by {
            if i < p {
                assert(segments[0][i] == s[i]);
            } else if i > p {
                assert(rest[i - p - 1] == s[i]);
            }
        }
    }
}

/// A text without a dot is a name exactly where it is not empty and made of
/// lower-case letters, digits and hyphens; two names with a dot between them are
/// one name, and so are the parts of one.
pub proof fn law_names_are_made_of_segments(
    a: &str,
    b: &str,
    joined: &str,
    a_is_name: bool,
    b_is_name: bool,
    joined_is_name: bool,
)
    requires
        call_ensures(is_dotted_name, (a,), a_is_name),
        call_ensures(is_dotted_name, (b,), b_is_name),
        call_ensures(is_dotted_name, (joined,), joined_is_name),
        joined@ == a@ + seq!['.'] + b@,
    ensures
        joined_is_name <==> a_is_name && b_is_name,
        !a@.contains('.') ==> (a_is_name <==> a@.len() > 0 && forall|i: int|
            0 <= i < a@.len() ==> 'a' <= #[trigger] a@[i] <= 'z' || '0' <= a@[i] <= '9' || a@[i]
                == '-'),
{
    let x = text::split_on(a@, '.');
    let y = text::split_on(b@, '.');
    let all = text::split_on(joined@, '.');
    text::lemma_split_sum(a@, b@, '.');
    text::lemma_split_pieces(a@, '.');
    assert(all == x + y);
    if joined_is_name {
        assert forall|i: int| 0 <= i < x.len() implies is_segment(#[trigger] x[i], false) by {
            assert(all[i] == x[i]);
        }
        assert forall|i: int| 0 <= i < y.len() implies is_segment(#[trigger] y[i], false) by {
            assert(all[x.len() + i] == y[i]);
        }
    }
    if a_is_name && b_is_name {
        assert forall|i: int| 0 <= i < all.len() implies is_segment(#[trigger] all[i], false) by {
            if i < x.len() {
                assert(all[i] == x[i]);
            } else {
                assert(all[i] == y[i - x.len()]);
            }
        }
    }
    if !a@.contains('.') {
        assert(x[0] == a@);
    }
}

/// Three numbers with dots between them are a version.
pub proof fn law_versions_have_three_numbers(
    value: &str,
    major: u32,
    minor: u32,
    patch: u32,
    result: bool,
)
    requires
        value@ == text::decimal_text(major as nat) + seq!['.'] + (text::decimal_text(minor as nat)
            + seq!['.'] + text::decimal_text(patch as nat)),
        call_ensures(is_semver, (value,), result),
    ensures
        result,
{
    let a = text::decimal_text(major as nat);
    let b = text::decimal_text(minor as nat);
    let c = text::decimal_text(patch as nat);
    lemma_number(major);
    lemma_number(minor);
    lemma_number(patch);
    text::lemma_split_sum(a, b + seq!['.'] + c, '.');
    text::lemma_split_sum(b, c, '.');
    text::lemma_split_pieces(a, '.');
    text::lemma_split_pieces(b, '.');
    text::lemma_split_pieces(c, '.');
    assert(text::split_on(value@, '.') =~= seq![a, b, c]);
}

/// A text with any other number of dots than two is no version.
pub proof fn law_versions_have_two_dots(
    value: &str,
    a: Seq<char>,
    b: Seq<char>,
    result: bool,
)
    requires
        call_ensures(is_semver, (value,), result),
        !a.contains('.'),
        !b.contains('.'),
        value@ == a || value@ == a + seq!['.'] + b,
    ensures
        !result,
{
    text::lemma_split_sum(a, b, '.');
    text::lemma_split_pieces(a, '.');
    text::lemma_split_pieces(b, '.');
}

proof fn lemma_number(value: u32)
    ensures
        is_digits(text::decimal_text(value as nat)),
        !text::decimal_text(value as nat).contains('.'),
{
    let s = text::decimal_text(value as nat);
    text::lemma_decimal_text(value as nat);
    if s.contains('.') {
        let i = s.index_of('.');
        assert(text::is_digit(s[i]));
    }
}

} // verus!
