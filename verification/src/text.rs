//! Text primitives: conversion to scalar values, equality and the total order
//! that every sorted collection of the index uses.

use vstd::prelude::*;

verus! {

/// `String::push` appends exactly the given scalar value and leaves what was
/// there before untouched.
pub assume_specification[ std::string::String::push ](s: &mut std::string::String, c: char)
    ensures
        final(s)@ == old(s)@.push(c),
;

/// Lexicographic order by scalar value, which is also the order of the UTF-8
/// encodings and therefore the order of `str`.
pub open spec fn text_lt(a: Seq<char>, b: Seq<char>) -> bool
    decreases a.len(),
{
    if b.len() == 0 {
        false
    } else if a.len() == 0 {
        true
    } else if a[0] != b[0] {
        (a[0] as int) < (b[0] as int)
    } else {
        text_lt(a.drop_first(), b.drop_first())
    }
}

/// No text is smaller than itself.
pub proof fn lemma_text_lt_irreflexive(a: Seq<char>)
    ensures
        !text_lt(a, a),
    decreases a.len(),
{
    if a.len() > 0 {
        lemma_text_lt_irreflexive(a.drop_first());
    }
}

/// The order of texts is transitive.
pub proof fn lemma_text_lt_transitive(a: Seq<char>, b: Seq<char>, c: Seq<char>)
    requires
        text_lt(a, b),
        text_lt(b, c),
    ensures
        text_lt(a, c),
    decreases a.len(),
{
    if a.len() > 0 && b.len() > 0 && c.len() > 0 {
        if a[0] == b[0] && b[0] == c[0] {
            lemma_text_lt_transitive(a.drop_first(), b.drop_first(), c.drop_first());
        }
    }
}

/// Two texts that are not ordered either way are equal.
pub proof fn lemma_text_lt_total(a: Seq<char>, b: Seq<char>)
    ensures
        text_lt(a, b) || text_lt(b, a) || a == b,
    decreases a.len(),
{
    if a.len() == 0 || b.len() == 0 {
        assert(a.len() == 0 && b.len() == 0 ==> a =~= b);
    } else if a[0] == b[0] {
        lemma_text_lt_total(a.drop_first(), b.drop_first());
        if a.drop_first() == b.drop_first() {
            assert(a =~= seq![a[0]] + a.drop_first());
            assert(b =~= seq![b[0]] + b.drop_first());
        }
    }
}

/// No two texts are smaller than each other.
pub proof fn lemma_text_lt_asymmetric(a: Seq<char>, b: Seq<char>)
    requires
        text_lt(a, b),
    ensures
        !text_lt(b, a),
        a != b,
{
    if text_lt(b, a) {
        lemma_text_lt_transitive(a, b, a);
    }
    lemma_text_lt_irreflexive(a);
}

/// Not being smaller is transitive.
pub proof fn lemma_text_lt_negatively_transitive(a: Seq<char>, b: Seq<char>, c: Seq<char>)
    requires
        !text_lt(a, b),
        !text_lt(b, c),
    ensures
        !text_lt(a, c),
{
    if text_lt(a, c) {
        lemma_text_lt_total(a, b);
        if text_lt(b, a) {
            lemma_text_lt_transitive(b, a, c);
        }
    }
}

/// The order of any three texts: two different texts are in one order, and the
/// order is transitive.
pub proof fn lemma_text_order(a: Seq<char>, b: Seq<char>, c: Seq<char>)
    ensures
        !text_lt(a, a) && !text_lt(b, b) && !text_lt(c, c),
        a == b || text_lt(a, b) || text_lt(b, a),
        b == c || text_lt(b, c) || text_lt(c, b),
        a == c || text_lt(a, c) || text_lt(c, a),
        !(text_lt(a, b) && text_lt(b, a)),
        !(text_lt(b, c) && text_lt(c, b)),
        !(text_lt(a, c) && text_lt(c, a)),
        text_lt(a, b) && text_lt(b, c) ==> text_lt(a, c),
        text_lt(c, b) && text_lt(b, a) ==> text_lt(c, a),
        text_lt(a, c) && text_lt(c, b) ==> text_lt(a, b),
        text_lt(b, c) && text_lt(c, a) ==> text_lt(b, a),
        text_lt(b, a) && text_lt(a, c) ==> text_lt(b, c),
        text_lt(c, a) && text_lt(a, b) ==> text_lt(c, b),
{
    lemma_text_lt_irreflexive(a);
    lemma_text_lt_irreflexive(b);
    lemma_text_lt_irreflexive(c);
    lemma_text_lt_total(a, b);
    lemma_text_lt_total(b, c);
    lemma_text_lt_total(a, c);
    if text_lt(a, b) {
        lemma_text_lt_asymmetric(a, b);
        if text_lt(b, c) {
            lemma_text_lt_transitive(a, b, c);
        }
        if text_lt(c, a) {
            lemma_text_lt_transitive(c, a, b);
        }
    }
    if text_lt(b, a) {
        if text_lt(c, b) {
            lemma_text_lt_transitive(c, b, a);
        }
        if text_lt(a, c) {
            lemma_text_lt_transitive(b, a, c);
        }
    }
    if text_lt(b, c) {
        lemma_text_lt_asymmetric(b, c);
        if text_lt(c, a) {
            lemma_text_lt_transitive(b, c, a);
        }
    }
    if text_lt(a, c) {
        lemma_text_lt_asymmetric(a, c);
        if text_lt(c, b) {
            lemma_text_lt_transitive(a, c, b);
        }
    }
}

/// Lexicographic order on pairs of texts.
pub open spec fn pair_lt(a: (Seq<char>, Seq<char>), b: (Seq<char>, Seq<char>)) -> bool {
    text_lt(a.0, b.0) || a.0 == b.0 && text_lt(a.1, b.1)
}

/// Two pairs are never before each other.
pub proof fn lemma_pair_lt_asymmetric(a: (Seq<char>, Seq<char>), b: (Seq<char>, Seq<char>))
    requires
        pair_lt(a, b),
    ensures
        !pair_lt(b, a),
{
    lemma_text_lt_irreflexive(a.0);
    if text_lt(a.0, b.0) {
        lemma_text_lt_asymmetric(a.0, b.0);
    } else {
        lemma_text_lt_asymmetric(a.1, b.1);
    }
}

/// Not being before is transitive on pairs.
pub proof fn lemma_pair_lt_negatively_transitive(
    a: (Seq<char>, Seq<char>),
    b: (Seq<char>, Seq<char>),
    c: (Seq<char>, Seq<char>),
)
    requires
        !pair_lt(a, b),
        !pair_lt(b, c),
    ensures
        !pair_lt(a, c),
{
    lemma_text_lt_negatively_transitive(a.0, b.0, c.0);
    lemma_text_lt_total(a.0, b.0);
    lemma_text_lt_total(b.0, c.0);
    if a.0 == c.0 {
        if a.0 == b.0 {
            lemma_text_lt_negatively_transitive(a.1, b.1, c.1);
        } else {
            lemma_text_lt_asymmetric(b.0, a.0);
        }
    }
}

/// The texts of a list of strings.
pub open spec fn texts(values: Seq<String>) -> Seq<Seq<char>> {
    Seq::new(values.len(), |i: int| values[i]@)
}

/// The scalar values of `text`, in order.
pub fn chars_of(text: &str) -> (result: Vec<char>)
    ensures
        result@ == text@,
{
    let mut result: Vec<char> = Vec::new();
    for c in iter: text.chars()
        invariant
            result@ == iter.seq().take(iter.index()),
    {
        result.push(c);
    }
    result
}

/// The text made of exactly these scalar values.
pub fn text_of(chars: &[char]) -> (result: String)
    ensures
        result@ == chars@,
{
    let mut result = String::new();
    let mut i: usize = 0;
    while i < chars.len()
        invariant
            i <= chars@.len(),
            result@ == chars@.take(i as int),
        decreases chars@.len() - i,
    {
        result.push(chars[i]);
        i = i + 1;
        assert(chars@.take(i as int) =~= chars@.take(i - 1).push(chars@[i - 1]));
    }
    assert(chars@.take(chars@.len() as int) =~= chars@);
    result
}

/// The text made of the scalar values at `start..end`.
pub fn slice_text(chars: &[char], start: usize, end: usize) -> (result: String)
    requires
        start <= end <= chars@.len(),
    ensures
        result@ == chars@.subrange(start as int, end as int),
{
    text_of(&chars[start..end])
}

/// Whether both texts hold the same scalar values.
pub fn same_text(a: &str, b: &str) -> (result: bool)
    ensures
        result == (a@ == b@),
{
    let mut x = a.chars();
    let mut y = b.chars();
    loop
        invariant
            vstd::std_specs::iter::IteratorSpec::decrease(&x) is Some,
            a@ == b@ <==> vstd::std_specs::iter::IteratorSpec::remaining(&x) == vstd::std_specs::iter::IteratorSpec::remaining(&y),
        decreases vstd::std_specs::iter::IteratorSpec::decrease(&x)->0,
    {
        let ghost xs = vstd::std_specs::iter::IteratorSpec::remaining(&x);
        let ghost ys = vstd::std_specs::iter::IteratorSpec::remaining(&y);
        match (x.next(), y.next()) {
            (None, None) => {
                assert(xs =~= ys);
                return true;
            },
            (Some(c), Some(d)) => {
                if c != d {
                    assert(xs[0] != ys[0]);
                    return false;
                }
                proof {
                    assert(xs =~= seq![c] + xs.drop_first());
                    assert(ys =~= seq![d] + ys.drop_first());
                }
            },
            _ => {
                assert(xs.len() != ys.len());
                return false;
            },
        }
    }
}

/// Whether `a` comes before `b` in the order of texts.
pub fn text_before(a: &str, b: &str) -> (result: bool)
    ensures
        result == text_lt(a@, b@),
{
    let mut x = a.chars();
    let mut y = b.chars();
    loop
        invariant
            vstd::std_specs::iter::IteratorSpec::decrease(&x) is Some,
            text_lt(a@, b@) == text_lt(vstd::std_specs::iter::IteratorSpec::remaining(&x), vstd::std_specs::iter::IteratorSpec::remaining(&y)),
        decreases vstd::std_specs::iter::IteratorSpec::decrease(&x)->0,
    {
        match (x.next(), y.next()) {
            (_, None) => {
                return false;
            },
            (None, Some(_)) => {
                return true;
            },
            (Some(c), Some(d)) => {
                if c != d {
                    return c < d;
                }
            },
        }
    }
}

/// The concatenation of two texts.
pub fn join_text(a: &str, b: &str) -> (result: String)
    ensures
        result@ == a@ + b@,
{
    let mut result = a.to_owned();
    result.append(b);
    result
}

/// How many UTF-8 bytes a text takes.
pub open spec fn byte_len(value: Seq<char>) -> nat {
    vstd::utf8::encode_utf8(value).len()
}

/// The position of the last `c`, or -1.
pub open spec fn last_position(s: Seq<char>, c: char) -> int
    decreases s.len(),
{
    if s.len() == 0 {
        -1
    } else if s.last() == c {
        s.len() - 1
    } else {
        last_position(s.drop_last(), c)
    }
}

/// The position of the first `c`, or the length.
pub open spec fn first_position(s: Seq<char>, c: char) -> int
    decreases s.len(),
{
    if s.len() == 0 || s[0] == c {
        0
    } else {
        1 + first_position(s.drop_first(), c)
    }
}

/// What is known of the last position.
pub proof fn lemma_last_position(s: Seq<char>, c: char)
    ensures
        -1 <= last_position(s, c) < s.len(),
        last_position(s, c) >= 0 ==> s[last_position(s, c)] == c,
        forall|i: int| last_position(s, c) < i < s.len() ==> s[i] != c,
        last_position(s, c) < 0 <==> !s.contains(c),
    decreases s.len(),
{
    if s.len() > 0 && s.last() != c {
        lemma_last_position(s.drop_last(), c);
        assert forall|i: int| last_position(s, c) < i < s.len() implies s[i] != c by {
            if i < s.len() - 1 {
                assert(s.drop_last()[i] == s[i]);
            }
        }
        if s.contains(c) {
            let i = s.index_of(c);
            assert(s.drop_last()[i] == c);
        }
    } else if s.len() > 0 {
        assert(s[s.len() - 1] == c);
    }
}

/// What is known of the first position.
pub proof fn lemma_first_position(s: Seq<char>, c: char)
    ensures
        0 <= first_position(s, c) <= s.len(),
        first_position(s, c) < s.len() ==> s[first_position(s, c)] == c,
        forall|i: int| 0 <= i < first_position(s, c) ==> s[i] != c,
        first_position(s, c) == s.len() <==> !s.contains(c),
    decreases s.len(),
{
    if s.len() > 0 && s[0] != c {
        let t = s.drop_first();
        lemma_first_position(t, c);
        assert forall|i: int| 0 <= i < first_position(s, c) implies s[i] != c by {
            if i > 0 {
                assert(t[i - 1] == s[i]);
            }
        }
        if s.contains(c) {
            let i = s.index_of(c);
            assert(t[i - 1] == c);
        }
        if t.contains(c) {
            let i = t.index_of(c);
            assert(s[i + 1] == c);
        }
    }
}

/// The first position is the one before which `c` does not occur.
pub proof fn lemma_first_position_is(s: Seq<char>, c: char, p: int)
    requires
        0 <= p <= s.len(),
        p < s.len() ==> s[p] == c,
        forall|i: int| 0 <= i < p ==> s[i] != c,
    ensures
        first_position(s, c) == p,
{
    lemma_first_position(s, c);
}

/// The last position is the one after which `c` does not occur.
pub proof fn lemma_last_position_is(s: Seq<char>, c: char, p: int)
    requires
        -1 <= p < s.len(),
        p >= 0 ==> s[p] == c,
        forall|i: int| p < i < s.len() ==> s[i] != c,
    ensures
        last_position(s, c) == p,
{
    lemma_last_position(s, c);
}

/// Computes `first_position`.
pub fn find_char(chars: &[char], c: char) -> (result: usize)
    ensures
        result == first_position(chars@, c),
        result <= chars@.len(),
{
    let mut i: usize = 0;
    while i < chars.len()
        invariant
            i <= chars@.len(),
            forall|j: int| 0 <= j < i ==> chars@[j] != c,
        decreases chars@.len() - i,
    {
        if chars[i] == c {
            proof {
                lemma_first_position_is(chars@, c, i as int);
            }
            return i;
        }
        i = i + 1;
    }
    proof {
        lemma_first_position_is(chars@, c, i as int);
    }
    i
}

/// Computes `last_position`.
pub fn find_last_char(chars: &[char], c: char) -> (result: Option<usize>)
    ensures
        result is None <==> last_position(chars@, c) < 0,
        result is Some ==> result->0 == last_position(chars@, c) && result->0 < chars@.len(),
{
    let mut i: usize = chars.len();
    while i > 0
        invariant
            i <= chars@.len(),
            forall|j: int| i <= j < chars@.len() ==> chars@[j] != c,
        decreases i,
    {
        i = i - 1;
        if chars[i] == c {
            proof {
                lemma_last_position_is(chars@, c, i as int);
            }
            return Some(i);
        }
    }
    proof {
        lemma_last_position_is(chars@, c, -1);
    }
    None
}

/// Whether `value` begins with `prefix`.
pub open spec fn begins_with(value: Seq<char>, prefix: Seq<char>) -> bool {
    prefix.len() <= value.len() && value.take(prefix.len() as int) == prefix
}

/// Whether `value` ends with `suffix`.
pub open spec fn finishes_with(value: Seq<char>, suffix: Seq<char>) -> bool {
    suffix.len() <= value.len() && value.skip(value.len() - suffix.len()) == suffix
}

/// Computes `begins_with`.
pub fn has_prefix(value: &[char], prefix: &str) -> (result: bool)
    ensures
        result == begins_with(value@, prefix@),
{
    let wanted = chars_of(prefix);
    if wanted.len() > value.len() {
        return false;
    }
    let mut i: usize = 0;
    while i < wanted.len()
        invariant
            wanted@ == prefix@,
            i <= wanted@.len() <= value@.len(),
            value@.take(i as int) == wanted@.take(i as int),
        decreases wanted@.len() - i,
    {
        if value[i] != wanted[i] {
            assert(value@.take(wanted@.len() as int)[i as int] != wanted@[i as int]);
            return false;
        }
        i = i + 1;
        assert(value@.take(i as int) =~= value@.take(i - 1).push(value@[i - 1]));
        assert(wanted@.take(i as int) =~= wanted@.take(i - 1).push(wanted@[i - 1]));
    }
    assert(wanted@.take(wanted@.len() as int) =~= wanted@);
    true
}

/// Computes `finishes_with`.
pub fn has_suffix(value: &[char], suffix: &str) -> (result: bool)
    ensures
        result == finishes_with(value@, suffix@),
{
    let tail = chars_of(suffix);
    if tail.len() > value.len() {
        return false;
    }
    let start: usize = value.len() - tail.len();
    let rest = &value[start..value.len()];
    assert(rest@ =~= value@.skip(start as int));
    let result = has_prefix(rest, suffix);
    assert(rest@.take(suffix@.len() as int) =~= rest@);
    result
}

/// The pieces of a text between the occurrences of `c`.
pub open spec fn split_on(s: Seq<char>, c: char) -> Seq<Seq<char>>
    decreases s.len(),
{
    let p = first_position(s, c);
    if p < 0 || p >= s.len() {
        seq![s]
    } else {
        seq![s.take(p)] + split_on(s.skip(p + 1), c)
    }
}

/// Computes `split_on`.
pub fn split_chars(chars: &[char], c: char) -> (result: Vec<String>)
    ensures
        texts(result@) == split_on(chars@, c),
{
    let mut result: Vec<String> = Vec::new();
    let mut start: usize = 0;
    assert(texts(result@) + split_on(chars@.skip(0), c) =~= split_on(chars@, c)) by {
        assert(chars@.skip(0) =~= chars@);
    }
    loop
        invariant
            start <= chars@.len(),
            texts(result@) + split_on(chars@.skip(start as int), c) == split_on(chars@, c),
        decreases chars@.len() - start,
    {
        let rest = &chars[start..chars.len()];
        assert(rest@ =~= chars@.skip(start as int));
        let p: usize = find_char(rest, c);
        let ghost before = texts(result@);
        let piece = slice_text(rest, 0, p);
        assert(piece@ =~= rest@.take(p as int));
        result.push(piece);
        assert(texts(result@) =~= before.push(rest@.take(p as int)));
        if p >= rest.len() {
            assert(rest@.take(p as int) =~= rest@);
            assert(texts(result@) =~= before + seq![rest@]);
            return result;
        }
        proof {
            assert(rest@.skip(p + 1) =~= chars@.skip(start + p + 1));
            assert(before + (seq![rest@.take(p as int)] + split_on(rest@.skip(p + 1), c))
                =~= texts(result@) + split_on(chars@.skip(start + p + 1), c));
        }
        start = start + p + 1;
    }
}

/// Whether a list of strings holds a text.
pub fn contains_text(values: &[String], wanted: &str) -> (result: bool)
    ensures
        result == texts(values@).contains(wanted@),
{
    let mut i: usize = 0;
    while i < values.len()
        invariant
            i <= values@.len(),
            forall|j: int| 0 <= j < i ==> texts(values@)[j] != wanted@,
        decreases values@.len() - i,
    {
        if same_text(values[i].as_str(), wanted) {
            assert(texts(values@)[i as int] == wanted@);
            return true;
        }
        i = i + 1;
    }
    false
}

/// A value that can be taken as text.
pub trait IntoText: Sized {
    /// The text it stands for.
    spec fn text(&self) -> Seq<char>;

    /// Hands the text out.
    fn into_text(self) -> (result: String)
        ensures
            result@ == self.text(),
    ;
}

impl IntoText for String {
    open spec fn text(&self) -> Seq<char> {
        self@
    }

    fn into_text(self) -> (result: String) {
        self
    }
}

impl<'a> IntoText for &'a str {
    open spec fn text(&self) -> Seq<char> {
        self@
    }

    fn into_text(self) -> (result: String) {
        self.to_owned()
    }
}

impl<'a> IntoText for &'a String {
    open spec fn text(&self) -> Seq<char> {
        self@
    }

    fn into_text(self) -> (result: String) {
        self.clone()
    }
}

/// The lower-case hexadecimal digit of a value below sixteen.
pub open spec fn digit_char(value: int) -> char {
    if value == 0 {
        '0'
    } else if value == 1 {
        '1'
    } else if value == 2 {
        '2'
    } else if value == 3 {
        '3'
    } else if value == 4 {
        '4'
    } else if value == 5 {
        '5'
    } else if value == 6 {
        '6'
    } else if value == 7 {
        '7'
    } else if value == 8 {
        '8'
    } else if value == 9 {
        '9'
    } else if value == 10 {
        'a'
    } else if value == 11 {
        'b'
    } else if value == 12 {
        'c'
    } else if value == 13 {
        'd'
    } else if value == 14 {
        'e'
    } else {
        'f'
    }
}

/// Computes `digit_char`.
pub fn digit(value: u8) -> (result: char)
    ensures
        result == digit_char(value as int),
{
    match value {
        0 => '0',
        1 => '1',
        2 => '2',
        3 => '3',
        4 => '4',
        5 => '5',
        6 => '6',
        7 => '7',
        8 => '8',
        9 => '9',
        10 => 'a',
        11 => 'b',
        12 => 'c',
        13 => 'd',
        14 => 'e',
        _ => 'f',
    }
}

/// A natural number in decimal, without leading zeros.
pub open spec fn decimal_text(value: nat) -> Seq<char>
    decreases value,
{
    if value < 10 {
        seq![digit_char(value as int)]
    } else {
        decimal_text(value / 10).push(digit_char((value % 10) as int))
    }
}

/// Computes `decimal_text`.
pub fn decimal(value: u64) -> (result: String)
    ensures
        result@ == decimal_text(value as nat),
    decreases value,
{
    if value < 10 {
        let mut result = String::new();
        result.push(digit(value as u8));
        assert(result@ =~= seq![digit_char(value as int)]);
        result
    } else {
        let mut result = decimal(value / 10);
        result.push(digit((value % 10) as u8));
        result
    }
}

/// Bytes in lower-case hexadecimal, two digits each.
pub open spec fn hex_text(bytes: Seq<u8>) -> Seq<char> {
    Seq::new(
        2 * bytes.len(),
        |i: int|
            if i % 2 == 0 {
                digit_char(bytes[i / 2] as int / 16)
            } else {
                digit_char(bytes[i / 2] as int % 16)
            },
    )
}

/// Computes `hex_text`.
pub fn hex(bytes: &[u8]) -> (result: String)
    ensures
        result@ == hex_text(bytes@),
{
    let mut result = String::new();
    let mut i: usize = 0;
    assert(hex_text(bytes@.take(0)) =~= Seq::<char>::empty());
    while i < bytes.len()
        invariant
            i <= bytes@.len(),
            result@ == hex_text(bytes@.take(i as int)),
        decreases bytes@.len() - i,
    {
        let byte: u8 = bytes[i];
        result.push(digit(byte / 16));
        result.push(digit(byte % 16));
        i = i + 1;
        assert(hex_text(bytes@.take(i as int)) =~= hex_text(bytes@.take(i - 1)).push(
            digit_char(byte as int / 16),
        ).push(digit_char(byte as int % 16)));
    }
    assert(bytes@.take(bytes@.len() as int) =~= bytes@);
    result
}

/// Whether a scalar value is a decimal digit.
pub open spec fn is_digit(c: char) -> bool {
    '0' <= c <= '9'
}

/// The value of a sequence of decimal digits.
pub open spec fn digits_value(s: Seq<char>) -> nat
    decreases s.len(),
{
    if s.len() == 0 {
        0
    } else {
        digits_value(s.drop_last()) * 10 + (s.last() as int - '0' as int) as nat
    }
}

/// The digits of a number: all but an optional plus sign in front.
pub open spec fn number_digits(s: Seq<char>) -> Seq<char> {
    if s.len() > 0 && s[0] == '+' {
        s.drop_first()
    } else {
        s
    }
}

/// The value of an unsigned decimal number: an optional plus sign and one or
/// more digits.
pub open spec fn number_value(s: Seq<char>) -> Option<nat> {
    let digits = number_digits(s);
    if digits.len() > 0 && forall|i: int|
        0 <= i < digits.len() ==> is_digit(#[trigger] digits[i]) {
        Some(digits_value(digits))
    } else {
        None
    }
}

proof fn lemma_digits_grow(s: Seq<char>, n: int)
    requires
        0 <= n <= s.len(),
        forall|i: int| 0 <= i < s.len() ==> is_digit(#[trigger] s[i]),
    ensures
        digits_value(s.take(n)) <= digits_value(s),
    decreases s.len(),
{
    if n < s.len() {
        let t = s.drop_last();
        assert(t.take(n) =~= s.take(n));
        assert forall|i: int| 0 <= i < t.len() implies is_digit(#[trigger] t[i]) by {
            assert(t[i] == s[i]);
        }
        lemma_digits_grow(t, n);
    } else {
        assert(s.take(n) =~= s);
    }
}

/// Reads an unsigned decimal number up to a bound.
pub fn parse_number(value: &str, max: u64) -> (result: Option<u64>)
    ensures
        match result {
            Some(number) => number_value(value@) == Some(number as nat) && number <= max,
            None => number_value(value@) is None || number_value(value@)->Some_0 > max,
        },
{
    let chars = chars_of(value);
    let len: usize = chars.len();
    let start: usize = if len > 0 && chars[0] == '+' {
        1
    } else {
        0
    };
    let ghost digits = number_digits(value@);
    assert(digits =~= value@.skip(start as int));
    if start == len {
        return None;
    }
    let mut number: u64 = 0;
    let mut i: usize = start;
    assert(digits.take(0) =~= Seq::<char>::empty());
    while i < len
        invariant
            chars@ == value@,
            len == chars@.len(),
            start <= i <= len,
            start < len,
            digits == number_digits(value@),
            digits == value@.skip(start as int),
            forall|j: int| 0 <= j < i - start ==> is_digit(#[trigger] digits[j]),
            number == digits_value(digits.take(i - start)),
            number <= max,
        decreases len - i,
    {
        let c = chars[i];
        assert(digits[i - start] == c);
        if !('0' <= c && c <= '9') {
            assert(!is_digit(digits[i - start]));
            return None;
        }
        let digit: u64 = (c as u32 - '0' as u32) as u64;
        proof {
            let next = digits.take(i - start + 1);
            assert(next.drop_last() =~= digits.take(i - start));
            assert(digits_value(next) == number * 10 + digit);
            if number_value(value@) is Some {
                lemma_digits_grow(digits, i - start + 1);
            }
        }
        if digit > max || number > (max - digit) / 10 {
            return None;
        }
        number = number * 10 + digit;
        i = i + 1;
    }
    assert(digits.take(i - start) =~= digits);
    Some(number)
}

/// The number that a text is, where it fits in 32 bits.
pub open spec fn small_number(s: Seq<char>) -> Option<u32> {
    match number_value(s) {
        Some(number) => if number <= u32::MAX {
            Some(number as u32)
        } else {
            None
        },
        None => None,
    }
}

/// Computes `small_number`.
pub fn parse_small_number(value: &str) -> (result: Option<u32>)
    ensures
        result == small_number(value@),
{
    match parse_number(value, u32::MAX as u64) {
        Some(number) => Some(number as u32),
        None => None,
    }
}

/// Where a part first stands in a text; the length, where it does not.
pub open spec fn part_position(s: Seq<char>, part: Seq<char>) -> int
    decreases s.len(),
{
    if s.len() == 0 || begins_with(s, part) {
        0
    } else {
        1 + part_position(s.drop_first(), part)
    }
}

/// Computes `part_position`.
pub fn find_part(chars: &[char], part: &str) -> (result: usize)
    ensures
        result == part_position(chars@, part@),
        result <= chars@.len(),
        result < chars@.len() ==> begins_with(chars@.skip(result as int), part@),
{
    let len: usize = chars.len();
    let mut i: usize = 0;
    assert(chars@.skip(0) =~= chars@);
    while i < len
        invariant
            len == chars@.len(),
            i <= len,
            part_position(chars@, part@) == i + part_position(chars@.skip(i as int), part@),
        decreases len - i,
    {
        let rest = &chars[i..len];
        assert(rest@ =~= chars@.skip(i as int));
        if has_prefix(rest, part) {
            return i;
        }
        assert(chars@.skip(i as int).drop_first() =~= chars@.skip(i + 1));
        i = i + 1;
    }
    i
}

/// The pieces of a text between the occurrences of a part.
pub open spec fn split_parts(s: Seq<char>, part: Seq<char>) -> Seq<Seq<char>>
    decreases s.len(),
{
    let p = part_position(s, part);
    if part.len() == 0 || p < 0 || p + part.len() > s.len() {
        seq![s]
    } else {
        seq![s.take(p)] + split_parts(s.skip(p + part.len()), part)
    }
}

/// Computes `split_parts`.
pub fn split_on_part(chars: &[char], part: &str) -> (result: Vec<String>)
    requires
        part@.len() > 0,
    ensures
        texts(result@) == split_parts(chars@, part@),
{
    let width: usize = chars_of(part).len();
    let len: usize = chars.len();
    let mut result: Vec<String> = Vec::new();
    let mut start: usize = 0;
    assert(texts(result@) + split_parts(chars@.skip(0), part@) =~= split_parts(chars@, part@)) by {
        assert(chars@.skip(0) =~= chars@);
    }
    loop
        invariant
            width == part@.len(),
            width > 0,
            len == chars@.len(),
            start <= len,
            texts(result@) + split_parts(chars@.skip(start as int), part@) == split_parts(
                chars@,
                part@,
            ),
        decreases len - start,
    {
        let rest = &chars[start..len];
        assert(rest@ =~= chars@.skip(start as int));
        let p: usize = find_part(rest, part);
        let ghost before = texts(result@);
        let piece = slice_text(rest, 0, p);
        assert(piece@ =~= rest@.take(p as int));
        result.push(piece);
        assert(texts(result@) =~= before.push(rest@.take(p as int)));
        if p == rest.len() {
            assert(rest@.take(p as int) =~= rest@);
            assert(texts(result@) =~= before + seq![rest@]);
            return result;
        }
        proof {
            assert(p + width <= rest@.len());
            assert(rest@.skip(p + width) =~= chars@.skip(start + p + width));
            assert(before + (seq![rest@.take(p as int)] + split_parts(rest@.skip(p + width), part@))
                =~= texts(result@) + split_parts(chars@.skip(start + p + width), part@));
        }
        start = start + p + width;
    }
}

/// What stands between a prefix and a suffix of a text.
pub open spec fn enclosed(s: Seq<char>, prefix: Seq<char>, suffix: Seq<char>) -> Option<Seq<char>> {
    if begins_with(s, prefix) && finishes_with(s.skip(prefix.len() as int), suffix) {
        Some(s.subrange(prefix.len() as int, s.len() - suffix.len()))
    } else {
        None
    }
}

/// Computes `enclosed`.
pub fn strip_around(value: &str, prefix: &str, suffix: &str) -> (result: Option<String>)
    ensures
        match enclosed(value@, prefix@, suffix@) {
            Some(inner) => result is Some && result->Some_0@ == inner,
            None => result is None,
        },
{
    let chars = chars_of(value);
    let len: usize = chars.len();
    if !has_prefix(chars.as_slice(), prefix) {
        return None;
    }
    let start: usize = chars_of(prefix).len();
    let rest = &chars[start..len];
    assert(rest@ =~= value@.skip(prefix@.len() as int));
    if !has_suffix(rest, suffix) {
        return None;
    }
    let end: usize = len - chars_of(suffix).len();
    Some(slice_text(chars.as_slice(), start, end))
}

/// What stands after a prefix of a text.
pub open spec fn after(s: Seq<char>, prefix: Seq<char>) -> Option<Seq<char>> {
    if begins_with(s, prefix) {
        Some(s.skip(prefix.len() as int))
    } else {
        None
    }
}

/// Computes `after`.
pub fn strip_before(value: &str, prefix: &str) -> (result: Option<String>)
    ensures
        match after(value@, prefix@) {
            Some(rest) => result is Some && result->Some_0@ == rest,
            None => result is None,
        },
{
    let chars = chars_of(value);
    let len: usize = chars.len();
    if !has_prefix(chars.as_slice(), prefix) {
        return None;
    }
    let start: usize = chars_of(prefix).len();
    let rest = slice_text(chars.as_slice(), start, len);
    assert(rest@ =~= value@.skip(prefix@.len() as int));
    Some(rest)
}

/// A number in decimal is made of digits and has its own value.
pub proof fn lemma_decimal_text(value: nat)
    ensures
        decimal_text(value).len() > 0,
        forall|i: int|
            0 <= i < decimal_text(value).len() ==> is_digit(#[trigger] decimal_text(value)[i]),
        digits_value(decimal_text(value)) == value,
    decreases value,
{
    let s = decimal_text(value);
    if value < 10 {
        assert(s.drop_last() =~= Seq::<char>::empty());
        assert(digits_value(Seq::<char>::empty()) == 0);
    } else {
        lemma_decimal_text(value / 10);
        assert(s.drop_last() =~= decimal_text(value / 10));
    }
}

/// A number in decimal is read back from in front of what does not begin with a
/// digit.
pub proof fn lemma_decimal_prefix(a: nat, b: nat, x: Seq<char>, y: Seq<char>)
    requires
        x.len() > 0 && !is_digit(x[0]),
        y.len() > 0 && !is_digit(y[0]),
        decimal_text(a) + x == decimal_text(b) + y,
    ensures
        a == b,
        x == y,
{
    lemma_decimal_text(a);
    lemma_decimal_text(b);
    let s = decimal_text(a);
    let t = decimal_text(b);
    let whole = s + x;
    if s.len() < t.len() {
        assert(whole[s.len() as int] == x[0]);
        assert((t + y)[s.len() as int] == t[s.len() as int]);
    }
    if t.len() < s.len() {
        assert((t + y)[t.len() as int] == y[0]);
        assert(whole[t.len() as int] == s[t.len() as int]);
    }
    assert(whole.take(s.len() as int) =~= s);
    assert((t + y).take(t.len() as int) =~= t);
    assert(whole.skip(s.len() as int) =~= x);
    assert((t + y).skip(t.len() as int) =~= y);
}

/// The first character in which two texts differ decides their order, and a
/// text comes before every longer one that begins with it.
pub proof fn law_first_difference_orders_texts(a: Seq<char>, b: Seq<char>, p: int)
    requires
        0 <= p <= a.len(),
        p <= b.len(),
        a.take(p) == b.take(p),
    ensures
        p < a.len() && p < b.len() && a[p] as int > b[p] as int ==> text_lt(b, a) && !text_lt(a, b),
        p < a.len() && p < b.len() && (a[p] as int) < b[p] as int ==> text_lt(a, b)
            && !text_lt(b, a),
        p == a.len() && p < b.len() ==> text_lt(a, b) && !text_lt(b, a),
    decreases p,
{
    if p > 0 {
        assert(a[0] == a.take(p)[0] && b[0] == b.take(p)[0]);
        let c = a.drop_first();
        let d = b.drop_first();
        assert(c.take(p - 1) =~= a.take(p).drop_first());
        assert(d.take(p - 1) =~= b.take(p).drop_first());
        law_first_difference_orders_texts(c, d, p - 1);
    }
}

/// The pieces of two texts with a separator between them.
pub proof fn lemma_split_sum(a: Seq<char>, b: Seq<char>, c: char)
    ensures
        split_on(a + seq![c] + b, c) == split_on(a, c) + split_on(b, c),
    decreases a.len(),
{
    let s = a + seq![c] + b;
    lemma_first_position(a, c);
    let p = first_position(a, c);
    if p >= a.len() {
        lemma_first_position_is(s, c, a.len() as int);
        assert(s.take(a.len() as int) =~= a);
        assert(s.skip(a.len() as int + 1) =~= b);
        assert(split_on(a, c) =~= seq![a]);
    } else {
        assert(s[p] == a[p]);
        assert forall|i: int| 0 <= i < p implies s[i] != c by {
            assert(s[i] == a[i]);
        }
        lemma_first_position_is(s, c, p);
        let rest = a.skip(p + 1);
        lemma_split_sum(rest, b, c);
        assert(s.take(p) =~= a.take(p));
        assert(s.skip(p + 1) =~= rest + seq![c] + b);
        assert(split_on(s, c) =~= seq![a.take(p)] + (split_on(rest, c) + split_on(b, c)));
        assert(split_on(s, c) =~= split_on(a, c) + split_on(b, c));
    }
}

/// A text without the separator is one piece, and no piece holds it.
pub proof fn lemma_split_pieces(s: Seq<char>, c: char)
    ensures
        split_on(s, c).len() >= 1,
        !s.contains(c) ==> split_on(s, c) == seq![s],
        forall|i: int| 0 <= i < split_on(s, c).len() ==> !(#[trigger] split_on(s, c)[i]).contains(c),
    decreases s.len(),
{
    lemma_first_position(s, c);
    let p = first_position(s, c);
    if 0 <= p < s.len() {
        let rest = s.skip(p + 1);
        lemma_split_pieces(rest, c);
        let pieces = split_on(s, c);
        assert forall|i: int| 0 <= i < pieces.len() implies !(#[trigger] pieces[i]).contains(c) by {
            if i > 0 {
                assert(pieces[i] == split_on(rest, c)[i - 1]);
            } else if pieces[0].contains(c) {
                let k = pieces[0].index_of(c);
                assert(s[k] == c);
            }
        }
    }
}

/// What stands between a prefix and a suffix is found between them.
pub proof fn lemma_enclosed(s: Seq<char>, prefix: Seq<char>, inner: Seq<char>, suffix: Seq<char>)
    requires
        s == prefix + inner + suffix,
    ensures
        enclosed(s, prefix, suffix) == Some(inner),
{
    assert(s.take(prefix.len() as int) =~= prefix);
    let rest = s.skip(prefix.len() as int);
    assert(rest =~= inner + suffix);
    assert(rest.skip(rest.len() - suffix.len()) =~= suffix);
    assert(s.subrange(prefix.len() as int, s.len() - suffix.len()) =~= inner);
}

/// The first place where a part stands is where the search finds it.
pub proof fn lemma_part_position_is(s: Seq<char>, part: Seq<char>, p: int)
    requires
        0 <= p <= s.len(),
        p < s.len() ==> begins_with(s.skip(p), part),
        forall|i: int| 0 <= i < p ==> !begins_with(#[trigger] s.skip(i), part),
    ensures
        part_position(s, part) == p,
    decreases s.len(),
{
    assert(s.skip(0) =~= s);
    if p > 0 {
        assert(!begins_with(s.skip(0), part));
        let rest = s.drop_first();
        assert forall|i: int| 0 <= i < p - 1 implies !begins_with(#[trigger] rest.skip(i), part) by {
            assert(rest.skip(i) =~= s.skip(i + 1));
        }
        assert(rest.skip(p - 1) =~= s.skip(p));
        lemma_part_position_is(rest, part, p - 1);
    }
}

} // verus!
