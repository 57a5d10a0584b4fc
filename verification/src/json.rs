//! JSON text for plain values.

use vstd::prelude::*;

use crate::text;

verus! {

/// How one scalar value stands inside a JSON string.
pub open spec fn json_char(c: char) -> Seq<char> {
    if c == '"' {
        seq!['\\', '"']
    } else if c == '\\' {
        seq!['\\', '\\']
    } else if c == '\u{8}' {
        seq!['\\', 'b']
    } else if c == '\u{c}' {
        seq!['\\', 'f']
    } else if c == '\n' {
        seq!['\\', 'n']
    } else if c == '\r' {
        seq!['\\', 'r']
    } else if c == '\t' {
        seq!['\\', 't']
    } else if (c as int) < 0x20 {
        seq!['\\', 'u', '0', '0', text::digit_char(c as int / 16), text::digit_char(c as int % 16)]
    } else {
        seq![c]
    }
}

/// The scalar values of a JSON string between its quotes.
pub open spec fn json_chars(value: Seq<char>) -> Seq<char>
    decreases value.len(),
{
    if value.len() == 0 {
        value
    } else {
        json_chars(value.drop_last()) + json_char(value.last())
    }
}

/// A text as a JSON string.
pub open spec fn json_text(value: Seq<char>) -> Seq<char> {
    seq!['"'] + json_chars(value) + seq!['"']
}

/// `serde_json::to_string` on a text: quotes around it, short escapes for the
/// quote, the backslash, backspace, form feed, line feed, carriage return and
/// tab, `\u00xx` for the other control characters, everything else as it is.
#[verifier::external_body]
pub(crate) fn json_string(value: &str) -> (result: String)
    ensures
        result@ == json_text(value@),
{
    serde_json::to_string(value).expect("text always serializes")
}

/// A further object member with a text value.
pub open spec fn text_member(name: Seq<char>, value: Seq<char>) -> Seq<char> {
    ",\""@ + name + "\":"@ + json_text(value)
}

/// A further object member with a numeric value.
pub open spec fn number_member(name: Seq<char>, value: nat) -> Seq<char> {
    ",\""@ + name + "\":"@ + text::decimal_text(value)
}

/// Appends `text_member`.
pub fn append_text_member(out: &mut String, name: &str, value: &str)
    ensures
        final(out)@ == old(out)@ + text_member(name@, value@),
{
    let mut member = text::join_text(",\"", name);
    member.append("\":");
    member.append(json_string(value).as_str());
    out.append(member.as_str());
}

/// Appends `number_member`.
pub fn append_number_member(out: &mut String, name: &str, value: u32)
    ensures
        final(out)@ == old(out)@ + number_member(name@, value as nat),
{
    let mut member = text::join_text(",\"", name);
    member.append("\":");
    member.append(text::decimal(value as u64).as_str());
    out.append(member.as_str());
}

proof fn lemma_json_char_prefix(c: char, d: char, x: Seq<char>, y: Seq<char>)
    requires
        json_char(c) + x == json_char(d) + y,
    ensures
        c == d,
        x == y,
{
    let s = json_char(c) + x;
    let t = json_char(d) + y;
    assert(s[0] == json_char(c)[0]);
    assert(t[0] == json_char(d)[0]);
    if s[0] == '\\' {
        assert(s[1] == json_char(c)[1]);
        assert(t[1] == json_char(d)[1]);
        if s[1] == 'u' {
            assert(s[4] == json_char(c)[4] && s[5] == json_char(c)[5]);
            assert(t[4] == json_char(d)[4] && t[5] == json_char(d)[5]);
        }
    }
    assert(c == d);
    let width = json_char(c).len() as int;
    assert(s.skip(width) =~= x);
    assert(t.skip(width) =~= y);
}

proof fn lemma_json_chars_first(value: Seq<char>)
    requires
        value.len() > 0,
    ensures
        json_chars(value) == json_char(value[0]) + json_chars(value.drop_first()),
    decreases value.len(),
{
    let rest = value.drop_first();
    if value.len() == 1 {
        assert(value.drop_last() =~= Seq::<char>::empty());
        assert(rest =~= Seq::<char>::empty());
        assert(json_chars(value) =~= json_char(value[0]) + json_chars(rest));
    } else {
        let short = value.drop_last();
        lemma_json_chars_first(short);
        assert(short.drop_first() =~= rest.drop_last());
        assert(json_chars(value) =~= json_char(value[0]) + json_chars(rest));
    }
}

proof fn lemma_json_chars_prefix(a: Seq<char>, b: Seq<char>, x: Seq<char>, y: Seq<char>)
    requires
        json_chars(a) + (seq!['"'] + x) == json_chars(b) + (seq!['"'] + y),
    ensures
        a == b,
        x == y,
    decreases a.len(),
{
    let s = json_chars(a) + (seq!['"'] + x);
    let t = json_chars(b) + (seq!['"'] + y);
    if a.len() > 0 {
        lemma_json_chars_first(a);
        assert(s[0] == json_char(a[0])[0]);
        assert(s[0] != '"');
    } else {
        assert(s[0] == '"');
    }
    if b.len() > 0 {
        lemma_json_chars_first(b);
        assert(t[0] == json_char(b[0])[0]);
        assert(t[0] != '"');
    } else {
        assert(t[0] == '"');
    }
    if a.len() == 0 {
        assert(a =~= b);
        assert(s.skip(1) =~= x);
        assert(t.skip(1) =~= y);
    } else {
        let p = a.drop_first();
        let q = b.drop_first();
        assert(s =~= json_char(a[0]) + (json_chars(p) + (seq!['"'] + x)));
        assert(t =~= json_char(b[0]) + (json_chars(q) + (seq!['"'] + y)));
        lemma_json_char_prefix(
            a[0],
            b[0],
            json_chars(p) + (seq!['"'] + x),
            json_chars(q) + (seq!['"'] + y),
        );
        lemma_json_chars_prefix(p, q, x, y);
        assert(a =~= seq![a[0]] + p);
        assert(b =~= seq![b[0]] + q);
    }
}

/// A JSON string is read back from in front of anything.
pub proof fn lemma_json_text_prefix(a: Seq<char>, b: Seq<char>, x: Seq<char>, y: Seq<char>)
    requires
        json_text(a) + x == json_text(b) + y,
    ensures
        a == b,
        x == y,
{
    let s = json_text(a) + x;
    let t = json_text(b) + y;
    assert(s.skip(1) =~= json_chars(a) + (seq!['"'] + x));
    assert(t.skip(1) =~= json_chars(b) + (seq!['"'] + y));
    lemma_json_chars_prefix(a, b, x, y);
}

/// A member with a text value is read back from in front of anything.
pub proof fn lemma_text_member_prefix(
    name: Seq<char>,
    a: Seq<char>,
    b: Seq<char>,
    x: Seq<char>,
    y: Seq<char>,
)
    requires
        text_member(name, a) + x == text_member(name, b) + y,
    ensures
        a == b,
        x == y,
{
    let label = ",\""@ + name + "\":"@;
    let s = text_member(name, a) + x;
    let t = text_member(name, b) + y;
    assert(s.skip(label.len() as int) =~= json_text(a) + x);
    assert(t.skip(label.len() as int) =~= json_text(b) + y);
    lemma_json_text_prefix(a, b, x, y);
}

/// A member with a numeric value is read back from in front of what does not
/// begin with a digit.
pub proof fn lemma_number_member_prefix(
    name: Seq<char>,
    a: nat,
    b: nat,
    x: Seq<char>,
    y: Seq<char>,
)
    requires
        x.len() > 0 && !text::is_digit(x[0]),
        y.len() > 0 && !text::is_digit(y[0]),
        number_member(name, a) + x == number_member(name, b) + y,
    ensures
        a == b,
        x == y,
{
    let label = ",\""@ + name + "\":"@;
    let s = number_member(name, a) + x;
    let t = number_member(name, b) + y;
    assert(s.skip(label.len() as int) =~= text::decimal_text(a) + x);
    assert(t.skip(label.len() as int) =~= text::decimal_text(b) + y);
    text::lemma_decimal_prefix(a, b, x, y);
}

} // verus!
