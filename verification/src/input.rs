//! Targets that a command reads from its argument or from a pipe.

use vstd::prelude::*;

use crate::canonical::SymbolId;
use crate::position;
use crate::position::trim_part;
use crate::query::{QueryPayload, QueryResponse};
use crate::text;

verus! {

/// Why piped input gives no target.
#[derive(Debug, Clone, Copy, PartialEq, Eq, Structural)]
pub enum PipeInputError {
    /// The response has no result.
    NoResult,
    /// The response is of another query than `symbols` or `definition`.
    OtherQuery,
    /// The response holds another number of symbols than one.
    NotOneSymbol { count: usize },
}

/// The target of one symbol.
pub fn target_from_symbols(symbols: Vec<SymbolId>) -> (result: Result<String, PipeInputError>)
    ensures
        symbols@.len() == 1 ==> result is Ok && result->Ok_0@ == symbols@[0]@,
        symbols@.len() != 1 ==> result is Err && result->Err_0 == (PipeInputError::NotOneSymbol {
            count: symbols.len(),
        }),
{
    if symbols.len() == 1 {
        Ok(symbols[0].as_str().to_owned())
    } else {
        Err(PipeInputError::NotOneSymbol { count: symbols.len() })
    }
}

/// The target of a piped response.
pub fn target_from_pipe_response(response: QueryResponse) -> (result: Result<
    String,
    PipeInputError,
>)
    ensures
        match response.result {
            None => result is Err && result->Err_0 == PipeInputError::NoResult,
            Some(QueryPayload::Definition { symbol }) => result is Ok && result->Ok_0@
                == symbol.id@,
            Some(QueryPayload::Symbols { symbols }) => {
                &&& symbols@.len() == 1 ==> result is Ok && result->Ok_0@ == symbols@[0].id@
                &&& symbols@.len() != 1 ==> result is Err && result->Err_0
                    == (PipeInputError::NotOneSymbol { count: symbols.len() })
            },
            Some(_) => result is Err && result->Err_0 == PipeInputError::OtherQuery,
        },
{
    match response.result {
        None => Err(PipeInputError::NoResult),
        Some(QueryPayload::Definition { symbol }) => Ok(symbol.id.as_str().to_owned()),
        Some(QueryPayload::Symbols { symbols }) => {
            let mut ids: Vec<SymbolId> = Vec::new();
            let mut i: usize = 0;
            while i < symbols.len()
                invariant
                    i <= symbols@.len(),
                    ids@.len() == i,
                    forall|j: int| 0 <= j < i ==> #[trigger] ids@[j] == symbols@[j].id,
                decreases symbols@.len() - i,
            {
                ids.push(symbols[i].id.clone());
                i = i + 1;
            }
            target_from_symbols(ids)
        },
        Some(_) => Err(PipeInputError::OtherQuery),
    }
}

/// The only target of a list; another number of targets is refused with it.
pub fn exactly_one(targets: Vec<String>) -> (result: Result<String, usize>)
    ensures
        targets@.len() == 1 ==> result == Ok::<String, usize>(targets@[0]),
        targets@.len() != 1 ==> result is Err && result->Err_0 == targets@.len(),
{
    if targets.len() == 1 {
        Ok(targets[0].clone())
    } else {
        Err(targets.len())
    }
}

/// A line of a text without the carriage return that belongs to its end.
pub open spec fn line_at(pieces: Seq<Seq<char>>, i: int) -> Seq<char> {
    if i < pieces.len() - 1 && pieces[i].len() > 0 && pieces[i].last() == '\r' {
        pieces[i].drop_last()
    } else {
        pieces[i]
    }
}

/// The lines of a text; what follows the last line feed is one only where it is
/// not empty.
pub open spec fn text_lines(s: Seq<char>) -> Seq<Seq<char>> {
    let pieces = text::split_on(s, '\n');
    let count = if pieces.last().len() == 0 {
        pieces.len() - 1
    } else {
        pieces.len() as int
    };
    Seq::new(count as nat, |i: int| line_at(pieces, i))
}

proof fn lemma_split_is_not_empty(s: Seq<char>, c: char)
    ensures
        text::split_on(s, c).len() > 0,
{
}

/// Computes `text_lines`.
pub fn lines_of(value: &str) -> (result: Vec<String>)
    ensures
        text::texts(result@) == text_lines(value@),
{
    let chars = text::chars_of(value);
    let pieces = text::split_chars(chars.as_slice(), '\n');
    let ghost parts = text::split_on(value@, '\n');
    proof {
        lemma_split_is_not_empty(value@, '\n');
    }
    assert(text::texts(pieces@).len() == pieces@.len());
    let total: usize = pieces.len();
    assert(text::texts(pieces@)[total - 1] == pieces@[total - 1]@);
    let last = text::chars_of(pieces[total - 1].as_str());
    let count: usize = if last.len() == 0 {
        total - 1
    } else {
        total
    };
    let mut result: Vec<String> = Vec::new();
    let mut i: usize = 0;
    while i < count
        invariant
            parts == text::split_on(value@, '\n'),
            text::texts(pieces@) == parts,
            total == pieces@.len(),
            parts.len() == total,
            i <= count <= total,
            count == text_lines(value@).len(),
            result@.len() == i,
            forall|j: int| 0 <= j < i ==> (#[trigger] result@[j])@ == text_lines(value@)[j],
        decreases count - i,
    {
        assert(text::texts(pieces@)[i as int] == pieces@[i as int]@);
        let piece = text::chars_of(pieces[i].as_str());
        let len: usize = piece.len();
        if i < total - 1 && len > 0 && piece[len - 1] == '\r' {
            let line = text::slice_text(piece.as_slice(), 0, len - 1);
            assert(line@ =~= parts[i as int].drop_last());
            result.push(line);
        } else {
            result.push(pieces[i].clone());
        }
        i = i + 1;
    }
    assert(text::texts(result@) =~= text_lines(value@));
    result
}

/// Whether a line holds more than white space.
pub open spec fn is_filled(line: Seq<char>) -> bool {
    position::trimmed(line).len() > 0
}

/// The lines of piped input that hold a record each.
pub fn piped_records(value: &str) -> (result: Vec<String>)
    ensures
        text::texts(result@) == text_lines(value@).filter(|line: Seq<char>| is_filled(line)),
{
    let lines = lines_of(value);
    let ghost all = text_lines(value@);
    let ghost filled = |line: Seq<char>| is_filled(line);
    let mut result: Vec<String> = Vec::new();
    let mut i: usize = 0;
    assert(text::texts(lines@).len() == lines@.len());
    proof {
        reveal(Seq::filter);
        assert(all.take(0) =~= Seq::<Seq<char>>::empty());
        assert(text::texts(result@) =~= Seq::<Seq<char>>::empty());
    }
    while i < lines.len()
        invariant
            filled == (|line: Seq<char>| is_filled(line)),
            text::texts(lines@) == all,
            all.len() == lines@.len(),
            i <= lines@.len(),
            text::texts(result@) == all.take(i as int).filter(filled),
        decreases lines@.len() - i,
    {
        let chars = text::chars_of(lines[i].as_str());
        let len: usize = chars.len();
        assert(chars@.subrange(0, len as int) =~= chars@);
        let trimmed = trim_part(chars.as_slice(), 0, len);
        let ghost before = text::texts(result@);
        proof {
            reveal(Seq::filter);
            assert(text::texts(lines@)[i as int] == lines@[i as int]@);
            assert(all.take(i + 1).drop_last() =~= all.take(i as int));
        }
        if text::chars_of(trimmed.as_str()).len() > 0 {
            result.push(lines[i].clone());
            assert(text::texts(result@) =~= before.push(lines@[i as int]@));
        }
        i = i + 1;
    }
    assert(all.take(all.len() as int) =~= all);
    result
}

/// A piped response names its target where it holds exactly one symbol.
pub proof fn law_pipe_needs_one_symbol(
    response: QueryResponse,
    result: Result<String, PipeInputError>,
)
    requires
        call_ensures(target_from_pipe_response, (response,), result),
    ensures
        result is Ok <==> response.result is Some && (response.result->0 is Definition || (
        response.result->0 is Symbols && response.result->0->Symbols_symbols@.len() == 1)),
        result is Ok && response.result->0 is Definition ==> result->Ok_0@
            == response.result->0->Definition_symbol.id@,
        result is Ok && response.result->0 is Symbols ==> result->Ok_0@
            == response.result->0->Symbols_symbols@[0].id@,
        response.result is None ==> result->Err_0 is NoResult,
{
}

/// A record is a line that holds more than white space: every such line is kept,
/// and nothing else is.
pub proof fn law_filled_lines_are_records(
    value: &str,
    lines: Vec<String>,
    records: Vec<String>,
    line: Seq<char>,
)
    requires
        call_ensures(lines_of, (value,), lines),
        call_ensures(piped_records, (value,), records),
    ensures
        text::texts(records@).contains(line) <==> text::texts(lines@).contains(line)
            && position::trimmed(line).len() > 0,
{
    let all = text_lines(value@);
    let filled = |line: Seq<char>| is_filled(line);
    lemma_filter_contains(all, filled, line);
}

proof fn lemma_filter_contains(s: Seq<Seq<char>>, f: spec_fn(Seq<char>) -> bool, x: Seq<char>)
    ensures
        s.filter(f).contains(x) <==> s.contains(x) && f(x),
    decreases s.len(),
{
    reveal(Seq::filter);
    if s.len() > 0 {
        let rest = s.drop_last();
        lemma_filter_contains(rest, f, x);
        let kept = rest.filter(f);
        let now = s.filter(f);
        assert(s[s.len() - 1] == s.last());
        if kept.contains(x) {
            assert(now[kept.index_of(x)] == x);
        }
        if rest.contains(x) {
            assert(s[rest.index_of(x)] == x);
        }
        if f(s.last()) {
            assert(now[kept.len() as int] == s.last());
        }
        if now.contains(x) && !kept.contains(x) {
            let i = now.index_of(x);
            if i < kept.len() {
                assert(kept[i] == x);
            }
        }
        if s.contains(x) && !rest.contains(x) {
            let i = s.index_of(x);
            if i < rest.len() {
                assert(rest[i] == x);
            }
        }
    }
}

} // verus!
