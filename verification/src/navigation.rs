//! Target resolution and answers of the navigation commands.

use vstd::prelude::*;

use crate::canonical::{
    ByteRange, Fingerprint, Location, OccurrenceKind, SourceOccurrence, SourceUnit, SymbolId,
    SymbolKind, SymbolRecord, TextPosition, TypeRecord, WorkspacePath,
};
use crate::framework_query::sorted_reasons;
use crate::ordering;
use crate::ordering::{deduplicate, stable_sort, Alike, Ranked};
use crate::position;
use crate::position::{byte_length, find_index, line_and_column, white_space};
use crate::query;
use crate::query::{QueryPayload, QueryProblem, QueryStatus};
use crate::query_resolver::LocationResolution;
use crate::store;
use crate::text;
use crate::text_index;

verus! {

/// What a target resolves to.
#[derive(Debug, Clone, PartialEq, Eq)]
pub enum TargetResolution {
    Symbol(SymbolId),
    NoResult,
    Stale,
    Ambiguous(Vec<SymbolId>),
}

/// How a target is written.
#[derive(Debug, Clone, PartialEq, Eq)]
pub enum TargetForm {
    /// A stable symbol id.
    Symbol(SymbolId),
    /// A path with a line and a column.
    Location(Location),
    /// The exact name of a symbol.
    Name,
}

/// Why a text is no location.
#[derive(Debug, Clone, Copy, PartialEq, Eq, Structural)]
pub enum LocationSyntaxError {
    /// A part of `PATH:LINE:COLUMN` is missing.
    Incomplete,
    InvalidColumn,
    InvalidLine,
}

/// The path, line and column of a location: what stands before the last two
/// colons, between them and after them.
pub open spec fn location_parts(value: Seq<char>) -> Result<
    (Seq<char>, u32, u32),
    LocationSyntaxError,
> {
    let last = text::last_position(value, ':');
    let before = value.take(last);
    let middle = text::last_position(before, ':');
    if text::small_number(value.skip(last + 1)) is None {
        Err(LocationSyntaxError::InvalidColumn)
    } else if last < 0 {
        Err(LocationSyntaxError::Incomplete)
    } else if text::small_number(before.skip(middle + 1)) is None {
        Err(LocationSyntaxError::InvalidLine)
    } else if middle <= 0 {
        Err(LocationSyntaxError::Incomplete)
    } else {
        Ok(
            (
                before.take(middle),
                text::small_number(before.skip(middle + 1))->Some_0,
                text::small_number(value.skip(last + 1))->Some_0,
            ),
        )
    }
}

fn parse_part(chars: &[char], start: usize, end: usize) -> (result: Option<u32>)
    requires
        start <= end <= chars@.len(),
    ensures
        result == text::small_number(chars@.subrange(start as int, end as int)),
{
    let part = text::slice_text(chars, start, end);
    text::parse_small_number(part.as_str())
}

/// Reads `PATH:LINE:COLUMN`.
pub fn parse_location(value: &str) -> (result: Result<Location, LocationSyntaxError>)
    ensures
        match location_parts(value@) {
            Ok(parts) => {
                &&& result is Ok
                &&& result->Ok_0.path@ == parts.0
                &&& result->Ok_0.position.line == parts.1
                &&& result->Ok_0.position.column == parts.2
            },
            Err(problem) => result == Err::<Location, LocationSyntaxError>(problem),
        },
{
    let chars = text::chars_of(value);
    let len: usize = chars.len();
    proof {
        text::lemma_last_position(value@, ':');
    }
    let last = text::find_last_char(chars.as_slice(), ':');
    let column_start: usize = match last {
        Some(position) => position + 1,
        None => 0,
    };
    assert(chars@.subrange(column_start as int, len as int) =~= value@.skip(
        text::last_position(value@, ':') + 1,
    ));
    let column: u32 = match parse_part(chars.as_slice(), column_start, len) {
        Some(column) => column,
        None => {
            return Err(LocationSyntaxError::InvalidColumn);
        },
    };
    let end: usize = match last {
        Some(position) => position,
        None => {
            return Err(LocationSyntaxError::Incomplete);
        },
    };
    let ghost before = value@.take(end as int);
    let head = &chars[0..end];
    assert(head@ =~= before);
    proof {
        text::lemma_last_position(before, ':');
    }
    let middle = text::find_last_char(head, ':');
    let line_start: usize = match middle {
        Some(position) => position + 1,
        None => 0,
    };
    assert(chars@.subrange(line_start as int, end as int) =~= before.skip(
        text::last_position(before, ':') + 1,
    ));
    let line: u32 = match parse_part(chars.as_slice(), line_start, end) {
        Some(line) => line,
        None => {
            return Err(LocationSyntaxError::InvalidLine);
        },
    };
    match middle {
        Some(position) => {
            if position == 0 {
                return Err(LocationSyntaxError::Incomplete);
            }
            let path = text::slice_text(chars.as_slice(), 0, position);
            assert(path@ =~= before.take(position as int));
            Ok(
                Location {
                    path: WorkspacePath::new(path),
                    position: TextPosition { line, column },
                },
            )
        },
        None => Err(LocationSyntaxError::Incomplete),
    }
}

/// Whether a target is written as a stable symbol id.
pub open spec fn is_symbol_form(value: Seq<char>) -> bool {
    ||| text::begins_with(value, "jvm:sha256:"@)
    ||| text::begins_with(value, "kotlin:"@)
    ||| text::begins_with(value, "java:"@)
}

/// Tells how a target is written: as a symbol id, else as a location, else as
/// a name.
pub fn classify_target(value: &str) -> (result: TargetForm)
    ensures
        if is_symbol_form(value@) {
            result is Symbol && result->Symbol_0@ == value@
        } else {
            match location_parts(value@) {
                Ok(parts) => {
                    &&& result is Location
                    &&& result->Location_0.path@ == parts.0
                    &&& result->Location_0.position.line == parts.1
                    &&& result->Location_0.position.column == parts.2
                },
                Err(_) => result is Name,
            }
        },
{
    let chars = text::chars_of(value);
    if text::has_prefix(chars.as_slice(), "jvm:sha256:") || text::has_prefix(
        chars.as_slice(),
        "kotlin:",
    ) || text::has_prefix(chars.as_slice(), "java:") {
        return TargetForm::Symbol(SymbolId::new(value));
    }
    match parse_location(value) {
        Ok(location) => TargetForm::Location(location),
        Err(_) => TargetForm::Name,
    }
}

/// Resolves a target that is a symbol id: it must be declared in the index or
/// by a cataloged artifact.
pub fn resolve_symbol_target(symbol: SymbolId, declared: bool, artifacts: usize) -> (result:
    TargetResolution)
    ensures
        result == (if declared || artifacts > 0 {
            TargetResolution::Symbol(symbol)
        } else {
            TargetResolution::NoResult
        }),
{
    if declared || artifacts > 0 {
        TargetResolution::Symbol(symbol)
    } else {
        TargetResolution::NoResult
    }
}

/// Resolves a target that is the name of a symbol, given all symbols of that
/// name.
pub fn resolve_name_target(candidates: Vec<SymbolId>) -> (result: TargetResolution)
    ensures
        candidates@.len() == 0 ==> result is NoResult,
        candidates@.len() == 1 ==> result == TargetResolution::Symbol(candidates@[0]),
        candidates@.len() > 1 ==> result == TargetResolution::Ambiguous(candidates),
{
    if candidates.len() == 0 {
        TargetResolution::NoResult
    } else if candidates.len() == 1 {
        TargetResolution::Symbol(candidates[0].clone())
    } else {
        TargetResolution::Ambiguous(candidates)
    }
}

/// Whether the one source unit at a location was indexed from another text than
/// the current one.
pub fn is_location_stale(units: &[SourceUnit], current: &Fingerprint) -> (result: bool)
    ensures
        result == (units@.len() == 1 && units@[0].content@ != current@),
{
    units.len() == 1 && !units[0].content.same(current)
}

/// Resolves a target that is a location.
pub fn resolve_location_target(resolution: LocationResolution) -> (result: TargetResolution)
    ensures
        result == (match resolution {
            LocationResolution::Symbol(symbol) => TargetResolution::Symbol(symbol),
            LocationResolution::NoResult => TargetResolution::NoResult,
            LocationResolution::Ambiguous { candidates } => TargetResolution::Ambiguous(candidates),
        }),
{
    match resolution {
        LocationResolution::Symbol(symbol) => TargetResolution::Symbol(symbol),
        LocationResolution::NoResult => TargetResolution::NoResult,
        LocationResolution::Ambiguous { candidates } => TargetResolution::Ambiguous(candidates),
    }
}

/// The problem of a source file that changed after it was indexed.
pub open spec fn stale_target() -> query::QueryProblemView {
    query::QueryProblemView {
        code: "stale_source_snapshot"@,
        message: "the source file changed after it was indexed; run kide index"@,
        retryable: true,
    }
}

/// The problem of a target that is several symbols.
pub open spec fn ambiguous_target(code: Seq<char>, subject: Seq<char>, count: nat) -> query::QueryProblemView {
    query::QueryProblemView {
        code,
        message: subject + " resolves to "@ + text::decimal_text(count) + " symbols"@,
        retryable: false,
    }
}

fn ambiguous_problem(code: &str, subject: &str, count: usize) -> (result: QueryProblem)
    ensures
        result@ == ambiguous_target(code@, subject@, count as nat),
{
    let mut message = text::join_text(subject, " resolves to ");
    message.append(text::decimal(count as u64).as_str());
    message.append(" symbols");
    QueryProblem::new(code, message.as_str(), false)
}

fn stale_problem() -> (result: QueryProblem)
    ensures
        result@ == stale_target(),
{
    QueryProblem::new(
        "stale_source_snapshot",
        "the source file changed after it was indexed; run kide index",
        true,
    )
}

/// Whether an answer has a status, no payload and at most one problem.
pub open spec fn is_bare_answer(
    answer: (QueryStatus, Option<QueryPayload>, Vec<QueryProblem>),
    status: QueryStatus,
    problem: Option<query::QueryProblemView>,
) -> bool {
    &&& answer.0 == status
    &&& answer.1 is None
    &&& match problem {
        Some(problem) => answer.2@.len() == 1 && answer.2@[0]@ == problem,
        None => answer.2@.len() == 0,
    }
}

/// The answer to a target that is not one symbol.
pub fn target_problem(resolution: TargetResolution) -> (result: (
    QueryStatus,
    Option<QueryPayload>,
    Vec<QueryProblem>,
))
    requires
        !(resolution is Symbol),
    ensures
        match resolution {
            TargetResolution::Stale => is_bare_answer(
                result,
                QueryStatus::Stale,
                Some(stale_target()),
            ),
            TargetResolution::Ambiguous(candidates) => is_bare_answer(
                result,
                QueryStatus::Ambiguous,
                Some(ambiguous_target("ambiguous_target"@, "target"@, candidates@.len())),
            ),
            _ => is_bare_answer(result, QueryStatus::NoResult, None),
        },
{
    let mut problems: Vec<QueryProblem> = Vec::new();
    match resolution {
        TargetResolution::Stale => {
            problems.push(stale_problem());
            (QueryStatus::Stale, None, problems)
        },
        TargetResolution::Ambiguous(candidates) => {
            problems.push(ambiguous_problem("ambiguous_target", "target", candidates.len()));
            (QueryStatus::Ambiguous, None, problems)
        },
        _ => (QueryStatus::NoResult, None, problems),
    }
}

/// The problem of a resolved symbol that the index does not hold.
pub open spec fn missing_symbol() -> query::QueryProblemView {
    query::QueryProblemView {
        code: "resolved_symbol_missing"@,
        message: "location resolved to a symbol absent from the index"@,
        retryable: false,
    }
}

/// The answer to a definition request, given the record of the resolved symbol.
pub fn definition_answer(resolution: TargetResolution, record: Option<SymbolRecord>) -> (result: (
    QueryStatus,
    Option<QueryPayload>,
    Vec<QueryProblem>,
))
    ensures
        match resolution {
            TargetResolution::Symbol(_) => match record {
                Some(symbol) => {
                    &&& result.0 == QueryStatus::Success
                    &&& result.1 == Some(QueryPayload::Definition { symbol })
                    &&& result.2@.len() == 0
                },
                None => is_bare_answer(result, QueryStatus::NoResult, Some(missing_symbol())),
            },
            TargetResolution::NoResult => is_bare_answer(result, QueryStatus::NoResult, None),
            TargetResolution::Stale => is_bare_answer(
                result,
                QueryStatus::Stale,
                Some(stale_target()),
            ),
            TargetResolution::Ambiguous(candidates) => is_bare_answer(
                result,
                QueryStatus::Ambiguous,
                Some(ambiguous_target("ambiguous_location"@, "location"@, candidates@.len())),
            ),
        },
{
    let mut problems: Vec<QueryProblem> = Vec::new();
    match resolution {
        TargetResolution::Symbol(_) => match record {
            Some(symbol) => (
                QueryStatus::Success,
                Some(QueryPayload::Definition { symbol }),
                problems,
            ),
            None => {
                problems.push(
                    QueryProblem::new(
                        "resolved_symbol_missing",
                        "location resolved to a symbol absent from the index",
                        false,
                    ),
                );
                (QueryStatus::NoResult, None, problems)
            },
        },
        TargetResolution::NoResult => (QueryStatus::NoResult, None, problems),
        TargetResolution::Stale => {
            problems.push(stale_problem());
            (QueryStatus::Stale, None, problems)
        },
        TargetResolution::Ambiguous(candidates) => {
            problems.push(ambiguous_problem("ambiguous_location", "location", candidates.len()));
            (QueryStatus::Ambiguous, None, problems)
        },
    }
}

/// Whether a payload is a list of references, callers or implementations with
/// nothing in it.
pub open spec fn is_empty_payload(payload: QueryPayload) -> bool {
    match payload {
        QueryPayload::Refs { references } => references@.len() == 0,
        QueryPayload::Callers { calls } => calls@.len() == 0,
        QueryPayload::Implementations { symbols } => symbols@.len() == 0,
        _ => false,
    }
}

/// The answer with a payload; an empty one is no result.
pub fn query_result(payload: QueryPayload) -> (result: (
    QueryStatus,
    Option<QueryPayload>,
    Vec<QueryProblem>,
))
    ensures
        if is_empty_payload(payload) {
            is_bare_answer(result, QueryStatus::NoResult, None)
        } else {
            &&& result.0 == QueryStatus::Success
            &&& result.1 == Some(payload)
            &&& result.2@.len() == 0
        },
{
    let empty: bool = match &payload {
        QueryPayload::Refs { references } => references.len() == 0,
        QueryPayload::Callers { calls } => calls.len() == 0,
        QueryPayload::Implementations { symbols } => symbols.len() == 0,
        _ => false,
    };
    if empty {
        (QueryStatus::NoResult, None, Vec::new())
    } else {
        (QueryStatus::Success, Some(payload), Vec::new())
    }
}

/// Whether some status is a success.
pub open spec fn any_success(statuses: Seq<QueryStatus>) -> bool {
    exists|i: int| 0 <= i < statuses.len() && #[trigger] statuses[i] == QueryStatus::Success
}

/// Whether the answers to the first `n` targets were these statuses.
pub open spec fn answered_all<E, F: Fn(String) -> Result<QueryStatus, E>>(
    query: F,
    targets: Seq<Seq<char>>,
    statuses: Seq<QueryStatus>,
) -> bool {
    forall|i: int|
        0 <= i < statuses.len() ==> answered_one(query, targets[i], #[trigger] statuses[i])
}

/// Whether a status can be the answer to a target.
pub open spec fn answered_one<E, F: Fn(String) -> Result<QueryStatus, E>>(
    query: F,
    target: Seq<char>,
    status: QueryStatus,
) -> bool {
    exists|asked: String|
        asked@ == target && #[trigger] call_ensures(query, (asked,), Ok::<QueryStatus, E>(status))
}

/// Whether the answer to a target can be an error.
pub open spec fn failed_one<E, F: Fn(String) -> Result<QueryStatus, E>>(
    query: F,
    target: Seq<char>,
    error: E,
) -> bool {
    exists|asked: String|
        asked@ == target && #[trigger] call_ensures(
            query,
            (asked,),
            Err::<QueryStatus, E>(error),
        )
}

/// Targets that are asked for one after the other: what was handed out, what is
/// left, and whether an answer was a success.
#[derive(Debug)]
pub struct FanOut {
    order: Vec<String>,
    next: usize,
    succeeded: bool,
}

impl FanOut {
    pub closed spec fn wf(&self) -> bool {
        self.next <= self.order@.len()
    }

    /// The targets that were handed out, in order.
    pub closed spec fn handed(&self) -> Seq<Seq<char>> {
        text::texts(self.order@).take(self.next as int)
    }

    /// The targets that are left, in order.
    pub closed spec fn left(&self) -> Seq<Seq<char>> {
        text::texts(self.order@).skip(self.next as int)
    }

    /// What the answers so far come to.
    pub closed spec fn so_far(&self) -> QueryStatus {
        if self.succeeded {
            QueryStatus::Success
        } else {
            QueryStatus::NoResult
        }
    }

    /// Starts over several targets: each distinct one is left, in ascending
    /// order.
    pub fn new(targets: &[String]) -> (result: Self)
        ensures
            result.wf(),
            result.handed() == Seq::<Seq<char>>::empty(),
            result.left() == ordering::sorted_texts(text::texts(targets@).to_set()),
            result.so_far() == QueryStatus::NoResult,
    {
        let order = sorted_reasons(targets);
        FanOut { order, next: 0, succeeded: false }
    }

    /// Hands out the next target; none once nothing is left.
    pub fn next_target(&mut self) -> (result: Option<String>)
        requires
            old(self).wf(),
        ensures
            final(self).wf(),
            final(self).so_far() == old(self).so_far(),
            final(self).handed() + final(self).left() == old(self).handed() + old(self).left(),
            match result {
                Some(target) => {
                    &&& old(self).left().len() > 0
                    &&& target@ == old(self).left()[0]
                    &&& final(self).left() == old(self).left().drop_first()
                    &&& final(self).handed() == old(self).handed().push(target@)
                },
                None => old(self).left().len() == 0 && *final(self) == *old(self),
            },
    {
        assert(text::texts(self.order@).len() == self.order@.len());
        if self.next >= self.order.len() {
            return None;
        }
        let target = self.order[self.next].clone();
        assert(text::texts(self.order@)[self.next as int] == target@);
        self.next = self.next + 1;
        Some(target)
    }

    /// Takes note of an answer.
    pub fn record(&mut self, status: QueryStatus)
        requires
            old(self).wf(),
        ensures
            final(self).wf(),
            final(self).handed() == old(self).handed(),
            final(self).left() == old(self).left(),
            final(self).so_far() == (if status == QueryStatus::Success {
                QueryStatus::Success
            } else {
                old(self).so_far()
            }),
    {
        if status == QueryStatus::Success {
            self.succeeded = true;
        }
    }

    /// Returns what the answers so far come to.
    pub fn status(&self) -> (result: QueryStatus)
        ensures
            result == self.so_far(),
    {
        if self.succeeded {
            QueryStatus::Success
        } else {
            QueryStatus::NoResult
        }
    }
}

/// Once nothing is left, every distinct target was handed out exactly once, in
/// strictly ascending order, and nothing else was.
pub proof fn law_each_target_is_handed_out_once(fan: FanOut, targets: Seq<Seq<char>>)
    requires
        fan.handed() + fan.left() == ordering::sorted_texts(targets.to_set()),
        fan.left().len() == 0,
    ensures
        fan.handed() == ordering::sorted_texts(targets.to_set()),
        ordering::ascending(fan.handed()),
        fan.handed().no_duplicates(),
        forall|target: Seq<char>| #[trigger]
            fan.handed().contains(target) <==> targets.contains(target),
{
    let handed = fan.handed();
    assert(handed =~= handed + fan.left());
    ordering::lemma_sorted_texts(targets.to_set());
    assert forall|i: int, j: int|
        0 <= i < handed.len() && 0 <= j < handed.len() && i != j implies handed[i]
        != handed[j] by {
        text::lemma_text_lt_irreflexive(handed[i]);
        if i < j {
            assert(text::text_lt(handed[i], handed[j]));
        } else {
            assert(text::text_lt(handed[j], handed[i]));
        }
    }
    assert forall|target: Seq<char>| #[trigger] handed.contains(target) <==> targets.contains(
        target,
    ) by {
        assert(handed.to_set().contains(target) == targets.to_set().contains(target));
    }
}

/// Asks for several targets as [`FanOut`] hands them out, each distinct one
/// once and in ascending order: a success, if one of them is, and nothing
/// otherwise. The first error ends it.
pub fn fan_out<E, F: Fn(String) -> Result<QueryStatus, E>>(targets: Vec<String>, query: F) -> (result:
    Result<QueryStatus, E>)
    requires
        forall|target: String| #[trigger] call_requires(query, (target,)),
    ensures
        ({
            let order = ordering::sorted_texts(text::texts(targets@).to_set());
            match result {
                Ok(status) => exists|statuses: Seq<QueryStatus>| #[trigger]
                    answered_all::<E, F>(query, order, statuses) && statuses.len() == order.len()
                        && status == (if any_success(statuses) {
                        QueryStatus::Success
                    } else {
                        QueryStatus::NoResult
                    }),
                Err(error) => exists|statuses: Seq<QueryStatus>| #[trigger]
                    answered_all::<E, F>(query, order, statuses) && statuses.len() < order.len()
                        && failed_one::<E, F>(query, order[statuses.len() as int], error),
            }
        }),
{
    let mut fan = FanOut::new(targets.as_slice());
    let ghost order = ordering::sorted_texts(text::texts(targets@).to_set());
    let ghost mut statuses: Seq<QueryStatus> = Seq::empty();
    assert(fan.handed() + fan.left() =~= order);
    loop
        invariant
            forall|target: String| #[trigger] call_requires(query, (target,)),
            order == ordering::sorted_texts(text::texts(targets@).to_set()),
            fan.wf(),
            fan.handed() + fan.left() == order,
            statuses.len() == fan.handed().len(),
            answered_all::<E, F>(query, order, statuses),
            fan.so_far() == (if any_success(statuses) {
                QueryStatus::Success
            } else {
                QueryStatus::NoResult
            }),
        decreases fan.left().len(),
    {
        let ghost handed = fan.handed();
        let ghost left = fan.left();
        match fan.next_target() {
            None => {
                return Ok(fan.status());
            },
            Some(asked) => {
                let ghost target = asked;
                let ghost i: int = statuses.len() as int;
                assert((handed + left)[i] == target@);
                match query(asked) {
                    Ok(next) => {
                        let ghost before = statuses;
                        proof {
                            assert(call_ensures(query, (target,), Ok::<QueryStatus, E>(next)));
                            assert(answered_one::<E, F>(query, order[i], next));
                            statuses = statuses.push(next);
                            assert forall|k: int| 0 <= k < statuses.len() implies answered_one::<
                                E,
                                F,
                            >(query, order[k], #[trigger] statuses[k]) by {
                                if k < before.len() {
                                    assert(statuses[k] == before[k]);
                                }
                            }
                            if any_success(before) {
                                let k = choose|k: int|
                                    0 <= k < before.len() && #[trigger] before[k]
                                        == QueryStatus::Success;
                                assert(statuses[k] == QueryStatus::Success);
                            }
                            if next == QueryStatus::Success {
                                assert(statuses[i] == QueryStatus::Success);
                            } else if any_success(statuses) {
                                let k = choose|k: int|
                                    0 <= k < statuses.len() && #[trigger] statuses[k]
                                        == QueryStatus::Success;
                                assert(before[k] == QueryStatus::Success);
                            }
                        }
                        fan.record(next);
                    },
                    Err(error) => {
                        proof {
                            assert(call_ensures(query, (target,), Err::<QueryStatus, E>(error)));
                            assert(failed_one::<E, F>(query, order[i], error));
                        }
                        return Err(error);
                    },
                }
            },
        }
    }
}

/// Whether an optional symbol id is another.
pub open spec fn same_optional_symbol(a: Option<SymbolId>, b: Option<SymbolId>) -> bool {
    match (a, b) {
        (Some(a), Some(b)) => a@ == b@,
        (None, None) => true,
        _ => false,
    }
}

fn is_same_optional_symbol(a: &Option<SymbolId>, b: &Option<SymbolId>) -> (result: bool)
    ensures
        result == same_optional_symbol(*a, *b),
{
    match (a, b) {
        (Some(a), Some(b)) => a.same(b),
        (None, None) => true,
        _ => false,
    }
}

/// Whether two occurrences say the same.
pub open spec fn same_occurrence(a: SourceOccurrence, b: SourceOccurrence) -> bool {
    &&& a.range.source_unit@ == b.range.source_unit@
    &&& a.range.bytes == b.range.bytes
    &&& a.kind == b.kind
    &&& same_optional_symbol(a.enclosing_symbol, b.enclosing_symbol)
    &&& same_optional_symbol(a.target, b.target)
    &&& match (a.type_id, b.type_id) {
        (Some(a), Some(b)) => a@ == b@,
        (None, None) => true,
        _ => false,
    }
    &&& a.precision == b.precision
    &&& a.freshness == b.freshness
    &&& a.completeness == b.completeness
    &&& a.provenance@ == b.provenance@
}

impl Alike for SourceOccurrence {
    open spec fn alike(&self, other: &Self) -> bool {
        same_occurrence(*self, *other)
    }

    fn is_alike(&self, other: &Self) -> (result: bool) {
        let same_type: bool = match (&self.type_id, &other.type_id) {
            (Some(a), Some(b)) => a.same(b),
            (None, None) => true,
            _ => false,
        };
        self.range.source_unit.same(&other.range.source_unit) && self.range.bytes
            == other.range.bytes && self.kind == other.kind && is_same_optional_symbol(
            &self.enclosing_symbol,
            &other.enclosing_symbol,
        ) && is_same_optional_symbol(&self.target, &other.target) && same_type && self.precision
            == other.precision && self.freshness == other.freshness && self.completeness
            == other.completeness && self.provenance.same(&other.provenance)
    }
}

/// The target of an occurrence, empty where it has none.
pub open spec fn target_text(occurrence: SourceOccurrence) -> Seq<char> {
    match occurrence.target {
        Some(target) => target@,
        None => Seq::empty(),
    }
}

/// The order of references: by source unit, range, the name of the kind, and
/// target.
pub open spec fn occurrence_lt(a: SourceOccurrence, b: SourceOccurrence) -> bool {
    if a.range.source_unit@ != b.range.source_unit@ {
        text::text_lt(a.range.source_unit@, b.range.source_unit@)
    } else if a.range.bytes.start != b.range.bytes.start {
        a.range.bytes.start < b.range.bytes.start
    } else if a.range.bytes.end != b.range.bytes.end {
        a.range.bytes.end < b.range.bytes.end
    } else if store::occurrence_kind_text(a.kind) != store::occurrence_kind_text(b.kind) {
        text::text_lt(store::occurrence_kind_text(a.kind), store::occurrence_kind_text(b.kind))
    } else {
        text::text_lt(target_text(a), target_text(b))
    }
}

fn target_of(occurrence: &SourceOccurrence) -> (result: &str)
    ensures
        result@ == target_text(*occurrence),
{
    match &occurrence.target {
        Some(target) => target.as_str(),
        None => {
            proof {
                reveal_strlit("");
                assert(""@ =~= Seq::empty());
            }
            ""
        },
    }
}

impl Ranked for SourceOccurrence {
    open spec fn ranks_before(&self, other: &Self) -> bool {
        occurrence_lt(*self, *other)
    }

    proof fn lemma_rank_asymmetric(a: &Self, b: &Self) {
        let x = b.range.source_unit@;
        let y = store::occurrence_kind_text(b.kind);
        let z = target_text(*b);
        text::lemma_text_order(a.range.source_unit@, x, x);
        text::lemma_text_order(store::occurrence_kind_text(a.kind), y, y);
        text::lemma_text_order(target_text(*a), z, z);
    }

    proof fn lemma_rank_negatively_transitive(a: &Self, b: &Self, c: &Self) {
        text::lemma_text_order(
            a.range.source_unit@,
            b.range.source_unit@,
            c.range.source_unit@,
        );
        text::lemma_text_order(
            store::occurrence_kind_text(a.kind),
            store::occurrence_kind_text(b.kind),
            store::occurrence_kind_text(c.kind),
        );
        text::lemma_text_order(target_text(*a), target_text(*b), target_text(*c));
    }

    fn is_before(&self, other: &Self) -> (result: bool) {
        let kind = store::occurrence_kind_name(self.kind);
        let other_kind = store::occurrence_kind_name(other.kind);
        if !self.range.source_unit.same(&other.range.source_unit) {
            text::text_before(self.range.source_unit.as_str(), other.range.source_unit.as_str())
        } else if self.range.bytes.start != other.range.bytes.start {
            self.range.bytes.start < other.range.bytes.start
        } else if self.range.bytes.end != other.range.bytes.end {
            self.range.bytes.end < other.range.bytes.end
        } else if !text::same_text(kind, other_kind) {
            text::text_before(kind, other_kind)
        } else {
            text::text_before(target_of(self), target_of(other))
        }
    }
}

/// The references of a symbol in order, without repetitions.
pub fn reference_list(references: Vec<SourceOccurrence>) -> (result: Vec<SourceOccurrence>)
    ensures
        result@ == ordering::deduplicated(ordering::stable_sorted(references@)),
{
    deduplicate(stable_sort(references))
}

/// Whether symbols of a kind have constructors, whose calls refer to them.
pub open spec fn is_constructible(kind: SymbolKind) -> bool {
    ||| kind == SymbolKind::Class
    ||| kind == SymbolKind::Interface
    ||| kind == SymbolKind::Object
    ||| kind == SymbolKind::Enum
}

/// Whether a declaration is a constructor of a symbol: it is owned by the
/// symbol, or its name stands where the symbol's does.
pub open spec fn is_constructor_of(candidate: SymbolRecord, symbol: SymbolRecord) -> bool {
    &&& is_constructible(symbol.kind)
    &&& candidate.kind == SymbolKind::Constructor
    &&& same_optional_symbol(candidate.owner, Some(symbol.id)) || (
    candidate.name_range.source_unit@ == symbol.name_range.source_unit@
        && candidate.name_range.bytes == symbol.name_range.bytes)
}

/// The constructors of a symbol among the first `n` declarations.
pub open spec fn constructors(symbol: SymbolRecord, declarations: Seq<SymbolRecord>, n: int) -> Seq<
    SymbolId,
>
    decreases n,
{
    if n <= 0 {
        Seq::empty()
    } else {
        let before = constructors(symbol, declarations, n - 1);
        if is_constructor_of(declarations[n - 1], symbol) {
            before.push(declarations[n - 1].id)
        } else {
            before
        }
    }
}

/// Computes `constructors` among the declarations of the symbol's source unit.
pub fn constructors_of(symbol: &SymbolRecord, declarations: &[SymbolRecord]) -> (result: Vec<
    SymbolId,
>)
    ensures
        result@ == constructors(*symbol, declarations@, declarations@.len() as int),
{
    let mut result: Vec<SymbolId> = Vec::new();
    let constructible: bool = symbol.kind == SymbolKind::Class || symbol.kind
        == SymbolKind::Interface || symbol.kind == SymbolKind::Object || symbol.kind
        == SymbolKind::Enum;
    let mut i: usize = 0;
    while i < declarations.len()
        invariant
            constructible == is_constructible(symbol.kind),
            i <= declarations@.len(),
            result@ == constructors(*symbol, declarations@, i as int),
        decreases declarations@.len() - i,
    {
        let candidate = &declarations[i];
        let owned: bool = match &candidate.owner {
            Some(owner) => owner.same(&symbol.id),
            None => false,
        };
        let same_place: bool = candidate.name_range.source_unit.same(
            &symbol.name_range.source_unit,
        ) && candidate.name_range.bytes == symbol.name_range.bytes;
        if constructible && candidate.kind == SymbolKind::Constructor && (owned || same_place) {
            result.push(candidate.id.clone());
        }
        i = i + 1;
    }
    result
}

/// A symbol as one of those sorted by id.
pub struct SymbolById {
    pub symbol: SymbolRecord,
}

impl Ranked for SymbolById {
    open spec fn ranks_before(&self, other: &Self) -> bool {
        text::text_lt(self.symbol.id@, other.symbol.id@)
    }

    proof fn lemma_rank_asymmetric(a: &Self, b: &Self) {
        text::lemma_text_lt_asymmetric(a.symbol.id@, b.symbol.id@);
    }

    proof fn lemma_rank_negatively_transitive(a: &Self, b: &Self, c: &Self) {
        text::lemma_text_lt_negatively_transitive(a.symbol.id@, b.symbol.id@, c.symbol.id@);
    }

    fn is_before(&self, other: &Self) -> (result: bool) {
        text::text_before(self.symbol.id.as_str(), other.symbol.id.as_str())
    }
}

impl Alike for SymbolById {
    open spec fn alike(&self, other: &Self) -> bool {
        self.symbol.id@ == other.symbol.id@
    }

    fn is_alike(&self, other: &Self) -> (result: bool) {
        self.symbol.id.same(&other.symbol.id)
    }
}

/// Implementations in ascending order of their ids, the first of each id kept.
pub fn distinct_implementations(symbols: Vec<SymbolById>) -> (result: Vec<SymbolById>)
    ensures
        result@ == ordering::deduplicated(ordering::stable_sorted(symbols@)),
{
    deduplicate(stable_sort(symbols))
}

/// Whether an occurrence has a type.
pub open spec fn is_typed(occurrence: SourceOccurrence) -> bool {
    occurrence.type_id is Some
}

/// The position of the first occurrence that has a type; the length, where
/// none has.
pub open spec fn typed_position(occurrences: Seq<SourceOccurrence>) -> int
    decreases occurrences.len(),
{
    if occurrences.len() == 0 || is_typed(occurrences[0]) {
        0
    } else {
        1 + typed_position(occurrences.drop_first())
    }
}

/// The position of the first type of an id; the length, where there is none.
pub open spec fn type_position(types: Seq<TypeRecord>, id: Seq<char>) -> int
    decreases types.len(),
{
    if types.len() == 0 || types[0].id@ == id {
        0
    } else {
        1 + type_position(types.drop_first(), id)
    }
}

fn find_typed(occurrences: &[SourceOccurrence]) -> (result: usize)
    ensures
        result == typed_position(occurrences@),
        result <= occurrences@.len(),
        result < occurrences@.len() ==> is_typed(occurrences@[result as int]),
{
    let mut i: usize = 0;
    assert(occurrences@.skip(0) =~= occurrences@);
    while i < occurrences.len()
        invariant
            i <= occurrences@.len(),
            typed_position(occurrences@) == i + typed_position(occurrences@.skip(i as int)),
        decreases occurrences@.len() - i,
    {
        assert(occurrences@.skip(i as int).drop_first() =~= occurrences@.skip(i + 1));
        if occurrences[i].type_id.is_some() {
            return i;
        }
        i = i + 1;
    }
    i
}

fn find_type(types: &[TypeRecord], id: &str) -> (result: usize)
    ensures
        result == type_position(types@, id@),
        result <= types@.len(),
{
    let mut i: usize = 0;
    assert(types@.skip(0) =~= types@);
    while i < types.len()
        invariant
            i <= types@.len(),
            type_position(types@, id@) == i + type_position(types@.skip(i as int), id@),
        decreases types@.len() - i,
    {
        assert(types@.skip(i as int).drop_first() =~= types@.skip(i + 1));
        if text::same_text(types[i].id.as_str(), id) {
            return i;
        }
        i = i + 1;
    }
    i
}

/// The answer to a type request, given the occurrences at the offset and the
/// types of the source unit: the type of the first typed occurrence.
pub fn type_answer(occurrences: &[SourceOccurrence], types: &[TypeRecord]) -> (result: (
    QueryStatus,
    Option<QueryPayload>,
))
    ensures
        ({
            let i = typed_position(occurrences@);
            let j = type_position(types@, occurrences@[i].type_id->Some_0@);
            if i < occurrences@.len() && j < types@.len() {
                result == (
                    QueryStatus::Success,
                    Some(QueryPayload::TypeAt { occurrence: occurrences@[i], ty: types@[j] }),
                )
            } else {
                result == (QueryStatus::NoResult, None::<QueryPayload>)
            }
        }),
{
    let i: usize = find_typed(occurrences);
    if i == occurrences.len() {
        return (QueryStatus::NoResult, None);
    }
    match &occurrences[i].type_id {
        Some(type_id) => {
            let j: usize = find_type(types, type_id.as_str());
            if j == types.len() {
                (QueryStatus::NoResult, None)
            } else {
                (
                    QueryStatus::Success,
                    Some(
                        QueryPayload::TypeAt {
                            occurrence: occurrences[i].clone(),
                            ty: types[j].clone(),
                        },
                    ),
                )
            }
        },
        None => (QueryStatus::NoResult, None),
    }
}

/// The line and the column of a byte offset, both one-based, columns counted in
/// scalar values; none inside a scalar value or after the end.
pub fn byte_to_location(text: &str, byte_offset: u64) -> (result: Option<(usize, usize)>)
    requires
        text@.len() < usize::MAX,
    ensures
        match result {
            Some(found) => {
                let k = position::index_at(text@, byte_offset as int);
                &&& position::is_index_at(text@, byte_offset as int, k)
                &&& found.0 == position::line_of(text@, k)
                &&& found.1 == position::column_of(text@, k)
            },
            None => !position::is_boundary(text@, byte_offset as int),
        },
{
    let chars = text::chars_of(text);
    match find_byte(text, chars.as_slice(), byte_offset) {
        Some(k) => Some(line_and_column(chars.as_slice(), k)),
        None => None,
    }
}

/// The text `PATH:LINE:COLUMN`, or `PATH:byte:OFFSET` without a line.
pub open spec fn short_location_text(
    path: Seq<char>,
    location: Option<(usize, usize)>,
    byte_offset: u64,
) -> Seq<char> {
    match location {
        Some((line, column)) => path + ":"@ + text::decimal_text(line as nat) + ":"@
            + text::decimal_text(column as nat),
        None => path + ":byte:"@ + text::decimal_text(byte_offset as nat),
    }
}

/// Computes `short_location_text`.
pub fn short_location(path: &str, location: Option<(usize, usize)>, byte_offset: u64) -> (result:
    String)
    ensures
        result@ == short_location_text(path@, location, byte_offset),
{
    match location {
        Some((line, column)) => {
            let mut result = text::join_text(path, ":");
            result.append(text::decimal(line as u64).as_str());
            result.append(":");
            result.append(text::decimal(column as u64).as_str());
            result
        },
        None => {
            let mut result = text::join_text(path, ":byte:");
            result.append(text::decimal(byte_offset).as_str());
            result
        },
    }
}

/// The lower-case name of a symbol kind.
pub open spec fn kind_text(kind: SymbolKind) -> Seq<char> {
    match kind {
        SymbolKind::Package => "package"@,
        SymbolKind::Module => "module"@,
        SymbolKind::Class => "class"@,
        SymbolKind::Interface => "interface"@,
        SymbolKind::Object => "object"@,
        SymbolKind::Enum => "enum"@,
        SymbolKind::Function => "function"@,
        SymbolKind::Method => "method"@,
        SymbolKind::Constructor => "constructor"@,
        SymbolKind::Property => "property"@,
        SymbolKind::Field => "field"@,
        SymbolKind::Parameter => "parameter"@,
        SymbolKind::TypeAlias => "typealias"@,
        SymbolKind::Other => "other"@,
    }
}

fn kind_name(kind: SymbolKind) -> (result: &'static str)
    ensures
        result@ == kind_text(kind),
{
    match kind {
        SymbolKind::Package => "package",
        SymbolKind::Module => "module",
        SymbolKind::Class => "class",
        SymbolKind::Interface => "interface",
        SymbolKind::Object => "object",
        SymbolKind::Enum => "enum",
        SymbolKind::Function => "function",
        SymbolKind::Method => "method",
        SymbolKind::Constructor => "constructor",
        SymbolKind::Property => "property",
        SymbolKind::Field => "field",
        SymbolKind::Parameter => "parameter",
        SymbolKind::TypeAlias => "typealias",
        SymbolKind::Other => "other",
    }
}

/// The name that is shown of a symbol: the qualified one, where it has one.
pub open spec fn shown_name(symbol: SymbolRecord) -> Seq<char> {
    match symbol.qualified_name {
        Some(name) => name@,
        None => symbol.name@,
    }
}

/// The line that shows a symbol: an optional label, its kind, its name and its
/// location.
pub fn short_symbol(symbol: &SymbolRecord, location: &str, label: Option<&str>) -> (result: String)
    ensures
        result@ == (match label {
            Some(label) => label@ + " "@,
            None => ""@,
        }) + kind_text(symbol.kind) + " "@ + shown_name(*symbol) + " "@ + location@,
{
    let mut line = match label {
        Some(label) => text::join_text(label, " "),
        None => "".to_owned(),
    };
    line.append(kind_name(symbol.kind));
    line.append(" ");
    match &symbol.qualified_name {
        Some(name) => line.append(name.as_str()),
        None => line.append(symbol.name.as_str()),
    }
    line.append(" ");
    line.append(location);
    line
}

/// Whether an occurrence is a type reference around a range.
pub open spec fn is_type_context(occurrence: SourceOccurrence, range: ByteRange) -> bool {
    &&& occurrence.kind == OccurrenceKind::TypeReference
    &&& occurrence.range.bytes.start <= range.start
    &&& range.end <= occurrence.range.bytes.end
}

/// The widest type reference around a range among the first `n` occurrences, the
/// last of equally wide ones; the range itself, where there is none.
pub open spec fn type_context(occurrences: Seq<SourceOccurrence>, range: ByteRange, n: int) -> Option<
    ByteRange,
>
    decreases n,
{
    if n <= 0 {
        None
    } else {
        let before = type_context(occurrences, range, n - 1);
        let bytes = occurrences[n - 1].range.bytes;
        if !is_type_context(occurrences[n - 1], range) {
            before
        } else {
            match before {
                Some(found) => if bytes.end - bytes.start >= found.end - found.start {
                    Some(bytes)
                } else {
                    before
                },
                None => Some(bytes),
            }
        }
    }
}

/// Finds the range that shows a reference: the widest type reference around it,
/// or the reference itself.
pub fn context_range(occurrences: &[SourceOccurrence], range: ByteRange) -> (result: ByteRange)
    requires
        range.start <= range.end,
    ensures
        result == (match type_context(occurrences@, range, occurrences@.len() as int) {
            Some(found) => found,
            None => range,
        }),
{
    let mut found: Option<ByteRange> = None;
    let mut i: usize = 0;
    while i < occurrences.len()
        invariant
            range.start <= range.end,
            i <= occurrences@.len(),
            found == type_context(occurrences@, range, i as int),
            found matches Some(bytes) ==> bytes.start <= bytes.end,
        decreases occurrences@.len() - i,
    {
        let bytes = occurrences[i].range.bytes;
        if occurrences[i].kind == OccurrenceKind::TypeReference && bytes.start <= range.start
            && range.end <= bytes.end {
            let wider: bool = match found {
                Some(before) => bytes.end - bytes.start >= before.end - before.start,
                None => true,
            };
            if wider {
                found = Some(bytes);
            }
        }
        i = i + 1;
    }
    match found {
        Some(bytes) => bytes,
        None => range,
    }
}

/// A text with each run of white space between two words replaced by one space
/// and without white space around it.
pub open spec fn collapsed(s: Seq<char>) -> Seq<char>
    decreases s.len(),
{
    if s.len() == 0 {
        Seq::empty()
    } else {
        let rest = collapsed(s.drop_last());
        if position::is_white_space(s.last()) {
            rest
        } else if rest.len() > 0 && position::is_white_space(s[s.len() - 2]) {
            rest.push(' ').push(s.last())
        } else {
            rest.push(s.last())
        }
    }
}

fn collapse(chars: &[char]) -> (result: String)
    ensures
        result@ == collapsed(chars@),
{
    let mut kept: Vec<char> = Vec::new();
    let mut i: usize = 0;
    assert(chars@.take(0) =~= Seq::<char>::empty());
    while i < chars.len()
        invariant
            i <= chars@.len(),
            kept@ == collapsed(chars@.take(i as int)),
        decreases chars@.len() - i,
    {
        assert(chars@.take(i + 1).drop_last() =~= chars@.take(i as int));
        assert(kept@.len() > 0 ==> i > 0);
        if !white_space(chars[i]) {
            if kept.len() > 0 && white_space(chars[i - 1]) {
                kept.push(' ');
            }
            kept.push(chars[i]);
        }
        i = i + 1;
    }
    assert(chars@.take(i as int) =~= chars@);
    text::text_of(kept.as_slice())
}

/// The source text between two byte offsets on one line; none, where they are
/// out of order, inside a scalar value or after the end.
pub fn source_snippet(text: &str, start: u64, end: u64) -> (result: Option<String>)
    ensures
        match result {
            Some(snippet) => {
                &&& start <= end
                &&& position::is_boundary(text@, start as int)
                &&& position::is_boundary(text@, end as int)
                &&& snippet@ == collapsed(
                    text@.subrange(
                        position::index_at(text@, start as int),
                        position::index_at(text@, end as int),
                    ),
                )
            },
            None => {
                ||| start > end
                ||| !position::is_boundary(text@, start as int)
                ||| !position::is_boundary(text@, end as int)
            },
        },
{
    if start > end {
        return None;
    }
    let chars = text::chars_of(text);
    match (find_byte(text, chars.as_slice(), start), find_byte(text, chars.as_slice(), end)) {
        (Some(low), Some(high)) => {
            proof {
                if high < low {
                    position::lemma_offset_increases(text@, high as int, low as int);
                }
            }
            assert(chars@.subrange(low as int, high as int) == text@.subrange(
                low as int,
                high as int,
            ));
            Some(collapse(&chars[low..high]))
        },
        _ => None,
    }
}

fn find_byte(text: &str, chars: &[char], offset: u64) -> (result: Option<usize>)
    requires
        chars@ == text@,
    ensures
        match result {
            Some(k) => position::is_index_at(text@, offset as int, k as int) && position::index_at(
                text@,
                offset as int,
            ) == k,
            None => !position::is_boundary(text@, offset as int),
        },
{
    let total: usize = byte_length(text);
    if offset > total as u64 {
        proof {
            if position::is_boundary(text@, offset as int) {
                let k = position::index_at(text@, offset as int);
                assert(position::is_index_at(text@, offset as int, k));
                position::lemma_offset_increases(text@, k, text@.len() as int);
            }
        }
        return None;
    }
    find_index(chars, total, offset as usize)
}

/// Which scalar values of a text can stand in a qualified name.
pub open spec fn name_flags(s: Seq<char>) -> Seq<bool> {
    Seq::new(s.len(), |i: int| text_index::alphanumeric(s[i]) || s[i] == '.' || s[i] == '_')
}

fn flag_names(chars: &[char]) -> (result: Vec<bool>)
    ensures
        result@ == name_flags(chars@),
{
    let mut result: Vec<bool> = Vec::new();
    let mut i: usize = 0;
    while i < chars.len()
        invariant
            i <= chars@.len(),
            result@.len() == i,
            forall|j: int| 0 <= j < i ==> #[trigger] result@[j] == name_flags(chars@)[j],
        decreases chars@.len() - i,
    {
        result.push(text_index::is_alphanumeric(chars[i]) || chars[i] == '.' || chars[i] == '_');
        i = i + 1;
    }
    assert(result@ =~= name_flags(chars@));
    result
}

/// Where the run of set flags at the end starts; the length, where the last
/// flag is not set.
pub open spec fn last_run_start(flags: Seq<bool>) -> int
    decreases flags.len(),
{
    if flags.len() > 0 && flags.last() {
        last_run_start(flags.drop_last())
    } else {
        flags.len() as int
    }
}

fn find_run_start(flags: &[bool], end: usize) -> (result: usize)
    requires
        end <= flags@.len(),
    ensures
        result == last_run_start(flags@.take(end as int)),
        result <= end,
{
    let mut start: usize = end;
    while start > 0 && flags[start - 1]
        invariant
            start <= end <= flags@.len(),
            last_run_start(flags@.take(end as int)) == last_run_start(flags@.take(start as int)),
        decreases start,
    {
        assert(flags@.take(start as int).drop_last() =~= flags@.take(start - 1));
        start = start - 1;
    }
    start
}

/// The generic type around the scalar values from `low` to `high`: from the
/// flagged name before the last `<` in front of them to the first `>` behind
/// them.
pub open spec fn generic_type(s: Seq<char>, flags: Seq<bool>, low: int, high: int) -> Option<
    Seq<char>,
> {
    let open = text::last_position(s.take(low), '<');
    let close = high + text::first_position(s.skip(high), '>');
    let start = last_run_start(flags.take(open));
    if open < 0 || close >= s.len() || start > close + 1 {
        None
    } else {
        Some(collapsed(s.subrange(start, close + 1)))
    }
}

/// The generic type around the source text between two byte offsets, given
/// which scalar values can stand in a name.
pub fn generic_type_between(text: &str, flags: &[bool], start: u64, end: u64) -> (result: Option<
    String,
>)
    requires
        flags@.len() == text@.len(),
        position::is_boundary(text@, start as int),
        position::is_boundary(text@, end as int),
    ensures
        ({
            let expected = generic_type(
                text@,
                flags@,
                position::index_at(text@, start as int),
                position::index_at(text@, end as int),
            );
            match result {
                Some(context) => expected == Some(context@),
                None => expected is None,
            }
        }),
{
    let chars = text::chars_of(text);
    let len: usize = chars.len();
    match (find_byte(text, chars.as_slice(), start), find_byte(text, chars.as_slice(), end)) {
        (Some(low), Some(high)) => {
            let head = &chars[0..low];
            assert(head@ =~= text@.take(low as int));
            let tail = &chars[high..len];
            assert(tail@ =~= text@.skip(high as int));
            proof {
                text::lemma_last_position(text@.take(low as int), '<');
                text::lemma_first_position(text@.skip(high as int), '>');
            }
            match text::find_last_char(head, '<') {
                Some(open) => {
                    let distance: usize = text::find_char(tail, '>');
                    if distance == tail.len() {
                        return None;
                    }
                    let close: usize = high + distance + 1;
                    let first: usize = find_run_start(flags, open);
                    if first > close {
                        return None;
                    }
                    Some(collapse(&chars[first..close]))
                },
                None => None,
            }
        },
        _ => None,
    }
}

/// The generic type around the source text between two byte offsets.
pub fn generic_type_context(text: &str, start: u64, end: u64) -> (result: Option<String>)
    requires
        position::is_boundary(text@, start as int),
        position::is_boundary(text@, end as int),
    ensures
        ({
            let expected = generic_type(
                text@,
                name_flags(text@),
                position::index_at(text@, start as int),
                position::index_at(text@, end as int),
            );
            match result {
                Some(context) => expected == Some(context@),
                None => expected is None,
            }
        }),
{
    let chars = text::chars_of(text);
    let flags = flag_names(chars.as_slice());
    generic_type_between(text, flags.as_slice(), start, end)
}

proof fn lemma_small_number(value: u32)
    ensures
        text::small_number(text::decimal_text(value as nat)) == Some(value),
        forall|i: int|
            0 <= i < text::decimal_text(value as nat).len() ==> text::decimal_text(
                value as nat,
            )[i] != ':',
{
    let s = text::decimal_text(value as nat);
    text::lemma_decimal_text(value as nat);
    assert(text::is_digit(s[0]));
    assert(text::number_digits(s) == s);
    assert forall|i: int| 0 <= i < s.len() implies s[i] != ':' by {
        assert(text::is_digit(s[i]));
    }
}

/// A location that is shown is read back as the same path, line and column, also
/// where the path itself holds colons.
pub proof fn law_shown_location_is_read_back(
    path: &str,
    line: usize,
    column: usize,
    byte_offset: u64,
    shown: String,
    value: &str,
    result: Result<Location, LocationSyntaxError>,
)
    requires
        path@.len() > 0,
        line <= u32::MAX,
        column <= u32::MAX,
        call_ensures(short_location, (path, Some((line, column)), byte_offset), shown),
        value@ == shown@,
        call_ensures(parse_location, (value,), result),
    ensures
        result is Ok,
        result->Ok_0.path@ == path@,
        result->Ok_0.position.line == line,
        result->Ok_0.position.column == column,
{
    reveal_strlit(":");
    let rows = text::decimal_text(line as nat);
    let columns = text::decimal_text(column as nat);
    lemma_small_number(line as u32);
    lemma_small_number(column as u32);
    let s = value@;
    let before = path@ + ":"@ + rows;
    assert(s =~= before + ":"@ + columns);
    let last = before.len() as int;
    assert forall|i: int| last < i < s.len() implies s[i] != ':' by {
        assert(s[i] == columns[i - last - 1]);
    }
    text::lemma_last_position_is(s, ':', last);
    assert(s.take(last) =~= before);
    assert(s.skip(last + 1) =~= columns);
    let middle = path@.len() as int;
    assert forall|i: int| middle < i < before.len() implies before[i] != ':' by {
        assert(before[i] == rows[i - middle - 1]);
    }
    text::lemma_last_position_is(before, ':', middle);
    assert(before.skip(middle + 1) =~= rows);
    assert(before.take(middle) =~= path@);
}

/// A text without a colon is the name of a symbol, and one that starts with a
/// scheme of symbol ids is that id.
pub proof fn law_targets_are_told_by_their_form(value: &str, form: TargetForm)
    requires
        call_ensures(classify_target, (value,), form),
    ensures
        "jvm:sha256:"@.is_prefix_of(value@) || "kotlin:"@.is_prefix_of(value@)
            || "java:"@.is_prefix_of(value@) ==> form is Symbol,
        form is Symbol ==> form->Symbol_0@ == value@ && ("jvm:sha256:"@.is_prefix_of(value@)
            || "kotlin:"@.is_prefix_of(value@) || "java:"@.is_prefix_of(value@)),
        !value@.contains(':') ==> form is Name,
{
    assert forall|prefix: Seq<char>| #[trigger] prefix.is_prefix_of(value@) == text::begins_with(
        value@,
        prefix,
    ) by {
        if prefix.len() <= value@.len() {
            assert(value@.take(prefix.len() as int) =~= value@.subrange(0, prefix.len() as int));
        }
    }
    if !value@.contains(':') {
        text::lemma_last_position(value@, ':');
        reveal_strlit("jvm:sha256:");
        reveal_strlit("kotlin:");
        reveal_strlit("java:");
        if text::begins_with(value@, "jvm:sha256:"@) {
            assert("jvm:sha256:"@[3] == value@.take("jvm:sha256:"@.len() as int)[3]);
            assert(value@[3] == ':');
        }
        if text::begins_with(value@, "kotlin:"@) {
            assert("kotlin:"@[6] == value@.take("kotlin:"@.len() as int)[6]);
            assert(value@[6] == ':');
        }
        if text::begins_with(value@, "java:"@) {
            assert("java:"@[4] == value@.take("java:"@.len() as int)[4]);
            assert(value@[4] == ':');
        }
    }
}

/// A written location is classified as that location unless it starts with a
/// scheme of symbol ids.
pub proof fn law_locations_are_classified_as_read(
    value: &str,
    form: TargetForm,
    read: Result<Location, LocationSyntaxError>,
)
    requires
        call_ensures(classify_target, (value,), form),
        call_ensures(parse_location, (value,), read),
        !(form is Symbol),
    ensures
        form is Location <==> read is Ok,
        form is Location ==> form->Location_0.path@ == read->Ok_0.path@
            && form->Location_0.position == read->Ok_0.position,
{
}

/// A symbol id resolves to itself where the index or an artifact declares it,
/// and to nothing otherwise.
pub proof fn law_declared_symbol_resolves_to_itself(
    symbol: SymbolId,
    declared: bool,
    artifacts: usize,
    result: TargetResolution,
)
    requires
        call_ensures(resolve_symbol_target, (symbol, declared, artifacts), result),
    ensures
        declared || artifacts > 0 ==> result is Symbol && result->Symbol_0@ == symbol@,
        !declared && artifacts == 0 ==> result is NoResult,
{
}

/// A name resolves to the one symbol that has it; several stay candidates.
pub proof fn law_only_a_single_name_resolves(candidates: Vec<SymbolId>, result: TargetResolution)
    requires
        call_ensures(resolve_name_target, (candidates,), result),
    ensures
        result is Symbol <==> candidates@.len() == 1,
        result is NoResult <==> candidates@.len() == 0,
        result is Ambiguous <==> candidates@.len() > 1,
        result is Symbol ==> result->Symbol_0@ == candidates@[0]@,
        result is Ambiguous ==> result->Ambiguous_0@ == candidates@,
{
}

/// The resolution of a location is carried over as it is: it is a symbol, no
/// result or ambiguous exactly where it was.
pub proof fn law_location_resolution_is_kept(
    resolution: LocationResolution,
    result: TargetResolution,
)
    requires
        call_ensures(resolve_location_target, (resolution,), result),
    ensures
        result is Symbol <==> resolution is Symbol,
        result is NoResult <==> resolution is NoResult,
        result is Ambiguous <==> resolution is Ambiguous,
        result is Symbol ==> result->Symbol_0 == resolution->Symbol_0,
        result is Ambiguous ==> result->Ambiguous_0 == resolution->candidates,
{
}

/// A definition is found exactly for a target that is one symbol with a record,
/// and that record is the answer. A stale target is answered as stale and one of
/// several symbols as ambiguous, each with one problem.
pub proof fn law_definition_is_the_record_of_the_symbol(
    resolution: TargetResolution,
    record: Option<SymbolRecord>,
    answer: (QueryStatus, Option<QueryPayload>, Vec<QueryProblem>),
)
    requires
        call_ensures(definition_answer, (resolution, record), answer),
    ensures
        answer.0 == QueryStatus::Success <==> resolution is Symbol && record is Some,
        answer.1 is Some <==> resolution is Symbol && record is Some,
        answer.1 is Some ==> answer.1->0 is Definition && answer.1->0->Definition_symbol
            == record->0,
        answer.0 == QueryStatus::Stale <==> resolution is Stale,
        answer.0 == QueryStatus::Ambiguous <==> resolution is Ambiguous,
        answer.2@.len() == 1 <==> resolution is Stale || resolution is Ambiguous || (
        resolution is Symbol && record is None),
        resolution is Stale ==> answer.2@[0].retryable && answer.2@[0].code@
            == "stale_source_snapshot"@,
        resolution is Ambiguous ==> answer.2@[0].code@ == "ambiguous_location"@,
        resolution is Symbol && record is None ==> answer.2@[0].code@
            == "resolved_symbol_missing"@,
{
}

/// A target that is not one symbol is answered as stale, ambiguous or without a
/// result, as it was resolved, and never with a payload.
pub proof fn law_unresolved_targets_say_why(
    resolution: TargetResolution,
    answer: (QueryStatus, Option<QueryPayload>, Vec<QueryProblem>),
)
    requires
        !(resolution is Symbol),
        call_ensures(target_problem, (resolution,), answer),
    ensures
        answer.1 is None,
        answer.0 == QueryStatus::Stale <==> resolution is Stale,
        answer.0 == QueryStatus::Ambiguous <==> resolution is Ambiguous,
        answer.0 == QueryStatus::NoResult <==> resolution is NoResult,
        answer.2@.len() == 0 <==> resolution is NoResult,
        resolution is Stale ==> answer.2@[0].retryable && answer.2@[0].code@
            == "stale_source_snapshot"@,
        resolution is Ambiguous ==> answer.2@[0].code@ == "ambiguous_target"@,
{
}

/// A list of references, callers or implementations is an answer exactly where
/// it holds something; any other payload always is one.
pub proof fn law_empty_lists_are_no_result(
    payload: QueryPayload,
    answer: (QueryStatus, Option<QueryPayload>, Vec<QueryProblem>),
)
    requires
        call_ensures(query_result, (payload,), answer),
    ensures
        answer.0 == QueryStatus::Success || answer.0 == QueryStatus::NoResult,
        answer.0 == QueryStatus::Success <==> answer.1 is Some,
        answer.1 is Some ==> answer.1->0 == payload,
        payload is Refs ==> (answer.1 is Some <==> payload->references@.len() > 0),
        payload is Callers ==> (answer.1 is Some <==> payload->calls@.len() > 0),
        payload is Implementations ==> (answer.1 is Some
            <==> payload->Implementations_symbols@.len() > 0),
        !(payload is Refs) && !(payload is Callers) && !(payload is Implementations)
            ==> answer.1 is Some,
        answer.2@.len() == 0,
{
}

/// A location is stale exactly where one source unit stands there and was
/// indexed from another text.
pub proof fn law_stale_location_was_indexed_from_another_text(
    units: &[SourceUnit],
    current: &Fingerprint,
    stale: bool,
)
    requires
        call_ensures(is_location_stale, (units, current), stale),
    ensures
        stale ==> units@.len() == 1 && units@[0].content@ != current@,
        units@.len() == 1 && units@[0].content@ != current@ ==> stale,
{
}

proof fn lemma_deduplicated_covers<T: Alike>(s: Seq<T>, i: int) -> (k: int)
    requires
        0 <= i < s.len(),
        forall|a: T| #[trigger] a.alike(&a),
    ensures
        0 <= k < ordering::deduplicated(s).len(),
        ordering::deduplicated(s)[k].alike(&s[i]),
    decreases s.len(),
{
    let rest = s.drop_last();
    let kept = ordering::deduplicated(rest);
    if i < rest.len() {
        let k = lemma_deduplicated_covers(rest, i);
        assert(ordering::deduplicated(s)[k] == kept[k]);
        assert(rest[i] == s[i]);
        k
    } else {
        let k = ordering::deduplicated(s).len() - 1;
        assert(s[i].alike(&s[i]));
        k
    }
}

/// The list of references holds only what was found, and something that says the
/// same as each reference that was found.
pub proof fn law_reference_list_keeps_every_reference(
    references: Vec<SourceOccurrence>,
    result: Vec<SourceOccurrence>,
    i: int,
) -> (k: int)
    requires
        call_ensures(reference_list, (references,), result),
        0 <= i < references@.len(),
    ensures
        0 <= k < result@.len(),
        result@[k].range.source_unit@ == references@[i].range.source_unit@,
        result@[k].range.bytes == references@[i].range.bytes,
        result@[k].kind == references@[i].kind,
        result@[k].target is Some <==> references@[i].target is Some,
        references@[i].target is Some ==> result@[k].target->0@ == references@[i].target->0@,
        forall|j: int|
            0 <= j < result@.len() ==> references@.contains(#[trigger] result@[j]),
{
    let sorted = ordering::stable_sorted(references@);
    let x = references@[i];
    assert(references@.contains(x));
    ordering::lemma_stable_sorted_contains(references@, x);
    let at = sorted.index_of(x);
    let k = lemma_deduplicated_covers(sorted, at);
    assert forall|j: int| 0 <= j < result@.len() implies references@.contains(
        #[trigger] result@[j],
    ) by {
        assert(ordering::deduplicated(sorted).contains(result@[j]));
        ordering::lemma_deduplicated_contains(sorted, result@[j]);
        ordering::lemma_stable_sorted_contains(references@, result@[j]);
    }
    k
}

/// The list of implementations holds only what was found, and one symbol of each
/// id that was found.
pub proof fn law_implementations_keep_every_id(
    symbols: Vec<SymbolById>,
    result: Vec<SymbolById>,
    i: int,
) -> (k: int)
    requires
        call_ensures(distinct_implementations, (symbols,), result),
        0 <= i < symbols@.len(),
    ensures
        0 <= k < result@.len(),
        result@[k].symbol.id@ == symbols@[i].symbol.id@,
        forall|j: int| 0 <= j < result@.len() ==> symbols@.contains(#[trigger] result@[j]),
{
    let sorted = ordering::stable_sorted(symbols@);
    let x = symbols@[i];
    assert(symbols@.contains(x));
    ordering::lemma_stable_sorted_contains(symbols@, x);
    let at = sorted.index_of(x);
    let k = lemma_deduplicated_covers(sorted, at);
    assert forall|j: int| 0 <= j < result@.len() implies symbols@.contains(
        #[trigger] result@[j],
    ) by {
        assert(ordering::deduplicated(sorted).contains(result@[j]));
        ordering::lemma_deduplicated_contains(sorted, result@[j]);
        ordering::lemma_stable_sorted_contains(symbols@, result@[j]);
    }
    k
}

proof fn lemma_constructors(
    symbol: SymbolRecord,
    declarations: Seq<SymbolRecord>,
    n: int,
    id: SymbolId,
)
    requires
        0 <= n <= declarations.len(),
    ensures
        constructors(symbol, declarations, n).contains(id) <==> exists|i: int|
            0 <= i < n && (#[trigger] declarations[i]).id == id && is_constructor_of(
                declarations[i],
                symbol,
            ),
    decreases n,
{
    if n > 0 {
        lemma_constructors(symbol, declarations, n - 1, id);
        let before = constructors(symbol, declarations, n - 1);
        let now = constructors(symbol, declarations, n);
        if before.contains(id) {
            assert(now[before.index_of(id)] == id);
        }
        if is_constructor_of(declarations[n - 1], symbol) {
            assert(now[before.len() as int] == declarations[n - 1].id);
        }
        if now.contains(id) && !before.contains(id) {
            let i = now.index_of(id);
            if i < before.len() {
                assert(before[i] == id);
            }
        }
    }
}

/// The constructors of a class, an interface, an object or an enum are the
/// constructors among the declarations that it owns or whose name stands where
/// its own does. Nothing else has any.
pub proof fn law_constructors_belong_to_their_class(
    symbol: &SymbolRecord,
    declarations: &[SymbolRecord],
    result: Vec<SymbolId>,
    i: int,
)
    requires
        call_ensures(constructors_of, (symbol, declarations), result),
        0 <= i < declarations@.len(),
    ensures
        ({
            let declaration = declarations@[i];
            let owned = declaration.owner is Some && declaration.owner->0@ == symbol.id@;
            let beside = declaration.name_range.source_unit@ == symbol.name_range.source_unit@
                && declaration.name_range.bytes == symbol.name_range.bytes;
            let constructible = symbol.kind is Class || symbol.kind is Interface
                || symbol.kind is Object || symbol.kind is Enum;
            &&& constructible && declaration.kind is Constructor && (owned || beside)
                ==> result@.contains(declaration.id)
            &&& !constructible ==> result@.len() == 0
        }),
        forall|k: int|
            0 <= k < result@.len() ==> exists|j: int|
                0 <= j < declarations@.len() && (#[trigger] declarations@[j]).id
                    == #[trigger] result@[k] && declarations@[j].kind is Constructor,
{
    let n = declarations@.len() as int;
    lemma_constructors(*symbol, declarations@, n, declarations@[i].id);
    assert forall|k: int| 0 <= k < result@.len() implies exists|j: int|
        0 <= j < n && (#[trigger] declarations@[j]).id == #[trigger] result@[k]
            && is_constructor_of(declarations@[j], *symbol) by {
        lemma_constructors(*symbol, declarations@, n, result@[k]);
        assert(result@.contains(result@[k]));
    }
    if result@.len() > 0 {
        lemma_constructors(*symbol, declarations@, n, result@[0]);
        assert(result@.contains(result@[0]));
    }
}

proof fn lemma_typed_position(occurrences: Seq<SourceOccurrence>, p: int)
    requires
        0 <= p <= occurrences.len(),
        p < occurrences.len() ==> occurrences[p].type_id is Some,
        forall|i: int| 0 <= i < p ==> (#[trigger] occurrences[i]).type_id is None,
    ensures
        typed_position(occurrences) == p,
    decreases occurrences.len(),
{
    if p > 0 {
        assert(occurrences[0].type_id is None);
        let rest = occurrences.drop_first();
        assert forall|i: int| 0 <= i < p - 1 implies (#[trigger] rest[i]).type_id is None by {
            assert(rest[i] == occurrences[i + 1]);
        }
        lemma_typed_position(rest, p - 1);
    }
}

proof fn lemma_type_position(types: Seq<TypeRecord>, id: Seq<char>, p: int)
    requires
        0 <= p <= types.len(),
        p < types.len() ==> types[p].id@ == id,
        forall|i: int| 0 <= i < p ==> (#[trigger] types[i]).id@ != id,
    ensures
        type_position(types, id) == p,
    decreases types.len(),
{
    if p > 0 {
        assert(types[0].id@ != id);
        let rest = types.drop_first();
        assert forall|i: int| 0 <= i < p - 1 implies (#[trigger] rest[i]).id@ != id by {
            assert(rest[i] == types[i + 1]);
        }
        lemma_type_position(rest, id, p - 1);
    }
}

/// A type request is answered with the first typed occurrence and the first
/// type of the id that it names.
pub proof fn law_type_is_that_of_the_first_typed_occurrence(
    occurrences: &[SourceOccurrence],
    types: &[TypeRecord],
    answer: (QueryStatus, Option<QueryPayload>),
    p: int,
    t: int,
)
    requires
        call_ensures(type_answer, (occurrences, types), answer),
        0 <= p < occurrences@.len(),
        occurrences@[p].type_id is Some,
        forall|i: int| 0 <= i < p ==> (#[trigger] occurrences@[i]).type_id is None,
        0 <= t < types@.len(),
        types@[t].id@ == occurrences@[p].type_id->0@,
        forall|i: int|
            0 <= i < t ==> (#[trigger] types@[i]).id@ != occurrences@[p].type_id->0@,
    ensures
        answer.0 == QueryStatus::Success,
        answer.1 is Some && answer.1->0 is TypeAt,
        answer.1->0->occurrence == occurrences@[p],
        answer.1->0->ty == types@[t],
{
    lemma_typed_position(occurrences@, p);
    lemma_type_position(types@, occurrences@[p].type_id->0@, t);
}

/// Without a typed occurrence there is no answer to a type request.
pub proof fn law_untyped_occurrences_have_no_type(
    occurrences: &[SourceOccurrence],
    types: &[TypeRecord],
    answer: (QueryStatus, Option<QueryPayload>),
)
    requires
        call_ensures(type_answer, (occurrences, types), answer),
        forall|i: int|
            0 <= i < occurrences@.len() ==> (#[trigger] occurrences@[i]).type_id is None,
    ensures
        answer.0 == QueryStatus::NoResult,
        answer.1 is None,
{
    lemma_typed_position(occurrences@, occurrences@.len() as int);
}

proof fn lemma_type_context(occurrences: Seq<SourceOccurrence>, range: ByteRange, n: int)
    requires
        0 <= n <= occurrences.len(),
    ensures
        type_context(occurrences, range, n) is None ==> forall|i: int|
            0 <= i < n ==> !is_type_context(#[trigger] occurrences[i], range),
        type_context(occurrences, range, n) matches Some(found) ==> {
            &&& exists|i: int|
                0 <= i < n && is_type_context(#[trigger] occurrences[i], range)
                    && occurrences[i].range.bytes == found
            &&& forall|i: int|
                0 <= i < n && is_type_context(#[trigger] occurrences[i], range)
                    ==> occurrences[i].range.bytes.end - occurrences[i].range.bytes.start
                    <= found.end - found.start
        },
    decreases n,
{
    if n > 0 {
        lemma_type_context(occurrences, range, n - 1);
        assert(occurrences[n - 1] == occurrences[n - 1]);
        if let Some(found) = type_context(occurrences, range, n - 1) {
            let i = choose|i: int|
                0 <= i < n - 1 && is_type_context(#[trigger] occurrences[i], range)
                    && occurrences[i].range.bytes == found;
            assert(is_type_context(occurrences[i], range));
        }
    }
}

/// A reference is shown in the widest type reference around it: the shown range
/// holds the reference, and no type reference that does is wider.
pub proof fn law_context_is_the_widest_type_reference(
    occurrences: &[SourceOccurrence],
    range: ByteRange,
    result: ByteRange,
    i: int,
)
    requires
        range.start <= range.end,
        call_ensures(context_range, (occurrences, range), result),
        0 <= i < occurrences@.len(),
    ensures
        result.start <= range.start && range.end <= result.end,
        ({
            let bytes = occurrences@[i].range.bytes;
            occurrences@[i].kind is TypeReference && bytes.start <= range.start && range.end
                <= bytes.end ==> bytes.end - bytes.start <= result.end - result.start
        }),
        result != range ==> exists|k: int|
            0 <= k < occurrences@.len() && (#[trigger] occurrences@[k]).range.bytes == result
                && occurrences@[k].kind is TypeReference,
{
    lemma_type_context(occurrences@, range, occurrences@.len() as int);
    assert(occurrences@[i] == occurrences@[i]);
}

proof fn lemma_collapsed(s: Seq<char>)
    ensures
        forall|i: int|
            0 <= i < collapsed(s).len() ==> (collapsed(s)[i] == ' ' || !position::is_white_space(
                #[trigger] collapsed(s)[i],
            )),
        collapsed(s).len() > 0 ==> !position::is_white_space(collapsed(s)[0])
            && !position::is_white_space(collapsed(s).last()),
        forall|i: int|
            0 < i < collapsed(s).len() && #[trigger] collapsed(s)[i] == ' '
                && position::is_white_space(' ') ==> collapsed(s)[i - 1] != ' ',
    decreases s.len(),
{
    if s.len() > 0 {
        lemma_collapsed(s.drop_last());
        let rest = collapsed(s.drop_last());
        let now = collapsed(s);
        assert forall|i: int|
            0 < i < now.len() && #[trigger] now[i] == ' ' && position::is_white_space(
                ' ',
            ) implies now[i - 1] != ' ' by {
            if i < rest.len() {
                assert(now[i] == rest[i] && now[i - 1] == rest[i - 1]);
            } else if i == rest.len() {
                assert(now[i - 1] == rest.last());
            }
        }
    }
}

/// A snippet stands on one line: of the white space of the source only single
/// spaces between words are left.
pub proof fn law_snippet_stands_on_one_line(
    text: &str,
    start: u64,
    end: u64,
    snippet: String,
    i: int,
)
    requires
        call_ensures(source_snippet, (text, start, end), Some(snippet)),
        0 <= i < snippet@.len(),
    ensures
        start <= end,
        snippet@[i] == ' ' || !position::is_white_space(snippet@[i]),
        !position::is_white_space(snippet@[0]),
        !position::is_white_space(snippet@.last()),
{
    let s = text@.subrange(
        position::index_at(text@, start as int),
        position::index_at(text@, end as int),
    );
    lemma_collapsed(s);
    assert(collapsed(s)[i] == snippet@[i]);
}

/// The location of the offset of a scalar value counts the line feeds before it
/// and the scalar values since the last of them.
pub proof fn law_byte_offset_is_located(
    text: &str,
    byte_offset: u64,
    k: int,
    feed: int,
    result: Option<(usize, usize)>,
)
    requires
        call_ensures(byte_to_location, (text, byte_offset), result),
        0 <= k <= text@.len(),
        vstd::utf8::encode_utf8(text@.take(k)).len() == byte_offset,
        -1 <= feed < k,
        feed >= 0 ==> text@[feed] == '\n',
        forall|i: int| feed < i < k ==> text@[i] != '\n',
    ensures
        result is Some,
        (result->Some_0).1 == k - feed,
        (result->Some_0).0 == text@.take(k).filter(|c: char| c == '\n').len() + 1,
{
    assert(position::is_index_at(text@, byte_offset as int, k));
    position::lemma_index_unique(text@, byte_offset as int, k);
    lemma_filtered_feeds(text@.take(k));
    let before = text@.take(k);
    assert forall|i: int| feed < i < before.len() implies before[i] != '\n' by {
        assert(before[i] == text@[i]);
    }
    text::lemma_last_position_is(before, '\n', feed);
}

/// Filtering the line feeds counts them.
pub proof fn lemma_filtered_feeds(s: Seq<char>)
    ensures
        s.filter(|c: char| c == '\n').len() == position::line_feeds(s),
    decreases s.len(),
{
    reveal(Seq::filter);
    if s.len() > 0 {
        lemma_filtered_feeds(s.drop_last());
    }
}

/// Several targets succeed exactly where an answer to one of them is a success;
/// each target that was asked for is one of the given ones.
pub proof fn law_one_success_is_enough<E, F: Fn(String) -> Result<QueryStatus, E>>(
    targets: Vec<String>,
    query: F,
    status: QueryStatus,
)
    requires
        call_ensures(fan_out::<E, F>, (targets, query), Ok::<QueryStatus, E>(status)),
    ensures
        status == QueryStatus::Success || status == QueryStatus::NoResult,
        status == QueryStatus::Success ==> exists|asked: String|
            text::texts(targets@).contains(asked@) && #[trigger] call_ensures(
                query,
                (asked,),
                Ok::<QueryStatus, E>(QueryStatus::Success),
            ),
        targets@.len() == 0 ==> status == QueryStatus::NoResult,
{
    let given = text::texts(targets@);
    let order = ordering::sorted_texts(given.to_set());
    vstd::seq_lib::seq_to_set_is_finite(given);
    ordering::lemma_sorted_texts(given.to_set());
    let statuses = choose|statuses: Seq<QueryStatus>| #[trigger]
        answered_all::<E, F>(query, order, statuses) && statuses.len() == order.len() && status
            == (if any_success(statuses) {
            QueryStatus::Success
        } else {
            QueryStatus::NoResult
        });
    if status == QueryStatus::Success {
        let i = choose|i: int|
            0 <= i < statuses.len() && #[trigger] statuses[i] == QueryStatus::Success;
        assert(answered_one::<E, F>(query, order[i], statuses[i]));
        let asked = choose|asked: String|
            asked@ == order[i] && #[trigger] call_ensures(
                query,
                (asked,),
                Ok::<QueryStatus, E>(statuses[i]),
            );
        assert(order.to_set().contains(order[i]));
        assert(given.to_set().contains(asked@));
    }
    if targets@.len() == 0 {
        if order.len() > 0 {
            assert(order.to_set().contains(order[0]));
        }
    }
}

} // verus!
