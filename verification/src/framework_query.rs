//! Framework-neutral, explainable candidate result records.
//!
//! The envelope and its validation rules are stable; packages and workers own
//! namespaced reason and evidence codes such as `spring.beans.primary`.

use vstd::prelude::*;

use crate::canonical::{Provenance, SourceRange, SymbolId, SymbolRecord, SymbolRecordView};
use crate::ordered_map::OrderedMap;
use crate::ordering;
use crate::ordering::{stable_sort, Ranked};
use crate::text;

verus! {

/// How far a framework result answers its query.
#[derive(Debug, Clone, Copy, PartialEq, Eq, Structural)]
pub enum FrameworkQueryState {
    Complete,
    Partial,
    Unsupported,
}

/// What became of a candidate.
#[derive(Debug, Clone, Copy, PartialEq, Eq, Structural)]
pub enum CandidateDisposition {
    Selected,
    Excluded,
    Unresolved,
}

/// What a piece of evidence points at.
#[derive(Debug, PartialEq, Eq)]
pub enum FrameworkEvidenceTarget {
    Symbol { symbol: SymbolId },
    Source { range: SourceRange },
}

impl Clone for FrameworkEvidenceTarget {
    fn clone(&self) -> (result: Self)
        ensures
            result == *self,
    {
        match self {
            FrameworkEvidenceTarget::Symbol { symbol } => FrameworkEvidenceTarget::Symbol {
                symbol: symbol.clone(),
            },
            FrameworkEvidenceTarget::Source { range } => FrameworkEvidenceTarget::Source {
                range: range.clone(),
            },
        }
    }
}

/// One piece of evidence.
#[derive(Debug, PartialEq, Eq)]
pub struct FrameworkEvidence {
    /// Package-owned namespaced code, never interpreted here.
    pub code: String,
    pub target: FrameworkEvidenceTarget,
    pub provenance: Provenance,
}

impl Clone for FrameworkEvidence {
    fn clone(&self) -> (result: Self)
        ensures
            result == *self,
    {
        FrameworkEvidence {
            code: self.code.clone(),
            target: self.target.clone(),
            provenance: self.provenance.clone(),
        }
    }
}

/// An environment assumption behind a candidate.
#[derive(Debug, Clone, PartialEq, Eq)]
pub struct FrameworkAssumption {
    /// Package-owned namespaced environment key.
    pub code: String,
    pub value: Option<String>,
    pub evidence: Vec<FrameworkEvidence>,
}

/// Why an answer is partial or unsupported.
#[derive(Debug, Clone, PartialEq, Eq)]
pub struct FrameworkBoundary {
    /// Package-owned namespaced reason for a partial or unsupported answer.
    pub code: String,
    pub message: String,
    pub evidence: Vec<FrameworkEvidence>,
}

/// One candidate with the reasons and the evidence for its disposition.
#[derive(Debug, Clone, PartialEq, Eq)]
pub struct FrameworkCandidate {
    pub symbol: SymbolRecord,
    pub disposition: CandidateDisposition,
    pub reasons: Vec<String>,
    pub evidence: Vec<FrameworkEvidence>,
    pub assumptions: Vec<FrameworkAssumption>,
}

/// The answer to a framework query.
#[derive(Debug, Clone, PartialEq, Eq)]
pub struct FrameworkQueryResult {
    pub state: FrameworkQueryState,
    pub candidates: Vec<FrameworkCandidate>,
    pub boundaries: Vec<FrameworkBoundary>,
}

/// Why a framework result is refused.
#[derive(Debug, Clone, PartialEq, Eq)]
pub enum FrameworkQueryResultError {
    InvalidCode(String),
    MissingReasons(String),
    MissingEvidence(String),
    DuplicateCandidate(String),
    InvalidCompleteState,
    MissingPartialBoundary,
    InvalidUnsupportedState,
}

/// What a `FrameworkQueryResultError` says.
pub enum FrameworkQueryResultErrorView {
    InvalidCode(Seq<char>),
    MissingReasons(Seq<char>),
    MissingEvidence(Seq<char>),
    DuplicateCandidate(Seq<char>),
    InvalidCompleteState,
    MissingPartialBoundary,
    InvalidUnsupportedState,
}

impl View for FrameworkQueryResultError {
    type V = FrameworkQueryResultErrorView;

    open spec fn view(&self) -> FrameworkQueryResultErrorView {
        match self {
            FrameworkQueryResultError::InvalidCode(code) => {
                FrameworkQueryResultErrorView::InvalidCode(code@)
            },
            FrameworkQueryResultError::MissingReasons(id) => {
                FrameworkQueryResultErrorView::MissingReasons(id@)
            },
            FrameworkQueryResultError::MissingEvidence(id) => {
                FrameworkQueryResultErrorView::MissingEvidence(id@)
            },
            FrameworkQueryResultError::DuplicateCandidate(id) => {
                FrameworkQueryResultErrorView::DuplicateCandidate(id@)
            },
            FrameworkQueryResultError::InvalidCompleteState => {
                FrameworkQueryResultErrorView::InvalidCompleteState
            },
            FrameworkQueryResultError::MissingPartialBoundary => {
                FrameworkQueryResultErrorView::MissingPartialBoundary
            },
            FrameworkQueryResultError::InvalidUnsupportedState => {
                FrameworkQueryResultErrorView::InvalidUnsupportedState
            },
        }
    }
}

impl FrameworkQueryResultError {
    /// The message that is shown for an error.
    pub open spec fn message_text(&self) -> Seq<char> {
        match self {
            FrameworkQueryResultError::InvalidCode(code) => {
                "framework code `"@ + code@ + "` must be a lower-case namespaced identifier"@
            },
            FrameworkQueryResultError::MissingReasons(id) => {
                "framework candidate `"@ + id@ + "` has no reason codes"@
            },
            FrameworkQueryResultError::MissingEvidence(id) => {
                "framework candidate `"@ + id@ + "` has no source evidence"@
            },
            FrameworkQueryResultError::DuplicateCandidate(id) => {
                "duplicate framework candidate `"@ + id@ + "`"@
            },
            FrameworkQueryResultError::InvalidCompleteState => {
                "a complete framework result cannot contain unresolved candidates or boundaries"@
            },
            FrameworkQueryResultError::MissingPartialBoundary => {
                "a partial framework result must name at least one evidence boundary"@
            },
            FrameworkQueryResultError::InvalidUnsupportedState => {
                "an unsupported framework result must contain only named boundaries"@
            },
        }
    }

    /// Computes `message_text`.
    pub fn message(&self) -> (result: String)
        ensures
            result@ == self.message_text(),
    {
        match self {
            FrameworkQueryResultError::InvalidCode(code) => quoted(
                "framework code `",
                code.as_str(),
                "` must be a lower-case namespaced identifier",
            ),
            FrameworkQueryResultError::MissingReasons(id) => quoted(
                "framework candidate `",
                id.as_str(),
                "` has no reason codes",
            ),
            FrameworkQueryResultError::MissingEvidence(id) => quoted(
                "framework candidate `",
                id.as_str(),
                "` has no source evidence",
            ),
            FrameworkQueryResultError::DuplicateCandidate(id) => quoted(
                "duplicate framework candidate `",
                id.as_str(),
                "`",
            ),
            FrameworkQueryResultError::InvalidCompleteState => {
                "a complete framework result cannot contain unresolved candidates or boundaries".to_owned()
            },
            FrameworkQueryResultError::MissingPartialBoundary => {
                "a partial framework result must name at least one evidence boundary".to_owned()
            },
            FrameworkQueryResultError::InvalidUnsupportedState => {
                "an unsupported framework result must contain only named boundaries".to_owned()
            },
        }
    }
}

fn quoted(before: &str, name: &str, after: &str) -> (result: String)
    ensures
        result@ == before@ + name@ + after@,
{
    let mut result = text::join_text(before, name);
    result.append(after);
    result
}

/// Whether a scalar value may stand in a part of a code.
pub open spec fn is_code_char(c: char) -> bool {
    'a' <= c <= 'z' || '0' <= c <= '9' || c == '-'
}

/// Whether a part of a code is one or more code characters.
pub open spec fn is_code_part(part: Seq<char>) -> bool {
    part.len() > 0 && forall|i: int| 0 <= i < part.len() ==> is_code_char(#[trigger] part[i])
}

/// Whether a code is two or more parts with dots between them.
pub open spec fn valid_code(code: Seq<char>) -> bool {
    let parts = text::split_on(code, '.');
    code.contains('.') && forall|i: int| 0 <= i < parts.len() ==> is_code_part(#[trigger] parts[i])
}

/// The problem of a code, where it has one.
pub open spec fn code_problem(code: Seq<char>) -> Option<FrameworkQueryResultErrorView> {
    if valid_code(code) {
        None
    } else {
        Some(FrameworkQueryResultErrorView::InvalidCode(code))
    }
}

fn check_part(part: &str) -> (result: bool)
    ensures
        result == is_code_part(part@),
{
    let chars = text::chars_of(part);
    let mut i: usize = 0;
    while i < chars.len()
        invariant
            chars@ == part@,
            i <= chars@.len(),
            forall|j: int| 0 <= j < i ==> is_code_char(#[trigger] chars@[j]),
        decreases chars@.len() - i,
    {
        let c = chars[i];
        if !('a' <= c && c <= 'z' || '0' <= c && c <= '9' || c == '-') {
            assert(!is_code_char(part@[i as int]));
            return false;
        }
        i = i + 1;
    }
    chars.len() > 0
}

/// Refuses a code that is not a lower-case namespaced identifier.
pub fn validate_code(code: &str) -> (result: Result<(), FrameworkQueryResultError>)
    ensures
        match code_problem(code@) {
            Some(problem) => result is Err && result->Err_0@ == problem,
            None => result is Ok,
        },
{
    let chars = text::chars_of(code);
    let parts = text::split_chars(chars.as_slice(), '.');
    let ghost wanted = text::split_on(code@, '.');
    let mut valid: bool = true;
    let mut i: usize = 0;
    while i < parts.len()
        invariant
            text::texts(parts@) == wanted,
            i <= parts@.len(),
            valid <==> forall|j: int| 0 <= j < i ==> is_code_part(#[trigger] wanted[j]),
        decreases parts@.len() - i,
    {
        let good: bool = check_part(parts[i].as_str());
        assert(parts@[i as int]@ == wanted[i as int]);
        valid = valid && good;
        i = i + 1;
    }
    let position: usize = text::find_char(chars.as_slice(), '.');
    proof {
        text::lemma_first_position(code@, '.');
    }
    if valid && position < chars.len() {
        assert(code@[position as int] == '.');
        Ok(())
    } else {
        Err(FrameworkQueryResultError::InvalidCode(code.to_owned()))
    }
}

/// What a piece of evidence points at, as text.
pub open spec fn target_key(target: FrameworkEvidenceTarget) -> Seq<char> {
    match target {
        FrameworkEvidenceTarget::Symbol { symbol } => "symbol:"@ + symbol@,
        FrameworkEvidenceTarget::Source { range } => "source:"@ + range.source_unit@ + ":"@
            + text::decimal_text(range.bytes.start as nat) + ":"@ + text::decimal_text(
            range.bytes.end as nat,
        ),
    }
}

/// The text that evidence is sorted and told apart by.
pub open spec fn key_of_evidence(evidence: FrameworkEvidence) -> Seq<char> {
    evidence.code@ + "|"@ + target_key(evidence.target) + "|"@ + evidence.provenance.backend@
        + "|"@ + evidence.provenance.backend_version@ + "|"@
        + evidence.provenance.analysis_options@
}

/// Computes `key_of_evidence`.
pub fn evidence_key(evidence: &FrameworkEvidence) -> (result: String)
    ensures
        result@ == key_of_evidence(*evidence),
{
    let target = match &evidence.target {
        FrameworkEvidenceTarget::Symbol { symbol } => text::join_text("symbol:", symbol.as_str()),
        FrameworkEvidenceTarget::Source { range } => {
            let mut target = text::join_text("source:", range.source_unit.as_str());
            target.append(":");
            target.append(text::decimal(range.bytes.start).as_str());
            target.append(":");
            target.append(text::decimal(range.bytes.end).as_str());
            target
        },
    };
    let mut key = text::join_text(evidence.code.as_str(), "|");
    key.append(target.as_str());
    key.append("|");
    key.append(evidence.provenance.backend.as_str());
    key.append("|");
    key.append(evidence.provenance.backend_version.as_str());
    key.append("|");
    key.append(evidence.provenance.analysis_options.as_str());
    key
}

impl Ranked for FrameworkEvidence {
    open spec fn ranks_before(&self, other: &Self) -> bool {
        text::text_lt(key_of_evidence(*self), key_of_evidence(*other))
    }

    proof fn lemma_rank_asymmetric(a: &Self, b: &Self) {
        text::lemma_text_lt_asymmetric(key_of_evidence(*a), key_of_evidence(*b));
    }

    proof fn lemma_rank_negatively_transitive(a: &Self, b: &Self, c: &Self) {
        text::lemma_text_lt_negatively_transitive(
            key_of_evidence(*a),
            key_of_evidence(*b),
            key_of_evidence(*c),
        );
    }

    fn is_before(&self, other: &Self) -> (result: bool) {
        text::text_before(evidence_key(self).as_str(), evidence_key(other).as_str())
    }
}

/// Whether an item of a list has a key.
pub open spec fn has_key(evidence: Seq<FrameworkEvidence>, key: Seq<char>) -> bool {
    exists|i: int| 0 <= i < evidence.len() && key_of_evidence(#[trigger] evidence[i]) == key
}

/// A list of evidence with the first item of each key kept.
pub open spec fn distinct_evidence(evidence: Seq<FrameworkEvidence>) -> Seq<FrameworkEvidence>
    decreases evidence.len(),
{
    if evidence.len() == 0 {
        evidence
    } else {
        let rest = distinct_evidence(evidence.drop_last());
        if has_key(evidence.drop_last(), key_of_evidence(evidence.last())) {
            rest
        } else {
            rest.push(evidence.last())
        }
    }
}

/// A list of evidence in its canonical form: sorted by key, each key once.
pub open spec fn normal_evidence(evidence: Seq<FrameworkEvidence>) -> Seq<FrameworkEvidence> {
    distinct_evidence(ordering::stable_sorted(evidence))
}

/// The problem of the first piece of evidence whose code is invalid.
pub open spec fn evidence_problem(evidence: Seq<FrameworkEvidence>) -> Option<
    FrameworkQueryResultErrorView,
> {
    ordering::first_problem(
        Seq::new(evidence.len(), |i: int| code_problem(evidence[i].code@)),
    )
}

/// Checks the codes of a list of evidence and puts it in its canonical form.
pub fn normalize_evidence(evidence: &[FrameworkEvidence]) -> (result: Result<
    Vec<FrameworkEvidence>,
    FrameworkQueryResultError,
>)
    ensures
        match evidence_problem(evidence@) {
            Some(problem) => result is Err && result->Err_0@ == problem,
            None => result is Ok && result->Ok_0@ == normal_evidence(evidence@),
        },
{
    let ghost findings = Seq::new(evidence@.len(), |i: int| code_problem(evidence@[i].code@));
    let mut copied: Vec<FrameworkEvidence> = Vec::new();
    let mut i: usize = 0;
    while i < evidence.len()
        invariant
            findings == Seq::new(evidence@.len(), |j: int| code_problem(evidence@[j].code@)),
            i <= evidence@.len(),
            forall|j: int| 0 <= j < i ==> (#[trigger] findings[j]) is None,
            copied@ == evidence@.take(i as int),
        decreases evidence@.len() - i,
    {
        match validate_code(evidence[i].code.as_str()) {
            Ok(()) => {},
            Err(error) => {
                proof {
                    ordering::lemma_first_problem(findings, i as int);
                }
                return Err(error);
            },
        }
        copied.push(evidence[i].clone());
        i = i + 1;
        assert(copied@ =~= evidence@.take(i as int));
    }
    proof {
        ordering::lemma_first_problem(findings, i as int);
        assert(evidence@.take(i as int) =~= evidence@);
    }
    let sorted = stable_sort(copied);
    let mut seen: OrderedMap<bool> = OrderedMap::new();
    let mut kept: Vec<FrameworkEvidence> = Vec::new();
    let mut k: usize = 0;
    while k < sorted.len()
        invariant
            seen.wf(),
            k <= sorted@.len(),
            forall|key: Seq<char>|
                seen@.dom().contains(key) <==> #[trigger] has_key(sorted@.take(k as int), key),
            kept@ == distinct_evidence(sorted@.take(k as int)),
        decreases sorted@.len() - k,
    {
        let key = evidence_key(&sorted[k]);
        let ghost before = sorted@.take(k as int);
        let ghost after = sorted@.take(k + 1);
        let ghost key_text = key@;
        proof {
            assert(after.drop_last() =~= before);
            assert(after.last() == sorted@[k as int]);
            assert(has_key(before, key_text) || !has_key(before, key_text));
        }
        if !seen.contains_key(key.as_str()) {
            kept.push(sorted[k].clone());
        }
        let ghost domain = seen@.dom();
        seen.insert(key, true);
        k = k + 1;
        proof {
            assert forall|other: Seq<char>|
                seen@.dom().contains(other) <==> #[trigger] has_key(sorted@.take(k as int), other) by {
                if has_key(after, other) {
                    let m = choose|m: int|
                        0 <= m < after.len() && key_of_evidence(#[trigger] after[m]) == other;
                    if m < before.len() {
                        assert(before[m] == after[m]);
                        assert(has_key(before, other));
                    } else {
                        assert(other == key_text);
                    }
                }
                if has_key(before, other) {
                    let m = choose|m: int|
                        0 <= m < before.len() && key_of_evidence(#[trigger] before[m]) == other;
                    assert(after[m] == before[m]);
                }
                if other == key_text {
                    assert(key_of_evidence(after[k - 1]) == other);
                }
            }
        }
    }
    assert(sorted@.take(k as int) =~= sorted@);
    Ok(kept)
}

/// A text that orders optional texts: none before any.
pub open spec fn option_rank(value: Option<String>) -> Seq<char> {
    match value {
        None => Seq::empty(),
        Some(value) => seq!['='] + value@,
    }
}

/// Whether an optional text is before another, none before any.
pub fn option_before(a: &Option<String>, b: &Option<String>) -> (result: bool)
    ensures
        result == text::text_lt(option_rank(*a), option_rank(*b)),
{
    match (a, b) {
        (_, None) => false,
        (None, Some(_)) => true,
        (Some(x), Some(y)) => {
            assert(option_rank(*a).drop_first() =~= x@);
            assert(option_rank(*b).drop_first() =~= y@);
            text::text_before(x.as_str(), y.as_str())
        },
    }
}

/// What assumptions are sorted by: their code, then their value.
pub open spec fn assumption_rank(assumption: FrameworkAssumption) -> (Seq<char>, Seq<char>) {
    (assumption.code@, option_rank(assumption.value))
}

/// What boundaries are sorted by: their code, then their message.
pub open spec fn boundary_rank(boundary: FrameworkBoundary) -> (Seq<char>, Seq<char>) {
    (boundary.code@, boundary.message@)
}

impl Ranked for FrameworkAssumption {
    open spec fn ranks_before(&self, other: &Self) -> bool {
        text::pair_lt(assumption_rank(*self), assumption_rank(*other))
    }

    proof fn lemma_rank_asymmetric(a: &Self, b: &Self) {
        text::lemma_pair_lt_asymmetric(assumption_rank(*a), assumption_rank(*b));
    }

    proof fn lemma_rank_negatively_transitive(a: &Self, b: &Self, c: &Self) {
        text::lemma_pair_lt_negatively_transitive(
            assumption_rank(*a),
            assumption_rank(*b),
            assumption_rank(*c),
        );
    }

    fn is_before(&self, other: &Self) -> (result: bool) {
        text::text_before(self.code.as_str(), other.code.as_str()) || self.code == other.code
            && option_before(&self.value, &other.value)
    }
}

impl Ranked for FrameworkBoundary {
    open spec fn ranks_before(&self, other: &Self) -> bool {
        text::pair_lt(boundary_rank(*self), boundary_rank(*other))
    }

    proof fn lemma_rank_asymmetric(a: &Self, b: &Self) {
        text::lemma_pair_lt_asymmetric(boundary_rank(*a), boundary_rank(*b));
    }

    proof fn lemma_rank_negatively_transitive(a: &Self, b: &Self, c: &Self) {
        text::lemma_pair_lt_negatively_transitive(
            boundary_rank(*a),
            boundary_rank(*b),
            boundary_rank(*c),
        );
    }

    fn is_before(&self, other: &Self) -> (result: bool) {
        text::text_before(self.code.as_str(), other.code.as_str()) || self.code == other.code
            && text::text_before(self.message.as_str(), other.message.as_str())
    }
}

impl Ranked for FrameworkCandidate {
    open spec fn ranks_before(&self, other: &Self) -> bool {
        text::text_lt(self.symbol.id@, other.symbol.id@)
    }

    proof fn lemma_rank_asymmetric(a: &Self, b: &Self) {
        text::lemma_text_lt_asymmetric(a.symbol.id@, b.symbol.id@);
    }

    proof fn lemma_rank_negatively_transitive(a: &Self, b: &Self, c: &Self) {
        text::lemma_text_lt_negatively_transitive(a.symbol.id@, b.symbol.id@, c.symbol.id@);
    }

    fn is_before(&self, other: &Self) -> (result: bool) {
        text::text_before(self.symbol.id.as_str(), other.symbol.id.as_str())
    }
}

/// The problem of an assumption: its code, then its evidence.
pub open spec fn assumption_problem(assumption: FrameworkAssumption) -> Option<
    FrameworkQueryResultErrorView,
> {
    match code_problem(assumption.code@) {
        Some(problem) => Some(problem),
        None => evidence_problem(assumption.evidence@),
    }
}

/// The problem of a boundary: its code, then its evidence.
pub open spec fn boundary_problem(boundary: FrameworkBoundary) -> Option<
    FrameworkQueryResultErrorView,
> {
    match code_problem(boundary.code@) {
        Some(problem) => Some(problem),
        None => evidence_problem(boundary.evidence@),
    }
}

/// The problem of the first assumption that has one.
pub open spec fn assumptions_problem(assumptions: Seq<FrameworkAssumption>) -> Option<
    FrameworkQueryResultErrorView,
> {
    ordering::first_problem(
        Seq::new(assumptions.len(), |i: int| assumption_problem(assumptions[i])),
    )
}

/// The problem of the first reason that is no code.
pub open spec fn reasons_problem(reasons: Seq<String>) -> Option<FrameworkQueryResultErrorView> {
    ordering::first_problem(Seq::new(reasons.len(), |i: int| code_problem(reasons[i]@)))
}

/// The problem of a candidate: its reasons, its evidence, its assumptions.
pub open spec fn candidate_problem(candidate: FrameworkCandidate) -> Option<
    FrameworkQueryResultErrorView,
> {
    if candidate.reasons@.len() == 0 {
        Some(FrameworkQueryResultErrorView::MissingReasons(candidate.symbol.id@))
    } else if reasons_problem(candidate.reasons@) is Some {
        reasons_problem(candidate.reasons@)
    } else if candidate.evidence@.len() == 0 {
        Some(FrameworkQueryResultErrorView::MissingEvidence(candidate.symbol.id@))
    } else if evidence_problem(candidate.evidence@) is Some {
        evidence_problem(candidate.evidence@)
    } else {
        assumptions_problem(candidate.assumptions@)
    }
}

/// Whether an assumption is another with its evidence in canonical form.
pub open spec fn normal_assumption(
    before: FrameworkAssumption,
    after: FrameworkAssumption,
) -> bool {
    &&& after.code == before.code
    &&& after.value == before.value
    &&& after.evidence@ == normal_evidence(before.evidence@)
}

/// Whether a boundary is another with its evidence in canonical form.
pub open spec fn normal_boundary(before: FrameworkBoundary, after: FrameworkBoundary) -> bool {
    &&& after.code == before.code
    &&& after.message == before.message
    &&& after.evidence@ == normal_evidence(before.evidence@)
}

/// Whether assumptions are the given ones in canonical form, one by one.
pub open spec fn normal_each_assumption(
    before: Seq<FrameworkAssumption>,
    after: Seq<FrameworkAssumption>,
) -> bool {
    &&& after.len() == before.len()
    &&& forall|i: int|
        0 <= i < before.len() ==> normal_assumption(#[trigger] before[i], after[i])
}

/// Whether boundaries are the given ones in canonical form, one by one.
pub open spec fn normal_each_boundary(
    before: Seq<FrameworkBoundary>,
    after: Seq<FrameworkBoundary>,
) -> bool {
    &&& after.len() == before.len()
    &&& forall|i: int| 0 <= i < before.len() ==> normal_boundary(#[trigger] before[i], after[i])
}

/// Whether assumptions are the given ones in canonical form, sorted.
pub open spec fn normal_assumptions(
    before: Seq<FrameworkAssumption>,
    after: Seq<FrameworkAssumption>,
) -> bool {
    exists|each: Seq<FrameworkAssumption>| #[trigger]
        normal_each_assumption(before, each) && after == ordering::stable_sorted(each)
}

/// Whether boundaries are the given ones in canonical form, sorted.
pub open spec fn normal_boundaries(
    before: Seq<FrameworkBoundary>,
    after: Seq<FrameworkBoundary>,
) -> bool {
    exists|each: Seq<FrameworkBoundary>| #[trigger]
        normal_each_boundary(before, each) && after == ordering::stable_sorted(each)
}

/// Whether a candidate is another in canonical form: each reason once and in
/// ascending order, evidence and assumptions canonical and sorted.
pub open spec fn normal_candidate(before: FrameworkCandidate, after: FrameworkCandidate) -> bool {
    &&& after.symbol@ == before.symbol@
    &&& after.disposition == before.disposition
    &&& text::texts(after.reasons@) == ordering::sorted_texts(text::texts(before.reasons@).to_set())
    &&& after.evidence@ == normal_evidence(before.evidence@)
    &&& normal_assumptions(before.assumptions@, after.assumptions@)
}

/// Whether candidates are the given ones in canonical form, one by one.
pub open spec fn normal_each_candidate(
    before: Seq<FrameworkCandidate>,
    after: Seq<FrameworkCandidate>,
) -> bool {
    &&& after.len() == before.len()
    &&& forall|i: int| 0 <= i < before.len() ==> normal_candidate(#[trigger] before[i], after[i])
}

/// Whether candidates are the given ones in canonical form, sorted.
pub open spec fn normal_candidates(
    before: Seq<FrameworkCandidate>,
    after: Seq<FrameworkCandidate>,
) -> bool {
    exists|each: Seq<FrameworkCandidate>| #[trigger]
        normal_each_candidate(before, each) && after == ordering::stable_sorted(each)
}

fn normalize_assumptions(assumptions: &[FrameworkAssumption]) -> (result: Result<
    Vec<FrameworkAssumption>,
    FrameworkQueryResultError,
>)
    ensures
        match assumptions_problem(assumptions@) {
            Some(problem) => result is Err && result->Err_0@ == problem,
            None => result is Ok && normal_assumptions(assumptions@, result->Ok_0@),
        },
{
    let ghost findings = Seq::new(
        assumptions@.len(),
        |i: int| assumption_problem(assumptions@[i]),
    );
    let mut each: Vec<FrameworkAssumption> = Vec::new();
    let mut i: usize = 0;
    while i < assumptions.len()
        invariant
            findings == Seq::new(
                assumptions@.len(),
                |j: int| assumption_problem(assumptions@[j]),
            ),
            i <= assumptions@.len(),
            forall|j: int| 0 <= j < i ==> (#[trigger] findings[j]) is None,
            each@.len() == i,
            forall|j: int| 0 <= j < i ==> normal_assumption(#[trigger] assumptions@[j], each@[j]),
        decreases assumptions@.len() - i,
    {
        let assumption = &assumptions[i];
        match validate_code(assumption.code.as_str()) {
            Ok(()) => {},
            Err(error) => {
                proof {
                    ordering::lemma_first_problem(findings, i as int);
                }
                return Err(error);
            },
        }
        match normalize_evidence(assumption.evidence.as_slice()) {
            Ok(evidence) => {
                each.push(
                    FrameworkAssumption {
                        code: assumption.code.clone(),
                        value: assumption.value.clone(),
                        evidence,
                    },
                );
            },
            Err(error) => {
                proof {
                    ordering::lemma_first_problem(findings, i as int);
                }
                return Err(error);
            },
        }
        i = i + 1;
    }
    proof {
        ordering::lemma_first_problem(findings, i as int);
        assert(normal_each_assumption(assumptions@, each@));
    }
    Ok(stable_sort(each))
}

fn normalize_boundaries(boundaries: &[FrameworkBoundary]) -> (result: Result<
    Vec<FrameworkBoundary>,
    FrameworkQueryResultError,
>)
    ensures
        match boundaries_problem(boundaries@) {
            Some(problem) => result is Err && result->Err_0@ == problem,
            None => result is Ok && normal_boundaries(boundaries@, result->Ok_0@)
                && result->Ok_0@.len() == boundaries@.len(),
        },
{
    let ghost findings = Seq::new(boundaries@.len(), |i: int| boundary_problem(boundaries@[i]));
    let mut each: Vec<FrameworkBoundary> = Vec::new();
    let mut i: usize = 0;
    while i < boundaries.len()
        invariant
            findings == Seq::new(boundaries@.len(), |j: int| boundary_problem(boundaries@[j])),
            i <= boundaries@.len(),
            forall|j: int| 0 <= j < i ==> (#[trigger] findings[j]) is None,
            each@.len() == i,
            forall|j: int| 0 <= j < i ==> normal_boundary(#[trigger] boundaries@[j], each@[j]),
        decreases boundaries@.len() - i,
    {
        let boundary = &boundaries[i];
        match validate_code(boundary.code.as_str()) {
            Ok(()) => {},
            Err(error) => {
                proof {
                    ordering::lemma_first_problem(findings, i as int);
                }
                return Err(error);
            },
        }
        match normalize_evidence(boundary.evidence.as_slice()) {
            Ok(evidence) => {
                each.push(
                    FrameworkBoundary {
                        code: boundary.code.clone(),
                        message: boundary.message.clone(),
                        evidence,
                    },
                );
            },
            Err(error) => {
                proof {
                    ordering::lemma_first_problem(findings, i as int);
                }
                return Err(error);
            },
        }
        i = i + 1;
    }
    proof {
        ordering::lemma_first_problem(findings, i as int);
        assert(normal_each_boundary(boundaries@, each@));
        ordering::lemma_stable_sorted_in_order(each@);
    }
    Ok(stable_sort(each))
}

/// The texts of a list, each once, in ascending order.
pub fn sorted_reasons(reasons: &[String]) -> (result: Vec<String>)
    ensures
        text::texts(result@) == ordering::sorted_texts(text::texts(reasons@).to_set()),
{
    let mut found: OrderedMap<bool> = OrderedMap::new();
    assert(found@.dom() =~= text::texts(reasons@.take(0)).to_set());
    let mut i: usize = 0;
    while i < reasons.len()
        invariant
            found.wf(),
            i <= reasons@.len(),
            found@.dom() == text::texts(reasons@.take(i as int)).to_set(),
        decreases reasons@.len() - i,
    {
        found.insert(reasons[i].clone(), true);
        proof {
            let before = text::texts(reasons@.take(i as int));
            let after = text::texts(reasons@.take(i + 1));
            assert(after =~= before.push(reasons@[i as int]@));
            assert(after.to_set() =~= before.to_set().insert(reasons@[i as int]@)) by {
                assert forall|t: Seq<char>| after.contains(t) implies before.to_set().insert(
                    reasons@[i as int]@,
                ).contains(t) by {
                    let k = after.index_of(t);
                    if k < before.len() {
                        assert(before[k] == t);
                    }
                }
                assert forall|t: Seq<char>| before.contains(t) implies after.contains(t) by {
                    let k = before.index_of(t);
                    assert(after[k] == t);
                }
                assert(after[before.len() as int] == reasons@[i as int]@);
            }
        }
        i = i + 1;
    }
    assert(reasons@.take(i as int) =~= reasons@);
    proof {
        found.lemma_order();
    }
    let mut result: Vec<String> = Vec::new();
    let mut k: usize = 0;
    while k < found.len()
        invariant
            found.wf(),
            k <= found.order().len(),
            result@.len() == k,
            forall|j: int| 0 <= j < k ==> (#[trigger] result@[j])@ == found.order()[j],
        decreases found.order().len() - k,
    {
        result.push(found.key_at(k).clone());
        k = k + 1;
    }
    assert(text::texts(result@) =~= found.order());
    result
}

/// Checks a candidate and puts it in its canonical form.
pub fn normalize_candidate(candidate: &FrameworkCandidate) -> (result: Result<
    FrameworkCandidate,
    FrameworkQueryResultError,
>)
    ensures
        match candidate_problem(*candidate) {
            Some(problem) => result is Err && result->Err_0@ == problem,
            None => result is Ok && normal_candidate(*candidate, result->Ok_0),
        },
{
    if candidate.reasons.len() == 0 {
        return Err(
            FrameworkQueryResultError::MissingReasons(candidate.symbol.id.as_str().to_owned()),
        );
    }
    let reasons = candidate.reasons.as_slice();
    let ghost findings = Seq::new(reasons@.len(), |i: int| code_problem(reasons@[i]@));
    let mut i: usize = 0;
    while i < reasons.len()
        invariant
            reasons@ == candidate.reasons@,
            reasons@.len() > 0,
            findings == Seq::new(reasons@.len(), |j: int| code_problem(reasons@[j]@)),
            i <= reasons@.len(),
            forall|j: int| 0 <= j < i ==> (#[trigger] findings[j]) is None,
        decreases reasons@.len() - i,
    {
        match validate_code(reasons[i].as_str()) {
            Ok(()) => {},
            Err(error) => {
                proof {
                    ordering::lemma_first_problem(findings, i as int);
                }
                return Err(error);
            },
        }
        i = i + 1;
    }
    proof {
        ordering::lemma_first_problem(findings, i as int);
    }
    if candidate.evidence.len() == 0 {
        return Err(
            FrameworkQueryResultError::MissingEvidence(candidate.symbol.id.as_str().to_owned()),
        );
    }
    let evidence = match normalize_evidence(candidate.evidence.as_slice()) {
        Ok(evidence) => evidence,
        Err(error) => {
            return Err(error);
        },
    };
    let assumptions = match normalize_assumptions(candidate.assumptions.as_slice()) {
        Ok(assumptions) => assumptions,
        Err(error) => {
            return Err(error);
        },
    };
    Ok(
        FrameworkCandidate {
            symbol: candidate.symbol.clone(),
            disposition: candidate.disposition,
            reasons: sorted_reasons(reasons),
            evidence,
            assumptions,
        },
    )
}

/// The problem of the first candidate that has one.
pub open spec fn candidates_problem(candidates: Seq<FrameworkCandidate>) -> Option<
    FrameworkQueryResultErrorView,
> {
    ordering::first_problem(
        Seq::new(candidates.len(), |i: int| candidate_problem(candidates[i])),
    )
}

/// The problem of the first boundary that has one.
pub open spec fn boundaries_problem(boundaries: Seq<FrameworkBoundary>) -> Option<
    FrameworkQueryResultErrorView,
> {
    ordering::first_problem(Seq::new(boundaries.len(), |i: int| boundary_problem(boundaries[i])))
}

/// The symbol ids of a list of candidates.
pub open spec fn candidate_ids(candidates: Seq<FrameworkCandidate>) -> Seq<Seq<char>> {
    Seq::new(candidates.len(), |i: int| candidates[i].symbol.id@)
}

/// The first text of a list that the text after it repeats.
pub open spec fn first_repeated(ids: Seq<Seq<char>>) -> Option<Seq<char>>
    decreases ids.len(),
{
    if ids.len() < 2 {
        None
    } else if ids[0] == ids[1] {
        Some(ids[0])
    } else {
        first_repeated(ids.drop_first())
    }
}

/// The problem of two candidates for one symbol; of several, the least symbol.
pub open spec fn duplicate_problem(candidates: Seq<FrameworkCandidate>) -> Option<
    FrameworkQueryResultErrorView,
> {
    match first_repeated(candidate_ids(ordering::stable_sorted(candidates))) {
        Some(id) => Some(FrameworkQueryResultErrorView::DuplicateCandidate(id)),
        None => None,
    }
}

/// Whether a candidate was left unresolved.
pub open spec fn has_unresolved(candidates: Seq<FrameworkCandidate>) -> bool {
    exists|i: int|
        0 <= i < candidates.len() && (#[trigger] candidates[i]).disposition
            == CandidateDisposition::Unresolved
}

/// The problem of a state that what it claims does not bear out.
pub open spec fn state_problem(result: FrameworkQueryResult) -> Option<
    FrameworkQueryResultErrorView,
> {
    match result.state {
        FrameworkQueryState::Complete => if result.boundaries@.len() > 0 || has_unresolved(
            result.candidates@,
        ) {
            Some(FrameworkQueryResultErrorView::InvalidCompleteState)
        } else {
            None
        },
        FrameworkQueryState::Partial => if result.boundaries@.len() == 0 {
            Some(FrameworkQueryResultErrorView::MissingPartialBoundary)
        } else {
            None
        },
        FrameworkQueryState::Unsupported => if result.boundaries@.len() == 0
            || result.candidates@.len() > 0 {
            Some(FrameworkQueryResultErrorView::InvalidUnsupportedState)
        } else {
            None
        },
    }
}

/// The problem of a result: its candidates, then two for one symbol, then its
/// boundaries, then its state.
pub open spec fn result_problem(result: FrameworkQueryResult) -> Option<
    FrameworkQueryResultErrorView,
> {
    if candidates_problem(result.candidates@) is Some {
        candidates_problem(result.candidates@)
    } else if duplicate_problem(result.candidates@) is Some {
        duplicate_problem(result.candidates@)
    } else if boundaries_problem(result.boundaries@) is Some {
        boundaries_problem(result.boundaries@)
    } else {
        state_problem(result)
    }
}

/// Whether a result is another in canonical form.
pub open spec fn normal_result(before: FrameworkQueryResult, after: FrameworkQueryResult) -> bool {
    &&& after.state == before.state
    &&& normal_candidates(before.candidates@, after.candidates@)
    &&& normal_boundaries(before.boundaries@, after.boundaries@)
}

proof fn lemma_same_insertion(
    a: Seq<FrameworkCandidate>,
    b: Seq<FrameworkCandidate>,
    x: FrameworkCandidate,
    y: FrameworkCandidate,
)
    requires
        candidate_ids(a) == candidate_ids(b),
        x.symbol.id@ == y.symbol.id@,
    ensures
        ordering::insertion_point(a, x) == ordering::insertion_point(b, y),
    decreases a.len(),
{
    assert(candidate_ids(a).len() == a.len() && candidate_ids(b).len() == b.len());
    if a.len() > 0 {
        assert(candidate_ids(a)[0] == candidate_ids(b)[0]);
        assert(candidate_ids(a.drop_first()) =~= candidate_ids(a).drop_first());
        assert(candidate_ids(b.drop_first()) =~= candidate_ids(b).drop_first());
        lemma_same_insertion(a.drop_first(), b.drop_first(), x, y);
    }
}

/// Candidates for the same symbols in the same order are sorted in the same
/// way.
proof fn lemma_same_sorted_ids(a: Seq<FrameworkCandidate>, b: Seq<FrameworkCandidate>)
    requires
        candidate_ids(a) == candidate_ids(b),
    ensures
        candidate_ids(ordering::stable_sorted(a)) == candidate_ids(ordering::stable_sorted(b)),
    decreases a.len(),
{
    assert(candidate_ids(a).len() == a.len() && candidate_ids(b).len() == b.len());
    if a.len() > 0 {
        let s = a.drop_first();
        let t = b.drop_first();
        assert(candidate_ids(s) =~= candidate_ids(a).drop_first());
        assert(candidate_ids(t) =~= candidate_ids(b).drop_first());
        lemma_same_sorted_ids(s, t);
        let u = ordering::stable_sorted(s);
        let v = ordering::stable_sorted(t);
        assert(candidate_ids(a)[0] == candidate_ids(b)[0]);
        lemma_same_insertion(u, v, a[0], b[0]);
        ordering::lemma_insertion_point_bounds(u, a[0]);
        ordering::lemma_insertion_point_bounds(v, b[0]);
        let p = ordering::insertion_point(u, a[0]);
        assert(candidate_ids(u).len() == u.len() && candidate_ids(v).len() == v.len());
        assert(candidate_ids(u.insert(p, a[0])) =~= candidate_ids(u).insert(p, a[0].symbol.id@));
        assert(candidate_ids(v.insert(p, b[0])) =~= candidate_ids(v).insert(p, b[0].symbol.id@));
    }
}

proof fn lemma_first_repeated(ids: Seq<Seq<char>>, n: int)
    requires
        0 <= n,
        n < ids.len() || n == 0,
        forall|i: int| 0 <= i < n ==> !#[trigger] repeats_at(ids, i),
        n + 1 < ids.len() ==> repeats_at(ids, n),
    ensures
        first_repeated(ids) == (if n + 1 < ids.len() {
            Some(ids[n])
        } else {
            None
        }),
    decreases n,
{
    if n > 0 {
        assert(!repeats_at(ids, 0));
        let rest = ids.drop_first();
        assert forall|i: int| 0 <= i < n - 1 implies !#[trigger] repeats_at(rest, i) by {
            assert(!repeats_at(ids, i + 1));
        }
        assert(n + 1 < ids.len() ==> repeats_at(rest, n - 1));
        lemma_first_repeated(rest, n - 1);
    }
}

/// Whether the text after `i` repeats the one at `i`.
pub open spec fn repeats_at(ids: Seq<Seq<char>>, i: int) -> bool {
    ids[i] == ids[i + 1]
}

fn find_duplicate(candidates: &[FrameworkCandidate]) -> (result: Option<usize>)
    ensures
        match result {
            Some(position) => position < candidates@.len() && first_repeated(
                candidate_ids(candidates@),
            ) == Some(candidates@[position as int].symbol.id@),
            None => first_repeated(candidate_ids(candidates@)) is None,
        },
{
    let len: usize = candidates.len();
    let ghost ids = candidate_ids(candidates@);
    if len < 2 {
        return None;
    }
    let mut i: usize = 0;
    while i < len - 1
        invariant
            len == candidates@.len(),
            len >= 2,
            ids == candidate_ids(candidates@),
            i <= len - 1,
            forall|j: int| 0 <= j < i ==> !#[trigger] repeats_at(ids, j),
        decreases len - i,
    {
        if candidates[i].symbol.id.same(&candidates[i + 1].symbol.id) {
            proof {
                assert(repeats_at(ids, i as int));
                lemma_first_repeated(ids, i as int);
            }
            return Some(i);
        }
        assert(!repeats_at(ids, i as int));
        i = i + 1;
    }
    proof {
        lemma_first_repeated(ids, i as int);
    }
    None
}

fn is_any_unresolved(candidates: &[FrameworkCandidate]) -> (result: bool)
    ensures
        result == has_unresolved(candidates@),
{
    let mut i: usize = 0;
    while i < candidates.len()
        invariant
            i <= candidates@.len(),
            forall|j: int|
                0 <= j < i ==> (#[trigger] candidates@[j]).disposition
                    != CandidateDisposition::Unresolved,
        decreases candidates@.len() - i,
    {
        if candidates[i].disposition == CandidateDisposition::Unresolved {
            assert(candidates@[i as int].disposition == CandidateDisposition::Unresolved);
            return true;
        }
        i = i + 1;
    }
    false
}

impl FrameworkQueryResult {
    /// Checks the contract of a result and puts every repeated field in its
    /// canonical form, so that equivalent results are listed alike.
    pub fn normalize(self) -> (result: Result<Self, FrameworkQueryResultError>)
        ensures
            match result_problem(self) {
                Some(problem) => result is Err && result->Err_0@ == problem,
                None => result is Ok && normal_result(self, result->Ok_0),
            },
    {
        let ghost findings = Seq::new(
            self.candidates@.len(),
            |i: int| candidate_problem(self.candidates@[i]),
        );
        let mut each: Vec<FrameworkCandidate> = Vec::new();
        let mut i: usize = 0;
        while i < self.candidates.len()
            invariant
                findings == Seq::new(
                    self.candidates@.len(),
                    |j: int| candidate_problem(self.candidates@[j]),
                ),
                i <= self.candidates@.len(),
                forall|j: int| 0 <= j < i ==> (#[trigger] findings[j]) is None,
                each@.len() == i,
                forall|j: int|
                    0 <= j < i ==> normal_candidate(#[trigger] self.candidates@[j], each@[j]),
            decreases self.candidates@.len() - i,
        {
            match normalize_candidate(&self.candidates[i]) {
                Ok(candidate) => {
                    each.push(candidate);
                },
                Err(error) => {
                    proof {
                        ordering::lemma_first_problem(findings, i as int);
                    }
                    return Err(error);
                },
            }
            i = i + 1;
        }
        proof {
            ordering::lemma_first_problem(findings, i as int);
            assert(normal_each_candidate(self.candidates@, each@));
            assert forall|j: int| 0 <= j < i implies candidate_ids(self.candidates@)[j]
                == candidate_ids(each@)[j] by {
                assert(normal_candidate(self.candidates@[j], each@[j]));
            }
            assert(candidate_ids(self.candidates@) =~= candidate_ids(each@));
            lemma_same_sorted_ids(self.candidates@, each@);
            ordering::lemma_stable_sorted_in_order(each@);
        }
        let candidates = stable_sort(each);
        if let Some(position) = find_duplicate(candidates.as_slice()) {
            return Err(
                FrameworkQueryResultError::DuplicateCandidate(
                    candidates[position].symbol.id.as_str().to_owned(),
                ),
            );
        }
        let boundaries = match normalize_boundaries(self.boundaries.as_slice()) {
            Ok(boundaries) => boundaries,
            Err(error) => {
                return Err(error);
            },
        };
        match self.state {
            FrameworkQueryState::Complete => {
                if boundaries.len() > 0 || is_any_unresolved(self.candidates.as_slice()) {
                    return Err(FrameworkQueryResultError::InvalidCompleteState);
                }
            },
            FrameworkQueryState::Partial => {
                if boundaries.len() == 0 {
                    return Err(FrameworkQueryResultError::MissingPartialBoundary);
                }
            },
            FrameworkQueryState::Unsupported => {
                if boundaries.len() == 0 || candidates.len() > 0 {
                    return Err(FrameworkQueryResultError::InvalidUnsupportedState);
                }
            },
        }
        Ok(FrameworkQueryResult { state: self.state, candidates, boundaries })
    }
}

/// Keeping the first item of each key keeps a list in order and its keys, and
/// leaves every key once.
proof fn lemma_distinct_evidence(s: Seq<FrameworkEvidence>)
    ensures
        forall|x: FrameworkEvidence| #[trigger] distinct_evidence(s).contains(x) ==> s.contains(x),
        forall|key: Seq<char>| #[trigger] has_key(distinct_evidence(s), key) == has_key(s, key),
        forall|i: int, j: int|
            #![trigger distinct_evidence(s)[i], distinct_evidence(s)[j]]
            0 <= i < j < distinct_evidence(s).len() ==> key_of_evidence(distinct_evidence(s)[i])
                != key_of_evidence(distinct_evidence(s)[j]),
        ordering::in_order(s) ==> ordering::in_order(distinct_evidence(s)),
    decreases s.len(),
{
    if s.len() > 0 {
        let t = s.drop_last();
        let x = s.last();
        let d = distinct_evidence(t);
        let e = distinct_evidence(s);
        lemma_distinct_evidence(t);
        assert forall|y: FrameworkEvidence| #[trigger] e.contains(y) implies s.contains(y) by {
            let k = e.index_of(y);
            if k < d.len() {
                assert(d[k] == y);
                assert(d.contains(y));
                let m = t.index_of(y);
                assert(s[m] == y);
            } else {
                assert(s[s.len() - 1] == y);
            }
        }
        assert forall|key: Seq<char>| #[trigger] has_key(e, key) == has_key(s, key) by {
            assert(has_key(d, key) == has_key(t, key));
            if has_key(s, key) {
                let m = choose|m: int| 0 <= m < s.len() && key_of_evidence(#[trigger] s[m]) == key;
                if m < t.len() {
                    assert(t[m] == s[m]);
                    assert(has_key(d, key));
                    let k = choose|k: int|
                        0 <= k < d.len() && key_of_evidence(#[trigger] d[k]) == key;
                    assert(e[k] == d[k]);
                } else if has_key(t, key) {
                    let k = choose|k: int|
                        0 <= k < d.len() && key_of_evidence(#[trigger] d[k]) == key;
                    assert(e[k] == d[k]);
                } else {
                    assert(e[d.len() as int] == x);
                }
            }
            if has_key(e, key) {
                let k = choose|k: int| 0 <= k < e.len() && key_of_evidence(#[trigger] e[k]) == key;
                if k < d.len() {
                    assert(d[k] == e[k]);
                    assert(has_key(t, key));
                    let m = choose|m: int|
                        0 <= m < t.len() && key_of_evidence(#[trigger] t[m]) == key;
                    assert(s[m] == t[m]);
                } else {
                    assert(s[s.len() - 1] == e[k]);
                }
            }
        }
        assert forall|i: int, j: int|
            #![trigger e[i], e[j]]
            0 <= i < j < e.len() implies key_of_evidence(e[i]) != key_of_evidence(e[j]) by {
            assert(e[i] == d[i]);
            if j < d.len() {
                assert(e[j] == d[j]);
            } else {
                assert(has_key(d, key_of_evidence(d[i])));
                assert(has_key(t, key_of_evidence(d[i])));
            }
        }
        if ordering::in_order(s) {
            assert forall|i: int, j: int|
                #![trigger t[i], t[j]]
                0 <= i < j < t.len() implies !t[j].ranks_before(&t[i]) by {
                assert(t[i] == s[i] && t[j] == s[j]);
            }
            assert forall|i: int, j: int|
                #![trigger e[i], e[j]]
                0 <= i < j < e.len() implies !e[j].ranks_before(&e[i]) by {
                assert(e[i] == d[i]);
                if j < d.len() {
                    assert(e[j] == d[j]);
                } else {
                    assert(d.contains(d[i]));
                    let m = t.index_of(d[i]);
                    assert(s[m] == d[i] && s[s.len() - 1] == e[j]);
                }
            }
        }
    }
}

proof fn lemma_distinct_fixed(s: Seq<FrameworkEvidence>)
    requires
        forall|i: int, j: int|
            #![trigger s[i], s[j]]
            0 <= i < j < s.len() ==> key_of_evidence(s[i]) != key_of_evidence(s[j]),
    ensures
        distinct_evidence(s) == s,
    decreases s.len(),
{
    if s.len() > 0 {
        let t = s.drop_last();
        assert forall|i: int, j: int|
            #![trigger t[i], t[j]]
            0 <= i < j < t.len() implies key_of_evidence(t[i]) != key_of_evidence(t[j]) by {
            assert(t[i] == s[i] && t[j] == s[j]);
        }
        lemma_distinct_fixed(t);
        if has_key(t, key_of_evidence(s.last())) {
            let m = choose|m: int|
                0 <= m < t.len() && key_of_evidence(#[trigger] t[m]) == key_of_evidence(s.last());
            assert(s[m] == t[m] && s[s.len() - 1] == s.last());
        }
        assert(t.push(s.last()) =~= s);
    }
}

/// The canonical form of evidence is its own canonical form, and its codes are
/// codes of the evidence.
proof fn lemma_normal_evidence(evidence: Seq<FrameworkEvidence>)
    ensures
        normal_evidence(normal_evidence(evidence)) == normal_evidence(evidence),
        forall|x: FrameworkEvidence| #[trigger]
            normal_evidence(evidence).contains(x) ==> evidence.contains(x),
        evidence.len() > 0 ==> normal_evidence(evidence).len() > 0,
{
    let sorted = ordering::stable_sorted(evidence);
    let normal = normal_evidence(evidence);
    ordering::lemma_stable_sorted_in_order(evidence);
    lemma_distinct_evidence(sorted);
    ordering::lemma_stable_sorted_fixed(normal);
    lemma_distinct_fixed(normal);
    assert forall|x: FrameworkEvidence| #[trigger] normal.contains(x) implies evidence.contains(
        x,
    ) by {
        ordering::lemma_stable_sorted_contains(evidence, x);
    }
    if evidence.len() > 0 {
        assert(has_key(sorted, key_of_evidence(sorted[0])));
        assert(has_key(normal, key_of_evidence(sorted[0])));
    }
}

proof fn lemma_evidence_problem(evidence: Seq<FrameworkEvidence>)
    ensures
        evidence_problem(evidence) is None <==> forall|i: int|
            0 <= i < evidence.len() ==> valid_code((#[trigger] evidence[i]).code@),
{
    let findings = Seq::new(evidence.len(), |i: int| code_problem(evidence[i].code@));
    if evidence_problem(evidence) is None {
        ordering::lemma_no_first_problem(findings);
        assert forall|i: int| 0 <= i < evidence.len() implies valid_code(
            (#[trigger] evidence[i]).code@,
        ) by {
            assert(findings[i] is None);
        }
    }
    if forall|i: int| 0 <= i < evidence.len() ==> valid_code((#[trigger] evidence[i]).code@) {
        assert forall|i: int| 0 <= i < findings.len() implies (#[trigger] findings[i]) is None by {
            assert(valid_code(evidence[i].code@));
        }
        ordering::lemma_first_problem(findings, findings.len() as int);
    }
}

/// Evidence without a problem has none in canonical form.
proof fn lemma_normal_evidence_problem(evidence: Seq<FrameworkEvidence>)
    requires
        evidence_problem(evidence) is None,
    ensures
        evidence_problem(normal_evidence(evidence)) is None,
{
    let normal = normal_evidence(evidence);
    lemma_evidence_problem(evidence);
    lemma_evidence_problem(normal);
    lemma_normal_evidence(evidence);
    assert forall|i: int| 0 <= i < normal.len() implies valid_code(
        (#[trigger] normal[i]).code@,
    ) by {
        assert(normal.contains(normal[i]));
        let k = evidence.index_of(normal[i]);
        assert(evidence[k] == normal[i]);
    }
}

/// Whether two assumptions say the same.
pub open spec fn same_assumption(a: FrameworkAssumption, b: FrameworkAssumption) -> bool {
    a.code == b.code && a.value == b.value && a.evidence@ == b.evidence@
}

/// Whether two boundaries say the same.
pub open spec fn same_boundary(a: FrameworkBoundary, b: FrameworkBoundary) -> bool {
    a.code == b.code && a.message == b.message && a.evidence@ == b.evidence@
}

/// Whether two lists of assumptions say the same.
pub open spec fn same_assumptions(
    a: Seq<FrameworkAssumption>,
    b: Seq<FrameworkAssumption>,
) -> bool {
    &&& a.len() == b.len()
    &&& forall|i: int| 0 <= i < a.len() ==> same_assumption(#[trigger] a[i], b[i])
}

/// Whether two candidates say the same.
pub open spec fn same_candidate(a: FrameworkCandidate, b: FrameworkCandidate) -> bool {
    &&& a.symbol@ == b.symbol@
    &&& a.disposition == b.disposition
    &&& text::texts(a.reasons@) == text::texts(b.reasons@)
    &&& a.evidence@ == b.evidence@
    &&& same_assumptions(a.assumptions@, b.assumptions@)
}

/// Whether two results say the same.
pub open spec fn same_result(a: FrameworkQueryResult, b: FrameworkQueryResult) -> bool {
    &&& a.state == b.state
    &&& a.candidates@.len() == b.candidates@.len()
    &&& forall|i: int|
        0 <= i < a.candidates@.len() ==> same_candidate(
            #[trigger] a.candidates@[i],
            b.candidates@[i],
        )
    &&& a.boundaries@.len() == b.boundaries@.len()
    &&& forall|i: int|
        0 <= i < a.boundaries@.len() ==> same_boundary(
            #[trigger] a.boundaries@[i],
            b.boundaries@[i],
        )
}

proof fn lemma_normal_assumptions_twice(
    before: Seq<FrameworkAssumption>,
    once: Seq<FrameworkAssumption>,
    twice: Seq<FrameworkAssumption>,
)
    requires
        normal_assumptions(before, once),
        normal_assumptions(once, twice),
    ensures
        same_assumptions(once, twice),
{
    let first = choose|each: Seq<FrameworkAssumption>| #[trigger]
        normal_each_assumption(before, each) && once == ordering::stable_sorted(each);
    let second = choose|each: Seq<FrameworkAssumption>| #[trigger]
        normal_each_assumption(once, each) && twice == ordering::stable_sorted(each);
    ordering::lemma_stable_sorted_in_order(first);
    assert forall|i: int| 0 <= i < once.len() implies same_assumption(
        #[trigger] once[i],
        second[i],
    ) by {
        ordering::lemma_stable_sorted_contains(first, once[i]);
        assert(once.contains(once[i]));
        let k = first.index_of(once[i]);
        assert(first[k] == once[i]);
        assert(normal_assumption(before[k], first[k]));
        lemma_normal_evidence(before[k].evidence@);
        assert(normal_assumption(once[i], second[i]));
    }
    assert forall|i: int, j: int|
        #![trigger second[i], second[j]]
        0 <= i < j < second.len() implies !second[j].ranks_before(&second[i]) by {
        assert(same_assumption(once[i], second[i]));
        assert(same_assumption(once[j], second[j]));
        assert(!once[j].ranks_before(&once[i]));
    }
    ordering::lemma_stable_sorted_fixed(second);
}

proof fn lemma_normal_boundaries_twice(
    before: Seq<FrameworkBoundary>,
    once: Seq<FrameworkBoundary>,
    twice: Seq<FrameworkBoundary>,
)
    requires
        normal_boundaries(before, once),
        normal_boundaries(once, twice),
    ensures
        once.len() == twice.len(),
        forall|i: int| 0 <= i < once.len() ==> same_boundary(#[trigger] once[i], twice[i]),
{
    let first = choose|each: Seq<FrameworkBoundary>| #[trigger]
        normal_each_boundary(before, each) && once == ordering::stable_sorted(each);
    let second = choose|each: Seq<FrameworkBoundary>| #[trigger]
        normal_each_boundary(once, each) && twice == ordering::stable_sorted(each);
    ordering::lemma_stable_sorted_in_order(first);
    assert forall|i: int| 0 <= i < once.len() implies same_boundary(
        #[trigger] once[i],
        second[i],
    ) by {
        ordering::lemma_stable_sorted_contains(first, once[i]);
        assert(once.contains(once[i]));
        let k = first.index_of(once[i]);
        assert(first[k] == once[i]);
        assert(normal_boundary(before[k], first[k]));
        lemma_normal_evidence(before[k].evidence@);
        assert(normal_boundary(once[i], second[i]));
    }
    assert forall|i: int, j: int|
        #![trigger second[i], second[j]]
        0 <= i < j < second.len() implies !second[j].ranks_before(&second[i]) by {
        assert(same_boundary(once[i], second[i]));
        assert(same_boundary(once[j], second[j]));
        assert(!once[j].ranks_before(&once[i]));
    }
    ordering::lemma_stable_sorted_fixed(second);
}

proof fn lemma_normal_candidate_twice(
    before: FrameworkCandidate,
    once: FrameworkCandidate,
    twice: FrameworkCandidate,
)
    requires
        normal_candidate(before, once),
        normal_candidate(once, twice),
    ensures
        same_candidate(once, twice),
{
    lemma_normal_evidence(before.evidence@);
    lemma_normal_assumptions_twice(before.assumptions@, once.assumptions@, twice.assumptions@);
    let reasons = text::texts(before.reasons@);
    vstd::seq_lib::seq_to_set_is_finite(reasons);
    ordering::lemma_sorted_texts(reasons.to_set());
    ordering::lemma_ascending_is_sorted(text::texts(once.reasons@));
}

/// Normalizing twice is normalizing once: a result in canonical form is its
/// own canonical form.
pub proof fn law_normalize_is_idempotent(
    before: FrameworkQueryResult,
    once: FrameworkQueryResult,
    twice: FrameworkQueryResult,
)
    requires
        normal_result(before, once),
        normal_result(once, twice),
    ensures
        same_result(once, twice),
{
    lemma_normal_boundaries_twice(before.boundaries@, once.boundaries@, twice.boundaries@);
    let first = choose|each: Seq<FrameworkCandidate>| #[trigger]
        normal_each_candidate(before.candidates@, each) && once.candidates@
            == ordering::stable_sorted(each);
    let second = choose|each: Seq<FrameworkCandidate>| #[trigger]
        normal_each_candidate(once.candidates@, each) && twice.candidates@
            == ordering::stable_sorted(each);
    let a = once.candidates@;
    ordering::lemma_stable_sorted_in_order(first);
    assert forall|i: int| 0 <= i < a.len() implies same_candidate(
        #[trigger] a[i],
        second[i],
    ) by {
        ordering::lemma_stable_sorted_contains(first, a[i]);
        assert(a.contains(a[i]));
        let k = first.index_of(a[i]);
        assert(first[k] == a[i]);
        assert(normal_candidate(before.candidates@[k], first[k]));
        assert(normal_candidate(a[i], second[i]));
        lemma_normal_candidate_twice(before.candidates@[k], a[i], second[i]);
    }
    assert forall|i: int, j: int|
        #![trigger second[i], second[j]]
        0 <= i < j < second.len() implies !second[j].ranks_before(&second[i]) by {
        assert(same_candidate(a[i], second[i]));
        assert(same_candidate(a[j], second[j]));
        assert(!a[j].ranks_before(&a[i]));
    }
    ordering::lemma_stable_sorted_fixed(second);
}

proof fn lemma_codes(reasons: Seq<String>)
    ensures
        reasons_problem(reasons) is None <==> forall|i: int|
            0 <= i < reasons.len() ==> valid_code((#[trigger] reasons[i])@),
{
    let findings = Seq::new(reasons.len(), |i: int| code_problem(reasons[i]@));
    if reasons_problem(reasons) is None {
        ordering::lemma_no_first_problem(findings);
        assert forall|i: int| 0 <= i < reasons.len() implies valid_code((#[trigger] reasons[i])@) by {
            assert(findings[i] is None);
        }
    }
    if forall|i: int| 0 <= i < reasons.len() ==> valid_code((#[trigger] reasons[i])@) {
        assert forall|i: int| 0 <= i < findings.len() implies (#[trigger] findings[i]) is None by {
            assert(valid_code(reasons[i]@));
        }
        ordering::lemma_first_problem(findings, findings.len() as int);
    }
}

proof fn lemma_normal_candidate_problem(before: FrameworkCandidate, after: FrameworkCandidate)
    requires
        normal_candidate(before, after),
        candidate_problem(before) is None,
    ensures
        candidate_problem(after) is None,
{
    lemma_normal_evidence(before.evidence@);
    lemma_normal_evidence_problem(before.evidence@);
    let old_reasons = text::texts(before.reasons@);
    let new_reasons = text::texts(after.reasons@);
    vstd::seq_lib::seq_to_set_is_finite(old_reasons);
    ordering::lemma_sorted_texts(old_reasons.to_set());
    lemma_codes(before.reasons@);
    lemma_codes(after.reasons@);
    assert forall|i: int| 0 <= i < after.reasons@.len() implies valid_code(
        (#[trigger] after.reasons@[i])@,
    ) by {
        assert(new_reasons[i] == after.reasons@[i]@);
        assert(new_reasons.to_set().contains(new_reasons[i]));
        let k = old_reasons.index_of(new_reasons[i]);
        assert(before.reasons@[k]@ == new_reasons[i]);
    }
    assert(old_reasons.to_set().contains(old_reasons[0]));
    assert(new_reasons.contains(old_reasons[0]));
    let each = choose|each: Seq<FrameworkAssumption>| #[trigger]
        normal_each_assumption(before.assumptions@, each) && after.assumptions@
            == ordering::stable_sorted(each);
    let a = after.assumptions@;
    let old_findings = Seq::new(
        before.assumptions@.len(),
        |i: int| assumption_problem(before.assumptions@[i]),
    );
    let findings = Seq::new(a.len(), |i: int| assumption_problem(a[i]));
    ordering::lemma_no_first_problem(old_findings);
    assert forall|i: int| 0 <= i < findings.len() implies (#[trigger] findings[i]) is None by {
        ordering::lemma_stable_sorted_contains(each, a[i]);
        assert(a.contains(a[i]));
        let k = each.index_of(a[i]);
        assert(each[k] == a[i]);
        assert(normal_assumption(before.assumptions@[k], each[k]));
        assert(old_findings[k] is None);
        lemma_normal_evidence_problem(before.assumptions@[k].evidence@);
    }
    ordering::lemma_first_problem(findings, findings.len() as int);
}

/// A result that was accepted is accepted again in canonical form.
pub proof fn law_normal_form_is_accepted(before: FrameworkQueryResult, after: FrameworkQueryResult)
    requires
        result_problem(before) is None,
        normal_result(before, after),
    ensures
        result_problem(after) is None,
{
    let each = choose|each: Seq<FrameworkCandidate>| #[trigger]
        normal_each_candidate(before.candidates@, each) && after.candidates@
            == ordering::stable_sorted(each);
    let c = after.candidates@;
    let old_findings = Seq::new(
        before.candidates@.len(),
        |i: int| candidate_problem(before.candidates@[i]),
    );
    let findings = Seq::new(c.len(), |i: int| candidate_problem(c[i]));
    ordering::lemma_no_first_problem(old_findings);
    ordering::lemma_stable_sorted_in_order(each);
    assert forall|i: int| 0 <= i < c.len() implies (#[trigger] findings[i]) is None && (
    c[i].disposition == CandidateDisposition::Unresolved ==> has_unresolved(before.candidates@)) by {
        ordering::lemma_stable_sorted_contains(each, c[i]);
        assert(c.contains(c[i]));
        let k = each.index_of(c[i]);
        assert(each[k] == c[i]);
        assert(normal_candidate(before.candidates@[k], each[k]));
        assert(old_findings[k] is None);
        lemma_normal_candidate_problem(before.candidates@[k], each[k]);
    }
    ordering::lemma_first_problem(findings, findings.len() as int);
    assert forall|j: int| 0 <= j < each.len() implies candidate_ids(before.candidates@)[j]
        == candidate_ids(each)[j] by {
        assert(normal_candidate(before.candidates@[j], each[j]));
    }
    assert(candidate_ids(before.candidates@) =~= candidate_ids(each));
    lemma_same_sorted_ids(before.candidates@, each);
    ordering::lemma_stable_sorted_fixed(c);
    let bounds = choose|each: Seq<FrameworkBoundary>| #[trigger]
        normal_each_boundary(before.boundaries@, each) && after.boundaries@
            == ordering::stable_sorted(each);
    let b = after.boundaries@;
    let old_bounds = Seq::new(
        before.boundaries@.len(),
        |i: int| boundary_problem(before.boundaries@[i]),
    );
    let new_bounds = Seq::new(b.len(), |i: int| boundary_problem(b[i]));
    ordering::lemma_no_first_problem(old_bounds);
    ordering::lemma_stable_sorted_in_order(bounds);
    assert forall|i: int| 0 <= i < b.len() implies (#[trigger] new_bounds[i]) is None by {
        ordering::lemma_stable_sorted_contains(bounds, b[i]);
        assert(b.contains(b[i]));
        let k = bounds.index_of(b[i]);
        assert(bounds[k] == b[i]);
        assert(normal_boundary(before.boundaries@[k], bounds[k]));
        assert(old_bounds[k] is None);
        lemma_normal_evidence_problem(before.boundaries@[k].evidence@);
    }
    ordering::lemma_first_problem(new_bounds, new_bounds.len() as int);
    assert(candidates_problem(c) is None);
    assert(duplicate_problem(c) is None);
    assert(boundaries_problem(b) is None);
    if has_unresolved(c) {
        let i = choose|i: int|
            0 <= i < c.len() && (#[trigger] c[i]).disposition == CandidateDisposition::Unresolved;
        assert(findings[i] is None);
        assert(has_unresolved(before.candidates@));
    }
    assert(state_problem(after) is None);
}

proof fn lemma_no_repeat_ascends(candidates: Seq<FrameworkCandidate>, i: int, j: int)
    requires
        ordering::in_order(candidates),
        first_repeated(candidate_ids(candidates)) is None,
        0 <= i < j < candidates.len(),
    ensures
        candidates[i].ranks_before(&candidates[j]),
    decreases candidates.len(), j,
{
    let ids = candidate_ids(candidates);
    if i > 0 {
        let rest = candidates.drop_first();
        assert(candidate_ids(rest) =~= ids.drop_first());
        assert forall|a: int, b: int|
            #![trigger rest[a], rest[b]]
            0 <= a < b < rest.len() implies !rest[b].ranks_before(&rest[a]) by {
            assert(rest[a] == candidates[a + 1] && rest[b] == candidates[b + 1]);
        }
        lemma_no_repeat_ascends(rest, i - 1, j - 1);
        assert(rest[i - 1] == candidates[i] && rest[j - 1] == candidates[j]);
    } else {
        assert(ids[0] != ids[1]);
        assert(!candidates[1].ranks_before(&candidates[0]));
        text::lemma_text_lt_total(ids[0], ids[1]);
        if j > 1 {
            let rest = candidates.drop_first();
            assert(candidate_ids(rest) =~= ids.drop_first());
            assert forall|a: int, b: int|
                #![trigger rest[a], rest[b]]
                0 <= a < b < rest.len() implies !rest[b].ranks_before(&rest[a]) by {
                assert(rest[a] == candidates[a + 1] && rest[b] == candidates[b + 1]);
            }
            lemma_no_repeat_ascends(rest, 0, j - 1);
            assert(rest[0] == candidates[1] && rest[j - 1] == candidates[j]);
            text::lemma_text_lt_transitive(ids[0], ids[1], ids[j]);
        }
    }
}

/// The candidates of a normalized result stand in strictly ascending order of
/// their symbols.
pub proof fn law_candidates_ascend(
    before: FrameworkQueryResult,
    after: FrameworkQueryResult,
    i: int,
    j: int,
)
    requires
        result_problem(before) is None,
        normal_result(before, after),
        0 <= i < j < after.candidates@.len(),
    ensures
        text::text_lt(after.candidates@[i].symbol.id@, after.candidates@[j].symbol.id@),
{
    law_normal_form_is_accepted(before, after);
    let each = choose|each: Seq<FrameworkCandidate>| #[trigger]
        normal_each_candidate(before.candidates@, each) && after.candidates@
            == ordering::stable_sorted(each);
    ordering::lemma_stable_sorted_in_order(each);
    ordering::lemma_stable_sorted_fixed(after.candidates@);
    lemma_no_repeat_ascends(after.candidates@, i, j);
}

/// The order in which distinct candidates came does not show: two lists of the
/// same candidates are sorted alike.
pub proof fn law_candidate_order_is_canonical(
    a: Seq<FrameworkCandidate>,
    b: Seq<FrameworkCandidate>,
)
    requires
        a.to_multiset() == b.to_multiset(),
        duplicate_problem(a) is None,
    ensures
        ordering::stable_sorted(a) == ordering::stable_sorted(b),
{
    let s = ordering::stable_sorted(a);
    let t = ordering::stable_sorted(b);
    ordering::lemma_stable_sorted_in_order(a);
    ordering::lemma_stable_sorted_in_order(b);
    ordering::lemma_stable_sorted_permutes(a);
    ordering::lemma_stable_sorted_permutes(b);
    assert forall|i: int, j: int|
        #![trigger s[i], s[j]]
        0 <= i < j < s.len() implies s[i].ranks_before(&s[j]) by {
        lemma_no_repeat_ascends(s, i, j);
    }
    ordering::lemma_in_order_unique(s, t);
}

/// Whether no two different pieces of evidence have the same key.
pub open spec fn evidence_told_apart(evidence: Seq<FrameworkEvidence>) -> bool {
    forall|i: int, j: int|
        #![trigger evidence[i], evidence[j]]
        0 <= i < evidence.len() && 0 <= j < evidence.len() && key_of_evidence(evidence[i])
            == key_of_evidence(evidence[j]) ==> evidence[i] == evidence[j]
}

/// The order in which evidence came does not show in canonical form.
pub proof fn law_evidence_order_is_canonical(
    a: Seq<FrameworkEvidence>,
    b: Seq<FrameworkEvidence>,
)
    requires
        a.to_multiset() == b.to_multiset(),
        evidence_told_apart(a),
    ensures
        normal_evidence(a) == normal_evidence(b),
{
    let before = |x: FrameworkEvidence, y: FrameworkEvidence| x.ranks_before(&y);
    let s = ordering::stable_sorted(a);
    let t = ordering::stable_sorted(b);
    ordering::lemma_stable_sorted_in_order(a);
    ordering::lemma_stable_sorted_in_order(b);
    ordering::lemma_stable_sorted_permutes(a);
    ordering::lemma_stable_sorted_permutes(b);
    assert forall|i: int, j: int|
        #![trigger s[i], s[j]]
        0 <= i < s.len() && 0 <= j < s.len() && !before(s[i], s[j]) && !before(
            s[j],
            s[i],
        ) implies s[i] == s[j] by {
        ordering::lemma_stable_sorted_contains(a, s[i]);
        ordering::lemma_stable_sorted_contains(a, s[j]);
        assert(s.contains(s[i]) && s.contains(s[j]));
        let k = a.index_of(s[i]);
        let m = a.index_of(s[j]);
        assert(a[k] == s[i] && a[m] == s[j]);
        text::lemma_text_lt_total(key_of_evidence(s[i]), key_of_evidence(s[j]));
    }
    assert forall|i: int, j: int|
        #![trigger s[i], s[j]]
        0 <= i < j < s.len() implies !before(s[j], s[i]) by {
        assert(!s[j].ranks_before(&s[i]));
    }
    assert forall|i: int, j: int|
        #![trigger t[i], t[j]]
        0 <= i < j < t.len() implies !before(t[j], t[i]) by {
        assert(!t[j].ranks_before(&t[i]));
    }
    ordering::lemma_sorted_unique(s, t, before);
}

/// What an assumption says.
#[verifier::ext_equal]
pub struct AssumptionView {
    pub code: String,
    pub value: Option<String>,
    pub evidence: Seq<FrameworkEvidence>,
}

/// What an assumption says.
pub open spec fn assumption_view(assumption: FrameworkAssumption) -> AssumptionView {
    AssumptionView {
        code: assumption.code,
        value: assumption.value,
        evidence: assumption.evidence@,
    }
}

/// What an assumption says in canonical form.
pub open spec fn canonical_assumption(assumption: FrameworkAssumption) -> AssumptionView {
    AssumptionView {
        code: assumption.code,
        value: assumption.value,
        evidence: normal_evidence(assumption.evidence@),
    }
}

/// What a boundary says.
#[verifier::ext_equal]
pub struct BoundaryView {
    pub code: String,
    pub message: String,
    pub evidence: Seq<FrameworkEvidence>,
}

/// What a boundary says.
pub open spec fn boundary_view(boundary: FrameworkBoundary) -> BoundaryView {
    BoundaryView {
        code: boundary.code,
        message: boundary.message,
        evidence: boundary.evidence@,
    }
}

/// What a boundary says in canonical form.
pub open spec fn canonical_boundary(boundary: FrameworkBoundary) -> BoundaryView {
    BoundaryView {
        code: boundary.code,
        message: boundary.message,
        evidence: normal_evidence(boundary.evidence@),
    }
}

/// Whether an assumption is another with its evidence in another order.
pub open spec fn reordered_assumption(a: FrameworkAssumption, b: FrameworkAssumption) -> bool {
    a.code == b.code && a.value == b.value && a.evidence@.to_multiset()
        == b.evidence@.to_multiset()
}

/// Whether assumptions are others in another order, each with its evidence in
/// another order.
pub open spec fn reordered_assumptions(a: Seq<FrameworkAssumption>, b: Seq<FrameworkAssumption>) -> bool {
    exists|mid: Seq<FrameworkAssumption>| #[trigger]
        mid.to_multiset() == a.to_multiset() && mid.len() == b.len() && forall|i: int|
            0 <= i < b.len() ==> reordered_assumption(#[trigger] mid[i], b[i])
}

/// Whether no two assumptions of one rank differ, and the evidence of each is
/// told apart by its keys.
pub open spec fn assumptions_told_apart(assumptions: Seq<FrameworkAssumption>) -> bool {
    &&& forall|i: int|
        0 <= i < assumptions.len() ==> evidence_told_apart((#[trigger] assumptions[i]).evidence@)
    &&& forall|i: int, j: int|
        #![trigger assumptions[i], assumptions[j]]
        0 <= i < assumptions.len() && 0 <= j < assumptions.len() && assumption_rank(assumptions[i]) == assumption_rank(
            assumptions[j],
        ) ==> canonical_assumption(assumptions[i]) == canonical_assumption(assumptions[j])
}

/// The order in which assumptions came, and the order of their evidence, does not
/// show in canonical form.
pub proof fn law_assumption_order_is_canonical(
    a: Seq<FrameworkAssumption>,
    b: Seq<FrameworkAssumption>,
    normal_a: Seq<FrameworkAssumption>,
    normal_b: Seq<FrameworkAssumption>,
)
    requires
        reordered_assumptions(a, b),
        assumptions_told_apart(a),
        normal_assumptions(a, normal_a),
        normal_assumptions(b, normal_b),
    ensures
        normal_a.map_values(|x: FrameworkAssumption| assumption_view(x)) == normal_b.map_values(
            |x: FrameworkAssumption| assumption_view(x),
        ),
{
    let f = |x: FrameworkAssumption| assumption_view(x);
    let g = |x: FrameworkAssumption| canonical_assumption(x);
    let before = |x: AssumptionView, y: AssumptionView| text::pair_lt((x.code@, option_rank(x.value)), (y.code@, option_rank(y.value)));
    let mid = choose|mid: Seq<FrameworkAssumption>| #[trigger]
        mid.to_multiset() == a.to_multiset() && mid.len() == b.len() && forall|i: int|
            0 <= i < b.len() ==> reordered_assumption(#[trigger] mid[i], b[i]);
    let each_a = choose|each: Seq<FrameworkAssumption>| #[trigger]
        normal_each_assumption(a, each) && normal_a == ordering::stable_sorted(each);
    let each_b = choose|each: Seq<FrameworkAssumption>| #[trigger]
        normal_each_assumption(b, each) && normal_b == ordering::stable_sorted(each);
    assert forall|i: int| 0 <= i < a.len() implies f(each_a[i]) == #[trigger] g(a[i]) by {
        assert(normal_assumption(a[i], each_a[i]));
    }
    assert(each_a.map_values(f) =~= a.map_values(g));
    assert forall|i: int| 0 <= i < b.len() implies f(each_b[i]) == #[trigger] g(mid[i]) by {
        assert(normal_assumption(b[i], each_b[i]));
        assert(reordered_assumption(mid[i], b[i]));
        vstd::seq_lib::to_multiset_contains(mid, mid[i]);
        vstd::seq_lib::to_multiset_contains(a, mid[i]);
        assert(mid.contains(mid[i]));
        let k = a.index_of(mid[i]);
        assert(a[k] == mid[i]);
        law_evidence_order_is_canonical(mid[i].evidence@, b[i].evidence@);
    }
    assert(each_b.map_values(f) =~= mid.map_values(g));
    ordering::lemma_mapped_alike(mid, a, g);
    ordering::lemma_stable_sorted_permutes(each_a);
    ordering::lemma_stable_sorted_permutes(each_b);
    ordering::lemma_mapped_alike(normal_a, each_a, f);
    ordering::lemma_mapped_alike(normal_b, each_b, f);
    ordering::lemma_stable_sorted_in_order(each_a);
    ordering::lemma_stable_sorted_in_order(each_b);
    let p = normal_a.map_values(f);
    let q = normal_b.map_values(f);
    assert forall|i: int, j: int|
        #![trigger p[i], p[j]]
        0 <= i < j < p.len() implies !before(p[j], p[i]) by {
        assert(!normal_a[j].ranks_before(&normal_a[i]));
    }
    assert forall|i: int, j: int|
        #![trigger q[i], q[j]]
        0 <= i < j < q.len() implies !before(q[j], q[i]) by {
        assert(!normal_b[j].ranks_before(&normal_b[i]));
    }
    assert forall|i: int, j: int|
        #![trigger p[i], p[j]]
        0 <= i < p.len() && 0 <= j < p.len() && !before(p[i], p[j]) && !before(
            p[j],
            p[i],
        ) implies p[i] == p[j] by {
        ordering::lemma_stable_sorted_contains(each_a, normal_a[i]);
        ordering::lemma_stable_sorted_contains(each_a, normal_a[j]);
        assert(normal_a.contains(normal_a[i]) && normal_a.contains(normal_a[j]));
        let k = each_a.index_of(normal_a[i]);
        let m = each_a.index_of(normal_a[j]);
        assert(each_a[k] == normal_a[i] && each_a[m] == normal_a[j]);
        assert(f(each_a[k]) == g(a[k]) && f(each_a[m]) == g(a[m]));
        assert(normal_assumption(a[k], each_a[k]) && normal_assumption(a[m], each_a[m]));
        let x = assumption_rank(a[k]);
        let y = assumption_rank(a[m]);
        text::lemma_text_lt_total(x.0, y.0);
        text::lemma_text_lt_total(x.1, y.1);
    }
    ordering::lemma_sorted_unique(p, q, before);
}

/// Whether a boundary is another with its evidence in another order.
pub open spec fn reordered_boundary(a: FrameworkBoundary, b: FrameworkBoundary) -> bool {
    a.code == b.code && a.message == b.message && a.evidence@.to_multiset()
        == b.evidence@.to_multiset()
}

/// Whether boundaries are others in another order, each with its evidence in
/// another order.
pub open spec fn reordered_boundaries(a: Seq<FrameworkBoundary>, b: Seq<FrameworkBoundary>) -> bool {
    exists|mid: Seq<FrameworkBoundary>| #[trigger]
        mid.to_multiset() == a.to_multiset() && mid.len() == b.len() && forall|i: int|
            0 <= i < b.len() ==> reordered_boundary(#[trigger] mid[i], b[i])
}

/// Whether no two boundaries of one rank differ, and the evidence of each is
/// told apart by its keys.
pub open spec fn boundaries_told_apart(boundaries: Seq<FrameworkBoundary>) -> bool {
    &&& forall|i: int|
        0 <= i < boundaries.len() ==> evidence_told_apart((#[trigger] boundaries[i]).evidence@)
    &&& forall|i: int, j: int|
        #![trigger boundaries[i], boundaries[j]]
        0 <= i < boundaries.len() && 0 <= j < boundaries.len() && boundary_rank(boundaries[i]) == boundary_rank(
            boundaries[j],
        ) ==> canonical_boundary(boundaries[i]) == canonical_boundary(boundaries[j])
}

/// The order in which boundaries came, and the order of their evidence, does not
/// show in canonical form.
pub proof fn law_boundary_order_is_canonical(
    a: Seq<FrameworkBoundary>,
    b: Seq<FrameworkBoundary>,
    normal_a: Seq<FrameworkBoundary>,
    normal_b: Seq<FrameworkBoundary>,
)
    requires
        reordered_boundaries(a, b),
        boundaries_told_apart(a),
        normal_boundaries(a, normal_a),
        normal_boundaries(b, normal_b),
    ensures
        normal_a.map_values(|x: FrameworkBoundary| boundary_view(x)) == normal_b.map_values(
            |x: FrameworkBoundary| boundary_view(x),
        ),
{
    let f = |x: FrameworkBoundary| boundary_view(x);
    let g = |x: FrameworkBoundary| canonical_boundary(x);
    let before = |x: BoundaryView, y: BoundaryView| text::pair_lt((x.code@, x.message@), (y.code@, y.message@));
    let mid = choose|mid: Seq<FrameworkBoundary>| #[trigger]
        mid.to_multiset() == a.to_multiset() && mid.len() == b.len() && forall|i: int|
            0 <= i < b.len() ==> reordered_boundary(#[trigger] mid[i], b[i]);
    let each_a = choose|each: Seq<FrameworkBoundary>| #[trigger]
        normal_each_boundary(a, each) && normal_a == ordering::stable_sorted(each);
    let each_b = choose|each: Seq<FrameworkBoundary>| #[trigger]
        normal_each_boundary(b, each) && normal_b == ordering::stable_sorted(each);
    assert forall|i: int| 0 <= i < a.len() implies f(each_a[i]) == #[trigger] g(a[i]) by {
        assert(normal_boundary(a[i], each_a[i]));
    }
    assert(each_a.map_values(f) =~= a.map_values(g));
    assert forall|i: int| 0 <= i < b.len() implies f(each_b[i]) == #[trigger] g(mid[i]) by {
        assert(normal_boundary(b[i], each_b[i]));
        assert(reordered_boundary(mid[i], b[i]));
        vstd::seq_lib::to_multiset_contains(mid, mid[i]);
        vstd::seq_lib::to_multiset_contains(a, mid[i]);
        assert(mid.contains(mid[i]));
        let k = a.index_of(mid[i]);
        assert(a[k] == mid[i]);
        law_evidence_order_is_canonical(mid[i].evidence@, b[i].evidence@);
    }
    assert(each_b.map_values(f) =~= mid.map_values(g));
    ordering::lemma_mapped_alike(mid, a, g);
    ordering::lemma_stable_sorted_permutes(each_a);
    ordering::lemma_stable_sorted_permutes(each_b);
    ordering::lemma_mapped_alike(normal_a, each_a, f);
    ordering::lemma_mapped_alike(normal_b, each_b, f);
    ordering::lemma_stable_sorted_in_order(each_a);
    ordering::lemma_stable_sorted_in_order(each_b);
    let p = normal_a.map_values(f);
    let q = normal_b.map_values(f);
    assert forall|i: int, j: int|
        #![trigger p[i], p[j]]
        0 <= i < j < p.len() implies !before(p[j], p[i]) by {
        assert(!normal_a[j].ranks_before(&normal_a[i]));
    }
    assert forall|i: int, j: int|
        #![trigger q[i], q[j]]
        0 <= i < j < q.len() implies !before(q[j], q[i]) by {
        assert(!normal_b[j].ranks_before(&normal_b[i]));
    }
    assert forall|i: int, j: int|
        #![trigger p[i], p[j]]
        0 <= i < p.len() && 0 <= j < p.len() && !before(p[i], p[j]) && !before(
            p[j],
            p[i],
        ) implies p[i] == p[j] by {
        ordering::lemma_stable_sorted_contains(each_a, normal_a[i]);
        ordering::lemma_stable_sorted_contains(each_a, normal_a[j]);
        assert(normal_a.contains(normal_a[i]) && normal_a.contains(normal_a[j]));
        let k = each_a.index_of(normal_a[i]);
        let m = each_a.index_of(normal_a[j]);
        assert(each_a[k] == normal_a[i] && each_a[m] == normal_a[j]);
        assert(f(each_a[k]) == g(a[k]) && f(each_a[m]) == g(a[m]));
        assert(normal_boundary(a[k], each_a[k]) && normal_boundary(a[m], each_a[m]));
        let x = boundary_rank(a[k]);
        let y = boundary_rank(a[m]);
        text::lemma_text_lt_total(x.0, y.0);
        text::lemma_text_lt_total(x.1, y.1);
    }
    ordering::lemma_sorted_unique(p, q, before);
}

/// What a candidate says.
#[verifier::ext_equal]
pub struct CandidateView {
    pub symbol: SymbolRecordView,
    pub disposition: CandidateDisposition,
    pub reasons: Seq<Seq<char>>,
    pub evidence: Seq<FrameworkEvidence>,
    pub assumptions: Seq<AssumptionView>,
}

/// What a candidate says.
pub open spec fn candidate_view(candidate: FrameworkCandidate) -> CandidateView {
    CandidateView {
        symbol: candidate.symbol@,
        disposition: candidate.disposition,
        reasons: text::texts(candidate.reasons@),
        evidence: candidate.evidence@,
        assumptions: candidate.assumptions@.map_values(
            |x: FrameworkAssumption| assumption_view(x),
        ),
    }
}

/// What a candidate says in canonical form.
pub open spec fn canonical_candidate(candidate: FrameworkCandidate) -> CandidateView {
    candidate_view(choose|normal: FrameworkCandidate| normal_candidate(candidate, normal))
}

/// Whether a candidate is another with its reasons, its evidence and its
/// assumptions in another order.
pub open spec fn reordered_candidate(a: FrameworkCandidate, b: FrameworkCandidate) -> bool {
    &&& a.symbol@ == b.symbol@
    &&& a.disposition == b.disposition
    &&& text::texts(a.reasons@).to_multiset() == text::texts(b.reasons@).to_multiset()
    &&& a.evidence@.to_multiset() == b.evidence@.to_multiset()
    &&& reordered_assumptions(a.assumptions@, b.assumptions@)
}

/// Whether candidates are others in another order, each with its lists in
/// another order.
pub open spec fn reordered_candidates(
    a: Seq<FrameworkCandidate>,
    b: Seq<FrameworkCandidate>,
) -> bool {
    exists|mid: Seq<FrameworkCandidate>| #[trigger]
        mid.to_multiset() == a.to_multiset() && mid.len() == b.len() && forall|i: int|
            0 <= i < b.len() ==> reordered_candidate(#[trigger] mid[i], b[i])
}

/// Whether what a result lists is told apart by what it is sorted by.
pub open spec fn told_apart(result: FrameworkQueryResult) -> bool {
    &&& boundaries_told_apart(result.boundaries@)
    &&& forall|i: int|
        0 <= i < result.candidates@.len() ==> evidence_told_apart(
            (#[trigger] result.candidates@[i]).evidence@,
        ) && assumptions_told_apart(result.candidates@[i].assumptions@)
}

proof fn lemma_candidate_order(
    a: FrameworkCandidate,
    b: FrameworkCandidate,
    normal_a: FrameworkCandidate,
    normal_b: FrameworkCandidate,
)
    requires
        reordered_candidate(a, b),
        evidence_told_apart(a.evidence@),
        assumptions_told_apart(a.assumptions@),
        normal_candidate(a, normal_a),
        normal_candidate(b, normal_b),
    ensures
        candidate_view(normal_a) == candidate_view(normal_b),
{
    law_evidence_order_is_canonical(a.evidence@, b.evidence@);
    law_assumption_order_is_canonical(
        a.assumptions@,
        b.assumptions@,
        normal_a.assumptions@,
        normal_b.assumptions@,
    );
    let x = text::texts(a.reasons@);
    let y = text::texts(b.reasons@);
    assert forall|reason: Seq<char>| x.to_set().contains(reason) == y.to_set().contains(reason) by {
        vstd::seq_lib::to_multiset_contains(x, reason);
        vstd::seq_lib::to_multiset_contains(y, reason);
    }
    assert(x.to_set() =~= y.to_set());
}

proof fn lemma_reordered_evidence_problem(
    a: Seq<FrameworkEvidence>,
    b: Seq<FrameworkEvidence>,
)
    requires
        a.to_multiset() == b.to_multiset(),
        evidence_problem(a) is None,
    ensures
        evidence_problem(b) is None,
        a.len() == b.len(),
{
    broadcast use vstd::seq_lib::group_to_multiset_ensures;

    assert(a.len() == a.to_multiset().len());
    assert(b.len() == b.to_multiset().len());
    lemma_evidence_problem(a);
    lemma_evidence_problem(b);
    assert forall|i: int| 0 <= i < b.len() implies valid_code((#[trigger] b[i]).code@) by {
        assert(b.contains(b[i]));
        assert(a.to_multiset().count(b[i]) > 0);
        let k = a.index_of(b[i]);
        assert(a[k] == b[i]);
    }
}

proof fn lemma_reordered_reasons_problem(a: Seq<String>, b: Seq<String>)
    requires
        text::texts(a).to_multiset() == text::texts(b).to_multiset(),
        reasons_problem(a) is None,
    ensures
        reasons_problem(b) is None,
        a.len() == b.len(),
{
    broadcast use vstd::seq_lib::group_to_multiset_ensures;

    let x = text::texts(a);
    let y = text::texts(b);
    assert(x.len() == x.to_multiset().len());
    assert(y.len() == y.to_multiset().len());
    lemma_codes(a);
    lemma_codes(b);
    assert forall|i: int| 0 <= i < b.len() implies valid_code((#[trigger] b[i])@) by {
        assert(y[i] == b[i]@);
        assert(y.contains(y[i]));
        assert(x.to_multiset().count(y[i]) > 0);
        let k = x.index_of(y[i]);
        assert(x[k] == y[i]);
        assert(a[k]@ == x[k]);
    }
}

proof fn lemma_reordered_assumptions_problem(
    a: Seq<FrameworkAssumption>,
    b: Seq<FrameworkAssumption>,
)
    requires
        reordered_assumptions(a, b),
        assumptions_problem(a) is None,
    ensures
        assumptions_problem(b) is None,
{
    broadcast use vstd::seq_lib::group_to_multiset_ensures;

    let mid = choose|mid: Seq<FrameworkAssumption>| #[trigger]
        mid.to_multiset() == a.to_multiset() && mid.len() == b.len() && forall|i: int|
            0 <= i < b.len() ==> reordered_assumption(#[trigger] mid[i], b[i]);
    let known = Seq::new(a.len(), |i: int| assumption_problem(a[i]));
    let findings = Seq::new(b.len(), |i: int| assumption_problem(b[i]));
    ordering::lemma_no_first_problem(known);
    assert forall|i: int| 0 <= i < findings.len() implies (#[trigger] findings[i]) is None by {
        assert(reordered_assumption(mid[i], b[i]));
        assert(mid.contains(mid[i]));
        assert(a.to_multiset().count(mid[i]) > 0);
        let k = a.index_of(mid[i]);
        assert(a[k] == mid[i]);
        assert(known[k] is None);
        lemma_reordered_evidence_problem(mid[i].evidence@, b[i].evidence@);
    }
    ordering::lemma_first_problem(findings, findings.len() as int);
}

proof fn lemma_reordered_boundaries_problem(
    a: Seq<FrameworkBoundary>,
    b: Seq<FrameworkBoundary>,
)
    requires
        reordered_boundaries(a, b),
        boundaries_problem(a) is None,
    ensures
        boundaries_problem(b) is None,
        a.len() == b.len(),
{
    broadcast use vstd::seq_lib::group_to_multiset_ensures;

    let mid = choose|mid: Seq<FrameworkBoundary>| #[trigger]
        mid.to_multiset() == a.to_multiset() && mid.len() == b.len() && forall|i: int|
            0 <= i < b.len() ==> reordered_boundary(#[trigger] mid[i], b[i]);
    assert(mid.len() == mid.to_multiset().len());
    assert(a.len() == a.to_multiset().len());
    let known = Seq::new(a.len(), |i: int| boundary_problem(a[i]));
    let findings = Seq::new(b.len(), |i: int| boundary_problem(b[i]));
    ordering::lemma_no_first_problem(known);
    assert forall|i: int| 0 <= i < findings.len() implies (#[trigger] findings[i]) is None by {
        assert(reordered_boundary(mid[i], b[i]));
        assert(mid.contains(mid[i]));
        assert(a.to_multiset().count(mid[i]) > 0);
        let k = a.index_of(mid[i]);
        assert(a[k] == mid[i]);
        assert(known[k] is None);
        lemma_reordered_evidence_problem(mid[i].evidence@, b[i].evidence@);
    }
    ordering::lemma_first_problem(findings, findings.len() as int);
}

proof fn lemma_reordered_candidate_problem(a: FrameworkCandidate, b: FrameworkCandidate)
    requires
        reordered_candidate(a, b),
        candidate_problem(a) is None,
    ensures
        candidate_problem(b) is None,
{
    lemma_reordered_reasons_problem(a.reasons@, b.reasons@);
    lemma_reordered_evidence_problem(a.evidence@, b.evidence@);
    lemma_reordered_assumptions_problem(a.assumptions@, b.assumptions@);
}

/// A result that lists what an accepted result lists, in whatever order, is
/// accepted too.
pub proof fn law_reordered_result_is_accepted(a: FrameworkQueryResult, b: FrameworkQueryResult)
    requires
        a.state == b.state,
        reordered_candidates(a.candidates@, b.candidates@),
        reordered_boundaries(a.boundaries@, b.boundaries@),
        result_problem(a) is None,
    ensures
        result_problem(b) is None,
{
    broadcast use vstd::seq_lib::group_to_multiset_ensures;

    let c = a.candidates@;
    let d = b.candidates@;
    let mid = choose|mid: Seq<FrameworkCandidate>| #[trigger]
        mid.to_multiset() == c.to_multiset() && mid.len() == d.len() && forall|i: int|
            0 <= i < d.len() ==> reordered_candidate(#[trigger] mid[i], d[i]);
    assert(mid.len() == mid.to_multiset().len());
    assert(c.len() == c.to_multiset().len());
    let known = Seq::new(c.len(), |i: int| candidate_problem(c[i]));
    let findings = Seq::new(d.len(), |i: int| candidate_problem(d[i]));
    ordering::lemma_no_first_problem(known);
    assert forall|i: int| 0 <= i < findings.len() implies (#[trigger] findings[i]) is None && (
    d[i].disposition == CandidateDisposition::Unresolved ==> has_unresolved(c)) by {
        assert(reordered_candidate(mid[i], d[i]));
        assert(mid.contains(mid[i]));
        assert(c.to_multiset().count(mid[i]) > 0);
        let k = c.index_of(mid[i]);
        assert(c[k] == mid[i]);
        assert(known[k] is None);
        lemma_reordered_candidate_problem(mid[i], d[i]);
    }
    ordering::lemma_first_problem(findings, findings.len() as int);
    law_candidate_order_is_canonical(c, mid);
    assert forall|j: int| 0 <= j < d.len() implies candidate_ids(mid)[j] == candidate_ids(
        d,
    )[j] by {
        assert(reordered_candidate(mid[j], d[j]));
    }
    assert(candidate_ids(mid) =~= candidate_ids(d));
    lemma_same_sorted_ids(mid, d);
    lemma_reordered_boundaries_problem(a.boundaries@, b.boundaries@);
    if has_unresolved(d) {
        let i = choose|i: int|
            0 <= i < d.len() && (#[trigger] d[i]).disposition == CandidateDisposition::Unresolved;
        assert(findings[i] is None);
        assert(has_unresolved(c));
    }
}

/// Two results that list the same candidates, boundaries, reasons, evidence and
/// assumptions in different orders have the same canonical form, where what is
/// sorted by one rank is the same. Where the one is accepted, so is the other.
pub proof fn law_order_is_canonical(
    a: FrameworkQueryResult,
    b: FrameworkQueryResult,
    normal_a: FrameworkQueryResult,
    normal_b: FrameworkQueryResult,
)
    requires
        a.state == b.state,
        reordered_candidates(a.candidates@, b.candidates@),
        reordered_boundaries(a.boundaries@, b.boundaries@),
        told_apart(a),
        result_problem(a) is None,
        normal_result(a, normal_a),
        normal_result(b, normal_b),
    ensures
        result_problem(b) is None,
        normal_a.state == normal_b.state,
        normal_a.candidates@.map_values(|x: FrameworkCandidate| candidate_view(x))
            == normal_b.candidates@.map_values(|x: FrameworkCandidate| candidate_view(x)),
        normal_a.boundaries@.map_values(|x: FrameworkBoundary| boundary_view(x))
            == normal_b.boundaries@.map_values(|x: FrameworkBoundary| boundary_view(x)),
{
    law_reordered_result_is_accepted(a, b);
    law_boundary_order_is_canonical(
        a.boundaries@,
        b.boundaries@,
        normal_a.boundaries@,
        normal_b.boundaries@,
    );
    let f = |x: FrameworkCandidate| candidate_view(x);
    let g = |x: FrameworkCandidate| canonical_candidate(x);
    let before = |x: CandidateView, y: CandidateView| text::text_lt(x.symbol.id@, y.symbol.id@);
    let c = a.candidates@;
    let d = b.candidates@;
    let mid = choose|mid: Seq<FrameworkCandidate>| #[trigger]
        mid.to_multiset() == c.to_multiset() && mid.len() == d.len() && forall|i: int|
            0 <= i < d.len() ==> reordered_candidate(#[trigger] mid[i], d[i]);
    let each_a = choose|each: Seq<FrameworkCandidate>| #[trigger]
        normal_each_candidate(c, each) && normal_a.candidates@ == ordering::stable_sorted(each);
    let each_b = choose|each: Seq<FrameworkCandidate>| #[trigger]
        normal_each_candidate(d, each) && normal_b.candidates@ == ordering::stable_sorted(each);
    assert forall|i: int| 0 <= i < c.len() implies f(each_a[i]) == #[trigger] g(c[i]) by {
        assert(normal_candidate(c[i], each_a[i]));
        let other = choose|normal: FrameworkCandidate| normal_candidate(c[i], normal);
        lemma_reordered_self(c[i]);
        lemma_candidate_order(c[i], c[i], each_a[i], other);
    }
    assert(each_a.map_values(f) =~= c.map_values(g));
    assert forall|i: int| 0 <= i < d.len() implies f(each_b[i]) == #[trigger] g(mid[i]) by {
        vstd::seq_lib::to_multiset_contains(mid, mid[i]);
        vstd::seq_lib::to_multiset_contains(c, mid[i]);
        assert(mid.contains(mid[i]));
        let k = c.index_of(mid[i]);
        assert(c[k] == mid[i]);
        assert(f(each_a[k]) == g(c[k]));
        assert(normal_candidate(c[k], each_a[k]));
        assert(reordered_candidate(mid[i], d[i]));
        assert(normal_candidate(d[i], each_b[i]));
        lemma_candidate_order(c[k], d[i], each_a[k], each_b[i]);
    }
    assert(each_b.map_values(f) =~= mid.map_values(g));
    ordering::lemma_mapped_alike(mid, c, g);
    ordering::lemma_stable_sorted_permutes(each_a);
    ordering::lemma_stable_sorted_permutes(each_b);
    ordering::lemma_mapped_alike(normal_a.candidates@, each_a, f);
    ordering::lemma_mapped_alike(normal_b.candidates@, each_b, f);
    ordering::lemma_stable_sorted_in_order(each_a);
    ordering::lemma_stable_sorted_in_order(each_b);
    let p = normal_a.candidates@.map_values(f);
    let q = normal_b.candidates@.map_values(f);
    assert forall|i: int, j: int|
        #![trigger p[i], p[j]]
        0 <= i < j < p.len() implies !before(p[j], p[i]) by {
        assert(!normal_a.candidates@[j].ranks_before(&normal_a.candidates@[i]));
    }
    assert forall|i: int, j: int|
        #![trigger q[i], q[j]]
        0 <= i < j < q.len() implies !before(q[j], q[i]) by {
        assert(!normal_b.candidates@[j].ranks_before(&normal_b.candidates@[i]));
    }
    assert forall|i: int, j: int|
        #![trigger p[i], p[j]]
        0 <= i < p.len() && 0 <= j < p.len() && !before(p[i], p[j]) && !before(
            p[j],
            p[i],
        ) implies p[i] == p[j] by {
        if i < j {
            law_candidates_ascend(a, normal_a, i, j);
        } else if j < i {
            law_candidates_ascend(a, normal_a, j, i);
        }
    }
    ordering::lemma_sorted_unique(p, q, before);
}

proof fn lemma_reordered_self(candidate: FrameworkCandidate)
    ensures
        reordered_candidate(candidate, candidate),
{
    let mid = candidate.assumptions@;
    assert(mid.to_multiset() == candidate.assumptions@.to_multiset() && mid.len()
        == candidate.assumptions@.len() && forall|i: int|
        0 <= i < mid.len() ==> reordered_assumption(#[trigger] mid[i], candidate.assumptions@[i]));
}

/// A result is accepted only where its state is borne out: a complete one leaves
/// nothing unresolved and names no boundary, a partial one names a boundary, and
/// an unsupported one holds boundaries alone. Every candidate has a reason and
/// evidence.
pub proof fn law_accepted_states_are_borne_out(
    given: FrameworkQueryResult,
    accepted: FrameworkQueryResult,
    i: int,
)
    requires
        call_ensures(
            FrameworkQueryResult::normalize,
            (given,),
            Ok::<FrameworkQueryResult, FrameworkQueryResultError>(accepted),
        ),
    ensures
        accepted.state == given.state,
        given.state is Complete ==> given.boundaries@.len() == 0 && (0 <= i
            < given.candidates@.len() ==> !(given.candidates@[i].disposition is Unresolved)),
        given.state is Partial ==> given.boundaries@.len() > 0,
        given.state is Unsupported ==> given.boundaries@.len() > 0 && given.candidates@.len()
            == 0,
        0 <= i < given.candidates@.len() ==> given.candidates@[i].reasons@.len() > 0
            && given.candidates@[i].evidence@.len() > 0,
        accepted.candidates@.len() == given.candidates@.len(),
{
    let findings = Seq::new(
        given.candidates@.len(),
        |j: int| candidate_problem(given.candidates@[j]),
    );
    ordering::lemma_no_first_problem(findings);
    if 0 <= i < given.candidates@.len() {
        assert(findings[i] is None);
    }
    let each = choose|each: Seq<FrameworkCandidate>| #[trigger]
        normal_each_candidate(given.candidates@, each) && accepted.candidates@
            == ordering::stable_sorted(each);
    ordering::lemma_stable_sorted_in_order(each);
}

/// A code is accepted exactly where it is two or more parts of lower-case
/// letters, digits and hyphens with dots between them: a part alone is not, and
/// two parts with a dot are.
pub proof fn law_codes_are_namespaced(
    code: &str,
    a: Seq<char>,
    b: Seq<char>,
    result: Result<(), FrameworkQueryResultError>,
)
    requires
        call_ensures(validate_code, (code,), result),
        !a.contains('.'),
        !b.contains('.'),
    ensures
        code@ == a ==> result is Err,
        code@ == a + seq!['.'] + b ==> (result is Ok <==> a.len() > 0 && b.len() > 0 && (forall|
            i: int,
        |
            0 <= i < a.len() ==> 'a' <= #[trigger] a[i] <= 'z' || '0' <= a[i] <= '9' || a[i]
                == '-') && (forall|i: int|
            0 <= i < b.len() ==> 'a' <= #[trigger] b[i] <= 'z' || '0' <= b[i] <= '9' || b[i]
                == '-')),
{
    text::lemma_split_sum(a, b, '.');
    text::lemma_split_pieces(a, '.');
    text::lemma_split_pieces(b, '.');
    if code@ == a + seq!['.'] + b {
        let parts = text::split_on(code@, '.');
        assert(parts =~= seq![a, b]);
        assert(code@[a.len() as int] == '.');
        if valid_code(code@) {
            assert(is_code_part(parts[0]) && is_code_part(parts[1]));
        }
    }
}

/// Reasons are listed once each, in ascending order, none lost.
pub proof fn law_reasons_are_listed_once(
    reasons: &[String],
    sorted: Vec<String>,
    reason: Seq<char>,
    i: int,
    j: int,
)
    requires
        call_ensures(sorted_reasons, (reasons,), sorted),
        0 <= i < j < sorted@.len(),
    ensures
        text::texts(sorted@).contains(reason) <==> text::texts(reasons@).contains(reason),
        text::text_lt(sorted@[i]@, sorted@[j]@),
{
    let wanted = text::texts(reasons@).to_set();
    vstd::seq_lib::seq_to_set_is_finite(text::texts(reasons@));
    ordering::lemma_sorted_texts(wanted);
    let all = text::texts(sorted@);
    assert(all.to_set().contains(reason) == wanted.contains(reason));
    assert(all[i] == sorted@[i]@ && all[j] == sorted@[j]@);
}

} // verus!
