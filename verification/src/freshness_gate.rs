//! Owner-scoped freshness checks shared by semantic command frontends.

use vstd::prelude::*;

use crate::canonical::{
    Fingerprint, SourceOccurrence, SourceOrigin, SourceUnitId, SymbolRecord, WorkspacePath,
};
use crate::configuration::FreshnessStrategy;
use crate::identifiers;
use crate::identifiers::sorted_units;
use crate::ordered_map;
use crate::ordered_map::Keyed;
use crate::ordering;
use crate::query;
use crate::query::{QueryPayload, QueryProblem};
use crate::text;

verus! {

/// The configuration input that stands for the effective configuration.
pub const EFFECTIVE_CONFIGURATION_PATH: &'static str = ".kide/effective-config";

/// A persisted configuration input and what its file is now.
#[derive(Debug, PartialEq, Eq)]
pub struct InputObservation {
    pub path: WorkspacePath,
    pub persisted: Fingerprint,
    pub current: Option<Fingerprint>,
}

/// A persisted source unit and what its file is now.
#[derive(Debug, PartialEq, Eq)]
pub struct SourceObservation {
    pub origin: SourceOrigin,
    pub content: Fingerprint,
    pub current: Option<Fingerprint>,
}

/// The fingerprint of the effective configuration, which needs a manifest.
#[derive(Debug, PartialEq, Eq)]
pub enum EffectiveInput {
    NoManifest,
    Current(Fingerprint),
}

/// Whether an observed fingerprint is the persisted one.
pub open spec fn is_current(current: Option<Fingerprint>, persisted: Fingerprint) -> bool {
    match current {
        Some(current) => current@ == persisted@,
        None => false,
    }
}

/// Computes `is_current`.
pub fn still_current(current: &Option<Fingerprint>, persisted: &Fingerprint) -> (result: bool)
    ensures
        result == is_current(*current, *persisted),
{
    match current {
        Some(current) => current.same(persisted),
        None => false,
    }
}

/// The problem of a source that changed after indexing.
pub open spec fn stale_source() -> query::QueryProblemView {
    query::QueryProblemView {
        code: "stale_source_snapshot"@,
        message: "a source owning this result changed after indexing; run kide index"@,
        retryable: true,
    }
}

/// Makes the problem of a source that changed after indexing.
pub fn stale_source_problem() -> (result: QueryProblem)
    ensures
        result@ == stale_source(),
{
    QueryProblem::new(
        "stale_source_snapshot",
        "a source owning this result changed after indexing; run kide index",
        true,
    )
}

/// The problem of a configuration input that changed after indexing.
pub open spec fn stale_input() -> query::QueryProblemView {
    query::QueryProblemView {
        code: "stale_configuration_input"@,
        message: "a build or workspace configuration input changed after indexing; run kide index"@,
        retryable: true,
    }
}

/// The problem of an index without a manifest.
pub open spec fn missing_manifest() -> query::QueryProblemView {
    query::QueryProblemView {
        code: "missing_workspace_manifest"@,
        message: "the index has no resolved workspace manifest; run kide index"@,
        retryable: true,
    }
}

/// The problem of an effective configuration that changed after indexing.
pub open spec fn stale_configuration() -> query::QueryProblemView {
    query::QueryProblemView {
        code: "stale_effective_configuration"@,
        message: "the effective KIDE configuration changed after indexing; run kide index"@,
        retryable: true,
    }
}

/// Whether an input is the one for the effective configuration.
pub open spec fn is_effective(input: InputObservation) -> bool {
    input.path@ == EFFECTIVE_CONFIGURATION_PATH@
}

/// Whether some file of an input changed or is gone.
pub open spec fn has_stale_input(inputs: Seq<InputObservation>) -> bool {
    exists|i: int|
        0 <= i < inputs.len() && !is_effective(#[trigger] inputs[i]) && !is_current(
            inputs[i].current,
            inputs[i].persisted,
        )
}

/// The position of the input for the effective configuration; the length,
/// where there is none.
pub open spec fn effective_position(inputs: Seq<InputObservation>) -> int
    decreases inputs.len(),
{
    if inputs.len() == 0 || is_effective(inputs[0]) {
        0
    } else {
        1 + effective_position(inputs.drop_first())
    }
}

/// Whether some source that owns a result changed or is gone. Dependencies do
/// not change.
pub open spec fn has_stale_owner(owners: Seq<SourceObservation>) -> bool {
    exists|i: int|
        0 <= i < owners.len() && (#[trigger] owners[i]).origin != SourceOrigin::Dependency
            && !is_current(owners[i].current, owners[i].content)
}

/// Why a payload may not be served: under the strict policy the configuration
/// inputs, then the effective configuration, then the owning sources must be
/// what was indexed.
pub open spec fn gate_problem(
    strategy: FreshnessStrategy,
    inputs: Seq<InputObservation>,
    effective: EffectiveInput,
    owners: Seq<SourceObservation>,
) -> Option<query::QueryProblemView> {
    let position = effective_position(inputs);
    if strategy != FreshnessStrategy::FreshOnly {
        None
    } else if has_stale_input(inputs) {
        Some(stale_input())
    } else if position < inputs.len() && effective is NoManifest {
        Some(missing_manifest())
    } else if position < inputs.len() && effective->Current_0@ != inputs[position].persisted@ {
        Some(stale_configuration())
    } else if has_stale_owner(owners) {
        Some(stale_source())
    } else {
        None
    }
}

fn find_effective(inputs: &[InputObservation]) -> (result: usize)
    ensures
        result == effective_position(inputs@),
        result <= inputs@.len(),
{
    let mut i: usize = 0;
    assert(inputs@.skip(0) =~= inputs@);
    while i < inputs.len()
        invariant
            i <= inputs@.len(),
            effective_position(inputs@) == i + effective_position(inputs@.skip(i as int)),
        decreases inputs@.len() - i,
    {
        assert(inputs@.skip(i as int).drop_first() =~= inputs@.skip(i + 1));
        if text::same_text(inputs[i].path.as_str(), EFFECTIVE_CONFIGURATION_PATH) {
            return i;
        }
        i = i + 1;
    }
    i
}

fn is_any_input_stale(inputs: &[InputObservation]) -> (result: bool)
    ensures
        result == has_stale_input(inputs@),
{
    let mut i: usize = 0;
    while i < inputs.len()
        invariant
            i <= inputs@.len(),
            forall|j: int|
                0 <= j < i ==> is_effective(#[trigger] inputs@[j]) || is_current(
                    inputs@[j].current,
                    inputs@[j].persisted,
                ),
        decreases inputs@.len() - i,
    {
        if !text::same_text(inputs[i].path.as_str(), EFFECTIVE_CONFIGURATION_PATH)
            && !still_current(&inputs[i].current, &inputs[i].persisted) {
            assert(!is_effective(inputs@[i as int]));
            return true;
        }
        i = i + 1;
    }
    false
}

fn is_any_owner_stale(owners: &[SourceObservation]) -> (result: bool)
    ensures
        result == has_stale_owner(owners@),
{
    let mut i: usize = 0;
    while i < owners.len()
        invariant
            i <= owners@.len(),
            forall|j: int|
                0 <= j < i ==> (#[trigger] owners@[j]).origin == SourceOrigin::Dependency
                    || is_current(owners@[j].current, owners@[j].content),
        decreases owners@.len() - i,
    {
        if owners[i].origin != SourceOrigin::Dependency && !still_current(
            &owners[i].current,
            &owners[i].content,
        ) {
            assert(owners@[i as int].origin != SourceOrigin::Dependency);
            return true;
        }
        i = i + 1;
    }
    false
}

/// Decides, from what was observed of its inputs and owners, whether a payload
/// may be served.
pub fn freshness_problem(
    strategy: FreshnessStrategy,
    inputs: &[InputObservation],
    effective: &EffectiveInput,
    owners: &[SourceObservation],
) -> (result: Option<QueryProblem>)
    ensures
        match gate_problem(strategy, inputs@, *effective, owners@) {
            Some(problem) => result is Some && result->Some_0@ == problem,
            None => result is None,
        },
{
    if strategy != FreshnessStrategy::FreshOnly {
        return None;
    }
    if is_any_input_stale(inputs) {
        return Some(
            QueryProblem::new(
                "stale_configuration_input",
                "a build or workspace configuration input changed after indexing; run kide index",
                true,
            ),
        );
    }
    let position: usize = find_effective(inputs);
    if position < inputs.len() {
        match effective {
            EffectiveInput::NoManifest => {
                return Some(
                    QueryProblem::new(
                        "missing_workspace_manifest",
                        "the index has no resolved workspace manifest; run kide index",
                        true,
                    ),
                );
            },
            EffectiveInput::Current(current) => {
                if !current.same(&inputs[position].persisted) {
                    return Some(
                        QueryProblem::new(
                            "stale_effective_configuration",
                            "the effective KIDE configuration changed after indexing; run kide index",
                            true,
                        ),
                    );
                }
            },
        }
    }
    if is_any_owner_stale(owners) {
        return Some(stale_source_problem());
    }
    None
}

/// The source units that declare symbols.
pub open spec fn symbol_owners(symbols: Seq<SymbolRecord>) -> Seq<SourceUnitId> {
    Seq::new(symbols.len(), |i: int| symbols[i].declaration.source_unit)
}

/// The source units in which occurrences stand.
pub open spec fn occurrence_owners(occurrences: Seq<SourceOccurrence>) -> Seq<SourceUnitId> {
    Seq::new(occurrences.len(), |i: int| occurrences[i].range.source_unit)
}

/// The source units that a payload rests on.
pub open spec fn owners_of(payload: QueryPayload) -> Seq<SourceUnitId> {
    match payload {
        QueryPayload::Symbols { symbols } => symbol_owners(symbols@),
        QueryPayload::Implementations { symbols } => symbol_owners(symbols@),
        QueryPayload::Definition { symbol } => seq![symbol.declaration.source_unit],
        QueryPayload::Refs { references } => occurrence_owners(references@),
        QueryPayload::Callers { calls } => occurrence_owners(calls@),
        QueryPayload::TypeAt { occurrence, .. } => seq![occurrence.range.source_unit],
        _ => Seq::empty(),
    }
}

fn list_symbol_owners(symbols: &[SymbolRecord]) -> (result: Vec<SourceUnitId>)
    ensures
        result@ == symbol_owners(symbols@),
{
    let mut result: Vec<SourceUnitId> = Vec::new();
    let mut i: usize = 0;
    while i < symbols.len()
        invariant
            i <= symbols@.len(),
            result@.len() == i,
            forall|j: int| 0 <= j < i ==> #[trigger] result@[j] == symbol_owners(symbols@)[j],
        decreases symbols@.len() - i,
    {
        result.push(symbols[i].declaration.source_unit.clone());
        i = i + 1;
    }
    assert(result@ =~= symbol_owners(symbols@));
    result
}

fn list_occurrence_owners(occurrences: &[SourceOccurrence]) -> (result: Vec<SourceUnitId>)
    ensures
        result@ == occurrence_owners(occurrences@),
{
    let mut result: Vec<SourceUnitId> = Vec::new();
    let mut i: usize = 0;
    while i < occurrences.len()
        invariant
            i <= occurrences@.len(),
            result@.len() == i,
            forall|j: int|
                0 <= j < i ==> #[trigger] result@[j] == occurrence_owners(occurrences@)[j],
        decreases occurrences@.len() - i,
    {
        result.push(occurrences[i].range.source_unit.clone());
        i = i + 1;
    }
    assert(result@ =~= occurrence_owners(occurrences@));
    result
}

/// The source units whose files have to be looked at before a payload is
/// served, each once, in ascending order.
pub fn payload_owners(payload: &QueryPayload) -> (result: Vec<SourceUnitId>)
    ensures
        identifiers::unit_texts(result@) == ordering::sorted_texts(
            ordered_map::keys_of(owners_of(*payload)),
        ),
{
    let owners: Vec<SourceUnitId> = match payload {
        QueryPayload::Symbols { symbols } => list_symbol_owners(symbols.as_slice()),
        QueryPayload::Implementations { symbols } => list_symbol_owners(symbols.as_slice()),
        QueryPayload::Definition { symbol } => {
            let mut one: Vec<SourceUnitId> = Vec::new();
            one.push(symbol.declaration.source_unit.clone());
            assert(one@ =~= seq![symbol.declaration.source_unit]);
            one
        },
        QueryPayload::Refs { references } => list_occurrence_owners(references.as_slice()),
        QueryPayload::Callers { calls } => list_occurrence_owners(calls.as_slice()),
        QueryPayload::TypeAt { occurrence, .. } => {
            let mut one: Vec<SourceUnitId> = Vec::new();
            one.push(occurrence.range.source_unit.clone());
            assert(one@ =~= seq![occurrence.range.source_unit]);
            one
        },
        _ => Vec::new(),
    };
    assert(owners@ =~= owners_of(*payload));
    sorted_units(owners.as_slice())
}

/// The name of a payload's kind.
pub open spec fn kind_of_payload(payload: QueryPayload) -> Seq<char> {
    match payload {
        QueryPayload::Index(_) => "index"@,
        QueryPayload::Symbols { .. } => "symbols"@,
        QueryPayload::Definition { .. } => "definition"@,
        QueryPayload::Refs { .. } => "refs"@,
        QueryPayload::Callers { .. } => "callers"@,
        QueryPayload::Implementations { .. } => "implementations"@,
        QueryPayload::TypeAt { .. } => "type_at"@,
        QueryPayload::Status(_) => "status"@,
        QueryPayload::Selector { .. } => "selector"@,
    }
}

/// Computes `kind_of_payload`.
pub fn payload_kind(payload: &QueryPayload) -> (result: &'static str)
    ensures
        result@ == kind_of_payload(*payload),
{
    match payload {
        QueryPayload::Index(_) => "index",
        QueryPayload::Symbols { .. } => "symbols",
        QueryPayload::Definition { .. } => "definition",
        QueryPayload::Refs { .. } => "refs",
        QueryPayload::Callers { .. } => "callers",
        QueryPayload::Implementations { .. } => "implementations",
        QueryPayload::TypeAt { .. } => "type_at",
        QueryPayload::Status(_) => "status",
        QueryPayload::Selector { .. } => "selector",
    }
}

/// Under the strict policy nothing is served whose configuration inputs or
/// owning sources are not what was indexed.
pub proof fn law_strict_gate_serves_only_fresh(
    inputs: Seq<InputObservation>,
    effective: EffectiveInput,
    owners: Seq<SourceObservation>,
    i: int,
)
    requires
        gate_problem(FreshnessStrategy::FreshOnly, inputs, effective, owners) is None,
    ensures
        0 <= i < inputs.len() && !is_effective(inputs[i]) ==> is_current(
            inputs[i].current,
            inputs[i].persisted,
        ),
        0 <= i < owners.len() && owners[i].origin != SourceOrigin::Dependency ==> is_current(
            owners[i].current,
            owners[i].content,
        ),
{
}

/// The lenient policy holds nothing back, and every freshness problem is mended
/// by indexing again.
pub proof fn law_gate_problems_are_retryable(
    strategy: FreshnessStrategy,
    inputs: Seq<InputObservation>,
    effective: EffectiveInput,
    owners: Seq<SourceObservation>,
)
    ensures
        strategy == FreshnessStrategy::AllowStale ==> gate_problem(
            strategy,
            inputs,
            effective,
            owners,
        ) is None,
        gate_problem(strategy, inputs, effective, owners) matches Some(problem)
            ==> problem.retryable,
{
}

proof fn lemma_effective_position(inputs: Seq<InputObservation>)
    ensures
        0 <= effective_position(inputs) <= inputs.len(),
        effective_position(inputs) < inputs.len() ==> inputs[effective_position(inputs)].path@
            == EFFECTIVE_CONFIGURATION_PATH@,
        forall|i: int|
            0 <= i < effective_position(inputs) && i < inputs.len() ==> (
            #[trigger] inputs[i]).path@ != EFFECTIVE_CONFIGURATION_PATH@,
    decreases inputs.len(),
{
    if inputs.len() > 0 && !is_effective(inputs[0]) {
        let rest = inputs.drop_first();
        lemma_effective_position(rest);
        assert forall|i: int| 0 <= i < effective_position(inputs) && i < inputs.len() implies (
        #[trigger] inputs[i]).path@ != EFFECTIVE_CONFIGURATION_PATH@ by {
            if i > 0 {
                assert(rest[i - 1] == inputs[i]);
            }
        }
    }
}

/// Where every file of an input and of an owning source is what was indexed and
/// the effective configuration is the one that was indexed, an answer is
/// served, under either strategy. Dependencies are not looked at.
pub proof fn law_unchanged_answer_is_served(
    strategy: FreshnessStrategy,
    inputs: &[InputObservation],
    effective: &EffectiveInput,
    owners: &[SourceObservation],
    result: Option<QueryProblem>,
)
    requires
        call_ensures(freshness_problem, (strategy, inputs, effective, owners), result),
        forall|i: int|
            0 <= i < inputs@.len() ==> if (#[trigger] inputs@[i]).path@
                == ".kide/effective-config"@ {
                *effective is Current && effective->Current_0@ == inputs@[i].persisted@
            } else {
                inputs@[i].current is Some && inputs@[i].current->0@ == inputs@[i].persisted@
            },
        forall|i: int|
            0 <= i < owners@.len() ==> (#[trigger] owners@[i]).origin == SourceOrigin::Dependency
                || (owners@[i].current is Some && owners@[i].current->0@ == owners@[i].content@),
    ensures
        result is None,
{
    lemma_effective_position(inputs@);
    let position = effective_position(inputs@);
    if position < inputs@.len() {
        assert(inputs@[position].path@ == ".kide/effective-config"@);
    }
    if has_stale_input(inputs@) {
        let i = choose|i: int|
            0 <= i < inputs@.len() && !is_effective(#[trigger] inputs@[i]) && !is_current(
                inputs@[i].current,
                inputs@[i].persisted,
            );
        assert(inputs@[i].path@ != ".kide/effective-config"@);
    }
}

/// Under the strict strategy an answer is served only where nothing changed:
/// every file of an input, the effective configuration where it was recorded,
/// and every owning source that is no dependency. Under the other strategy
/// nothing is held back.
pub proof fn law_served_answer_is_unchanged(
    strategy: FreshnessStrategy,
    inputs: &[InputObservation],
    effective: &EffectiveInput,
    owners: &[SourceObservation],
    result: Option<QueryProblem>,
)
    requires
        call_ensures(freshness_problem, (strategy, inputs, effective, owners), result),
    ensures
        strategy == FreshnessStrategy::AllowStale ==> result is None,
        strategy == FreshnessStrategy::FreshOnly && result is None ==> {
            &&& forall|i: int|
                0 <= i < inputs@.len() && (#[trigger] inputs@[i]).path@
                    != ".kide/effective-config"@ ==> inputs@[i].current is Some
                    && inputs@[i].current->0@ == inputs@[i].persisted@
            &&& forall|i: int|
                0 <= i < inputs@.len() && (#[trigger] inputs@[i]).path@
                    == ".kide/effective-config"@ && (forall|j: int|
                    0 <= j < i ==> (#[trigger] inputs@[j]).path@ != ".kide/effective-config"@)
                    ==> *effective is Current && effective->Current_0@ == inputs@[i].persisted@
            &&& forall|i: int|
                0 <= i < owners@.len() && (#[trigger] owners@[i]).origin
                    != SourceOrigin::Dependency ==> owners@[i].current is Some
                    && owners@[i].current->0@ == owners@[i].content@
        },
{
    lemma_effective_position(inputs@);
    let position = effective_position(inputs@);
    if strategy == FreshnessStrategy::FreshOnly && result is None {
        assert forall|i: int|
            0 <= i < inputs@.len() && (#[trigger] inputs@[i]).path@
                != ".kide/effective-config"@ implies inputs@[i].current is Some
            && inputs@[i].current->0@ == inputs@[i].persisted@ by {
            assert(!is_effective(inputs@[i]));
        }
        assert forall|i: int|
            0 <= i < inputs@.len() && (#[trigger] inputs@[i]).path@
                == ".kide/effective-config"@ && (forall|j: int|
                0 <= j < i ==> (#[trigger] inputs@[j]).path@
                    != ".kide/effective-config"@) implies *effective is Current
            && effective->Current_0@ == inputs@[i].persisted@ by {
            if position < i {
                assert(inputs@[position].path@ != ".kide/effective-config"@);
            }
            assert(position == i);
        }
    }
}

/// Which problem an answer is held back for: a changed or missing file of an
/// input before all else, then the effective configuration, then an owner.
pub proof fn law_gate_names_the_first_problem(
    inputs: &[InputObservation],
    effective: &EffectiveInput,
    owners: &[SourceObservation],
    result: Option<QueryProblem>,
)
    requires
        call_ensures(
            freshness_problem,
            (FreshnessStrategy::FreshOnly, inputs, effective, owners),
            result,
        ),
    ensures
        (exists|i: int|
            0 <= i < inputs@.len() && (#[trigger] inputs@[i]).path@ != ".kide/effective-config"@
                && !(inputs@[i].current is Some && inputs@[i].current->0@
                == inputs@[i].persisted@)) ==> result is Some && result->0@.code
            == "stale_configuration_input"@,
        result is Some && result->0@.code == "stale_source_snapshot"@ ==> exists|i: int|
            0 <= i < owners@.len() && (#[trigger] owners@[i]).origin != SourceOrigin::Dependency
                && !(owners@[i].current is Some && owners@[i].current->0@
                == owners@[i].content@),
        result is Some && result->0@.code == "missing_workspace_manifest"@ ==> *effective
            is NoManifest,
        result is Some && result->0@.code == "stale_effective_configuration"@ ==> *effective
            is Current,
{
    reveal_strlit("stale_configuration_input");
    reveal_strlit("missing_workspace_manifest");
    reveal_strlit("stale_effective_configuration");
    reveal_strlit("stale_source_snapshot");
    if exists|i: int|
        0 <= i < inputs@.len() && (#[trigger] inputs@[i]).path@ != ".kide/effective-config"@ && !(
        inputs@[i].current is Some && inputs@[i].current->0@ == inputs@[i].persisted@) {
        let i = choose|i: int|
            0 <= i < inputs@.len() && (#[trigger] inputs@[i]).path@ != ".kide/effective-config"@
                && !(inputs@[i].current is Some && inputs@[i].current->0@
                == inputs@[i].persisted@);
        assert(!is_effective(inputs@[i]));
        assert(has_stale_input(inputs@));
    }
    assert("stale_source_snapshot"@.len() == 21);
    assert("stale_configuration_input"@.len() == 25);
    assert("missing_workspace_manifest"@.len() == 26);
    assert("stale_effective_configuration"@.len() == 29);
    if has_stale_owner(owners@) {
        let i = choose|i: int|
            0 <= i < owners@.len() && (#[trigger] owners@[i]).origin != SourceOrigin::Dependency
                && !is_current(owners@[i].current, owners@[i].content);
        assert(owners@[i].origin != SourceOrigin::Dependency);
    }
}

/// The files that are looked at before a payload is served are those of the
/// source units in which what it shows stands: of each declaration, reference,
/// call and occurrence, each once, and of nothing else.
pub proof fn law_owners_are_where_the_payload_stands(
    payload: &QueryPayload,
    owners: Vec<SourceUnitId>,
    id: Seq<char>,
)
    requires
        call_ensures(payload_owners, (payload,), owners),
    ensures
        owners@.map_values(|owner: SourceUnitId| owner@).no_duplicates(),
        ({
            let listed = exists|i: int| 0 <= i < owners@.len() && (#[trigger] owners@[i])@ == id;
            match *payload {
                QueryPayload::Symbols { symbols } => listed <==> exists|i: int|
                    0 <= i < symbols@.len() && (
                    #[trigger] symbols@[i]).declaration.source_unit@ == id,
                QueryPayload::Implementations { symbols } => listed <==> exists|i: int|
                    0 <= i < symbols@.len() && (
                    #[trigger] symbols@[i]).declaration.source_unit@ == id,
                QueryPayload::Definition { symbol } => listed
                    <==> symbol.declaration.source_unit@ == id,
                QueryPayload::Refs { references } => listed <==> exists|i: int|
                    0 <= i < references@.len() && (
                    #[trigger] references@[i]).range.source_unit@ == id,
                QueryPayload::Callers { calls } => listed <==> exists|i: int|
                    0 <= i < calls@.len() && (#[trigger] calls@[i]).range.source_unit@ == id,
                QueryPayload::TypeAt { occurrence, .. } => listed
                    <==> occurrence.range.source_unit@ == id,
                QueryPayload::Index(_) | QueryPayload::Status(_) | QueryPayload::Selector {
                    ..
                } => !listed,
            }
        }),
{
    let units = owners_of(*payload);
    let texts = identifiers::unit_texts(owners@);
    ordered_map::lemma_keys_of(units, id);
    ordering::lemma_sorted_texts(ordered_map::keys_of(units));
    assert(texts.to_set().contains(id) == ordered_map::keys_of(units).contains(id));
    assert(owners@.map_values(|owner: SourceUnitId| owner@) =~= texts);
    assert forall|i: int, j: int|
        0 <= i < texts.len() && 0 <= j < texts.len() && i != j implies texts[i] != texts[j] by {
        text::lemma_text_lt_irreflexive(texts[i]);
        if i < j {
            assert(text::text_lt(texts[i], texts[j]));
        } else {
            assert(text::text_lt(texts[j], texts[i]));
        }
    }
    let listed = exists|i: int| 0 <= i < owners@.len() && (#[trigger] owners@[i])@ == id;
    if texts.to_set().contains(id) {
        let i = texts.index_of(id);
        assert(owners@[i]@ == id);
    }
    if listed {
        let i = choose|i: int| 0 <= i < owners@.len() && (#[trigger] owners@[i])@ == id;
        assert(texts[i] == id);
    }
    let owned = exists|i: int| 0 <= i < units.len() && (#[trigger] units[i]).key() == id;
    assert(listed == owned);
    match *payload {
        QueryPayload::Symbols { symbols } => {
            lemma_symbol_owners(symbols@, id);
        },
        QueryPayload::Implementations { symbols } => {
            lemma_symbol_owners(symbols@, id);
        },
        QueryPayload::Refs { references } => {
            lemma_occurrence_owners(references@, id);
        },
        QueryPayload::Callers { calls } => {
            lemma_occurrence_owners(calls@, id);
        },
        QueryPayload::Definition { symbol } => {
            assert(units[0].key() == symbol.declaration.source_unit@);
        },
        QueryPayload::TypeAt { occurrence, .. } => {
            assert(units[0].key() == occurrence.range.source_unit@);
        },
        _ => {},
    }
}

proof fn lemma_symbol_owners(symbols: Seq<SymbolRecord>, id: Seq<char>)
    ensures
        (exists|i: int|
            0 <= i < symbol_owners(symbols).len() && (#[trigger] symbol_owners(symbols)[i]).key()
                == id) <==> exists|i: int|
            0 <= i < symbols.len() && (#[trigger] symbols[i]).declaration.source_unit@ == id,
{
    let owners = symbol_owners(symbols);
    if exists|i: int| 0 <= i < owners.len() && (#[trigger] owners[i]).key() == id {
        let i = choose|i: int| 0 <= i < owners.len() && (#[trigger] owners[i]).key() == id;
        assert(symbols[i].declaration.source_unit@ == id);
    }
    if exists|i: int| 0 <= i < symbols.len() && (#[trigger] symbols[i]).declaration.source_unit@
        == id {
        let i = choose|i: int|
            0 <= i < symbols.len() && (#[trigger] symbols[i]).declaration.source_unit@ == id;
        assert(owners[i].key() == id);
    }
}

proof fn lemma_occurrence_owners(occurrences: Seq<SourceOccurrence>, id: Seq<char>)
    ensures
        (exists|i: int|
            0 <= i < occurrence_owners(occurrences).len() && (
            #[trigger] occurrence_owners(occurrences)[i]).key() == id) <==> exists|i: int|
            0 <= i < occurrences.len() && (#[trigger] occurrences[i]).range.source_unit@ == id,
{
    let owners = occurrence_owners(occurrences);
    if exists|i: int| 0 <= i < owners.len() && (#[trigger] owners[i]).key() == id {
        let i = choose|i: int| 0 <= i < owners.len() && (#[trigger] owners[i]).key() == id;
        assert(occurrences[i].range.source_unit@ == id);
    }
    if exists|i: int| 0 <= i < occurrences.len() && (#[trigger] occurrences[i]).range.source_unit@
        == id {
        let i = choose|i: int|
            0 <= i < occurrences.len() && (#[trigger] occurrences[i]).range.source_unit@ == id;
        assert(owners[i].key() == id);
    }
}

/// A payload is named after the request that it answers.
pub proof fn law_payloads_are_named(payload: &QueryPayload, kind: &'static str)
    requires
        call_ensures(payload_kind, (payload,), kind),
    ensures
        *payload is Index ==> kind@ == "index"@,
        *payload is Status ==> kind@ == "status"@,
        *payload is Symbols ==> kind@ == "symbols"@,
        *payload is Selector ==> kind@ == "selector"@,
        *payload is Definition ==> kind@ == "definition"@,
        *payload is Refs ==> kind@ == "refs"@,
        *payload is Implementations ==> kind@ == "implementations"@,
        *payload is Callers ==> kind@ == "callers"@,
        *payload is TypeAt ==> kind@ == "type_at"@,
{
}

} // verus!
