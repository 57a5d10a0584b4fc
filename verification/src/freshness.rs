//! Conservative planning for reusing persisted source snapshots.
//!
//! The planner has no compiler knowledge: a changed content or context
//! fingerprint always requires a fresh worker snapshot. It over-invalidates
//! rather than expose a semantic fact from a prior input.

use vstd::prelude::*;

use crate::canonical::{Provenance, SourceUnit, SourceUnitId};
use crate::ordered_map;
use crate::ordered_map::{index_by_key, missing_keys, Keyed, OrderedMap};
use crate::ordering;
use crate::text;

verus! {

/// Why a source unit has to be analyzed again.
#[derive(Debug, Clone, Copy, PartialEq, Eq, Structural)]
pub enum InvalidationReason {
    ContentChanged,
    ContextChanged,
    BackendChanged,
    AnalysisOptionsChanged,
}

/// A source unit with the worker implementation and options that analyzed it.
#[derive(Debug, PartialEq, Eq)]
pub struct AnalysisInput {
    pub source_unit: SourceUnit,
    pub provenance: Provenance,
}

impl Clone for AnalysisInput {
    fn clone(&self) -> (result: Self)
        ensures
            result == *self,
    {
        AnalysisInput { source_unit: self.source_unit.clone(), provenance: self.provenance.clone() }
    }
}

impl Keyed for SourceUnit {
    open spec fn key(&self) -> Seq<char> {
        self.id@
    }

    fn key_text(&self) -> (result: &str) {
        self.id.as_str()
    }
}

impl Keyed for AnalysisInput {
    open spec fn key(&self) -> Seq<char> {
        self.source_unit.id@
    }

    fn key_text(&self) -> (result: &str) {
        self.source_unit.id.as_str()
    }
}

/// What to do about one source unit.
#[derive(Debug, Clone, PartialEq, Eq)]
pub enum IndexAction {
    Reuse(SourceUnit),
    Reanalyze { source_unit: SourceUnit, reason: InvalidationReason },
    Remove { source_unit: SourceUnitId },
}

/// Why a unit cannot be reused, judged by its fingerprints alone.
pub open spec fn source_reason(unit: SourceUnit, previous: Option<SourceUnit>) -> Option<
    InvalidationReason,
> {
    match previous {
        None => Some(InvalidationReason::ContentChanged),
        Some(previous) => if previous.context@ != unit.context@ {
            Some(InvalidationReason::ContextChanged)
        } else if previous.content@ != unit.content@ {
            Some(InvalidationReason::ContentChanged)
        } else {
            None
        },
    }
}

/// Why an input cannot be reused: its fingerprints first, then the worker
/// identity, then the analysis options.
pub open spec fn analysis_reason(input: AnalysisInput, previous: Option<AnalysisInput>) -> Option<
    InvalidationReason,
> {
    match previous {
        None => Some(InvalidationReason::ContentChanged),
        Some(previous) => if previous.source_unit.context@ != input.source_unit.context@ {
            Some(InvalidationReason::ContextChanged)
        } else if previous.source_unit.content@ != input.source_unit.content@ {
            Some(InvalidationReason::ContentChanged)
        } else if previous.provenance.backend@ != input.provenance.backend@
            || previous.provenance.backend_version@ != input.provenance.backend_version@
            || previous.provenance.protocol_version != input.provenance.protocol_version {
            Some(InvalidationReason::BackendChanged)
        } else if previous.provenance.analysis_options@ != input.provenance.analysis_options@ {
            Some(InvalidationReason::AnalysisOptionsChanged)
        } else {
            None
        },
    }
}

/// The action on a current unit.
pub open spec fn unit_action(unit: SourceUnit, reason: Option<InvalidationReason>) -> IndexAction {
    match reason {
        Some(reason) => IndexAction::Reanalyze { source_unit: unit, reason },
        None => IndexAction::Reuse(unit),
    }
}

/// The current ids in the order in which a plan lists them.
pub open spec fn kept_ids<T: Keyed>(current: Seq<T>) -> Seq<Seq<char>> {
    ordering::sorted_texts(ordered_map::keys_of(current))
}

/// The ids that are no longer current, in the order in which a plan lists them.
pub open spec fn removed_ids<T: Keyed>(current: Seq<T>, persisted: Seq<T>) -> Seq<Seq<char>> {
    ordering::sorted_texts(
        ordered_map::keys_of(persisted).difference(ordered_map::keys_of(current)),
    )
}

/// The removals that close a plan: one for each id, in order.
pub open spec fn removes(actions: Seq<IndexAction>, ids: Seq<Seq<char>>) -> bool {
    &&& actions.len() == ids.len()
    &&& forall|i: int|
        0 <= i < ids.len() ==> (#[trigger] actions[i]) is Remove && actions[i]->Remove_source_unit@
            == ids[i]
}

/// The source-level plan: one action for each current id in ascending order,
/// then one removal for each id that is gone, in ascending order. Where an id
/// occurs twice on a side, the last one counts.
pub open spec fn is_source_plan(
    plan: Seq<IndexAction>,
    current: Seq<SourceUnit>,
    persisted: Seq<SourceUnit>,
) -> bool {
    let kept = kept_ids(current);
    &&& plan.len() == kept.len() + removed_ids(current, persisted).len()
    &&& forall|i: int|
        0 <= i < kept.len() ==> #[trigger] plan[i] == unit_action(
            ordered_map::latest(current, kept[i]),
            source_reason(
                ordered_map::latest(current, kept[i]),
                ordered_map::lookup(persisted, kept[i]),
            ),
        )
    &&& removes(plan.skip(kept.len() as int), removed_ids(current, persisted))
}

/// The source-level plan that also looks at the worker and its options.
pub open spec fn is_analysis_plan(
    plan: Seq<IndexAction>,
    current: Seq<AnalysisInput>,
    persisted: Seq<AnalysisInput>,
) -> bool {
    let kept = kept_ids(current);
    &&& plan.len() == kept.len() + removed_ids(current, persisted).len()
    &&& forall|i: int|
        0 <= i < kept.len() ==> #[trigger] plan[i] == unit_action(
            ordered_map::latest(current, kept[i]).source_unit,
            analysis_reason(
                ordered_map::latest(current, kept[i]),
                ordered_map::lookup(persisted, kept[i]),
            ),
        )
    &&& removes(plan.skip(kept.len() as int), removed_ids(current, persisted))
}

fn source_invalidation(unit: &SourceUnit, previous: Option<&SourceUnit>) -> (result: Option<
    InvalidationReason,
>)
    ensures
        result == source_reason(
            *unit,
            match previous {
                Some(previous) => Some(*previous),
                None => None,
            },
        ),
{
    match previous {
        None => Some(InvalidationReason::ContentChanged),
        Some(previous) => {
            if !previous.context.same(&unit.context) {
                Some(InvalidationReason::ContextChanged)
            } else if !previous.content.same(&unit.content) {
                Some(InvalidationReason::ContentChanged)
            } else {
                None
            }
        },
    }
}

fn analysis_invalidation(input: &AnalysisInput, previous: Option<&AnalysisInput>) -> (result:
    Option<InvalidationReason>)
    ensures
        result == analysis_reason(
            *input,
            match previous {
                Some(previous) => Some(*previous),
                None => None,
            },
        ),
{
    match previous {
        None => Some(InvalidationReason::ContentChanged),
        Some(previous) => {
            if !previous.source_unit.context.same(&input.source_unit.context) {
                Some(InvalidationReason::ContextChanged)
            } else if !previous.source_unit.content.same(&input.source_unit.content) {
                Some(InvalidationReason::ContentChanged)
            } else if previous.provenance.backend != input.provenance.backend
                || previous.provenance.backend_version != input.provenance.backend_version
                || previous.provenance.protocol_version != input.provenance.protocol_version {
                Some(InvalidationReason::BackendChanged)
            } else if !previous.provenance.analysis_options.same(
                &input.provenance.analysis_options,
            ) {
                Some(InvalidationReason::AnalysisOptionsChanged)
            } else {
                None
            }
        },
    }
}

fn action_for(unit: &SourceUnit, reason: Option<InvalidationReason>) -> (result: IndexAction)
    ensures
        result == unit_action(*unit, reason),
{
    match reason {
        Some(reason) => IndexAction::Reanalyze { source_unit: unit.clone(), reason },
        None => IndexAction::Reuse(unit.clone()),
    }
}

/// Appends one removal for each id.
fn append_removals(actions: &mut Vec<IndexAction>, ids: &[String])
    ensures
        final(actions)@.len() == old(actions)@.len() + ids@.len(),
        final(actions)@.take(old(actions)@.len() as int) == old(actions)@,
        removes(final(actions)@.skip(old(actions)@.len() as int), text::texts(ids@)),
{
    let ghost start = actions@;
    let mut i: usize = 0;
    while i < ids.len()
        invariant
            i <= ids@.len(),
            actions@.len() == start.len() + i,
            actions@.take(start.len() as int) == start,
            forall|j: int|
                0 <= j < i ==> (#[trigger] actions@[start.len() + j]) is Remove
                    && actions@[start.len() + j]->Remove_source_unit@ == ids@[j]@,
        decreases ids@.len() - i,
    {
        let ghost before = actions@;
        actions.push(IndexAction::Remove { source_unit: SourceUnitId::new(ids[i].as_str()) });
        i = i + 1;
        assert(actions@.take(start.len() as int) =~= before.take(start.len() as int));
    }
    proof {
        let tail = actions@.skip(start.len() as int);
        assert forall|j: int| 0 <= j < ids@.len() implies (#[trigger] tail[j]) is Remove
            && tail[j]->Remove_source_unit@ == text::texts(ids@)[j] by {
            assert(tail[j] == actions@[start.len() + j]);
        }
    }
}

/// Computes a deterministic, conservative source-level update plan.
pub fn plan_invalidation(current: &[SourceUnit], persisted: &[SourceUnit]) -> (result: Vec<
    IndexAction,
>)
    ensures
        is_source_plan(result@, current@, persisted@),
{
    let now: OrderedMap<usize> = index_by_key(current);
    let stored: OrderedMap<usize> = index_by_key(persisted);
    let mut actions: Vec<IndexAction> = Vec::new();
    let mut i: usize = 0;
    let ghost kept = kept_ids(current@);
    proof {
        now.lemma_order();
    }
    while i < now.len()
        invariant
            now.wf(),
            stored.wf(),
            now.order() == kept,
            now@.dom() == ordered_map::keys_of(current@),
            stored@.dom() == ordered_map::keys_of(persisted@),
            forall|key: Seq<char>| #[trigger]
                now@.dom().contains(key) ==> now@[key] < current@.len()
                    && current@[now@[key] as int] == ordered_map::latest(current@, key),
            forall|key: Seq<char>| #[trigger]
                stored@.dom().contains(key) ==> stored@[key] < persisted@.len()
                    && persisted@[stored@[key] as int] == ordered_map::latest(persisted@, key),
            i <= kept.len(),
            actions@.len() == i,
            forall|j: int|
                0 <= j < i ==> #[trigger] actions@[j] == unit_action(
                    ordered_map::latest(current@, kept[j]),
                    source_reason(
                        ordered_map::latest(current@, kept[j]),
                        ordered_map::lookup(persisted@, kept[j]),
                    ),
                ),
        decreases kept.len() - i,
    {
        let key = now.key_at(i);
        let unit = &current[*now.value_at(i)];
        let previous = match stored.get(key.as_str()) {
            Some(position) => Some(&persisted[*position]),
            None => None,
        };
        let reason = source_invalidation(unit, previous);
        actions.push(action_for(unit, reason));
        i = i + 1;
    }
    let ghost first = actions@;
    let gone = missing_keys(&stored, &now);
    append_removals(&mut actions, gone.as_slice());
    assert forall|j: int| 0 <= j < kept.len() implies #[trigger] actions@[j] == first[j] by {
        assert(actions@.take(first.len() as int)[j] == first[j]);
    }
    actions
}

/// Extends source comparison with worker identity and analysis-option checks.
pub fn plan_analysis_invalidation(current: &[AnalysisInput], persisted: &[AnalysisInput]) -> (result:
    Vec<IndexAction>)
    ensures
        is_analysis_plan(result@, current@, persisted@),
{
    let now: OrderedMap<usize> = index_by_key(current);
    let stored: OrderedMap<usize> = index_by_key(persisted);
    let mut actions: Vec<IndexAction> = Vec::new();
    let mut i: usize = 0;
    let ghost kept = kept_ids(current@);
    proof {
        now.lemma_order();
    }
    while i < now.len()
        invariant
            now.wf(),
            stored.wf(),
            now.order() == kept,
            now@.dom() == ordered_map::keys_of(current@),
            stored@.dom() == ordered_map::keys_of(persisted@),
            forall|key: Seq<char>| #[trigger]
                now@.dom().contains(key) ==> now@[key] < current@.len()
                    && current@[now@[key] as int] == ordered_map::latest(current@, key),
            forall|key: Seq<char>| #[trigger]
                stored@.dom().contains(key) ==> stored@[key] < persisted@.len()
                    && persisted@[stored@[key] as int] == ordered_map::latest(persisted@, key),
            i <= kept.len(),
            actions@.len() == i,
            forall|j: int|
                0 <= j < i ==> #[trigger] actions@[j] == unit_action(
                    ordered_map::latest(current@, kept[j]).source_unit,
                    analysis_reason(
                        ordered_map::latest(current@, kept[j]),
                        ordered_map::lookup(persisted@, kept[j]),
                    ),
                ),
        decreases kept.len() - i,
    {
        let key = now.key_at(i);
        let input = &current[*now.value_at(i)];
        let previous = match stored.get(key.as_str()) {
            Some(position) => Some(&persisted[*position]),
            None => None,
        };
        let reason = analysis_invalidation(input, previous);
        actions.push(action_for(&input.source_unit, reason));
        i = i + 1;
    }
    let ghost first = actions@;
    let gone = missing_keys(&stored, &now);
    append_removals(&mut actions, gone.as_slice());
    assert forall|j: int| 0 <= j < kept.len() implies #[trigger] actions@[j] == first[j] by {
        assert(actions@.take(first.len() as int)[j] == first[j]);
    }
    actions
}

/// The ids that a plan lists are the current ones and the ones that are gone.
proof fn lemma_listed_ids<T: Keyed>(current: Seq<T>, persisted: Seq<T>)
    ensures
        kept_ids(current).to_set() == ordered_map::keys_of(current),
        removed_ids(current, persisted).to_set() == ordered_map::keys_of(persisted).difference(
            ordered_map::keys_of(current),
        ),
{
    ordered_map::lemma_keys_of(current, Seq::empty());
    ordered_map::lemma_keys_of(persisted, Seq::empty());
    ordering::lemma_sorted_texts(ordered_map::keys_of(current));
    ordering::lemma_sorted_texts(
        ordered_map::keys_of(persisted).difference(ordered_map::keys_of(current)),
    );
}

/// Where nothing changed, every snapshot is reused and none is removed.
pub proof fn law_unchanged_sources_are_reused(plan: Seq<IndexAction>, units: Seq<SourceUnit>)
    requires
        is_source_plan(plan, units, units),
    ensures
        forall|i: int| 0 <= i < plan.len() ==> (#[trigger] plan[i]) is Reuse,
{
    lemma_listed_ids(units, units);
    let kept = kept_ids(units);
    let gone = removed_ids(units, units);
    if gone.len() > 0 {
        assert(gone.to_set().contains(gone[0]));
    }
    assert forall|i: int| 0 <= i < plan.len() implies (#[trigger] plan[i]) is Reuse by {
        assert(kept.to_set().contains(kept[i]));
    }
}

/// Where neither the sources nor the worker and its options changed, every
/// snapshot is reused and none is removed.
pub proof fn law_unchanged_analysis_is_reused(plan: Seq<IndexAction>, inputs: Seq<AnalysisInput>)
    requires
        is_analysis_plan(plan, inputs, inputs),
    ensures
        forall|i: int| 0 <= i < plan.len() ==> (#[trigger] plan[i]) is Reuse,
{
    lemma_listed_ids(inputs, inputs);
    let kept = kept_ids(inputs);
    let gone = removed_ids(inputs, inputs);
    if gone.len() > 0 {
        assert(gone.to_set().contains(gone[0]));
    }
    assert forall|i: int| 0 <= i < plan.len() implies (#[trigger] plan[i]) is Reuse by {
        assert(kept.to_set().contains(kept[i]));
    }
}

/// A snapshot is reused only where the persisted unit has the same content and
/// context fingerprints: no fact of a prior input is exposed.
pub proof fn law_reuse_needs_equal_fingerprints(
    plan: Seq<IndexAction>,
    current: Seq<SourceUnit>,
    persisted: Seq<SourceUnit>,
    i: int,
)
    requires
        is_source_plan(plan, current, persisted),
        0 <= i < plan.len(),
        plan[i] is Reuse,
    ensures
        ({
            let unit = plan[i]->Reuse_0;
            let previous = ordered_map::lookup(persisted, unit.id@);
            &&& current.contains(unit)
            &&& previous is Some
            &&& previous->Some_0.content@ == unit.content@
            &&& previous->Some_0.context@ == unit.context@
        }),
{
    lemma_listed_ids(current, persisted);
    let kept = kept_ids(current);
    if i >= kept.len() {
        assert(plan.skip(kept.len() as int)[i - kept.len()] == plan[i]);
        assert(plan[i] is Remove);
    } else {
        assert(kept.to_set().contains(kept[i]));
        ordered_map::lemma_keys_of(current, kept[i]);
    }
}

/// A snapshot is reused only where the worker and its options are the same,
/// too.
pub proof fn law_reuse_needs_equal_provenance(
    plan: Seq<IndexAction>,
    current: Seq<AnalysisInput>,
    persisted: Seq<AnalysisInput>,
    i: int,
)
    requires
        is_analysis_plan(plan, current, persisted),
        0 <= i < plan.len(),
        plan[i] is Reuse,
    ensures
        ({
            let unit = plan[i]->Reuse_0;
            let input = ordered_map::lookup(current, unit.id@);
            let previous = ordered_map::lookup(persisted, unit.id@);
            &&& input is Some && input->Some_0.source_unit == unit
            &&& previous is Some
            &&& previous->Some_0.source_unit.content@ == unit.content@
            &&& previous->Some_0.source_unit.context@ == unit.context@
            &&& previous->Some_0.provenance@ == input->Some_0.provenance@
        }),
{
    lemma_listed_ids(current, persisted);
    let kept = kept_ids(current);
    if i >= kept.len() {
        assert(plan.skip(kept.len() as int)[i - kept.len()] == plan[i]);
        assert(plan[i] is Remove);
    } else {
        assert(kept.to_set().contains(kept[i]));
        ordered_map::lemma_keys_of(current, kept[i]);
        ordered_map::lemma_keys_of(persisted, kept[i]);
    }
}

/// Exactly the persisted units that are no longer current are removed.
pub proof fn law_removed_units_are_gone(
    plan: Seq<IndexAction>,
    current: Seq<SourceUnit>,
    persisted: Seq<SourceUnit>,
    id: Seq<char>,
)
    requires
        is_source_plan(plan, current, persisted),
    ensures
        (exists|i: int|
            0 <= i < plan.len() && (#[trigger] plan[i]) is Remove && plan[i]->Remove_source_unit@
                == id) <==> ordered_map::keys_of(persisted).contains(id) && !ordered_map::keys_of(
            current,
        ).contains(id),
{
    lemma_listed_ids(current, persisted);
    let kept = kept_ids(current);
    let gone = removed_ids(current, persisted);
    let tail = plan.skip(kept.len() as int);
    if exists|i: int|
        0 <= i < plan.len() && (#[trigger] plan[i]) is Remove && plan[i]->Remove_source_unit@
            == id {
        let i = choose|i: int|
            0 <= i < plan.len() && (#[trigger] plan[i]) is Remove && plan[i]->Remove_source_unit@
                == id;
        if i >= kept.len() {
            assert(tail[i - kept.len()] == plan[i]);
            assert(gone.to_set().contains(gone[i - kept.len()]));
        }
    }
    if gone.to_set().contains(id) {
        let k = choose|k: int| 0 <= k < gone.len() && gone[k] == id;
        assert(tail[k] == plan[kept.len() + k]);
        assert(plan[kept.len() + k] is Remove);
    }
}

/// The id of the source unit that an action is about.
pub open spec fn acted_on(action: IndexAction) -> Seq<char> {
    match action {
        IndexAction::Reuse(unit) => unit.id@,
        IndexAction::Reanalyze { source_unit, .. } => source_unit.id@,
        IndexAction::Remove { source_unit } => source_unit@,
    }
}

/// A current source unit is analyzed again where it was not indexed before or
/// its content or context is another, and is reused otherwise. Where an id is
/// listed twice, its last entry counts.
pub proof fn law_each_source_is_acted_on(
    current: &[SourceUnit],
    persisted: &[SourceUnit],
    plan: Vec<IndexAction>,
    k: int,
    p: int,
) -> (i: int)
    requires
        call_ensures(plan_invalidation, (current, persisted), plan),
        0 <= k < current@.len(),
        forall|j: int|
            k < j < current@.len() ==> (#[trigger] current@[j]).id@ != current@[k].id@,
        -1 <= p < persisted@.len(),
        p >= 0 ==> persisted@[p].id@ == current@[k].id@,
        forall|j: int|
            p < j < persisted@.len() ==> (#[trigger] persisted@[j]).id@
                != current@[k].id@,
    ensures
        0 <= i < plan@.len(),
        plan@[i] == IndexAction::Reuse(current@[k]) || (plan@[i] is Reanalyze
            && plan@[i]->Reanalyze_source_unit == current@[k]),
        plan@[i] is Reanalyze <==> (p < 0 || persisted@[p].content@
            != current@[k].content@ || persisted@[p].context@
            != current@[k].context@),
        plan@[i] is Reanalyze ==> {
            let reason = plan@[i]->reason;
            &&& reason == InvalidationReason::ContextChanged <==> p >= 0
                && persisted@[p].context@ != current@[k].context@
            &&& reason == InvalidationReason::ContentChanged <==> p < 0
                || (persisted@[p].context@ == current@[k].context@
                && persisted@[p].content@ != current@[k].content@)
        },
{
    lemma_source_action(current@, persisted@, plan@, k, p)
}

pub proof fn lemma_source_action(
    current: Seq<SourceUnit>,
    persisted: Seq<SourceUnit>,
    plan: Seq<IndexAction>,
    k: int,
    p: int,
) -> (i: int)
    requires
        is_source_plan(plan, current, persisted),
        0 <= k < current.len(),
        forall|j: int|
            k < j < current.len() ==> (#[trigger] current[j]).id@ != current[k].id@,
        -1 <= p < persisted.len(),
        p >= 0 ==> persisted[p].id@ == current[k].id@,
        forall|j: int|
            p < j < persisted.len() ==> (#[trigger] persisted[j]).id@
                != current[k].id@,
    ensures
        0 <= i < plan.len(),
        plan[i] == IndexAction::Reuse(current[k]) || (plan[i] is Reanalyze
            && plan[i]->Reanalyze_source_unit == current[k]),
        plan[i] is Reanalyze <==> (p < 0 || persisted[p].content@
            != current[k].content@ || persisted[p].context@
            != current[k].context@),
        plan[i] is Reanalyze ==> {
            let reason = plan[i]->reason;
            &&& reason == InvalidationReason::ContextChanged <==> p >= 0
                && persisted[p].context@ != current[k].context@
            &&& reason == InvalidationReason::ContentChanged <==> p < 0
                || (persisted[p].context@ == current[k].context@
                && persisted[p].content@ != current[k].content@)
        },
{
    let id = current[k].id@;
    lemma_listed_ids(current, persisted);
    assert forall|j: int| k < j < current.len() implies (#[trigger] current[j]).key()
        != current[k].key() by {
        assert(current[j].id@ != id);
    }
    ordered_map::lemma_latest_at(current, k);
    if p >= 0 {
        assert forall|j: int| p < j < persisted.len() implies (#[trigger] persisted[j]).key()
            != persisted[p].key() by {
            assert(persisted[j].id@ != id);
        }
        ordered_map::lemma_latest_at(persisted, p);
    } else {
        ordered_map::lemma_keys_of(persisted, id);
        if ordered_map::keys_of(persisted).contains(id) {
            let j = choose|j: int|
                0 <= j < persisted.len() && (#[trigger] persisted[j]).key() == id;
            assert(persisted[j].id@ != id);
        }
    }
    let kept = kept_ids(current);
    assert(kept.to_set().contains(id));
    let i = kept.index_of(id);
    assert(kept[i] == id);
    assert(is_source_plan(plan, current, persisted));
    i
}

/// A current source unit is analyzed again where it was not indexed before or
/// its content, its context, the worker that analyzes it or the options of the
/// worker are others, and is reused otherwise. Where an id is listed twice, its
/// last entry counts.
pub proof fn law_each_input_is_acted_on(
    current: &[AnalysisInput],
    persisted: &[AnalysisInput],
    plan: Vec<IndexAction>,
    k: int,
    p: int,
) -> (i: int)
    requires
        call_ensures(plan_analysis_invalidation, (current, persisted), plan),
        0 <= k < current@.len(),
        forall|j: int|
            k < j < current@.len() ==> (#[trigger] current@[j]).source_unit.id@ != current@[k].source_unit.id@,
        -1 <= p < persisted@.len(),
        p >= 0 ==> persisted@[p].source_unit.id@ == current@[k].source_unit.id@,
        forall|j: int|
            p < j < persisted@.len() ==> (#[trigger] persisted@[j]).source_unit.id@
                != current@[k].source_unit.id@,
    ensures
        0 <= i < plan@.len(),
        plan@[i] == IndexAction::Reuse(current@[k].source_unit) || (plan@[i] is Reanalyze
            && plan@[i]->Reanalyze_source_unit == current@[k].source_unit),
        plan@[i] is Reanalyze <==> (p < 0 || persisted@[p].source_unit.content@
            != current@[k].source_unit.content@ || persisted@[p].source_unit.context@
            != current@[k].source_unit.context@
                || persisted@[p].provenance.backend@ != current@[k].provenance.backend@
                || persisted@[p].provenance.backend_version@
                != current@[k].provenance.backend_version@
                || persisted@[p].provenance.protocol_version
                != current@[k].provenance.protocol_version
                || persisted@[p].provenance.analysis_options@
                != current@[k].provenance.analysis_options@),
        plan@[i] is Reanalyze ==> {
            let reason = plan@[i]->reason;
            &&& reason == InvalidationReason::ContextChanged <==> p >= 0
                && persisted@[p].source_unit.context@ != current@[k].source_unit.context@
            &&& reason == InvalidationReason::ContentChanged <==> p < 0
                || (persisted@[p].source_unit.context@ == current@[k].source_unit.context@
                && persisted@[p].source_unit.content@ != current@[k].source_unit.content@)
            &&& p >= 0 && persisted@[p].source_unit.context@ == current@[k].source_unit.context@
                && persisted@[p].source_unit.content@ == current@[k].source_unit.content@ ==> (
            reason == InvalidationReason::AnalysisOptionsChanged <==> persisted@[p].provenance.backend@
                == current@[k].provenance.backend@ && persisted@[p].provenance.backend_version@
                == current@[k].provenance.backend_version@
                && persisted@[p].provenance.protocol_version
                == current@[k].provenance.protocol_version)
        },
{
    lemma_input_action(current@, persisted@, plan@, k, p)
}

pub proof fn lemma_input_action(
    current: Seq<AnalysisInput>,
    persisted: Seq<AnalysisInput>,
    plan: Seq<IndexAction>,
    k: int,
    p: int,
) -> (i: int)
    requires
        is_analysis_plan(plan, current, persisted),
        0 <= k < current.len(),
        forall|j: int|
            k < j < current.len() ==> (#[trigger] current[j]).source_unit.id@ != current[k].source_unit.id@,
        -1 <= p < persisted.len(),
        p >= 0 ==> persisted[p].source_unit.id@ == current[k].source_unit.id@,
        forall|j: int|
            p < j < persisted.len() ==> (#[trigger] persisted[j]).source_unit.id@
                != current[k].source_unit.id@,
    ensures
        0 <= i < plan.len(),
        plan[i] == IndexAction::Reuse(current[k].source_unit) || (plan[i] is Reanalyze
            && plan[i]->Reanalyze_source_unit == current[k].source_unit),
        plan[i] is Reanalyze <==> (p < 0 || persisted[p].source_unit.content@
            != current[k].source_unit.content@ || persisted[p].source_unit.context@
            != current[k].source_unit.context@
                || persisted[p].provenance.backend@ != current[k].provenance.backend@
                || persisted[p].provenance.backend_version@
                != current[k].provenance.backend_version@
                || persisted[p].provenance.protocol_version
                != current[k].provenance.protocol_version
                || persisted[p].provenance.analysis_options@
                != current[k].provenance.analysis_options@),
        plan[i] is Reanalyze ==> {
            let reason = plan[i]->reason;
            &&& reason == InvalidationReason::ContextChanged <==> p >= 0
                && persisted[p].source_unit.context@ != current[k].source_unit.context@
            &&& reason == InvalidationReason::ContentChanged <==> p < 0
                || (persisted[p].source_unit.context@ == current[k].source_unit.context@
                && persisted[p].source_unit.content@ != current[k].source_unit.content@)
            &&& p >= 0 && persisted[p].source_unit.context@ == current[k].source_unit.context@
                && persisted[p].source_unit.content@ == current[k].source_unit.content@ ==> (
            reason == InvalidationReason::AnalysisOptionsChanged <==> persisted[p].provenance.backend@
                == current[k].provenance.backend@ && persisted[p].provenance.backend_version@
                == current[k].provenance.backend_version@
                && persisted[p].provenance.protocol_version
                == current[k].provenance.protocol_version)
        },
{
    let id = current[k].source_unit.id@;
    lemma_listed_ids(current, persisted);
    assert forall|j: int| k < j < current.len() implies (#[trigger] current[j]).key()
        != current[k].key() by {
        assert(current[j].source_unit.id@ != id);
    }
    ordered_map::lemma_latest_at(current, k);
    if p >= 0 {
        assert forall|j: int| p < j < persisted.len() implies (#[trigger] persisted[j]).key()
            != persisted[p].key() by {
            assert(persisted[j].source_unit.id@ != id);
        }
        ordered_map::lemma_latest_at(persisted, p);
    } else {
        ordered_map::lemma_keys_of(persisted, id);
        if ordered_map::keys_of(persisted).contains(id) {
            let j = choose|j: int|
                0 <= j < persisted.len() && (#[trigger] persisted[j]).key() == id;
            assert(persisted[j].source_unit.id@ != id);
        }
    }
    let kept = kept_ids(current);
    assert(kept.to_set().contains(id));
    let i = kept.index_of(id);
    assert(kept[i] == id);
    assert(is_analysis_plan(plan, current, persisted));
    i
}

/// Every unit that is no longer current is removed, no other is, and no
/// unit is acted on twice.
pub proof fn law_gone_sources_are_removed(
    current: &[SourceUnit],
    persisted: &[SourceUnit],
    plan: Vec<IndexAction>,
    id: Seq<char>,
)
    requires
        call_ensures(plan_invalidation, (current, persisted), plan),
    ensures
        (exists|i: int|
            0 <= i < plan@.len() && (#[trigger] plan@[i]) is Remove
                && plan@[i]->Remove_source_unit@ == id) <==> (exists|j: int|
            0 <= j < persisted@.len() && (#[trigger] persisted@[j]).id@ == id) && !(
        exists|j: int|
            0 <= j < current@.len() && (#[trigger] current@[j]).id@ == id),
        forall|i: int, j: int|
            #![trigger plan@[i], plan@[j]]
            0 <= i < j < plan@.len() ==> acted_on(plan@[i]) != acted_on(plan@[j]),
{
    lemma_gone_sources(current@, persisted@, plan@, id)
}

pub proof fn lemma_gone_sources(
    current: Seq<SourceUnit>,
    persisted: Seq<SourceUnit>,
    plan: Seq<IndexAction>,
    id: Seq<char>,
)
    requires
        is_source_plan(plan, current, persisted),
    ensures
        (exists|i: int|
            0 <= i < plan.len() && (#[trigger] plan[i]) is Remove
                && plan[i]->Remove_source_unit@ == id) <==> (exists|j: int|
            0 <= j < persisted.len() && (#[trigger] persisted[j]).id@ == id) && !(
        exists|j: int|
            0 <= j < current.len() && (#[trigger] current[j]).id@ == id),
        forall|i: int, j: int|
            #![trigger plan[i], plan[j]]
            0 <= i < j < plan.len() ==> acted_on(plan[i]) != acted_on(plan[j]),
{
    lemma_listed_ids(current, persisted);
    ordered_map::lemma_keys_of(current, id);
    ordered_map::lemma_keys_of(persisted, id);
    let kept = kept_ids(current);
    let gone = removed_ids(current, persisted);
    let tail = plan.skip(kept.len() as int);
    if exists|j: int| 0 <= j < persisted.len() && (#[trigger] persisted[j]).id@ == id {
        let j = choose|j: int| 0 <= j < persisted.len() && (#[trigger] persisted[j]).id@ == id;
        assert(persisted[j].key() == id);
    }
    if exists|j: int| 0 <= j < current.len() && (#[trigger] current[j]).id@ == id {
        let j = choose|j: int| 0 <= j < current.len() && (#[trigger] current[j]).id@ == id;
        assert(current[j].key() == id);
    }
    if ordered_map::keys_of(persisted).contains(id) {
        let j = choose|j: int| 0 <= j < persisted.len() && (#[trigger] persisted[j]).key() == id;
        assert(persisted[j].id@ == id);
    }
    if ordered_map::keys_of(current).contains(id) {
        let j = choose|j: int| 0 <= j < current.len() && (#[trigger] current[j]).key() == id;
        assert(current[j].id@ == id);
    }
    if exists|i: int|
        0 <= i < plan.len() && (#[trigger] plan[i]) is Remove && plan[i]->Remove_source_unit@
            == id {
        let i = choose|i: int|
            0 <= i < plan.len() && (#[trigger] plan[i]) is Remove
                && plan[i]->Remove_source_unit@ == id;
        if i >= kept.len() {
            assert(tail[i - kept.len()] == plan[i]);
            assert(gone.to_set().contains(gone[i - kept.len()]));
        }
    }
    if gone.to_set().contains(id) {
        let k = choose|k: int| 0 <= k < gone.len() && gone[k] == id;
        assert(tail[k] == plan[kept.len() + k]);
        assert(plan[kept.len() + k] is Remove);
    }
    let ids = kept + gone;
    assert forall|i: int| 0 <= i < plan.len() implies acted_on(#[trigger] plan[i]) == ids[i] by {
        if i < kept.len() {
            assert(kept.to_set().contains(kept[i]));
            ordered_map::lemma_keys_of(current, kept[i]);
        } else {
            assert(tail[i - kept.len()] == plan[i]);
        }
    }
    ordering::lemma_sorted_texts(ordered_map::keys_of(current));
    ordering::lemma_sorted_texts(
        ordered_map::keys_of(persisted).difference(ordered_map::keys_of(current)),
    );
    assert forall|i: int, j: int|
        #![trigger plan[i], plan[j]]
        0 <= i < j < plan.len() implies acted_on(plan[i]) != acted_on(plan[j]) by {
        text::lemma_text_lt_irreflexive(ids[i]);
        if j < kept.len() {
            assert(text::text_lt(kept[i], kept[j]));
        } else if i >= kept.len() {
            assert(text::text_lt(gone[i - kept.len()], gone[j - kept.len()]));
        } else {
            assert(kept.to_set().contains(kept[i]));
            assert(gone.to_set().contains(gone[j - kept.len()]));
        }
    }
}

/// Every unit that is no longer current is removed, no other is, and no
/// unit is acted on twice.
pub proof fn law_gone_inputs_are_removed(
    current: &[AnalysisInput],
    persisted: &[AnalysisInput],
    plan: Vec<IndexAction>,
    id: Seq<char>,
)
    requires
        call_ensures(plan_analysis_invalidation, (current, persisted), plan),
    ensures
        (exists|i: int|
            0 <= i < plan@.len() && (#[trigger] plan@[i]) is Remove
                && plan@[i]->Remove_source_unit@ == id) <==> (exists|j: int|
            0 <= j < persisted@.len() && (#[trigger] persisted@[j]).source_unit.id@ == id) && !(
        exists|j: int|
            0 <= j < current@.len() && (#[trigger] current@[j]).source_unit.id@ == id),
        forall|i: int, j: int|
            #![trigger plan@[i], plan@[j]]
            0 <= i < j < plan@.len() ==> acted_on(plan@[i]) != acted_on(plan@[j]),
{
    lemma_gone_inputs(current@, persisted@, plan@, id)
}

pub proof fn lemma_gone_inputs(
    current: Seq<AnalysisInput>,
    persisted: Seq<AnalysisInput>,
    plan: Seq<IndexAction>,
    id: Seq<char>,
)
    requires
        is_analysis_plan(plan, current, persisted),
    ensures
        (exists|i: int|
            0 <= i < plan.len() && (#[trigger] plan[i]) is Remove
                && plan[i]->Remove_source_unit@ == id) <==> (exists|j: int|
            0 <= j < persisted.len() && (#[trigger] persisted[j]).source_unit.id@ == id) && !(
        exists|j: int|
            0 <= j < current.len() && (#[trigger] current[j]).source_unit.id@ == id),
        forall|i: int, j: int|
            #![trigger plan[i], plan[j]]
            0 <= i < j < plan.len() ==> acted_on(plan[i]) != acted_on(plan[j]),
{
    lemma_listed_ids(current, persisted);
    ordered_map::lemma_keys_of(current, id);
    ordered_map::lemma_keys_of(persisted, id);
    let kept = kept_ids(current);
    let gone = removed_ids(current, persisted);
    let tail = plan.skip(kept.len() as int);
    if exists|j: int| 0 <= j < persisted.len() && (#[trigger] persisted[j]).source_unit.id@ == id {
        let j = choose|j: int| 0 <= j < persisted.len() && (#[trigger] persisted[j]).source_unit.id@ == id;
        assert(persisted[j].key() == id);
    }
    if exists|j: int| 0 <= j < current.len() && (#[trigger] current[j]).source_unit.id@ == id {
        let j = choose|j: int| 0 <= j < current.len() && (#[trigger] current[j]).source_unit.id@ == id;
        assert(current[j].key() == id);
    }
    if ordered_map::keys_of(persisted).contains(id) {
        let j = choose|j: int| 0 <= j < persisted.len() && (#[trigger] persisted[j]).key() == id;
        assert(persisted[j].source_unit.id@ == id);
    }
    if ordered_map::keys_of(current).contains(id) {
        let j = choose|j: int| 0 <= j < current.len() && (#[trigger] current[j]).key() == id;
        assert(current[j].source_unit.id@ == id);
    }
    if exists|i: int|
        0 <= i < plan.len() && (#[trigger] plan[i]) is Remove && plan[i]->Remove_source_unit@
            == id {
        let i = choose|i: int|
            0 <= i < plan.len() && (#[trigger] plan[i]) is Remove
                && plan[i]->Remove_source_unit@ == id;
        if i >= kept.len() {
            assert(tail[i - kept.len()] == plan[i]);
            assert(gone.to_set().contains(gone[i - kept.len()]));
        }
    }
    if gone.to_set().contains(id) {
        let k = choose|k: int| 0 <= k < gone.len() && gone[k] == id;
        assert(tail[k] == plan[kept.len() + k]);
        assert(plan[kept.len() + k] is Remove);
    }
    let ids = kept + gone;
    assert forall|i: int| 0 <= i < plan.len() implies acted_on(#[trigger] plan[i]) == ids[i] by {
        if i < kept.len() {
            assert(kept.to_set().contains(kept[i]));
            ordered_map::lemma_keys_of(current, kept[i]);
        } else {
            assert(tail[i - kept.len()] == plan[i]);
        }
    }
    ordering::lemma_sorted_texts(ordered_map::keys_of(current));
    ordering::lemma_sorted_texts(
        ordered_map::keys_of(persisted).difference(ordered_map::keys_of(current)),
    );
    assert forall|i: int, j: int|
        #![trigger plan[i], plan[j]]
        0 <= i < j < plan.len() implies acted_on(plan[i]) != acted_on(plan[j]) by {
        text::lemma_text_lt_irreflexive(ids[i]);
        if j < kept.len() {
            assert(text::text_lt(kept[i], kept[j]));
        } else if i >= kept.len() {
            assert(text::text_lt(gone[i - kept.len()], gone[j - kept.len()]));
        } else {
            assert(kept.to_set().contains(kept[i]));
            assert(gone.to_set().contains(gone[j - kept.len()]));
        }
    }
}

} // verus!
