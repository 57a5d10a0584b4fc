//! Pure, explainable planning for an incremental index generation.
//!
//! Build resolution stays outside: callers first decide whether a persisted
//! manifest may be reused, then pass its resolved artifact inventory here.

use vstd::prelude::*;

use crate::artifact_cache::ArtifactBlobKey;
use crate::canonical::SourceUnit;
use crate::freshness;
use crate::freshness::{plan_analysis_invalidation, plan_invalidation, AnalysisInput, IndexAction};
use crate::ordered_map;
use crate::ordered_map::{index_by_key, missing_keys, Keyed, OrderedMap};
use crate::ordering;
use crate::protocol::ArtifactDescriptor;
use crate::text;

verus! {

/// What to do about the build manifest.
#[derive(Debug, Clone, Copy, PartialEq, Eq, Structural)]
pub enum ManifestAction {
    Reuse,
    Resolve,
}

/// What to do about one dependency artifact.
#[derive(Debug, Clone, PartialEq, Eq)]
pub enum DependencyAction {
    CacheHit(ArtifactDescriptor),
    CacheMiss(ArtifactDescriptor),
    Removed(ArtifactDescriptor),
}

/// The steps of one index generation.
#[derive(Debug, Clone, PartialEq, Eq)]
pub struct IncrementalIndexPlan {
    pub manifest: ManifestAction,
    pub sources: Vec<IndexAction>,
    pub dependencies: Vec<DependencyAction>,
}

/// The descriptors among the actions that are misses, in order.
pub open spec fn misses(actions: Seq<DependencyAction>) -> Seq<ArtifactDescriptor>
    decreases actions.len(),
{
    if actions.len() == 0 {
        Seq::empty()
    } else {
        match actions.last() {
            DependencyAction::CacheMiss(descriptor) => misses(actions.drop_last()).push(descriptor),
            _ => misses(actions.drop_last()),
        }
    }
}

impl IncrementalIndexPlan {
    /// Whether any source unit has to be analyzed.
    pub fn requires_source_worker(&self) -> (result: bool)
        ensures
            result <==> exists|i: int|
                0 <= i < self.sources@.len() && (#[trigger] self.sources@[i]) is Reanalyze,
    {
        let mut i: usize = 0;
        while i < self.sources.len()
            invariant
                i <= self.sources@.len(),
                forall|j: int| 0 <= j < i ==> !((#[trigger] self.sources@[j]) is Reanalyze),
            decreases self.sources@.len() - i,
        {
            if let IndexAction::Reanalyze { .. } = &self.sources[i] {
                assert(self.sources@[i as int] is Reanalyze);
                return true;
            }
            i = i + 1;
        }
        false
    }

    /// The dependency artifacts that have to be materialized, in plan order.
    pub fn dependency_misses(&self) -> (result: Vec<&ArtifactDescriptor>)
        ensures
            result@.len() == misses(self.dependencies@).len(),
            forall|i: int|
                0 <= i < result@.len() ==> *(#[trigger] result@[i]) == misses(
                    self.dependencies@,
                )[i],
    {
        let mut result: Vec<&ArtifactDescriptor> = Vec::new();
        let mut i: usize = 0;
        while i < self.dependencies.len()
            invariant
                i <= self.dependencies@.len(),
                result@.len() == misses(self.dependencies@.take(i as int)).len(),
                forall|j: int|
                    0 <= j < result@.len() ==> *(#[trigger] result@[j]) == misses(
                        self.dependencies@.take(i as int),
                    )[j],
            decreases self.dependencies@.len() - i,
        {
            assert(self.dependencies@.take(i + 1).drop_last() =~= self.dependencies@.take(
                i as int,
            ));
            if let DependencyAction::CacheMiss(descriptor) = &self.dependencies[i] {
                result.push(descriptor);
            }
            i = i + 1;
        }
        assert(self.dependencies@.take(i as int) =~= self.dependencies@);
        result
    }
}

/// Whether a descriptor has the identity that was persisted for it.
pub open spec fn identity_unchanged(
    descriptor: ArtifactDescriptor,
    persisted: Seq<ArtifactDescriptor>,
) -> bool {
    match ordered_map::lookup(persisted, descriptor.source_unit.id@) {
        Some(previous) => previous.identity() == descriptor.identity(),
        None => false,
    }
}

/// Whether the answer about the blob of this descriptor was `answer`.
pub open spec fn answered<F: Fn(&ArtifactBlobKey) -> bool>(
    blob_is_available: F,
    descriptor: ArtifactDescriptor,
    answer: bool,
) -> bool {
    exists|key: ArtifactBlobKey|
        key@ == descriptor.identity() && #[trigger] call_ensures(
            blob_is_available,
            (&key,),
            answer,
        )
}

/// The action on one current artifact: a hit needs an unchanged identity and
/// an available blob, anything else is a miss.
pub open spec fn is_current_action<F: Fn(&ArtifactBlobKey) -> bool>(
    action: DependencyAction,
    descriptor: ArtifactDescriptor,
    persisted: Seq<ArtifactDescriptor>,
    blob_is_available: F,
) -> bool {
    match action {
        DependencyAction::CacheHit(listed) => {
            &&& listed@ == descriptor@
            &&& identity_unchanged(descriptor, persisted)
            &&& answered(blob_is_available, descriptor, true)
        },
        DependencyAction::CacheMiss(listed) => {
            &&& listed@ == descriptor@
            &&& identity_unchanged(descriptor, persisted) ==> answered(
                blob_is_available,
                descriptor,
                false,
            )
        },
        DependencyAction::Removed(_) => false,
    }
}

/// The dependency plan: one action for each current artifact in ascending id
/// order, then one removal for each artifact that is gone, likewise. Where an
/// id occurs twice on a side, the last one counts.
pub open spec fn is_dependency_plan<F: Fn(&ArtifactBlobKey) -> bool>(
    plan: Seq<DependencyAction>,
    current: Seq<ArtifactDescriptor>,
    persisted: Seq<ArtifactDescriptor>,
    blob_is_available: F,
) -> bool {
    let kept = freshness::kept_ids(current);
    let gone = freshness::removed_ids(current, persisted);
    &&& plan.len() == kept.len() + gone.len()
    &&& forall|i: int|
        0 <= i < kept.len() ==> is_current_action(
            #[trigger] plan[i],
            ordered_map::latest(current, kept[i]),
            persisted,
            blob_is_available,
        )
    &&& forall|i: int|
        0 <= i < gone.len() ==> (#[trigger] plan[kept.len() + i]) is Removed
            && plan[kept.len() + i]->Removed_0@ == ordered_map::latest(persisted, gone[i])@
}

/// Plans the sources by their fingerprints, and the dependencies.
pub fn plan_incremental_index<F: Fn(&ArtifactBlobKey) -> bool>(
    manifest: ManifestAction,
    current_sources: &[SourceUnit],
    persisted_sources: &[SourceUnit],
    current_dependencies: &[ArtifactDescriptor],
    persisted_dependencies: &[ArtifactDescriptor],
    blob_is_available: F,
) -> (result: IncrementalIndexPlan)
    requires
        forall|key: &ArtifactBlobKey| #[trigger] call_requires(blob_is_available, (key,)),
    ensures
        result.manifest == manifest,
        freshness::is_source_plan(result.sources@, current_sources@, persisted_sources@),
        is_dependency_plan(
            result.dependencies@,
            current_dependencies@,
            persisted_dependencies@,
            blob_is_available,
        ),
{
    plan_with_source_actions(
        manifest,
        plan_invalidation(current_sources, persisted_sources),
        current_dependencies,
        persisted_dependencies,
        blob_is_available,
    )
}

/// Variant for a source worker whose backend identity and analysis options are
/// part of the invalidation boundary.
pub fn plan_incremental_analysis_index<F: Fn(&ArtifactBlobKey) -> bool>(
    manifest: ManifestAction,
    current_sources: &[AnalysisInput],
    persisted_sources: &[AnalysisInput],
    current_dependencies: &[ArtifactDescriptor],
    persisted_dependencies: &[ArtifactDescriptor],
    blob_is_available: F,
) -> (result: IncrementalIndexPlan)
    requires
        forall|key: &ArtifactBlobKey| #[trigger] call_requires(blob_is_available, (key,)),
    ensures
        result.manifest == manifest,
        freshness::is_analysis_plan(result.sources@, current_sources@, persisted_sources@),
        is_dependency_plan(
            result.dependencies@,
            current_dependencies@,
            persisted_dependencies@,
            blob_is_available,
        ),
{
    plan_with_source_actions(
        manifest,
        plan_analysis_invalidation(current_sources, persisted_sources),
        current_dependencies,
        persisted_dependencies,
        blob_is_available,
    )
}

fn plan_with_source_actions<F: Fn(&ArtifactBlobKey) -> bool>(
    manifest: ManifestAction,
    sources: Vec<IndexAction>,
    current_dependencies: &[ArtifactDescriptor],
    persisted_dependencies: &[ArtifactDescriptor],
    blob_is_available: F,
) -> (result: IncrementalIndexPlan)
    requires
        forall|key: &ArtifactBlobKey| #[trigger] call_requires(blob_is_available, (key,)),
    ensures
        result.manifest == manifest,
        result.sources == sources,
        is_dependency_plan(
            result.dependencies@,
            current_dependencies@,
            persisted_dependencies@,
            blob_is_available,
        ),
{
    let now: OrderedMap<usize> = index_by_key(current_dependencies);
    let stored: OrderedMap<usize> = index_by_key(persisted_dependencies);
    let mut dependencies: Vec<DependencyAction> = Vec::new();
    let ghost kept = freshness::kept_ids(current_dependencies@);
    let ghost gone = freshness::removed_ids(current_dependencies@, persisted_dependencies@);
    proof {
        now.lemma_order();
    }
    let mut i: usize = 0;
    while i < now.len()
        invariant
            forall|key: &ArtifactBlobKey| #[trigger] call_requires(blob_is_available, (key,)),
            now.wf(),
            stored.wf(),
            now.order() == kept,
            now@.dom() == ordered_map::keys_of(current_dependencies@),
            stored@.dom() == ordered_map::keys_of(persisted_dependencies@),
            forall|key: Seq<char>| #[trigger]
                now@.dom().contains(key) ==> now@[key] < current_dependencies@.len()
                    && current_dependencies@[now@[key] as int] == ordered_map::latest(
                    current_dependencies@,
                    key,
                ),
            forall|key: Seq<char>| #[trigger]
                stored@.dom().contains(key) ==> stored@[key] < persisted_dependencies@.len()
                    && persisted_dependencies@[stored@[key] as int] == ordered_map::latest(
                    persisted_dependencies@,
                    key,
                ),
            i <= kept.len(),
            dependencies@.len() == i,
            forall|j: int|
                0 <= j < i ==> is_current_action(
                    #[trigger] dependencies@[j],
                    ordered_map::latest(current_dependencies@, kept[j]),
                    persisted_dependencies@,
                    blob_is_available,
                ),
        decreases kept.len() - i,
    {
        let id = now.key_at(i);
        let descriptor = &current_dependencies[*now.value_at(i)];
        proof {
            ordered_map::lemma_keys_of(current_dependencies@, id@);
        }
        let identity = descriptor.resolved_identity();
        let unchanged: bool = match stored.get(id.as_str()) {
            Some(position) => persisted_dependencies[*position].resolved_identity().same(&identity),
            None => false,
        };
        let key = ArtifactBlobKey::from_identity(identity);
        let hit: bool = unchanged && blob_is_available(&key);
        dependencies.push(
            if hit {
                DependencyAction::CacheHit(descriptor.clone())
            } else {
                DependencyAction::CacheMiss(descriptor.clone())
            },
        );
        i = i + 1;
    }
    let removed = missing_keys(&stored, &now);
    proof {
        stored.lemma_order();
        ordering::lemma_sorted_texts(stored@.dom().difference(now@.dom()));
        assert forall|k: int| 0 <= k < gone.len() implies #[trigger] stored@.dom().contains(
            gone[k],
        ) by {
            assert(gone.to_set().contains(gone[k]));
        }
    }
    let mut j: usize = 0;
    while j < removed.len()
        invariant
            stored.wf(),
            text::texts(removed@) == gone,
            stored@.dom() == ordered_map::keys_of(persisted_dependencies@),
            forall|key: Seq<char>| #[trigger]
                stored@.dom().contains(key) ==> stored@[key] < persisted_dependencies@.len()
                    && persisted_dependencies@[stored@[key] as int] == ordered_map::latest(
                    persisted_dependencies@,
                    key,
                ),
            forall|k: int|
                0 <= k < gone.len() ==> #[trigger] stored@.dom().contains(gone[k]),
            j <= gone.len(),
            dependencies@.len() == kept.len() + j,
            forall|k: int|
                0 <= k < kept.len() ==> is_current_action(
                    #[trigger] dependencies@[k],
                    ordered_map::latest(current_dependencies@, kept[k]),
                    persisted_dependencies@,
                    blob_is_available,
                ),
            forall|k: int|
                0 <= k < j ==> (#[trigger] dependencies@[kept.len() + k]) is Removed
                    && dependencies@[kept.len() + k]->Removed_0@ == ordered_map::latest(
                    persisted_dependencies@,
                    gone[k],
                )@,
        decreases gone.len() - j,
    {
        assert(removed@[j as int]@ == gone[j as int]);
        assert(stored@.dom().contains(gone[j as int]));
        match stored.get(removed[j].as_str()) {
            Some(position) => dependencies.push(
                DependencyAction::Removed(persisted_dependencies[*position].clone()),
            ),
            None => {},
        }
        j = j + 1;
    }
    IncrementalIndexPlan { manifest, sources, dependencies }
}

/// Where no source changed, no source worker is needed.
pub proof fn law_unchanged_sources_need_no_worker(
    plan: IncrementalIndexPlan,
    units: Seq<SourceUnit>,
)
    requires
        freshness::is_source_plan(plan.sources@, units, units),
    ensures
        !exists|i: int|
            0 <= i < plan.sources@.len() && (#[trigger] plan.sources@[i]) is Reanalyze,
{
    freshness::law_unchanged_sources_are_reused(plan.sources@, units);
}

/// An artifact whose resolved identity is not the persisted one is never a
/// cache hit, whatever blobs there are.
pub proof fn law_changed_identity_misses<F: Fn(&ArtifactBlobKey) -> bool>(
    action: DependencyAction,
    descriptor: ArtifactDescriptor,
    persisted: Seq<ArtifactDescriptor>,
    blob_is_available: F,
)
    requires
        is_current_action(action, descriptor, persisted, blob_is_available),
        !identity_unchanged(descriptor, persisted),
    ensures
        action is CacheMiss,
        action->CacheMiss_0@ == descriptor@,
{
}

/// A current artifact is a cache hit only where its identity is the persisted
/// one and its blob is there, and a miss only where one of these does not hold.
/// Where an id is listed twice, its last entry counts.
pub proof fn law_hits_need_identity_and_blob<F: Fn(&ArtifactBlobKey) -> bool>(
    manifest: ManifestAction,
    current_sources: &[SourceUnit],
    persisted_sources: &[SourceUnit],
    current: &[ArtifactDescriptor],
    persisted: &[ArtifactDescriptor],
    blob_is_available: F,
    plan: IncrementalIndexPlan,
    k: int,
    p: int,
) -> (i: int)
    requires
        call_ensures(
            plan_incremental_index::<F>,
            (manifest, current_sources, persisted_sources, current, persisted, blob_is_available),
            plan,
        ),
        0 <= k < current@.len(),
        forall|j: int|
            k < j < current@.len() ==> (#[trigger] current@[j]).source_unit.id@
                != current@[k].source_unit.id@,
        -1 <= p < persisted@.len(),
        p >= 0 ==> persisted@[p].source_unit.id@ == current@[k].source_unit.id@,
        forall|j: int|
            p < j < persisted@.len() ==> (#[trigger] persisted@[j]).source_unit.id@
                != current@[k].source_unit.id@,
    ensures
        plan.manifest == manifest,
        0 <= i < plan.dependencies@.len(),
        (plan.dependencies@[i] is CacheHit && plan.dependencies@[i]->CacheHit_0@ == current@[k]@)
            || (plan.dependencies@[i] is CacheMiss && plan.dependencies@[i]->CacheMiss_0@
            == current@[k]@),
        ({
            let asked = |answer: bool|
                exists|key: ArtifactBlobKey|
                    key@ == current@[k].identity() && #[trigger] call_ensures(
                        blob_is_available,
                        (&key,),
                        answer,
                    );
            let same = p >= 0 && persisted@[p].identity() == current@[k].identity();
            &&& plan.dependencies@[i] is CacheHit ==> same && asked(true)
            &&& plan.dependencies@[i] is CacheMiss && same ==> asked(false)
        }),
{
    let id = current@[k].source_unit.id@;
    let kept = freshness::kept_ids(current@);
    ordered_map::lemma_keys_of(current@, id);
    ordered_map::lemma_keys_of(persisted@, id);
    ordering::lemma_sorted_texts(ordered_map::keys_of(current@));
    assert forall|j: int| k < j < current@.len() implies (#[trigger] current@[j]).key()
        != current@[k].key() by {
        assert(current@[j].source_unit.id@ != id);
    }
    ordered_map::lemma_latest_at(current@, k);
    if p >= 0 {
        assert forall|j: int| p < j < persisted@.len() implies (#[trigger] persisted@[j]).key()
            != persisted@[p].key() by {
            assert(persisted@[j].source_unit.id@ != id);
        }
        ordered_map::lemma_latest_at(persisted@, p);
    } else if ordered_map::keys_of(persisted@).contains(id) {
        let j = choose|j: int| 0 <= j < persisted@.len() && (#[trigger] persisted@[j]).key() == id;
        assert(persisted@[j].source_unit.id@ != id);
    }
    assert(kept.to_set().contains(id));
    let i = kept.index_of(id);
    assert(is_current_action(
        plan.dependencies@[i],
        ordered_map::latest(current@, kept[i]),
        persisted@,
        blob_is_available,
    ));
    i
}

/// A source worker is needed exactly where a source is analyzed again, and the
/// artifacts to materialize are exactly the misses.
pub proof fn law_misses_are_materialized(
    plan: &IncrementalIndexPlan,
    needs_worker: bool,
    missing: Vec<&ArtifactDescriptor>,
    descriptor: ArtifactDescriptor,
)
    requires
        call_ensures(IncrementalIndexPlan::requires_source_worker, (plan,), needs_worker),
        call_ensures(IncrementalIndexPlan::dependency_misses, (plan,), missing),
    ensures
        needs_worker <==> exists|i: int|
            0 <= i < plan.sources@.len() && #[trigger] plan.sources@[i] is Reanalyze,
        (exists|i: int| 0 <= i < missing@.len() && *(#[trigger] missing@[i]) == descriptor)
            <==> plan.dependencies@.contains(DependencyAction::CacheMiss(descriptor)),
{
    lemma_misses(plan.dependencies@, descriptor);
    let listed = misses(plan.dependencies@);
    if exists|i: int| 0 <= i < missing@.len() && *(#[trigger] missing@[i]) == descriptor {
        let i = choose|i: int| 0 <= i < missing@.len() && *(#[trigger] missing@[i]) == descriptor;
        assert(listed[i] == descriptor);
    }
    if listed.contains(descriptor) {
        let i = listed.index_of(descriptor);
        assert(*missing@[i] == descriptor);
    }
}

proof fn lemma_misses(actions: Seq<DependencyAction>, descriptor: ArtifactDescriptor)
    ensures
        misses(actions).contains(descriptor) <==> actions.contains(
            DependencyAction::CacheMiss(descriptor),
        ),
    decreases actions.len(),
{
    if actions.len() > 0 {
        let rest = actions.drop_last();
        let miss = DependencyAction::CacheMiss(descriptor);
        let before = misses(rest);
        let now = misses(actions);
        lemma_misses(rest, descriptor);
        assert(actions[rest.len() as int] == actions.last());
        if rest.contains(miss) {
            assert(actions[rest.index_of(miss)] == miss);
            assert(now[before.index_of(descriptor)] == descriptor);
        }
        if actions.contains(miss) && !rest.contains(miss) {
            let i = actions.index_of(miss);
            if i < rest.len() {
                assert(rest[i] == miss);
            }
            assert(now[before.len() as int] == descriptor);
        }
        if now.contains(descriptor) && !before.contains(descriptor) {
            let i = now.index_of(descriptor);
            if i < before.len() {
                assert(before[i] == descriptor);
            }
        }
    }
}

/// The sources of a plan are analyzed again exactly where they are new or their
/// content or context changed, whatever is done about the dependencies.
pub proof fn law_planned_sources_follow_their_inputs<F: Fn(&ArtifactBlobKey) -> bool>(
    manifest: ManifestAction,
    current: &[SourceUnit],
    persisted: &[SourceUnit],
    dependencies: &[ArtifactDescriptor],
    persisted_dependencies: &[ArtifactDescriptor],
    blob_is_available: F,
    plan: IncrementalIndexPlan,
    k: int,
    p: int,
) -> (i: int)
    requires
        call_ensures(
            plan_incremental_index::<F>,
            (
                manifest,
                current,
                persisted,
                dependencies,
                persisted_dependencies,
                blob_is_available,
            ),
            plan,
        ),
        0 <= k < current@.len(),
        forall|j: int| k < j < current@.len() ==> (#[trigger] current@[j]).id@ != current@[k].id@,
        -1 <= p < persisted@.len(),
        p >= 0 ==> persisted@[p].id@ == current@[k].id@,
        forall|j: int|
            p < j < persisted@.len() ==> (#[trigger] persisted@[j]).id@ != current@[k].id@,
    ensures
        0 <= i < plan.sources@.len(),
        plan.sources@[i] == IndexAction::Reuse(current@[k]) || (plan.sources@[i] is Reanalyze
            && plan.sources@[i]->Reanalyze_source_unit == current@[k]),
        plan.sources@[i] is Reanalyze <==> (p < 0 || persisted@[p].content@
            != current@[k].content@ || persisted@[p].context@ != current@[k].context@),
{
    freshness::lemma_source_action(current@, persisted@, plan.sources@, k, p)
}

/// The same holds where sources are told apart by how they were analyzed, too: a
/// source that another backend, version, protocol or options analyzed is
/// analyzed again.
pub proof fn law_planned_inputs_follow_their_provenance<F: Fn(&ArtifactBlobKey) -> bool>(
    manifest: ManifestAction,
    current: &[AnalysisInput],
    persisted: &[AnalysisInput],
    dependencies: &[ArtifactDescriptor],
    persisted_dependencies: &[ArtifactDescriptor],
    blob_is_available: F,
    plan: IncrementalIndexPlan,
    k: int,
    p: int,
) -> (i: int)
    requires
        call_ensures(
            plan_incremental_analysis_index::<F>,
            (
                manifest,
                current,
                persisted,
                dependencies,
                persisted_dependencies,
                blob_is_available,
            ),
            plan,
        ),
        0 <= k < current@.len(),
        forall|j: int|
            k < j < current@.len() ==> (#[trigger] current@[j]).source_unit.id@
                != current@[k].source_unit.id@,
        -1 <= p < persisted@.len(),
        p >= 0 ==> persisted@[p].source_unit.id@ == current@[k].source_unit.id@,
        forall|j: int|
            p < j < persisted@.len() ==> (#[trigger] persisted@[j]).source_unit.id@
                != current@[k].source_unit.id@,
    ensures
        plan.manifest == manifest,
        0 <= i < plan.sources@.len(),
        plan.sources@[i] == IndexAction::Reuse(current@[k].source_unit) || (
        plan.sources@[i] is Reanalyze && plan.sources@[i]->Reanalyze_source_unit
            == current@[k].source_unit),
        plan.sources@[i] is Reanalyze <==> (p < 0 || persisted@[p].source_unit.content@
            != current@[k].source_unit.content@ || persisted@[p].source_unit.context@
            != current@[k].source_unit.context@ || persisted@[p].provenance.backend@
            != current@[k].provenance.backend@ || persisted@[p].provenance.backend_version@
            != current@[k].provenance.backend_version@
            || persisted@[p].provenance.protocol_version
            != current@[k].provenance.protocol_version
            || persisted@[p].provenance.analysis_options@
            != current@[k].provenance.analysis_options@),
{
    freshness::lemma_input_action(current@, persisted@, plan.sources@, k, p)
}

/// A persisted artifact that is no longer there is removed.
pub proof fn law_gone_artifacts_are_removed<F: Fn(&ArtifactBlobKey) -> bool>(
    manifest: ManifestAction,
    current_sources: &[SourceUnit],
    persisted_sources: &[SourceUnit],
    current: &[ArtifactDescriptor],
    persisted: &[ArtifactDescriptor],
    blob_is_available: F,
    plan: IncrementalIndexPlan,
    p: int,
) -> (i: int)
    requires
        call_ensures(
            plan_incremental_index::<F>,
            (manifest, current_sources, persisted_sources, current, persisted, blob_is_available),
            plan,
        ),
        0 <= p < persisted@.len(),
        forall|j: int|
            p < j < persisted@.len() ==> (#[trigger] persisted@[j]).source_unit.id@
                != persisted@[p].source_unit.id@,
        forall|j: int|
            0 <= j < current@.len() ==> (#[trigger] current@[j]).source_unit.id@
                != persisted@[p].source_unit.id@,
    ensures
        0 <= i < plan.dependencies@.len(),
        plan.dependencies@[i] is Removed,
        plan.dependencies@[i]->Removed_0@ == persisted@[p]@,
{
    let id = persisted@[p].source_unit.id@;
    let kept = freshness::kept_ids(current@);
    let gone = freshness::removed_ids(current@, persisted@);
    ordered_map::lemma_keys_of(current@, id);
    ordered_map::lemma_keys_of(persisted@, id);
    assert forall|j: int| p < j < persisted@.len() implies (#[trigger] persisted@[j]).key()
        != persisted@[p].key() by {
        assert(persisted@[j].source_unit.id@ != id);
    }
    ordered_map::lemma_latest_at(persisted@, p);
    let missing = ordered_map::keys_of(persisted@).difference(ordered_map::keys_of(current@));
    if ordered_map::keys_of(current@).contains(id) {
        let j = choose|j: int| 0 <= j < current@.len() && (#[trigger] current@[j]).key() == id;
        assert(current@[j].source_unit.id@ != id);
    }
    ordering::lemma_sorted_texts(missing);
    assert(missing.contains(id));
    assert(gone.to_set().contains(id));
    let g = gone.index_of(id);
    assert(plan.dependencies@[kept.len() + g] is Removed);
    kept.len() + g
}

} // verus!
