//! Decisions of an index run over cold language workers.
//!
//! A run is planned as a whole, then performed step by step by its owner, which
//! holds the store, the processes and the clock. What a worker sends back is
//! checked here before anything of it is committed.

use vstd::prelude::*;

use crate::artifact_cache::ArtifactBlobCacheError;
use crate::canonical::{
    ComponentId, Component, Fingerprint, Language, Provenance, SourceOrigin, SourceUnit,
    SourceUnitId, WorkspaceId, WorkspacePath,
};
use crate::freshness;
use crate::freshness::{
    plan_analysis_invalidation, plan_invalidation, AnalysisInput, IndexAction,
};
use crate::measures;
use crate::measures::{add_map, add_measures, metric_measures, timing_measures};
use crate::ordered_map;
use crate::ordered_map::{index_by_key, missing_keys, Keyed, OrderedMap};
use crate::ordering;
use crate::protocol::{
    AnalysisFact, AnalyzeBatchRequest, ArtifactDescriptor, ArtifactDiscoveryRequest,
    ArtifactDiscoveryResponse, ArtifactLocator, ArtifactMaterializationRequest,
    ArtifactMaterializationResponse, FileAnalysisSnapshot, OpaqueExecutionPlan, PhaseTiming,
    WorkerCapabilities, WorkerCapability, WorkerMessage, WorkerMetric,
    ARTIFACT_BLOB_LAYOUT_VERSION,
};
use crate::shown::{push, Shown};
use crate::supervisor;
use crate::supervisor::WorkerLaunch;
use crate::text;

verus! {

/// The most artifacts that one catalog page may hold.
pub const CATALOG_PAGE_SIZE: u32 = 64;

/// The measurements of one source batch.
pub struct BatchIndexMetrics {
    pub component: String,
    pub language: String,
    pub source_units: usize,
    pub worker_millis: u128,
    pub commit_millis: u128,
    pub worker_phases: OrderedMap<u64>,
    pub worker_metrics: OrderedMap<u64>,
}

/// The account of an index run.
pub struct IndexRun {
    pub reused: usize,
    pub analyzed: usize,
    pub removed: usize,
    pub worker_starts: u64,
    pub dependency_analyzed: usize,
    pub dependency_reused: usize,
    pub dependency_catalog_millis: u128,
    pub dependency_materialization_millis: u128,
    /// Wall time spent awaiting source-analysis worker responses.
    pub source_worker_millis: u128,
    /// Wall time committing validated source snapshots.
    pub source_commit_millis: u128,
    pub worker_phase_millis: OrderedMap<u64>,
    pub worker_metrics: OrderedMap<u64>,
    pub batches: Vec<BatchIndexMetrics>,
    pub artifact_locators: OrderedMap<String>,
}

/// How many artifacts may still be materialized.
#[derive(Debug, Clone, Copy, PartialEq, Eq, Structural)]
pub struct MaterializationBudget {
    pub remaining_artifacts: u32,
}

/// What became of a request to materialize an artifact.
#[derive(Debug, Clone, Copy, PartialEq, Eq, Structural)]
pub enum MaterializationOutcome {
    Materialized,
    AlreadyMaterialized,
    BudgetExhausted,
    NotCataloged,
}

/// The measurements of one artifact materialization.
pub struct MaterializationMetrics {
    pub promoted: bool,
    pub worker_phases: OrderedMap<u64>,
    pub worker_metrics: OrderedMap<u64>,
    pub core_phases: OrderedMap<u64>,
}

/// Why an index run is given up.
#[derive(Debug, PartialEq, Eq)]
pub enum IndexOrchestratorError {
    InvalidStagedArtifact,
    UnexpectedSnapshot { source_unit: String },
    MissingSnapshot { source_unit: String },
    InvalidResponse { received: Box<WorkerMessage> },
    UnsupportedBatches { count: usize },
    ExecutionPlanManifestMismatch { backend: String, actual: Fingerprint, expected: Fingerprint },
    WorkerNoLongerCompatible { worker: String, component: String, language: Language },
    DependencyContextMismatch { component: String, expected: Fingerprint, actual: Fingerprint },
    UnknownDependencyComponent { component: String },
}

impl IndexOrchestratorError {
    /// The message that is shown for an error.
    pub open spec fn message_text(&self) -> Seq<char> {
        match self {
            IndexOrchestratorError::InvalidStagedArtifact => {
                "worker returned invalid staged artifact metadata"@
            },
            IndexOrchestratorError::UnexpectedSnapshot { source_unit } => {
                "worker returned an analysis response with an unexpected source unit "@
                + source_unit@
            },
            IndexOrchestratorError::MissingSnapshot { source_unit } => {
                "worker did not return a snapshot for requested source unit "@
                + source_unit@
            },
            IndexOrchestratorError::InvalidResponse { received } => "worker returned "@
                + received.shown()
                + ", expected analysis_batch_response"@,
            IndexOrchestratorError::UnsupportedBatches { count } => "no compatible worker for "@
                + text::decimal_text(*count as nat)
                + " source batch(es)"@,
            IndexOrchestratorError::ExecutionPlanManifestMismatch { backend, actual, expected } => {
                "execution plan from "@
                + backend@
                + " targets "@
                + actual.shown()
                + ", but the resolved manifest is "@
                + expected.shown()
            },
            IndexOrchestratorError::WorkerNoLongerCompatible { worker, component, language } => {
                "worker "@
                + worker@
                + " no longer supports batch "@
                + component@
                + " ("@
                + language.shown()
                + ")"@
            },
            IndexOrchestratorError::DependencyContextMismatch { component, expected, actual } => {
                "dependency descriptor for component "@
                + component@
                + " used context "@
                + actual.shown()
                + ", expected resolved context "@
                + expected.shown()
            },
            IndexOrchestratorError::UnknownDependencyComponent { component } => {
                "dependency descriptor belongs to unknown resolved component "@
                + component@
            },
        }
    }

    /// Computes `message_text`.
    pub fn message(&self) -> (result: String)
        ensures
            result@ == self.message_text(),
    {
        match self {
            IndexOrchestratorError::InvalidStagedArtifact => {
                "worker returned invalid staged artifact metadata".to_owned()
            },
            IndexOrchestratorError::UnexpectedSnapshot { source_unit } => text::join_text(
                "worker returned an analysis response with an unexpected source unit ",
                source_unit.as_str(),
            ),
            IndexOrchestratorError::MissingSnapshot { source_unit } => text::join_text(
                "worker did not return a snapshot for requested source unit ",
                source_unit.as_str(),
            ),
            IndexOrchestratorError::InvalidResponse { received } => {
                let mut out = "worker returned ".to_owned();
                push(&mut out, received.show().as_str());
                push(&mut out, ", expected analysis_batch_response");
                out
            },
            IndexOrchestratorError::UnsupportedBatches { count } => {
                let mut out = "no compatible worker for ".to_owned();
                push(&mut out, text::decimal(*count as u64).as_str());
                push(&mut out, " source batch(es)");
                out
            },
            IndexOrchestratorError::ExecutionPlanManifestMismatch { backend, actual, expected } => {
                let mut out = "execution plan from ".to_owned();
                push(&mut out, backend.as_str());
                push(&mut out, " targets ");
                push(&mut out, actual.show().as_str());
                push(&mut out, ", but the resolved manifest is ");
                push(&mut out, expected.show().as_str());
                out
            },
            IndexOrchestratorError::WorkerNoLongerCompatible { worker, component, language } => {
                let mut out = "worker ".to_owned();
                push(&mut out, worker.as_str());
                push(&mut out, " no longer supports batch ");
                push(&mut out, component.as_str());
                push(&mut out, " (");
                push(&mut out, language.show().as_str());
                push(&mut out, ")");
                out
            },
            IndexOrchestratorError::DependencyContextMismatch { component, expected, actual } => {
                let mut out = "dependency descriptor for component ".to_owned();
                push(&mut out, component.as_str());
                push(&mut out, " used context ");
                push(&mut out, actual.show().as_str());
                push(&mut out, ", expected resolved context ");
                push(&mut out, expected.show().as_str());
                out
            },
            IndexOrchestratorError::UnknownDependencyComponent { component } => text::join_text(
                "dependency descriptor belongs to unknown resolved component ",
                component.as_str(),
            ),
        }
    }
}

/// What an `IndexOrchestratorError` about a batch, a plan or a catalog says.
pub enum IndexOrchestratorErrorView {
    UnexpectedSnapshot { source_unit: Seq<char> },
    MissingSnapshot { source_unit: Seq<char> },
    UnsupportedBatches { count: usize },
    ExecutionPlanManifestMismatch {
        backend: Seq<char>,
        actual: Seq<char>,
        expected: Seq<char>,
    },
    DependencyContextMismatch { component: Seq<char>, expected: Seq<char>, actual: Seq<char> },
    UnknownDependencyComponent { component: Seq<char> },
    Other,
}

impl View for IndexOrchestratorError {
    type V = IndexOrchestratorErrorView;

    open spec fn view(&self) -> IndexOrchestratorErrorView {
        match self {
            IndexOrchestratorError::UnexpectedSnapshot { source_unit } => {
                IndexOrchestratorErrorView::UnexpectedSnapshot { source_unit: source_unit@ }
            },
            IndexOrchestratorError::MissingSnapshot { source_unit } => {
                IndexOrchestratorErrorView::MissingSnapshot { source_unit: source_unit@ }
            },
            IndexOrchestratorError::UnsupportedBatches { count } => {
                IndexOrchestratorErrorView::UnsupportedBatches { count: *count }
            },
            IndexOrchestratorError::ExecutionPlanManifestMismatch {
                backend,
                actual,
                expected,
            } => IndexOrchestratorErrorView::ExecutionPlanManifestMismatch {
                backend: backend@,
                actual: actual@,
                expected: expected@,
            },
            IndexOrchestratorError::DependencyContextMismatch { component, expected, actual } => {
                IndexOrchestratorErrorView::DependencyContextMismatch {
                    component: component@,
                    expected: expected@,
                    actual: actual@,
                }
            },
            IndexOrchestratorError::UnknownDependencyComponent { component } => {
                IndexOrchestratorErrorView::UnknownDependencyComponent { component: component@ }
            },
            _ => IndexOrchestratorErrorView::Other,
        }
    }
}

impl IndexRun {
    /// The sums and locators are kept in order.
    pub open spec fn wf(&self) -> bool {
        &&& self.worker_phase_millis.wf()
        &&& self.worker_metrics.wf()
        &&& self.artifact_locators.wf()
    }

    /// The account of a run that has planned what to reuse and to remove.
    pub fn new(reused: usize) -> (result: Self)
        ensures
            result.wf(),
            result.reused == reused,
            result.analyzed == 0,
            result.removed == 0,
            result.worker_starts == 0,
            result.dependency_analyzed == 0,
            result.dependency_reused == 0,
            result.dependency_catalog_millis == 0,
            result.dependency_materialization_millis == 0,
            result.source_worker_millis == 0,
            result.source_commit_millis == 0,
            result.worker_phase_millis@ == Map::<Seq<char>, u64>::empty(),
            result.worker_metrics@ == Map::<Seq<char>, u64>::empty(),
            result.batches@.len() == 0,
            result.artifact_locators@ == Map::<Seq<char>, String>::empty(),
    {
        IndexRun {
            reused,
            analyzed: 0,
            removed: 0,
            worker_starts: 0,
            dependency_analyzed: 0,
            dependency_reused: 0,
            dependency_catalog_millis: 0,
            dependency_materialization_millis: 0,
            source_worker_millis: 0,
            source_commit_millis: 0,
            worker_phase_millis: OrderedMap::new(),
            worker_metrics: OrderedMap::new(),
            batches: Vec::new(),
            artifact_locators: OrderedMap::new(),
        }
    }

    /// Whether a run is another but for its sums of phases and metrics.
    pub open spec fn same_counts(&self, other: &Self) -> bool {
        &&& self.reused == other.reused
        &&& self.analyzed == other.analyzed
        &&& self.removed == other.removed
        &&& self.worker_starts == other.worker_starts
        &&& self.dependency_analyzed == other.dependency_analyzed
        &&& self.dependency_reused == other.dependency_reused
        &&& self.dependency_catalog_millis == other.dependency_catalog_millis
        &&& self.dependency_materialization_millis == other.dependency_materialization_millis
        &&& self.source_worker_millis == other.source_worker_millis
        &&& self.source_commit_millis == other.source_commit_millis
        &&& self.batches == other.batches
        &&& self.artifact_locators == other.artifact_locators
    }

    /// Whether a run is another but for its locators.
    pub open spec fn same_but_locators(&self, other: &Self) -> bool {
        &&& self.reused == other.reused
        &&& self.analyzed == other.analyzed
        &&& self.removed == other.removed
        &&& self.worker_starts == other.worker_starts
        &&& self.dependency_analyzed == other.dependency_analyzed
        &&& self.dependency_reused == other.dependency_reused
        &&& self.dependency_catalog_millis == other.dependency_catalog_millis
        &&& self.dependency_materialization_millis == other.dependency_materialization_millis
        &&& self.source_worker_millis == other.source_worker_millis
        &&& self.source_commit_millis == other.source_commit_millis
        &&& self.worker_phase_millis == other.worker_phase_millis
        &&& self.worker_metrics == other.worker_metrics
        &&& self.batches == other.batches
    }

    /// Whether the phases of a materialization can be added to a run's.
    pub open spec fn phases_fit(&self, metrics: MaterializationMetrics) -> bool {
        &&& forall|name: Seq<char>| #[trigger]
            measures::value_of(self.worker_phase_millis@, name) + measures::value_of(
                metrics.worker_phases@,
                name,
            ) + measures::value_of(metrics.core_phases@, name) <= u64::MAX
        &&& measures::map_sums_fit(self.worker_metrics@, metrics.worker_metrics@)
    }

    /// Whether the sums of a run are those of another with the measurements of a
    /// materialization added.
    pub open spec fn has_added(&self, before: &Self, metrics: MaterializationMetrics) -> bool {
        &&& measures::is_map_sum(
            self.worker_metrics@,
            before.worker_metrics@,
            metrics.worker_metrics@,
        )
        &&& self.worker_phase_millis@.dom() == before.worker_phase_millis@.dom().union(
            metrics.worker_phases@.dom(),
        ).union(metrics.core_phases@.dom())
        &&& forall|name: Seq<char>| #[trigger]
            self.worker_phase_millis@.dom().contains(name) ==> self.worker_phase_millis@[name]
                == measures::value_of(before.worker_phase_millis@, name) + measures::value_of(
                metrics.worker_phases@,
                name,
            ) + measures::value_of(metrics.core_phases@, name)
    }

    /// Adds the measurements of a materialization to the sums of the run,
    /// without treating them as source-analysis time.
    pub fn record_materialization_metrics(&mut self, metrics: &MaterializationMetrics)
        requires
            old(self).wf(),
            metrics.worker_phases.wf(),
            metrics.worker_metrics.wf(),
            metrics.core_phases.wf(),
            old(self).phases_fit(*metrics),
        ensures
            final(self).wf(),
            final(self).same_counts(old(self)),
            final(self).has_added(old(self), *metrics),
    {
        let ghost before = self.worker_phase_millis@;
        assert(measures::map_sums_fit(before, metrics.worker_phases@)) by {
            assert forall|name: Seq<char>| #[trigger]
                measures::value_of(before, name) + measures::value_of(metrics.worker_phases@, name)
                    <= u64::MAX by {
                assert(measures::value_of(before, name) + measures::value_of(
                    metrics.worker_phases@,
                    name,
                ) + measures::value_of(metrics.core_phases@, name) <= u64::MAX);
            }
        }
        add_map(&mut self.worker_phase_millis, &metrics.worker_phases);
        let ghost middle = self.worker_phase_millis@;
        proof {
            assert forall|name: Seq<char>| #[trigger]
                measures::value_of(middle, name) + measures::value_of(metrics.core_phases@, name)
                    <= u64::MAX by {
                assert(measures::value_of(before, name) + measures::value_of(
                    metrics.worker_phases@,
                    name,
                ) + measures::value_of(metrics.core_phases@, name) <= u64::MAX);
            }
        }
        add_map(&mut self.worker_metrics, &metrics.worker_metrics);
        add_map(&mut self.worker_phase_millis, &metrics.core_phases);
        proof {
            assert forall|name: Seq<char>| #[trigger]
                self.worker_phase_millis@.dom().contains(name) implies self.worker_phase_millis@[name]
                == measures::value_of(before, name) + measures::value_of(
                metrics.worker_phases@,
                name,
            ) + measures::value_of(metrics.core_phases@, name) by {
                assert(measures::value_of(middle, name) == measures::value_of(before, name)
                    + measures::value_of(metrics.worker_phases@, name));
            }
        }
    }

    /// Takes a worker-local locator out of the run. It is good for one request
    /// and is never part of persistent state.
    pub fn take_artifact_locator(&mut self, source_unit: &SourceUnitId) -> (result: Option<String>)
        requires
            old(self).wf(),
        ensures
            final(self).wf(),
            final(self).artifact_locators@ == old(self).artifact_locators@.remove(source_unit@),
            match result {
                Some(locator) => old(self).artifact_locators@.dom().contains(source_unit@)
                    && locator == old(self).artifact_locators@[source_unit@],
                None => !old(self).artifact_locators@.dom().contains(source_unit@),
            },
            final(self).same_but_locators(old(self)),
    {
        self.artifact_locators.remove(source_unit.as_str())
    }

    /// Forgets every locator.
    pub fn clear_artifact_locators(&mut self)
        requires
            old(self).wf(),
        ensures
            final(self).wf(),
            final(self).artifact_locators@ == Map::<Seq<char>, String>::empty(),
            final(self).same_but_locators(old(self)),
    {
        self.artifact_locators = OrderedMap::new();
    }
}

/// The plan that stands for a build without a resolution of its own.
pub fn legacy_execution_plan(manifest_fingerprint: &Fingerprint) -> (result: OpaqueExecutionPlan)
    ensures
        result.backend@ == "legacy"@,
        result.resolved_fingerprint == *manifest_fingerprint,
        result.payload@.len() == 0,
{
    OpaqueExecutionPlan {
        backend: "legacy".to_owned(),
        resolved_fingerprint: manifest_fingerprint.clone(),
        payload: Vec::new(),
    }
}

/// Refuses an execution plan of another manifest.
pub fn validate_execution_plan(
    manifest_fingerprint: &Fingerprint,
    execution_plan: &OpaqueExecutionPlan,
) -> (result: Result<(), IndexOrchestratorError>)
    ensures
        if execution_plan.resolved_fingerprint@ == manifest_fingerprint@ {
            result is Ok
        } else {
            result is Err && result->Err_0@
                == (IndexOrchestratorErrorView::ExecutionPlanManifestMismatch {
                backend: execution_plan.backend@,
                actual: execution_plan.resolved_fingerprint@,
                expected: manifest_fingerprint@,
            })
        },
{
    if !execution_plan.resolved_fingerprint.same(manifest_fingerprint) {
        return Err(
            IndexOrchestratorError::ExecutionPlanManifestMismatch {
                backend: execution_plan.backend.clone(),
                actual: execution_plan.resolved_fingerprint.clone(),
                expected: manifest_fingerprint.clone(),
            },
        );
    }
    Ok(())
}

/// How many actions reuse a snapshot.
pub open spec fn reused_count(actions: Seq<IndexAction>) -> nat
    decreases actions.len(),
{
    if actions.len() == 0 {
        0
    } else {
        reused_count(actions.drop_last()) + (if actions.last() is Reuse {
            1nat
        } else {
            0nat
        })
    }
}

/// The source units that actions analyze again, in order.
pub open spec fn reanalyzed(actions: Seq<IndexAction>) -> Seq<SourceUnit>
    decreases actions.len(),
{
    if actions.len() == 0 {
        Seq::empty()
    } else {
        match actions.last() {
            IndexAction::Reanalyze { source_unit, .. } => reanalyzed(actions.drop_last()).push(
                source_unit,
            ),
            _ => reanalyzed(actions.drop_last()),
        }
    }
}

/// The source units that actions remove, in order.
pub open spec fn removed_units(actions: Seq<IndexAction>) -> Seq<SourceUnitId>
    decreases actions.len(),
{
    if actions.len() == 0 {
        Seq::empty()
    } else {
        match actions.last() {
            IndexAction::Remove { source_unit } => removed_units(actions.drop_last()).push(
                source_unit,
            ),
            _ => removed_units(actions.drop_last()),
        }
    }
}

/// The actions of a run by what they do.
#[derive(Debug, PartialEq, Eq)]
pub struct ActionSummary {
    pub reused: usize,
    pub reanalyze: Vec<SourceUnit>,
    pub removed: Vec<SourceUnitId>,
}

impl ActionSummary {
    /// Whether a summary is the one of actions.
    pub open spec fn summarizes(&self, actions: Seq<IndexAction>) -> bool {
        &&& self.reused == reused_count(actions)
        &&& self.reanalyze@ == reanalyzed(actions)
        &&& self.removed@ == removed_units(actions)
    }
}

/// Sorts the actions of a run by what they do.
pub fn summarize_actions(actions: &[IndexAction]) -> (result: ActionSummary)
    ensures
        result.summarizes(actions@),
{
    let mut summary = ActionSummary { reused: 0, reanalyze: Vec::new(), removed: Vec::new() };
    let mut i: usize = 0;
    while i < actions.len()
        invariant
            i <= actions@.len(),
            summary.reused <= i,
            summary.summarizes(actions@.take(i as int)),
        decreases actions@.len() - i,
    {
        assert(actions@.take(i + 1).drop_last() =~= actions@.take(i as int));
        assert(actions@.take(i + 1).last() == actions@[i as int]);
        match &actions[i] {
            IndexAction::Reuse(_) => {
                summary.reused = summary.reused + 1;
            },
            IndexAction::Reanalyze { source_unit, .. } => {
                summary.reanalyze.push(source_unit.clone());
            },
            IndexAction::Remove { source_unit } => {
                summary.removed.push(source_unit.clone());
            },
        }
        i = i + 1;
    }
    assert(actions@.take(i as int) =~= actions@);
    summary
}

/// One step of a run. A run performs its steps in order and stops at the first
/// that fails.
#[derive(Debug, Clone, Copy, PartialEq, Eq, Structural)]
pub enum RunStep {
    /// Remove the snapshots of source units that are gone.
    RemoveStale,
    /// Start discovering the dependency catalog beside the source work.
    StartCatalog,
    /// Analyze source units, check what comes back, and commit it.
    AnalyzeSources,
    /// Await the dependency catalog and publish it.
    PublishCatalog,
    /// Record the manifest, which marks the run as done.
    PublishManifest,
}

/// The steps of a run.
pub open spec fn run_steps(catalog: bool, analyze: bool) -> Seq<RunStep> {
    let started = if catalog {
        seq![RunStep::RemoveStale, RunStep::StartCatalog]
    } else {
        seq![RunStep::RemoveStale]
    };
    let analyzed = if analyze {
        started.push(RunStep::AnalyzeSources)
    } else {
        started
    };
    let published = if catalog {
        analyzed.push(RunStep::PublishCatalog)
    } else {
        analyzed
    };
    published.push(RunStep::PublishManifest)
}

fn plan_steps(catalog: bool, analyze: bool) -> (result: Vec<RunStep>)
    ensures
        result@ == run_steps(catalog, analyze),
{
    let mut steps: Vec<RunStep> = Vec::new();
    steps.push(RunStep::RemoveStale);
    if catalog {
        steps.push(RunStep::StartCatalog);
    }
    if analyze {
        steps.push(RunStep::AnalyzeSources);
    }
    if catalog {
        steps.push(RunStep::PublishCatalog);
    }
    steps.push(RunStep::PublishManifest);
    assert(steps@ =~= run_steps(catalog, analyze));
    steps
}

/// The manifest is recorded once, as the last step, so a run that stopped
/// early is never taken for a finished one; and sources are committed before
/// the catalog that was discovered beside them is published.
pub proof fn law_manifest_is_published_last(catalog: bool, analyze: bool, i: int, j: int)
    requires
        0 <= i < run_steps(catalog, analyze).len(),
        0 <= j < run_steps(catalog, analyze).len(),
    ensures
        run_steps(catalog, analyze).last() == RunStep::PublishManifest,
        run_steps(catalog, analyze)[i] == RunStep::PublishManifest ==> i == run_steps(
            catalog,
            analyze,
        ).len() - 1,
        run_steps(catalog, analyze)[i] == RunStep::AnalyzeSources && run_steps(catalog, analyze)[j]
            == RunStep::PublishCatalog ==> i < j,
{
}

/// The persisted units that are no dependencies.
pub open spec fn workspace_units(units: Seq<SourceUnit>) -> Seq<SourceUnit> {
    units.filter(|unit: SourceUnit| unit.origin != SourceOrigin::Dependency)
}

fn keep_workspace_units(units: &[SourceUnit]) -> (result: Vec<SourceUnit>)
    ensures
        result@ == workspace_units(units@),
{
    let mut result: Vec<SourceUnit> = Vec::new();
    let mut i: usize = 0;
    assert(result@ =~= workspace_units(units@.take(0))) by {
        reveal(Seq::filter);
    }
    while i < units.len()
        invariant
            i <= units@.len(),
            result@ == workspace_units(units@.take(i as int)),
        decreases units@.len() - i,
    {
        proof {
            assert(units@.take(i + 1).drop_last() =~= units@.take(i as int));
            assert(units@.take(i + 1).last() == units@[i as int]);
            reveal(Seq::filter);
        }
        if units[i].origin != SourceOrigin::Dependency {
            result.push(units[i].clone());
        }
        i = i + 1;
    }
    assert(units@.take(i as int) =~= units@);
    result
}

/// The inputs of units that one provenance would analyze.
pub open spec fn inputs_of(units: Seq<SourceUnit>, provenance: Provenance) -> Seq<AnalysisInput> {
    Seq::new(
        units.len(),
        |i: int| AnalysisInput { source_unit: units[i], provenance },
    )
}

fn make_inputs(units: &[SourceUnit], provenance: &Provenance) -> (result: Vec<AnalysisInput>)
    ensures
        result@ == inputs_of(units@, *provenance),
{
    let mut result: Vec<AnalysisInput> = Vec::new();
    let mut i: usize = 0;
    while i < units.len()
        invariant
            i <= units@.len(),
            result@.len() == i,
            forall|j: int| 0 <= j < i ==> #[trigger] result@[j] == inputs_of(units@, *provenance)[j],
        decreases units@.len() - i,
    {
        result.push(
            AnalysisInput { source_unit: units[i].clone(), provenance: provenance.clone() },
        );
        i = i + 1;
    }
    assert(result@ =~= inputs_of(units@, *provenance));
    result
}

/// Whether the dependency catalog has to be discovered again: another manifest
/// can change artifact identities although every source stays reusable.
pub open spec fn catalog_outdated(previous: Option<Fingerprint>, current: Fingerprint) -> bool {
    match previous {
        Some(previous) => previous@ != current@,
        None => true,
    }
}

/// Computes `catalog_outdated`.
pub fn is_catalog_outdated(previous: &Option<Fingerprint>, current: &Fingerprint) -> (result: bool)
    ensures
        result == catalog_outdated(*previous, *current),
{
    match previous {
        Some(previous) => !previous.same(current),
        None => true,
    }
}

/// The plan of a run over one worker.
#[derive(Debug, PartialEq, Eq)]
pub struct BatchPlan {
    pub actions: Vec<IndexAction>,
    pub summary: ActionSummary,
    pub catalog_needed: bool,
    pub steps: Vec<RunStep>,
}

/// Plans a run over one worker. Without a provenance, sources are compared with
/// the persisted sources of the workspace by their fingerprints; with one, also
/// by the worker and its options, with all persisted inputs.
pub fn plan_index_batch(
    current: &[SourceUnit],
    persisted_sources: &[SourceUnit],
    persisted_inputs: &[AnalysisInput],
    current_provenance: &Option<Provenance>,
    previous_manifest: &Option<Fingerprint>,
    manifest_fingerprint: &Fingerprint,
) -> (result: BatchPlan)
    ensures
        match *current_provenance {
            Some(provenance) => freshness::is_analysis_plan(
                result.actions@,
                inputs_of(current@, provenance),
                persisted_inputs@,
            ),
            None => freshness::is_source_plan(
                result.actions@,
                current@,
                workspace_units(persisted_sources@),
            ),
        },
        result.summary.summarizes(result.actions@),
        result.catalog_needed == catalog_outdated(*previous_manifest, *manifest_fingerprint),
        result.steps@ == run_steps(result.catalog_needed, result.summary.reanalyze@.len() > 0),
{
    let actions = match current_provenance {
        Some(provenance) => plan_analysis_invalidation(
            make_inputs(current, provenance).as_slice(),
            persisted_inputs,
        ),
        None => plan_invalidation(current, keep_workspace_units(persisted_sources).as_slice()),
    };
    let summary = summarize_actions(actions.as_slice());
    let catalog_needed: bool = is_catalog_outdated(previous_manifest, manifest_fingerprint);
    let steps = plan_steps(catalog_needed, summary.reanalyze.len() > 0);
    BatchPlan { actions, summary, catalog_needed, steps }
}

/// The facts that a source batch is asked for.
pub open spec fn requested_facts() -> Seq<AnalysisFact> {
    seq![
        AnalysisFact::Symbols,
        AnalysisFact::Occurrences,
        AnalysisFact::References,
        AnalysisFact::Calls,
        AnalysisFact::Hierarchy,
        AnalysisFact::Types,
    ]
}

/// The request that analyzes source units under an execution plan.
pub fn batch_request(
    workspace: &WorkspaceId,
    manifest_fingerprint: &Fingerprint,
    source_units: Vec<SourceUnit>,
    execution_plan: OpaqueExecutionPlan,
) -> (result: AnalyzeBatchRequest)
    ensures
        result.workspace == *workspace,
        result.project_fingerprint == *manifest_fingerprint,
        result.requested_facts@ == requested_facts(),
        result.source_units == source_units,
        result.execution_plan == execution_plan,
{
    let mut facts: Vec<AnalysisFact> = Vec::new();
    facts.push(AnalysisFact::Symbols);
    facts.push(AnalysisFact::Occurrences);
    facts.push(AnalysisFact::References);
    facts.push(AnalysisFact::Calls);
    facts.push(AnalysisFact::Hierarchy);
    facts.push(AnalysisFact::Types);
    assert(facts@ =~= requested_facts());
    AnalyzeBatchRequest {
        workspace: workspace.clone(),
        project_fingerprint: manifest_fingerprint.clone(),
        requested_facts: facts,
        source_units,
        execution_plan,
    }
}

impl Keyed for FileAnalysisSnapshot {
    open spec fn key(&self) -> Seq<char> {
        self.source_unit.id@
    }

    fn key_text(&self) -> (result: &str) {
        self.source_unit.id.as_str()
    }
}

/// The problem of a batch: the least source unit that was not requested, then
/// the least that is missing.
pub open spec fn batch_problem(
    requested: Seq<SourceUnit>,
    snapshots: Seq<FileAnalysisSnapshot>,
) -> Option<IndexOrchestratorErrorView> {
    let expected = ordered_map::keys_of(requested);
    let received = ordered_map::keys_of(snapshots);
    let extra = ordering::sorted_texts(received.difference(expected));
    let missing = ordering::sorted_texts(expected.difference(received));
    if extra.len() > 0 {
        Some(IndexOrchestratorErrorView::UnexpectedSnapshot { source_unit: extra[0] })
    } else if missing.len() > 0 {
        Some(IndexOrchestratorErrorView::MissingSnapshot { source_unit: missing[0] })
    } else {
        None
    }
}

/// Refuses a batch that does not hold snapshots of exactly the requested source
/// units.
pub fn validate_batch(requested: &[SourceUnit], snapshots: &[FileAnalysisSnapshot]) -> (result:
    Result<(), IndexOrchestratorError>)
    ensures
        match batch_problem(requested@, snapshots@) {
            Some(problem) => result is Err && result->Err_0@ == problem,
            None => result is Ok,
        },
{
    let expected: OrderedMap<usize> = index_by_key(requested);
    let received: OrderedMap<usize> = index_by_key(snapshots);
    let extra = missing_keys(&received, &expected);
    assert(text::texts(extra@).len() == extra@.len());
    if extra.len() > 0 {
        assert(text::texts(extra@)[0] == extra@[0]@);
        return Err(
            IndexOrchestratorError::UnexpectedSnapshot { source_unit: extra[0].clone() },
        );
    }
    let missing = missing_keys(&expected, &received);
    assert(text::texts(missing@).len() == missing@.len());
    if missing.len() > 0 {
        assert(text::texts(missing@)[0] == missing@[0]@);
        return Err(
            IndexOrchestratorError::MissingSnapshot { source_unit: missing[0].clone() },
        );
    }
    Ok(())
}

/// A batch is accepted exactly where the source units of its snapshots are the
/// requested ones.
pub proof fn law_accepted_batch_matches_request(
    requested: Seq<SourceUnit>,
    snapshots: Seq<FileAnalysisSnapshot>,
)
    ensures
        batch_problem(requested, snapshots) is None <==> ordered_map::keys_of(requested)
            == ordered_map::keys_of(snapshots),
{
    let expected = ordered_map::keys_of(requested);
    let received = ordered_map::keys_of(snapshots);
    ordered_map::lemma_keys_of(requested, Seq::empty());
    ordered_map::lemma_keys_of(snapshots, Seq::empty());
    lemma_empty_list(received.difference(expected));
    lemma_empty_list(expected.difference(received));
    if expected == received {
        assert(received.difference(expected) =~= Set::empty());
        assert(expected.difference(received) =~= Set::empty());
    }
    if batch_problem(requested, snapshots) is None {
        assert forall|t: Seq<char>| expected.contains(t) == received.contains(t) by {
            assert(!received.difference(expected).contains(t));
            assert(!expected.difference(received).contains(t));
        }
        assert(expected =~= received);
    }
}

proof fn lemma_empty_list(texts: Set<Seq<char>>)
    requires
        texts.finite(),
    ensures
        ordering::sorted_texts(texts).len() == 0 <==> texts == Set::<Seq<char>>::empty(),
{
    ordering::lemma_sorted_texts(texts);
    let list = ordering::sorted_texts(texts);
    if list.len() == 0 {
        assert(list.to_set() =~= Set::empty());
    } else {
        assert(list.to_set().contains(list[0]));
    }
}

/// What was known of the public interface of a source unit.
#[derive(Debug, PartialEq, Eq)]
pub struct PublicApi {
    pub source_unit: SourceUnitId,
    pub fingerprint: Option<Fingerprint>,
}

/// Whether two optional fingerprints are the same.
pub open spec fn same_fingerprint(a: Option<Fingerprint>, b: Option<Fingerprint>) -> bool {
    match (a, b) {
        (Some(a), Some(b)) => a@ == b@,
        (None, None) => true,
        _ => false,
    }
}

/// Computes `same_fingerprint`.
pub fn is_same_fingerprint(a: &Option<Fingerprint>, b: &Option<Fingerprint>) -> (result: bool)
    ensures
        result == same_fingerprint(*a, *b),
{
    match (a, b) {
        (Some(a), Some(b)) => a.same(b),
        (None, None) => true,
        _ => false,
    }
}

/// The public interface that was known of a source unit: the first entry of
/// its id.
pub open spec fn known_api(apis: Seq<PublicApi>, id: Seq<char>) -> Option<Fingerprint>
    decreases apis.len(),
{
    if apis.len() == 0 {
        None
    } else if apis[0].source_unit@ == id {
        apis[0].fingerprint
    } else {
        known_api(apis.drop_first(), id)
    }
}

fn find_api(apis: &[PublicApi], id: &SourceUnitId) -> (result: Option<Fingerprint>)
    ensures
        result == known_api(apis@, id@),
{
    let mut i: usize = 0;
    assert(apis@.skip(0) =~= apis@);
    while i < apis.len()
        invariant
            i <= apis@.len(),
            known_api(apis@, id@) == known_api(apis@.skip(i as int), id@),
        decreases apis@.len() - i,
    {
        assert(apis@.skip(i as int).drop_first() =~= apis@.skip(i + 1));
        if apis[i].source_unit.same(id) {
            return apis[i].fingerprint.clone();
        }
        i = i + 1;
    }
    None
}

/// The source units that depend on a public interface which changed.
pub open spec fn api_dependents(
    previous: Option<Fingerprint>,
    current: Option<Fingerprint>,
    dependents: Seq<SourceUnitId>,
) -> Seq<SourceUnitId> {
    if same_fingerprint(previous, current) {
        Seq::empty()
    } else {
        dependents
    }
}

/// Computes `api_dependents`.
pub fn api_dependent_invalidations(
    previous: &Option<Fingerprint>,
    current: &Option<Fingerprint>,
    dependents: &[SourceUnitId],
) -> (result: Vec<SourceUnitId>)
    ensures
        result@ == api_dependents(*previous, *current, dependents@),
{
    let mut result: Vec<SourceUnitId> = Vec::new();
    if is_same_fingerprint(previous, current) {
        return result;
    }
    let mut i: usize = 0;
    while i < dependents.len()
        invariant
            i <= dependents@.len(),
            result@ == dependents@.take(i as int),
        decreases dependents@.len() - i,
    {
        result.push(dependents[i].clone());
        i = i + 1;
        assert(result@ =~= dependents@.take(i as int));
    }
    assert(dependents@.take(i as int) =~= dependents@);
    result
}

/// The position of the first snapshot of a source unit; the length, where
/// there is none.
pub open spec fn snapshot_position(snapshots: Seq<FileAnalysisSnapshot>, id: Seq<char>) -> int
    decreases snapshots.len(),
{
    if snapshots.len() == 0 || snapshots[0].source_unit.id@ == id {
        0
    } else {
        1 + snapshot_position(snapshots.drop_first(), id)
    }
}

fn find_snapshot(snapshots: &[FileAnalysisSnapshot], id: &SourceUnitId) -> (result: usize)
    ensures
        result == snapshot_position(snapshots@, id@),
        result <= snapshots@.len(),
        ordered_map::keys_of(snapshots@).contains(id@) ==> result < snapshots@.len(),
{
    let mut i: usize = 0;
    assert(snapshots@.skip(0) =~= snapshots@);
    while i < snapshots.len()
        invariant
            i <= snapshots@.len(),
            snapshot_position(snapshots@, id@) == i + snapshot_position(
                snapshots@.skip(i as int),
                id@,
            ),
            forall|j: int| 0 <= j < i ==> (#[trigger] snapshots@[j]).source_unit.id@ != id@,
        decreases snapshots@.len() - i,
    {
        assert(snapshots@.skip(i as int).drop_first() =~= snapshots@.skip(i + 1));
        if snapshots[i].source_unit.id.same(id) {
            return i;
        }
        i = i + 1;
    }
    proof {
        ordered_map::lemma_keys_of(snapshots@, id@);
        if ordered_map::keys_of(snapshots@).contains(id@) {
            let j = choose|j: int|
                0 <= j < snapshots@.len() && (#[trigger] snapshots@[j]).key() == id@;
            assert(snapshots@[j].source_unit.id@ == id@);
        }
    }
    i
}

/// What is to be written of an accepted batch.
#[derive(Debug, PartialEq, Eq)]
pub struct CommitPlan {
    /// For each requested source unit, the position of its snapshot.
    pub entries: Vec<usize>,
    /// Source units whose snapshots rest on a changed public interface.
    pub removed: Vec<SourceUnitId>,
}

/// The units among dependents that were not analyzed themselves.
pub open spec fn outside(dependents: Seq<SourceUnitId>, analyzed: Seq<SourceUnit>) -> Seq<
    SourceUnitId,
> {
    dependents.filter(|id: SourceUnitId| !ordered_map::keys_of(analyzed).contains(id@))
}

/// The dependents of the first `n` requested units whose interfaces changed.
pub open spec fn changed_dependents(
    requested: Seq<SourceUnit>,
    snapshots: Seq<FileAnalysisSnapshot>,
    known: Seq<PublicApi>,
    dependents: Seq<Vec<SourceUnitId>>,
    n: int,
) -> Seq<SourceUnitId>
    decreases n,
{
    if n <= 0 {
        Seq::empty()
    } else {
        let id = requested[n - 1].id@;
        changed_dependents(requested, snapshots, known, dependents, n - 1) + api_dependents(
            known_api(known, id),
            snapshots[snapshot_position(snapshots, id)].public_api_fingerprint,
            dependents[n - 1]@,
        )
    }
}

/// Plans what is written of an accepted batch: the snapshot of every requested
/// source unit, and the removal of units that depend on a changed public
/// interface and were not analyzed in the same batch.
pub fn plan_commit(
    requested: &[SourceUnit],
    snapshots: &[FileAnalysisSnapshot],
    known: &[PublicApi],
    dependents: &[Vec<SourceUnitId>],
) -> (result: CommitPlan)
    requires
        batch_problem(requested@, snapshots@) is None,
        dependents@.len() == requested@.len(),
    ensures
        result.entries@.len() == requested@.len(),
        forall|i: int|
            0 <= i < requested@.len() ==> (#[trigger] result.entries@[i]) == snapshot_position(
                snapshots@,
                requested@[i].id@,
            ) && result.entries@[i] < snapshots@.len(),
        result.removed@ == outside(
            changed_dependents(
                requested@,
                snapshots@,
                known@,
                dependents@,
                requested@.len() as int,
            ),
            requested@,
        ),
{
    let mut entries: Vec<usize> = Vec::new();
    let mut changed: Vec<SourceUnitId> = Vec::new();
    let mut i: usize = 0;
    proof {
        law_accepted_batch_matches_request(requested@, snapshots@);
    }
    while i < requested.len()
        invariant
            ordered_map::keys_of(requested@) == ordered_map::keys_of(snapshots@),
            dependents@.len() == requested@.len(),
            i <= requested@.len(),
            entries@.len() == i,
            forall|j: int|
                0 <= j < i ==> (#[trigger] entries@[j]) == snapshot_position(
                    snapshots@,
                    requested@[j].id@,
                ) && entries@[j] < snapshots@.len(),
            changed@ == changed_dependents(
                requested@,
                snapshots@,
                known@,
                dependents@,
                i as int,
            ),
        decreases requested@.len() - i,
    {
        let id = &requested[i].id;
        proof {
            ordered_map::lemma_keys_of(requested@, id@);
            assert(requested@[i as int].key() == id@);
        }
        let position: usize = find_snapshot(snapshots, id);
        entries.push(position);
        let previous = find_api(known, id);
        let mut found = api_dependent_invalidations(
            &previous,
            &snapshots[position].public_api_fingerprint,
            dependents[i].as_slice(),
        );
        changed.append(&mut found);
        i = i + 1;
    }
    let analyzed: OrderedMap<usize> = index_by_key(requested);
    let mut removed: Vec<SourceUnitId> = Vec::new();
    let mut k: usize = 0;
    proof {
        reveal(Seq::filter);
        assert(outside(changed@.take(0), requested@) =~= Seq::empty());
    }
    while k < changed.len()
        invariant
            analyzed.wf(),
            analyzed@.dom() == ordered_map::keys_of(requested@),
            k <= changed@.len(),
            removed@ == outside(changed@.take(k as int), requested@),
        decreases changed@.len() - k,
    {
        proof {
            assert(changed@.take(k + 1).drop_last() =~= changed@.take(k as int));
            assert(changed@.take(k + 1).last() == changed@[k as int]);
            reveal(Seq::filter);
        }
        if !analyzed.contains_key(changed[k].as_str()) {
            removed.push(changed[k].clone());
        }
        k = k + 1;
    }
    assert(changed@.take(k as int) =~= changed@);
    CommitPlan { entries, removed }
}

/// Source units that one worker analyzes together.
#[derive(Debug, PartialEq, Eq)]
pub struct WorkerBatch {
    pub component: ComponentId,
    pub language: Language,
    /// The name of the worker's installation.
    pub worker: String,
    pub launch: WorkerLaunch,
    pub source_units: Vec<SourceUnit>,
}

/// A batch that has something to analyze.
#[derive(Debug, PartialEq, Eq)]
pub struct PlannedBatch {
    /// Which of the selected batches it is.
    pub batch: usize,
    pub requested: Vec<SourceUnit>,
    /// Which of the run's workers analyzes it.
    pub worker: usize,
}

/// The plan of a run over several batches.
#[derive(Debug, PartialEq, Eq)]
pub struct SelectionPlan {
    pub actions: Vec<IndexAction>,
    pub summary: ActionSummary,
    /// Whether the dependency catalog is discovered, by the first batch's
    /// worker.
    pub catalog_needed: bool,
    pub steps: Vec<RunStep>,
    pub batches: Vec<PlannedBatch>,
    /// For each worker of the run, the batch whose launch starts it.
    pub workers: Vec<usize>,
}

/// The units of a batch that are to be analyzed again.
pub open spec fn requested_of(units: Seq<SourceUnit>, ids: Set<Seq<char>>) -> Seq<SourceUnit> {
    units.filter(|unit: SourceUnit| ids.contains(unit.id@))
}

/// The batches among the first `n` that have something to analyze, in order.
pub open spec fn active_batches(batches: Seq<WorkerBatch>, ids: Set<Seq<char>>, n: int) -> Seq<int>
    decreases n,
{
    if n <= 0 {
        Seq::empty()
    } else {
        let before = active_batches(batches, ids, n - 1);
        if requested_of(batches[n - 1].source_units@, ids).len() > 0 {
            before.push(n - 1)
        } else {
            before
        }
    }
}

/// Whether planned batches are the active ones, with their units to analyze.
pub open spec fn are_planned(
    planned: Seq<PlannedBatch>,
    batches: Seq<WorkerBatch>,
    ids: Set<Seq<char>>,
    active: Seq<int>,
) -> bool {
    &&& planned.len() == active.len()
    &&& forall|i: int|
        0 <= i < active.len() ==> {
            &&& (#[trigger] planned[i]).batch == active[i]
            &&& planned[i].batch < batches.len()
            &&& planned[i].requested@ == requested_of(
                batches[planned[i].batch as int].source_units@,
                ids,
            )
        }
}

/// Whether every planned batch is given a worker of its own launch, and no two
/// workers have the same launch.
pub open spec fn are_workers(
    planned: Seq<PlannedBatch>,
    workers: Seq<usize>,
    batches: Seq<WorkerBatch>,
) -> bool {
    &&& forall|w: int| 0 <= w < workers.len() ==> (#[trigger] workers[w]) < batches.len()
    &&& forall|w: int, v: int|
        #![trigger workers[w], workers[v]]
        0 <= w < v < workers.len() ==> !supervisor::same_launch(
            batches[workers[w] as int].launch,
            batches[workers[v] as int].launch,
        )
    &&& forall|i: int|
        0 <= i < planned.len() ==> {
            &&& (#[trigger] planned[i]).batch < batches.len()
            &&& planned[i].worker < workers.len()
            &&& supervisor::same_launch(
                batches[planned[i].batch as int].launch,
                batches[workers[planned[i].worker as int] as int].launch,
            )
        }
}

/// Batches share a worker exactly where their launches are the same, so a
/// worker is started once for all of its batches.
pub proof fn law_same_launch_shares_a_worker(
    planned: Seq<PlannedBatch>,
    workers: Seq<usize>,
    batches: Seq<WorkerBatch>,
    i: int,
    j: int,
)
    requires
        are_workers(planned, workers, batches),
        0 <= i < planned.len(),
        0 <= j < planned.len(),
    ensures
        planned[i].worker == planned[j].worker <==> supervisor::same_launch(
            batches[planned[i].batch as int].launch,
            batches[planned[j].batch as int].launch,
        ),
{
    let a = batches[planned[i].batch as int].launch;
    let b = batches[planned[j].batch as int].launch;
    let v = planned[i].worker as int;
    let w = planned[j].worker as int;
    let c = batches[workers[v] as int].launch;
    let d = batches[workers[w] as int].launch;
    if v == w {
        lemma_same_launch_symmetric(b, d);
        lemma_same_launch_transitive(a, c, b);
    } else if supervisor::same_launch(a, b) {
        lemma_same_launch_symmetric(a, c);
        lemma_same_launch_transitive(c, a, b);
        lemma_same_launch_transitive(c, b, d);
        lemma_same_launch_symmetric(c, d);
    }
}

proof fn lemma_same_launch_symmetric(a: WorkerLaunch, b: WorkerLaunch)
    requires
        supervisor::same_launch(a, b),
    ensures
        supervisor::same_launch(b, a),
{
    assert forall|i: int| 0 <= i < b.environment@.len() implies (#[trigger] b.environment@[i]).name@
        == a.environment@[i].name@ && b.environment@[i].value@ == a.environment@[i].value@ by {
        assert(a.environment@[i].name@ == b.environment@[i].name@);
    }
}

proof fn lemma_same_launch_transitive(a: WorkerLaunch, b: WorkerLaunch, c: WorkerLaunch)
    requires
        supervisor::same_launch(a, b),
        supervisor::same_launch(b, c),
    ensures
        supervisor::same_launch(a, c),
{
    assert forall|i: int| 0 <= i < a.environment@.len() implies (#[trigger] a.environment@[i]).name@
        == c.environment@[i].name@ && a.environment@[i].value@ == c.environment@[i].value@ by {
        assert(b.environment@[i].name@ == c.environment@[i].name@);
    }
}

fn pick_requested(units: &[SourceUnit], ids: &OrderedMap<usize>) -> (result: Vec<SourceUnit>)
    requires
        ids.wf(),
    ensures
        result@ == requested_of(units@, ids@.dom()),
{
    let mut result: Vec<SourceUnit> = Vec::new();
    let mut i: usize = 0;
    proof {
        reveal(Seq::filter);
        assert(requested_of(units@.take(0), ids@.dom()) =~= Seq::empty());
    }
    while i < units.len()
        invariant
            ids.wf(),
            i <= units@.len(),
            result@ == requested_of(units@.take(i as int), ids@.dom()),
        decreases units@.len() - i,
    {
        proof {
            assert(units@.take(i + 1).drop_last() =~= units@.take(i as int));
            assert(units@.take(i + 1).last() == units@[i as int]);
            reveal(Seq::filter);
        }
        if ids.contains_key(units[i].id.as_str()) {
            result.push(units[i].clone());
        }
        i = i + 1;
    }
    assert(units@.take(i as int) =~= units@);
    result
}

fn find_worker(batches: &[WorkerBatch], workers: &[usize], launch: &WorkerLaunch) -> (result: usize)
    requires
        forall|w: int| 0 <= w < workers@.len() ==> (#[trigger] workers@[w]) < batches@.len(),
    ensures
        result <= workers@.len(),
        result < workers@.len() ==> supervisor::same_launch(
            *launch,
            batches@[workers@[result as int] as int].launch,
        ),
        forall|w: int|
            0 <= w < result ==> !supervisor::same_launch(
                *launch,
                batches@[(#[trigger] workers@[w]) as int].launch,
            ),
{
    let mut w: usize = 0;
    while w < workers.len()
        invariant
            forall|v: int| 0 <= v < workers@.len() ==> (#[trigger] workers@[v]) < batches@.len(),
            w <= workers@.len(),
            forall|v: int|
                0 <= v < w ==> !supervisor::same_launch(
                    *launch,
                    batches@[(#[trigger] workers@[v]) as int].launch,
                ),
        decreases workers@.len() - w,
    {
        if launch.same(&batches[workers[w]].launch) {
            return w;
        }
        w = w + 1;
    }
    w
}

/// The problem of a run over several batches: its execution plan, then batches
/// that no worker supports.
pub open spec fn selection_problem(
    manifest_fingerprint: Fingerprint,
    execution_plan: OpaqueExecutionPlan,
    unsupported: usize,
) -> Option<IndexOrchestratorErrorView> {
    if execution_plan.resolved_fingerprint@ != manifest_fingerprint@ {
        Some(
            IndexOrchestratorErrorView::ExecutionPlanManifestMismatch {
                backend: execution_plan.backend@,
                actual: execution_plan.resolved_fingerprint@,
                expected: manifest_fingerprint@,
            },
        )
    } else if unsupported > 0 {
        Some(IndexOrchestratorErrorView::UnsupportedBatches { count: unsupported })
    } else {
        None
    }
}

/// Whether a plan is one for a run over several batches.
pub open spec fn is_selection_plan(
    plan: SelectionPlan,
    current: Seq<SourceUnit>,
    persisted_sources: Seq<SourceUnit>,
    batches: Seq<WorkerBatch>,
    previous_manifest: Option<Fingerprint>,
    manifest_fingerprint: Fingerprint,
) -> bool {
    let ids = ordered_map::keys_of(plan.summary.reanalyze@);
    &&& freshness::is_source_plan(plan.actions@, current, workspace_units(persisted_sources))
    &&& plan.summary.summarizes(plan.actions@)
    &&& plan.catalog_needed == (catalog_outdated(previous_manifest, manifest_fingerprint)
        || plan.summary.reanalyze@.len() > 0)
    &&& plan.steps@ == run_steps(plan.catalog_needed, plan.batches@.len() > 0)
    &&& are_planned(
        plan.batches@,
        batches,
        ids,
        active_batches(batches, ids, batches.len() as int),
    )
    &&& are_workers(plan.batches@, plan.workers@, batches)
}

/// Plans a run over several batches. One plan covers all of them: a plan for
/// each batch would remove what the others persisted. Batches with the same
/// launch share a worker.
pub fn plan_selected_batches(
    current: &[SourceUnit],
    persisted_sources: &[SourceUnit],
    batches: &[WorkerBatch],
    unsupported: usize,
    previous_manifest: &Option<Fingerprint>,
    manifest_fingerprint: &Fingerprint,
    execution_plan: &OpaqueExecutionPlan,
) -> (result: Result<SelectionPlan, IndexOrchestratorError>)
    ensures
        match selection_problem(*manifest_fingerprint, *execution_plan, unsupported) {
            Some(problem) => result is Err && result->Err_0@ == problem,
            None => result is Ok && is_selection_plan(
                result->Ok_0,
                current@,
                persisted_sources@,
                batches@,
                *previous_manifest,
                *manifest_fingerprint,
            ),
        },
{
    match validate_execution_plan(manifest_fingerprint, execution_plan) {
        Ok(()) => {},
        Err(error) => {
            return Err(error);
        },
    }
    if unsupported > 0 {
        return Err(IndexOrchestratorError::UnsupportedBatches { count: unsupported });
    }
    let actions = plan_invalidation(current, keep_workspace_units(persisted_sources).as_slice());
    let summary = summarize_actions(actions.as_slice());
    let ids: OrderedMap<usize> = index_by_key(summary.reanalyze.as_slice());
    let mut planned: Vec<PlannedBatch> = Vec::new();
    let mut workers: Vec<usize> = Vec::new();
    let mut i: usize = 0;
    while i < batches.len()
        invariant
            ids.wf(),
            i <= batches@.len(),
            are_planned(
                planned@,
                batches@,
                ids@.dom(),
                active_batches(batches@, ids@.dom(), i as int),
            ),
            are_workers(planned@, workers@, batches@),
        decreases batches@.len() - i,
    {
        let requested = pick_requested(batches[i].source_units.as_slice(), &ids);
        if requested.len() > 0 {
            let ghost before_workers = workers@;
            let ghost before = planned@;
            let worker: usize = find_worker(batches, workers.as_slice(), &batches[i].launch);
            if worker == workers.len() {
                workers.push(i);
                proof {
                    assert forall|w: int, v: int|
                        #![trigger workers@[w], workers@[v]]
                        0 <= w < v < workers@.len() implies !supervisor::same_launch(
                        batches@[workers@[w] as int].launch,
                        batches@[workers@[v] as int].launch,
                    ) by {
                        assert(workers@[w] == before_workers[w]);
                        if v < before_workers.len() {
                            assert(workers@[v] == before_workers[v]);
                        } else if supervisor::same_launch(
                            batches@[workers@[w] as int].launch,
                            batches@[workers@[v] as int].launch,
                        ) {
                            lemma_same_launch_symmetric(
                                batches@[workers@[w] as int].launch,
                                batches@[workers@[v] as int].launch,
                            );
                        }
                    }
                    assert(supervisor::same_launch(
                        batches@[i as int].launch,
                        batches@[i as int].launch,
                    ));
                }
            }
            planned.push(PlannedBatch { batch: i, requested, worker });
            proof {
                assert forall|k: int| 0 <= k < planned@.len() implies {
                    &&& (#[trigger] planned@[k]).batch < batches@.len()
                    &&& planned@[k].worker < workers@.len()
                    &&& supervisor::same_launch(
                        batches@[planned@[k].batch as int].launch,
                        batches@[workers@[planned@[k].worker as int] as int].launch,
                    )
                } by {
                    if k < before.len() {
                        assert(planned@[k] == before[k]);
                        assert(workers@[before[k].worker as int]
                            == before_workers[before[k].worker as int]);
                    }
                }
            }
        }
        i = i + 1;
    }
    let catalog_needed: bool = is_catalog_outdated(previous_manifest, manifest_fingerprint)
        || summary.reanalyze.len() > 0;
    let steps = plan_steps(catalog_needed, planned.len() > 0);
    Ok(SelectionPlan { actions, summary, catalog_needed, steps, batches: planned, workers })
}

fn speaks(languages: &[Language], language: &Language) -> (result: bool)
    ensures
        result == speaks_language(languages@, *language),
{
    let mut i: usize = 0;
    while i < languages.len()
        invariant
            i <= languages@.len(),
            forall|j: int| 0 <= j < i ==> (#[trigger] languages@[j])@ != language@,
        decreases languages@.len() - i,
    {
        if languages[i].same(language) {
            assert(languages@[i as int]@ == language@);
            return true;
        }
        i = i + 1;
    }
    false
}

/// Whether a language is among others.
pub open spec fn speaks_language(languages: Seq<Language>, language: Language) -> bool {
    exists|i: int| 0 <= i < languages.len() && (#[trigger] languages[i])@ == language@
}

/// Whether a worker still offers what a batch needs: its language, and file
/// snapshots.
pub open spec fn supports_batch(capabilities: WorkerCapabilities, language: Language) -> bool {
    speaks_language(capabilities.languages@, language) && capabilities.capabilities@.contains(
        WorkerCapability::FileAnalysisSnapshot,
    )
}

/// Refuses a worker whose handshake no longer offers what its batch needs.
pub fn check_batch_worker(capabilities: &WorkerCapabilities, batch: &WorkerBatch) -> (result: Result<
    (),
    IndexOrchestratorError,
>)
    ensures
        result is Ok <==> supports_batch(*capabilities, batch.language),
        result matches Err(error) ==> {
            &&& error is WorkerNoLongerCompatible
            &&& error->worker@ == batch.worker@
            &&& error->WorkerNoLongerCompatible_component@ == batch.component@
            &&& error->language == batch.language
        },
{
    let mut offers: bool = false;
    let mut i: usize = 0;
    while i < capabilities.capabilities.len()
        invariant
            i <= capabilities.capabilities@.len(),
            offers <==> exists|j: int|
                0 <= j < i && #[trigger] capabilities.capabilities@[j]
                    == WorkerCapability::FileAnalysisSnapshot,
        decreases capabilities.capabilities@.len() - i,
    {
        if capabilities.capabilities[i] == WorkerCapability::FileAnalysisSnapshot {
            assert(capabilities.capabilities@[i as int] == WorkerCapability::FileAnalysisSnapshot);
            offers = true;
        }
        i = i + 1;
    }
    if speaks(capabilities.languages.as_slice(), &batch.language) && offers {
        Ok(())
    } else {
        Err(
            IndexOrchestratorError::WorkerNoLongerCompatible {
                worker: batch.worker.clone(),
                component: batch.component.as_str().to_owned(),
                language: batch.language.clone(),
            },
        )
    }
}

/// What a worker reports of a source batch beside its snapshots, and what the
/// batch cost.
#[derive(Debug, PartialEq, Eq)]
pub struct BatchReport {
    pub component: String,
    pub language: String,
    pub source_units: usize,
    pub committed: usize,
    pub worker_millis: u128,
    pub commit_millis: u128,
    pub timings: Vec<PhaseTiming>,
    pub metrics: Vec<WorkerMetric>,
}

impl IndexRun {
    /// Whether a report can be added to the sums of a run.
    pub open spec fn report_fits(&self, report: BatchReport) -> bool {
        &&& measures::sums_fit(self.worker_phase_millis@, measures::of_timings(report.timings@))
        &&& measures::sums_fit(self.worker_metrics@, measures::of_metrics(report.metrics@))
        &&& self.analyzed + report.committed <= usize::MAX
        &&& self.source_worker_millis + report.worker_millis <= u128::MAX
        &&& self.source_commit_millis + report.commit_millis <= u128::MAX
    }

    /// Adds a committed source batch to the account of the run.
    pub fn record_batch(&mut self, report: BatchReport)
        requires
            old(self).wf(),
            old(self).report_fits(report),
        ensures
            final(self).wf(),
            measures::is_sum(
                final(self).worker_phase_millis@,
                old(self).worker_phase_millis@,
                measures::of_timings(report.timings@),
            ),
            measures::is_sum(
                final(self).worker_metrics@,
                old(self).worker_metrics@,
                measures::of_metrics(report.metrics@),
            ),
            final(self).analyzed == old(self).analyzed + report.committed,
            final(self).source_worker_millis == old(self).source_worker_millis
                + report.worker_millis,
            final(self).source_commit_millis == old(self).source_commit_millis
                + report.commit_millis,
            final(self).batches@.len() == old(self).batches@.len() + 1,
            final(self).batches@.drop_last() == old(self).batches@,
            ({
                let batch = final(self).batches@.last();
                let none = Map::<Seq<char>, u64>::empty();
                &&& batch.component == report.component
                &&& batch.language == report.language
                &&& batch.source_units == report.source_units
                &&& batch.worker_millis == report.worker_millis
                &&& batch.commit_millis == report.commit_millis
                &&& measures::is_sum(batch.worker_phases@, none, measures::of_timings(report.timings@))
                &&& measures::is_sum(batch.worker_metrics@, none, measures::of_metrics(report.metrics@))
            }),
            final(self).reused == old(self).reused,
            final(self).removed == old(self).removed,
            final(self).worker_starts == old(self).worker_starts,
            final(self).dependency_analyzed == old(self).dependency_analyzed,
            final(self).dependency_reused == old(self).dependency_reused,
            final(self).dependency_catalog_millis == old(self).dependency_catalog_millis,
            final(self).dependency_materialization_millis
                == old(self).dependency_materialization_millis,
            final(self).artifact_locators == old(self).artifact_locators,
    {
        let ghost none = Map::<Seq<char>, u64>::empty();
        let mut worker_phases: OrderedMap<u64> = OrderedMap::new();
        let mut worker_metrics: OrderedMap<u64> = OrderedMap::new();
        proof {
            assert forall|name: Seq<char>| #[trigger]
                measures::value_of(none, name) + measures::total(measures::of_timings(report.timings@), name)
                    <= u64::MAX by {
                assert(measures::value_of(self.worker_phase_millis@, name) + measures::total(
                    measures::of_timings(report.timings@),
                    name,
                ) <= u64::MAX);
            }
            assert forall|name: Seq<char>| #[trigger]
                measures::value_of(none, name) + measures::total(measures::of_metrics(report.metrics@), name)
                    <= u64::MAX by {
                assert(measures::value_of(self.worker_metrics@, name) + measures::total(
                    measures::of_metrics(report.metrics@),
                    name,
                ) <= u64::MAX);
            }
        }
        let timings = timing_measures(report.timings.as_slice());
        let metrics = metric_measures(report.metrics.as_slice());
        add_measures(&mut worker_phases, timings.as_slice());
        add_measures(&mut worker_metrics, metrics.as_slice());
        add_measures(&mut self.worker_phase_millis, timings.as_slice());
        add_measures(&mut self.worker_metrics, metrics.as_slice());
        self.analyzed = self.analyzed + report.committed;
        self.source_worker_millis = self.source_worker_millis + report.worker_millis;
        self.source_commit_millis = self.source_commit_millis + report.commit_millis;
        let ghost before = self.batches@;
        self.batches.push(
            BatchIndexMetrics {
                component: report.component,
                language: report.language,
                source_units: report.source_units,
                worker_millis: report.worker_millis,
                commit_millis: report.commit_millis,
                worker_phases,
                worker_metrics,
            },
        );
        assert(self.batches@.drop_last() =~= before);
    }
}

impl Keyed for Component {
    open spec fn key(&self) -> Seq<char> {
        self.id@
    }

    fn key_text(&self) -> (result: &str) {
        self.id.as_str()
    }
}

impl Keyed for ArtifactLocator {
    open spec fn key(&self) -> Seq<char> {
        self.source_unit@
    }

    fn key_text(&self) -> (result: &str) {
        self.source_unit.as_str()
    }
}

/// A dependency catalog that is being discovered page by page.
pub struct DependencyCatalog {
    pub descriptors: OrderedMap<ArtifactDescriptor>,
    pub artifact_locators: OrderedMap<String>,
    pub cursor: Option<String>,
    pub page: u64,
}

/// The problem of an artifact: a component that the manifest does not hold, or
/// a context that is not the component's.
pub open spec fn artifact_problem(
    components: Seq<Component>,
    descriptor: ArtifactDescriptor,
) -> Option<IndexOrchestratorErrorView> {
    let component = descriptor.source_unit.component@;
    match ordered_map::lookup(components, component) {
        None => Some(IndexOrchestratorErrorView::UnknownDependencyComponent { component }),
        Some(expected) => if descriptor.source_unit.context@ != expected.configuration@ {
            Some(
                IndexOrchestratorErrorView::DependencyContextMismatch {
                    component,
                    expected: expected.configuration@,
                    actual: descriptor.source_unit.context@,
                },
            )
        } else {
            None
        },
    }
}

/// The problem of the first artifact of a page that has one.
pub open spec fn page_problem(
    components: Seq<Component>,
    artifacts: Seq<ArtifactDescriptor>,
) -> Option<IndexOrchestratorErrorView> {
    ordering::first_problem(
        Seq::new(artifacts.len(), |i: int| artifact_problem(components, artifacts[i])),
    )
}

impl DependencyCatalog {
    /// The catalog is kept in order.
    pub open spec fn wf(&self) -> bool {
        self.descriptors.wf() && self.artifact_locators.wf()
    }

    /// A catalog of which no page was read.
    pub fn new() -> (result: Self)
        ensures
            result.wf(),
            result.descriptors@ == Map::<Seq<char>, ArtifactDescriptor>::empty(),
            result.artifact_locators@ == Map::<Seq<char>, String>::empty(),
            result.cursor is None,
            result.page == 0,
    {
        DependencyCatalog {
            descriptors: OrderedMap::new(),
            artifact_locators: OrderedMap::new(),
            cursor: None,
            page: 0,
        }
    }

    /// Whether a catalog is another with a page added: artifacts and locators
    /// by their source units, the last of each counting.
    pub open spec fn extends(
        &self,
        before: &Self,
        artifacts: Seq<ArtifactDescriptor>,
        locators: Seq<ArtifactLocator>,
    ) -> bool {
        &&& self.descriptors@.dom() == before.descriptors@.dom().union(
            ordered_map::keys_of(artifacts),
        )
        &&& forall|id: Seq<char>| #[trigger]
            self.descriptors@.dom().contains(id) ==> if ordered_map::keys_of(artifacts).contains(
                id,
            ) {
                self.descriptors@[id]@ == ordered_map::latest(artifacts, id)@
            } else {
                self.descriptors@[id] == before.descriptors@[id]
            }
        &&& self.artifact_locators@.dom() == before.artifact_locators@.dom().union(
            ordered_map::keys_of(locators),
        )
        &&& forall|id: Seq<char>| #[trigger]
            self.artifact_locators@.dom().contains(id) ==> if ordered_map::keys_of(
                locators,
            ).contains(id) {
                self.artifact_locators@[id] == ordered_map::latest(locators, id).locator
            } else {
                self.artifact_locators@[id] == before.artifact_locators@[id]
            }
    }

    /// The request for the next page.
    pub fn request(&self, execution_plan: OpaqueExecutionPlan) -> (result: ArtifactDiscoveryRequest)
        ensures
            result.workspace_root@ == "."@,
            result.max_artifacts == CATALOG_PAGE_SIZE,
            result.cursor == self.cursor,
            result.execution_plan == execution_plan,
    {
        ArtifactDiscoveryRequest {
            workspace_root: WorkspacePath::new("."),
            max_artifacts: CATALOG_PAGE_SIZE,
            cursor: self.cursor.clone(),
            execution_plan,
        }
    }

    /// Takes a page. An artifact whose component or context is not of the
    /// resolved manifest ends the discovery; otherwise the result tells whether
    /// there is another page.
    pub fn accept_page(&mut self, components: &[Component], page: &ArtifactDiscoveryResponse) -> (result: Result<
        bool,
        IndexOrchestratorError,
    >)
        requires
            old(self).wf(),
            old(self).page < u64::MAX,
        ensures
            final(self).wf(),
            match page_problem(components@, page.artifacts@) {
                Some(problem) => result is Err && result->Err_0@ == problem,
                None => {
                    &&& result == Ok::<bool, IndexOrchestratorError>(page.next_cursor is Some)
                    &&& final(self).extends(
                        old(self),
                        page.artifacts@,
                        page.artifact_locators@,
                    )
                    &&& final(self).cursor == (match page.next_cursor {
                        Some(cursor) => Some(cursor),
                        None => old(self).cursor,
                    })
                    &&& final(self).page == (if page.next_cursor is Some {
                        old(self).page + 1
                    } else {
                        old(self).page as int
                    })
                },
            },
    {
        let ghost before = *self;
        let artifacts = page.artifacts.as_slice();
        let ghost findings = Seq::new(
            artifacts@.len(),
            |i: int| artifact_problem(components@, artifacts@[i]),
        );
        let expected: OrderedMap<usize> = index_by_key(components);
        let mut i: usize = 0;
        assert(before.descriptors@.dom().union(Set::empty()) =~= before.descriptors@.dom());
        while i < artifacts.len()
            invariant
                self.wf(),
                self.artifact_locators == before.artifact_locators,
                self.cursor == before.cursor,
                self.page == before.page,
                before.page < u64::MAX,
                artifacts@ == page.artifacts@,
                findings == Seq::new(
                    artifacts@.len(),
                    |j: int| artifact_problem(components@, artifacts@[j]),
                ),
                expected.wf(),
                expected@.dom() == ordered_map::keys_of(components@),
                forall|key: Seq<char>| #[trigger]
                    expected@.dom().contains(key) ==> expected@[key] < components@.len()
                        && components@[expected@[key] as int] == ordered_map::latest(
                        components@,
                        key,
                    ),
                i <= artifacts@.len(),
                forall|j: int| 0 <= j < i ==> (#[trigger] findings[j]) is None,
                self.descriptors@.dom() == before.descriptors@.dom().union(
                    ordered_map::keys_of(artifacts@.take(i as int)),
                ),
                forall|id: Seq<char>| #[trigger]
                    self.descriptors@.dom().contains(id) ==> if ordered_map::keys_of(
                        artifacts@.take(i as int),
                    ).contains(id) {
                        self.descriptors@[id]@ == ordered_map::latest(
                            artifacts@.take(i as int),
                            id,
                        )@
                    } else {
                        self.descriptors@[id] == before.descriptors@[id]
                    },
            decreases artifacts@.len() - i,
        {
            let descriptor = &artifacts[i];
            let component = descriptor.source_unit.component.as_str();
            match expected.get(component) {
                None => {
                    proof {
                        ordering::lemma_first_problem(findings, i as int);
                    }
                    return Err(
                        IndexOrchestratorError::UnknownDependencyComponent {
                            component: component.to_owned(),
                        },
                    );
                },
                Some(position) => {
                    let context = &components[*position].configuration;
                    if !descriptor.source_unit.context.same(context) {
                        proof {
                            ordering::lemma_first_problem(findings, i as int);
                        }
                        return Err(
                            IndexOrchestratorError::DependencyContextMismatch {
                                component: component.to_owned(),
                                expected: context.clone(),
                                actual: descriptor.source_unit.context.clone(),
                            },
                        );
                    }
                },
            }
            self.descriptors.insert(
                descriptor.source_unit.id.as_str().to_owned(),
                descriptor.clone(),
            );
            i = i + 1;
            proof {
                assert(artifacts@.take(i as int).drop_last() =~= artifacts@.take(i - 1));
                assert(self.descriptors@.dom() =~= before.descriptors@.dom().union(
                    ordered_map::keys_of(artifacts@.take(i as int)),
                ));
            }
        }
        proof {
            ordering::lemma_first_problem(findings, i as int);
            assert(artifacts@.take(i as int) =~= artifacts@);
        }
        let locators = page.artifact_locators.as_slice();
        let mut k: usize = 0;
        assert(before.artifact_locators@.dom().union(Set::empty())
            =~= before.artifact_locators@.dom());
        while k < locators.len()
            invariant
                self.wf(),
                self.cursor == before.cursor,
                self.page == before.page,
                before.page < u64::MAX,
                artifacts@ == page.artifacts@,
                self.descriptors@.dom() == before.descriptors@.dom().union(
                    ordered_map::keys_of(artifacts@),
                ),
                forall|id: Seq<char>| #[trigger]
                    self.descriptors@.dom().contains(id) ==> if ordered_map::keys_of(
                        artifacts@,
                    ).contains(id) {
                        self.descriptors@[id]@ == ordered_map::latest(artifacts@, id)@
                    } else {
                        self.descriptors@[id] == before.descriptors@[id]
                    },
                locators@ == page.artifact_locators@,
                k <= locators@.len(),
                self.artifact_locators@.dom() == before.artifact_locators@.dom().union(
                    ordered_map::keys_of(locators@.take(k as int)),
                ),
                forall|id: Seq<char>| #[trigger]
                    self.artifact_locators@.dom().contains(id) ==> if ordered_map::keys_of(
                        locators@.take(k as int),
                    ).contains(id) {
                        self.artifact_locators@[id] == ordered_map::latest(
                            locators@.take(k as int),
                            id,
                        ).locator
                    } else {
                        self.artifact_locators@[id] == before.artifact_locators@[id]
                    },
            decreases locators@.len() - k,
        {
            self.artifact_locators.insert(
                locators[k].source_unit.as_str().to_owned(),
                locators[k].locator.clone(),
            );
            k = k + 1;
            proof {
                assert(locators@.take(k as int).drop_last() =~= locators@.take(k - 1));
                assert(self.artifact_locators@.dom() =~= before.artifact_locators@.dom().union(
                    ordered_map::keys_of(locators@.take(k as int)),
                ));
            }
        }
        assert(locators@.take(k as int) =~= locators@);
        match &page.next_cursor {
            Some(cursor) => {
                self.cursor = Some(cursor.clone());
                self.page = self.page + 1;
                Ok(true)
            },
            None => Ok(false),
        }
    }

    /// The artifacts of a catalog that was read to its end, in ascending order
    /// of their source units.
    pub fn into_descriptors(self) -> (result: Vec<ArtifactDescriptor>)
        requires
            self.wf(),
        ensures
            ({
                let order = ordering::sorted_texts(self.descriptors@.dom());
                &&& result@.len() == order.len()
                &&& forall|i: int|
                    0 <= i < order.len() ==> #[trigger] result@[i] == self.descriptors@[order[i]]
            }),
    {
        proof {
            self.descriptors.lemma_order();
        }
        self.descriptors.into_values()
    }
}

/// Makes the request that materializes an artifact.
pub fn materialization_request(
    workspace_root: WorkspacePath,
    artifact: ArtifactDescriptor,
    staging_directory: String,
    artifact_locator: Option<String>,
) -> (result: ArtifactMaterializationRequest)
    ensures
        result.workspace_root == workspace_root,
        result.artifact == artifact,
        result.staging_directory == staging_directory,
        result.blob_format_version == ARTIFACT_BLOB_LAYOUT_VERSION,
        result.artifact_locator == artifact_locator,
{
    ArtifactMaterializationRequest {
        workspace_root,
        artifact,
        staging_directory,
        blob_format_version: ARTIFACT_BLOB_LAYOUT_VERSION,
        artifact_locator,
    }
}

/// The value of a hexadecimal digit.
pub open spec fn hex_value(c: char) -> Option<u8> {
    if '0' <= c <= '9' {
        Some((c as u8 - '0' as u8) as u8)
    } else if 'a' <= c <= 'f' {
        Some((c as u8 - 'a' as u8 + 10) as u8)
    } else if 'A' <= c <= 'F' {
        Some((c as u8 - 'A' as u8 + 10) as u8)
    } else {
        None
    }
}

/// The byte that two characters stand for: two hexadecimal digits, or one
/// after a plus sign.
pub open spec fn hex_pair(high: char, low: char) -> Option<u8> {
    match (hex_value(high), hex_value(low)) {
        (Some(high), Some(low)) => Some((high * 16 + low) as u8),
        (None, Some(low)) => if high == '+' {
            Some(low)
        } else {
            None
        },
        _ => None,
    }
}

fn digit_value(c: char) -> (result: Option<u8>)
    ensures
        result == hex_value(c),
        result matches Some(value) ==> value < 16,
{
    if '0' <= c && c <= '9' {
        Some(c as u8 - '0' as u8)
    } else if 'a' <= c && c <= 'f' {
        Some(c as u8 - 'a' as u8 + 10)
    } else if 'A' <= c && c <= 'F' {
        Some(c as u8 - 'A' as u8 + 10)
    } else {
        None
    }
}

fn pair_value(high: char, low: char) -> (result: Option<u8>)
    ensures
        result == hex_pair(high, low),
{
    match (digit_value(high), digit_value(low)) {
        (Some(high), Some(low)) => Some(high * 16 + low),
        (None, Some(low)) => if high == '+' {
            Some(low)
        } else {
            None
        },
        _ => None,
    }
}

/// Whether a text is the name of a digest: `sha256:` and a pair of characters
/// for each of 32 bytes.
pub open spec fn names_digest(value: Seq<char>) -> bool {
    &&& text::begins_with(value, "sha256:"@)
    &&& value.len() == "sha256:"@.len() + 64
    &&& forall|i: int|
        0 <= i < 32 ==> (#[trigger] digest_byte(value, i)) is Some
}

/// The byte `i` of a named digest.
pub open spec fn digest_byte(value: Seq<char>, i: int) -> Option<u8> {
    hex_pair(value["sha256:"@.len() + 2 * i], value["sha256:"@.len() + 2 * i + 1])
}

/// The digest that a fingerprint names.
pub fn sha256_bytes(value: &Fingerprint) -> (result: Option<Vec<u8>>)
    ensures
        result is Some <==> names_digest(value@),
        result matches Some(digest) ==> digest@.len() == 32 && forall|i: int|
            0 <= i < 32 ==> Some(#[trigger] digest@[i]) == digest_byte(value@, i),
{
    proof {
        reveal_strlit("sha256:");
    }
    let chars = text::chars_of(value.as_str());
    if !text::has_prefix(chars.as_slice(), "sha256:") {
        return None;
    }
    if chars.len() != 71 {
        return None;
    }
    let mut digest: Vec<u8> = Vec::new();
    let mut i: usize = 0;
    while i < 32
        invariant
            "sha256:"@.len() == 7,
            chars@ == value@,
            chars@.len() == 71,
            i <= 32,
            digest@.len() == i,
            forall|j: int| 0 <= j < i ==> Some(#[trigger] digest@[j]) == digest_byte(value@, j),
        decreases 32 - i,
    {
        match pair_value(chars[7 + 2 * i], chars[8 + 2 * i]) {
            Some(byte) => {
                digest.push(byte);
            },
            None => {
                assert(digest_byte(value@, i as int) is None);
                return None;
            },
        }
        i = i + 1;
    }
    proof {
        assert forall|j: int| 0 <= j < 32 implies (#[trigger] digest_byte(value@, j)) is Some by {
            assert(Some(digest@[j]) == digest_byte(value@, j));
        }
    }
    Some(digest)
}

/// Whether a text names a file inside a directory and nothing else.
pub open spec fn plain_file_name(name: Seq<char>) -> bool {
    &&& name.len() > 0
    &&& !name.contains('/')
    &&& name != "."@
    &&& name != ".."@
}

/// Computes `plain_file_name`.
pub fn is_plain_file_name(name: &str) -> (result: bool)
    ensures
        result == plain_file_name(name@),
{
    let chars = text::chars_of(name);
    let len: usize = chars.len();
    let slash: usize = text::find_char(chars.as_slice(), '/');
    proof {
        text::lemma_first_position(name@, '/');
        if slash < len {
            assert(name@[slash as int] == '/');
        }
    }
    len > 0 && slash >= len && !text::same_text(name, ".") && !text::same_text(name, "..")
}

/// Whether a result is what a reply to a request for a page is answered: the
/// page, or the message that is none.
pub open spec fn takes_page(
    message: WorkerMessage,
    result: Result<ArtifactDiscoveryResponse, IndexOrchestratorError>,
) -> bool {
    match message {
        WorkerMessage::ArtifactDiscoveryResponse(page) => result == Ok::<
            ArtifactDiscoveryResponse,
            IndexOrchestratorError,
        >(page),
        received => result == Err::<ArtifactDiscoveryResponse, IndexOrchestratorError>(
            IndexOrchestratorError::InvalidResponse { received: Box::new(received) },
        ),
    }
}

/// Takes the page of a catalog out of a reply.
pub fn take_page(message: WorkerMessage) -> (result: Result<
    ArtifactDiscoveryResponse,
    IndexOrchestratorError,
>)
    ensures
        takes_page(message, result),
{
    match message {
        WorkerMessage::ArtifactDiscoveryResponse(page) => Ok(page),
        received => Err(IndexOrchestratorError::InvalidResponse { received: Box::new(received) }),
    }
}

/// Takes what a worker says of a staged artifact out of a reply.
pub fn take_materialized(message: WorkerMessage) -> (result: Result<
    ArtifactMaterializationResponse,
    IndexOrchestratorError,
>)
    ensures
        match message {
            WorkerMessage::ArtifactMaterializationResponse(staged) => result == Ok::<
                ArtifactMaterializationResponse,
                IndexOrchestratorError,
            >(*staged),
            received => result == Err::<ArtifactMaterializationResponse, IndexOrchestratorError>(
                IndexOrchestratorError::InvalidResponse { received: Box::new(received) },
            ),
        },
{
    match message {
        WorkerMessage::ArtifactMaterializationResponse(staged) => Ok(*staged),
        received => Err(IndexOrchestratorError::InvalidResponse { received: Box::new(received) }),
    }
}

/// Checks what a worker says of a staged artifact: its digest, and the name of
/// its file in the staging directory.
pub fn accept_staged(sha256: &Fingerprint, staged_filename: &str) -> (result: Result<
    Vec<u8>,
    IndexOrchestratorError,
>)
    ensures
        result is Ok <==> names_digest(sha256@) && plain_file_name(staged_filename@),
        result matches Ok(digest) ==> digest@.len() == 32 && forall|i: int|
            0 <= i < 32 ==> Some(#[trigger] digest@[i]) == digest_byte(sha256@, i),
        result matches Err(error) ==> error is InvalidStagedArtifact,
{
    match sha256_bytes(sha256) {
        Some(digest) => if is_plain_file_name(staged_filename) {
            Ok(digest)
        } else {
            Err(IndexOrchestratorError::InvalidStagedArtifact)
        },
        None => Err(IndexOrchestratorError::InvalidStagedArtifact),
    }
}

/// The time that each part of a materialization took outside the worker.
#[derive(Debug, Clone, Copy, PartialEq, Eq, Structural)]
pub struct CoreTimings {
    pub cache_check: u64,
    pub staged_verify: u64,
    pub staged_checksum: u64,
    pub cache_publish: u64,
    pub staging_cleanup: u64,
}

/// The phases of a materialization outside the worker, by name.
pub open spec fn core_phases(timings: CoreTimings) -> Map<Seq<char>, u64> {
    Map::<Seq<char>, u64>::empty().insert("core_cache_check"@, timings.cache_check).insert(
        "core_staged_verify"@,
        timings.staged_verify,
    ).insert("core_staged_checksum"@, timings.staged_checksum).insert(
        "core_cache_publish"@,
        timings.cache_publish,
    ).insert("core_staging_cleanup"@, timings.staging_cleanup)
}

/// The measurements of a materialization that the worker performed.
pub fn materialization_metrics(
    promoted: bool,
    timings: &[PhaseTiming],
    metrics: &[WorkerMetric],
    core: CoreTimings,
) -> (result: MaterializationMetrics)
    requires
        measures::sums_fit(Map::<Seq<char>, u64>::empty(), measures::of_timings(timings@)),
        measures::sums_fit(Map::<Seq<char>, u64>::empty(), measures::of_metrics(metrics@)),
    ensures
        result.worker_phases.wf(),
        result.worker_metrics.wf(),
        result.core_phases.wf(),
        result.promoted == promoted,
        measures::is_sum(result.worker_phases@, Map::<Seq<char>, u64>::empty(), measures::of_timings(timings@)),
        measures::is_sum(result.worker_metrics@, Map::<Seq<char>, u64>::empty(), measures::of_metrics(metrics@)),
        result.core_phases@ == core_phases(core),
{
    let mut worker_phases: OrderedMap<u64> = OrderedMap::new();
    let mut worker_metrics: OrderedMap<u64> = OrderedMap::new();
    add_measures(&mut worker_phases, timing_measures(timings).as_slice());
    add_measures(&mut worker_metrics, metric_measures(metrics).as_slice());
    let mut phases: OrderedMap<u64> = OrderedMap::new();
    phases.insert("core_cache_check".to_owned(), core.cache_check);
    phases.insert("core_staged_verify".to_owned(), core.staged_verify);
    phases.insert("core_staged_checksum".to_owned(), core.staged_checksum);
    phases.insert("core_cache_publish".to_owned(), core.cache_publish);
    phases.insert("core_staging_cleanup".to_owned(), core.staging_cleanup);
    MaterializationMetrics { promoted, worker_phases, worker_metrics, core_phases: phases }
}

/// The measurements of a materialization that found the artifact cached.
pub fn cached_metrics(cache_check: u64) -> (result: MaterializationMetrics)
    ensures
        result.worker_phases.wf(),
        result.worker_metrics.wf(),
        result.core_phases.wf(),
        !result.promoted,
        result.worker_phases@ == Map::<Seq<char>, u64>::empty(),
        result.worker_metrics@ == Map::<Seq<char>, u64>::empty(),
        result.core_phases@ == Map::<Seq<char>, u64>::empty().insert(
            "core_cache_check"@,
            cache_check,
        ),
{
    let mut phases: OrderedMap<u64> = OrderedMap::new();
    phases.insert("core_cache_check".to_owned(), cache_check);
    MaterializationMetrics {
        promoted: false,
        worker_phases: OrderedMap::new(),
        worker_metrics: OrderedMap::new(),
        core_phases: phases,
    }
}

/// What opening a cached blob means for its use.
#[derive(Debug, Clone, Copy, PartialEq, Eq, Structural)]
pub enum CacheProbe {
    /// The blob can be used.
    Hit,
    /// There is no blob.
    Miss,
    /// The blob is malformed: it is to be deleted, and there is none then.
    RemoveInvalid,
    /// The cache failed.
    Fail,
}

/// What opening a cached blob means: a malformed blob is never a hit.
pub open spec fn probe_of(opened: Result<bool, ArtifactBlobCacheError>) -> CacheProbe {
    match opened {
        Ok(true) => CacheProbe::Hit,
        Ok(false) => CacheProbe::Miss,
        Err(ArtifactBlobCacheError::InvalidHeader) => CacheProbe::RemoveInvalid,
        Err(ArtifactBlobCacheError::TruncatedPayload { .. }) => CacheProbe::RemoveInvalid,
        Err(_) => CacheProbe::Fail,
    }
}

/// Computes `probe_of`.
pub fn cache_hit_or_remove_invalid(opened: &Result<bool, ArtifactBlobCacheError>) -> (result:
    CacheProbe)
    ensures
        result == probe_of(*opened),
{
    match opened {
        Ok(present) => if *present {
            CacheProbe::Hit
        } else {
            CacheProbe::Miss
        },
        Err(ArtifactBlobCacheError::InvalidHeader) => CacheProbe::RemoveInvalid,
        Err(ArtifactBlobCacheError::TruncatedPayload { .. }) => CacheProbe::RemoveInvalid,
        Err(_) => CacheProbe::Fail,
    }
}

/// Decides whether an artifact is materialized on demand: not where its facts
/// are persisted, nor where it is not in the catalog, nor where the budget is
/// spent. Otherwise one unit of the budget is spent and there is no outcome yet.
pub fn plan_demand(materialized: bool, cataloged: bool, budget: &mut MaterializationBudget) -> (result:
    Option<MaterializationOutcome>)
    ensures
        result == (if materialized {
            Some(MaterializationOutcome::AlreadyMaterialized)
        } else if !cataloged {
            Some(MaterializationOutcome::NotCataloged)
        } else if old(budget).remaining_artifacts == 0 {
            Some(MaterializationOutcome::BudgetExhausted)
        } else {
            None
        }),
        final(budget).remaining_artifacts == (if result is None {
            old(budget).remaining_artifacts - 1
        } else {
            old(budget).remaining_artifacts as int
        }),
{
    if materialized {
        return Some(MaterializationOutcome::AlreadyMaterialized);
    }
    if !cataloged {
        return Some(MaterializationOutcome::NotCataloged);
    }
    if budget.remaining_artifacts == 0 {
        return Some(MaterializationOutcome::BudgetExhausted);
    }
    budget.remaining_artifacts = budget.remaining_artifacts - 1;
    None
}

/// Decides whether an artifact is promoted into the cache: not where it is not
/// in the catalog, nor where it is cached, nor where the budget is spent.
/// Otherwise one unit of the budget is spent and there is no outcome yet.
pub fn plan_cache(cataloged: bool, cached: bool, budget: &mut MaterializationBudget) -> (result:
    Option<MaterializationOutcome>)
    ensures
        result == (if !cataloged {
            Some(MaterializationOutcome::NotCataloged)
        } else if cached {
            Some(MaterializationOutcome::AlreadyMaterialized)
        } else if old(budget).remaining_artifacts == 0 {
            Some(MaterializationOutcome::BudgetExhausted)
        } else {
            None
        }),
        final(budget).remaining_artifacts == (if result is None {
            old(budget).remaining_artifacts - 1
        } else {
            old(budget).remaining_artifacts as int
        }),
{
    if !cataloged {
        return Some(MaterializationOutcome::NotCataloged);
    }
    if cached {
        return Some(MaterializationOutcome::AlreadyMaterialized);
    }
    if budget.remaining_artifacts == 0 {
        return Some(MaterializationOutcome::BudgetExhausted);
    }
    budget.remaining_artifacts = budget.remaining_artifacts - 1;
    None
}

/// The outcome of a promotion: another process may have published the blob.
pub fn promotion_outcome(promoted: bool) -> (result: MaterializationOutcome)
    ensures
        result == (if promoted {
            MaterializationOutcome::Materialized
        } else {
            MaterializationOutcome::AlreadyMaterialized
        }),
{
    if promoted {
        MaterializationOutcome::Materialized
    } else {
        MaterializationOutcome::AlreadyMaterialized
    }
}

proof fn lemma_reanalyzed(actions: Seq<IndexAction>, unit: SourceUnit)
    ensures
        reanalyzed(actions).contains(unit) <==> exists|i: int|
            0 <= i < actions.len() && #[trigger] actions[i] is Reanalyze
                && actions[i]->Reanalyze_source_unit == unit,
        reanalyzed(actions).len() > 0 <==> exists|i: int|
            0 <= i < actions.len() && #[trigger] actions[i] is Reanalyze,
    decreases actions.len(),
{
    if actions.len() > 0 {
        let rest = actions.drop_last();
        let n = rest.len() as int;
        let before = reanalyzed(rest);
        let now = reanalyzed(actions);
        lemma_reanalyzed(rest, unit);
        assert(actions[n] == actions.last());
        if exists|i: int| 0 <= i < n && #[trigger] rest[i] is Reanalyze {
            let i = choose|i: int| 0 <= i < n && #[trigger] rest[i] is Reanalyze;
            assert(actions[i] is Reanalyze);
        }
        if exists|i: int| 0 <= i < actions.len() && #[trigger] actions[i] is Reanalyze {
            let i = choose|i: int| 0 <= i < actions.len() && #[trigger] actions[i] is Reanalyze;
            if i < n {
                assert(rest[i] is Reanalyze);
            }
        }
        if before.contains(unit) {
            let i = choose|i: int|
                0 <= i < n && #[trigger] rest[i] is Reanalyze && rest[i]->Reanalyze_source_unit
                    == unit;
            assert(actions[i] is Reanalyze);
            assert(now[before.index_of(unit)] == unit);
        }
        if exists|i: int|
            0 <= i < actions.len() && #[trigger] actions[i] is Reanalyze
                && actions[i]->Reanalyze_source_unit == unit {
            let i = choose|i: int|
                0 <= i < actions.len() && #[trigger] actions[i] is Reanalyze
                    && actions[i]->Reanalyze_source_unit == unit;
            if i < n {
                assert(rest[i] is Reanalyze);
                assert(now[before.index_of(unit)] == unit);
            } else {
                assert(now[before.len() as int] == unit);
            }
        }
        if now.contains(unit) && !before.contains(unit) {
            let i = now.index_of(unit);
            if i < before.len() {
                assert(before[i] == unit);
            }
            assert(actions[n] is Reanalyze);
        }
    }
}

proof fn lemma_removed_units(actions: Seq<IndexAction>, unit: SourceUnitId)
    ensures
        removed_units(actions).contains(unit) <==> actions.contains(
            IndexAction::Remove { source_unit: unit },
        ),
        reused_count(actions) + reanalyzed(actions).len() + removed_units(actions).len()
            == actions.len(),
    decreases actions.len(),
{
    if actions.len() > 0 {
        let rest = actions.drop_last();
        let n = rest.len() as int;
        let before = removed_units(rest);
        let now = removed_units(actions);
        let action = IndexAction::Remove { source_unit: unit };
        lemma_removed_units(rest, unit);
        assert(actions[n] == actions.last());
        if rest.contains(action) {
            assert(actions[rest.index_of(action)] == action);
            assert(now[before.index_of(unit)] == unit);
        }
        if actions.contains(action) {
            let i = actions.index_of(action);
            if i < n {
                assert(rest[i] == action);
            } else {
                assert(now[before.len() as int] == unit);
            }
        }
        if now.contains(unit) && !before.contains(unit) {
            let i = now.index_of(unit);
            if i < before.len() {
                assert(before[i] == unit);
            }
        }
    }
}

/// A summary names exactly the source units that are analyzed again and the
/// ones that are removed, and counts every action once.
pub proof fn law_summary_covers_every_action(
    actions: &[IndexAction],
    summary: ActionSummary,
    unit: SourceUnit,
    gone: SourceUnitId,
)
    requires
        call_ensures(summarize_actions, (actions,), summary),
    ensures
        summary.reanalyze@.contains(unit) <==> exists|i: int|
            0 <= i < actions@.len() && #[trigger] actions@[i] is Reanalyze
                && actions@[i]->Reanalyze_source_unit == unit,
        summary.removed@.contains(gone) <==> actions@.contains(
            IndexAction::Remove { source_unit: gone },
        ),
        summary.reused + summary.reanalyze@.len() + summary.removed@.len() == actions@.len(),
{
    lemma_reanalyzed(actions@, unit);
    lemma_removed_units(actions@, gone);
}

proof fn lemma_steps(catalog: bool, analyze: bool, steps: Seq<RunStep>)
    requires
        steps == run_steps(catalog, analyze),
    ensures
        steps.no_duplicates(),
        steps.contains(RunStep::AnalyzeSources) <==> analyze,
        steps.contains(RunStep::StartCatalog) <==> catalog,
        steps.contains(RunStep::PublishCatalog) <==> catalog,
        steps[0] == RunStep::RemoveStale,
        steps.last() == RunStep::PublishManifest,
        forall|i: int, j: int|
            #![trigger steps[i], steps[j]]
            0 <= i < steps.len() && 0 <= j < steps.len() ==> {
                &&& steps[i] == RunStep::StartCatalog && steps[j] == RunStep::AnalyzeSources
                    ==> i < j
                &&& steps[i] == RunStep::AnalyzeSources && steps[j] == RunStep::PublishCatalog
                    ==> i < j
                &&& steps[i] == RunStep::StartCatalog && steps[j] == RunStep::PublishCatalog
                    ==> i < j
            },
{
    if catalog {
        assert(steps[1] == RunStep::StartCatalog);
        if analyze {
            assert(steps[2] == RunStep::AnalyzeSources);
            assert(steps[3] == RunStep::PublishCatalog);
        } else {
            assert(steps[2] == RunStep::PublishCatalog);
        }
    } else if analyze {
        assert(steps[1] == RunStep::AnalyzeSources);
    }
}

/// The steps of a run are those that its actions call for, each once: sources
/// are analyzed exactly where an action says so, whether or not the catalog is
/// discovered, and the catalog is discovered and published exactly where the
/// manifest is not the one of the last run. What is gone is removed first, the
/// catalog is started before the sources and published after them, and the
/// manifest is last.
pub proof fn law_steps_carry_out_the_plan(
    current: &[SourceUnit],
    persisted_sources: &[SourceUnit],
    persisted_inputs: &[AnalysisInput],
    current_provenance: &Option<Provenance>,
    previous_manifest: &Option<Fingerprint>,
    manifest_fingerprint: &Fingerprint,
    plan: BatchPlan,
)
    requires
        call_ensures(
            plan_index_batch,
            (
                current,
                persisted_sources,
                persisted_inputs,
                current_provenance,
                previous_manifest,
                manifest_fingerprint,
            ),
            plan,
        ),
    ensures
        plan.steps@.no_duplicates(),
        plan.steps@.contains(RunStep::AnalyzeSources) <==> exists|i: int|
            0 <= i < plan.actions@.len() && #[trigger] plan.actions@[i] is Reanalyze,
        plan.steps@.contains(RunStep::StartCatalog) <==> previous_manifest is None
            || previous_manifest->0@ != manifest_fingerprint@,
        plan.steps@.contains(RunStep::PublishCatalog) <==> previous_manifest is None
            || previous_manifest->0@ != manifest_fingerprint@,
        plan.catalog_needed <==> previous_manifest is None || previous_manifest->0@
            != manifest_fingerprint@,
        plan.steps@[0] == RunStep::RemoveStale,
        plan.steps@.last() == RunStep::PublishManifest,
        forall|i: int, j: int|
            #![trigger plan.steps@[i], plan.steps@[j]]
            0 <= i < plan.steps@.len() && 0 <= j < plan.steps@.len() ==> {
                &&& plan.steps@[i] == RunStep::StartCatalog && plan.steps@[j]
                    == RunStep::AnalyzeSources ==> i < j
                &&& plan.steps@[i] == RunStep::AnalyzeSources && plan.steps@[j]
                    == RunStep::PublishCatalog ==> i < j
                &&& plan.steps@[i] == RunStep::StartCatalog && plan.steps@[j]
                    == RunStep::PublishCatalog ==> i < j
            },
{
    lemma_steps(plan.catalog_needed, plan.summary.reanalyze@.len() > 0, plan.steps@);
    if plan.actions@.len() > 0 {
        lemma_reanalyzed(plan.actions@, arbitrary());
    }
}

/// A run by a known worker analyzes a current source unit exactly where it was
/// not indexed before or its content, its context, the worker or the worker's
/// options are others. Then analyzing is one of the steps; otherwise what is
/// stored of the unit is reused.
pub proof fn law_changed_sources_are_analyzed(
    current: &[SourceUnit],
    persisted_sources: &[SourceUnit],
    persisted_inputs: &[AnalysisInput],
    current_provenance: &Option<Provenance>,
    previous_manifest: &Option<Fingerprint>,
    manifest_fingerprint: &Fingerprint,
    plan: BatchPlan,
    k: int,
    p: int,
)
    requires
        call_ensures(
            plan_index_batch,
            (
                current,
                persisted_sources,
                persisted_inputs,
                current_provenance,
                previous_manifest,
                manifest_fingerprint,
            ),
            plan,
        ),
        current_provenance is Some,
        0 <= k < current@.len(),
        forall|j: int| k < j < current@.len() ==> (#[trigger] current@[j]).id@ != current@[k].id@,
        -1 <= p < persisted_inputs@.len(),
        p >= 0 ==> persisted_inputs@[p].source_unit.id@ == current@[k].id@,
        forall|j: int|
            p < j < persisted_inputs@.len() ==> (#[trigger] persisted_inputs@[j]).source_unit.id@
                != current@[k].id@,
    ensures
        ({
            let worker = current_provenance->0;
            let changed = p < 0 || persisted_inputs@[p].source_unit.content@ != current@[k].content@
                || persisted_inputs@[p].source_unit.context@ != current@[k].context@
                || persisted_inputs@[p].provenance.backend@ != worker.backend@
                || persisted_inputs@[p].provenance.backend_version@ != worker.backend_version@
                || persisted_inputs@[p].provenance.protocol_version != worker.protocol_version
                || persisted_inputs@[p].provenance.analysis_options@ != worker.analysis_options@;
            &&& plan.summary.reanalyze@.contains(current@[k]) <==> changed
            &&& plan.actions@.contains(IndexAction::Reuse(current@[k])) <==> !changed
            &&& changed ==> plan.steps@.contains(RunStep::AnalyzeSources)
        }),
{
    let worker = current_provenance->0;
    let inputs = inputs_of(current@, worker);
    let stored = persisted_inputs@;
    let actions = plan.actions@;
    let unit = current@[k];
    assert forall|j: int| k < j < inputs.len() implies (#[trigger] inputs[j]).source_unit.id@
        != inputs[k].source_unit.id@ by {
        assert(current@[j].id@ != current@[k].id@);
    }
    let i = freshness::lemma_input_action(inputs, stored, actions, k, p);
    freshness::lemma_gone_inputs(inputs, stored, actions, unit.id@);
    lemma_reanalyzed(actions, unit);
    lemma_steps(plan.catalog_needed, plan.summary.reanalyze@.len() > 0, plan.steps@);
    if plan.summary.reanalyze@.contains(unit) {
        let j = choose|j: int|
            0 <= j < actions.len() && #[trigger] actions[j] is Reanalyze
                && actions[j]->Reanalyze_source_unit == unit;
        assert(freshness::acted_on(actions[i]) == freshness::acted_on(actions[j]));
        assert(i == j);
    }
    if actions.contains(IndexAction::Reuse(unit)) {
        let j = actions.index_of(IndexAction::Reuse(unit));
        assert(freshness::acted_on(actions[i]) == freshness::acted_on(actions[j]));
        assert(i == j);
    }
    if actions[i] is Reanalyze {
        assert(plan.summary.reanalyze@.contains(unit));
    }
}

/// A run without a known worker analyzes a current source unit exactly where
/// the workspace did not hold it when it was last indexed, or held it with
/// another content or context. What is stored of dependencies does not count.
pub proof fn law_changed_workspace_sources_are_analyzed(
    current: &[SourceUnit],
    persisted_sources: &[SourceUnit],
    persisted_inputs: &[AnalysisInput],
    previous_manifest: &Option<Fingerprint>,
    manifest_fingerprint: &Fingerprint,
    plan: BatchPlan,
    k: int,
    p: int,
)
    requires
        call_ensures(
            plan_index_batch,
            (
                current,
                persisted_sources,
                persisted_inputs,
                &None::<Provenance>,
                previous_manifest,
                manifest_fingerprint,
            ),
            plan,
        ),
        0 <= k < current@.len(),
        forall|j: int| k < j < current@.len() ==> (#[trigger] current@[j]).id@ != current@[k].id@,
        -1 <= p < persisted_sources@.len(),
        p >= 0 ==> persisted_sources@[p].id@ == current@[k].id@ && persisted_sources@[p].origin
            != SourceOrigin::Dependency,
        forall|j: int|
            p < j < persisted_sources@.len() && (#[trigger] persisted_sources@[j]).origin
                != SourceOrigin::Dependency ==> persisted_sources@[j].id@ != current@[k].id@,
    ensures
        ({
            let changed = p < 0 || persisted_sources@[p].content@ != current@[k].content@
                || persisted_sources@[p].context@ != current@[k].context@;
            &&& plan.summary.reanalyze@.contains(current@[k]) <==> changed
            &&& plan.actions@.contains(IndexAction::Reuse(current@[k])) <==> !changed
            &&& changed ==> plan.steps@.contains(RunStep::AnalyzeSources)
        }),
{
    lemma_workspace_source_action(current@, persisted_sources@, plan.actions@, k, p);
    lemma_reanalyzed(plan.actions@, current@[k]);
    lemma_steps(plan.catalog_needed, plan.summary.reanalyze@.len() > 0, plan.steps@);
}

proof fn lemma_workspace_source_action(
    current: Seq<SourceUnit>,
    persisted: Seq<SourceUnit>,
    actions: Seq<IndexAction>,
    k: int,
    p: int,
)
    requires
        freshness::is_source_plan(actions, current, workspace_units(persisted)),
        0 <= k < current.len(),
        forall|j: int| k < j < current.len() ==> (#[trigger] current[j]).id@ != current[k].id@,
        -1 <= p < persisted.len(),
        p >= 0 ==> persisted[p].id@ == current[k].id@ && persisted[p].origin
            != SourceOrigin::Dependency,
        forall|j: int|
            p < j < persisted.len() && (#[trigger] persisted[j]).origin
                != SourceOrigin::Dependency ==> persisted[j].id@ != current[k].id@,
    ensures
        ({
            let changed = p < 0 || persisted[p].content@ != current[k].content@
                || persisted[p].context@ != current[k].context@;
            &&& (exists|i: int|
                0 <= i < actions.len() && #[trigger] actions[i] is Reanalyze
                    && actions[i]->Reanalyze_source_unit == current[k]) <==> changed
            &&& actions.contains(IndexAction::Reuse(current[k])) <==> !changed
        }),
{
    let unit = current[k];
    let f = |unit: SourceUnit| unit.origin != SourceOrigin::Dependency;
    let stored = workspace_units(persisted);
    let positions = ordering::lemma_filter_positions(persisted, f);
    assert(stored == persisted.filter(f));
    let q = if p >= 0 {
        assert(f(persisted[p]));
        positions.index_of(p)
    } else {
        -1
    };
    if p >= 0 {
        assert(positions[q] == p && stored[q] == persisted[p]);
    }
    assert forall|j: int| q < j < stored.len() implies (#[trigger] stored[j]).id@ != unit.id@ by {
        assert(stored[j] == persisted[positions[j]]);
        assert(f(persisted[positions[j]]));
        if q >= 0 {
            assert(positions[q] < positions[j]);
        }
    }
    let i = freshness::lemma_source_action(current, stored, actions, k, q);
    freshness::lemma_gone_sources(current, stored, actions, unit.id@);
    if exists|j: int|
        0 <= j < actions.len() && #[trigger] actions[j] is Reanalyze
            && actions[j]->Reanalyze_source_unit == unit {
        let j = choose|j: int|
            0 <= j < actions.len() && #[trigger] actions[j] is Reanalyze
                && actions[j]->Reanalyze_source_unit == unit;
        assert(freshness::acted_on(actions[i]) == freshness::acted_on(actions[j]));
        assert(i == j);
    }
    if actions.contains(IndexAction::Reuse(unit)) {
        let j = actions.index_of(IndexAction::Reuse(unit));
        assert(freshness::acted_on(actions[i]) == freshness::acted_on(actions[j]));
        assert(i == j);
    }
}

/// A run over several batches is refused where its execution plan is of another
/// manifest or a batch has no worker. Else its steps analyze sources exactly
/// where a batch has something to analyze, and discover and publish the catalog
/// exactly where the manifest is another or a source is analyzed again, each
/// step once and in the order of a run.
pub proof fn law_selected_steps_carry_out_the_plan(
    current: &[SourceUnit],
    persisted_sources: &[SourceUnit],
    batches: &[WorkerBatch],
    unsupported: usize,
    previous_manifest: &Option<Fingerprint>,
    manifest_fingerprint: &Fingerprint,
    execution_plan: &OpaqueExecutionPlan,
    result: Result<SelectionPlan, IndexOrchestratorError>,
)
    requires
        call_ensures(
            plan_selected_batches,
            (
                current,
                persisted_sources,
                batches,
                unsupported,
                previous_manifest,
                manifest_fingerprint,
                execution_plan,
            ),
            result,
        ),
    ensures
        result is Ok <==> execution_plan.resolved_fingerprint@ == manifest_fingerprint@
            && unsupported == 0,
        result is Ok ==> {
            let plan = result->Ok_0;
            let steps = plan.steps@;
            let catalog = previous_manifest is None || previous_manifest->0@
                != manifest_fingerprint@ || exists|i: int|
                0 <= i < plan.actions@.len() && #[trigger] plan.actions@[i] is Reanalyze;
            &&& steps.no_duplicates()
            &&& steps.contains(RunStep::AnalyzeSources) <==> plan.batches@.len() > 0
            &&& steps.contains(RunStep::StartCatalog) <==> catalog
            &&& steps.contains(RunStep::PublishCatalog) <==> catalog
            &&& steps[0] == RunStep::RemoveStale
            &&& steps.last() == RunStep::PublishManifest
            &&& forall|i: int, j: int|
                #![trigger steps[i], steps[j]]
                0 <= i < steps.len() && 0 <= j < steps.len() ==> {
                    &&& steps[i] == RunStep::StartCatalog && steps[j] == RunStep::AnalyzeSources
                        ==> i < j
                    &&& steps[i] == RunStep::AnalyzeSources && steps[j] == RunStep::PublishCatalog
                        ==> i < j
                    &&& steps[i] == RunStep::StartCatalog && steps[j] == RunStep::PublishCatalog
                        ==> i < j
                }
        },
{
    if result is Ok {
        let plan = result->Ok_0;
        lemma_steps(plan.catalog_needed, plan.batches@.len() > 0, plan.steps@);
        lemma_reanalyzed(plan.actions@, arbitrary());
    }
}

/// Over several batches too a current source unit is analyzed again exactly
/// where the workspace did not hold it or held it with another content or
/// context.
pub proof fn law_selected_sources_are_the_changed_ones(
    current: &[SourceUnit],
    persisted_sources: &[SourceUnit],
    batches: &[WorkerBatch],
    unsupported: usize,
    previous_manifest: &Option<Fingerprint>,
    manifest_fingerprint: &Fingerprint,
    execution_plan: &OpaqueExecutionPlan,
    plan: SelectionPlan,
    k: int,
    p: int,
)
    requires
        call_ensures(
            plan_selected_batches,
            (
                current,
                persisted_sources,
                batches,
                unsupported,
                previous_manifest,
                manifest_fingerprint,
                execution_plan,
            ),
            Ok::<SelectionPlan, IndexOrchestratorError>(plan),
        ),
        0 <= k < current@.len(),
        forall|j: int| k < j < current@.len() ==> (#[trigger] current@[j]).id@ != current@[k].id@,
        -1 <= p < persisted_sources@.len(),
        p >= 0 ==> persisted_sources@[p].id@ == current@[k].id@ && persisted_sources@[p].origin
            != SourceOrigin::Dependency,
        forall|j: int|
            p < j < persisted_sources@.len() && (#[trigger] persisted_sources@[j]).origin
                != SourceOrigin::Dependency ==> persisted_sources@[j].id@ != current@[k].id@,
    ensures
        plan.summary.reanalyze@.contains(current@[k]) <==> p < 0 || persisted_sources@[p].content@
            != current@[k].content@ || persisted_sources@[p].context@ != current@[k].context@,
        plan.actions@.contains(IndexAction::Reuse(current@[k])) <==> p >= 0
            && persisted_sources@[p].content@ == current@[k].content@
            && persisted_sources@[p].context@ == current@[k].context@,
{
    lemma_workspace_source_action(current@, persisted_sources@, plan.actions@, k, p);
    lemma_reanalyzed(plan.actions@, current@[k]);
}

proof fn lemma_active(batches: Seq<WorkerBatch>, ids: Set<Seq<char>>, n: int, b: int)
    requires
        0 <= n <= batches.len(),
    ensures
        active_batches(batches, ids, n).contains(b) <==> 0 <= b < n && requested_of(
            batches[b].source_units@,
            ids,
        ).len() > 0,
    decreases n,
{
    if n > 0 {
        lemma_active(batches, ids, n - 1, b);
        let before = active_batches(batches, ids, n - 1);
        let now = active_batches(batches, ids, n);
        if before.contains(b) {
            assert(now[before.index_of(b)] == b);
        }
        if requested_of(batches[n - 1].source_units@, ids).len() > 0 {
            assert(now[before.len() as int] == n - 1);
        }
        if now.contains(b) && !before.contains(b) {
            let i = now.index_of(b);
            if i < before.len() {
                assert(before[i] == b);
            }
        }
    }
}

/// A batch requests exactly those of its units that are analyzed again, and a
/// batch without any is not run.
pub proof fn law_batches_request_what_is_analyzed_again(
    current: &[SourceUnit],
    persisted_sources: &[SourceUnit],
    batches: &[WorkerBatch],
    unsupported: usize,
    previous_manifest: &Option<Fingerprint>,
    manifest_fingerprint: &Fingerprint,
    execution_plan: &OpaqueExecutionPlan,
    plan: SelectionPlan,
    b: int,
    u: int,
)
    requires
        call_ensures(
            plan_selected_batches,
            (
                current,
                persisted_sources,
                batches,
                unsupported,
                previous_manifest,
                manifest_fingerprint,
                execution_plan,
            ),
            Ok::<SelectionPlan, IndexOrchestratorError>(plan),
        ),
        0 <= b < batches@.len(),
        0 <= u < batches@[b].source_units@.len(),
    ensures
        (exists|i: int|
            0 <= i < plan.batches@.len() && (#[trigger] plan.batches@[i]).batch == b
                && plan.batches@[i].requested@.contains(batches@[b].source_units@[u]))
            <==> exists|k: int|
            0 <= k < plan.summary.reanalyze@.len() && (#[trigger] plan.summary.reanalyze@[k]).id@
                == batches@[b].source_units@[u].id@,
        forall|i: int|
            0 <= i < plan.batches@.len() ==> (#[trigger] plan.batches@[i]).requested@.len() > 0
                && plan.batches@[i].worker < plan.workers@.len(),
{
    let again = plan.summary.reanalyze@;
    let ids = ordered_map::keys_of(again);
    let unit = batches@[b].source_units@[u];
    let n = batches@.len() as int;
    let active = active_batches(batches@, ids, n);
    let f = |unit: SourceUnit| ids.contains(unit.id@);
    let positions = ordering::lemma_filter_positions(batches@[b].source_units@, f);
    let own = requested_of(batches@[b].source_units@, ids);
    assert(own == batches@[b].source_units@.filter(f));
    lemma_active(batches@, ids, n, b);
    ordered_map::lemma_keys_of(again, unit.id@);
    if exists|k: int| 0 <= k < again.len() && (#[trigger] again[k]).id@ == unit.id@ {
        let k = choose|k: int| 0 <= k < again.len() && (#[trigger] again[k]).id@ == unit.id@;
        assert(again[k].key() == unit.id@);
        assert(f(unit));
        assert(own.contains(unit));
        let i = active.index_of(b);
        assert(plan.batches@[i].batch == active[i]);
    }
    if exists|i: int|
        0 <= i < plan.batches@.len() && (#[trigger] plan.batches@[i]).batch == b
            && plan.batches@[i].requested@.contains(unit) {
        let i = choose|i: int|
            0 <= i < plan.batches@.len() && (#[trigger] plan.batches@[i]).batch == b
                && plan.batches@[i].requested@.contains(unit);
        assert(plan.batches@[i].requested@ == own);
        let q = own.index_of(unit);
        assert(f(own[q]));
        let k = choose|k: int| 0 <= k < again.len() && (#[trigger] again[k]).key() == unit.id@;
        assert(again[k].id@ == unit.id@);
    }
    assert forall|i: int| 0 <= i < plan.batches@.len() implies (
    #[trigger] plan.batches@[i]).requested@.len() > 0 && plan.batches@[i].worker
        < plan.workers@.len() by {
        assert(plan.batches@[i].batch == active[i]);
        assert(active.contains(active[i]));
        lemma_active(batches@, ids, n, active[i]);
    }
}

proof fn lemma_unit_key(units: Seq<SourceUnit>, id: Seq<char>)
    ensures
        ordered_map::keys_of(units).contains(id) <==> exists|i: int|
            0 <= i < units.len() && (#[trigger] units[i]).id@ == id,
{
    ordered_map::lemma_keys_of(units, id);
    if ordered_map::keys_of(units).contains(id) {
        let i = choose|i: int| 0 <= i < units.len() && (#[trigger] units[i]).key() == id;
        assert(units[i].id@ == id);
    }
    if exists|i: int| 0 <= i < units.len() && (#[trigger] units[i]).id@ == id {
        let i = choose|i: int| 0 <= i < units.len() && (#[trigger] units[i]).id@ == id;
        assert(units[i].key() == id);
    }
}

proof fn lemma_snapshot_key(snapshots: Seq<FileAnalysisSnapshot>, id: Seq<char>)
    ensures
        ordered_map::keys_of(snapshots).contains(id) <==> exists|i: int|
            0 <= i < snapshots.len() && (#[trigger] snapshots[i]).source_unit.id@ == id,
{
    ordered_map::lemma_keys_of(snapshots, id);
    if ordered_map::keys_of(snapshots).contains(id) {
        let i = choose|i: int| 0 <= i < snapshots.len() && (#[trigger] snapshots[i]).key() == id;
        assert(snapshots[i].source_unit.id@ == id);
    }
    if exists|i: int| 0 <= i < snapshots.len() && (#[trigger] snapshots[i]).source_unit.id@ == id {
        let i = choose|i: int|
            0 <= i < snapshots.len() && (#[trigger] snapshots[i]).source_unit.id@ == id;
        assert(snapshots[i].key() == id);
    }
}

/// In an accepted batch a source unit has a snapshot exactly where it was
/// requested.
pub proof fn law_accepted_batch_holds_what_was_requested(
    requested: &[SourceUnit],
    snapshots: &[FileAnalysisSnapshot],
    result: Result<(), IndexOrchestratorError>,
    id: Seq<char>,
)
    requires
        call_ensures(validate_batch, (requested, snapshots), result),
        result is Ok,
    ensures
        (exists|i: int| 0 <= i < requested@.len() && (#[trigger] requested@[i]).id@ == id)
            <==> exists|j: int|
            0 <= j < snapshots@.len() && (#[trigger] snapshots@[j]).source_unit.id@ == id,
{
    law_accepted_batch_matches_request(requested@, snapshots@);
    lemma_unit_key(requested@, id);
    lemma_snapshot_key(snapshots@, id);
}

/// A batch is refused for a snapshot that was not requested, or for a requested
/// source unit that has none, and the error names it.
pub proof fn law_refused_batch_says_why(
    requested: &[SourceUnit],
    snapshots: &[FileAnalysisSnapshot],
    result: Result<(), IndexOrchestratorError>,
)
    requires
        call_ensures(validate_batch, (requested, snapshots), result),
        result is Err,
    ensures
        result->Err_0 is UnexpectedSnapshot || result->Err_0 is MissingSnapshot,
        result->Err_0 is UnexpectedSnapshot ==> {
            let id = result->Err_0->UnexpectedSnapshot_source_unit@;
            &&& exists|j: int|
                0 <= j < snapshots@.len() && (#[trigger] snapshots@[j]).source_unit.id@ == id
            &&& forall|i: int| 0 <= i < requested@.len() ==> (#[trigger] requested@[i]).id@ != id
        },
        result->Err_0 is MissingSnapshot ==> {
            let id = result->Err_0->MissingSnapshot_source_unit@;
            &&& exists|i: int| 0 <= i < requested@.len() && (#[trigger] requested@[i]).id@ == id
            &&& forall|j: int|
                0 <= j < snapshots@.len() ==> (#[trigger] snapshots@[j]).source_unit.id@ != id
        },
{
    let expected = ordered_map::keys_of(requested@);
    let received = ordered_map::keys_of(snapshots@);
    ordered_map::lemma_keys_of(requested@, Seq::empty());
    ordered_map::lemma_keys_of(snapshots@, Seq::empty());
    let extra = ordering::sorted_texts(received.difference(expected));
    let missing = ordering::sorted_texts(expected.difference(received));
    ordering::lemma_sorted_texts(received.difference(expected));
    ordering::lemma_sorted_texts(expected.difference(received));
    if extra.len() > 0 {
        assert(extra.to_set().contains(extra[0]));
        lemma_unit_key(requested@, extra[0]);
        lemma_snapshot_key(snapshots@, extra[0]);
    } else if missing.len() > 0 {
        assert(missing.to_set().contains(missing[0]));
        lemma_unit_key(requested@, missing[0]);
        lemma_snapshot_key(snapshots@, missing[0]);
    }
}

proof fn lemma_snapshot_position(snapshots: Seq<FileAnalysisSnapshot>, id: Seq<char>)
    ensures
        0 <= snapshot_position(snapshots, id) <= snapshots.len(),
        snapshot_position(snapshots, id) < snapshots.len() ==> snapshots[snapshot_position(
            snapshots,
            id,
        )].source_unit.id@ == id,
    decreases snapshots.len(),
{
    if snapshots.len() > 0 && snapshots[0].source_unit.id@ != id {
        lemma_snapshot_position(snapshots.drop_first(), id);
    }
}

proof fn lemma_known_api(apis: Seq<PublicApi>, id: Seq<char>)
    ensures
        (forall|i: int| 0 <= i < apis.len() ==> (#[trigger] apis[i]).source_unit@ != id)
            ==> known_api(apis, id) is None,
        forall|i: int|
            0 <= i < apis.len() && (#[trigger] apis[i]).source_unit@ == id && (forall|j: int|
                0 <= j < i ==> (#[trigger] apis[j]).source_unit@ != id) ==> known_api(apis, id)
                == apis[i].fingerprint,
    decreases apis.len(),
{
    if apis.len() > 0 && apis[0].source_unit@ != id {
        let rest = apis.drop_first();
        lemma_known_api(rest, id);
        if forall|i: int| 0 <= i < apis.len() ==> (#[trigger] apis[i]).source_unit@ != id {
            assert forall|i: int| 0 <= i < rest.len() implies (#[trigger] rest[i]).source_unit@
                != id by {
                assert(rest[i] == apis[i + 1]);
            }
        }
        assert forall|i: int|
            0 <= i < apis.len() && (#[trigger] apis[i]).source_unit@ == id && (forall|j: int|
                0 <= j < i ==> (#[trigger] apis[j]).source_unit@ != id) implies known_api(apis, id)
            == apis[i].fingerprint by {
            assert(rest[i - 1] == apis[i]);
            assert forall|j: int| 0 <= j < i - 1 implies (#[trigger] rest[j]).source_unit@ != id by {
                assert(rest[j] == apis[j + 1]);
            }
        }
    }
}

proof fn lemma_changed_dependents(
    requested: Seq<SourceUnit>,
    snapshots: Seq<FileAnalysisSnapshot>,
    known: Seq<PublicApi>,
    dependents: Seq<Vec<SourceUnitId>>,
    n: int,
    unit: SourceUnitId,
)
    requires
        0 <= n,
    ensures
        changed_dependents(requested, snapshots, known, dependents, n).contains(unit)
            <==> exists|i: int|
            0 <= i < n && (#[trigger] dependents[i])@.contains(unit) && !same_fingerprint(
                known_api(known, requested[i].id@),
                snapshots[snapshot_position(
                    snapshots,
                    requested[i].id@,
                )].public_api_fingerprint,
            ),
    decreases n,
{
    if n > 0 {
        lemma_changed_dependents(requested, snapshots, known, dependents, n - 1, unit);
        let before = changed_dependents(requested, snapshots, known, dependents, n - 1);
        let own = api_dependents(
            known_api(known, requested[n - 1].id@),
            snapshots[snapshot_position(
                snapshots,
                requested[n - 1].id@,
            )].public_api_fingerprint,
            dependents[n - 1]@,
        );
        let now = changed_dependents(requested, snapshots, known, dependents, n);
        assert(now == before + own);
        if before.contains(unit) {
            assert(now[before.index_of(unit)] == unit);
        }
        if own.contains(unit) {
            assert(now[before.len() + own.index_of(unit)] == unit);
        }
        if now.contains(unit) {
            let i = now.index_of(unit);
            if i < before.len() {
                assert(before[i] == unit);
            } else {
                assert(own[i - before.len()] == unit);
                assert(dependents[n - 1]@.contains(unit));
            }
        }
    }
}

/// What is committed of a batch: for each requested unit a snapshot of that
/// unit. A unit is removed exactly where it depends on a requested unit whose
/// public interface is not what was known of it, and was not analyzed in the
/// same batch.
pub proof fn law_commit_removes_dependents_of_changed_interfaces(
    requested: &[SourceUnit],
    snapshots: &[FileAnalysisSnapshot],
    known: &[PublicApi],
    dependents: &[Vec<SourceUnitId>],
    plan: CommitPlan,
    i: int,
    unit: SourceUnitId,
)
    requires
        call_ensures(plan_commit, (requested, snapshots, known, dependents), plan),
        dependents@.len() == requested@.len(),
        0 <= i < requested@.len(),
    ensures
        plan.entries@.len() == requested@.len(),
        plan.entries@[i] < snapshots@.len(),
        snapshots@[plan.entries@[i] as int].source_unit.id@ == requested@[i].id@,
        ({
            let now = snapshots@[plan.entries@[i] as int].public_api_fingerprint;
            &&& plan.removed@.contains(unit) ==> (forall|j: int|
                0 <= j < requested@.len() ==> (#[trigger] requested@[j]).id@ != unit@) && exists|
                j: int,
            |
                0 <= j < dependents@.len() && (#[trigger] dependents@[j])@.contains(unit)
            &&& dependents@[i]@.contains(unit) && (forall|j: int|
                0 <= j < requested@.len() ==> (#[trigger] requested@[j]).id@ != unit@) && (forall|
                a: int,
            |
                0 <= a < known@.len() ==> (#[trigger] known@[a]).source_unit@ != requested@[i].id@)
                && now is Some ==> plan.removed@.contains(unit)
            &&& forall|a: int|
                0 <= a < known@.len() && (#[trigger] known@[a]).source_unit@ == requested@[i].id@
                    && (forall|b: int|
                    0 <= b < a ==> (#[trigger] known@[b]).source_unit@ != requested@[i].id@)
                    && dependents@[i]@.contains(unit) && (forall|j: int|
                    0 <= j < requested@.len() ==> (#[trigger] requested@[j]).id@ != unit@)
                    && !(known@[a].fingerprint is None && now is None)
                    && !(known@[a].fingerprint is Some && now is Some
                    && known@[a].fingerprint->0@ == now->0@) ==> plan.removed@.contains(unit)
        }),
{
    let n = requested@.len() as int;
    let changed = changed_dependents(requested@, snapshots@, known@, dependents@, n);
    let f = |id: SourceUnitId| !ordered_map::keys_of(requested@).contains(id@);
    let positions = ordering::lemma_filter_positions(changed, f);
    assert(plan.removed@ == changed.filter(f));
    lemma_changed_dependents(requested@, snapshots@, known@, dependents@, n, unit);
    lemma_unit_key(requested@, unit@);
    lemma_snapshot_position(snapshots@, requested@[i].id@);
    lemma_known_api(known@, requested@[i].id@);
    if plan.removed@.contains(unit) {
        let q = plan.removed@.index_of(unit);
        assert(f(plan.removed@[q]));
        assert(changed.contains(unit));
    }
    if changed.contains(unit) {
        assert(changed[changed.index_of(unit)] == unit);
    }
}

/// The removed dependents of a batch all depend on an interface that changed:
/// where every interface is what was known of it, none is removed.
pub proof fn law_unchanged_interfaces_remove_nothing(
    requested: &[SourceUnit],
    snapshots: &[FileAnalysisSnapshot],
    known: &[PublicApi],
    dependents: &[Vec<SourceUnitId>],
    plan: CommitPlan,
)
    requires
        call_ensures(plan_commit, (requested, snapshots, known, dependents), plan),
        dependents@.len() == requested@.len(),
        forall|i: int|
            0 <= i < requested@.len() ==> exists|a: int|
                0 <= a < known@.len() && (#[trigger] known@[a]).source_unit@ == (
                #[trigger] requested@[i]).id@,
        forall|i: int, a: int|
            #![trigger requested@[i], known@[a]]
            0 <= i < requested@.len() && 0 <= a < known@.len() && known@[a].source_unit@
                == requested@[i].id@ ==> {
                let now = snapshots@[plan.entries@[i] as int].public_api_fingerprint;
                ||| known@[a].fingerprint is None && now is None
                ||| known@[a].fingerprint is Some && now is Some && known@[a].fingerprint->0@
                    == now->0@
            },
    ensures
        plan.removed@.len() == 0,
{
    let n = requested@.len() as int;
    let changed = changed_dependents(requested@, snapshots@, known@, dependents@, n);
    let f = |id: SourceUnitId| !ordered_map::keys_of(requested@).contains(id@);
    let positions = ordering::lemma_filter_positions(changed, f);
    assert(plan.removed@ == changed.filter(f));
    if plan.removed@.len() > 0 {
        let unit = plan.removed@[0];
        assert(changed.contains(unit));
        lemma_changed_dependents(requested@, snapshots@, known@, dependents@, n, unit);
        let i = choose|i: int|
            0 <= i < n && (#[trigger] dependents@[i])@.contains(unit) && !same_fingerprint(
                known_api(known@, requested@[i].id@),
                snapshots@[snapshot_position(
                    snapshots@,
                    requested@[i].id@,
                )].public_api_fingerprint,
            );
        assert(plan.entries@[i] == snapshot_position(snapshots@, requested@[i].id@));
        let a = lemma_first_api(known@, requested@[i].id@);
        lemma_known_api(known@, requested@[i].id@);
    }
}

proof fn lemma_first_api(apis: Seq<PublicApi>, id: Seq<char>) -> (a: int)
    requires
        exists|a: int| 0 <= a < apis.len() && (#[trigger] apis[a]).source_unit@ == id,
    ensures
        0 <= a < apis.len(),
        apis[a].source_unit@ == id,
        forall|b: int| 0 <= b < a ==> (#[trigger] apis[b]).source_unit@ != id,
    decreases apis.len(),
{
    if apis[0].source_unit@ == id {
        0
    } else {
        let rest = apis.drop_first();
        let k = choose|a: int| 0 <= a < apis.len() && (#[trigger] apis[a]).source_unit@ == id;
        assert(rest[k - 1] == apis[k]);
        let a = lemma_first_api(rest, id);
        assert forall|b: int| 0 <= b < a + 1 implies (#[trigger] apis[b]).source_unit@ != id by {
            if b > 0 {
                assert(rest[b - 1] == apis[b]);
            }
        }
        a + 1
    }
}

/// Dependents are invalidated, all of them, exactly where the public interface
/// is another: where one is known and the other is not, or both are known and
/// differ.
pub proof fn law_changed_interface_invalidates_dependents(
    previous: &Option<Fingerprint>,
    current: &Option<Fingerprint>,
    dependents: &[SourceUnitId],
    result: Vec<SourceUnitId>,
)
    requires
        call_ensures(api_dependent_invalidations, (previous, current, dependents), result),
    ensures
        previous is Some && current is Some && previous->0@ == current->0@ ==> result@.len() == 0,
        previous is None && current is None ==> result@.len() == 0,
        previous is Some && current is Some && previous->0@ != current->0@ ==> result@
            == dependents@,
        previous is Some != current is Some ==> result@ == dependents@,
{
}

/// A worker may analyze a batch exactly where it speaks the language of the
/// batch and offers file snapshots.
pub proof fn law_batch_worker_offers_what_is_needed(
    capabilities: &WorkerCapabilities,
    batch: &WorkerBatch,
    result: Result<(), IndexOrchestratorError>,
)
    requires
        call_ensures(check_batch_worker, (capabilities, batch), result),
    ensures
        result is Ok <==> capabilities.capabilities@.contains(
            WorkerCapability::FileAnalysisSnapshot,
        ) && exists|i: int|
            0 <= i < capabilities.languages@.len() && (#[trigger] capabilities.languages@[i])@
                == batch.language@,
{
}

/// An execution plan is accepted exactly where it is of the manifest.
pub proof fn law_execution_plan_is_of_the_manifest(
    manifest_fingerprint: &Fingerprint,
    execution_plan: &OpaqueExecutionPlan,
    result: Result<(), IndexOrchestratorError>,
)
    requires
        call_ensures(validate_execution_plan, (manifest_fingerprint, execution_plan), result),
    ensures
        result is Ok <==> execution_plan.resolved_fingerprint@ == manifest_fingerprint@,
{
}

/// A cached blob is used exactly where it is there and opens, a malformed one is
/// removed, and where the cache itself fails nothing is removed.
pub proof fn law_malformed_blob_is_removed(
    opened: &Result<bool, ArtifactBlobCacheError>,
    probe: CacheProbe,
)
    requires
        call_ensures(cache_hit_or_remove_invalid, (opened,), probe),
    ensures
        probe == CacheProbe::Hit <==> opened is Ok && opened->Ok_0,
        probe == CacheProbe::Miss <==> opened is Ok && !opened->Ok_0,
        probe == CacheProbe::RemoveInvalid <==> opened is Err && (opened->Err_0 is InvalidHeader
            || opened->Err_0 is TruncatedPayload),
{
}

/// An artifact is promoted into the cache exactly where it is cataloged, is not
/// cached and the budget is not spent, and this takes one from the budget.
/// Otherwise the budget stays.
pub proof fn law_budget_is_spent_on_promotions(
    cataloged: bool,
    cached: bool,
    budget: &mut MaterializationBudget,
    result: Option<MaterializationOutcome>,
)
    requires
        call_ensures(plan_cache, (cataloged, cached, budget), result),
    ensures
        result is None <==> cataloged && !cached && old(budget).remaining_artifacts > 0,
        result is None ==> final(budget).remaining_artifacts + 1 == old(
            budget,
        ).remaining_artifacts,
        result is Some ==> final(budget).remaining_artifacts == old(budget).remaining_artifacts,
        cataloged && cached ==> result == Some(MaterializationOutcome::AlreadyMaterialized),
        !cataloged ==> result == Some(MaterializationOutcome::NotCataloged),
        cataloged && !cached && old(budget).remaining_artifacts == 0 ==> result == Some(
            MaterializationOutcome::BudgetExhausted,
        ),
{
}

/// An artifact is materialized on demand exactly where its facts are not stored,
/// it is cataloged and the budget is not spent, and this takes one from the
/// budget. Otherwise the budget stays.
pub proof fn law_budget_is_spent_on_demand(
    materialized: bool,
    cataloged: bool,
    budget: &mut MaterializationBudget,
    result: Option<MaterializationOutcome>,
)
    requires
        call_ensures(plan_demand, (materialized, cataloged, budget), result),
    ensures
        result is None <==> cataloged && !materialized && old(budget).remaining_artifacts > 0,
        result is None ==> final(budget).remaining_artifacts + 1 == old(
            budget,
        ).remaining_artifacts,
        result is Some ==> final(budget).remaining_artifacts == old(budget).remaining_artifacts,
        materialized ==> result == Some(MaterializationOutcome::AlreadyMaterialized),
        !materialized && !cataloged ==> result == Some(MaterializationOutcome::NotCataloged),
        !materialized && cataloged && old(budget).remaining_artifacts == 0 ==> result == Some(
            MaterializationOutcome::BudgetExhausted,
        ),
{
}

/// A staged artifact is accepted only under a name that stays in the staging
/// directory.
pub proof fn law_staged_name_stays_inside(
    sha256: &Fingerprint,
    staged_filename: &str,
    result: Result<Vec<u8>, IndexOrchestratorError>,
)
    requires
        call_ensures(accept_staged, (sha256, staged_filename), result),
        result is Ok,
    ensures
        result->Ok_0@.len() == 32,
        staged_filename@.len() > 0,
        !staged_filename@.contains('/'),
        staged_filename@ != "."@,
        staged_filename@ != ".."@,
{
}

/// A digest that is written as a fingerprint is read back from it.
pub proof fn law_written_digest_is_read_back(
    value: &Fingerprint,
    digest: Seq<u8>,
    result: Option<Vec<u8>>,
)
    requires
        call_ensures(sha256_bytes, (value,), result),
        digest.len() == 32,
        value@ == crate::digest::digest_text(digest),
    ensures
        result is Some,
        result->0@ == digest,
{
    reveal_strlit("sha256:");
    let shown = text::hex_text(digest);
    assert(value@.take(7) =~= "sha256:"@);
    assert forall|i: int| 0 <= i < 32 implies #[trigger] digest_byte(value@, i) == Some(
        digest[i],
    ) by {
        assert(value@[7 + 2 * i] == shown[2 * i]);
        assert(value@[7 + 2 * i + 1] == shown[2 * i + 1]);
        lemma_hex_digit((digest[i] / 16) as int);
        lemma_hex_digit((digest[i] % 16) as int);
    }
    assert(result->0@ =~= digest);
}

proof fn lemma_hex_digit(value: int)
    requires
        0 <= value < 16,
    ensures
        hex_value(text::digit_char(value)) == Some(value as u8),
{
}

/// A page of the catalog is taken exactly where every artifact on it is of a
/// component of the manifest and of that component's configuration.
pub proof fn law_accepted_pages_fit_the_manifest(
    catalog: &mut DependencyCatalog,
    components: &[Component],
    page: &ArtifactDiscoveryResponse,
    result: Result<bool, IndexOrchestratorError>,
    a: int,
    c: int,
)
    requires
        old(catalog).wf(),
        call_ensures(DependencyCatalog::accept_page, (catalog, components, page), result),
        0 <= a < page.artifacts@.len(),
        0 <= c < components@.len(),
        components@[c].id@ == page.artifacts@[a].source_unit.component@,
        forall|j: int|
            c < j < components@.len() ==> (#[trigger] components@[j]).id@ != components@[c].id@,
    ensures
        result is Ok ==> page.artifacts@[a].source_unit.context@ == components@[c].configuration@,
        result is Ok ==> (result->Ok_0 <==> page.next_cursor is Some),
        result is Ok && page.next_cursor is Some ==> final(catalog).cursor == page.next_cursor
            && final(catalog).page == old(catalog).page + 1,
{
    let findings = Seq::new(
        page.artifacts@.len(),
        |i: int| artifact_problem(components@, page.artifacts@[i]),
    );
    if result is Ok {
        ordering::lemma_no_first_problem(findings);
        assert(findings[a] is None);
        assert forall|j: int| c < j < components@.len() implies (#[trigger] components@[j]).key()
            != components@[c].key() by {
            assert(components@[j].id@ != components@[c].id@);
        }
        ordered_map::lemma_latest_at(components@, c);
    }
}

/// The artifacts of a taken page are cataloged under their source units, and
/// those of earlier pages stay.
pub proof fn law_pages_add_up_to_the_catalog(
    catalog: &mut DependencyCatalog,
    components: &[Component],
    page: &ArtifactDiscoveryResponse,
    more: bool,
    a: int,
    id: Seq<char>,
)
    requires
        old(catalog).wf(),
        call_ensures(
            DependencyCatalog::accept_page,
            (catalog, components, page),
            Ok::<bool, IndexOrchestratorError>(more),
        ),
        0 <= a < page.artifacts@.len(),
        forall|j: int|
            a < j < page.artifacts@.len() ==> (#[trigger] page.artifacts@[j]).source_unit.id@
                != page.artifacts@[a].source_unit.id@,
    ensures
        ({
            let unit = page.artifacts@[a].source_unit.id@;
            &&& final(catalog).descriptors@.dom().contains(unit)
            &&& final(catalog).descriptors@[unit]@ == page.artifacts@[a]@
        }),
        old(catalog).descriptors@.dom().contains(id) ==> final(
            catalog).descriptors@.dom().contains(id),
        final(catalog).descriptors@.dom().contains(id) ==> old(
            catalog).descriptors@.dom().contains(id) || exists|j: int|
            0 <= j < page.artifacts@.len() && (#[trigger] page.artifacts@[j]).source_unit.id@
                == id,
{
    let artifacts = page.artifacts@;
    assert forall|j: int| a < j < artifacts.len() implies (#[trigger] artifacts[j]).key()
        != artifacts[a].key() by {
        assert(artifacts[j].source_unit.id@ != artifacts[a].source_unit.id@);
    }
    ordered_map::lemma_latest_at(artifacts, a);
    ordered_map::lemma_keys_of(artifacts, id);
    let unit = artifacts[a].source_unit.id@;
    assert(final(catalog).descriptors@.dom().contains(unit));
    if ordered_map::keys_of(artifacts).contains(id) {
        let j = choose|j: int| 0 <= j < artifacts.len() && (#[trigger] artifacts[j]).key() == id;
        assert(artifacts[j].source_unit.id@ == id);
    }
}

/// The catalog is discovered again exactly where no manifest or another one is
/// on record.
pub proof fn law_catalog_follows_the_manifest(
    previous: &Option<Fingerprint>,
    current: &Fingerprint,
    outdated: bool,
)
    requires
        call_ensures(is_catalog_outdated, (previous, current), outdated),
    ensures
        outdated <==> *previous is None || previous->0@ != current@,
{
}

/// A batch is analyzed for every fact that the index holds.
pub proof fn law_batches_ask_for_every_fact(
    workspace: &WorkspaceId,
    manifest: &Fingerprint,
    units: Vec<SourceUnit>,
    plan: OpaqueExecutionPlan,
    request: AnalyzeBatchRequest,
)
    requires
        call_ensures(batch_request, (workspace, manifest, units, plan), request),
    ensures
        request.source_units@ == units@,
        request.workspace@ == workspace@,
        request.project_fingerprint@ == manifest@,
        request.requested_facts@.contains(AnalysisFact::Symbols),
        request.requested_facts@.contains(AnalysisFact::Occurrences),
        request.requested_facts@.contains(AnalysisFact::References),
        request.requested_facts@.contains(AnalysisFact::Calls),
        request.requested_facts@.contains(AnalysisFact::Hierarchy),
        request.requested_facts@.contains(AnalysisFact::Types),
{
    let facts = request.requested_facts@;
    assert(facts[0] == AnalysisFact::Symbols);
    assert(facts[1] == AnalysisFact::Occurrences);
    assert(facts[2] == AnalysisFact::References);
    assert(facts[3] == AnalysisFact::Calls);
    assert(facts[4] == AnalysisFact::Hierarchy);
    assert(facts[5] == AnalysisFact::Types);
}

} // verus!
