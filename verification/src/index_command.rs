//! The decisions of the index command.

use vstd::prelude::*;

use crate::canonical::{
    BuildSystem, Component, ComponentId, Provenance, SourceUnit, SourceUnitId,
    WorkspacePath,
};
use crate::configuration::MavenConfiguration;
use crate::freshness::IndexAction;
use crate::incremental_plan::{DependencyAction, IncrementalIndexPlan, ManifestAction};
use crate::input_inventory::{ConfigurationInputState, ConfigurationInputStatus};
use crate::measures;
use crate::orchestrator;
use crate::orchestrator::{
    summarize_actions, IndexRun, MaterializationBudget, MaterializationMetrics,
    MaterializationOutcome, WorkerBatch,
};
use crate::ordered_map::OrderedMap;
use crate::ordering;
use crate::ordering::{stable_sort, Ranked};
use crate::protocol::{
    ProjectManifestRequest, ProjectManifestResponse, WorkerCapabilities, WorkerEnvelope,
    WorkerMessage,
};
use crate::search;
use crate::supervisor::{EnvironmentVariable, WorkerLaunch};
use crate::text;

verus! {

/// How many of the slowest materializations are reported.
pub const SLOWEST_MATERIALIZATIONS: usize = 10;

/// How long the worker of a cold batch may take to reply. It can exceed the
/// default while it still makes progress.
pub const INDEX_REQUEST_TIMEOUT_MILLIS: u64 = 300_000;

/// The position of the first component with an id; the length, where there is
/// none.
pub open spec fn component_position(components: Seq<Component>, id: Seq<char>) -> int
    decreases components.len(),
{
    if components.len() == 0 || components[0].id@ == id {
        0
    } else {
        1 + component_position(components.drop_first(), id)
    }
}

fn find_component(components: &[Component], id: &ComponentId) -> (result: usize)
    ensures
        result == component_position(components@, id@),
        result <= components@.len(),
{
    let mut i: usize = 0;
    assert(components@.skip(0) =~= components@);
    while i < components.len()
        invariant
            i <= components@.len(),
            component_position(components@, id@) == i + component_position(
                components@.skip(i as int),
                id@,
            ),
        decreases components@.len() - i,
    {
        assert(components@.skip(i as int).drop_first() =~= components@.skip(i + 1));
        if components[i].id.same(id) {
            return i;
        }
        i = i + 1;
    }
    i
}

/// Whether a component of a manifest holds a source unit.
pub open spec fn is_covered(unit: SourceUnit, components: Seq<Component>) -> bool {
    component_position(components, unit.component@) < components.len()
}

/// Whether the components of a manifest hold every source unit.
pub open spec fn covers(units: Seq<SourceUnit>, components: Seq<Component>) -> bool {
    forall|i: int| 0 <= i < units.len() ==> is_covered(#[trigger] units[i], components)
}

/// A source unit in the context of its component.
pub open spec fn in_context(unit: SourceUnit, components: Seq<Component>) -> SourceUnit {
    SourceUnit {
        context: components[component_position(components, unit.component@)].configuration,
        ..unit
    }
}

/// Binds every source unit to the resolved configuration of its component; none,
/// where the manifest does not cover them all.
pub fn bind_contexts(units: &[SourceUnit], components: &[Component]) -> (result: Option<
    Vec<SourceUnit>,
>)
    ensures
        match result {
            Some(bound) => {
                &&& covers(units@, components@)
                &&& bound@.len() == units@.len()
                &&& forall|i: int|
                    0 <= i < bound@.len() ==> #[trigger] bound@[i] == in_context(
                        units@[i],
                        components@,
                    )
            },
            None => !covers(units@, components@),
        },
{
    let mut bound: Vec<SourceUnit> = Vec::new();
    let mut i: usize = 0;
    while i < units.len()
        invariant
            i <= units@.len(),
            bound@.len() == i,
            forall|j: int| 0 <= j < i ==> is_covered(#[trigger] units@[j], components@),
            forall|j: int|
                0 <= j < i ==> #[trigger] bound@[j] == in_context(units@[j], components@),
        decreases units@.len() - i,
    {
        let position: usize = find_component(components, &units[i].component);
        if position == components.len() {
            assert(!is_covered(units@[i as int], components@));
            return None;
        }
        let mut unit = units[i].clone();
        unit.context = components[position].configuration.clone();
        bound.push(unit);
        i = i + 1;
    }
    Some(bound)
}

/// The provenance of the snapshots of the only selected batch. Their analysis
/// options are the context of the sources.
pub fn single_batch_provenance(capabilities: &WorkerCapabilities, sources: &[SourceUnit]) -> (result:
    Provenance)
    requires
        sources@.len() > 0,
    ensures
        result.backend == capabilities.identity.backend,
        result.backend_version == capabilities.identity.backend_version,
        result.protocol_version == capabilities.protocol_version,
        result.analysis_options == sources@[0].context,
{
    Provenance {
        backend: capabilities.identity.backend.clone(),
        backend_version: capabilities.identity.backend_version.clone(),
        protocol_version: capabilities.protocol_version,
        analysis_options: sources[0].context.clone(),
    }
}

/// The budget of a warm limit; zero sets no limit.
pub fn warm_budget(limit: u32) -> (result: MaterializationBudget)
    ensures
        result.remaining_artifacts == (if limit == 0 {
            u32::MAX
        } else {
            limit
        }),
{
    MaterializationBudget {
        remaining_artifacts: if limit == 0 {
            u32::MAX
        } else {
            limit
        },
    }
}

/// How many of the cataloged artifacts a warm limit lets through.
pub fn artifacts_total(cataloged: usize, limit: u32) -> (result: usize)
    ensures
        result == (if limit == 0 || cataloged <= limit {
            cataloged as int
        } else {
            limit as int
        }),
{
    if limit == 0 || cataloged <= limit as usize {
        cataloged
    } else {
        limit as usize
    }
}

/// How a warm limit is reported.
pub fn warm_limit_text(limit: u32) -> (result: String)
    ensures
        result@ == (if limit == 0 {
            "all"@
        } else {
            text::decimal_text(limit as nat)
        }),
{
    if limit == 0 {
        "all".to_owned()
    } else {
        text::decimal(limit as u64)
    }
}

/// The name that a dependency is reported under: the name of its file, or the
/// path of its source unit.
pub fn dependency_name(file_name: Option<&str>, path: &WorkspacePath) -> (result: String)
    ensures
        result@ == (match file_name {
            Some(name) => name@,
            None => path@,
        }),
{
    match file_name {
        Some(name) => name.to_owned(),
        None => path.as_str().to_owned(),
    }
}

/// How an artifact became available.
#[derive(Debug, Clone, Copy, PartialEq, Eq, Structural)]
pub enum ReportedOutcome {
    Materialized,
    Cached,
}

/// The report on one artifact.
pub struct ArtifactReport {
    pub source_unit: SourceUnitId,
    pub component: ComponentId,
    pub dependency: String,
    pub outcome: ReportedOutcome,
    pub millis: u64,
    pub blob_bytes: u64,
    pub metrics: Option<MaterializationMetrics>,
}

/// Whether the loop over the cataloged artifacts goes on.
#[derive(Debug, Clone, Copy, PartialEq, Eq, Structural)]
pub enum WarmStep {
    Next,
    Stop,
}

/// What was processed of a descriptor.
pub struct ProcessedArtifact {
    pub source_unit: SourceUnitId,
    pub component: ComponentId,
    pub dependency: String,
    pub millis: u64,
    /// The size of the published blob, where one was materialized.
    pub blob_bytes: u64,
    pub outcome: MaterializationOutcome,
    pub metrics: Option<MaterializationMetrics>,
}

/// Whether the measurements of an artifact are kept in order.
pub open spec fn metrics_wf(metrics: Option<MaterializationMetrics>) -> bool {
    match metrics {
        Some(metrics) => {
            &&& metrics.worker_phases.wf()
            &&& metrics.worker_metrics.wf()
            &&& metrics.core_phases.wf()
        },
        None => true,
    }
}

/// Whether a run can take in a processed artifact without overflow.
pub open spec fn can_record(run: IndexRun, artifact: ProcessedArtifact) -> bool {
    &&& run.dependency_analyzed < usize::MAX
    &&& run.dependency_reused < usize::MAX
    &&& artifact.metrics matches Some(metrics) ==> run.phases_fit(metrics)
}

/// Whether a run is another with the counts of dependencies changed, and the
/// measurements of an artifact added.
pub open spec fn has_recorded(
    after: IndexRun,
    before: IndexRun,
    analyzed: int,
    reused: int,
    metrics: Option<MaterializationMetrics>,
) -> bool {
    &&& after.dependency_analyzed == before.dependency_analyzed + analyzed
    &&& after.dependency_reused == before.dependency_reused + reused
    &&& after.reused == before.reused
    &&& after.analyzed == before.analyzed
    &&& after.removed == before.removed
    &&& after.worker_starts == before.worker_starts
    &&& after.dependency_catalog_millis == before.dependency_catalog_millis
    &&& after.dependency_materialization_millis == before.dependency_materialization_millis
    &&& after.source_worker_millis == before.source_worker_millis
    &&& after.source_commit_millis == before.source_commit_millis
    &&& after.batches == before.batches
    &&& after.artifact_locators == before.artifact_locators
    &&& match metrics {
        Some(metrics) => after.has_added(&before, metrics),
        None => after.worker_phase_millis == before.worker_phase_millis && after.worker_metrics
            == before.worker_metrics,
    }
}

/// Whether a report is on a processed artifact.
pub open spec fn is_report_of(
    report: ArtifactReport,
    artifact: ProcessedArtifact,
    outcome: ReportedOutcome,
) -> bool {
    &&& report.source_unit == artifact.source_unit
    &&& report.component == artifact.component
    &&& report.dependency == artifact.dependency
    &&& report.outcome == outcome
    &&& report.millis == artifact.millis
    &&& report.blob_bytes == (if outcome == ReportedOutcome::Materialized {
        artifact.blob_bytes
    } else {
        0
    })
    &&& report.metrics == artifact.metrics
}

/// Takes the outcome for one cataloged artifact into the account of a run. A
/// spent budget ends the loop; an artifact that left the catalog is passed over.
pub fn record_artifact(
    run: &mut IndexRun,
    reports: &mut Vec<ArtifactReport>,
    artifact: ProcessedArtifact,
) -> (result: WarmStep)
    requires
        old(run).wf(),
        metrics_wf(artifact.metrics),
        can_record(*old(run), artifact),
    ensures
        final(run).wf(),
        match artifact.outcome {
            MaterializationOutcome::Materialized => {
                &&& result == WarmStep::Next
                &&& has_recorded(*final(run), *old(run), 1, 0, artifact.metrics)
                &&& final(reports)@.len() == old(reports)@.len() + 1
                &&& final(reports)@.drop_last() == old(reports)@
                &&& is_report_of(
                    final(reports)@.last(),
                    artifact,
                    ReportedOutcome::Materialized,
                )
            },
            MaterializationOutcome::AlreadyMaterialized => {
                &&& result == WarmStep::Next
                &&& has_recorded(*final(run), *old(run), 0, 1, artifact.metrics)
                &&& final(reports)@.len() == old(reports)@.len() + 1
                &&& final(reports)@.drop_last() == old(reports)@
                &&& is_report_of(final(reports)@.last(), artifact, ReportedOutcome::Cached)
            },
            MaterializationOutcome::BudgetExhausted => {
                &&& result == WarmStep::Stop
                &&& *final(run) == *old(run)
                &&& final(reports)@ == old(reports)@
            },
            MaterializationOutcome::NotCataloged => {
                &&& result == WarmStep::Next
                &&& *final(run) == *old(run)
                &&& final(reports)@ == old(reports)@
            },
        },
{
    let ghost before = reports@;
    let outcome = match artifact.outcome {
        MaterializationOutcome::Materialized => ReportedOutcome::Materialized,
        MaterializationOutcome::AlreadyMaterialized => ReportedOutcome::Cached,
        MaterializationOutcome::BudgetExhausted => {
            return WarmStep::Stop;
        },
        MaterializationOutcome::NotCataloged => {
            return WarmStep::Next;
        },
    };
    if let Some(metrics) = &artifact.metrics {
        run.record_materialization_metrics(metrics);
    }
    let blob_bytes: u64 = match outcome {
        ReportedOutcome::Materialized => {
            run.dependency_analyzed = run.dependency_analyzed + 1;
            artifact.blob_bytes
        },
        ReportedOutcome::Cached => {
            run.dependency_reused = run.dependency_reused + 1;
            0
        },
    };
    reports.push(
        ArtifactReport {
            source_unit: artifact.source_unit,
            component: artifact.component,
            dependency: artifact.dependency,
            outcome,
            millis: artifact.millis,
            blob_bytes,
            metrics: artifact.metrics,
        },
    );
    assert(reports@.drop_last() =~= before);
    WarmStep::Next
}

/// A measured duration with its place in the order of processing.
#[derive(Debug, Clone, Copy, PartialEq, Eq, Structural)]
pub struct TimedArtifact {
    pub index: usize,
    pub millis: u64,
}

impl Ranked for TimedArtifact {
    open spec fn ranks_before(&self, other: &Self) -> bool {
        self.millis > other.millis
    }

    proof fn lemma_rank_asymmetric(a: &Self, b: &Self) {
    }

    proof fn lemma_rank_negatively_transitive(a: &Self, b: &Self, c: &Self) {
    }

    fn is_before(&self, other: &Self) -> (result: bool) {
        self.millis > other.millis
    }
}

/// The durations of reports with their places.
pub open spec fn timed(reports: Seq<ArtifactReport>) -> Seq<TimedArtifact> {
    Seq::new(
        reports.len(),
        |i: int| TimedArtifact { index: i as usize, millis: reports[i].millis },
    )
}

/// The slowest materializations, the slowest first; those that took as long stay
/// in the order of processing.
pub fn slowest_artifacts(reports: &[ArtifactReport]) -> (result: Vec<TimedArtifact>)
    ensures
        ({
            let ordered = ordering::stable_sorted(timed(reports@));
            result@ == (if ordered.len() > SLOWEST_MATERIALIZATIONS {
                ordered.take(SLOWEST_MATERIALIZATIONS as int)
            } else {
                ordered
            })
        }),
{
    let mut durations: Vec<TimedArtifact> = Vec::new();
    let mut i: usize = 0;
    while i < reports.len()
        invariant
            i <= reports@.len(),
            durations@.len() == i,
            forall|j: int| 0 <= j < i ==> #[trigger] durations@[j] == timed(reports@)[j],
        decreases reports@.len() - i,
    {
        durations.push(TimedArtifact { index: i, millis: reports[i].millis });
        i = i + 1;
    }
    assert(durations@ =~= timed(reports@));
    let mut ordered = stable_sort(durations);
    if ordered.len() > SLOWEST_MATERIALIZATIONS {
        ordered.truncate(SLOWEST_MATERIALIZATIONS);
    }
    ordered
}

/// A measured value; zero, where nothing was measured under the name.
pub fn measure(map: &OrderedMap<u64>, name: &str) -> (result: u64)
    requires
        map.wf(),
    ensures
        result == measures::value_of(map@, name@),
{
    match map.get(name) {
        Some(value) => *value,
        None => 0,
    }
}

/// The worker phases that are reported by name.
#[derive(Debug, Clone, Copy, PartialEq, Eq, Structural)]
pub struct PhaseTimings {
    pub context_import: u64,
    pub stage_compile: u64,
    pub shard_pipeline: u64,
    /// What is left of the pipeline after the stage is compiled.
    pub semantic: u64,
    pub worker_total: u64,
}

/// What is left of a duration.
pub open spec fn remainder(total: nat, part: nat) -> nat {
    if part > total {
        0
    } else {
        (total - part) as nat
    }
}

/// Reads the phases that are reported by name.
pub fn phase_timings(phases: &OrderedMap<u64>) -> (result: PhaseTimings)
    requires
        phases.wf(),
    ensures
        result.context_import == measures::value_of(phases@, "context_import"@),
        result.stage_compile == measures::value_of(phases@, "stage_compile"@),
        result.shard_pipeline == measures::value_of(phases@, "shard_analyze"@),
        result.semantic == remainder(
            measures::value_of(phases@, "shard_analyze"@),
            measures::value_of(phases@, "stage_compile"@),
        ),
        result.worker_total == measures::value_of(phases@, "worker_total"@),
{
    let stage_compile: u64 = measure(phases, "stage_compile");
    let shard_pipeline: u64 = measure(phases, "shard_analyze");
    let semantic: u64 = if stage_compile > shard_pipeline {
        0
    } else {
        shard_pipeline - stage_compile
    };
    PhaseTimings {
        context_import: measure(phases, "context_import"),
        stage_compile,
        shard_pipeline,
        semantic,
        worker_total: measure(phases, "worker_total"),
    }
}

/// Whether a phase has a place of its own in the report.
pub open spec fn is_named_phase(name: Seq<char>) -> bool {
    ||| name == "context_import"@
    ||| name == "stage_compile"@
    ||| name == "shard_analyze"@
    ||| name == "serialize"@
    ||| name == "worker_total"@
}

/// The other phases among the first `n` of an order, as `name=millis` pairs.
pub open spec fn other_text(phases: Map<Seq<char>, u64>, order: Seq<Seq<char>>, n: int) -> Seq<char>
    decreases n,
{
    if n <= 0 {
        Seq::empty()
    } else {
        let before = other_text(phases, order, n - 1);
        let name = order[n - 1];
        let entry = name + "="@ + text::decimal_text(phases[name] as nat) + "ms"@;
        if is_named_phase(name) {
            before
        } else if before.len() == 0 {
            entry
        } else {
            before + " "@ + entry
        }
    }
}

/// The phases without a place of their own, in ascending order.
pub fn other_phases(phases: &OrderedMap<u64>) -> (result: String)
    requires
        phases.wf(),
    ensures
        ({
            let order = ordering::sorted_texts(phases@.dom());
            result@ == other_text(phases@, order, order.len() as int)
        }),
{
    proof {
        phases.lemma_order();
    }
    let mut result: String = "".to_owned();
    let mut empty: bool = true;
    let mut i: usize = 0;
    proof {
        reveal_strlit("");
        assert(result@ =~= Seq::<char>::empty());
    }
    while i < phases.len()
        invariant
            phases.wf(),
            phases.order() == ordering::sorted_texts(phases@.dom()),
            i <= phases.order().len(),
            result@ == other_text(phases@, phases.order(), i as int),
            empty == (result@.len() == 0),
        decreases phases.order().len() - i,
    {
        let name = phases.key_at(i);
        let named: bool = text::same_text(name.as_str(), "context_import") || text::same_text(
            name.as_str(),
            "stage_compile",
        ) || text::same_text(name.as_str(), "shard_analyze") || text::same_text(
            name.as_str(),
            "serialize",
        ) || text::same_text(name.as_str(), "worker_total");
        if !named {
            let mut entry = text::join_text(name.as_str(), "=");
            entry.append(text::decimal(*phases.value_at(i)).as_str());
            entry.append("ms");
            proof {
                reveal_strlit("ms");
            }
            if empty {
                result = entry;
                empty = false;
            } else {
                result.append(" ");
                result.append(entry.as_str());
            }
        }
        i = i + 1;
    }
    result
}

/// How many source units one worker batch may hold: a positive number that is
/// set for it, or the default where nothing is set.
pub fn source_batch_limit(value: Option<&str>, default_limit: usize) -> (result: Option<usize>)
    ensures
        match value {
            None => result == Some(default_limit),
            Some(value) => match text::number_value(value@) {
                Some(number) => if 0 < number <= usize::MAX {
                    result is Some && result->Some_0 == number
                } else {
                    result is None
                },
                None => result is None,
            },
        },
{
    match value {
        None => Some(default_limit),
        Some(value) => match text::parse_number(value, usize::MAX as u64) {
            Some(number) => if number > 0 {
                Some(number as usize)
            } else {
                None
            },
            None => None,
        },
    }
}

/// The log level that a worker is started with.
pub open spec fn worker_level(verbosity: u8) -> Seq<char> {
    if verbosity == 0 {
        "warn"@
    } else if verbosity <= 2 {
        "info"@
    } else {
        "debug"@
    }
}

fn worker_level_name(verbosity: u8) -> (result: &'static str)
    ensures
        result@ == worker_level(verbosity),
{
    if verbosity == 0 {
        "warn"
    } else if verbosity <= 2 {
        "info"
    } else {
        "debug"
    }
}

/// A worker that is installed with the program.
#[derive(Debug, PartialEq, Eq)]
pub struct WorkerInstallation {
    pub name: String,
    pub launch: WorkerLaunch,
    pub build_systems: Vec<BuildSystem>,
}

/// Whether a variable has a name and a value.
pub open spec fn is_variable(
    variable: EnvironmentVariable,
    name: Seq<char>,
    value: Seq<char>,
) -> bool {
    variable.name@ == name && variable.value@ == value
}

/// The installation of the Kotlin worker for a workspace.
pub fn kotlin_worker_installation(
    executable: &str,
    workspace: &str,
    gradle_home: Option<&str>,
    verbosity: u8,
    maven: MavenConfiguration,
) -> (result: WorkerInstallation)
    ensures
        result.name@ == "kotlin-jvm"@,
        result.build_systems@ == seq![
            BuildSystem::Gradle,
            BuildSystem::Maven,
            BuildSystem::Filesystem,
        ],
        result.launch.program@ == executable@,
        text::texts(result.launch.args@) == seq!["--serve"@],
        result.launch.working_directory is None,
        result.launch.request_timeout_millis == INDEX_REQUEST_TIMEOUT_MILLIS,
        ({
            let variables = result.launch.environment@;
            let own = if gradle_home is Some {
                1int
            } else {
                0int
            };
            &&& variables.len() == own + 2 + (if maven.best_effort_dependencies {
                1int
            } else {
                0int
            })
            &&& gradle_home matches Some(home) ==> is_variable(
                variables[0],
                "KIDE_GRADLE_INSTALLATION"@,
                home@,
            )
            &&& is_variable(variables[own], "KIDE_WORKER_LOG_LEVEL"@, worker_level(verbosity))
            &&& is_variable(variables[own + 1], "KIDE_WORKSPACE_ROOT"@, workspace@)
            &&& maven.best_effort_dependencies ==> is_variable(
                variables[own + 2],
                "KIDE_MAVEN_BEST_EFFORT"@,
                "1"@,
            )
        }),
{
    let mut launch = WorkerLaunch::new(executable);
    launch.args.push("--serve".to_owned());
    assert(text::texts(launch.args@) =~= seq!["--serve"@]);
    if let Some(home) = gradle_home {
        launch.environment.push(
            EnvironmentVariable {
                name: "KIDE_GRADLE_INSTALLATION".to_owned(),
                value: home.to_owned(),
            },
        );
    }
    launch.environment.push(
        EnvironmentVariable {
            name: "KIDE_WORKER_LOG_LEVEL".to_owned(),
            value: worker_level_name(verbosity).to_owned(),
        },
    );
    launch.environment.push(
        EnvironmentVariable { name: "KIDE_WORKSPACE_ROOT".to_owned(), value: workspace.to_owned() },
    );
    if maven.best_effort_dependencies {
        launch.environment.push(
            EnvironmentVariable {
                name: "KIDE_MAVEN_BEST_EFFORT".to_owned(),
                value: "1".to_owned(),
            },
        );
    }
    launch.request_timeout_millis = INDEX_REQUEST_TIMEOUT_MILLIS;
    let mut build_systems: Vec<BuildSystem> = Vec::new();
    build_systems.push(BuildSystem::Gradle);
    build_systems.push(BuildSystem::Maven);
    build_systems.push(BuildSystem::Filesystem);
    assert(build_systems@ =~= seq![
        BuildSystem::Gradle,
        BuildSystem::Maven,
        BuildSystem::Filesystem,
    ]);
    WorkerInstallation { name: "kotlin-jvm".to_owned(), launch, build_systems }
}

/// The request for the manifest of the workspace.
pub fn project_manifest_request() -> (result: WorkerEnvelope)
    ensures
        result.request_id@ == "index-project-manifest"@,
        result.message matches WorkerMessage::ProjectManifestRequest(request)
            && request.workspace_root@ == "."@,
{
    WorkerEnvelope::new(
        "index-project-manifest",
        WorkerMessage::ProjectManifestRequest(
            ProjectManifestRequest { workspace_root: WorkspacePath::new(".") },
        ),
    )
}

/// Takes the manifest out of a reply; any other reply is handed back.
pub fn accept_project_manifest(message: WorkerMessage) -> (result: Result<
    ProjectManifestResponse,
    WorkerMessage,
>)
    ensures
        match message {
            WorkerMessage::ProjectManifestResponse(response) => result == Ok::<
                ProjectManifestResponse,
                WorkerMessage,
            >(response),
            other => result == Err::<ProjectManifestResponse, WorkerMessage>(other),
        },
{
    match message {
        WorkerMessage::ProjectManifestResponse(response) => Ok(response),
        other => Err(other),
    }
}

/// How many configuration inputs are not current.
pub fn changed_inputs(inputs: &[ConfigurationInputStatus]) -> (result: usize)
    ensures
        result == search::count_where(
            inputs@,
            |input: ConfigurationInputStatus| input.state != ConfigurationInputState::Current,
        ),
{
    let ghost changed = |input: ConfigurationInputStatus|
        input.state != ConfigurationInputState::Current;
    let mut count: usize = 0;
    let mut i: usize = 0;
    assert(inputs@.take(0) =~= Seq::<ConfigurationInputStatus>::empty());
    while i < inputs.len()
        invariant
            changed == (|input: ConfigurationInputStatus|
                input.state != ConfigurationInputState::Current),
            i <= inputs@.len(),
            count <= i,
            count == search::count_where(inputs@.take(i as int), changed),
        decreases inputs@.len() - i,
    {
        assert(inputs@.take(i + 1).drop_last() =~= inputs@.take(i as int));
        if inputs[i].state != ConfigurationInputState::Current {
            count = count + 1;
        }
        i = i + 1;
    }
    assert(inputs@.take(inputs@.len() as int) =~= inputs@);
    count
}

/// Whether the stored manifest is still the one of the build: there is one, and
/// no configuration input changed since.
pub open spec fn manifest_is_current(stored: bool, inputs: Seq<ConfigurationInputStatus>) -> bool {
    stored && forall|i: int|
        0 <= i < inputs.len() ==> (#[trigger] inputs[i]).state == ConfigurationInputState::Current
}

/// Decides about the manifest of the build without resolving it.
pub fn manifest_action(stored: bool, inputs: &[ConfigurationInputStatus]) -> (result:
    ManifestAction)
    ensures
        result == (if manifest_is_current(stored, inputs@) {
            ManifestAction::Reuse
        } else {
            ManifestAction::Resolve
        }),
{
    if !stored {
        return ManifestAction::Resolve;
    }
    let mut i: usize = 0;
    while i < inputs.len()
        invariant
            i <= inputs@.len(),
            forall|j: int|
                0 <= j < i ==> (#[trigger] inputs@[j]).state == ConfigurationInputState::Current,
        decreases inputs@.len() - i,
    {
        if inputs[i].state != ConfigurationInputState::Current {
            assert(inputs@[i as int].state != ConfigurationInputState::Current);
            return ManifestAction::Resolve;
        }
        i = i + 1;
    }
    ManifestAction::Reuse
}

/// How a preview names what is done about the manifest.
pub fn manifest_action_name(action: ManifestAction) -> (result: &'static str)
    ensures
        result@ == (match action {
            ManifestAction::Reuse => "reuse"@,
            ManifestAction::Resolve => "resolve_required"@,
        }),
{
    match action {
        ManifestAction::Reuse => "reuse",
        ManifestAction::Resolve => "resolve_required",
    }
}

/// What an index run would do.
#[derive(Debug, Clone, Copy, PartialEq, Eq)]
pub struct PlanPreview {
    pub manifest: ManifestAction,
    pub reused: usize,
    pub analyze: usize,
    pub removed: usize,
    pub cache_hits: usize,
    pub cache_misses: usize,
    pub cached_blob_bytes: u128,
}

/// The sum of lengths.
pub open spec fn total_bytes(lengths: Seq<u64>) -> nat
    decreases lengths.len(),
{
    if lengths.len() == 0 {
        0
    } else {
        total_bytes(lengths.drop_last()) + lengths.last() as nat
    }
}

/// Counts what an incremental plan would do, given the lengths of the cached
/// blobs. Nothing is started and nothing is changed.
pub fn preview_plan(plan: &IncrementalIndexPlan, blob_lengths: &[u64]) -> (result: PlanPreview)
    ensures
        result.manifest == plan.manifest,
        result.reused == orchestrator::reused_count(plan.sources@),
        result.analyze == orchestrator::reanalyzed(plan.sources@).len(),
        result.removed == orchestrator::removed_units(plan.sources@).len(),
        result.cache_hits == search::count_where(
            plan.dependencies@,
            |action: DependencyAction| action is CacheHit,
        ),
        result.cache_misses == search::count_where(
            plan.dependencies@,
            |action: DependencyAction| action is CacheMiss,
        ),
        result.cached_blob_bytes == total_bytes(blob_lengths@),
{
    let summary = summarize_actions(plan.sources.as_slice());
    let ghost hit = |action: DependencyAction| action is CacheHit;
    let ghost miss = |action: DependencyAction| action is CacheMiss;
    let actions = plan.dependencies.as_slice();
    let mut cache_hits: usize = 0;
    let mut cache_misses: usize = 0;
    let mut i: usize = 0;
    assert(actions@.take(0) =~= Seq::<DependencyAction>::empty());
    while i < actions.len()
        invariant
            hit == (|action: DependencyAction| action is CacheHit),
            miss == (|action: DependencyAction| action is CacheMiss),
            i <= actions@.len(),
            cache_hits <= i,
            cache_misses <= i,
            cache_hits == search::count_where(actions@.take(i as int), hit),
            cache_misses == search::count_where(actions@.take(i as int), miss),
        decreases actions@.len() - i,
    {
        assert(actions@.take(i + 1).drop_last() =~= actions@.take(i as int));
        match &actions[i] {
            DependencyAction::CacheHit(_) => {
                cache_hits = cache_hits + 1;
            },
            DependencyAction::CacheMiss(_) => {
                cache_misses = cache_misses + 1;
            },
            DependencyAction::Removed(_) => {},
        }
        i = i + 1;
    }
    assert(actions@.take(actions@.len() as int) =~= actions@);
    let mut cached_blob_bytes: u128 = 0;
    let mut j: usize = 0;
    assert(blob_lengths@.take(0) =~= Seq::<u64>::empty());
    while j < blob_lengths.len()
        invariant
            j <= blob_lengths@.len(),
            cached_blob_bytes == total_bytes(blob_lengths@.take(j as int)),
            cached_blob_bytes <= j * u64::MAX,
        decreases blob_lengths@.len() - j,
    {
        assert(blob_lengths@.take(j + 1).drop_last() =~= blob_lengths@.take(j as int));
        assert(j * u64::MAX + u64::MAX == (j + 1) * u64::MAX) by (nonlinear_arith);
        assert((j + 1) * u64::MAX <= u128::MAX) by (nonlinear_arith)
            requires
                j < usize::MAX,
        ;
        cached_blob_bytes = cached_blob_bytes + blob_lengths[j] as u128;
        j = j + 1;
    }
    assert(blob_lengths@.take(blob_lengths@.len() as int) =~= blob_lengths@);
    PlanPreview {
        manifest: plan.manifest,
        reused: summary.reused,
        analyze: summary.reanalyze.len(),
        removed: summary.removed.len(),
        cache_hits,
        cache_misses,
        cached_blob_bytes,
    }
}

/// A preview counts every source once: it is reused, analyzed or removed.
pub proof fn law_preview_counts_every_source(plan: IncrementalIndexPlan)
    ensures
        orchestrator::reused_count(plan.sources@) + orchestrator::reanalyzed(plan.sources@).len()
            + orchestrator::removed_units(plan.sources@).len() == plan.sources@.len(),
{
    lemma_actions_are_counted(plan.sources@);
}

proof fn lemma_actions_are_counted(actions: Seq<IndexAction>)
    ensures
        orchestrator::reused_count(actions) + orchestrator::reanalyzed(actions).len()
            + orchestrator::removed_units(actions).len() == actions.len(),
    decreases actions.len(),
{
    if actions.len() > 0 {
        lemma_actions_are_counted(actions.drop_last());
    }
}

/// Where the timeline of a command goes.
#[derive(Debug, Clone, PartialEq, Eq)]
pub enum TraceOutput {
    /// Nowhere.
    Off,
    /// A timeline for trace viewers.
    Chrome(String),
    /// Folded stacks for flame graphs.
    Flame(String),
}

/// Chooses the trace of a command by its two settings: folded stacks take
/// precedence.
pub fn trace_output(chrome: Option<String>, flame: Option<String>) -> (result: TraceOutput)
    ensures
        result == (match (flame, chrome) {
            (Some(path), _) => TraceOutput::Flame(path),
            (None, Some(path)) => TraceOutput::Chrome(path),
            (None, None) => TraceOutput::Off,
        }),
{
    match flame {
        Some(path) => TraceOutput::Flame(path),
        None => match chrome {
            Some(path) => TraceOutput::Chrome(path),
            None => TraceOutput::Off,
        },
    }
}

/// Binding contexts changes nothing but the contexts.
pub proof fn law_binding_keeps_units(unit: SourceUnit, components: Seq<Component>)
    ensures
        in_context(unit, components).id == unit.id,
        in_context(unit, components).content == unit.content,
        in_context(unit, components).component == unit.component,
        in_context(unit, components).path == unit.path,
        in_context(in_context(unit, components), components) == in_context(unit, components),
{
}

/// Whether two source units can be analyzed in one batch.
pub open spec fn belong_together(a: SourceUnit, b: SourceUnit) -> bool {
    a.component@ == b.component@ && a.language@ == b.language@
}

/// The source units of batches, in order.
pub open spec fn batched_units(batches: Seq<WorkerBatch>) -> Seq<SourceUnit>
    decreases batches.len(),
{
    if batches.len() == 0 {
        Seq::empty()
    } else {
        batched_units(batches.drop_last()) + batches.last().source_units@
    }
}

/// Whether a batch holds some source units of one component and one language
/// for an installed worker, and not more than a limit.
pub open spec fn is_batch_for(
    batch: WorkerBatch,
    installation: WorkerInstallation,
    limit: usize,
) -> bool {
    &&& 0 < batch.source_units@.len() <= limit
    &&& batch.component == batch.source_units@[0].component
    &&& batch.language == batch.source_units@[0].language
    &&& forall|i: int|
        0 <= i < batch.source_units@.len() ==> belong_together(
            batch.source_units@[0],
            #[trigger] batch.source_units@[i],
        )
    &&& batch.worker == installation.name
    &&& batch.launch@ == installation.launch@
}

/// Whether a batch ends where it does for a reason: it is full, or the unit
/// that follows does not belong to it.
pub open spec fn ends_before(batch: WorkerBatch, following: SourceUnit, limit: usize) -> bool {
    batch.source_units@.len() == limit || !belong_together(batch.source_units@[0], following)
}

/// Divides source units into batches for one installed worker. Units that
/// follow each other share a batch while they belong together and it has room.
pub fn worker_batches(
    sources: &[SourceUnit],
    installation: &WorkerInstallation,
    limit: usize,
) -> (result: Vec<WorkerBatch>)
    requires
        limit > 0,
    ensures
        batched_units(result@) == sources@,
        forall|b: int|
            0 <= b < result@.len() ==> is_batch_for(#[trigger] result@[b], *installation, limit),
        forall|b: int|
            0 < b < result@.len() ==> ends_before(
                result@[b - 1],
                (#[trigger] result@[b]).source_units@[0],
                limit,
            ),
{
    let mut batches: Vec<WorkerBatch> = Vec::new();
    let mut i: usize = 0;
    assert(sources@.take(0) =~= Seq::<SourceUnit>::empty());
    while i < sources.len()
        invariant
            limit > 0,
            i <= sources@.len(),
            batched_units(batches@) == sources@.take(i as int),
            forall|b: int|
                0 <= b < batches@.len() ==> is_batch_for(
                    #[trigger] batches@[b],
                    *installation,
                    limit,
                ),
            forall|b: int|
                0 < b < batches@.len() ==> ends_before(
                    batches@[b - 1],
                    (#[trigger] batches@[b]).source_units@[0],
                    limit,
                ),
            batches@.len() > 0 && i < sources@.len() ==> ends_before(
                batches@.last(),
                sources@[i as int],
                limit,
            ),
        decreases sources@.len() - i,
    {
        let start: usize = i;
        let first = &sources[start];
        let mut units: Vec<SourceUnit> = Vec::new();
        units.push(first.clone());
        i = i + 1;
        while i < sources.len() && units.len() < limit && first.component.same(
            &sources[i].component,
        ) && first.language.same(&sources[i].language)
            invariant
                limit > 0,
                start < i <= sources@.len(),
                *first == sources@[start as int],
                units@ == sources@.subrange(start as int, i as int),
                0 < units@.len() <= limit,
                units@[0] == *first,
                forall|k: int|
                    0 <= k < units@.len() ==> belong_together(units@[0], #[trigger] units@[k]),
            decreases sources@.len() - i,
        {
            units.push(sources[i].clone());
            i = i + 1;
            assert(units@ =~= sources@.subrange(start as int, i as int));
        }
        let ghost added = units@;
        let ghost before = batches@;
        batches.push(
            WorkerBatch {
                component: first.component.clone(),
                language: first.language.clone(),
                worker: installation.name.clone(),
                launch: installation.launch.clone(),
                source_units: units,
            },
        );
        assert(batches@.drop_last() =~= before);
        assert(sources@.take(start as int) + added =~= sources@.take(i as int));
    }
    assert(sources@.take(i as int) =~= sources@);
    batches
}

proof fn lemma_component_position(components: Seq<Component>, id: Seq<char>, p: int)
    requires
        0 <= p <= components.len(),
        p < components.len() ==> components[p].id@ == id,
        forall|i: int| 0 <= i < p ==> (#[trigger] components[i]).id@ != id,
    ensures
        component_position(components, id) == p,
    decreases components.len(),
{
    if p > 0 {
        assert(components[0].id@ != id);
        let rest = components.drop_first();
        assert forall|i: int| 0 <= i < p - 1 implies (#[trigger] rest[i]).id@ != id by {
            assert(rest[i] == components[i + 1]);
        }
        lemma_component_position(rest, id, p - 1);
    }
}

/// A bound source unit has the configuration of the first component with its
/// component's id as its context, and is otherwise as it was.
pub proof fn law_units_are_bound_to_their_component(
    units: &[SourceUnit],
    components: &[Component],
    bound: Vec<SourceUnit>,
    u: int,
    c: int,
)
    requires
        call_ensures(bind_contexts, (units, components), Some(bound)),
        0 <= u < units@.len(),
        0 <= c < components@.len(),
        components@[c].id@ == units@[u].component@,
        forall|i: int|
            0 <= i < c ==> (#[trigger] components@[i]).id@ != units@[u].component@,
    ensures
        bound@.len() == units@.len(),
        bound@[u].context == components@[c].configuration,
        bound@[u].id == units@[u].id,
        bound@[u].path == units@[u].path,
        bound@[u].content == units@[u].content,
        bound@[u].component == units@[u].component,
        bound@[u].language == units@[u].language,
        bound@[u].origin == units@[u].origin,
{
    lemma_component_position(components@, units@[u].component@, c);
    assert(bound@[u] == in_context(units@[u], components@));
}

/// Source units are bound exactly where the manifest has a component for each.
pub proof fn law_units_without_a_component_are_refused(
    units: &[SourceUnit],
    components: &[Component],
    result: Option<Vec<SourceUnit>>,
)
    requires
        call_ensures(bind_contexts, (units, components), result),
    ensures
        result is Some <==> forall|u: int|
            0 <= u < units@.len() ==> exists|c: int|
                0 <= c < components@.len() && (#[trigger] components@[c]).id@ == (
                #[trigger] units@[u]).component@,
{
    assert forall|u: int| 0 <= u < units@.len() implies (is_covered(units@[u], components@)
        <==> exists|c: int|
        0 <= c < components@.len() && (#[trigger] components@[c]).id@ == (
        #[trigger] units@[u]).component@) by {
        lemma_component_found(components@, units@[u].component@);
        if !is_covered(units@[u], components@) {
            let id = units@[u].component@;
            assert forall|c: int| 0 <= c < components@.len() implies (
            #[trigger] components@[c]).id@ != id by {}
        } else {
            let p = component_position(components@, units@[u].component@);
            assert(components@[p].id@ == units@[u].component@);
        }
    }
}

proof fn lemma_component_found(components: Seq<Component>, id: Seq<char>)
    ensures
        0 <= component_position(components, id) <= components.len(),
        component_position(components, id) < components.len()
            ==> components[component_position(components, id)].id@ == id,
        forall|i: int|
            0 <= i < component_position(components, id) ==> (#[trigger] components[i]).id@ != id,
    decreases components.len(),
{
    if components.len() > 0 && components[0].id@ != id {
        let rest = components.drop_first();
        lemma_component_found(rest, id);
        assert forall|i: int| 0 <= i < component_position(components, id) implies (
        #[trigger] components[i]).id@ != id by {
            if i > 0 {
                assert(rest[i - 1] == components[i]);
            }
        }
    }
}

/// A warm limit lets through that many artifacts and a limit of zero all of
/// them, in the budget as in what is announced.
pub proof fn law_warm_limit_bounds_the_artifacts(
    cataloged: usize,
    limit: u32,
    budget: MaterializationBudget,
    total: usize,
)
    requires
        call_ensures(warm_budget, (limit,), budget),
        call_ensures(artifacts_total, (cataloged, limit), total),
    ensures
        limit > 0 ==> budget.remaining_artifacts == limit && total <= limit,
        limit == 0 ==> budget.remaining_artifacts == u32::MAX && total == cataloged,
        total <= cataloged,
        limit > 0 && total < cataloged ==> total == limit,
{
}

/// A processed artifact counts once: as analyzed where it was materialized, as
/// reused where it was there already, and not at all where the budget was spent
/// or it left the catalog. Only a spent budget ends the loop.
pub proof fn law_each_artifact_counts_once(
    run: &mut IndexRun,
    reports: &mut Vec<ArtifactReport>,
    artifact: ProcessedArtifact,
    step: WarmStep,
)
    requires
        call_ensures(record_artifact, (run, reports, artifact), step),
    ensures
        step == WarmStep::Stop <==> artifact.outcome is BudgetExhausted,
        final(run).dependency_analyzed - old(run).dependency_analyzed == (
        if artifact.outcome is Materialized { 1int } else { 0 }),
        final(run).dependency_reused - old(run).dependency_reused == (
        if artifact.outcome is AlreadyMaterialized { 1int } else { 0 }),
        final(run).analyzed == old(run).analyzed && final(run).reused == old(run).reused,
        final(reports)@.len() - old(reports)@.len() == (if artifact.outcome is Materialized
            || artifact.outcome is AlreadyMaterialized { 1int } else { 0 }),
        artifact.outcome is Materialized ==> final(reports)@.last().outcome
            == ReportedOutcome::Materialized && final(reports)@.last().blob_bytes
            == artifact.blob_bytes && final(reports)@.last().source_unit == artifact.source_unit,
        artifact.outcome is AlreadyMaterialized ==> final(reports)@.last().outcome
            == ReportedOutcome::Cached && final(reports)@.last().blob_bytes == 0
            && final(reports)@.last().source_unit == artifact.source_unit,
{
}

/// The stored manifest is used again exactly where there is one and no
/// configuration input changed, appeared or disappeared.
pub proof fn law_manifest_is_reused_while_nothing_changed(
    stored: bool,
    inputs: &[ConfigurationInputStatus],
    action: ManifestAction,
    changed: usize,
)
    requires
        call_ensures(manifest_action, (stored, inputs), action),
        call_ensures(changed_inputs, (inputs,), changed),
    ensures
        action is Reuse <==> stored && forall|i: int|
            0 <= i < inputs@.len() ==> (#[trigger] inputs@[i]).state is Current,
        action is Reuse <==> stored && changed == 0,
{
    lemma_changed(inputs@);
}

proof fn lemma_changed(inputs: Seq<ConfigurationInputStatus>)
    ensures
        search::count_where(
            inputs,
            |input: ConfigurationInputStatus| input.state != ConfigurationInputState::Current,
        ) == 0 <==> forall|i: int|
            0 <= i < inputs.len() ==> (#[trigger] inputs[i]).state is Current,
    decreases inputs.len(),
{
    if inputs.len() > 0 {
        let rest = inputs.drop_last();
        lemma_changed(rest);
        assert(inputs[inputs.len() - 1] == inputs.last());
        if forall|i: int| 0 <= i < inputs.len() ==> (#[trigger] inputs[i]).state is Current {
            assert forall|i: int| 0 <= i < rest.len() implies (
            #[trigger] rest[i]).state is Current by {
                assert(rest[i] == inputs[i]);
            }
        }
        if inputs.last().state is Current && forall|i: int|
            0 <= i < rest.len() ==> (#[trigger] rest[i]).state is Current {
            assert forall|i: int| 0 <= i < inputs.len() implies (
            #[trigger] inputs[i]).state is Current by {
                if i < rest.len() {
                    assert(rest[i] == inputs[i]);
                }
            }
        }
    }
}

/// One more action counts in a preview under what it does: a source as reused,
/// analyzed or removed, a dependency as a hit or a miss.
pub proof fn law_preview_counts_actions_by_what_they_do(
    plan: &IncrementalIndexPlan,
    more: &IncrementalIndexPlan,
    lengths: &[u64],
    source: IndexAction,
    dependency: DependencyAction,
    before: PlanPreview,
    after: PlanPreview,
)
    requires
        call_ensures(preview_plan, (plan, lengths), before),
        call_ensures(preview_plan, (more, lengths), after),
        more.sources@ == plan.sources@.push(source),
        more.dependencies@ == plan.dependencies@.push(dependency),
    ensures
        before.manifest == plan.manifest,
        after.reused - before.reused == (if source is Reuse { 1int } else { 0 }),
        after.analyze - before.analyze == (if source is Reanalyze { 1int } else { 0 }),
        after.removed - before.removed == (if source is Remove { 1int } else { 0 }),
        after.cache_hits - before.cache_hits == (if dependency is CacheHit { 1int } else { 0 }),
        after.cache_misses - before.cache_misses == (if dependency is CacheMiss {
            1int
        } else {
            0
        }),
        plan.sources@.len() == 0 ==> before.reused == 0 && before.analyze == 0 && before.removed
            == 0,
        plan.dependencies@.len() == 0 ==> before.cache_hits == 0 && before.cache_misses == 0,
{
    assert(more.sources@.drop_last() =~= plan.sources@);
    assert(more.dependencies@.drop_last() =~= plan.dependencies@);
}

/// One more cached blob adds its length to a preview.
pub proof fn law_preview_adds_up_the_blobs(
    plan: &IncrementalIndexPlan,
    lengths: &[u64],
    more: &[u64],
    length: u64,
    before: PlanPreview,
    after: PlanPreview,
)
    requires
        call_ensures(preview_plan, (plan, lengths), before),
        call_ensures(preview_plan, (plan, more), after),
        more@ == lengths@.push(length),
    ensures
        lengths@.len() == 0 ==> before.cached_blob_bytes == 0,
        after.cached_blob_bytes == before.cached_blob_bytes + length,
{
    assert(more@.drop_last() =~= lengths@);
}

proof fn lemma_batched(batches: Seq<WorkerBatch>, i: int) -> (at: (int, int))
    requires
        0 <= i < batched_units(batches).len(),
    ensures
        0 <= at.0 < batches.len(),
        0 <= at.1 < batches[at.0].source_units@.len(),
        batches[at.0].source_units@[at.1] == batched_units(batches)[i],
    decreases batches.len(),
{
    let rest = batches.drop_last();
    let before = batched_units(rest);
    if i < before.len() {
        let at = lemma_batched(rest, i);
        assert(rest[at.0] == batches[at.0]);
        at
    } else {
        (batches.len() - 1, i - before.len())
    }
}

/// Every source unit lies in a batch of its own component and language for the
/// installed worker, and no batch is empty or holds more than the limit.
pub proof fn law_every_source_lies_in_a_batch(
    sources: &[SourceUnit],
    installation: &WorkerInstallation,
    limit: usize,
    batches: Vec<WorkerBatch>,
    i: int,
) -> (at: (int, int))
    requires
        limit > 0,
        call_ensures(worker_batches, (sources, installation, limit), batches),
        0 <= i < sources@.len(),
    ensures
        0 <= at.0 < batches@.len(),
        0 <= at.1 < batches@[at.0].source_units@.len() <= limit,
        batches@[at.0].source_units@[at.1] == sources@[i],
        batches@[at.0].component@ == sources@[i].component@,
        batches@[at.0].language@ == sources@[i].language@,
        batches@[at.0].worker@ == installation.name@,
{
    let at = lemma_batched(batches@, i);
    assert(is_batch_for(batches@[at.0], *installation, limit));
    assert(belong_together(
        batches@[at.0].source_units@[0],
        batches@[at.0].source_units@[at.1],
    ));
    at
}

/// The slowest materializations are reported, the slowest first, and at most
/// ten; none that is left out took longer than one that is reported.
pub proof fn law_slowest_artifacts_come_first(
    reports: &[ArtifactReport],
    result: Vec<TimedArtifact>,
    i: int,
    j: int,
)
    requires
        call_ensures(slowest_artifacts, (reports,), result),
        0 <= i < j < result@.len(),
    ensures
        result@.len() <= 10,
        reports@.len() <= 10 ==> result@.len() == reports@.len(),
        result@[i].millis >= result@[j].millis,
{
    let ordered = ordering::stable_sorted(timed(reports@));
    ordering::lemma_stable_sorted_in_order(timed(reports@));
    assert(result@[i] == ordered[i] && result@[j] == ordered[j]);
    assert(!ordered[j].ranks_before(&ordered[i]));
}

/// A batch limit that is set must be a positive number; the default holds only
/// where none is set.
pub proof fn law_batch_limit_is_what_is_set(
    value: &str,
    limit: u32,
    default_limit: usize,
    set: Option<usize>,
    unset: Option<usize>,
)
    requires
        value@ == text::decimal_text(limit as nat),
        call_ensures(source_batch_limit, (Some(value), default_limit), set),
        call_ensures(source_batch_limit, (None, default_limit), unset),
    ensures
        unset == Some(default_limit),
        limit == 0 ==> set is None,
        limit > 0 ==> set is Some && set->0 == limit,
{
    let s = value@;
    text::lemma_decimal_text(limit as nat);
    assert(text::is_digit(s[0]));
    assert(text::number_digits(s) == s);
}

/// Folded stacks take precedence over a timeline, and nothing is traced where
/// neither is set.
pub proof fn law_folded_stacks_take_precedence(
    chrome: Option<String>,
    flame: Option<String>,
    output: TraceOutput,
)
    requires
        call_ensures(trace_output, (chrome, flame), output),
    ensures
        flame is Some ==> output is Flame && output->Flame_0 == flame->0,
        flame is None && chrome is Some ==> output is Chrome && output->Chrome_0 == chrome->0,
        flame is None && chrome is None ==> output is Off,
{
}

} // verus!
