use kide_core::artifact_cache::{ArtifactBlobCacheError, ArtifactBlobKey};
use kide_core::canonical::{
    BackendKey, BuildSystem, ByteRange, CallEdge, Completeness, Component, ComponentId,
    DiagnosticRecord, DiagnosticSeverity, Fingerprint, Freshness, HierarchyEdge, Language,
    OccurrenceKind, Precision, Provenance, ReferenceEdge, SourceOccurrence, SourceOrigin,
    SourceRange, SourceUnit, SourceUnitId, SymbolId, SymbolKind, SymbolRecord, TypeId, TypeRecord,
    WorkspaceId, WorkspacePath,
};
use kide_core::configuration::MavenConfiguration;
use kide_core::freshness::AnalysisInput;
use kide_core::incremental_plan::{plan_incremental_index, ManifestAction};
use kide_core::index_command::{
    accept_project_manifest, artifacts_total, bind_contexts, dependency_name,
    kotlin_worker_installation, manifest_action, manifest_action_name, measure, other_phases,
    phase_timings, preview_plan, project_manifest_request, record_artifact,
    single_batch_provenance, slowest_artifacts, source_batch_limit, trace_output, warm_budget,
    warm_limit_text, worker_batches, PlanPreview, ProcessedArtifact, ReportedOutcome, TraceOutput,
    WarmStep,
};
use kide_core::input_inventory::{ConfigurationInputState, ConfigurationInputStatus};
use kide_core::measures::{add_map, add_measures, do_sums_fit, WorkerMeasure};
use kide_core::ordered_map::OrderedMap;
use kide_core::orchestrator::{
    accept_staged, api_dependent_invalidations, batch_request, cache_hit_or_remove_invalid,
    cached_metrics, check_batch_worker, is_plain_file_name, legacy_execution_plan,
    materialization_metrics, plan_cache, plan_commit, plan_demand, plan_index_batch,
    plan_selected_batches, promotion_outcome, sha256_bytes, validate_batch,
    take_materialized, take_page, validate_execution_plan, BatchReport, CacheProbe, CoreTimings,
    DependencyCatalog, IndexOrchestratorError, IndexRun, MaterializationBudget,
    MaterializationOutcome, PublicApi, RunStep, WorkerBatch,
};
use kide_core::protocol::{
    ArtifactDescriptor, ArtifactDiscoveryResponse, ArtifactLocator,
    ArtifactMaterializationResponse, FileAnalysisSnapshot, HandshakeRequest, HandshakeResponse,
    OpaqueExecutionPlan, PhaseTiming, ProjectManifestRequest, WorkerCapabilities, WorkerCapability, WorkerEnvelope, WorkerError,
    WorkerErrorCode, WorkerIdentity, WorkerMessage, WorkerMetric, WORKER_PROTOCOL_VERSION,
};
use kide_core::store::{
    check_index_format, decode_stored_symbol, encode_stored_symbol, replace_snapshot,
    snapshot_rows, sqlite_offset, validate_range, validate_snapshot, IndexStoreError,
    StoredSymbolRecord, SYMBOL_RECORD_FORMAT_VERSION,
};
use kide_core::shown::Shown;
use kide_core::supervisor::{
    log_level, supervisor_error_envelope, LogLevel, WorkerLaunch, WorkerReply, WorkerSupervisor,
    WorkerSupervisorError,
};
use kide_core::worker_framing::FrameError;

fn source_unit(content: &str) -> SourceUnit {
    SourceUnit {
        id: SourceUnitId::new("gradle:app:main:PaymentService.kt"),
        component: ComponentId::new("gradle:app:main"),
        path: WorkspacePath::new("src/main/kotlin/PaymentService.kt"),
        language: Language::Kotlin,
        origin: SourceOrigin::Source,
        content: Fingerprint::new(content),
        context: Fingerprint::new("sha256:context-v1"),
    }
}

fn provenance() -> Provenance {
    Provenance {
        backend: "kide-kotlin-jvm".to_owned(),
        backend_version: "0.1.0".to_owned(),
        protocol_version: WORKER_PROTOCOL_VERSION,
        analysis_options: Fingerprint::new("sha256:options-v1"),
    }
}

fn snapshot(source_unit: SourceUnit) -> FileAnalysisSnapshot {
    let at = |start: u64, end: u64| SourceRange {
        source_unit: source_unit.id.clone(),
        bytes: ByteRange { start, end },
    };
    let symbol = SymbolRecord {
        id: SymbolId::new("kotlin:demo.PaymentService"),
        backend_key: BackendKey {
            backend: "kide-kotlin-jvm".to_owned(),
            schema_version: 1,
            value: "PaymentService".to_owned(),
        },
        language: Language::Kotlin,
        kind: SymbolKind::Class,
        name: "PaymentService".to_owned(),
        qualified_name: Some("demo.PaymentService".to_owned()),
        signature: None,
        component: source_unit.component.clone(),
        declaration: at(6, 26),
        name_range: at(12, 26),
        owner: None,
        modifiers: Vec::new(),
        applied_symbols: Vec::new(),
        freshness: Freshness::Fresh,
        completeness: Completeness::Complete,
        provenance: provenance(),
    };
    let occurrence = SourceOccurrence {
        range: at(20, 30),
        kind: OccurrenceKind::Call,
        enclosing_symbol: None,
        target: Some(symbol.id.clone()),
        type_id: None,
        precision: Precision::Exact,
        freshness: Freshness::Fresh,
        completeness: Completeness::Complete,
        provenance: provenance(),
    };
    FileAnalysisSnapshot {
        source_unit: source_unit.clone(),
        structural_fingerprint: None,
        public_api_fingerprint: None,
        symbols: vec![symbol.clone()],
        occurrences: vec![occurrence.clone()],
        references: vec![ReferenceEdge {
            source: occurrence.clone(),
            target: symbol.id.clone(),
            precision: Precision::Exact,
        }],
        calls: vec![CallEdge {
            source: occurrence,
            target: symbol.id.clone(),
            caller: None,
            precision: Precision::Exact,
        }],
        hierarchy: vec![HierarchyEdge {
            subtype: symbol.id.clone(),
            supertype: SymbolId::new("kotlin:demo.Service"),
            precision: Precision::Exact,
            provenance: provenance(),
        }],
        types: vec![TypeRecord {
            id: TypeId::new("kotlin:String"),
            language: Language::Kotlin,
            display: "String".to_owned(),
            backend_key: None,
            freshness: Freshness::Fresh,
            completeness: Completeness::Complete,
            provenance: provenance(),
        }],
        diagnostics: vec![DiagnosticRecord {
            source_unit: source_unit.id.clone(),
            range: None,
            severity: DiagnosticSeverity::Warning,
            code: None,
            message: "warning".to_owned(),
            freshness: Freshness::Fresh,
            completeness: Completeness::Complete,
            provenance: provenance(),
        }],
        completeness: Completeness::Complete,
        provenance: provenance(),
    }
}

#[test]
fn rejected_snapshot_keeps_the_previous_committed_snapshot() {
    let old_source = source_unit("sha256:content-v1");
    let old_snapshot = snapshot(old_source.clone());
    let stored = replace_snapshot(&old_source, &old_snapshot).expect("commits initial snapshot");

    let expected_next = source_unit("sha256:content-v2");
    let error = replace_snapshot(&expected_next, &old_snapshot)
        .err()
        .expect("content mismatch is rejected");
    assert!(matches!(error, IndexStoreError::SnapshotInputMismatch));
    assert_eq!(stored.source.content_fingerprint, "sha256:content-v1");
    assert_eq!(stored.symbols[0].name, "PaymentService");
}

#[test]
fn format_version_mismatch_is_explicit() {
    assert!(matches!(
        check_index_format(Some("5")),
        Err(IndexStoreError::IncompatibleIndexFormat { found: 5, supported: 4 })
    ));
    assert_eq!(check_index_format(Some("4")).ok(), Some(false));
    assert_eq!(check_index_format(None).ok(), Some(true));
}

#[test]
fn snapshot_with_incompatible_protocol_is_rejected_before_commit() {
    let source = source_unit("sha256:content-v1");
    let mut incompatible = snapshot(source.clone());
    incompatible.provenance.protocol_version = WORKER_PROTOCOL_VERSION + 1;

    let error = replace_snapshot(&source, &incompatible)
        .err()
        .expect("future protocol is rejected");
    assert!(matches!(
        error,
        IndexStoreError::IncompatibleWorkerProtocol { found, supported }
            if found == WORKER_PROTOCOL_VERSION + 1 && supported == WORKER_PROTOCOL_VERSION
    ));
}

#[test]
fn stored_symbols_are_framed_and_restored() {
    let source = source_unit("sha256:content-v1");
    let symbol = snapshot(source.clone()).symbols.remove(0);
    let record = StoredSymbolRecord::of(&symbol);
    let restored = record.into_symbol(
        SymbolId::new("kotlin:demo.PaymentService"),
        "PaymentService".to_owned(),
        &source,
        &provenance(),
    );
    assert_eq!(restored, symbol);
    let encoded = encode_stored_symbol(b"record");
    assert_eq!(encoded[0], SYMBOL_RECORD_FORMAT_VERSION);
    assert_eq!(decode_stored_symbol(&encoded).ok(), Some(b"record".to_vec()));
    assert!(matches!(
        decode_stored_symbol(&[SYMBOL_RECORD_FORMAT_VERSION + 1]),
        Err(IndexStoreError::IncompatibleSymbolRecordFormat { found })
            if found == SYMBOL_RECORD_FORMAT_VERSION + 1
    ));
    assert!(matches!(
        decode_stored_symbol(&[]),
        Err(IndexStoreError::IncompatibleSymbolRecordFormat { found: 0 })
    ));
}

#[test]
fn rows_carry_every_file_owned_fact() {
    let source = source_unit("sha256:content-v1");
    let rows = snapshot_rows(&snapshot(source)).expect("offsets fit");
    assert_eq!(rows.symbols[0].name_start_byte, 12);
    assert_eq!((rows.occurrences[0].start_byte, rows.occurrences[0].end_byte), (20, 30));
    assert_eq!(rows.occurrences[0].occurrence_kind, "Call");
    assert_eq!(rows.references[0].target_symbol_id, "kotlin:demo.PaymentService");
    assert_eq!(rows.calls[0].start_byte, 20);
    assert_eq!(rows.hierarchy[0].supertype_symbol_id, "kotlin:demo.Service");
    assert_eq!(rows.types[0].type_id, "kotlin:String");
    assert_eq!(rows.diagnostics[0].severity, "Warning");
    assert_eq!(rows.diagnostics[0].range, None);
}

#[test]
fn snapshots_of_other_units_or_ranges_are_refused() {
    let source = source_unit("sha256:content-v1");
    let mut other = source_unit("sha256:content-v1");
    other.id = SourceUnitId::new("other");
    assert!(matches!(
        validate_snapshot(&source, &snapshot(other.clone())),
        Err(IndexStoreError::SourceUnitMismatch)
    ));
    let mut foreign = snapshot(source.clone());
    foreign.symbols[0].declaration.source_unit = other.id;
    assert!(matches!(
        validate_snapshot(&source, &foreign),
        Err(IndexStoreError::FactOwnedByOtherSource { .. })
    ));
    assert!(matches!(
        validate_range("symbol", &ByteRange { start: 3, end: 2 }),
        Err(IndexStoreError::InvalidRange { start: 3, end: 2, .. })
    ));
    assert!(matches!(
        sqlite_offset(u64::MAX),
        Err(IndexStoreError::ByteOffsetOutOfRange { value: u64::MAX })
    ));
    assert_eq!(sqlite_offset(7).ok(), Some(7));
}

fn unit(id: &str, content: &str) -> SourceUnit {
    SourceUnit { id: SourceUnitId::new(id), ..source_unit(content) }
}

#[test]
fn unchanged_sources_need_no_batch() {
    let current = [unit("a", "1"), unit("b", "2")];
    let persisted = [unit("a", "1"), unit("b", "1"), unit("c", "1")];
    let inputs: Vec<AnalysisInput> = persisted
        .iter()
        .map(|source_unit| AnalysisInput {
            source_unit: source_unit.clone(),
            provenance: provenance(),
        })
        .collect();
    let plan = plan_index_batch(
        &current,
        &persisted,
        &inputs,
        &Some(provenance()),
        &Some(Fingerprint::new("m")),
        &Fingerprint::new("m"),
    );
    assert_eq!(plan.summary.reused, 1);
    assert_eq!(plan.summary.reanalyze, vec![unit("b", "2")]);
    assert_eq!(plan.summary.removed, vec![SourceUnitId::new("c")]);
    assert!(!plan.catalog_needed);
    assert_eq!(plan.steps.last(), Some(&RunStep::PublishManifest));
    let request = batch_request(
        &WorkspaceId::new("w"),
        &Fingerprint::new("m"),
        plan.summary.reanalyze,
        legacy_execution_plan(&Fingerprint::new("m")),
    );
    assert_eq!(request.source_units, vec![unit("b", "2")]);
    assert_eq!(request.execution_plan, legacy_execution_plan(&Fingerprint::new("m")));
}

#[test]
fn batches_answer_what_was_requested() {
    let requested = [unit("a", "1"), unit("b", "1")];
    let a = snapshot(unit("a", "1"));
    let b = snapshot(unit("b", "1"));
    assert!(validate_batch(&requested, &[b.clone(), a.clone()]).is_ok());
    assert!(matches!(
        validate_batch(&requested, &[a.clone()]),
        Err(IndexOrchestratorError::MissingSnapshot { source_unit }) if source_unit == "b"
    ));
    assert!(matches!(
        validate_batch(&requested[..1], &[a.clone(), b.clone()]),
        Err(IndexOrchestratorError::UnexpectedSnapshot { source_unit }) if source_unit == "b"
    ));
    let mut changed = b.clone();
    changed.public_api_fingerprint = Some(Fingerprint::new("api-2"));
    let plan = plan_commit(
        &requested,
        &[changed, a],
        &[PublicApi {
            source_unit: SourceUnitId::new("b"),
            fingerprint: Some(Fingerprint::new("api-1")),
        }],
        &[Vec::new(), vec![SourceUnitId::new("a"), SourceUnitId::new("d")]],
    );
    assert_eq!(plan.entries, vec![1, 0]);
    assert_eq!(plan.removed, vec![SourceUnitId::new("d")]);
    assert!(api_dependent_invalidations(
        &Some(Fingerprint::new("x")),
        &Some(Fingerprint::new("x")),
        &[SourceUnitId::new("d")]
    )
    .is_empty());
}

fn batch(program: &str, units: Vec<SourceUnit>) -> WorkerBatch {
    WorkerBatch {
        component: ComponentId::new("gradle:app:main"),
        language: Language::Kotlin,
        worker: program.to_owned(),
        launch: WorkerLaunch::new(program),
        source_units: units,
    }
}

#[test]
fn equal_launches_share_one_worker() {
    let fingerprint = Fingerprint::new("m");
    let current = [unit("a", "1"), unit("b", "1"), unit("c", "1")];
    let batches = [
        batch("kotlin", vec![unit("a", "1")]),
        batch("java", vec![unit("b", "1")]),
        batch("kotlin", vec![unit("c", "1")]),
    ];
    let plan = plan_selected_batches(
        &current,
        &[],
        &batches,
        0,
        &None,
        &fingerprint,
        &legacy_execution_plan(&fingerprint),
    )
    .expect("plans");
    assert_eq!(plan.workers, vec![0, 1]);
    assert_eq!(plan.batches.iter().map(|batch| batch.worker).collect::<Vec<_>>(), vec![0, 1, 0]);
    assert!(plan.catalog_needed);
    assert!(matches!(
        plan_selected_batches(
            &current,
            &[],
            &batches,
            2,
            &None,
            &fingerprint,
            &legacy_execution_plan(&fingerprint)
        ),
        Err(IndexOrchestratorError::UnsupportedBatches { count: 2 })
    ));
    let other = OpaqueExecutionPlan {
        backend: "fixture".to_owned(),
        resolved_fingerprint: Fingerprint::new("n"),
        payload: Vec::new(),
    };
    assert!(matches!(
        validate_execution_plan(&fingerprint, &other),
        Err(IndexOrchestratorError::ExecutionPlanManifestMismatch { .. })
    ));
}

fn capabilities(languages: Vec<Language>) -> WorkerCapabilities {
    WorkerCapabilities {
        identity: WorkerIdentity {
            backend: "kide-kotlin-jvm".to_owned(),
            backend_version: "0.1.0".to_owned(),
        },
        protocol_version: WORKER_PROTOCOL_VERSION,
        languages,
        capabilities: vec![WorkerCapability::FileAnalysisSnapshot],
        semantic_query_capabilities: Vec::new(),
    }
}

#[test]
fn a_worker_has_to_stay_compatible() {
    let batch = batch("kotlin", vec![unit("a", "1")]);
    assert!(check_batch_worker(&capabilities(vec![Language::Kotlin]), &batch).is_ok());
    assert!(matches!(
        check_batch_worker(&capabilities(vec![Language::Java]), &batch),
        Err(IndexOrchestratorError::WorkerNoLongerCompatible { .. })
    ));
}

fn component(id: &str, configuration: &str) -> Component {
    Component {
        id: ComponentId::new(id),
        name: id.to_owned(),
        build_system: BuildSystem::Gradle,
        root: WorkspacePath::new("app"),
        languages: vec![Language::Kotlin],
        configuration: Fingerprint::new(configuration),
    }
}

fn descriptor(id: &str, component: &str, context: &str) -> ArtifactDescriptor {
    ArtifactDescriptor {
        source_unit: SourceUnit {
            id: SourceUnitId::new(id),
            component: ComponentId::new(component),
            path: WorkspacePath::new(".kide/dependencies/a.jar"),
            language: Language::Java,
            origin: SourceOrigin::Dependency,
            content: Fingerprint::new("sha256:a"),
            context: Fingerprint::new(context),
        },
        provenance: provenance(),
        resolved_identity: None,
        symbol_locators: Vec::new(),
    }
}

fn page(artifacts: Vec<ArtifactDescriptor>, next_cursor: Option<&str>) -> ArtifactDiscoveryResponse {
    ArtifactDiscoveryResponse {
        artifacts,
        artifact_locators: vec![ArtifactLocator {
            source_unit: SourceUnitId::new("a"),
            locator: "/repo/a.jar".to_owned(),
        }],
        next_cursor: next_cursor.map(str::to_owned),
    }
}

#[test]
fn catalogs_are_collected_page_by_page() {
    let components = [component("main", "ctx")];
    let mut catalog = DependencyCatalog::new();
    assert!(catalog
        .accept_page(&components, &page(vec![descriptor("b", "main", "ctx")], Some("p-2")))
        .expect("accepts"));
    assert_eq!(catalog.cursor, Some("p-2".to_owned()));
    assert!(!catalog
        .accept_page(&components, &page(vec![descriptor("a", "main", "ctx")], None))
        .expect("accepts"));
    assert!(matches!(
        DependencyCatalog::new()
            .accept_page(&components, &page(vec![descriptor("a", "main", "other")], None)),
        Err(IndexOrchestratorError::DependencyContextMismatch { .. })
    ));
    assert!(matches!(
        DependencyCatalog::new()
            .accept_page(&components, &page(vec![descriptor("a", "test", "ctx")], None)),
        Err(IndexOrchestratorError::UnknownDependencyComponent { component }) if component == "test"
    ));
    let ids: Vec<String> = catalog
        .into_descriptors()
        .iter()
        .map(|descriptor| descriptor.source_unit.id.as_str().to_owned())
        .collect();
    assert_eq!(ids, vec!["a", "b"]);
}

#[test]
fn materialization_stays_inside_its_budget() {
    let mut budget = MaterializationBudget { remaining_artifacts: 1 };
    assert_eq!(
        plan_demand(true, true, &mut budget),
        Some(MaterializationOutcome::AlreadyMaterialized)
    );
    assert_eq!(
        plan_demand(false, false, &mut budget),
        Some(MaterializationOutcome::NotCataloged)
    );
    assert_eq!(plan_demand(false, true, &mut budget), None);
    assert_eq!(budget.remaining_artifacts, 0);
    assert_eq!(
        plan_cache(true, false, &mut budget),
        Some(MaterializationOutcome::BudgetExhausted)
    );
    assert_eq!(promotion_outcome(true), MaterializationOutcome::Materialized);
    assert_eq!(promotion_outcome(false), MaterializationOutcome::AlreadyMaterialized);
    assert_eq!(cache_hit_or_remove_invalid(&Ok(true)), CacheProbe::Hit);
    assert_eq!(cache_hit_or_remove_invalid(&Ok(false)), CacheProbe::Miss);
    assert_eq!(
        cache_hit_or_remove_invalid(&Err(ArtifactBlobCacheError::InvalidHeader)),
        CacheProbe::RemoveInvalid
    );
    assert_eq!(
        cache_hit_or_remove_invalid(&Err(ArtifactBlobCacheError::StagedChecksumMismatch)),
        CacheProbe::Fail
    );
}

#[test]
fn staged_artifacts_name_their_digest_and_a_plain_file() {
    let digest = Fingerprint::new(format!("sha256:{}", "ab".repeat(32)));
    assert_eq!(sha256_bytes(&digest), Some(vec![0xab; 32]));
    assert_eq!(sha256_bytes(&Fingerprint::new("sha256:ab")), None);
    assert_eq!(accept_staged(&digest, "artifact.kide").ok(), Some(vec![0xab; 32]));
    assert!(accept_staged(&digest, "../artifact.kide").is_err());
    assert!(!is_plain_file_name("a/b") && !is_plain_file_name("..") && !is_plain_file_name(""));
    assert!(is_plain_file_name("artifact.kide"));
}

fn measured(name: &str, value: u64) -> WorkerMeasure {
    WorkerMeasure { name: name.to_owned(), value }
}

fn timed(phase: &str, elapsed_millis: u64) -> PhaseTiming {
    PhaseTiming { phase: phase.to_owned(), elapsed_millis }
}

fn counted(name: &str, value: u64) -> WorkerMetric {
    WorkerMetric { name: name.to_owned(), value }
}

#[test]
fn measures_are_summed_by_name() {
    let mut totals = OrderedMap::new();
    let measures = [measured("b", 2), measured("a", 1), measured("b", 3)];
    assert!(do_sums_fit(&totals, &measures));
    add_measures(&mut totals, &measures);
    assert_eq!(totals.get("b"), Some(&5));
    assert_eq!(totals.get("a"), Some(&1));
    assert!(!do_sums_fit(&totals, &[measured("b", u64::MAX)]));
    let mut reversed = OrderedMap::new();
    add_measures(&mut reversed, &[measured("b", 3), measured("b", 2), measured("a", 1)]);
    assert_eq!(reversed.get("b"), totals.get("b"));
    let mut doubled = OrderedMap::new();
    add_map(&mut doubled, &totals);
    add_map(&mut doubled, &reversed);
    assert_eq!(doubled.get("b"), Some(&10));
    assert_eq!(measure(&totals, "a"), 1);
    assert_eq!(measure(&totals, "z"), 0);
}

#[test]
fn runs_add_up_their_batches() {
    let mut run = IndexRun::new(3);
    run.record_batch(BatchReport {
        component: "main".to_owned(),
        language: "Kotlin".to_owned(),
        source_units: 2,
        committed: 2,
        worker_millis: 10,
        commit_millis: 5,
        timings: vec![timed("analyze", 7)],
        metrics: vec![counted("files", 2)],
    });
    assert_eq!((run.reused, run.analyzed), (3, 2));
    assert_eq!((run.source_worker_millis, run.source_commit_millis), (10, 5));
    assert_eq!(run.worker_phase_millis.get("analyze"), Some(&7));
    assert_eq!(run.batches.len(), 1);
    let metrics = materialization_metrics(
        true,
        &[timed("analyze", 4)],
        &[],
        CoreTimings {
            cache_check: 1,
            staged_verify: 2,
            staged_checksum: 3,
            cache_publish: 4,
            staging_cleanup: 5,
        },
    );
    assert!(metrics.promoted);
    run.record_materialization_metrics(&metrics);
    assert_eq!(run.worker_phase_millis.get("analyze"), Some(&11));
    assert!(!cached_metrics(9).promoted);
}

#[test]
fn warming_reports_what_it_did() {
    assert_eq!(warm_budget(0).remaining_artifacts, u32::MAX);
    assert_eq!(warm_budget(3).remaining_artifacts, 3);
    assert_eq!(artifacts_total(10, 0), 10);
    assert_eq!(artifacts_total(10, 3), 3);
    assert_eq!(warm_limit_text(3), "3");
    assert_eq!(dependency_name(Some("a.jar"), &WorkspacePath::new("x/b.jar")), "a.jar");
    assert_eq!(dependency_name(None, &WorkspacePath::new("x/b.jar")), "x/b.jar");
    let artifact = |id: &str, millis: u64, outcome: MaterializationOutcome| ProcessedArtifact {
        source_unit: SourceUnitId::new(id),
        component: ComponentId::new("main"),
        dependency: id.to_owned(),
        millis,
        blob_bytes: 1,
        outcome,
        metrics: None,
    };
    let mut run = IndexRun::new(0);
    let mut reports = Vec::new();
    let first = artifact("a", 5, MaterializationOutcome::Materialized);
    assert_eq!(record_artifact(&mut run, &mut reports, first), WarmStep::Next);
    let second = artifact("b", 9, MaterializationOutcome::AlreadyMaterialized);
    assert_eq!(record_artifact(&mut run, &mut reports, second), WarmStep::Next);
    let third = artifact("c", 1, MaterializationOutcome::BudgetExhausted);
    assert_eq!(record_artifact(&mut run, &mut reports, third), WarmStep::Stop);
    assert_eq!((run.dependency_analyzed, run.dependency_reused), (1, 1));
    assert_eq!(reports[1].outcome, ReportedOutcome::Cached);
    let slowest = slowest_artifacts(&reports);
    assert_eq!(slowest[0].millis, 9);
    assert_eq!(slowest[0].index, 1);
}

#[test]
fn worker_phases_are_named_or_listed() {
    let mut phases = OrderedMap::new();
    add_measures(&mut phases, &[measured("context_import", 3), measured("zeta", 4)]);
    assert_eq!(phase_timings(&phases).context_import, 3);
    assert_eq!(phase_timings(&phases).worker_total, 0);
    assert!(other_phases(&phases).contains("zeta=4"));
    assert!(!other_phases(&phases).contains("context_import"));
    assert_eq!(source_batch_limit(None, 64), Some(64));
    assert_eq!(source_batch_limit(Some("7"), 64), Some(7));
    assert_eq!(source_batch_limit(Some("0"), 64), None);
    assert_eq!(source_batch_limit(Some("x"), 64), None);
}

#[test]
fn sources_take_the_context_of_their_component() {
    let units = [source_unit("1")];
    let bound = bind_contexts(&units, &[component("gradle:app:main", "ctx")]).expect("binds");
    assert_eq!(bound[0].context, Fingerprint::new("ctx"));
    assert_eq!(bound[0].id, units[0].id);
    assert!(bind_contexts(&units, &[component("other", "ctx")]).is_none());
    let provenance = single_batch_provenance(&capabilities(vec![Language::Kotlin]), &bound);
    assert_eq!(provenance.backend, "kide-kotlin-jvm");
    assert_eq!(provenance.analysis_options, Fingerprint::new("ctx"));
}

#[test]
fn manifests_are_requested_and_accepted() {
    let request = project_manifest_request();
    assert!(matches!(
        request.message,
        WorkerMessage::ProjectManifestRequest(ProjectManifestRequest { .. })
    ));
    let other = WorkerMessage::HandshakeRequest(HandshakeRequest { core_version: "0".to_owned() });
    assert!(accept_project_manifest(other).is_err());
    let installation = kotlin_worker_installation(
        "/bin/worker",
        "/work",
        Some("/gradle"),
        1,
        MavenConfiguration { best_effort_dependencies: true },
    );
    assert_eq!(installation.launch.program, "/bin/worker");
    assert!(installation.build_systems.contains(&BuildSystem::Gradle));
}

fn reply(id: &str, message: WorkerMessage) -> WorkerReply {
    WorkerReply::Envelope(WorkerEnvelope::new(id, message))
}

#[test]
fn supervisors_start_workers_when_needed() {
    let mut supervisor = WorkerSupervisor::new(WorkerLaunch::new("worker"));
    let preparation = supervisor
        .prepare(WORKER_PROTOCOL_VERSION, 0, false)
        .expect("prepares");
    assert!(preparation.start && !preparation.stop);
    supervisor.started(0);
    assert_eq!(supervisor.start_count(), 1);
    supervisor.register("r-1", 1).expect("registers");
    assert!(matches!(
        supervisor.register("r-1", 1),
        Err(WorkerSupervisorError::DuplicateRequestId { .. })
    ));
    let hello = || WorkerMessage::HandshakeResponse(HandshakeResponse {
        capabilities: capabilities(Vec::new()),
    });
    let envelope = supervisor.accept("r-1", reply("r-1", hello()), 2).expect("accepts");
    assert!(supervisor.accept_handshake(envelope.message).is_ok());
    let again = supervisor
        .prepare(WORKER_PROTOCOL_VERSION, 3, false)
        .expect("prepares");
    assert!(!again.start);
    assert!(supervisor.is_running(false));
    assert!(!supervisor.is_running(true));
}

#[test]
fn broken_replies_stop_the_worker() {
    let started = || {
        let mut supervisor = WorkerSupervisor::new(WorkerLaunch::new("worker"));
        supervisor.started(0);
        supervisor.register("r-1", 0).expect("registers");
        supervisor
    };
    let mut supervisor = started();
    let hello = || {
        WorkerMessage::HandshakeRequest(HandshakeRequest { core_version: "0".to_owned() })
    };
    assert!(matches!(
        supervisor.accept("r-1", reply("r-2", hello()), 1),
        Err(WorkerSupervisorError::RequestIdMismatch { .. })
    ));
    let mut supervisor = started();
    assert!(matches!(
        supervisor.accept("r-1", WorkerReply::TimedOut, 1),
        Err(WorkerSupervisorError::TimedOut { timeout_millis: 30_000 })
    ));
    assert!(!supervisor.is_running(false));
    let mut supervisor = started();
    assert!(matches!(
        supervisor.accept("r-1", WorkerReply::Disconnected, 1),
        Err(WorkerSupervisorError::Exited)
    ));
    let error = WorkerError {
        code: WorkerErrorCode::AnalysisFailed,
        message: "failed".to_owned(),
        retryable: true,
        supported_protocol_version: 1,
        received_protocol_version: None,
    };
    let mut supervisor = started();
    assert!(matches!(
        supervisor.accept("r-1", reply("r-1", WorkerMessage::Error(error)), 1),
        Err(WorkerSupervisorError::WorkerReported { .. })
    ));
    let mut supervisor = started();
    assert!(matches!(
        supervisor.accept_handshake(hello()),
        Err(WorkerSupervisorError::InvalidHandshake { .. })
    ));
    assert!(matches!(
        WorkerSupervisor::new(WorkerLaunch::new("worker")).prepare(9, 0, false),
        Err(WorkerSupervisorError::IncompatibleProtocol { found: 9, .. })
    ));
}

#[test]
fn idle_workers_are_reaped() {
    let mut supervisor = WorkerSupervisor::new(WorkerLaunch::new("worker"));
    supervisor.started(1_000);
    assert!(!supervisor.reap_idle(30_999));
    assert!(supervisor.reap_idle(31_000));
    assert!(!supervisor.is_running(false));
}

#[test]
fn supervisor_errors_are_enveloped() {
    let envelope = supervisor_error_envelope("r-1", WorkerSupervisorError::Exited);
    assert_eq!(envelope.request_id, "r-1");
    assert!(matches!(
        envelope.message,
        WorkerMessage::Error(WorkerError { message, .. }) if message == "worker exited before a response was available"
    ));
    assert_eq!(log_level("12:00 ERROR worker: failed"), LogLevel::Error);
    assert_eq!(log_level("12:00 WARN worker: slow"), LogLevel::Warn);
    assert_eq!(log_level("12:00 INFO worker: ready"), LogLevel::Info);
    assert_eq!(log_level("ERROR"), LogLevel::Debug);
}

fn message(error: WorkerSupervisorError) -> String {
    let text = error.message();
    let envelope = supervisor_error_envelope("r-1", error);
    match envelope.message {
        WorkerMessage::Error(reported) => assert_eq!(reported.message, text),
        other => panic!("unexpected message {other:?}"),
    }
    text
}

#[test]
fn supervisor_errors_say_what_went_wrong() {
    assert_eq!(
        message(WorkerSupervisorError::Start {
            program: "worker".to_owned(),
            source: "not found".to_owned(),
        }),
        "failed to start worker worker: not found"
    );
    assert_eq!(
        message(WorkerSupervisorError::Frame(FrameError::UnexpectedEnd)),
        "worker pipe framing failed: protobuf frame I/O failed: failed to fill whole buffer"
    );
    let frame = |error: FrameError| error.message();
    assert_eq!(frame(FrameError::Io("closed".to_owned())), "protobuf frame I/O failed: closed");
    assert_eq!(frame(FrameError::InvalidLength), "invalid protobuf frame length");
    assert_eq!(
        frame(FrameError::LengthMismatch),
        "protobuf frame length does not match its payload"
    );
    assert_eq!(
        frame(FrameError::Decode("bad tag".to_owned())),
        "protobuf payload failed to decode: bad tag"
    );
    assert_eq!(
        message(WorkerSupervisorError::InvalidResponse("bad tag".to_owned())),
        "worker emitted an invalid protobuf envelope: bad tag"
    );
    assert_eq!(
        message(WorkerSupervisorError::RequestIdMismatch {
            expected: "r\"1".to_owned(),
            received: "r-2".to_owned(),
        }),
        "worker response request ID \"r-2\" does not match request \"r\\\"1\""
    );
    assert_eq!(
        message(WorkerSupervisorError::DuplicateRequestId { request_id: "r-1".to_owned() }),
        "request ID \"r-1\" has already been used by this worker process"
    );
    assert_eq!(
        message(WorkerSupervisorError::IncompatibleProtocol { found: 9, supported: 1 }),
        "worker response uses incompatible protocol 9; supported protocol is 1"
    );
    let error = || WorkerError {
        code: WorkerErrorCode::AnalysisFailed,
        message: "no \"K2\" session".to_owned(),
        retryable: true,
        supported_protocol_version: 1,
        received_protocol_version: Some(2),
    };
    assert_eq!(
        message(WorkerSupervisorError::WorkerReported { error: error() }),
        format!("worker reported {:?}", error())
    );
    let received = || WorkerMessage::HandshakeRequest(HandshakeRequest {
        core_version: "0.1.0".to_owned(),
    });
    assert_eq!(
        message(WorkerSupervisorError::InvalidHandshake { received: Box::new(received()) }),
        format!("handshake response had kind {:?}, expected handshake_response", received())
    );
}

#[test]
fn timeouts_are_shown_as_durations() {
    for (timeout_millis, shown) in
        [(0, "0ns"), (250, "250ms"), (999, "999ms"), (1_500, "1.5s"), (30_000, "30s"), (61_007, "61.007s")]
    {
        assert_eq!(
            message(WorkerSupervisorError::TimedOut { timeout_millis }),
            format!("worker did not respond within {shown}")
        );
        let duration = std::time::Duration::from_millis(timeout_millis);
        assert_eq!(format!("{duration:?}"), shown);
    }
}

#[test]
fn messages_are_shown_as_they_are_debugged() {
    let plan = || legacy_execution_plan(&Fingerprint::new("m"));
    let shown = [
        WorkerMessage::ProjectManifestRequest(ProjectManifestRequest {
            workspace_root: WorkspacePath::new("."),
        }),
        WorkerMessage::HandshakeResponse(HandshakeResponse {
            capabilities: capabilities(vec![Language::Kotlin, Language::Java]),
        }),
        WorkerMessage::AnalyzeBatchRequest(batch_request(
            &WorkspaceId::new("w"),
            &Fingerprint::new("m"),
            vec![source_unit("sha256:content")],
            plan(),
        )),
        WorkerMessage::ArtifactDiscoveryRequest(DependencyCatalog::new().request(plan())),
        WorkerMessage::ArtifactDiscoveryResponse(page(
            vec![descriptor("a", "main", "ctx")],
            Some("p-2"),
        )),
    ];
    for message in shown {
        assert_eq!(message.show(), format!("{message:?}"));
    }
    let analyzed = snapshot(source_unit("sha256:content"));
    assert_eq!(analyzed.show(), format!("{analyzed:?}"));
}

#[test]
fn workers_are_told_to_carry_on_without_dependencies() {
    let names = |best_effort_dependencies: bool| {
        kotlin_worker_installation(
            "/bin/worker",
            "/work",
            None,
            0,
            MavenConfiguration { best_effort_dependencies },
        )
        .launch
        .environment
        .iter()
        .map(|variable| (variable.name.clone(), variable.value.clone()))
        .collect::<Vec<_>>()
    };
    let setting = ("KIDE_MAVEN_BEST_EFFORT".to_owned(), "1".to_owned());
    assert!(names(true).contains(&setting));
    assert_eq!(names(false).len(), 2);
    assert!(!names(false).contains(&setting));
}

#[test]
fn replies_to_catalog_and_materialization_requests_are_told_apart() {
    let request = DependencyCatalog::new().request(legacy_execution_plan(&Fingerprint::new("m")));
    assert_eq!(request.workspace_root, WorkspacePath::new("."));
    assert_eq!(request.cursor, None);
    assert_eq!(request.execution_plan.backend, "legacy");
    let accepted = take_page(WorkerMessage::ArtifactDiscoveryResponse(page(Vec::new(), None)));
    assert_eq!(accepted, Ok(page(Vec::new(), None)));
    let staged = || ArtifactMaterializationResponse {
        staged_filename: "artifact.kide".to_owned(),
        byte_length: 7,
        sha256: Fingerprint::new("sha256:staged"),
        blob_format_version: 1,
        timings: vec![timed("artifact_total", 3)],
        metrics: Vec::new(),
    };
    let reply = || WorkerMessage::ArtifactMaterializationResponse(Box::new(staged()));
    assert_eq!(take_materialized(reply()), Ok(staged()));
    assert_eq!(
        take_page(reply()),
        Err(IndexOrchestratorError::InvalidResponse { received: Box::new(reply()) })
    );
    let other = || WorkerMessage::ArtifactDiscoveryResponse(page(Vec::new(), None));
    assert_eq!(
        take_materialized(other()),
        Err(IndexOrchestratorError::InvalidResponse { received: Box::new(other()) })
    );
}

fn input(state: ConfigurationInputState) -> ConfigurationInputStatus {
    ConfigurationInputStatus {
        path: WorkspacePath::new("build.gradle.kts"),
        state,
        persisted_fingerprint: None,
        current_fingerprint: None,
        components: Vec::new(),
    }
}

#[test]
fn plans_are_previewed_without_a_worker() {
    assert_eq!(
        manifest_action(true, &[input(ConfigurationInputState::Current)]),
        ManifestAction::Reuse
    );
    assert_eq!(
        manifest_action(true, &[input(ConfigurationInputState::Changed)]),
        ManifestAction::Resolve
    );
    assert_eq!(manifest_action(false, &[]), ManifestAction::Resolve);
    assert_eq!(manifest_action_name(ManifestAction::Reuse), "reuse");
    assert_eq!(manifest_action_name(ManifestAction::Resolve), "resolve_required");
    let cached = descriptor("a", "main", "ctx");
    let mut absent = descriptor("b", "main", "ctx");
    absent.source_unit.content = Fingerprint::new("sha256:b");
    let available = ArtifactBlobKey::for_descriptor(&cached).filename();
    let dependencies = [cached, absent];
    let plan = plan_incremental_index(
        ManifestAction::Reuse,
        &[unit("a", "1"), unit("b", "2")],
        &[unit("a", "1"), unit("b", "1"), unit("c", "1")],
        &dependencies,
        &dependencies,
        |key: &ArtifactBlobKey| key.filename() == available,
    );
    assert_eq!(
        preview_plan(&plan, &[40, 2]),
        PlanPreview {
            manifest: ManifestAction::Reuse,
            reused: 1,
            analyze: 1,
            removed: 1,
            cache_hits: 1,
            cache_misses: 1,
            cached_blob_bytes: 42,
        }
    );
}

#[test]
fn folded_stacks_take_precedence_over_a_timeline() {
    let chrome = || Some("/tmp/kide.json".to_owned());
    let flame = || Some("/tmp/kide.folded".to_owned());
    assert_eq!(trace_output(None, None), TraceOutput::Off);
    assert_eq!(trace_output(chrome(), None), TraceOutput::Chrome("/tmp/kide.json".to_owned()));
    assert_eq!(trace_output(None, flame()), TraceOutput::Flame("/tmp/kide.folded".to_owned()));
    assert_eq!(trace_output(chrome(), flame()), TraceOutput::Flame("/tmp/kide.folded".to_owned()));
}

#[test]
fn refused_runs_say_why() {
    let run = |error: IndexOrchestratorError| error.message();
    assert_eq!(
        run(IndexOrchestratorError::InvalidStagedArtifact),
        "worker returned invalid staged artifact metadata"
    );
    assert_eq!(
        run(IndexOrchestratorError::UnexpectedSnapshot { source_unit: "b".to_owned() }),
        "worker returned an analysis response with an unexpected source unit b"
    );
    assert_eq!(
        run(IndexOrchestratorError::MissingSnapshot { source_unit: "b".to_owned() }),
        "worker did not return a snapshot for requested source unit b"
    );
    let received = || WorkerMessage::ArtifactDiscoveryResponse(page(Vec::new(), None));
    assert_eq!(
        run(IndexOrchestratorError::InvalidResponse { received: Box::new(received()) }),
        format!("worker returned {:?}, expected analysis_batch_response", received())
    );
    assert_eq!(
        run(IndexOrchestratorError::UnsupportedBatches { count: 2 }),
        "no compatible worker for 2 source batch(es)"
    );
    let (a, e) = (|| Fingerprint::new("sha256:a"), || Fingerprint::new("sha256:e"));
    assert_eq!(
        run(IndexOrchestratorError::ExecutionPlanManifestMismatch {
            backend: "legacy".to_owned(),
            actual: a(),
            expected: e(),
        }),
        format!(
            "execution plan from legacy targets {:?}, but the resolved manifest is {:?}",
            a(),
            e()
        )
    );
    assert_eq!(
        run(IndexOrchestratorError::WorkerNoLongerCompatible {
            worker: "kotlin-jvm".to_owned(),
            component: "main".to_owned(),
            language: Language::Kotlin,
        }),
        "worker kotlin-jvm no longer supports batch main (Kotlin)"
    );
    assert_eq!(
        run(IndexOrchestratorError::DependencyContextMismatch {
            component: "main".to_owned(),
            expected: e(),
            actual: a(),
        }),
        format!(
            "dependency descriptor for component main used context {:?}, expected resolved context {:?}",
            a(),
            e()
        )
    );
    assert_eq!(
        run(IndexOrchestratorError::UnknownDependencyComponent { component: "test".to_owned() }),
        "dependency descriptor belongs to unknown resolved component test"
    );
    let store = |error: IndexStoreError| error.message();
    assert_eq!(
        store(IndexStoreError::IncompatibleSymbolRecordFormat { found: 9 }),
        "symbol record binary format 9 is incompatible"
    );
    assert_eq!(
        store(IndexStoreError::IncompatibleIndexFormat { found: 3, supported: 4 }),
        "index format 3 is incompatible; supported format is 4"
    );
    assert_eq!(
        store(IndexStoreError::IncompatibleWorkerProtocol { found: 3, supported: 1 }),
        "worker protocol 3 is incompatible; supported protocol is 1"
    );
    assert_eq!(
        store(IndexStoreError::SourceUnitMismatch),
        "snapshot source unit does not match the source unit Core requested"
    );
    assert_eq!(
        store(IndexStoreError::SnapshotInputMismatch),
        "snapshot content or context fingerprint changed before commit"
    );
    assert_eq!(
        store(IndexStoreError::FactOwnedByOtherSource {
            record: "symbol",
            expected: "a".to_owned(),
            actual: "b".to_owned(),
        }),
        "symbol belongs to b, not snapshot source unit a"
    );
    assert_eq!(
        store(IndexStoreError::InvalidRange { record: "call", start: 5, end: 2 }),
        "call has an invalid byte range 5..2"
    );
    assert_eq!(
        store(IndexStoreError::ByteOffsetOutOfRange { value: u64::MAX }),
        "byte offset 18446744073709551615 cannot be represented by SQLite"
    );
}

#[test]
fn units_that_belong_together_share_a_batch_while_it_has_room() {
    let of = |id: &str, component: &str, language: Language| SourceUnit {
        id: SourceUnitId::new(id),
        component: ComponentId::new(component),
        path: WorkspacePath::new(id),
        language,
        origin: SourceOrigin::Source,
        content: Fingerprint::new("sha256:content"),
        context: Fingerprint::new("sha256:context"),
    };
    let sources = [
        of("a", "main", Language::Kotlin),
        of("b", "main", Language::Kotlin),
        of("c", "main", Language::Kotlin),
        of("d", "main", Language::Java),
        of("e", "test", Language::Java),
    ];
    let installation = kotlin_worker_installation(
        "/bin/worker",
        "/work",
        None,
        0,
        MavenConfiguration { best_effort_dependencies: true },
    );
    let batches = worker_batches(&sources, &installation, 2);
    let ids: Vec<Vec<&str>> = batches
        .iter()
        .map(|batch| batch.source_units.iter().map(|unit| unit.id.as_str()).collect())
        .collect();
    assert_eq!(ids, vec![vec!["a", "b"], vec!["c"], vec!["d"], vec!["e"]]);
    assert_eq!(batches[3].component, ComponentId::new("test"));
    assert_eq!(batches[2].language, Language::Java);
    assert_eq!(batches[0].worker, "kotlin-jvm");
    assert_eq!(batches[0].launch, installation.launch);
    assert_eq!(worker_batches(&sources[..3], &installation, 8).len(), 1);
    assert!(worker_batches(&[], &installation, 8).is_empty());
}
