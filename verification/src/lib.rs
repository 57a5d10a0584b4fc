//! Semantic indexing core for polyglot workspaces.

pub mod artifact_agreement;
pub mod artifact_blob_layout;
pub mod artifact_cache;
pub mod artifact_proto;
pub mod artifact_proto_adapter;
pub mod artifact_query;
pub mod canonical;
pub mod configuration;
pub mod dependency_identity;
pub mod digest;
pub mod discovery;
pub mod framework_query;
pub mod freshness;
pub mod freshness_gate;
pub mod identifiers;
pub mod incremental_plan;
pub mod index_command;
pub mod input;
pub mod input_inventory;
pub mod json;
pub mod measures;
pub mod names;
pub mod navigation;
pub mod orchestrator;
pub mod ordered_map;
pub mod ordering;
pub mod position;
pub mod project_query;
pub mod protocol;
pub mod query;
pub mod query_command;
pub mod query_package;
pub mod query_resolver;
pub mod search;
pub mod selector;
pub mod semantic_capability;
pub mod semantic_query;
pub mod shown;
pub mod source_metadata;
pub mod store;
pub mod supervisor;
pub mod symbol_detail;
pub mod text;
pub mod text_index;
pub mod value_names;
pub mod worker_framing;
pub mod worker_message_adapter;
pub mod worker_proto;
pub mod worker_proto_adapter;

pub use artifact_cache::{
    ArtifactBlob, ArtifactBlobCache, ArtifactBlobCacheError, ArtifactBlobKey,
    ArtifactPromotionMetrics,
};
pub use canonical::{
    BackendKey, BuildSystem, ByteRange, CallEdge, Completeness, Component, ComponentId,
    DependencyEdge, DependencyTarget, DiagnosticRecord, DiagnosticSeverity, Fingerprint, Freshness,
    HierarchyEdge, Language, Location, OccurrenceKind, Precision, ProjectManifest, Provenance,
    ReferenceEdge, SourceOccurrence, SourceOrigin, SourceRange, SourceUnit, SourceUnitId, SymbolId,
    SymbolKind, SymbolRecord, TextPosition, TypeId, TypeRecord, WorkspaceId, WorkspacePath,
    CANONICAL_SCHEMA_VERSION, INDEX_FORMAT_VERSION,
};
pub use configuration::{
    ConfigurationError, ConfigurationSources, EffectiveConfiguration, FreshnessStrategy,
    LoadedConfiguration, initialize_workspace_configuration, load_configuration,
};
pub use dependency_identity::{
    ResolvedDependencyIdentity, ARTIFACT_BLOB_FORMAT_VERSION, DEPENDENCY_IDENTITY_VERSION,
};
pub use discovery::{DiscoveryError, WorkspaceDiscovery, WorkspaceFile, discover_workspace};
pub use framework_query::{
    CandidateDisposition, FrameworkAssumption, FrameworkBoundary, FrameworkCandidate,
    FrameworkEvidence, FrameworkEvidenceTarget, FrameworkQueryResult, FrameworkQueryResultError,
    FrameworkQueryState,
};
pub use freshness::{
    AnalysisInput, IndexAction, InvalidationReason, plan_analysis_invalidation, plan_invalidation,
};
pub use incremental_plan::{
    DependencyAction, IncrementalIndexPlan, ManifestAction, plan_incremental_analysis_index,
    plan_incremental_index,
};
pub use input_inventory::{
    ConfigurationInput, ConfigurationInputReconciliation, ConfigurationInputState,
    ConfigurationInputStatus, reconcile_configuration_inputs,
};
pub use orchestrator::{
    BatchIndexMetrics, IndexOrchestratorError, IndexRun, MaterializationBudget,
    MaterializationMetrics, MaterializationOutcome,
};
pub use protocol::{
    AnalysisBatchResponse, AnalysisDelta, AnalysisFact, AnalyzeBatchRequest,
    ArtifactAnalysisRequest, ArtifactAnalysisResponse, ArtifactCandidate, ArtifactDescriptor,
    ArtifactDiscoveryRequest, ArtifactDiscoveryResponse, ArtifactLocator,
    ArtifactMaterializationRequest, ArtifactMaterializationResponse, FileAnalysisSnapshot,
    HandshakeRequest, HandshakeResponse, OpaqueExecutionPlan, PhaseTiming, ProjectManifestRequest,
    ProjectManifestResponse, SymbolLocator, WorkerCapabilities, WorkerCapability, WorkerEnvelope,
    WorkerError, WorkerErrorCode, WorkerIdentity, WorkerMessage, WorkerMetric,
    ARTIFACT_BLOB_LAYOUT_VERSION, WORKER_PROTOCOL_VERSION, ensure_compatible_protocol_version,
};
pub use query::{
    ArtifactCoverage, ConfigurationInputCounts, IndexCounts, IndexResult, NavigationTarget,
    QueryPayload, QueryProblem, QueryRequest, QueryResponse, QueryStatus, ResultMetadata,
    SelectorRecord, StatusResult,
};
pub use semantic_capability::{
    SemanticCapabilityError, SemanticCapabilityPlan, plan_semantic_capability,
    validate_semantic_capability_response,
};
pub use source_metadata::SourceFileMetadata;
pub use store::IndexStoreError;
pub use supervisor::{
    WorkerLaunch, WorkerSupervisor, WorkerSupervisorError, supervisor_error_envelope,
};
pub use text_index::{
    LexicalMatch, TextDocument, TextDocumentSkip, WorkspaceTextInventory, collect_workspace_text,
    document_from_bytes, lexical_terms, position_at, snippet_at,
};
