//! Versioned messages exchanged between the core and disposable workers.
//!
//! The protocol carries normalized data only. Compiler sessions and build-tool
//! objects stay inside a worker and die with that process.

use vstd::prelude::*;

use crate::canonical::{
    CallEdge, Completeness, ComponentId, DiagnosticRecord, Fingerprint, HierarchyEdge, Language,
    ProjectManifest, Provenance, ReferenceEdge, SourceOccurrence, SourceUnit, SourceUnitId,
    SymbolId, SymbolRecord, TypeRecord, WorkspaceId, WorkspacePath,
};
use crate::dependency_identity;
use crate::dependency_identity::ResolvedDependencyIdentity;
use crate::ordered_map::Keyed;
use crate::semantic_capability::{
    SemanticQueryCapability, SemanticQueryRequest, SemanticQueryResponse,
};
use crate::text;
use crate::text::IntoText;

verus! {

/// First version of the core-to-worker wire protocol.
pub const WORKER_PROTOCOL_VERSION: u32 = 1;

/// Version of the section layout inside a dependency artifact blob.
pub const ARTIFACT_BLOB_LAYOUT_VERSION: u32 = 1;

/// A named feature a worker can advertise before an analysis session opens.
#[derive(Debug, Clone, Copy, PartialEq, Eq, Structural)]
pub enum WorkerCapability {
    Handshake,
    ProjectManifest,
    FileAnalysisSnapshot,
    AnalysisDelta,
}

/// Static identity of a worker implementation.
#[derive(Debug, Clone, PartialEq, Eq)]
pub struct WorkerIdentity {
    pub backend: String,
    pub backend_version: String,
}

/// Static worker metadata returned by the handshake. It is available without
/// importing a build or creating a compiler analysis session.
#[derive(Debug, Clone, PartialEq, Eq)]
pub struct WorkerCapabilities {
    pub identity: WorkerIdentity,
    pub protocol_version: u32,
    pub languages: Vec<Language>,
    pub capabilities: Vec<WorkerCapability>,
    pub semantic_query_capabilities: Vec<SemanticQueryCapability>,
}

/// A request whose only purpose is compatibility and static discovery.
#[derive(Debug, Clone, PartialEq, Eq)]
pub struct HandshakeRequest {
    pub core_version: String,
}

/// The answer to a handshake.
#[derive(Debug, Clone, PartialEq, Eq)]
pub struct HandshakeResponse {
    pub capabilities: WorkerCapabilities,
}

/// Asks a build-system worker to describe a workspace.
#[derive(Debug, Clone, PartialEq, Eq)]
pub struct ProjectManifestRequest {
    pub workspace_root: WorkspacePath,
}

/// The described workspace.
#[derive(Debug, PartialEq, Eq)]
pub struct ProjectManifestResponse {
    pub manifest: ProjectManifest,
    /// What the worker needs to analyze the resolved build again.
    pub execution_plan: OpaqueExecutionPlan,
}

/// Facts requested from a language worker for every source unit in a batch.
#[derive(Debug, Clone, Copy, PartialEq, Eq, Structural)]
pub enum AnalysisFact {
    Symbols,
    Occurrences,
    References,
    Calls,
    Hierarchy,
    Types,
}

/// Every input needed for a cold worker to analyze source units.
#[derive(Debug, Clone, PartialEq, Eq)]
pub struct AnalyzeBatchRequest {
    pub workspace: WorkspaceId,
    pub project_fingerprint: Fingerprint,
    pub requested_facts: Vec<AnalysisFact>,
    pub source_units: Vec<SourceUnit>,
    pub execution_plan: OpaqueExecutionPlan,
}

/// A request for the facts of one page of dependency artifacts.
#[derive(Debug, PartialEq, Eq)]
pub struct ArtifactAnalysisRequest {
    pub workspace_root: WorkspacePath,
    pub max_artifacts: u32,
    pub cursor: Option<String>,
}

/// The facts of one page of dependency artifacts.
#[derive(Debug, PartialEq, Eq)]
pub struct ArtifactAnalysisResponse {
    pub snapshots: Vec<FileAnalysisSnapshot>,
    pub next_cursor: Option<String>,
}

/// The time that a phase of a worker took.
#[derive(Debug, Clone, PartialEq, Eq)]
pub struct PhaseTiming {
    pub phase: String,
    pub elapsed_millis: u64,
}

/// What a worker counted.
#[derive(Debug, Clone, PartialEq, Eq)]
pub struct WorkerMetric {
    pub name: String,
    pub value: u64,
}

/// A dependency artifact that a worker came across.
#[derive(Debug, Clone, PartialEq, Eq)]
pub struct ArtifactCandidate {
    pub locator: String,
    pub component: ComponentId,
    pub context: Fingerprint,
}

/// Where a worker finds an artifact while it runs.
#[derive(Debug, PartialEq, Eq)]
pub struct ArtifactLocator {
    pub source_unit: SourceUnitId,
    pub locator: String,
}

/// A request for one page of a dependency catalog.
#[derive(Debug, PartialEq, Eq)]
pub struct ArtifactDiscoveryRequest {
    pub workspace_root: WorkspacePath,
    pub max_artifacts: u32,
    pub cursor: Option<String>,
    pub execution_plan: OpaqueExecutionPlan,
}

/// One page of a dependency catalog.
#[derive(Debug, PartialEq, Eq)]
pub struct ArtifactDiscoveryResponse {
    pub artifacts: Vec<ArtifactDescriptor>,
    pub artifact_locators: Vec<ArtifactLocator>,
    pub next_cursor: Option<String>,
}

/// The request that materializes an artifact.
#[derive(Debug, PartialEq, Eq)]
pub struct ArtifactMaterializationRequest {
    pub workspace_root: WorkspacePath,
    pub artifact: ArtifactDescriptor,
    pub staging_directory: String,
    pub blob_format_version: u32,
    pub artifact_locator: Option<String>,
}

/// What a worker says of an artifact that it staged.
#[derive(Debug, PartialEq, Eq)]
pub struct ArtifactMaterializationResponse {
    pub staged_filename: String,
    pub byte_length: u64,
    pub sha256: Fingerprint,
    pub blob_format_version: u32,
    pub timings: Vec<PhaseTiming>,
    pub metrics: Vec<WorkerMetric>,
}

/// A plan of a build resolution that only its backend can read.
#[derive(Debug, Clone, PartialEq, Eq)]
pub struct OpaqueExecutionPlan {
    pub backend: String,
    pub resolved_fingerprint: Fingerprint,
    pub payload: Vec<u8>,
}

/// A complete replacement fact set for exactly one source-unit content snapshot.
#[derive(Debug, Clone, PartialEq, Eq)]
pub struct FileAnalysisSnapshot {
    pub source_unit: SourceUnit,
    pub structural_fingerprint: Option<Fingerprint>,
    pub public_api_fingerprint: Option<Fingerprint>,
    pub symbols: Vec<SymbolRecord>,
    pub occurrences: Vec<SourceOccurrence>,
    pub references: Vec<ReferenceEdge>,
    pub calls: Vec<CallEdge>,
    pub hierarchy: Vec<HierarchyEdge>,
    pub types: Vec<TypeRecord>,
    pub diagnostics: Vec<DiagnosticRecord>,
    pub completeness: Completeness,
    pub provenance: Provenance,
}

/// A batch response permits a cold worker to amortize startup across files.
#[derive(Debug, Clone, PartialEq, Eq)]
pub struct AnalysisBatchResponse {
    pub snapshots: Vec<FileAnalysisSnapshot>,
    pub timings: Vec<PhaseTiming>,
    pub artifact_candidates: Vec<ArtifactCandidate>,
    pub metrics: Vec<WorkerMetric>,
}

/// A conservative incremental update. `snapshot: None` removes a source unit;
/// otherwise all persisted facts for that source-unit snapshot are replaced.
#[derive(Debug, Clone, PartialEq, Eq)]
pub struct AnalysisDelta {
    pub source_unit: SourceUnitId,
    pub previous_content: Option<Fingerprint>,
    pub snapshot: Option<FileAnalysisSnapshot>,
}

/// Where a qualified name of a dependency artifact is declared.
#[derive(Debug, PartialEq, Eq)]
pub struct SymbolLocator {
    pub qualified_name: String,
    pub symbol: SymbolId,
}

impl Clone for SymbolLocator {
    fn clone(&self) -> (result: Self)
        ensures
            result == *self,
    {
        SymbolLocator { qualified_name: self.qualified_name.clone(), symbol: self.symbol.clone() }
    }
}

/// One dependency artifact that a worker can materialize.
#[derive(Debug, PartialEq, Eq)]
pub struct ArtifactDescriptor {
    pub source_unit: SourceUnit,
    pub provenance: Provenance,
    pub resolved_identity: Option<ResolvedDependencyIdentity>,
    pub symbol_locators: Vec<SymbolLocator>,
}

/// What an `ArtifactDescriptor` holds.
#[verifier::ext_equal]
pub struct ArtifactDescriptorView {
    pub source_unit: SourceUnit,
    pub provenance: Provenance,
    pub resolved_identity: Option<ResolvedDependencyIdentity>,
    pub symbol_locators: Seq<SymbolLocator>,
}

impl View for ArtifactDescriptor {
    type V = ArtifactDescriptorView;

    open spec fn view(&self) -> ArtifactDescriptorView {
        ArtifactDescriptorView {
            source_unit: self.source_unit,
            provenance: self.provenance,
            resolved_identity: self.resolved_identity,
            symbol_locators: self.symbol_locators@,
        }
    }
}

impl Clone for ArtifactDescriptor {
    fn clone(&self) -> (result: Self)
        ensures
            result@ == self@,
    {
        let result = ArtifactDescriptor {
            source_unit: self.source_unit.clone(),
            provenance: self.provenance.clone(),
            resolved_identity: self.resolved_identity.clone(),
            symbol_locators: self.symbol_locators.clone(),
        };
        assert(result.symbol_locators@ =~= self.symbol_locators@);
        result
    }
}

impl Keyed for ArtifactDescriptor {
    open spec fn key(&self) -> Seq<char> {
        self.source_unit.id@
    }

    fn key_text(&self) -> (result: &str) {
        self.source_unit.id.as_str()
    }
}

impl ArtifactDescriptor {
    /// The identity under which the artifact's blob is cached: the reported
    /// one, or one made of content, context and provenance.
    pub open spec fn identity(&self) -> dependency_identity::IdentityView {
        match self.resolved_identity {
            Some(identity) => identity@,
            None => dependency_identity::unattributed_view(
                self.source_unit.content@,
                self.source_unit.context@,
                self.provenance@,
                ARTIFACT_BLOB_LAYOUT_VERSION,
            ),
        }
    }

    /// Computes `identity`.
    pub fn resolved_identity(&self) -> (result: ResolvedDependencyIdentity)
        ensures
            result@ == self.identity(),
    {
        match &self.resolved_identity {
            Some(identity) => identity.clone(),
            None => ResolvedDependencyIdentity::unattributed(
                self.source_unit.content.clone(),
                self.source_unit.context.clone(),
                self.provenance.clone(),
                ARTIFACT_BLOB_LAYOUT_VERSION,
            ),
        }
    }
}

/// Stable machine-readable failure codes returned through the protocol.
#[derive(Debug, Clone, Copy, PartialEq, Eq, Structural)]
pub enum WorkerErrorCode {
    IncompatibleProtocolVersion,
    InvalidRequest,
    UnsupportedCapability,
    AnalysisFailed,
    Internal,
}

/// A structured failure that says whether retrying is useful.
#[derive(Debug, Clone, PartialEq, Eq)]
pub struct WorkerError {
    pub code: WorkerErrorCode,
    pub message: String,
    pub retryable: bool,
    pub supported_protocol_version: u32,
    pub received_protocol_version: Option<u32>,
}

impl WorkerError {
    /// The message about an incompatible version.
    pub open spec fn incompatible_message(received: u32) -> Seq<char> {
        "worker protocol version "@ + text::decimal_text(received as nat)
            + " is incompatible; supported version is "@ + text::decimal_text(
            WORKER_PROTOCOL_VERSION as nat,
        )
    }

    /// The failure of a peer that speaks another protocol version. Retrying
    /// cannot help.
    pub fn incompatible_protocol_version(received_protocol_version: u32) -> (result: Self)
        ensures
            result.code == WorkerErrorCode::IncompatibleProtocolVersion,
            result.message@ == Self::incompatible_message(received_protocol_version),
            !result.retryable,
            result.supported_protocol_version == WORKER_PROTOCOL_VERSION,
            result.received_protocol_version == Some(received_protocol_version),
    {
        let mut message = text::join_text(
            "worker protocol version ",
            text::decimal(received_protocol_version as u64).as_str(),
        );
        message.append(" is incompatible; supported version is ");
        message.append(text::decimal(WORKER_PROTOCOL_VERSION as u64).as_str());
        WorkerError {
            code: WorkerErrorCode::IncompatibleProtocolVersion,
            message,
            retryable: false,
            supported_protocol_version: WORKER_PROTOCOL_VERSION,
            received_protocol_version: Some(received_protocol_version),
        }
    }
}

/// One message. `request_id` correlates an error or response with the request
/// that caused it; it is unique within one worker process.
#[derive(Debug, PartialEq, Eq)]
pub struct WorkerEnvelope {
    pub protocol_version: u32,
    pub request_id: String,
    pub message: WorkerMessage,
}

impl WorkerEnvelope {
    /// An envelope of the current protocol version.
    pub fn new<T: IntoText>(request_id: T, message: WorkerMessage) -> (result: Self)
        ensures
            result.protocol_version == WORKER_PROTOCOL_VERSION,
            result.request_id@ == request_id.text(),
            result.message == message,
    {
        WorkerEnvelope {
            protocol_version: WORKER_PROTOCOL_VERSION,
            request_id: request_id.into_text(),
            message,
        }
    }

    /// Rejects a version before the payload is interpreted.
    pub fn validate_protocol_version(&self) -> (result: Result<(), WorkerError>)
        ensures
            result is Ok <==> self.protocol_version == WORKER_PROTOCOL_VERSION,
            result is Err ==> is_version_error(result->Err_0, self.protocol_version),
    {
        ensure_compatible_protocol_version(self.protocol_version)
    }
}

/// The complete message vocabulary. New variants require a protocol version
/// bump, so older workers fail safely rather than guess semantics.
#[derive(Debug, PartialEq, Eq)]
pub enum WorkerMessage {
    HandshakeRequest(HandshakeRequest),
    HandshakeResponse(HandshakeResponse),
    ProjectManifestRequest(ProjectManifestRequest),
    ProjectManifestResponse(ProjectManifestResponse),
    AnalyzeBatchRequest(AnalyzeBatchRequest),
    AnalysisBatchResponse(AnalysisBatchResponse),
    /// Behind an indirection, so that one rare full-file delta does not make
    /// every handshake and batch message as large as its payload.
    AnalysisDelta(Box<AnalysisDelta>),
    ArtifactAnalysisRequest(ArtifactAnalysisRequest),
    ArtifactAnalysisResponse(ArtifactAnalysisResponse),
    ArtifactDiscoveryRequest(ArtifactDiscoveryRequest),
    ArtifactDiscoveryResponse(ArtifactDiscoveryResponse),
    ArtifactMaterializationRequest(Box<ArtifactMaterializationRequest>),
    ArtifactMaterializationResponse(Box<ArtifactMaterializationResponse>),
    SemanticQueryRequest(Box<SemanticQueryRequest>),
    SemanticQueryResponse(Box<SemanticQueryResponse>),
    Error(WorkerError),
}

/// Whether an error is the one for a peer of protocol version `received`.
pub open spec fn is_version_error(error: WorkerError, received: u32) -> bool {
    &&& error.code == WorkerErrorCode::IncompatibleProtocolVersion
    &&& error.message@ == WorkerError::incompatible_message(received)
    &&& !error.retryable
    &&& error.supported_protocol_version == WORKER_PROTOCOL_VERSION
    &&& error.received_protocol_version == Some(received)
}

/// The compatibility rule shared by the core and every worker.
pub fn ensure_compatible_protocol_version(version: u32) -> (result: Result<(), WorkerError>)
    ensures
        result is Ok <==> version == WORKER_PROTOCOL_VERSION,
        result is Err ==> is_version_error(result->Err_0, version),
{
    if version == WORKER_PROTOCOL_VERSION {
        Ok(())
    } else {
        Err(WorkerError::incompatible_protocol_version(version))
    }
}

/// The identity of a described artifact is the reported one; without one it is
/// told apart by content, context and provenance.
pub proof fn law_reported_identity_is_kept(
    descriptor: &ArtifactDescriptor,
    identity: ResolvedDependencyIdentity,
)
    requires
        call_ensures(ArtifactDescriptor::resolved_identity, (descriptor,), identity),
    ensures
        descriptor.resolved_identity is Some ==> identity@ == descriptor.resolved_identity->0@,
        descriptor.resolved_identity is None ==> identity.content@
            == descriptor.source_unit.content@ && identity.context@
            == descriptor.source_unit.context@ && identity.provenance@ == descriptor.provenance@
            && identity.canonical_coordinate is None && identity.resolved_version is None,
{
}

/// Only an envelope of the supported protocol is interpreted, and what is said
/// of another names both versions.
pub proof fn law_other_protocols_are_rejected(
    envelope: &WorkerEnvelope,
    result: Result<(), WorkerError>,
)
    requires
        call_ensures(WorkerEnvelope::validate_protocol_version, (envelope,), result),
    ensures
        result is Ok <==> envelope.protocol_version == WORKER_PROTOCOL_VERSION,
        result is Err ==> result->Err_0.code == WorkerErrorCode::IncompatibleProtocolVersion
            && !result->Err_0.retryable && result->Err_0.received_protocol_version == Some(
            envelope.protocol_version,
        ) && result->Err_0.supported_protocol_version == WORKER_PROTOCOL_VERSION,
{
}

} // verus!
