//! The worker-side shape of analysis facts and of the messages that carry them:
//! texts for enumerations, indexes into a table of provenances.

use vstd::prelude::*;

use crate::canonical::ByteRange;

verus! {

/// A byte range in one source unit of a snapshot.
#[derive(Debug, Clone, Copy, PartialEq, Eq, Structural)]
pub struct SourceLocation {
    pub source_unit_index: u32,
    pub range: Option<ByteRange>,
}

/// The source unit that owns a snapshot.
#[derive(Debug, PartialEq, Eq)]
pub struct SourceUnit {
    pub id: String,
    pub component: String,
    pub path: String,
    pub language: String,
    pub origin: String,
    pub content: String,
    pub context: String,
}

impl Clone for SourceUnit {
    fn clone(&self) -> (result: Self)
        ensures
            result == *self,
    {
        SourceUnit {
            id: self.id.clone(),
            component: self.component.clone(),
            path: self.path.clone(),
            language: self.language.clone(),
            origin: self.origin.clone(),
            content: self.content.clone(),
            context: self.context.clone(),
        }
    }
}

/// The worker that produced facts.
#[derive(Debug, PartialEq, Eq)]
pub struct Provenance {
    pub backend: String,
    pub backend_version: String,
    pub protocol_version: u32,
    pub analysis_options_fingerprint: String,
}

impl Clone for Provenance {
    fn clone(&self) -> (result: Self)
        ensures
            result == *self,
    {
        Provenance {
            backend: self.backend.clone(),
            backend_version: self.backend_version.clone(),
            protocol_version: self.protocol_version,
            analysis_options_fingerprint: self.analysis_options_fingerprint.clone(),
        }
    }
}

/// A declaration.
#[derive(Debug, PartialEq, Eq)]
pub struct SymbolDeclaration {
    pub id: String,
    pub source_unit_index: u32,
    pub provenance_index: u32,
    pub backend_key: String,
    pub backend_schema_version: u32,
    pub language: String,
    pub kind: String,
    pub name: String,
    pub qualified_name: Option<String>,
    pub signature: Option<String>,
    pub declaration: Option<ByteRange>,
    pub name_range: Option<ByteRange>,
    pub owner_id: Option<String>,
    pub modifiers: Vec<String>,
    pub applied_symbol_ids: Vec<String>,
    pub freshness: String,
    pub completeness: String,
    pub component_id: String,
}

/// What a `SymbolDeclaration` holds.
#[verifier::ext_equal]
pub struct SymbolDeclarationView {
    pub id: String,
    pub source_unit_index: u32,
    pub provenance_index: u32,
    pub backend_key: String,
    pub backend_schema_version: u32,
    pub language: String,
    pub kind: String,
    pub name: String,
    pub qualified_name: Option<String>,
    pub signature: Option<String>,
    pub declaration: Option<ByteRange>,
    pub name_range: Option<ByteRange>,
    pub owner_id: Option<String>,
    pub modifiers: Seq<String>,
    pub applied_symbol_ids: Seq<String>,
    pub freshness: String,
    pub completeness: String,
    pub component_id: String,
}

impl View for SymbolDeclaration {
    type V = SymbolDeclarationView;

    open spec fn view(&self) -> SymbolDeclarationView {
        SymbolDeclarationView {
            id: self.id,
            source_unit_index: self.source_unit_index,
            provenance_index: self.provenance_index,
            backend_key: self.backend_key,
            backend_schema_version: self.backend_schema_version,
            language: self.language,
            kind: self.kind,
            name: self.name,
            qualified_name: self.qualified_name,
            signature: self.signature,
            declaration: self.declaration,
            name_range: self.name_range,
            owner_id: self.owner_id,
            modifiers: self.modifiers@,
            applied_symbol_ids: self.applied_symbol_ids@,
            freshness: self.freshness,
            completeness: self.completeness,
            component_id: self.component_id,
        }
    }
}

impl Clone for SymbolDeclaration {
    fn clone(&self) -> (result: Self)
        ensures
            result@ == self@,
    {
        let result = SymbolDeclaration {
            id: self.id.clone(),
            source_unit_index: self.source_unit_index,
            provenance_index: self.provenance_index,
            backend_key: self.backend_key.clone(),
            backend_schema_version: self.backend_schema_version,
            language: self.language.clone(),
            kind: self.kind.clone(),
            name: self.name.clone(),
            qualified_name: self.qualified_name.clone(),
            signature: self.signature.clone(),
            declaration: self.declaration,
            name_range: self.name_range,
            owner_id: self.owner_id.clone(),
            modifiers: self.modifiers.clone(),
            applied_symbol_ids: self.applied_symbol_ids.clone(),
            freshness: self.freshness.clone(),
            completeness: self.completeness.clone(),
            component_id: self.component_id.clone(),
        };
        assert(result.modifiers@ =~= self.modifiers@);
        assert(result.applied_symbol_ids@ =~= self.applied_symbol_ids@);
        result
    }
}

/// A source interval.
#[derive(Debug, PartialEq, Eq)]
pub struct Occurrence {
    pub location: Option<SourceLocation>,
    pub kind: String,
    pub enclosing_symbol_id: Option<String>,
    pub target_symbol_id: Option<String>,
    pub type_id: Option<String>,
    pub precision: String,
    pub freshness: String,
    pub completeness: String,
    pub provenance_index: u32,
}

impl Clone for Occurrence {
    fn clone(&self) -> (result: Self)
        ensures
            result == *self,
    {
        Occurrence {
            location: self.location,
            kind: self.kind.clone(),
            enclosing_symbol_id: self.enclosing_symbol_id.clone(),
            target_symbol_id: self.target_symbol_id.clone(),
            type_id: self.type_id.clone(),
            precision: self.precision.clone(),
            freshness: self.freshness.clone(),
            completeness: self.completeness.clone(),
            provenance_index: self.provenance_index,
        }
    }
}

/// A use of a declaration.
#[derive(Debug, PartialEq, Eq)]
pub struct ReferenceEdge {
    pub source_occurrence_index: u32,
    pub target_symbol_id: String,
    pub precision: String,
}

impl Clone for ReferenceEdge {
    fn clone(&self) -> (result: Self)
        ensures
            result == *self,
    {
        ReferenceEdge {
            source_occurrence_index: self.source_occurrence_index,
            target_symbol_id: self.target_symbol_id.clone(),
            precision: self.precision.clone(),
        }
    }
}

/// A call site.
#[derive(Debug, PartialEq, Eq)]
pub struct CallEdge {
    pub source_occurrence_index: u32,
    pub target_symbol_id: String,
    pub caller_symbol_id: Option<String>,
    pub precision: String,
}

impl Clone for CallEdge {
    fn clone(&self) -> (result: Self)
        ensures
            result == *self,
    {
        CallEdge {
            source_occurrence_index: self.source_occurrence_index,
            target_symbol_id: self.target_symbol_id.clone(),
            caller_symbol_id: self.caller_symbol_id.clone(),
            precision: self.precision.clone(),
        }
    }
}

/// A subtype relation.
#[derive(Debug, PartialEq, Eq)]
pub struct HierarchyEdge {
    pub subtype_symbol_id: String,
    pub supertype_symbol_id: String,
    pub precision: String,
    pub provenance_index: u32,
}

impl Clone for HierarchyEdge {
    fn clone(&self) -> (result: Self)
        ensures
            result == *self,
    {
        HierarchyEdge {
            subtype_symbol_id: self.subtype_symbol_id.clone(),
            supertype_symbol_id: self.supertype_symbol_id.clone(),
            precision: self.precision.clone(),
            provenance_index: self.provenance_index,
        }
    }
}

/// A type fact.
#[derive(Debug, PartialEq, Eq)]
pub struct TypeRecord {
    pub id: String,
    pub language: String,
    pub display: String,
    pub backend_key: Option<String>,
    pub backend_schema_version: Option<u32>,
    pub freshness: String,
    pub completeness: String,
    pub provenance_index: u32,
}

impl Clone for TypeRecord {
    fn clone(&self) -> (result: Self)
        ensures
            result == *self,
    {
        TypeRecord {
            id: self.id.clone(),
            language: self.language.clone(),
            display: self.display.clone(),
            backend_key: self.backend_key.clone(),
            backend_schema_version: self.backend_schema_version,
            freshness: self.freshness.clone(),
            completeness: self.completeness.clone(),
            provenance_index: self.provenance_index,
        }
    }
}

/// A message about a source unit.
#[derive(Debug, PartialEq, Eq)]
pub struct Diagnostic {
    pub source_unit_index: u32,
    pub range: Option<ByteRange>,
    pub severity: String,
    pub code: Option<String>,
    pub message: String,
    pub freshness: String,
    pub completeness: String,
    pub provenance_index: u32,
}

impl Clone for Diagnostic {
    fn clone(&self) -> (result: Self)
        ensures
            result == *self,
    {
        Diagnostic {
            source_unit_index: self.source_unit_index,
            range: self.range,
            severity: self.severity.clone(),
            code: self.code.clone(),
            message: self.message.clone(),
            freshness: self.freshness.clone(),
            completeness: self.completeness.clone(),
            provenance_index: self.provenance_index,
        }
    }
}

/// Every fact of one source unit.
#[derive(Debug, Clone, PartialEq, Eq)]
pub struct FileAnalysisSnapshot {
    pub source_unit: Option<SourceUnit>,
    pub structural_fingerprint: Option<String>,
    pub public_api_fingerprint: Option<String>,
    pub provenances: Vec<Provenance>,
    pub symbols: Vec<SymbolDeclaration>,
    pub occurrences: Vec<Occurrence>,
    pub references: Vec<ReferenceEdge>,
    pub calls: Vec<CallEdge>,
    pub hierarchy: Vec<HierarchyEdge>,
    pub types: Vec<TypeRecord>,
    pub diagnostics: Vec<Diagnostic>,
    pub completeness: String,
    pub provenance_index: u32,
}

/// A request for the facts of one page of dependency artifacts.
#[derive(Debug, PartialEq, Eq)]
pub struct ArtifactAnalysisRequest {
    pub workspace_root: String,
    pub max_artifacts: u32,
    pub cursor: Option<String>,
}

/// The facts of one page of dependency artifacts.
#[derive(Debug, PartialEq, Eq)]
pub struct ArtifactAnalysisResponse {
    pub snapshots: Vec<FileAnalysisSnapshot>,
    pub next_cursor: Option<String>,
}

/// A dependency artifact that a worker came across.
#[derive(Debug, PartialEq, Eq)]
pub struct ArtifactCandidate {
    pub locator: String,
    pub component: String,
    pub context: String,
}

/// The facts of a batch, and what it cost.
#[derive(Debug, PartialEq, Eq)]
pub struct AnalysisBatchResponse {
    pub snapshots: Vec<FileAnalysisSnapshot>,
    pub timings: Vec<PhaseTiming>,
    pub artifact_candidates: Vec<ArtifactCandidate>,
    pub metrics: Vec<WorkerMetric>,
}

/// Where a qualified name of a dependency artifact is declared.
#[derive(Debug, PartialEq, Eq)]
pub struct SymbolLocator {
    pub qualified_name: String,
    pub symbol_id: String,
}

/// The identity of a resolved dependency.
#[derive(Debug, PartialEq, Eq)]
pub struct ResolvedDependencyIdentity {
    pub identity_version: u32,
    pub ecosystem: String,
    pub canonical_coordinate: Option<String>,
    pub resolved_version: Option<String>,
    pub content: String,
    pub context: String,
    pub provenance: Option<Provenance>,
    pub canonical_schema_version: u32,
    pub blob_format_version: u32,
}

/// One dependency artifact.
#[derive(Debug, PartialEq, Eq)]
pub struct ArtifactDescriptor {
    pub source_unit: Option<SourceUnit>,
    pub provenance: Option<Provenance>,
    pub resolved_identity: Option<ResolvedDependencyIdentity>,
    pub symbol_locators: Vec<SymbolLocator>,
}

/// A request to materialize an artifact.
#[derive(Debug, PartialEq, Eq)]
pub struct ArtifactMaterializationRequest {
    pub workspace_root: String,
    pub artifact: Option<ArtifactDescriptor>,
    pub staging_directory: String,
    pub blob_format_version: u32,
    pub artifact_locator: Option<String>,
}

/// The time that a phase took.
#[derive(Debug, PartialEq, Eq)]
pub struct PhaseTiming {
    pub phase: String,
    pub elapsed_millis: u64,
}

/// What was counted.
#[derive(Debug, PartialEq, Eq)]
pub struct WorkerMetric {
    pub name: String,
    pub value: u64,
}

/// A staged artifact.
#[derive(Debug, PartialEq, Eq)]
pub struct ArtifactMaterializationResponse {
    pub staged_filename: String,
    pub byte_length: u64,
    pub sha256: Vec<u8>,
    pub blob_format_version: u32,
    pub timings: Vec<PhaseTiming>,
    pub metrics: Vec<WorkerMetric>,
}

/// A failure.
#[derive(Debug, PartialEq, Eq)]
pub struct WorkerError {
    pub code: String,
    pub message: String,
    pub retryable: bool,
    pub supported_protocol_version: u32,
    pub received_protocol_version: Option<u32>,
}

} // verus!
