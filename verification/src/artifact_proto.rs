//! The storage schema of dependency graph artifacts.
//!
//! Storage messages have a schema of their own, so that a change of the worker
//! protocol cannot silently change bytes that are already cached.

use vstd::prelude::*;

verus! {

/// A half-open byte range.
#[derive(Debug, Clone, Copy, PartialEq, Eq, Structural, Default)]
pub struct ArtifactRange {
    pub start: u64,
    pub end: u64,
}

/// A byte range in one source unit of a snapshot.
#[derive(Debug, Clone, Copy, PartialEq, Eq, Structural, Default)]
pub struct ArtifactLocation {
    pub source_unit_index: u32,
    pub range: Option<ArtifactRange>,
}

/// The source unit that owns a snapshot.
#[derive(Debug, PartialEq, Eq, Default)]
pub struct ArtifactSourceUnit {
    pub id: String,
    pub component: String,
    pub path: String,
    pub language: String,
    pub origin: String,
    pub content_fingerprint: String,
    pub context_fingerprint: String,
}

impl Clone for ArtifactSourceUnit {
    fn clone(&self) -> (result: Self)
        ensures
            result == *self,
    {
        ArtifactSourceUnit {
            id: self.id.clone(),
            component: self.component.clone(),
            path: self.path.clone(),
            language: self.language.clone(),
            origin: self.origin.clone(),
            content_fingerprint: self.content_fingerprint.clone(),
            context_fingerprint: self.context_fingerprint.clone(),
        }
    }
}

/// The worker that produced facts.
#[derive(Debug, PartialEq, Eq, Default)]
pub struct ArtifactProvenance {
    pub backend: String,
    pub backend_version: String,
    pub worker_protocol_version: u32,
    pub analysis_options_fingerprint: String,
}

impl Clone for ArtifactProvenance {
    fn clone(&self) -> (result: Self)
        ensures
            result == *self,
    {
        ArtifactProvenance {
            backend: self.backend.clone(),
            backend_version: self.backend_version.clone(),
            worker_protocol_version: self.worker_protocol_version,
            analysis_options_fingerprint: self.analysis_options_fingerprint.clone(),
        }
    }
}

/// A declaration. Its owner is either inlined or an artifact-local ordinal.
#[derive(Debug, PartialEq, Eq, Default)]
pub struct ArtifactSymbol {
    pub id: String,
    pub backend_key: String,
    pub backend_schema_version: u32,
    pub language: String,
    pub kind: String,
    pub name: String,
    pub qualified_name: Option<String>,
    pub signature: Option<String>,
    pub declaration: Option<ArtifactRange>,
    pub name_range: Option<ArtifactRange>,
    pub owner_id: Option<String>,
    pub modifiers: Vec<String>,
    pub applied_symbol_ids: Vec<String>,
    pub freshness: String,
    pub completeness: String,
    pub component_id: String,
    pub provenance_index: Option<u32>,
    pub owner_symbol_ordinal: Option<u32>,
}

/// What a `ArtifactSymbol` holds.
#[verifier::ext_equal]
pub struct ArtifactSymbolView {
    pub id: String,
    pub backend_key: String,
    pub backend_schema_version: u32,
    pub language: String,
    pub kind: String,
    pub name: String,
    pub qualified_name: Option<String>,
    pub signature: Option<String>,
    pub declaration: Option<ArtifactRange>,
    pub name_range: Option<ArtifactRange>,
    pub owner_id: Option<String>,
    pub modifiers: Seq<String>,
    pub applied_symbol_ids: Seq<String>,
    pub freshness: String,
    pub completeness: String,
    pub component_id: String,
    pub provenance_index: Option<u32>,
    pub owner_symbol_ordinal: Option<u32>,
}

impl View for ArtifactSymbol {
    type V = ArtifactSymbolView;

    open spec fn view(&self) -> ArtifactSymbolView {
        ArtifactSymbolView {
            id: self.id,
            backend_key: self.backend_key,
            backend_schema_version: self.backend_schema_version,
            language: self.language,
            kind: self.kind,
            name: self.name,
            qualified_name: self.qualified_name,
            signature: self.signature,
            declaration: self.declaration,
            name_range: self.name_range,
            owner_id: self.owner_id,
            modifiers: self.modifiers@,
            applied_symbol_ids: self.applied_symbol_ids@,
            freshness: self.freshness,
            completeness: self.completeness,
            component_id: self.component_id,
            provenance_index: self.provenance_index,
            owner_symbol_ordinal: self.owner_symbol_ordinal,
        }
    }
}

impl Clone for ArtifactSymbol {
    fn clone(&self) -> (result: Self)
        ensures
            result@ == self@,
    {
        let result = ArtifactSymbol {
            id: self.id.clone(),
            backend_key: self.backend_key.clone(),
            backend_schema_version: self.backend_schema_version,
            language: self.language.clone(),
            kind: self.kind.clone(),
            name: self.name.clone(),
            qualified_name: self.qualified_name.clone(),
            signature: self.signature.clone(),
            declaration: self.declaration,
            name_range: self.name_range,
            owner_id: self.owner_id.clone(),
            modifiers: self.modifiers.clone(),
            applied_symbol_ids: self.applied_symbol_ids.clone(),
            freshness: self.freshness.clone(),
            completeness: self.completeness.clone(),
            component_id: self.component_id.clone(),
            provenance_index: self.provenance_index,
            owner_symbol_ordinal: self.owner_symbol_ordinal,
        };
        assert(result.modifiers@ =~= self.modifiers@);
        assert(result.applied_symbol_ids@ =~= self.applied_symbol_ids@);
        result
    }
}

/// A source interval.
#[derive(Debug, PartialEq, Eq, Default)]
pub struct ArtifactOccurrence {
    pub location: Option<ArtifactLocation>,
    pub kind: String,
    pub enclosing_symbol_id: Option<String>,
    pub target_symbol_id: Option<String>,
    pub type_id: Option<String>,
    pub precision: String,
    pub freshness: String,
    pub completeness: String,
    pub provenance_index: Option<u32>,
    pub enclosing_symbol_ordinal: Option<u32>,
    pub target_symbol_ordinal: Option<u32>,
}

impl Clone for ArtifactOccurrence {
    fn clone(&self) -> (result: Self)
        ensures
            result == *self,
    {
        ArtifactOccurrence {
            location: self.location,
            kind: self.kind.clone(),
            enclosing_symbol_id: self.enclosing_symbol_id.clone(),
            target_symbol_id: self.target_symbol_id.clone(),
            type_id: self.type_id.clone(),
            precision: self.precision.clone(),
            freshness: self.freshness.clone(),
            completeness: self.completeness.clone(),
            provenance_index: self.provenance_index,
            enclosing_symbol_ordinal: self.enclosing_symbol_ordinal,
            target_symbol_ordinal: self.target_symbol_ordinal,
        }
    }
}

/// A use of a declaration.
#[derive(Debug, PartialEq, Eq, Default)]
pub struct ArtifactReference {
    pub source_occurrence_index: u32,
    pub target_symbol_id: String,
    pub precision: String,
    pub target_symbol_ordinal: Option<u32>,
}

impl Clone for ArtifactReference {
    fn clone(&self) -> (result: Self)
        ensures
            result == *self,
    {
        ArtifactReference {
            source_occurrence_index: self.source_occurrence_index,
            target_symbol_id: self.target_symbol_id.clone(),
            precision: self.precision.clone(),
            target_symbol_ordinal: self.target_symbol_ordinal,
        }
    }
}

/// A call site.
#[derive(Debug, PartialEq, Eq, Default)]
pub struct ArtifactCall {
    pub source_occurrence_index: u32,
    pub target_symbol_id: String,
    pub caller_symbol_id: Option<String>,
    pub precision: String,
    pub target_symbol_ordinal: Option<u32>,
    pub caller_symbol_ordinal: Option<u32>,
}

impl Clone for ArtifactCall {
    fn clone(&self) -> (result: Self)
        ensures
            result == *self,
    {
        ArtifactCall {
            source_occurrence_index: self.source_occurrence_index,
            target_symbol_id: self.target_symbol_id.clone(),
            caller_symbol_id: self.caller_symbol_id.clone(),
            precision: self.precision.clone(),
            target_symbol_ordinal: self.target_symbol_ordinal,
            caller_symbol_ordinal: self.caller_symbol_ordinal,
        }
    }
}

/// A subtype relation.
#[derive(Debug, PartialEq, Eq, Default)]
pub struct ArtifactHierarchy {
    pub subtype_symbol_id: String,
    pub supertype_symbol_id: String,
    pub precision: String,
    pub provenance_index: Option<u32>,
    pub subtype_symbol_ordinal: Option<u32>,
    pub supertype_symbol_ordinal: Option<u32>,
}

impl Clone for ArtifactHierarchy {
    fn clone(&self) -> (result: Self)
        ensures
            result == *self,
    {
        ArtifactHierarchy {
            subtype_symbol_id: self.subtype_symbol_id.clone(),
            supertype_symbol_id: self.supertype_symbol_id.clone(),
            precision: self.precision.clone(),
            provenance_index: self.provenance_index,
            subtype_symbol_ordinal: self.subtype_symbol_ordinal,
            supertype_symbol_ordinal: self.supertype_symbol_ordinal,
        }
    }
}

/// A type fact.
#[derive(Debug, PartialEq, Eq, Default)]
pub struct ArtifactType {
    pub id: String,
    pub language: String,
    pub display: String,
    pub backend_key: Option<String>,
    pub backend_schema_version: Option<u32>,
    pub freshness: String,
    pub completeness: String,
    pub provenance_index: Option<u32>,
}

impl Clone for ArtifactType {
    fn clone(&self) -> (result: Self)
        ensures
            result == *self,
    {
        ArtifactType {
            id: self.id.clone(),
            language: self.language.clone(),
            display: self.display.clone(),
            backend_key: self.backend_key.clone(),
            backend_schema_version: self.backend_schema_version,
            freshness: self.freshness.clone(),
            completeness: self.completeness.clone(),
            provenance_index: self.provenance_index,
        }
    }
}

/// A message about a source unit.
#[derive(Debug, PartialEq, Eq, Default)]
pub struct ArtifactDiagnostic {
    pub source_unit_index: u32,
    pub range: Option<ArtifactRange>,
    pub severity: String,
    pub code: Option<String>,
    pub message: String,
    pub freshness: String,
    pub completeness: String,
    pub provenance_index: Option<u32>,
}

impl Clone for ArtifactDiagnostic {
    fn clone(&self) -> (result: Self)
        ensures
            result == *self,
    {
        ArtifactDiagnostic {
            source_unit_index: self.source_unit_index,
            range: self.range,
            severity: self.severity.clone(),
            code: self.code.clone(),
            message: self.message.clone(),
            freshness: self.freshness.clone(),
            completeness: self.completeness.clone(),
            provenance_index: self.provenance_index,
        }
    }
}

/// Every fact of one source unit.
#[derive(Debug, Clone, PartialEq, Eq, Default)]
pub struct GraphSnapshot {
    pub source_unit: Option<ArtifactSourceUnit>,
    pub structural_fingerprint: Option<String>,
    pub public_api_fingerprint: Option<String>,
    pub provenances: Vec<ArtifactProvenance>,
    pub symbols: Vec<ArtifactSymbol>,
    pub occurrences: Vec<ArtifactOccurrence>,
    pub references: Vec<ArtifactReference>,
    pub calls: Vec<ArtifactCall>,
    pub hierarchy: Vec<ArtifactHierarchy>,
    pub types: Vec<ArtifactType>,
    pub diagnostics: Vec<ArtifactDiagnostic>,
    pub completeness: String,
    pub provenance_index: Option<u32>,
}

/// The snapshots of one artifact.
#[derive(Debug, Clone, PartialEq, Eq, Default)]
pub struct GraphArtifact {
    pub snapshots: Vec<GraphSnapshot>,
}

/// What frames an encoded artifact: its format, and the length and digest of
/// its payload.
#[derive(Debug, Clone, PartialEq, Eq, Default)]
pub struct ArtifactEnvelope {
    pub format_version: u32,
    pub payload_length: u64,
    pub payload_sha256: Vec<u8>,
}

/// The identity of one declaration.
#[derive(Debug, PartialEq, Eq, Default)]
pub struct ArtifactSymbolDictionaryEntry {
    pub id: String,
    pub name: String,
}

impl Clone for ArtifactSymbolDictionaryEntry {
    fn clone(&self) -> (result: Self)
        ensures
            result == *self,
    {
        ArtifactSymbolDictionaryEntry {
            id: self.id.clone(),
            name: self.name.clone(),
        }
    }
}

/// Every declaration of an artifact, by ordinal.
#[derive(Debug, Clone, PartialEq, Eq, Default)]
pub struct ArtifactSymbolDictionary {
    pub entries: Vec<ArtifactSymbolDictionaryEntry>,
}

/// Where the declaration of an ordinal stands.
#[derive(Debug, Clone, Copy, PartialEq, Eq, Structural, Default)]
pub struct ArtifactSymbolPosting {
    pub source_unit_index: u32,
    pub symbol_ordinal: u32,
}

/// The postings of an artifact, by ordinal.
#[derive(Debug, Clone, PartialEq, Eq, Default)]
pub struct ArtifactSymbolPostings {
    pub entries: Vec<ArtifactSymbolPosting>,
}

/// A subtype relation, without its provenance.
#[derive(Debug, PartialEq, Eq, Default)]
pub struct ArtifactHierarchyPosting {
    pub subtype_symbol_id: String,
    pub supertype_symbol_id: String,
    pub precision: String,
}

impl Clone for ArtifactHierarchyPosting {
    fn clone(&self) -> (result: Self)
        ensures
            result == *self,
    {
        ArtifactHierarchyPosting {
            subtype_symbol_id: self.subtype_symbol_id.clone(),
            supertype_symbol_id: self.supertype_symbol_id.clone(),
            precision: self.precision.clone(),
        }
    }
}

/// The subtype relations of an artifact.
#[derive(Debug, Clone, PartialEq, Eq, Default)]
pub struct ArtifactHierarchyPostings {
    pub entries: Vec<ArtifactHierarchyPosting>,
}

/// A qualified name and the ordinal that declares it.
#[derive(Debug, PartialEq, Eq, Default)]
pub struct ArtifactQualifiedSymbolEntry {
    pub qualified_name: String,
    pub symbol_ordinal: u32,
}

impl Clone for ArtifactQualifiedSymbolEntry {
    fn clone(&self) -> (result: Self)
        ensures
            result == *self,
    {
        ArtifactQualifiedSymbolEntry {
            qualified_name: self.qualified_name.clone(),
            symbol_ordinal: self.symbol_ordinal,
        }
    }
}

/// The qualified names of an artifact, in order.
#[derive(Debug, Clone, PartialEq, Eq, Default)]
pub struct ArtifactQualifiedSymbolDirectory {
    pub entries: Vec<ArtifactQualifiedSymbolEntry>,
}

/// A declaration relative to the defaults of its block: what equals the default
/// is left out, and repeated texts are indexes into the string table.
#[derive(Debug, Clone, PartialEq, Eq, Default)]
pub struct ArtifactSymbolDetail {
    pub id: String,
    pub backend_key: String,
    pub backend_schema_version: u32,
    pub kind: String,
    pub name: String,
    pub qualified_name: Option<String>,
    pub signature: Option<String>,
    pub declaration: Option<ArtifactRange>,
    pub name_range: Option<ArtifactRange>,
    pub owner_id: Option<String>,
    pub modifiers: Vec<String>,
    pub applied_symbol_ids: Vec<String>,
    pub language: Option<String>,
    pub freshness: Option<String>,
    pub completeness: Option<String>,
    pub component_id: Option<String>,
    pub provenance_index: Option<u32>,
    pub backend_key_string_index: Option<u32>,
    pub kind_string_index: Option<u32>,
    pub name_string_index: Option<u32>,
    pub qualified_name_string_index: Option<u32>,
    pub signature_string_index: Option<u32>,
    pub owner_id_string_index: Option<u32>,
    pub modifier_string_indexes: Vec<u32>,
    pub applied_symbol_string_indexes: Vec<u32>,
}

/// What the entries of a block have in common.
#[derive(Debug, Clone, PartialEq, Eq, Default)]
pub struct ArtifactSymbolSnapshotDefaults {
    pub source_unit: Option<ArtifactSourceUnit>,
    pub provenances: Vec<ArtifactProvenance>,
    pub language: String,
    pub freshness: String,
    pub completeness: String,
    pub component_id: String,
    pub provenance_index: Option<u32>,
    pub string_table: Vec<String>,
}

/// The details of consecutive ordinals.
#[derive(Debug, Clone, PartialEq, Eq, Default)]
pub struct ArtifactSymbolDetailBlock {
    pub first_symbol_ordinal: u32,
    pub defaults: Option<ArtifactSymbolSnapshotDefaults>,
    pub entries: Vec<ArtifactSymbolDetail>,
}

/// The kinds of sections in a blob.
#[derive(Debug, Clone, Copy, PartialEq, Eq, Structural)]
pub enum ArtifactBlobSectionKind {
    SymbolDictionary,
    SymbolPostings,
    HierarchyPostings,
    QualifiedSymbolDirectory,
    GraphFacts,
    SymbolDetailBlock,
}

/// One entry of a blob's table of contents. A kind that this reader does not
/// know is kept as none.
#[derive(Debug, Clone, PartialEq, Eq)]
pub struct ArtifactBlobSection {
    pub kind: Option<ArtifactBlobSectionKind>,
    pub offset: u64,
    pub length: u64,
    pub sha256: Vec<u8>,
    pub compression: i32,
    pub symbol_ordinal_start: u32,
    pub symbol_ordinal_end: u32,
}

/// The table of contents of a blob.
#[derive(Debug, Clone, PartialEq, Eq)]
pub struct ArtifactBlobToc {
    pub layout_version: u32,
    pub sections: Vec<ArtifactBlobSection>,
}

} // verus!
