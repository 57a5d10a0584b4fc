//! Conversion and validation for persistent graph artifacts.
//!
//! Facts that name a declaration of the same artifact store its ordinal in
//! place of its id, and facts that have the provenance of their snapshot store
//! none of their own.

use vstd::prelude::*;

use crate::artifact_proto::{
    ArtifactCall, ArtifactDiagnostic, ArtifactEnvelope, ArtifactHierarchy, ArtifactLocation,
    ArtifactOccurrence, ArtifactProvenance, ArtifactRange, ArtifactReference, ArtifactSourceUnit,
    ArtifactSymbol, ArtifactSymbolDetailBlock, ArtifactType, GraphArtifact, GraphSnapshot,
};
use crate::canonical::{ByteRange, SymbolRecord};
use crate::dependency_identity;
use crate::digest;
use crate::identifiers;
use crate::ordered_map::OrderedMap;
use crate::protocol;
use crate::symbol_detail;
use crate::symbol_detail::expand_detail;
use crate::text;
use crate::value_names;
use crate::worker_proto;
use crate::worker_proto_adapter;
use crate::worker_proto_adapter::{
    decode_file_analysis_snapshot, decode_symbol_declaration, file_analysis_snapshot, AdapterError,
};
use crate::worker_proto::{
    CallEdge, Diagnostic, FileAnalysisSnapshot, HierarchyEdge, Occurrence, ReferenceEdge,
    SourceLocation, SymbolDeclaration, TypeRecord,
};

verus! {

/// Version of the artifact envelope.
pub const ARTIFACT_FORMAT_VERSION: u32 = 1;

/// Why stored artifact bytes are refused.
#[derive(Debug, Clone, PartialEq, Eq)]
pub enum ArtifactProtoError {
    UnsupportedVersion(u32),
    LengthMismatch,
    ChecksumMismatch,
    Decode(String),
    Canonical(AdapterError),
}

impl ArtifactProtoError {
    /// The message that is shown for an error.
    pub open spec fn message_text(&self) -> Seq<char> {
        match self {
            ArtifactProtoError::UnsupportedVersion(version) => {
                "unsupported graph artifact format version "@
                + text::decimal_text(*version as nat)
            },
            ArtifactProtoError::LengthMismatch => {
                "graph artifact payload length does not match its envelope"@
            },
            ArtifactProtoError::ChecksumMismatch => {
                "graph artifact payload checksum does not match its envelope"@
            },
            ArtifactProtoError::Decode(cause) => {
                "graph artifact protobuf failed to decode: "@ + cause@
            },
            ArtifactProtoError::Canonical(error) => {
                "graph artifact cannot represent the canonical snapshot: "@
                + error.message_text()
            },
        }
    }

    /// Computes `message_text`.
    pub fn message(&self) -> (result: String)
        ensures
            result@ == self.message_text(),
    {
        match self {
            ArtifactProtoError::UnsupportedVersion(version) => text::join_text(
                "unsupported graph artifact format version ",
                text::decimal(*version as u64).as_str(),
            ),
            ArtifactProtoError::LengthMismatch => {
                "graph artifact payload length does not match its envelope".to_owned()
            },
            ArtifactProtoError::ChecksumMismatch => {
                "graph artifact payload checksum does not match its envelope".to_owned()
            },
            ArtifactProtoError::Decode(cause) => text::join_text(
                "graph artifact protobuf failed to decode: ",
                cause.as_str(),
            ),
            ArtifactProtoError::Canonical(error) => text::join_text(
                "graph artifact cannot represent the canonical snapshot: ",
                error.message().as_str(),
            ),
        }
    }
}

/// The stored form of a range.
pub open spec fn artifact_range(range: Option<ByteRange>) -> Option<ArtifactRange> {
    match range {
        Some(range) => Some(ArtifactRange { start: range.start, end: range.end }),
        None => None,
    }
}

/// The range of a stored form.
pub open spec fn worker_range(range: Option<ArtifactRange>) -> Option<ByteRange> {
    match range {
        Some(range) => Some(ByteRange { start: range.start, end: range.end }),
        None => None,
    }
}

/// The stored form of a location.
pub open spec fn artifact_location(location: Option<SourceLocation>) -> Option<ArtifactLocation> {
    match location {
        Some(location) => Some(
            ArtifactLocation {
                source_unit_index: location.source_unit_index,
                range: artifact_range(location.range),
            },
        ),
        None => None,
    }
}

/// The location of a stored form.
pub open spec fn worker_location(location: Option<ArtifactLocation>) -> Option<SourceLocation> {
    match location {
        Some(location) => Some(
            SourceLocation {
                source_unit_index: location.source_unit_index,
                range: worker_range(location.range),
            },
        ),
        None => None,
    }
}

/// The provenance index that a fact stores of its own: none where it is the
/// one of its snapshot.
pub open spec fn own_provenance(value: u32, snapshot: u32) -> Option<u32> {
    if value != snapshot {
        Some(value)
    } else {
        None
    }
}

/// The provenance index of a fact: its own, else the one of its snapshot.
pub open spec fn restored_provenance(value: Option<u32>, snapshot: u32) -> u32 {
    match value {
        Some(value) => value,
        None => snapshot,
    }
}

/// The ordinal of an id that is declared in the same artifact.
pub open spec fn ordinal_of(ordinals: Map<Seq<char>, u32>, id: Seq<char>) -> Option<u32> {
    if ordinals.dom().contains(id) {
        Some(ordinals[id])
    } else {
        None
    }
}

/// The ordinal of an optional id.
pub open spec fn optional_ordinal(ordinals: Map<Seq<char>, u32>, id: Option<Seq<char>>) -> Option<
    u32,
> {
    match id {
        Some(id) => ordinal_of(ordinals, id),
        None => None,
    }
}

/// What of an id is stored beside its ordinal: nothing, where it has one.
pub open spec fn inlined_id(ordinals: Map<Seq<char>, u32>, id: Seq<char>) -> Seq<char> {
    if ordinals.dom().contains(id) {
        Seq::empty()
    } else {
        id
    }
}

/// What of an optional id is stored beside its ordinal.
pub open spec fn inlined_optional(
    ordinals: Map<Seq<char>, u32>,
    id: Option<Seq<char>>,
) -> Option<Seq<char>> {
    match id {
        Some(id) => if ordinals.dom().contains(id) {
            None
        } else {
            Some(id)
        },
        None => None,
    }
}

/// The id that an ordinal or an inlined text stands for. An ordinal that the
/// artifact does not have stands for the empty id.
pub open spec fn restored_id(
    inline: Seq<char>,
    ordinal: Option<u32>,
    ids: Seq<Seq<char>>,
) -> Seq<char> {
    match ordinal {
        Some(ordinal) => if ordinal < ids.len() {
            ids[ordinal as int]
        } else {
            Seq::empty()
        },
        None => inline,
    }
}

/// The optional id that an ordinal or an inlined text stands for. An ordinal
/// that the artifact does not have leaves the inlined text.
pub open spec fn restored_optional(
    inline: Option<Seq<char>>,
    ordinal: Option<u32>,
    ids: Seq<Seq<char>>,
) -> Option<Seq<char>> {
    match ordinal {
        Some(ordinal) => if ordinal < ids.len() {
            Some(ids[ordinal as int])
        } else {
            inline
        },
        None => inline,
    }
}

fn range(value: &Option<ByteRange>) -> (result: Option<ArtifactRange>)
    ensures
        result == artifact_range(*value),
{
    match value {
        Some(value) => Some(ArtifactRange { start: value.start, end: value.end }),
        None => None,
    }
}

fn decode_range(value: &Option<ArtifactRange>) -> (result: Option<ByteRange>)
    ensures
        result == worker_range(*value),
{
    match value {
        Some(value) => Some(ByteRange { start: value.start, end: value.end }),
        None => None,
    }
}

fn location(value: &Option<SourceLocation>) -> (result: Option<ArtifactLocation>)
    ensures
        result == artifact_location(*value),
{
    match value {
        Some(value) => Some(
            ArtifactLocation {
                source_unit_index: value.source_unit_index,
                range: range(&value.range),
            },
        ),
        None => None,
    }
}

fn decode_location(value: &Option<ArtifactLocation>) -> (result: Option<SourceLocation>)
    ensures
        result == worker_location(*value),
{
    match value {
        Some(value) => Some(
            SourceLocation {
                source_unit_index: value.source_unit_index,
                range: decode_range(&value.range),
            },
        ),
        None => None,
    }
}

fn inherited_provenance_index(value: u32, snapshot: u32) -> (result: Option<u32>)
    ensures
        result == own_provenance(value, snapshot),
{
    if value != snapshot {
        Some(value)
    } else {
        None
    }
}

fn local_ordinal(value: &str, ordinals: &OrderedMap<u32>) -> (result: Option<u32>)
    requires
        ordinals.wf(),
    ensures
        result == ordinal_of(ordinals@, value@),
{
    match ordinals.get(value) {
        Some(ordinal) => Some(*ordinal),
        None => None,
    }
}

fn optional_local_ordinal(value: &Option<String>, ordinals: &OrderedMap<u32>) -> (result: Option<
    u32,
>)
    requires
        ordinals.wf(),
    ensures
        result == optional_ordinal(ordinals@, dependency_identity::option_view(*value)),
{
    match value {
        Some(value) => local_ordinal(value.as_str(), ordinals),
        None => None,
    }
}

fn inline_id(value: &String, ordinals: &OrderedMap<u32>) -> (result: String)
    requires
        ordinals.wf(),
    ensures
        result@ == inlined_id(ordinals@, value@),
{
    if ordinals.contains_key(value.as_str()) {
        String::new()
    } else {
        value.clone()
    }
}

fn inline_optional(value: &Option<String>, ordinals: &OrderedMap<u32>) -> (result: Option<String>)
    requires
        ordinals.wf(),
    ensures
        dependency_identity::option_view(result) == inlined_optional(
            ordinals@,
            dependency_identity::option_view(*value),
        ),
{
    match value {
        Some(value) => if ordinals.contains_key(value.as_str()) {
            None
        } else {
            Some(value.clone())
        },
        None => None,
    }
}

fn local_id(inline: &String, ordinal: Option<u32>, ids: &[String]) -> (result: String)
    ensures
        result@ == restored_id(inline@, ordinal, text::texts(ids@)),
{
    match ordinal {
        Some(ordinal) => if (ordinal as usize) < ids.len() {
            ids[ordinal as usize].clone()
        } else {
            String::new()
        },
        None => inline.clone(),
    }
}

fn local_optional(inline: &Option<String>, ordinal: Option<u32>, ids: &[String]) -> (result: Option<
    String,
>)
    ensures
        dependency_identity::option_view(result) == restored_optional(
            dependency_identity::option_view(*inline),
            ordinal,
            text::texts(ids@),
        ),
{
    match ordinal {
        Some(ordinal) => if (ordinal as usize) < ids.len() {
            Some(ids[ordinal as usize].clone())
        } else {
            inline.clone()
        },
        None => inline.clone(),
    }
}

/// Whether a stored source unit holds the given one.
pub open spec fn stores_source_unit(
    stored: ArtifactSourceUnit,
    value: worker_proto::SourceUnit,
) -> bool {
    &&& stored.id == value.id
    &&& stored.component == value.component
    &&& stored.path == value.path
    &&& stored.language == value.language
    &&& stored.origin == value.origin
    &&& stored.content_fingerprint == value.content
    &&& stored.context_fingerprint == value.context
}

fn source_unit(value: &worker_proto::SourceUnit) -> (result: ArtifactSourceUnit)
    ensures
        stores_source_unit(result, *value),
{
    ArtifactSourceUnit {
        id: value.id.clone(),
        component: value.component.clone(),
        path: value.path.clone(),
        language: value.language.clone(),
        origin: value.origin.clone(),
        content_fingerprint: value.content.clone(),
        context_fingerprint: value.context.clone(),
    }
}

fn decode_source_unit(value: &ArtifactSourceUnit) -> (result: worker_proto::SourceUnit)
    ensures
        stores_source_unit(*value, result),
{
    worker_proto::SourceUnit {
        id: value.id.clone(),
        component: value.component.clone(),
        path: value.path.clone(),
        language: value.language.clone(),
        origin: value.origin.clone(),
        content: value.content_fingerprint.clone(),
        context: value.context_fingerprint.clone(),
    }
}

/// Whether a stored provenance holds the given one.
pub open spec fn stores_provenance(
    stored: ArtifactProvenance,
    value: worker_proto::Provenance,
) -> bool {
    &&& stored.backend == value.backend
    &&& stored.backend_version == value.backend_version
    &&& stored.worker_protocol_version == value.protocol_version
    &&& stored.analysis_options_fingerprint == value.analysis_options_fingerprint
}

fn provenance(value: &worker_proto::Provenance) -> (result: ArtifactProvenance)
    ensures
        stores_provenance(result, *value),
{
    ArtifactProvenance {
        backend: value.backend.clone(),
        backend_version: value.backend_version.clone(),
        worker_protocol_version: value.protocol_version,
        analysis_options_fingerprint: value.analysis_options_fingerprint.clone(),
    }
}

fn decode_provenance(value: &ArtifactProvenance) -> (result: worker_proto::Provenance)
    ensures
        stores_provenance(*value, result),
{
    worker_proto::Provenance {
        backend: value.backend.clone(),
        backend_version: value.backend_version.clone(),
        protocol_version: value.worker_protocol_version,
        analysis_options_fingerprint: value.analysis_options_fingerprint.clone(),
    }
}

/// Whether a stored symbol holds the given one.
pub open spec fn stores_symbol(stored: ArtifactSymbol, value: SymbolDeclaration, snapshot_provenance: u32, ordinals: Map<Seq<char>, u32>) -> bool {
    &&& stored.id == value.id
    &&& stored.backend_key == value.backend_key
    &&& stored.backend_schema_version == value.backend_schema_version
    &&& stored.language == value.language
    &&& stored.kind == value.kind
    &&& stored.name == value.name
    &&& stored.qualified_name == value.qualified_name
    &&& stored.signature == value.signature
    &&& stored.freshness == value.freshness
    &&& stored.completeness == value.completeness
    &&& stored.component_id == value.component_id
    &&& stored.declaration == artifact_range(value.declaration)
    &&& stored.name_range == artifact_range(value.name_range)
    &&& stored.modifiers@ == value.modifiers@
    &&& stored.applied_symbol_ids@ == value.applied_symbol_ids@
    &&& dependency_identity::option_view(stored.owner_id) == inlined_optional(
        ordinals,
        dependency_identity::option_view(value.owner_id),
    )
    &&& stored.owner_symbol_ordinal == optional_ordinal(ordinals, dependency_identity::option_view(value.owner_id))
    &&& stored.provenance_index == own_provenance(value.provenance_index, snapshot_provenance)
}

/// Whether a symbol is the one that a stored form holds.
pub open spec fn restores_symbol(value: SymbolDeclaration, stored: ArtifactSymbol, snapshot_provenance: u32, ids: Seq<Seq<char>>) -> bool {
    &&& value.id == stored.id
    &&& value.backend_key == stored.backend_key
    &&& value.backend_schema_version == stored.backend_schema_version
    &&& value.language == stored.language
    &&& value.kind == stored.kind
    &&& value.name == stored.name
    &&& value.qualified_name == stored.qualified_name
    &&& value.signature == stored.signature
    &&& value.freshness == stored.freshness
    &&& value.completeness == stored.completeness
    &&& value.component_id == stored.component_id
    &&& value.declaration == worker_range(stored.declaration)
    &&& value.name_range == worker_range(stored.name_range)
    &&& value.modifiers@ == stored.modifiers@
    &&& value.applied_symbol_ids@ == stored.applied_symbol_ids@
    &&& value.source_unit_index == 0
    &&& dependency_identity::option_view(value.owner_id) == restored_optional(
        dependency_identity::option_view(stored.owner_id),
        stored.owner_symbol_ordinal,
        ids,
    )
    &&& value.provenance_index == restored_provenance(
        stored.provenance_index,
        snapshot_provenance,
    )
}

/// Whether two symbols say the same.
pub open spec fn same_symbol(a: SymbolDeclaration, b: SymbolDeclaration) -> bool {
    &&& a.id == b.id
    &&& a.backend_key == b.backend_key
    &&& a.backend_schema_version == b.backend_schema_version
    &&& a.language == b.language
    &&& a.kind == b.kind
    &&& a.name == b.name
    &&& a.qualified_name == b.qualified_name
    &&& a.signature == b.signature
    &&& a.freshness == b.freshness
    &&& a.completeness == b.completeness
    &&& a.component_id == b.component_id
    &&& a.declaration == b.declaration
    &&& a.name_range == b.name_range
    &&& a.modifiers@ == b.modifiers@
    &&& a.applied_symbol_ids@ == b.applied_symbol_ids@
    &&& dependency_identity::option_view(a.owner_id) == dependency_identity::option_view(
        b.owner_id,
    )
    &&& a.provenance_index == b.provenance_index
    &&& a.source_unit_index == b.source_unit_index
}

fn store_symbol(value: &SymbolDeclaration, snapshot_provenance: u32, ordinals: &OrderedMap<u32>) -> (result: ArtifactSymbol)
    requires
        ordinals.wf(),
    ensures
        stores_symbol(result, *value, snapshot_provenance, ordinals@),
{
    let modifiers = value.modifiers.clone();
    assert(modifiers@ =~= value.modifiers@);
    let applied_symbol_ids = value.applied_symbol_ids.clone();
    assert(applied_symbol_ids@ =~= value.applied_symbol_ids@);
    ArtifactSymbol {
        id: value.id.clone(),
        backend_key: value.backend_key.clone(),
        backend_schema_version: value.backend_schema_version,
        language: value.language.clone(),
        kind: value.kind.clone(),
        name: value.name.clone(),
        qualified_name: value.qualified_name.clone(),
        signature: value.signature.clone(),
        freshness: value.freshness.clone(),
        completeness: value.completeness.clone(),
        component_id: value.component_id.clone(),
        declaration: range(&value.declaration),
        name_range: range(&value.name_range),
        modifiers,
        applied_symbol_ids,
        owner_id: inline_optional(&value.owner_id, ordinals),
        owner_symbol_ordinal: optional_local_ordinal(&value.owner_id, ordinals),
        provenance_index: inherited_provenance_index(value.provenance_index, snapshot_provenance),
    }
}

fn decode_symbol(stored: &ArtifactSymbol, snapshot_provenance: u32, ids: &[String]) -> (result: SymbolDeclaration)
    ensures
        restores_symbol(result, *stored, snapshot_provenance, text::texts(ids@)),
{
    let modifiers = stored.modifiers.clone();
    assert(modifiers@ =~= stored.modifiers@);
    let applied_symbol_ids = stored.applied_symbol_ids.clone();
    assert(applied_symbol_ids@ =~= stored.applied_symbol_ids@);
    SymbolDeclaration {
        id: stored.id.clone(),
        backend_key: stored.backend_key.clone(),
        backend_schema_version: stored.backend_schema_version,
        language: stored.language.clone(),
        kind: stored.kind.clone(),
        name: stored.name.clone(),
        qualified_name: stored.qualified_name.clone(),
        signature: stored.signature.clone(),
        freshness: stored.freshness.clone(),
        completeness: stored.completeness.clone(),
        component_id: stored.component_id.clone(),
        declaration: decode_range(&stored.declaration),
        name_range: decode_range(&stored.name_range),
        modifiers,
        applied_symbol_ids,
        source_unit_index: 0,
        owner_id: local_optional(&stored.owner_id, stored.owner_symbol_ordinal, ids),
        provenance_index: match stored.provenance_index {
            Some(index) => index,
            None => snapshot_provenance,
        },
    }
}

fn store_all_symbols(values: &[SymbolDeclaration], snapshot_provenance: u32, ordinals: &OrderedMap<u32>) -> (result: Vec<ArtifactSymbol>)
    requires
        ordinals.wf(),
    ensures
        result@.len() == values@.len(),
        forall|i: int|
            0 <= i < values@.len() ==> stores_symbol(#[trigger] result@[i], values@[i], snapshot_provenance, ordinals@),
{
    let mut result: Vec<ArtifactSymbol> = Vec::new();
    let mut i: usize = 0;
    while i < values.len()
        invariant
            ordinals.wf(),
            i <= values@.len(),
            result@.len() == i,
            forall|j: int|
                0 <= j < i ==> stores_symbol(#[trigger] result@[j], values@[j], snapshot_provenance, ordinals@),
        decreases values@.len() - i,
    {
        result.push(store_symbol(&values[i], snapshot_provenance, ordinals));
        i = i + 1;
    }
    result
}

fn decode_all_symbols(stored: &[ArtifactSymbol], snapshot_provenance: u32, ids: &[String]) -> (result: Vec<SymbolDeclaration>)
    ensures
        result@.len() == stored@.len(),
        forall|i: int|
            0 <= i < stored@.len() ==> restores_symbol(#[trigger] result@[i], stored@[i], snapshot_provenance, text::texts(ids@)),
{
    let mut result: Vec<SymbolDeclaration> = Vec::new();
    let mut i: usize = 0;
    while i < stored.len()
        invariant
            i <= stored@.len(),
            result@.len() == i,
            forall|j: int|
                0 <= j < i ==> restores_symbol(#[trigger] result@[j], stored@[j], snapshot_provenance, text::texts(ids@)),
        decreases stored@.len() - i,
    {
        result.push(decode_symbol(&stored[i], snapshot_provenance, ids));
        i = i + 1;
    }
    result
}

/// Whether a stored occurrence holds the given one.
pub open spec fn stores_occurrence(stored: ArtifactOccurrence, value: Occurrence, snapshot_provenance: u32, ordinals: Map<Seq<char>, u32>) -> bool {
    &&& stored.kind == value.kind
    &&& stored.type_id == value.type_id
    &&& stored.precision == value.precision
    &&& stored.freshness == value.freshness
    &&& stored.completeness == value.completeness
    &&& stored.location == artifact_location(value.location)
    &&& dependency_identity::option_view(stored.enclosing_symbol_id) == inlined_optional(
        ordinals,
        dependency_identity::option_view(value.enclosing_symbol_id),
    )
    &&& stored.enclosing_symbol_ordinal == optional_ordinal(ordinals, dependency_identity::option_view(value.enclosing_symbol_id))
    &&& dependency_identity::option_view(stored.target_symbol_id) == inlined_optional(
        ordinals,
        dependency_identity::option_view(value.target_symbol_id),
    )
    &&& stored.target_symbol_ordinal == optional_ordinal(ordinals, dependency_identity::option_view(value.target_symbol_id))
    &&& stored.provenance_index == own_provenance(value.provenance_index, snapshot_provenance)
}

/// Whether an occurrence is the one that a stored form holds.
pub open spec fn restores_occurrence(value: Occurrence, stored: ArtifactOccurrence, snapshot_provenance: u32, ids: Seq<Seq<char>>) -> bool {
    &&& value.kind == stored.kind
    &&& value.type_id == stored.type_id
    &&& value.precision == stored.precision
    &&& value.freshness == stored.freshness
    &&& value.completeness == stored.completeness
    &&& value.location == worker_location(stored.location)
    &&& dependency_identity::option_view(value.enclosing_symbol_id) == restored_optional(
        dependency_identity::option_view(stored.enclosing_symbol_id),
        stored.enclosing_symbol_ordinal,
        ids,
    )
    &&& dependency_identity::option_view(value.target_symbol_id) == restored_optional(
        dependency_identity::option_view(stored.target_symbol_id),
        stored.target_symbol_ordinal,
        ids,
    )
    &&& value.provenance_index == restored_provenance(
        stored.provenance_index,
        snapshot_provenance,
    )
}

/// Whether two occurrences say the same.
pub open spec fn same_occurrence(a: Occurrence, b: Occurrence) -> bool {
    &&& a.kind == b.kind
    &&& a.type_id == b.type_id
    &&& a.precision == b.precision
    &&& a.freshness == b.freshness
    &&& a.completeness == b.completeness
    &&& a.location == b.location
    &&& dependency_identity::option_view(a.enclosing_symbol_id) == dependency_identity::option_view(
        b.enclosing_symbol_id,
    )
    &&& dependency_identity::option_view(a.target_symbol_id) == dependency_identity::option_view(
        b.target_symbol_id,
    )
    &&& a.provenance_index == b.provenance_index
}

fn store_occurrence(value: &Occurrence, snapshot_provenance: u32, ordinals: &OrderedMap<u32>) -> (result: ArtifactOccurrence)
    requires
        ordinals.wf(),
    ensures
        stores_occurrence(result, *value, snapshot_provenance, ordinals@),
{
    ArtifactOccurrence {
        kind: value.kind.clone(),
        type_id: value.type_id.clone(),
        precision: value.precision.clone(),
        freshness: value.freshness.clone(),
        completeness: value.completeness.clone(),
        location: location(&value.location),
        enclosing_symbol_id: inline_optional(&value.enclosing_symbol_id, ordinals),
        enclosing_symbol_ordinal: optional_local_ordinal(&value.enclosing_symbol_id, ordinals),
        target_symbol_id: inline_optional(&value.target_symbol_id, ordinals),
        target_symbol_ordinal: optional_local_ordinal(&value.target_symbol_id, ordinals),
        provenance_index: inherited_provenance_index(value.provenance_index, snapshot_provenance),
    }
}

fn decode_occurrence(stored: &ArtifactOccurrence, snapshot_provenance: u32, ids: &[String]) -> (result: Occurrence)
    ensures
        restores_occurrence(result, *stored, snapshot_provenance, text::texts(ids@)),
{
    Occurrence {
        kind: stored.kind.clone(),
        type_id: stored.type_id.clone(),
        precision: stored.precision.clone(),
        freshness: stored.freshness.clone(),
        completeness: stored.completeness.clone(),
        location: decode_location(&stored.location),
        enclosing_symbol_id: local_optional(&stored.enclosing_symbol_id, stored.enclosing_symbol_ordinal, ids),
        target_symbol_id: local_optional(&stored.target_symbol_id, stored.target_symbol_ordinal, ids),
        provenance_index: match stored.provenance_index {
            Some(index) => index,
            None => snapshot_provenance,
        },
    }
}

fn store_all_occurrences(values: &[Occurrence], snapshot_provenance: u32, ordinals: &OrderedMap<u32>) -> (result: Vec<ArtifactOccurrence>)
    requires
        ordinals.wf(),
    ensures
        result@.len() == values@.len(),
        forall|i: int|
            0 <= i < values@.len() ==> stores_occurrence(#[trigger] result@[i], values@[i], snapshot_provenance, ordinals@),
{
    let mut result: Vec<ArtifactOccurrence> = Vec::new();
    let mut i: usize = 0;
    while i < values.len()
        invariant
            ordinals.wf(),
            i <= values@.len(),
            result@.len() == i,
            forall|j: int|
                0 <= j < i ==> stores_occurrence(#[trigger] result@[j], values@[j], snapshot_provenance, ordinals@),
        decreases values@.len() - i,
    {
        result.push(store_occurrence(&values[i], snapshot_provenance, ordinals));
        i = i + 1;
    }
    result
}

fn decode_all_occurrences(stored: &[ArtifactOccurrence], snapshot_provenance: u32, ids: &[String]) -> (result: Vec<Occurrence>)
    ensures
        result@.len() == stored@.len(),
        forall|i: int|
            0 <= i < stored@.len() ==> restores_occurrence(#[trigger] result@[i], stored@[i], snapshot_provenance, text::texts(ids@)),
{
    let mut result: Vec<Occurrence> = Vec::new();
    let mut i: usize = 0;
    while i < stored.len()
        invariant
            i <= stored@.len(),
            result@.len() == i,
            forall|j: int|
                0 <= j < i ==> restores_occurrence(#[trigger] result@[j], stored@[j], snapshot_provenance, text::texts(ids@)),
        decreases stored@.len() - i,
    {
        result.push(decode_occurrence(&stored[i], snapshot_provenance, ids));
        i = i + 1;
    }
    result
}

/// Whether a stored reference holds the given one.
pub open spec fn stores_reference(stored: ArtifactReference, value: ReferenceEdge, ordinals: Map<Seq<char>, u32>) -> bool {
    &&& stored.source_occurrence_index == value.source_occurrence_index
    &&& stored.precision == value.precision
    &&& stored.target_symbol_id@ == inlined_id(ordinals, value.target_symbol_id@)
    &&& stored.target_symbol_ordinal == ordinal_of(ordinals, value.target_symbol_id@)
}

/// Whether a reference is the one that a stored form holds.
pub open spec fn restores_reference(value: ReferenceEdge, stored: ArtifactReference, ids: Seq<Seq<char>>) -> bool {
    &&& value.source_occurrence_index == stored.source_occurrence_index
    &&& value.precision == stored.precision
    &&& value.target_symbol_id@ == restored_id(stored.target_symbol_id@, stored.target_symbol_ordinal, ids)
}

/// Whether two references say the same.
pub open spec fn same_reference(a: ReferenceEdge, b: ReferenceEdge) -> bool {
    &&& a.source_occurrence_index == b.source_occurrence_index
    &&& a.precision == b.precision
    &&& a.target_symbol_id@ == b.target_symbol_id@
}

fn store_reference(value: &ReferenceEdge, ordinals: &OrderedMap<u32>) -> (result: ArtifactReference)
    requires
        ordinals.wf(),
    ensures
        stores_reference(result, *value, ordinals@),
{
    ArtifactReference {
        source_occurrence_index: value.source_occurrence_index,
        precision: value.precision.clone(),
        target_symbol_id: inline_id(&value.target_symbol_id, ordinals),
        target_symbol_ordinal: local_ordinal(value.target_symbol_id.as_str(), ordinals),
    }
}

fn decode_reference(stored: &ArtifactReference, ids: &[String]) -> (result: ReferenceEdge)
    ensures
        restores_reference(result, *stored, text::texts(ids@)),
{
    ReferenceEdge {
        source_occurrence_index: stored.source_occurrence_index,
        precision: stored.precision.clone(),
        target_symbol_id: local_id(&stored.target_symbol_id, stored.target_symbol_ordinal, ids),
    }
}

fn store_all_references(values: &[ReferenceEdge], ordinals: &OrderedMap<u32>) -> (result: Vec<ArtifactReference>)
    requires
        ordinals.wf(),
    ensures
        result@.len() == values@.len(),
        forall|i: int|
            0 <= i < values@.len() ==> stores_reference(#[trigger] result@[i], values@[i], ordinals@),
{
    let mut result: Vec<ArtifactReference> = Vec::new();
    let mut i: usize = 0;
    while i < values.len()
        invariant
            ordinals.wf(),
            i <= values@.len(),
            result@.len() == i,
            forall|j: int|
                0 <= j < i ==> stores_reference(#[trigger] result@[j], values@[j], ordinals@),
        decreases values@.len() - i,
    {
        result.push(store_reference(&values[i], ordinals));
        i = i + 1;
    }
    result
}

fn decode_all_references(stored: &[ArtifactReference], ids: &[String]) -> (result: Vec<ReferenceEdge>)
    ensures
        result@.len() == stored@.len(),
        forall|i: int|
            0 <= i < stored@.len() ==> restores_reference(#[trigger] result@[i], stored@[i], text::texts(ids@)),
{
    let mut result: Vec<ReferenceEdge> = Vec::new();
    let mut i: usize = 0;
    while i < stored.len()
        invariant
            i <= stored@.len(),
            result@.len() == i,
            forall|j: int|
                0 <= j < i ==> restores_reference(#[trigger] result@[j], stored@[j], text::texts(ids@)),
        decreases stored@.len() - i,
    {
        result.push(decode_reference(&stored[i], ids));
        i = i + 1;
    }
    result
}

/// Whether a stored call holds the given one.
pub open spec fn stores_call(stored: ArtifactCall, value: CallEdge, ordinals: Map<Seq<char>, u32>) -> bool {
    &&& stored.source_occurrence_index == value.source_occurrence_index
    &&& stored.precision == value.precision
    &&& stored.target_symbol_id@ == inlined_id(ordinals, value.target_symbol_id@)
    &&& stored.target_symbol_ordinal == ordinal_of(ordinals, value.target_symbol_id@)
    &&& dependency_identity::option_view(stored.caller_symbol_id) == inlined_optional(
        ordinals,
        dependency_identity::option_view(value.caller_symbol_id),
    )
    &&& stored.caller_symbol_ordinal == optional_ordinal(ordinals, dependency_identity::option_view(value.caller_symbol_id))
}

/// Whether a call is the one that a stored form holds.
pub open spec fn restores_call(value: CallEdge, stored: ArtifactCall, ids: Seq<Seq<char>>) -> bool {
    &&& value.source_occurrence_index == stored.source_occurrence_index
    &&& value.precision == stored.precision
    &&& value.target_symbol_id@ == restored_id(stored.target_symbol_id@, stored.target_symbol_ordinal, ids)
    &&& dependency_identity::option_view(value.caller_symbol_id) == restored_optional(
        dependency_identity::option_view(stored.caller_symbol_id),
        stored.caller_symbol_ordinal,
        ids,
    )
}

/// Whether two calls say the same.
pub open spec fn same_call(a: CallEdge, b: CallEdge) -> bool {
    &&& a.source_occurrence_index == b.source_occurrence_index
    &&& a.precision == b.precision
    &&& a.target_symbol_id@ == b.target_symbol_id@
    &&& dependency_identity::option_view(a.caller_symbol_id) == dependency_identity::option_view(
        b.caller_symbol_id,
    )
}

fn store_call(value: &CallEdge, ordinals: &OrderedMap<u32>) -> (result: ArtifactCall)
    requires
        ordinals.wf(),
    ensures
        stores_call(result, *value, ordinals@),
{
    ArtifactCall {
        source_occurrence_index: value.source_occurrence_index,
        precision: value.precision.clone(),
        target_symbol_id: inline_id(&value.target_symbol_id, ordinals),
        target_symbol_ordinal: local_ordinal(value.target_symbol_id.as_str(), ordinals),
        caller_symbol_id: inline_optional(&value.caller_symbol_id, ordinals),
        caller_symbol_ordinal: optional_local_ordinal(&value.caller_symbol_id, ordinals),
    }
}

fn decode_call(stored: &ArtifactCall, ids: &[String]) -> (result: CallEdge)
    ensures
        restores_call(result, *stored, text::texts(ids@)),
{
    CallEdge {
        source_occurrence_index: stored.source_occurrence_index,
        precision: stored.precision.clone(),
        target_symbol_id: local_id(&stored.target_symbol_id, stored.target_symbol_ordinal, ids),
        caller_symbol_id: local_optional(&stored.caller_symbol_id, stored.caller_symbol_ordinal, ids),
    }
}

fn store_all_calls(values: &[CallEdge], ordinals: &OrderedMap<u32>) -> (result: Vec<ArtifactCall>)
    requires
        ordinals.wf(),
    ensures
        result@.len() == values@.len(),
        forall|i: int|
            0 <= i < values@.len() ==> stores_call(#[trigger] result@[i], values@[i], ordinals@),
{
    let mut result: Vec<ArtifactCall> = Vec::new();
    let mut i: usize = 0;
    while i < values.len()
        invariant
            ordinals.wf(),
            i <= values@.len(),
            result@.len() == i,
            forall|j: int|
                0 <= j < i ==> stores_call(#[trigger] result@[j], values@[j], ordinals@),
        decreases values@.len() - i,
    {
        result.push(store_call(&values[i], ordinals));
        i = i + 1;
    }
    result
}

fn decode_all_calls(stored: &[ArtifactCall], ids: &[String]) -> (result: Vec<CallEdge>)
    ensures
        result@.len() == stored@.len(),
        forall|i: int|
            0 <= i < stored@.len() ==> restores_call(#[trigger] result@[i], stored@[i], text::texts(ids@)),
{
    let mut result: Vec<CallEdge> = Vec::new();
    let mut i: usize = 0;
    while i < stored.len()
        invariant
            i <= stored@.len(),
            result@.len() == i,
            forall|j: int|
                0 <= j < i ==> restores_call(#[trigger] result@[j], stored@[j], text::texts(ids@)),
        decreases stored@.len() - i,
    {
        result.push(decode_call(&stored[i], ids));
        i = i + 1;
    }
    result
}

/// Whether a stored hierarchy edge holds the given one.
pub open spec fn stores_hierarchy(stored: ArtifactHierarchy, value: HierarchyEdge, snapshot_provenance: u32, ordinals: Map<Seq<char>, u32>) -> bool {
    &&& stored.precision == value.precision
    &&& stored.subtype_symbol_id@ == inlined_id(ordinals, value.subtype_symbol_id@)
    &&& stored.subtype_symbol_ordinal == ordinal_of(ordinals, value.subtype_symbol_id@)
    &&& stored.supertype_symbol_id@ == inlined_id(ordinals, value.supertype_symbol_id@)
    &&& stored.supertype_symbol_ordinal == ordinal_of(ordinals, value.supertype_symbol_id@)
    &&& stored.provenance_index == own_provenance(value.provenance_index, snapshot_provenance)
}

/// Whether a hierarchy edge is the one that a stored form holds.
pub open spec fn restores_hierarchy(value: HierarchyEdge, stored: ArtifactHierarchy, snapshot_provenance: u32, ids: Seq<Seq<char>>) -> bool {
    &&& value.precision == stored.precision
    &&& value.subtype_symbol_id@ == restored_id(stored.subtype_symbol_id@, stored.subtype_symbol_ordinal, ids)
    &&& value.supertype_symbol_id@ == restored_id(stored.supertype_symbol_id@, stored.supertype_symbol_ordinal, ids)
    &&& value.provenance_index == restored_provenance(
        stored.provenance_index,
        snapshot_provenance,
    )
}

/// Whether two hierarchy edges say the same.
pub open spec fn same_hierarchy(a: HierarchyEdge, b: HierarchyEdge) -> bool {
    &&& a.precision == b.precision
    &&& a.subtype_symbol_id@ == b.subtype_symbol_id@
    &&& a.supertype_symbol_id@ == b.supertype_symbol_id@
    &&& a.provenance_index == b.provenance_index
}

fn store_hierarchy(value: &HierarchyEdge, snapshot_provenance: u32, ordinals: &OrderedMap<u32>) -> (result: ArtifactHierarchy)
    requires
        ordinals.wf(),
    ensures
        stores_hierarchy(result, *value, snapshot_provenance, ordinals@),
{
    ArtifactHierarchy {
        precision: value.precision.clone(),
        subtype_symbol_id: inline_id(&value.subtype_symbol_id, ordinals),
        subtype_symbol_ordinal: local_ordinal(value.subtype_symbol_id.as_str(), ordinals),
        supertype_symbol_id: inline_id(&value.supertype_symbol_id, ordinals),
        supertype_symbol_ordinal: local_ordinal(value.supertype_symbol_id.as_str(), ordinals),
        provenance_index: inherited_provenance_index(value.provenance_index, snapshot_provenance),
    }
}

fn decode_hierarchy(stored: &ArtifactHierarchy, snapshot_provenance: u32, ids: &[String]) -> (result: HierarchyEdge)
    ensures
        restores_hierarchy(result, *stored, snapshot_provenance, text::texts(ids@)),
{
    HierarchyEdge {
        precision: stored.precision.clone(),
        subtype_symbol_id: local_id(&stored.subtype_symbol_id, stored.subtype_symbol_ordinal, ids),
        supertype_symbol_id: local_id(&stored.supertype_symbol_id, stored.supertype_symbol_ordinal, ids),
        provenance_index: match stored.provenance_index {
            Some(index) => index,
            None => snapshot_provenance,
        },
    }
}

fn store_all_hierarchy(values: &[HierarchyEdge], snapshot_provenance: u32, ordinals: &OrderedMap<u32>) -> (result: Vec<ArtifactHierarchy>)
    requires
        ordinals.wf(),
    ensures
        result@.len() == values@.len(),
        forall|i: int|
            0 <= i < values@.len() ==> stores_hierarchy(#[trigger] result@[i], values@[i], snapshot_provenance, ordinals@),
{
    let mut result: Vec<ArtifactHierarchy> = Vec::new();
    let mut i: usize = 0;
    while i < values.len()
        invariant
            ordinals.wf(),
            i <= values@.len(),
            result@.len() == i,
            forall|j: int|
                0 <= j < i ==> stores_hierarchy(#[trigger] result@[j], values@[j], snapshot_provenance, ordinals@),
        decreases values@.len() - i,
    {
        result.push(store_hierarchy(&values[i], snapshot_provenance, ordinals));
        i = i + 1;
    }
    result
}

fn decode_all_hierarchy(stored: &[ArtifactHierarchy], snapshot_provenance: u32, ids: &[String]) -> (result: Vec<HierarchyEdge>)
    ensures
        result@.len() == stored@.len(),
        forall|i: int|
            0 <= i < stored@.len() ==> restores_hierarchy(#[trigger] result@[i], stored@[i], snapshot_provenance, text::texts(ids@)),
{
    let mut result: Vec<HierarchyEdge> = Vec::new();
    let mut i: usize = 0;
    while i < stored.len()
        invariant
            i <= stored@.len(),
            result@.len() == i,
            forall|j: int|
                0 <= j < i ==> restores_hierarchy(#[trigger] result@[j], stored@[j], snapshot_provenance, text::texts(ids@)),
        decreases stored@.len() - i,
    {
        result.push(decode_hierarchy(&stored[i], snapshot_provenance, ids));
        i = i + 1;
    }
    result
}

/// Whether a stored type record holds the given one.
pub open spec fn stores_type(stored: ArtifactType, value: TypeRecord, snapshot_provenance: u32) -> bool {
    &&& stored.id == value.id
    &&& stored.language == value.language
    &&& stored.display == value.display
    &&& stored.backend_key == value.backend_key
    &&& stored.backend_schema_version == value.backend_schema_version
    &&& stored.freshness == value.freshness
    &&& stored.completeness == value.completeness
    &&& stored.provenance_index == own_provenance(value.provenance_index, snapshot_provenance)
}

/// Whether a type record is the one that a stored form holds.
pub open spec fn restores_type(value: TypeRecord, stored: ArtifactType, snapshot_provenance: u32) -> bool {
    &&& value.id == stored.id
    &&& value.language == stored.language
    &&& value.display == stored.display
    &&& value.backend_key == stored.backend_key
    &&& value.backend_schema_version == stored.backend_schema_version
    &&& value.freshness == stored.freshness
    &&& value.completeness == stored.completeness
    &&& value.provenance_index == restored_provenance(
        stored.provenance_index,
        snapshot_provenance,
    )
}

/// Whether two type records say the same.
pub open spec fn same_type(a: TypeRecord, b: TypeRecord) -> bool {
    &&& a.id == b.id
    &&& a.language == b.language
    &&& a.display == b.display
    &&& a.backend_key == b.backend_key
    &&& a.backend_schema_version == b.backend_schema_version
    &&& a.freshness == b.freshness
    &&& a.completeness == b.completeness
    &&& a.provenance_index == b.provenance_index
}

fn store_type(value: &TypeRecord, snapshot_provenance: u32) -> (result: ArtifactType)
    ensures
        stores_type(result, *value, snapshot_provenance),
{
    ArtifactType {
        id: value.id.clone(),
        language: value.language.clone(),
        display: value.display.clone(),
        backend_key: value.backend_key.clone(),
        backend_schema_version: value.backend_schema_version,
        freshness: value.freshness.clone(),
        completeness: value.completeness.clone(),
        provenance_index: inherited_provenance_index(value.provenance_index, snapshot_provenance),
    }
}

fn decode_type(stored: &ArtifactType, snapshot_provenance: u32) -> (result: TypeRecord)
    ensures
        restores_type(result, *stored, snapshot_provenance),
{
    TypeRecord {
        id: stored.id.clone(),
        language: stored.language.clone(),
        display: stored.display.clone(),
        backend_key: stored.backend_key.clone(),
        backend_schema_version: stored.backend_schema_version,
        freshness: stored.freshness.clone(),
        completeness: stored.completeness.clone(),
        provenance_index: match stored.provenance_index {
            Some(index) => index,
            None => snapshot_provenance,
        },
    }
}

fn store_all_types(values: &[TypeRecord], snapshot_provenance: u32) -> (result: Vec<ArtifactType>)
    ensures
        result@.len() == values@.len(),
        forall|i: int|
            0 <= i < values@.len() ==> stores_type(#[trigger] result@[i], values@[i], snapshot_provenance),
{
    let mut result: Vec<ArtifactType> = Vec::new();
    let mut i: usize = 0;
    while i < values.len()
        invariant
            i <= values@.len(),
            result@.len() == i,
            forall|j: int|
                0 <= j < i ==> stores_type(#[trigger] result@[j], values@[j], snapshot_provenance),
        decreases values@.len() - i,
    {
        result.push(store_type(&values[i], snapshot_provenance));
        i = i + 1;
    }
    result
}

fn decode_all_types(stored: &[ArtifactType], snapshot_provenance: u32) -> (result: Vec<TypeRecord>)
    ensures
        result@.len() == stored@.len(),
        forall|i: int|
            0 <= i < stored@.len() ==> restores_type(#[trigger] result@[i], stored@[i], snapshot_provenance),
{
    let mut result: Vec<TypeRecord> = Vec::new();
    let mut i: usize = 0;
    while i < stored.len()
        invariant
            i <= stored@.len(),
            result@.len() == i,
            forall|j: int|
                0 <= j < i ==> restores_type(#[trigger] result@[j], stored@[j], snapshot_provenance),
        decreases stored@.len() - i,
    {
        result.push(decode_type(&stored[i], snapshot_provenance));
        i = i + 1;
    }
    result
}

/// Whether a stored diagnostic holds the given one.
pub open spec fn stores_diagnostic(stored: ArtifactDiagnostic, value: Diagnostic, snapshot_provenance: u32) -> bool {
    &&& stored.source_unit_index == value.source_unit_index
    &&& stored.severity == value.severity
    &&& stored.code == value.code
    &&& stored.message == value.message
    &&& stored.freshness == value.freshness
    &&& stored.completeness == value.completeness
    &&& stored.range == artifact_range(value.range)
    &&& stored.provenance_index == own_provenance(value.provenance_index, snapshot_provenance)
}

/// Whether a diagnostic is the one that a stored form holds.
pub open spec fn restores_diagnostic(value: Diagnostic, stored: ArtifactDiagnostic, snapshot_provenance: u32) -> bool {
    &&& value.source_unit_index == stored.source_unit_index
    &&& value.severity == stored.severity
    &&& value.code == stored.code
    &&& value.message == stored.message
    &&& value.freshness == stored.freshness
    &&& value.completeness == stored.completeness
    &&& value.range == worker_range(stored.range)
    &&& value.provenance_index == restored_provenance(
        stored.provenance_index,
        snapshot_provenance,
    )
}

/// Whether two diagnostics say the same.
pub open spec fn same_diagnostic(a: Diagnostic, b: Diagnostic) -> bool {
    &&& a.source_unit_index == b.source_unit_index
    &&& a.severity == b.severity
    &&& a.code == b.code
    &&& a.message == b.message
    &&& a.freshness == b.freshness
    &&& a.completeness == b.completeness
    &&& a.range == b.range
    &&& a.provenance_index == b.provenance_index
}

fn store_diagnostic(value: &Diagnostic, snapshot_provenance: u32) -> (result: ArtifactDiagnostic)
    ensures
        stores_diagnostic(result, *value, snapshot_provenance),
{
    ArtifactDiagnostic {
        source_unit_index: value.source_unit_index,
        severity: value.severity.clone(),
        code: value.code.clone(),
        message: value.message.clone(),
        freshness: value.freshness.clone(),
        completeness: value.completeness.clone(),
        range: range(&value.range),
        provenance_index: inherited_provenance_index(value.provenance_index, snapshot_provenance),
    }
}

fn decode_diagnostic(stored: &ArtifactDiagnostic, snapshot_provenance: u32) -> (result: Diagnostic)
    ensures
        restores_diagnostic(result, *stored, snapshot_provenance),
{
    Diagnostic {
        source_unit_index: stored.source_unit_index,
        severity: stored.severity.clone(),
        code: stored.code.clone(),
        message: stored.message.clone(),
        freshness: stored.freshness.clone(),
        completeness: stored.completeness.clone(),
        range: decode_range(&stored.range),
        provenance_index: match stored.provenance_index {
            Some(index) => index,
            None => snapshot_provenance,
        },
    }
}

fn store_all_diagnostics(values: &[Diagnostic], snapshot_provenance: u32) -> (result: Vec<ArtifactDiagnostic>)
    ensures
        result@.len() == values@.len(),
        forall|i: int|
            0 <= i < values@.len() ==> stores_diagnostic(#[trigger] result@[i], values@[i], snapshot_provenance),
{
    let mut result: Vec<ArtifactDiagnostic> = Vec::new();
    let mut i: usize = 0;
    while i < values.len()
        invariant
            i <= values@.len(),
            result@.len() == i,
            forall|j: int|
                0 <= j < i ==> stores_diagnostic(#[trigger] result@[j], values@[j], snapshot_provenance),
        decreases values@.len() - i,
    {
        result.push(store_diagnostic(&values[i], snapshot_provenance));
        i = i + 1;
    }
    result
}

fn decode_all_diagnostics(stored: &[ArtifactDiagnostic], snapshot_provenance: u32) -> (result: Vec<Diagnostic>)
    ensures
        result@.len() == stored@.len(),
        forall|i: int|
            0 <= i < stored@.len() ==> restores_diagnostic(#[trigger] result@[i], stored@[i], snapshot_provenance),
{
    let mut result: Vec<Diagnostic> = Vec::new();
    let mut i: usize = 0;
    while i < stored.len()
        invariant
            i <= stored@.len(),
            result@.len() == i,
            forall|j: int|
                0 <= j < i ==> restores_diagnostic(#[trigger] result@[j], stored@[j], snapshot_provenance),
        decreases stored@.len() - i,
    {
        result.push(decode_diagnostic(&stored[i], snapshot_provenance));
        i = i + 1;
    }
    result
}

/// Whether an optional stored source unit holds the given one.
pub open spec fn stores_optional_unit(
    stored: Option<ArtifactSourceUnit>,
    value: Option<worker_proto::SourceUnit>,
) -> bool {
    match (stored, value) {
        (Some(stored), Some(value)) => stores_source_unit(stored, value),
        (None, None) => true,
        _ => false,
    }
}

/// Whether stored provenances hold the given ones.
pub open spec fn stores_provenances(
    stored: Seq<ArtifactProvenance>,
    values: Seq<worker_proto::Provenance>,
) -> bool {
    &&& stored.len() == values.len()
    &&& forall|i: int|
        0 <= i < values.len() ==> stores_provenance(#[trigger] stored[i], values[i])
}

/// Whether a stored snapshot holds the given one.
pub open spec fn stores_snapshot(
    stored: GraphSnapshot,
    value: FileAnalysisSnapshot,
    ordinals: Map<Seq<char>, u32>,
) -> bool {
    &&& stores_optional_unit(stored.source_unit, value.source_unit)
    &&& stored.structural_fingerprint == value.structural_fingerprint
    &&& stored.public_api_fingerprint == value.public_api_fingerprint
    &&& stores_provenances(stored.provenances@, value.provenances@)
    &&& stored.completeness == value.completeness
    &&& stored.provenance_index == Some(value.provenance_index)
    &&& stored.symbols@.len() == value.symbols@.len()
    &&& forall|i: int|
        0 <= i < value.symbols@.len() ==> stores_symbol(
            #[trigger] stored.symbols@[i],
            value.symbols@[i],
            value.provenance_index,
            ordinals,
        )
    &&& stored.occurrences@.len() == value.occurrences@.len()
    &&& forall|i: int|
        0 <= i < value.occurrences@.len() ==> stores_occurrence(
            #[trigger] stored.occurrences@[i],
            value.occurrences@[i],
            value.provenance_index,
            ordinals,
        )
    &&& stored.references@.len() == value.references@.len()
    &&& forall|i: int|
        0 <= i < value.references@.len() ==> stores_reference(
            #[trigger] stored.references@[i],
            value.references@[i],
            ordinals,
        )
    &&& stored.calls@.len() == value.calls@.len()
    &&& forall|i: int|
        0 <= i < value.calls@.len() ==> stores_call(
            #[trigger] stored.calls@[i],
            value.calls@[i],
            ordinals,
        )
    &&& stored.hierarchy@.len() == value.hierarchy@.len()
    &&& forall|i: int|
        0 <= i < value.hierarchy@.len() ==> stores_hierarchy(
            #[trigger] stored.hierarchy@[i],
            value.hierarchy@[i],
            value.provenance_index,
            ordinals,
        )
    &&& stored.types@.len() == value.types@.len()
    &&& forall|i: int|
        0 <= i < value.types@.len() ==> stores_type(
            #[trigger] stored.types@[i],
            value.types@[i],
            value.provenance_index,
        )
    &&& stored.diagnostics@.len() == value.diagnostics@.len()
    &&& forall|i: int|
        0 <= i < value.diagnostics@.len() ==> stores_diagnostic(
            #[trigger] stored.diagnostics@[i],
            value.diagnostics@[i],
            value.provenance_index,
        )
}

/// Whether a snapshot is the one that a stored form holds.
pub open spec fn restores_snapshot(
    value: FileAnalysisSnapshot,
    stored: GraphSnapshot,
    ids: Seq<Seq<char>>,
) -> bool {
    &&& stores_optional_unit(stored.source_unit, value.source_unit)
    &&& value.structural_fingerprint == stored.structural_fingerprint
    &&& value.public_api_fingerprint == stored.public_api_fingerprint
    &&& stores_provenances(stored.provenances@, value.provenances@)
    &&& value.completeness == stored.completeness
    &&& stored.provenance_index == Some(value.provenance_index)
    &&& value.symbols@.len() == stored.symbols@.len()
    &&& forall|i: int|
        0 <= i < stored.symbols@.len() ==> restores_symbol(
            #[trigger] value.symbols@[i],
            stored.symbols@[i],
            value.provenance_index,
            ids,
        )
    &&& value.occurrences@.len() == stored.occurrences@.len()
    &&& forall|i: int|
        0 <= i < stored.occurrences@.len() ==> restores_occurrence(
            #[trigger] value.occurrences@[i],
            stored.occurrences@[i],
            value.provenance_index,
            ids,
        )
    &&& value.references@.len() == stored.references@.len()
    &&& forall|i: int|
        0 <= i < stored.references@.len() ==> restores_reference(
            #[trigger] value.references@[i],
            stored.references@[i],
            ids,
        )
    &&& value.calls@.len() == stored.calls@.len()
    &&& forall|i: int|
        0 <= i < stored.calls@.len() ==> restores_call(
            #[trigger] value.calls@[i],
            stored.calls@[i],
            ids,
        )
    &&& value.hierarchy@.len() == stored.hierarchy@.len()
    &&& forall|i: int|
        0 <= i < stored.hierarchy@.len() ==> restores_hierarchy(
            #[trigger] value.hierarchy@[i],
            stored.hierarchy@[i],
            value.provenance_index,
            ids,
        )
    &&& value.types@.len() == stored.types@.len()
    &&& forall|i: int|
        0 <= i < stored.types@.len() ==> restores_type(
            #[trigger] value.types@[i],
            stored.types@[i],
            value.provenance_index,
        )
    &&& value.diagnostics@.len() == stored.diagnostics@.len()
    &&& forall|i: int|
        0 <= i < stored.diagnostics@.len() ==> restores_diagnostic(
            #[trigger] value.diagnostics@[i],
            stored.diagnostics@[i],
            value.provenance_index,
        )
}

/// Whether two snapshots say the same.
pub open spec fn same_snapshot(a: FileAnalysisSnapshot, b: FileAnalysisSnapshot) -> bool {
    &&& a.source_unit == b.source_unit
    &&& a.structural_fingerprint == b.structural_fingerprint
    &&& a.public_api_fingerprint == b.public_api_fingerprint
    &&& a.provenances@ == b.provenances@
    &&& a.completeness == b.completeness
    &&& a.provenance_index == b.provenance_index
    &&& a.symbols@.len() == b.symbols@.len()
    &&& forall|i: int|
        0 <= i < a.symbols@.len() ==> same_symbol(#[trigger] a.symbols@[i], b.symbols@[i])
    &&& a.occurrences@.len() == b.occurrences@.len()
    &&& forall|i: int|
        0 <= i < a.occurrences@.len() ==> same_occurrence(#[trigger] a.occurrences@[i], b.occurrences@[i])
    &&& a.references@.len() == b.references@.len()
    &&& forall|i: int|
        0 <= i < a.references@.len() ==> same_reference(#[trigger] a.references@[i], b.references@[i])
    &&& a.calls@.len() == b.calls@.len()
    &&& forall|i: int|
        0 <= i < a.calls@.len() ==> same_call(#[trigger] a.calls@[i], b.calls@[i])
    &&& a.hierarchy@.len() == b.hierarchy@.len()
    &&& forall|i: int|
        0 <= i < a.hierarchy@.len() ==> same_hierarchy(#[trigger] a.hierarchy@[i], b.hierarchy@[i])
    &&& a.types@.len() == b.types@.len()
    &&& forall|i: int|
        0 <= i < a.types@.len() ==> same_type(#[trigger] a.types@[i], b.types@[i])
    &&& a.diagnostics@.len() == b.diagnostics@.len()
    &&& forall|i: int|
        0 <= i < a.diagnostics@.len() ==> same_diagnostic(#[trigger] a.diagnostics@[i], b.diagnostics@[i])
}

fn store_provenances(values: &[worker_proto::Provenance]) -> (result: Vec<ArtifactProvenance>)
    ensures
        stores_provenances(result@, values@),
{
    let mut result: Vec<ArtifactProvenance> = Vec::new();
    let mut i: usize = 0;
    while i < values.len()
        invariant
            i <= values@.len(),
            result@.len() == i,
            forall|j: int|
                0 <= j < i ==> stores_provenance(#[trigger] result@[j], values@[j]),
        decreases values@.len() - i,
    {
        result.push(provenance(&values[i]));
        i = i + 1;
    }
    result
}

fn decode_provenances(stored: &[ArtifactProvenance]) -> (result: Vec<worker_proto::Provenance>)
    ensures
        stores_provenances(stored@, result@),
{
    let mut result: Vec<worker_proto::Provenance> = Vec::new();
    let mut i: usize = 0;
    while i < stored.len()
        invariant
            i <= stored@.len(),
            result@.len() == i,
            forall|j: int|
                0 <= j < i ==> stores_provenance(stored@[j], #[trigger] result@[j]),
        decreases stored@.len() - i,
    {
        result.push(decode_provenance(&stored[i]));
        i = i + 1;
    }
    assert forall|j: int| 0 <= j < result@.len() implies stores_provenance(
        #[trigger] stored@[j],
        result@[j],
    ) by {
        assert(stores_provenance(stored@[j], result@[j]));
    }
    result
}

/// The ids of the declarations of a snapshot.
pub open spec fn declared_ids(symbols: Seq<SymbolDeclaration>) -> Seq<Seq<char>> {
    Seq::new(symbols.len(), |i: int| symbols[i].id@)
}

/// The ids of all declarations, by ordinal.
pub open spec fn snapshot_ids(snapshots: Seq<FileAnalysisSnapshot>) -> Seq<Seq<char>>
    decreases snapshots.len(),
{
    if snapshots.len() == 0 {
        Seq::empty()
    } else {
        snapshot_ids(snapshots.drop_last()) + declared_ids(snapshots.last().symbols@)
    }
}

/// The ids of the stored declarations of a snapshot.
pub open spec fn stored_ids(symbols: Seq<ArtifactSymbol>) -> Seq<Seq<char>> {
    Seq::new(symbols.len(), |i: int| symbols[i].id@)
}

/// The ids of all stored declarations, by ordinal.
pub open spec fn artifact_ids(snapshots: Seq<GraphSnapshot>) -> Seq<Seq<char>>
    decreases snapshots.len(),
{
    if snapshots.len() == 0 {
        Seq::empty()
    } else {
        artifact_ids(snapshots.drop_last()) + stored_ids(snapshots.last().symbols@)
    }
}

/// The ordinal of each id: the last one, where an id is declared twice.
pub open spec fn ordinals_of(ids: Seq<Seq<char>>) -> Map<Seq<char>, u32>
    decreases ids.len(),
{
    if ids.len() == 0 {
        Map::empty()
    } else {
        ordinals_of(ids.drop_last()).insert(ids.last(), (ids.len() - 1) as u32)
    }
}

/// The ordinal of an id leads back to the id.
pub proof fn lemma_ordinals_lead_back(ids: Seq<Seq<char>>, id: Seq<char>)
    requires
        ids.len() <= u32::MAX,
    ensures
        ordinals_of(ids).dom().contains(id) <==> ids.contains(id),
        ordinals_of(ids).dom().contains(id) ==> ordinals_of(ids)[id] < ids.len()
            && ids[ordinals_of(ids)[id] as int] == id,
    decreases ids.len(),
{
    if ids.len() > 0 {
        let rest = ids.drop_last();
        lemma_ordinals_lead_back(rest, id);
        if rest.contains(id) {
            let i = rest.index_of(id);
            assert(ids[i] == id);
        }
        if ids.contains(id) && id != ids.last() {
            let i = ids.index_of(id);
            assert(rest[i] == id);
        }
        assert(ids[ids.len() - 1] == ids.last());
    }
}

/// The prefix of all ids never outgrows the whole.
proof fn lemma_ids_grow(snapshots: Seq<FileAnalysisSnapshot>, n: int)
    requires
        0 <= n <= snapshots.len(),
    ensures
        snapshot_ids(snapshots.take(n)).len() <= snapshot_ids(snapshots).len(),
    decreases snapshots.len(),
{
    if n == snapshots.len() {
        assert(snapshots.take(n) =~= snapshots);
    } else {
        lemma_ids_grow(snapshots.drop_last(), n);
        assert(snapshots.drop_last().take(n) =~= snapshots.take(n));
    }
}

fn local_ordinals(snapshots: &[FileAnalysisSnapshot]) -> (result: OrderedMap<u32>)
    requires
        snapshot_ids(snapshots@).len() <= u32::MAX,
    ensures
        result.wf(),
        result@ == ordinals_of(snapshot_ids(snapshots@)),
{
    let mut result: OrderedMap<u32> = OrderedMap::new();
    let mut ordinal: u32 = 0;
    let mut i: usize = 0;
    assert(result@ =~= ordinals_of(snapshot_ids(snapshots@.take(0))));
    while i < snapshots.len()
        invariant
            result.wf(),
            snapshot_ids(snapshots@).len() <= u32::MAX,
            i <= snapshots@.len(),
            ordinal == snapshot_ids(snapshots@.take(i as int)).len(),
            result@ == ordinals_of(snapshot_ids(snapshots@.take(i as int))),
        decreases snapshots@.len() - i,
    {
        let symbols = &snapshots[i].symbols;
        let ghost before = snapshot_ids(snapshots@.take(i as int));
        let ghost declared = declared_ids(symbols@);
        proof {
            lemma_ids_grow(snapshots@, i + 1);
            assert(snapshots@.take(i + 1).drop_last() =~= snapshots@.take(i as int));
            assert(before + declared.take(0) =~= before);
        }
        let mut j: usize = 0;
        while j < symbols.len()
            invariant
                result.wf(),
                declared == declared_ids(symbols@),
                before.len() + declared.len() <= u32::MAX,
                j <= symbols@.len(),
                ordinal == before.len() + j,
                result@ == ordinals_of(before + declared.take(j as int)),
            decreases symbols@.len() - j,
        {
            result.insert(symbols[j].id.clone(), ordinal);
            ordinal = ordinal + 1;
            j = j + 1;
            proof {
                let now = before + declared.take(j as int);
                assert(now.drop_last() =~= before + declared.take(j - 1));
                assert(now.last() == symbols@[j - 1].id@);
            }
        }
        assert(declared.take(j as int) =~= declared);
        i = i + 1;
    }
    assert(snapshots@.take(i as int) =~= snapshots@);
    result
}

fn store_snapshot(value: &FileAnalysisSnapshot, ordinals: &OrderedMap<u32>) -> (result: GraphSnapshot)
    requires
        ordinals.wf(),
    ensures
        stores_snapshot(result, *value, ordinals@),
{
    let index: u32 = value.provenance_index;
    let unit = match &value.source_unit {
        Some(unit) => Some(source_unit(unit)),
        None => None,
    };
    GraphSnapshot {
        source_unit: unit,
        structural_fingerprint: value.structural_fingerprint.clone(),
        public_api_fingerprint: value.public_api_fingerprint.clone(),
        provenances: store_provenances(value.provenances.as_slice()),
        symbols: store_all_symbols(value.symbols.as_slice(), index, ordinals),
        occurrences: store_all_occurrences(value.occurrences.as_slice(), index, ordinals),
        references: store_all_references(value.references.as_slice(), ordinals),
        calls: store_all_calls(value.calls.as_slice(), ordinals),
        hierarchy: store_all_hierarchy(value.hierarchy.as_slice(), index, ordinals),
        types: store_all_types(value.types.as_slice(), index),
        diagnostics: store_all_diagnostics(value.diagnostics.as_slice(), index),
        completeness: value.completeness.clone(),
        provenance_index: Some(index),
    }
}

fn decode_snapshot(stored: &GraphSnapshot, ids: &[String]) -> (result: Result<
    FileAnalysisSnapshot,
    ArtifactProtoError,
>)
    ensures
        result is Ok <==> stored.provenance_index is Some,
        result matches Ok(value) ==> restores_snapshot(value, *stored, text::texts(ids@)),
        result matches Err(error) ==> error == ArtifactProtoError::LengthMismatch,
{
    let index: u32 = match stored.provenance_index {
        Some(index) => index,
        None => {
            return Err(ArtifactProtoError::LengthMismatch);
        },
    };
    let unit = match &stored.source_unit {
        Some(unit) => Some(decode_source_unit(unit)),
        None => None,
    };
    Ok(
        FileAnalysisSnapshot {
            source_unit: unit,
            structural_fingerprint: stored.structural_fingerprint.clone(),
            public_api_fingerprint: stored.public_api_fingerprint.clone(),
            provenances: decode_provenances(stored.provenances.as_slice()),
            symbols: decode_all_symbols(stored.symbols.as_slice(), index, ids),
            occurrences: decode_all_occurrences(stored.occurrences.as_slice(), index, ids),
            references: decode_all_references(stored.references.as_slice(), ids),
            calls: decode_all_calls(stored.calls.as_slice(), ids),
            hierarchy: decode_all_hierarchy(stored.hierarchy.as_slice(), index, ids),
            types: decode_all_types(stored.types.as_slice(), index),
            diagnostics: decode_all_diagnostics(stored.diagnostics.as_slice(), index),
            completeness: stored.completeness.clone(),
            provenance_index: index,
        },
    )
}

/// Whether an artifact stores the given snapshots.
pub open spec fn stores_artifact(
    artifact: GraphArtifact,
    snapshots: Seq<FileAnalysisSnapshot>,
) -> bool {
    &&& artifact.snapshots@.len() == snapshots.len()
    &&& forall|i: int|
        0 <= i < snapshots.len() ==> stores_snapshot(
            #[trigger] artifact.snapshots@[i],
            snapshots[i],
            ordinals_of(snapshot_ids(snapshots)),
        )
}

/// Puts worker snapshots into their stored form. Ordinals have to fit their
/// width.
fn store_worker_snapshots(snapshots: &[FileAnalysisSnapshot]) -> (result: GraphArtifact)
    requires
        snapshot_ids(snapshots@).len() <= u32::MAX,
    ensures
        stores_artifact(result, snapshots@),
{
    let ordinals = local_ordinals(snapshots);
    let mut stored: Vec<GraphSnapshot> = Vec::new();
    let mut i: usize = 0;
    while i < snapshots.len()
        invariant
            ordinals.wf(),
            ordinals@ == ordinals_of(snapshot_ids(snapshots@)),
            i <= snapshots@.len(),
            stored@.len() == i,
            forall|j: int|
                0 <= j < i ==> stores_snapshot(
                    #[trigger] stored@[j],
                    snapshots@[j],
                    ordinals_of(snapshot_ids(snapshots@)),
                ),
        decreases snapshots@.len() - i,
    {
        stored.push(store_snapshot(&snapshots[i], &ordinals));
        i = i + 1;
    }
    GraphArtifact { snapshots: stored }
}

/// Whether an envelope is the one of an encoded artifact.
pub open spec fn is_seal_of(envelope: ArtifactEnvelope, payload: Seq<u8>) -> bool {
    &&& envelope.format_version == ARTIFACT_FORMAT_VERSION
    &&& envelope.payload_length == payload.len()
    &&& envelope.payload_sha256@ == digest::sha256_digest(payload)
}

/// The envelope of an encoded artifact.
pub fn seal_payload(payload: &[u8]) -> (result: ArtifactEnvelope)
    ensures
        is_seal_of(result, payload@),
{
    ArtifactEnvelope {
        format_version: ARTIFACT_FORMAT_VERSION,
        payload_length: payload.len() as u64,
        payload_sha256: digest::sha256(payload),
    }
}

/// Why an envelope does not go with the encoded artifact that it came with, if
/// any.
pub open spec fn envelope_problem(envelope: ArtifactEnvelope, payload: Option<Seq<u8>>) -> Option<
    ArtifactProtoError,
> {
    if envelope.format_version != ARTIFACT_FORMAT_VERSION {
        Some(ArtifactProtoError::UnsupportedVersion(envelope.format_version))
    } else {
        match payload {
            None => Some(ArtifactProtoError::LengthMismatch),
            Some(payload) => if envelope.payload_length != payload.len() {
                Some(ArtifactProtoError::LengthMismatch)
            } else if envelope.payload_sha256@ != digest::sha256_digest(payload) {
                Some(ArtifactProtoError::ChecksumMismatch)
            } else {
                None
            },
        }
    }
}

/// Checks an envelope against the encoded artifact that it came with, if any.
pub fn check_envelope(envelope: &ArtifactEnvelope, payload: Option<&[u8]>) -> (result: Result<
    (),
    ArtifactProtoError,
>)
    ensures
        match envelope_problem(
            *envelope,
            match payload {
                Some(payload) => Some(payload@),
                None => None,
            },
        ) {
            Some(problem) => result is Err && result->Err_0 == problem,
            None => result is Ok,
        },
{
    if envelope.format_version != ARTIFACT_FORMAT_VERSION {
        return Err(ArtifactProtoError::UnsupportedVersion(envelope.format_version));
    }
    match payload {
        None => Err(ArtifactProtoError::LengthMismatch),
        Some(payload) => {
            if envelope.payload_length != payload.len() as u64 {
                return Err(ArtifactProtoError::LengthMismatch);
            }
            if !digest::same_bytes(
                envelope.payload_sha256.as_slice(),
                digest::sha256(payload).as_slice(),
            ) {
                return Err(ArtifactProtoError::ChecksumMismatch);
            }
            Ok(())
        },
    }
}

/// An artifact and the bytes that it is encoded to.
pub struct EncodedArtifact {
    pub artifact: GraphArtifact,
    pub bytes: Vec<u8>,
}

/// Opens a stored artifact: what its bytes were decoded to, or what the decoder
/// said of them, and the artifact that the envelope holds, if any.
pub fn decode_snapshots(
    envelope: Result<ArtifactEnvelope, String>,
    artifact: Option<EncodedArtifact>,
) -> (result: Result<Vec<protocol::FileAnalysisSnapshot>, ArtifactProtoError>)
    ensures
        match envelope {
            Err(cause) => result is Err && result->Err_0 == ArtifactProtoError::Decode(cause),
            Ok(envelope) => match envelope_problem(
                envelope,
                match artifact {
                    Some(artifact) => Some(artifact.bytes@),
                    None => None,
                },
            ) {
                Some(problem) => result is Err && result->Err_0 == problem,
                None => is_decoded_graph(result, artifact->0.artifact),
            },
        },
{
    let envelope = match envelope {
        Ok(envelope) => envelope,
        Err(cause) => {
            return Err(ArtifactProtoError::Decode(cause));
        },
    };
    match artifact {
        None => match check_envelope(&envelope, None) {
            Ok(()) => Err(ArtifactProtoError::LengthMismatch),
            Err(problem) => Err(problem),
        },
        Some(artifact) => {
            match check_envelope(&envelope, Some(artifact.bytes.as_slice())) {
                Ok(()) => decode_graph_artifact(&artifact.artifact),
                Err(problem) => Err(problem),
            }
        },
    }
}

/// The envelope that an encoded artifact was sealed with is accepted with it,
/// and with no bytes of another length or another digest.
pub proof fn law_sealed_payload_is_accepted(
    envelope: ArtifactEnvelope,
    payload: Seq<u8>,
    other: Seq<u8>,
)
    requires
        is_seal_of(envelope, payload),
    ensures
        envelope_problem(envelope, Some(payload)) is None,
        envelope_problem(envelope, Some(other)) is None <==> other.len() == payload.len()
            && digest::sha256_digest(other) == digest::sha256_digest(payload),
        envelope_problem(envelope, None) == Some(ArtifactProtoError::LengthMismatch),
{
}

fn local_ids(snapshots: &[GraphSnapshot]) -> (result: Vec<String>)
    ensures
        text::texts(result@) == artifact_ids(snapshots@),
{
    let mut result: Vec<String> = Vec::new();
    let mut i: usize = 0;
    assert(text::texts(result@) =~= artifact_ids(snapshots@.take(0)));
    while i < snapshots.len()
        invariant
            i <= snapshots@.len(),
            text::texts(result@) == artifact_ids(snapshots@.take(i as int)),
        decreases snapshots@.len() - i,
    {
        let symbols = &snapshots[i].symbols;
        let ghost before = text::texts(result@);
        let ghost declared = stored_ids(symbols@);
        assert(snapshots@.take(i + 1).drop_last() =~= snapshots@.take(i as int));
        assert(before + declared.take(0) =~= before);
        let mut j: usize = 0;
        while j < symbols.len()
            invariant
                declared == stored_ids(symbols@),
                j <= symbols@.len(),
                text::texts(result@) == before + declared.take(j as int),
            decreases symbols@.len() - j,
        {
            let ghost so_far = result@;
            result.push(symbols[j].id.clone());
            j = j + 1;
            assert(text::texts(result@) =~= text::texts(so_far).push(symbols@[j - 1].id@));
            assert(before + declared.take(j as int) =~= (before + declared.take(j - 1)).push(
                symbols@[j - 1].id@,
            ));
        }
        assert(declared.take(j as int) =~= declared);
        i = i + 1;
    }
    assert(snapshots@.take(i as int) =~= snapshots@);
    result
}

/// A worker's declaration read out of a detail block.
struct DecodedSymbol {
    source_unit: worker_proto::SourceUnit,
    provenance: worker_proto::Provenance,
    declaration: SymbolDeclaration,
}

/// What a declaration says, its provenance and source unit aside.
pub open spec fn declaration_text(value: SymbolDeclaration) -> symbol_detail::SymbolText {
    symbol_detail::SymbolText {
        id: value.id@,
        backend_key: value.backend_key@,
        backend_schema_version: value.backend_schema_version,
        language: value.language@,
        kind: value.kind@,
        name: value.name@,
        qualified_name: dependency_identity::option_view(value.qualified_name),
        signature: dependency_identity::option_view(value.signature),
        declaration: artifact_range(value.declaration),
        name_range: artifact_range(value.name_range),
        owner_id: dependency_identity::option_view(value.owner_id),
        modifiers: text::texts(value.modifiers@),
        applied_symbol_ids: text::texts(value.applied_symbol_ids@),
        freshness: value.freshness@,
        completeness: value.completeness@,
        component_id: value.component_id@,
    }
}

fn decode_detail_declaration(block: &ArtifactSymbolDetailBlock, ordinal: u32) -> (result: Result<
    DecodedSymbol,
    ArtifactProtoError,
>)
    ensures
        result is Ok <==> symbol_detail::detail_readable(*block, ordinal),
        result matches Err(error) ==> error == ArtifactProtoError::LengthMismatch,
        result matches Ok(decoded) ==> {
            &&& stores_source_unit(block.defaults->0.source_unit->0, decoded.source_unit)
            &&& stores_provenance(
                symbol_detail::expanded_provenance(*block, ordinal),
                decoded.provenance,
            )
            &&& declaration_text(decoded.declaration) == symbol_detail::expanded_symbol(
                *block,
                ordinal,
            )
            &&& decoded.declaration.source_unit_index == 0
            &&& decoded.declaration.provenance_index == 0
        },
{
    match expand_detail(block, ordinal) {
        Ok(expanded) => {
            let ids: Vec<String> = Vec::new();
            let declaration = decode_symbol(&expanded.symbol, 0, ids.as_slice());
            assert(declaration_text(declaration) == symbol_detail::symbol_text(expanded.symbol));
            Ok(
                DecodedSymbol {
                    source_unit: decode_source_unit(&expanded.source_unit),
                    provenance: decode_provenance(&expanded.provenance),
                    declaration,
                },
            )
        },
        Err(error) => Err(error),
    }
}

/// Whether worker snapshots stand for canonical ones.
pub open spec fn are_written(
    written: Seq<FileAnalysisSnapshot>,
    snapshots: Seq<protocol::FileAnalysisSnapshot>,
) -> bool {
    &&& written.len() == snapshots.len()
    &&& forall|i: int|
        0 <= i < snapshots.len() ==> worker_proto_adapter::represents_snapshot(
            #[trigger] written[i],
            snapshots[i],
        )
}

/// Whether an artifact stores canonical snapshots.
pub open spec fn holds_snapshots(
    artifact: GraphArtifact,
    snapshots: Seq<protocol::FileAnalysisSnapshot>,
) -> bool {
    exists|written: Seq<FileAnalysisSnapshot>| #[trigger]
        are_written(written, snapshots) && stores_artifact(artifact, written)
}

/// The number of declarations in snapshots.
pub open spec fn symbol_total(snapshots: Seq<protocol::FileAnalysisSnapshot>) -> nat
    decreases snapshots.len(),
{
    if snapshots.len() == 0 {
        0
    } else {
        symbol_total(snapshots.drop_last()) + snapshots.last().symbols@.len()
    }
}

proof fn lemma_written_ids(
    written: Seq<FileAnalysisSnapshot>,
    snapshots: Seq<protocol::FileAnalysisSnapshot>,
)
    requires
        are_written(written, snapshots),
    ensures
        snapshot_ids(written).len() == symbol_total(snapshots),
    decreases snapshots.len(),
{
    if snapshots.len() > 0 {
        let n = snapshots.len() - 1;
        assert forall|i: int| 0 <= i < n implies worker_proto_adapter::represents_snapshot(
            #[trigger] written.drop_last()[i],
            snapshots.drop_last()[i],
        ) by {
            assert(written[i] == written.drop_last()[i]);
        }
        lemma_written_ids(written.drop_last(), snapshots.drop_last());
        assert(worker_proto_adapter::represents_snapshot(written[n], snapshots[n]));
    }
}

/// Puts snapshots into their stored form. Ordinals and indexes have to fit
/// their width. An edge whose occurrence is not among those of its snapshot is
/// refused.
pub fn encode_snapshots(snapshots: &[protocol::FileAnalysisSnapshot]) -> (result: Result<
    GraphArtifact,
    ArtifactProtoError,
>)
    requires
        symbol_total(snapshots@) <= u32::MAX,
        forall|i: int|
            0 <= i < snapshots@.len() ==> worker_proto_adapter::fact_total(
                #[trigger] snapshots@[i],
            ) < u32::MAX,
    ensures
        result is Ok <==> forall|i: int|
            0 <= i < snapshots@.len() ==> worker_proto_adapter::edges_are_listed(
                #[trigger] snapshots@[i],
            ),
        result matches Ok(artifact) ==> holds_snapshots(artifact, snapshots@),
        result matches Err(error) ==> error == ArtifactProtoError::Canonical(
            AdapterError::UnlistedOccurrence,
        ),
{
    let mut written: Vec<FileAnalysisSnapshot> = Vec::new();
    let mut i: usize = 0;
    while i < snapshots.len()
        invariant
            i <= snapshots@.len(),
            written@.len() == i,
            forall|j: int|
                0 <= j < snapshots@.len() ==> worker_proto_adapter::fact_total(
                    #[trigger] snapshots@[j],
                ) < u32::MAX,
            forall|j: int|
                0 <= j < i ==> worker_proto_adapter::edges_are_listed(#[trigger] snapshots@[j]),
            forall|j: int|
                0 <= j < i ==> worker_proto_adapter::represents_snapshot(
                    #[trigger] written@[j],
                    snapshots@[j],
                ),
        decreases snapshots@.len() - i,
    {
        match file_analysis_snapshot(&snapshots[i]) {
            Ok(snapshot) => {
                written.push(snapshot);
            },
            Err(error) => {
                assert(!worker_proto_adapter::edges_are_listed(snapshots@[i as int]));
                return Err(ArtifactProtoError::Canonical(error));
            },
        }
        i = i + 1;
    }
    proof {
        lemma_written_ids(written@, snapshots@);
    }
    let artifact = store_worker_snapshots(written.as_slice());
    assert(are_written(written@, snapshots@));
    Ok(artifact)
}

/// Whether a stored snapshot can be read: it names its provenance, and what it
/// stores is a snapshot.
pub open spec fn is_stored_snapshot(stored: GraphSnapshot, ids: Seq<Seq<char>>) -> bool {
    exists|restored: FileAnalysisSnapshot| #[trigger]
        restores_snapshot(restored, stored, ids) && worker_proto_adapter::is_snapshot(restored)
}

/// Whether a canonical snapshot is the one that is stored.
pub open spec fn reads_snapshot(
    snapshot: protocol::FileAnalysisSnapshot,
    stored: GraphSnapshot,
    ids: Seq<Seq<char>>,
) -> bool {
    exists|restored: FileAnalysisSnapshot| #[trigger]
        restores_snapshot(restored, stored, ids) && worker_proto_adapter::represents_snapshot(
            restored,
            snapshot,
        )
}

/// Why a stored snapshot cannot be read.
pub open spec fn stored_problem(stored: GraphSnapshot, ids: Seq<Seq<char>>) -> Option<
    ArtifactProtoError,
> {
    if stored.provenance_index is None {
        Some(ArtifactProtoError::LengthMismatch)
    } else if !is_stored_snapshot(stored, ids) {
        Some(ArtifactProtoError::Canonical(AdapterError::Malformed))
    } else {
        None
    }
}

/// Whether snapshots are the ones that an artifact stores.
pub open spec fn reads_artifact(
    snapshots: Seq<protocol::FileAnalysisSnapshot>,
    artifact: GraphArtifact,
) -> bool {
    &&& snapshots.len() == artifact.snapshots@.len()
    &&& forall|i: int|
        0 <= i < snapshots.len() ==> reads_snapshot(
            #[trigger] snapshots[i],
            artifact.snapshots@[i],
            artifact_ids(artifact.snapshots@),
        ) && worker_proto_adapter::is_coherent(snapshots[i])
}

/// What is stored is a snapshot, whichever of its restored forms is looked at.
proof fn lemma_restored_alike(
    a: FileAnalysisSnapshot,
    b: FileAnalysisSnapshot,
    stored: GraphSnapshot,
    ids: Seq<Seq<char>>,
)
    requires
        restores_snapshot(a, stored, ids),
        restores_snapshot(b, stored, ids),
        worker_proto_adapter::is_snapshot(a),
    ensures
        worker_proto_adapter::is_snapshot(b),
{
    assert forall|i: int| 0 <= i < b.symbols@.len() implies {
        &&& worker_proto_adapter::is_declaration(#[trigger] b.symbols@[i])
        &&& b.symbols@[i].source_unit_index == 0
        &&& b.symbols@[i].provenance_index < b.provenances@.len()
    } by {
        let kept = a.symbols@[i];
    }
    assert forall|i: int| 0 <= i < b.occurrences@.len() implies worker_proto_adapter::is_occurrence(
        #[trigger] b.occurrences@[i],
    ) && b.occurrences@[i].provenance_index < b.provenances@.len() by {
        let kept = a.occurrences@[i];
    }
    assert forall|i: int| 0 <= i < b.references@.len() implies {
        &&& (#[trigger] b.references@[i]).source_occurrence_index < b.occurrences@.len()
        &&& worker_proto_adapter::is_precision(b.references@[i].precision@)
    } by {
        let kept = a.references@[i];
    }
    assert forall|i: int| 0 <= i < b.calls@.len() implies {
        &&& (#[trigger] b.calls@[i]).source_occurrence_index < b.occurrences@.len()
        &&& worker_proto_adapter::is_precision(b.calls@[i].precision@)
    } by {
        let kept = a.calls@[i];
    }
    assert forall|i: int| 0 <= i < b.hierarchy@.len() implies worker_proto_adapter::is_precision(
        (#[trigger] b.hierarchy@[i]).precision@,
    ) && b.hierarchy@[i].provenance_index < b.provenances@.len() by {
        let kept = a.hierarchy@[i];
    }
    assert forall|i: int| 0 <= i < b.types@.len() implies worker_proto_adapter::is_type_record(
        #[trigger] b.types@[i],
    ) && b.types@[i].provenance_index < b.provenances@.len() by {
        let kept = a.types@[i];
    }
    assert forall|i: int| 0 <= i < b.diagnostics@.len() implies worker_proto_adapter::is_diagnostic(
        #[trigger] b.diagnostics@[i],
    ) && b.diagnostics@[i].provenance_index < b.provenances@.len() by {
        let kept = a.diagnostics@[i];
    }
}

fn read_snapshot(stored: &GraphSnapshot, ids: &[String]) -> (result: Result<
    protocol::FileAnalysisSnapshot,
    ArtifactProtoError,
>)
    ensures
        match stored_problem(*stored, text::texts(ids@)) {
            None => result is Ok && reads_snapshot(result->Ok_0, *stored, text::texts(ids@))
                && worker_proto_adapter::is_coherent(result->Ok_0),
            Some(problem) => result is Err && result->Err_0 == problem,
        },
{
    let restored = match decode_snapshot(stored, ids) {
        Ok(restored) => restored,
        Err(error) => {
            return Err(error);
        },
    };
    proof {
        if is_stored_snapshot(*stored, text::texts(ids@)) {
            let other = choose|other: FileAnalysisSnapshot| #[trigger]
                restores_snapshot(other, *stored, text::texts(ids@))
                    && worker_proto_adapter::is_snapshot(other);
            lemma_restored_alike(other, restored, *stored, text::texts(ids@));
        }
    }
    match decode_file_analysis_snapshot(&restored) {
        Ok(snapshot) => Ok(snapshot),
        Err(error) => Err(ArtifactProtoError::Canonical(error)),
    }
}

/// Whether a result is what decoding an artifact gives: all of its snapshots,
/// or the problem of the first that cannot be read.
pub open spec fn is_decoded_graph(
    result: Result<Vec<protocol::FileAnalysisSnapshot>, ArtifactProtoError>,
    artifact: GraphArtifact,
) -> bool {
    match result {
        Ok(snapshots) => reads_artifact(snapshots@, artifact) && forall|i: int|
            0 <= i < artifact.snapshots@.len() ==> stored_problem(
                #[trigger] artifact.snapshots@[i],
                artifact_ids(artifact.snapshots@),
            ) is None,
        Err(error) => exists|i: int|
            0 <= i < artifact.snapshots@.len() && stored_problem(
                #[trigger] artifact.snapshots@[i],
                artifact_ids(artifact.snapshots@),
            ) == Some(error) && forall|j: int|
                0 <= j < i ==> stored_problem(
                    #[trigger] artifact.snapshots@[j],
                    artifact_ids(artifact.snapshots@),
                ) is None,
    }
}

/// Takes the snapshots out of their stored form. The first that cannot be read
/// says why.
pub fn decode_graph_artifact(artifact: &GraphArtifact) -> (result: Result<
    Vec<protocol::FileAnalysisSnapshot>,
    ArtifactProtoError,
>)
    ensures
        is_decoded_graph(result, *artifact),
{
    let ids = local_ids(artifact.snapshots.as_slice());
    let mut snapshots: Vec<protocol::FileAnalysisSnapshot> = Vec::new();
    let mut i: usize = 0;
    while i < artifact.snapshots.len()
        invariant
            text::texts(ids@) == artifact_ids(artifact.snapshots@),
            i <= artifact.snapshots@.len(),
            snapshots@.len() == i,
            forall|j: int|
                0 <= j < i ==> stored_problem(
                    #[trigger] artifact.snapshots@[j],
                    artifact_ids(artifact.snapshots@),
                ) is None,
            forall|j: int|
                0 <= j < i ==> reads_snapshot(
                    #[trigger] snapshots@[j],
                    artifact.snapshots@[j],
                    artifact_ids(artifact.snapshots@),
                ) && worker_proto_adapter::is_coherent(snapshots@[j]),
        decreases artifact.snapshots@.len() - i,
    {
        match read_snapshot(&artifact.snapshots[i], ids.as_slice()) {
            Ok(snapshot) => {
                snapshots.push(snapshot);
            },
            Err(error) => {
                assert(stored_problem(
                    artifact.snapshots@[i as int],
                    artifact_ids(artifact.snapshots@),
                ) == Some(error));
                return Err(error);
            },
        }
        i = i + 1;
    }
    Ok(snapshots)
}

/// Whether a canonical declaration says what a stored one says, its source
/// unit and provenance aside.
pub open spec fn says(stored: symbol_detail::SymbolText, symbol: SymbolRecord) -> bool {
    &&& stored.id == symbol.id@
    &&& stored.backend_key == symbol.backend_key.value@
    &&& stored.backend_schema_version == symbol.backend_key.schema_version
    &&& stored.language == value_names::language_text(symbol.language@)
    &&& stored.kind == value_names::symbol_kind_text(symbol.kind)
    &&& stored.name == symbol.name@
    &&& stored.qualified_name == worker_proto_adapter::viewed(symbol.qualified_name)
    &&& stored.signature == worker_proto_adapter::viewed(symbol.signature)
    &&& stored.declaration == artifact_range(Some(symbol.declaration.bytes))
    &&& stored.name_range == artifact_range(Some(symbol.name_range.bytes))
    &&& stored.owner_id == worker_proto_adapter::viewed(symbol.owner)
    &&& stored.modifiers == text::texts(symbol.modifiers@)
    &&& stored.applied_symbol_ids == identifiers::symbol_texts(symbol.applied_symbols@)
    &&& stored.freshness == value_names::freshness_text(symbol.freshness)
    &&& stored.completeness == value_names::completeness_text(symbol.completeness)
    &&& stored.component_id == symbol.component@
}

/// Whether what is stored is a declaration.
pub open spec fn is_symbol_text(stored: symbol_detail::SymbolText) -> bool {
    &&& stored.declaration is Some
    &&& stored.name_range is Some
    &&& worker_proto_adapter::is_symbol_kind(stored.kind)
    &&& worker_proto_adapter::is_freshness(stored.freshness)
    &&& worker_proto_adapter::is_completeness(stored.completeness)
}

/// Why a block does not answer for an ordinal.
pub open spec fn detail_problem(block: ArtifactSymbolDetailBlock, ordinal: u32) -> Option<
    ArtifactProtoError,
> {
    if !symbol_detail::detail_readable(block, ordinal) {
        Some(ArtifactProtoError::LengthMismatch)
    } else if !worker_proto_adapter::is_origin(block.defaults->0.source_unit->0.origin@)
        || !is_symbol_text(symbol_detail::expanded_symbol(block, ordinal)) {
        Some(ArtifactProtoError::Canonical(AdapterError::Malformed))
    } else {
        None
    }
}

/// Whether a canonical declaration is the one that a block holds for an
/// ordinal.
pub open spec fn answers(
    symbol: SymbolRecord,
    block: ArtifactSymbolDetailBlock,
    ordinal: u32,
) -> bool {
    let stored = symbol_detail::expanded_provenance(block, ordinal);
    &&& says(symbol_detail::expanded_symbol(block, ordinal), symbol)
    &&& worker_proto_adapter::is_symbol_of(symbol, block.defaults->0.source_unit->0.id@)
    &&& symbol.provenance.backend@ == stored.backend@
    &&& symbol.provenance.backend_version@ == stored.backend_version@
    &&& symbol.provenance.protocol_version == stored.worker_protocol_version
    &&& symbol.provenance.analysis_options@ == stored.analysis_options_fingerprint@
}

/// Reconstructs one declaration from its independently readable detail block.
/// The block carries the snapshot-level defaults, so neither the graph facts
/// nor a descriptor is needed.
pub fn decode_symbol_detail(block: &ArtifactSymbolDetailBlock, ordinal: u32) -> (result: Result<
    SymbolRecord,
    ArtifactProtoError,
>)
    ensures
        match detail_problem(*block, ordinal) {
            None => result is Ok && answers(result->Ok_0, *block, ordinal),
            Some(problem) => result is Err && result->Err_0 == problem,
        },
{
    let decoded = match decode_detail_declaration(block, ordinal) {
        Ok(decoded) => decoded,
        Err(error) => {
            return Err(error);
        },
    };
    let unit = match worker_proto_adapter::decode_source_unit(&decoded.source_unit) {
        Ok(unit) => unit,
        Err(error) => {
            return Err(ArtifactProtoError::Canonical(error));
        },
    };
    let provenance = worker_proto_adapter::decode_provenance(&decoded.provenance);
    let ghost stored = declaration_text(decoded.declaration);
    assert(stored == symbol_detail::expanded_symbol(*block, ordinal));
    assert(worker_proto_adapter::is_declaration(decoded.declaration) == is_symbol_text(stored));
    match decode_symbol_declaration(&decoded.declaration, &unit, &provenance) {
        Ok(symbol) => {
            assert(says(stored, symbol));
            Ok(symbol)
        },
        Err(error) => Err(ArtifactProtoError::Canonical(error)),
    }
}

proof fn lemma_snapshot_round_trip(
    value: FileAnalysisSnapshot,
    stored: GraphSnapshot,
    restored: FileAnalysisSnapshot,
    ids: Seq<Seq<char>>,
)
    requires
        ids.len() <= u32::MAX,
        stores_snapshot(stored, value, ordinals_of(ids)),
        restores_snapshot(restored, stored, ids),
        forall|i: int|
            0 <= i < value.symbols@.len() ==> (#[trigger] value.symbols@[i]).source_unit_index == 0,
    ensures
        same_snapshot(restored, value),
{
    assert(restored.provenance_index == value.provenance_index);
    assert forall|i: int| 0 <= i < restored.provenances@.len() implies restored.provenances@[i]
        == value.provenances@[i] by {
        assert(stores_provenance(stored.provenances@[i], value.provenances@[i]));
        assert(stores_provenance(stored.provenances@[i], restored.provenances@[i]));
    }
    assert(restored.provenances@ =~= value.provenances@);
    assert forall|i: int| 0 <= i < restored.symbols@.len() implies same_symbol(
        #[trigger] restored.symbols@[i],
        value.symbols@[i],
    ) by {
        let stored_one = stored.symbols@[i];
        let given = value.symbols@[i];
        assert(stores_symbol(stored_one, given, value.provenance_index, ordinals_of(ids)));
        assert(restores_symbol(restored.symbols@[i], stored_one, value.provenance_index, ids));
        if let Some(id) = dependency_identity::option_view(given.owner_id) {
            lemma_ordinals_lead_back(ids, id);
        }
        assert(given.source_unit_index == 0);
    }
    assert forall|i: int| 0 <= i < restored.occurrences@.len() implies same_occurrence(
        #[trigger] restored.occurrences@[i],
        value.occurrences@[i],
    ) by {
        let stored_one = stored.occurrences@[i];
        let given = value.occurrences@[i];
        assert(stores_occurrence(stored_one, given, value.provenance_index, ordinals_of(ids)));
        assert(restores_occurrence(restored.occurrences@[i], stored_one, value.provenance_index, ids));
        if let Some(id) = dependency_identity::option_view(given.enclosing_symbol_id) {
            lemma_ordinals_lead_back(ids, id);
        }
        if let Some(id) = dependency_identity::option_view(given.target_symbol_id) {
            lemma_ordinals_lead_back(ids, id);
        }
    }
    assert forall|i: int| 0 <= i < restored.references@.len() implies same_reference(
        #[trigger] restored.references@[i],
        value.references@[i],
    ) by {
        let stored_one = stored.references@[i];
        let given = value.references@[i];
        assert(stores_reference(stored_one, given, ordinals_of(ids)));
        assert(restores_reference(restored.references@[i], stored_one, ids));
        lemma_ordinals_lead_back(ids, given.target_symbol_id@);
    }
    assert forall|i: int| 0 <= i < restored.calls@.len() implies same_call(
        #[trigger] restored.calls@[i],
        value.calls@[i],
    ) by {
        let stored_one = stored.calls@[i];
        let given = value.calls@[i];
        assert(stores_call(stored_one, given, ordinals_of(ids)));
        assert(restores_call(restored.calls@[i], stored_one, ids));
        lemma_ordinals_lead_back(ids, given.target_symbol_id@);
        if let Some(id) = dependency_identity::option_view(given.caller_symbol_id) {
            lemma_ordinals_lead_back(ids, id);
        }
    }
    assert forall|i: int| 0 <= i < restored.hierarchy@.len() implies same_hierarchy(
        #[trigger] restored.hierarchy@[i],
        value.hierarchy@[i],
    ) by {
        let stored_one = stored.hierarchy@[i];
        let given = value.hierarchy@[i];
        assert(stores_hierarchy(stored_one, given, value.provenance_index, ordinals_of(ids)));
        assert(restores_hierarchy(restored.hierarchy@[i], stored_one, value.provenance_index, ids));
        lemma_ordinals_lead_back(ids, given.subtype_symbol_id@);
        lemma_ordinals_lead_back(ids, given.supertype_symbol_id@);
    }
    assert forall|i: int| 0 <= i < restored.types@.len() implies same_type(
        #[trigger] restored.types@[i],
        value.types@[i],
    ) by {
        let stored_one = stored.types@[i];
        let given = value.types@[i];
        assert(stores_type(stored_one, given, value.provenance_index));
        assert(restores_type(restored.types@[i], stored_one, value.provenance_index));
    }
    assert forall|i: int| 0 <= i < restored.diagnostics@.len() implies same_diagnostic(
        #[trigger] restored.diagnostics@[i],
        value.diagnostics@[i],
    ) by {
        let stored_one = stored.diagnostics@[i];
        let given = value.diagnostics@[i];
        assert(stores_diagnostic(stored_one, given, value.provenance_index));
        assert(restores_diagnostic(restored.diagnostics@[i], stored_one, value.provenance_index));
    }
}

proof fn lemma_stored_ids(artifact: GraphArtifact, snapshots: Seq<FileAnalysisSnapshot>, n: int)
    requires
        stores_artifact(artifact, snapshots),
        0 <= n <= snapshots.len(),
    ensures
        artifact_ids(artifact.snapshots@.take(n)) == snapshot_ids(snapshots.take(n)),
    decreases n,
{
    if n > 0 {
        lemma_stored_ids(artifact, snapshots, n - 1);
        let stored = artifact.snapshots@.take(n);
        let given = snapshots.take(n);
        assert(stored.drop_last() =~= artifact.snapshots@.take(n - 1));
        assert(given.drop_last() =~= snapshots.take(n - 1));
        assert(stores_snapshot(
            artifact.snapshots@[n - 1],
            snapshots[n - 1],
            ordinals_of(snapshot_ids(snapshots)),
        ));
        assert forall|i: int| 0 <= i < given.last().symbols@.len() implies stored_ids(
            stored.last().symbols@,
        )[i] == declared_ids(given.last().symbols@)[i] by {
            assert(stored.last().symbols@[i].id == given.last().symbols@[i].id);
        }
        assert(stored_ids(stored.last().symbols@) =~= declared_ids(given.last().symbols@));
    }
}

/// A restored snapshot stands for what the stored one stood for.
proof fn lemma_same_represents(
    restored: FileAnalysisSnapshot,
    written: FileAnalysisSnapshot,
    snapshot: protocol::FileAnalysisSnapshot,
)
    requires
        same_snapshot(restored, written),
        worker_proto_adapter::represents_snapshot(written, snapshot),
    ensures
        worker_proto_adapter::represents_snapshot(restored, snapshot),
{
    assert forall|i: int| 0 <= i < snapshot.symbols@.len() implies {
        &&& worker_proto_adapter::declares(#[trigger] restored.symbols@[i], snapshot.symbols@[i])
        &&& restored.symbols@[i].source_unit_index == 0
        &&& worker_proto_adapter::leads_to(
            restored.provenances@,
            restored.symbols@[i].provenance_index,
            snapshot.symbols@[i].provenance,
        )
    } by {
        let kept = written.symbols@[i];
    }
    assert forall|i: int| 0 <= i < snapshot.occurrences@.len() implies {
        &&& worker_proto_adapter::represents_occurrence(
            #[trigger] restored.occurrences@[i],
            snapshot.occurrences@[i],
        )
        &&& worker_proto_adapter::leads_to(
            restored.provenances@,
            restored.occurrences@[i].provenance_index,
            snapshot.occurrences@[i].provenance,
        )
    } by {
        let kept = written.occurrences@[i];
    }
    assert forall|i: int|
        0 <= i < snapshot.references@.len() implies worker_proto_adapter::represents_reference(
        #[trigger] restored.references@[i],
        snapshot.references@[i],
        snapshot.occurrences@,
    ) by {
        let kept = written.references@[i];
    }
    assert forall|i: int|
        0 <= i < snapshot.calls@.len() implies worker_proto_adapter::represents_call(
        #[trigger] restored.calls@[i],
        snapshot.calls@[i],
        snapshot.occurrences@,
    ) by {
        let kept = written.calls@[i];
    }
    assert forall|i: int| 0 <= i < snapshot.hierarchy@.len() implies {
        &&& worker_proto_adapter::represents_hierarchy(
            #[trigger] restored.hierarchy@[i],
            snapshot.hierarchy@[i],
        )
        &&& worker_proto_adapter::leads_to(
            restored.provenances@,
            restored.hierarchy@[i].provenance_index,
            snapshot.hierarchy@[i].provenance,
        )
    } by {
        let kept = written.hierarchy@[i];
    }
    assert forall|i: int| 0 <= i < snapshot.types@.len() implies {
        &&& worker_proto_adapter::represents_type(#[trigger] restored.types@[i], snapshot.types@[i])
        &&& worker_proto_adapter::leads_to(
            restored.provenances@,
            restored.types@[i].provenance_index,
            snapshot.types@[i].provenance,
        )
    } by {
        let kept = written.types@[i];
    }
    assert forall|i: int| 0 <= i < snapshot.diagnostics@.len() implies {
        &&& worker_proto_adapter::represents_diagnostic(
            #[trigger] restored.diagnostics@[i],
            snapshot.diagnostics@[i],
        )
        &&& worker_proto_adapter::leads_to(
            restored.provenances@,
            restored.diagnostics@[i].provenance_index,
            snapshot.diagnostics@[i].provenance,
        )
    } by {
        let kept = written.diagnostics@[i];
    }
}

/// Decoding an artifact gives back the snapshots that were encoded, if their
/// facts lie in their source units and were named by the backends that
/// produced them.
pub proof fn law_snapshots_round_trip(
    snapshots: Seq<protocol::FileAnalysisSnapshot>,
    artifact: GraphArtifact,
    read: Seq<protocol::FileAnalysisSnapshot>,
)
    requires
        symbol_total(snapshots) <= u32::MAX,
        forall|i: int|
            0 <= i < snapshots.len() ==> worker_proto_adapter::is_coherent(
                #[trigger] snapshots[i],
            ),
        holds_snapshots(artifact, snapshots),
        reads_artifact(read, artifact),
    ensures
        read.len() == snapshots.len(),
        forall|i: int|
            0 <= i < snapshots.len() ==> worker_proto_adapter::same_snapshot(
                #[trigger] snapshots[i],
                read[i],
            ),
{
    let written = choose|written: Seq<FileAnalysisSnapshot>| #[trigger]
        are_written(written, snapshots) && stores_artifact(artifact, written);
    lemma_written_ids(written, snapshots);
    let ids = snapshot_ids(written);
    lemma_stored_ids(artifact, written, written.len() as int);
    assert(artifact.snapshots@.take(written.len() as int) =~= artifact.snapshots@);
    assert(written.take(written.len() as int) =~= written);
    assert forall|i: int| 0 <= i < snapshots.len() implies worker_proto_adapter::same_snapshot(
        #[trigger] snapshots[i],
        read[i],
    ) by {
        let stored = artifact.snapshots@[i];
        assert(reads_snapshot(read[i], stored, ids));
        let restored = choose|restored: FileAnalysisSnapshot| #[trigger]
            restores_snapshot(restored, stored, ids) && worker_proto_adapter::represents_snapshot(
                restored,
                read[i],
            );
        assert(stores_snapshot(stored, written[i], ordinals_of(ids)));
        assert(worker_proto_adapter::represents_snapshot(written[i], snapshots[i]));
        lemma_snapshot_round_trip(written[i], stored, restored, ids);
        lemma_same_represents(restored, written[i], snapshots[i]);
        worker_proto_adapter::law_snapshot_round_trip(restored, snapshots[i], read[i]);
    }
}

} // verus!
