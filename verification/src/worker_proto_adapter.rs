//! Conversion between canonical facts and the facts that workers exchange.
//!
//! A worker fact names its provenance by an index into the table of its
//! snapshot and an edge names its occurrence by an index into the occurrences
//! of its snapshot. Enumerated values are texts.

use vstd::prelude::*;

use crate::canonical::{
    BackendKey, ByteRange, CallEdge, Completeness, ComponentId, DiagnosticRecord,
    DiagnosticSeverity, Fingerprint, Freshness, HierarchyEdge, OccurrenceKind, Precision,
    Provenance, ReferenceEdge, SourceOccurrence, SourceOrigin, SourceRange, SourceUnit,
    SourceUnitId, SymbolId, SymbolKind, SymbolRecord, TypeId, TypeRecord, WorkspacePath,
};
use crate::identifiers;
use crate::protocol::FileAnalysisSnapshot;
use crate::text;
use crate::value_names;
use crate::worker_proto;
use crate::worker_proto::SourceLocation;

pub use crate::worker_message_adapter::{
    analysis_batch_response, artifact_analysis_request, artifact_analysis_response,
    decode_analysis_batch_response, decode_artifact_analysis_request,
    decode_artifact_analysis_response, decode_materialization_request,
    decode_materialization_response, decode_worker_error, materialization_request,
    materialization_response, worker_error,
};

verus! {

/// Why a fact cannot be converted.
#[derive(Debug, Clone, Copy, PartialEq, Eq, Structural)]
pub enum AdapterError {
    /// The occurrence of an edge is not among those of its snapshot.
    UnlistedOccurrence,
    /// A part is missing, an enumerated value is unknown, or an index leads
    /// nowhere.
    Malformed,
}

impl AdapterError {
    /// The message that is shown for an error.
    pub open spec fn message_text(&self) -> Seq<char> {
        match self {
            AdapterError::UnlistedOccurrence => {
                "the occurrence of an edge is not among those of its snapshot"@
            },
            AdapterError::Malformed => "a part is missing or unknown"@,
        }
    }

    /// Computes `message_text`.
    pub fn message(&self) -> (result: String)
        ensures
            result@ == self.message_text(),
    {
        match self {
            AdapterError::UnlistedOccurrence => {
                "the occurrence of an edge is not among those of its snapshot".to_owned()
            },
            AdapterError::Malformed => "a part is missing or unknown".to_owned(),
        }
    }
}

/// What an optional value holds.
pub open spec fn viewed<T: View>(value: Option<T>) -> Option<T::V> {
    match value {
        Some(held) => Some(held@),
        None => None,
    }
}

fn symbol_text(id: &Option<SymbolId>) -> (result: Option<String>)
    ensures
        viewed(result) == viewed(*id),
{
    match id {
        Some(id) => Some(id.as_str().to_owned()),
        None => None,
    }
}

fn symbol_of(name: &Option<String>) -> (result: Option<SymbolId>)
    ensures
        viewed(result) == viewed(*name),
{
    match name {
        Some(name) => Some(SymbolId::new(name)),
        None => None,
    }
}

fn fingerprint_text(value: &Option<Fingerprint>) -> (result: Option<String>)
    ensures
        viewed(result) == viewed(*value),
{
    match value {
        Some(value) => Some(value.as_str().to_owned()),
        None => None,
    }
}

fn fingerprint_of(value: &Option<String>) -> (result: Option<Fingerprint>)
    ensures
        viewed(result) == viewed(*value),
{
    match value {
        Some(value) => Some(Fingerprint::new(value)),
        None => None,
    }
}

/// Whether a text names a source origin.
pub open spec fn is_origin(name: Seq<char>) -> bool {
    exists|value: SourceOrigin| #[trigger] value_names::origin_text(value) == name
}

/// Whether a text names a freshness.
pub open spec fn is_freshness(name: Seq<char>) -> bool {
    exists|value: Freshness| #[trigger] value_names::freshness_text(value) == name
}

/// Whether a text names a completeness.
pub open spec fn is_completeness(name: Seq<char>) -> bool {
    exists|value: Completeness| #[trigger] value_names::completeness_text(value) == name
}

/// Whether a text names a precision.
pub open spec fn is_precision(name: Seq<char>) -> bool {
    exists|value: Precision| #[trigger] value_names::precision_text(value) == name
}

/// Whether a text names a kind of a declaration.
pub open spec fn is_symbol_kind(name: Seq<char>) -> bool {
    exists|value: SymbolKind| #[trigger] value_names::symbol_kind_text(value) == name
}

/// Whether a text names a kind of an occurrence.
pub open spec fn is_occurrence_kind(name: Seq<char>) -> bool {
    exists|value: OccurrenceKind| #[trigger] value_names::occurrence_kind_text(value) == name
}

/// Whether a text names a severity.
pub open spec fn is_severity(name: Seq<char>) -> bool {
    exists|value: DiagnosticSeverity| #[trigger] value_names::severity_text(value) == name
}

/// Whether a worker's source unit stands for a canonical one.
pub open spec fn represents_unit(unit: worker_proto::SourceUnit, canonical: SourceUnit) -> bool {
    &&& unit.id@ == canonical.id@
    &&& unit.component@ == canonical.component@
    &&& unit.path@ == canonical.path@
    &&& unit.language@ == value_names::language_text(canonical.language@)
    &&& unit.origin@ == value_names::origin_text(canonical.origin)
    &&& unit.content@ == canonical.content@
    &&& unit.context@ == canonical.context@
}

/// Whether two source units say the same.
pub open spec fn same_unit(a: SourceUnit, b: SourceUnit) -> bool {
    &&& a.id@ == b.id@
    &&& a.component@ == b.component@
    &&& a.path@ == b.path@
    &&& a.language@ == b.language@
    &&& a.origin == b.origin
    &&& a.content@ == b.content@
    &&& a.context@ == b.context@
}

/// Writes a source unit for a worker.
pub fn source_unit(unit: &SourceUnit) -> (result: worker_proto::SourceUnit)
    ensures
        represents_unit(result, *unit),
{
    worker_proto::SourceUnit {
        id: unit.id.as_str().to_owned(),
        component: unit.component.as_str().to_owned(),
        path: unit.path.as_str().to_owned(),
        language: value_names::language_name(&unit.language),
        origin: value_names::origin_name(unit.origin).to_owned(),
        content: unit.content.as_str().to_owned(),
        context: unit.context.as_str().to_owned(),
    }
}

/// Reads a worker's source unit. An unknown origin is refused.
pub fn decode_source_unit(unit: &worker_proto::SourceUnit) -> (result: Result<
    SourceUnit,
    AdapterError,
>)
    ensures
        result is Ok <==> is_origin(unit.origin@),
        result matches Ok(canonical) ==> represents_unit(*unit, canonical)
            && value_names::is_plain_language(canonical.language@),
        result matches Err(error) ==> error == AdapterError::Malformed,
{
    match value_names::parse_origin(unit.origin.as_str()) {
        Some(origin) => Ok(
            SourceUnit {
                id: SourceUnitId::new(&unit.id),
                component: ComponentId::new(&unit.component),
                path: WorkspacePath::new(&unit.path),
                language: value_names::parse_language(unit.language.as_str()),
                origin,
                content: Fingerprint::new(&unit.content),
                context: Fingerprint::new(&unit.context),
            },
        ),
        None => Err(AdapterError::Malformed),
    }
}

/// A source unit that was written and read again says the same.
pub proof fn law_source_unit_round_trip(
    written: worker_proto::SourceUnit,
    unit: SourceUnit,
    read: SourceUnit,
)
    requires
        value_names::is_plain_language(unit.language@),
        value_names::is_plain_language(read.language@),
        represents_unit(written, unit),
        represents_unit(written, read),
    ensures
        is_origin(written.origin@),
        same_unit(unit, read),
{
    value_names::law_language_texts_differ(unit.language@, read.language@);
    value_names::law_origin_texts_differ(unit.origin, read.origin);
}

/// Whether a worker's provenance stands for a canonical one.
pub open spec fn represents_provenance(
    provenance: worker_proto::Provenance,
    canonical: Provenance,
) -> bool {
    &&& provenance.backend@ == canonical.backend@
    &&& provenance.backend_version@ == canonical.backend_version@
    &&& provenance.protocol_version == canonical.protocol_version
    &&& provenance.analysis_options_fingerprint@ == canonical.analysis_options@
}

/// Writes a provenance for a worker.
pub fn provenance(value: &Provenance) -> (result: worker_proto::Provenance)
    ensures
        represents_provenance(result, *value),
{
    worker_proto::Provenance {
        backend: value.backend.clone(),
        backend_version: value.backend_version.clone(),
        protocol_version: value.protocol_version,
        analysis_options_fingerprint: value.analysis_options.as_str().to_owned(),
    }
}

/// Reads a worker's provenance.
pub fn decode_provenance(value: &worker_proto::Provenance) -> (result: Provenance)
    ensures
        represents_provenance(*value, result),
{
    Provenance {
        backend: value.backend.clone(),
        backend_version: value.backend_version.clone(),
        protocol_version: value.protocol_version,
        analysis_options: Fingerprint::new(&value.analysis_options_fingerprint),
    }
}

/// Whether a worker's declaration says what a canonical one says, the parts
/// that its snapshot holds aside.
pub open spec fn declares(
    declaration: worker_proto::SymbolDeclaration,
    symbol: SymbolRecord,
) -> bool {
    &&& declaration.id@ == symbol.id@
    &&& declaration.backend_key@ == symbol.backend_key.value@
    &&& declaration.backend_schema_version == symbol.backend_key.schema_version
    &&& declaration.language@ == value_names::language_text(symbol.language@)
    &&& declaration.kind@ == value_names::symbol_kind_text(symbol.kind)
    &&& declaration.name@ == symbol.name@
    &&& viewed(declaration.qualified_name) == viewed(symbol.qualified_name)
    &&& viewed(declaration.signature) == viewed(symbol.signature)
    &&& declaration.component_id@ == symbol.component@
    &&& declaration.declaration == Some(symbol.declaration.bytes)
    &&& declaration.name_range == Some(symbol.name_range.bytes)
    &&& viewed(declaration.owner_id) == viewed(symbol.owner)
    &&& text::texts(declaration.modifiers@) == text::texts(symbol.modifiers@)
    &&& text::texts(declaration.applied_symbol_ids@) == identifiers::symbol_texts(
        symbol.applied_symbols@,
    )
    &&& declaration.freshness@ == value_names::freshness_text(symbol.freshness)
    &&& declaration.completeness@ == value_names::completeness_text(symbol.completeness)
}

/// Whether a declaration lies in a source unit and was named by the backend
/// that produced it.
pub open spec fn is_symbol_of(symbol: SymbolRecord, unit: Seq<char>) -> bool {
    &&& symbol.declaration.source_unit@ == unit
    &&& symbol.name_range.source_unit@ == unit
    &&& symbol.backend_key.backend@ == symbol.provenance.backend@
    &&& value_names::is_plain_language(symbol.language@)
}

/// Whether two declarations say the same.
pub open spec fn same_symbol(a: SymbolRecord, b: SymbolRecord) -> bool {
    &&& a.id@ == b.id@
    &&& a.backend_key.backend@ == b.backend_key.backend@
    &&& a.backend_key.schema_version == b.backend_key.schema_version
    &&& a.backend_key.value@ == b.backend_key.value@
    &&& a.language@ == b.language@
    &&& a.kind == b.kind
    &&& a.name@ == b.name@
    &&& viewed(a.qualified_name) == viewed(b.qualified_name)
    &&& viewed(a.signature) == viewed(b.signature)
    &&& a.component@ == b.component@
    &&& a.declaration.source_unit@ == b.declaration.source_unit@
    &&& a.declaration.bytes == b.declaration.bytes
    &&& a.name_range.source_unit@ == b.name_range.source_unit@
    &&& a.name_range.bytes == b.name_range.bytes
    &&& viewed(a.owner) == viewed(b.owner)
    &&& text::texts(a.modifiers@) == text::texts(b.modifiers@)
    &&& identifiers::symbol_texts(a.applied_symbols@) == identifiers::symbol_texts(
        b.applied_symbols@,
    )
    &&& a.freshness == b.freshness
    &&& a.completeness == b.completeness
    &&& a.provenance@ == b.provenance@
}

/// Writes a declaration for a worker, as the first of its snapshot's source
/// units and provenances.
pub fn symbol_declaration(symbol: &SymbolRecord) -> (result: worker_proto::SymbolDeclaration)
    ensures
        declares(result, *symbol),
        result.source_unit_index == 0,
        result.provenance_index == 0,
{
    let mut applied: Vec<String> = Vec::new();
    let mut i: usize = 0;
    while i < symbol.applied_symbols.len()
        invariant
            i <= symbol.applied_symbols@.len(),
            text::texts(applied@) == identifiers::symbol_texts(symbol.applied_symbols@).take(
                i as int,
            ),
        decreases symbol.applied_symbols@.len() - i,
    {
        let ghost before = applied@;
        applied.push(symbol.applied_symbols[i].as_str().to_owned());
        proof {
            assert(text::texts(applied@) =~= text::texts(before).push(
                symbol.applied_symbols@[i as int]@,
            ));
            assert(identifiers::symbol_texts(symbol.applied_symbols@).take(i + 1)
                =~= identifiers::symbol_texts(symbol.applied_symbols@).take(i as int).push(
                symbol.applied_symbols@[i as int]@,
            ));
        }
        i = i + 1;
    }
    assert(identifiers::symbol_texts(symbol.applied_symbols@).take(i as int)
        =~= identifiers::symbol_texts(symbol.applied_symbols@));
    let modifiers = symbol.modifiers.clone();
    assert(text::texts(modifiers@) =~= text::texts(symbol.modifiers@));
    worker_proto::SymbolDeclaration {
        id: symbol.id.as_str().to_owned(),
        source_unit_index: 0,
        provenance_index: 0,
        backend_key: symbol.backend_key.value.clone(),
        backend_schema_version: symbol.backend_key.schema_version,
        language: value_names::language_name(&symbol.language),
        kind: value_names::symbol_kind_name(symbol.kind).to_owned(),
        name: symbol.name.clone(),
        qualified_name: symbol.qualified_name.clone(),
        signature: symbol.signature.clone(),
        declaration: Some(symbol.declaration.bytes),
        name_range: Some(symbol.name_range.bytes),
        owner_id: symbol_text(&symbol.owner),
        modifiers,
        applied_symbol_ids: applied,
        freshness: value_names::freshness_name(symbol.freshness).to_owned(),
        completeness: value_names::completeness_name(symbol.completeness).to_owned(),
        component_id: symbol.component.as_str().to_owned(),
    }
}

/// Whether a worker's declaration can be read.
pub open spec fn is_declaration(declaration: worker_proto::SymbolDeclaration) -> bool {
    &&& declaration.declaration is Some
    &&& declaration.name_range is Some
    &&& is_symbol_kind(declaration.kind@)
    &&& is_freshness(declaration.freshness@)
    &&& is_completeness(declaration.completeness@)
}

/// Reads a worker's declaration of a source unit and a provenance.
pub fn decode_symbol_declaration(
    declaration: &worker_proto::SymbolDeclaration,
    unit: &SourceUnit,
    provenance: &Provenance,
) -> (result: Result<SymbolRecord, AdapterError>)
    ensures
        result is Ok <==> is_declaration(*declaration),
        result matches Ok(symbol) ==> declares(*declaration, symbol) && is_symbol_of(
            symbol,
            unit.id@,
        ) && symbol.provenance@ == provenance@,
        result matches Err(error) ==> error == AdapterError::Malformed,
{
    let kind = match value_names::parse_symbol_kind(declaration.kind.as_str()) {
        Some(kind) => kind,
        None => {
            return Err(AdapterError::Malformed);
        },
    };
    let freshness = match value_names::parse_freshness(declaration.freshness.as_str()) {
        Some(freshness) => freshness,
        None => {
            return Err(AdapterError::Malformed);
        },
    };
    let completeness = match value_names::parse_completeness(declaration.completeness.as_str()) {
        Some(completeness) => completeness,
        None => {
            return Err(AdapterError::Malformed);
        },
    };
    let bytes = match declaration.declaration {
        Some(bytes) => bytes,
        None => {
            return Err(AdapterError::Malformed);
        },
    };
    let name_bytes = match declaration.name_range {
        Some(bytes) => bytes,
        None => {
            return Err(AdapterError::Malformed);
        },
    };
    let mut applied: Vec<SymbolId> = Vec::new();
    let mut i: usize = 0;
    while i < declaration.applied_symbol_ids.len()
        invariant
            i <= declaration.applied_symbol_ids@.len(),
            identifiers::symbol_texts(applied@) == text::texts(
                declaration.applied_symbol_ids@,
            ).take(i as int),
        decreases declaration.applied_symbol_ids@.len() - i,
    {
        let ghost before = applied@;
        applied.push(SymbolId::new(&declaration.applied_symbol_ids[i]));
        proof {
            assert(identifiers::symbol_texts(applied@) =~= identifiers::symbol_texts(before).push(
                declaration.applied_symbol_ids@[i as int]@,
            ));
            assert(text::texts(declaration.applied_symbol_ids@).take(i + 1) =~= text::texts(
                declaration.applied_symbol_ids@,
            ).take(i as int).push(declaration.applied_symbol_ids@[i as int]@));
        }
        i = i + 1;
    }
    assert(text::texts(declaration.applied_symbol_ids@).take(i as int) =~= text::texts(
        declaration.applied_symbol_ids@,
    ));
    let modifiers = declaration.modifiers.clone();
    assert(text::texts(modifiers@) =~= text::texts(declaration.modifiers@));
    Ok(
        SymbolRecord {
            id: SymbolId::new(&declaration.id),
            backend_key: BackendKey {
                backend: provenance.backend.clone(),
                schema_version: declaration.backend_schema_version,
                value: declaration.backend_key.clone(),
            },
            language: value_names::parse_language(declaration.language.as_str()),
            kind,
            name: declaration.name.clone(),
            qualified_name: declaration.qualified_name.clone(),
            signature: declaration.signature.clone(),
            component: ComponentId::new(&declaration.component_id),
            declaration: SourceRange { source_unit: unit.id.clone(), bytes },
            name_range: SourceRange { source_unit: unit.id.clone(), bytes: name_bytes },
            owner: symbol_of(&declaration.owner_id),
            modifiers,
            applied_symbols: applied,
            freshness,
            completeness,
            provenance: provenance.clone(),
        },
    )
}

/// A declaration that was written and read again, for the same source unit
/// and provenance, says the same.
pub proof fn law_symbol_round_trip(
    written: worker_proto::SymbolDeclaration,
    symbol: SymbolRecord,
    read: SymbolRecord,
    unit: Seq<char>,
)
    requires
        is_symbol_of(symbol, unit),
        is_symbol_of(read, unit),
        symbol.provenance@ == read.provenance@,
        declares(written, symbol),
        declares(written, read),
    ensures
        is_declaration(written),
        same_symbol(symbol, read),
{
    value_names::law_language_texts_differ(symbol.language@, read.language@);
    value_names::law_symbol_kind_texts_differ(symbol.kind, read.kind);
    value_names::law_freshness_texts_differ(symbol.freshness, read.freshness);
    value_names::law_completeness_texts_differ(symbol.completeness, read.completeness);
}

/// Whether a worker's occurrence says what a canonical one says, the parts
/// that its snapshot holds aside.
pub open spec fn represents_occurrence(
    occurrence: worker_proto::Occurrence,
    canonical: SourceOccurrence,
) -> bool {
    &&& occurrence.location == Some(
        SourceLocation { source_unit_index: 0, range: Some(canonical.range.bytes) },
    )
    &&& occurrence.kind@ == value_names::occurrence_kind_text(canonical.kind)
    &&& viewed(occurrence.enclosing_symbol_id) == viewed(canonical.enclosing_symbol)
    &&& viewed(occurrence.target_symbol_id) == viewed(canonical.target)
    &&& viewed(occurrence.type_id) == viewed(canonical.type_id)
    &&& occurrence.precision@ == value_names::precision_text(canonical.precision)
    &&& occurrence.freshness@ == value_names::freshness_text(canonical.freshness)
    &&& occurrence.completeness@ == value_names::completeness_text(canonical.completeness)
}

/// Whether two occurrences say the same.
pub open spec fn same_occurrence(a: SourceOccurrence, b: SourceOccurrence) -> bool {
    &&& a.range.source_unit@ == b.range.source_unit@
    &&& a.range.bytes == b.range.bytes
    &&& a.kind == b.kind
    &&& viewed(a.enclosing_symbol) == viewed(b.enclosing_symbol)
    &&& viewed(a.target) == viewed(b.target)
    &&& viewed(a.type_id) == viewed(b.type_id)
    &&& a.precision == b.precision
    &&& a.freshness == b.freshness
    &&& a.completeness == b.completeness
    &&& a.provenance@ == b.provenance@
}

fn is_same_symbol(a: &Option<SymbolId>, b: &Option<SymbolId>) -> (result: bool)
    ensures
        result == (viewed(*a) == viewed(*b)),
{
    match (a, b) {
        (Some(a), Some(b)) => a.same(b),
        (None, None) => true,
        _ => false,
    }
}

fn is_same_type(a: &Option<TypeId>, b: &Option<TypeId>) -> (result: bool)
    ensures
        result == (viewed(*a) == viewed(*b)),
{
    match (a, b) {
        (Some(a), Some(b)) => a.same(b),
        (None, None) => true,
        _ => false,
    }
}

fn is_same_occurrence(a: &SourceOccurrence, b: &SourceOccurrence) -> (result: bool)
    ensures
        result == same_occurrence(*a, *b),
{
    a.range.source_unit.same(&b.range.source_unit) && a.range.bytes == b.range.bytes && a.kind
        == b.kind && is_same_symbol(&a.enclosing_symbol, &b.enclosing_symbol) && is_same_symbol(
        &a.target,
        &b.target,
    ) && is_same_type(&a.type_id, &b.type_id) && a.precision == b.precision && a.freshness
        == b.freshness && a.completeness == b.completeness && a.provenance.same(&b.provenance)
}

fn occurrence(canonical: &SourceOccurrence, provenance_index: u32) -> (result:
    worker_proto::Occurrence)
    ensures
        represents_occurrence(result, *canonical),
        result.provenance_index == provenance_index,
{
    worker_proto::Occurrence {
        location: Some(SourceLocation { source_unit_index: 0, range: Some(canonical.range.bytes) }),
        kind: value_names::occurrence_kind_name(canonical.kind).to_owned(),
        enclosing_symbol_id: symbol_text(&canonical.enclosing_symbol),
        target_symbol_id: symbol_text(&canonical.target),
        type_id: match &canonical.type_id {
            Some(id) => Some(id.as_str().to_owned()),
            None => None,
        },
        precision: value_names::precision_name(canonical.precision).to_owned(),
        freshness: value_names::freshness_name(canonical.freshness).to_owned(),
        completeness: value_names::completeness_name(canonical.completeness).to_owned(),
        provenance_index,
    }
}

/// Whether a worker's occurrence can be read.
pub open spec fn is_occurrence(occurrence: worker_proto::Occurrence) -> bool {
    &&& occurrence.location matches Some(location) && location.source_unit_index == 0
        && location.range is Some
    &&& is_occurrence_kind(occurrence.kind@)
    &&& is_precision(occurrence.precision@)
    &&& is_freshness(occurrence.freshness@)
    &&& is_completeness(occurrence.completeness@)
}

fn decode_occurrence(
    occurrence: &worker_proto::Occurrence,
    unit: &SourceUnit,
    provenance: &Provenance,
) -> (result: Option<SourceOccurrence>)
    ensures
        result is Some <==> is_occurrence(*occurrence),
        result matches Some(canonical) ==> represents_occurrence(*occurrence, canonical)
            && canonical.range.source_unit@ == unit.id@ && canonical.provenance@ == provenance@,
{
    let bytes: ByteRange = match occurrence.location {
        Some(location) => match location.range {
            Some(bytes) => if location.source_unit_index == 0 {
                bytes
            } else {
                return None;
            },
            None => {
                return None;
            },
        },
        None => {
            return None;
        },
    };
    let kind = match value_names::parse_occurrence_kind(occurrence.kind.as_str()) {
        Some(kind) => kind,
        None => {
            return None;
        },
    };
    let precision = match value_names::parse_precision(occurrence.precision.as_str()) {
        Some(precision) => precision,
        None => {
            return None;
        },
    };
    let freshness = match value_names::parse_freshness(occurrence.freshness.as_str()) {
        Some(freshness) => freshness,
        None => {
            return None;
        },
    };
    let completeness = match value_names::parse_completeness(occurrence.completeness.as_str()) {
        Some(completeness) => completeness,
        None => {
            return None;
        },
    };
    Some(
        SourceOccurrence {
            range: SourceRange { source_unit: unit.id.clone(), bytes },
            kind,
            enclosing_symbol: symbol_of(&occurrence.enclosing_symbol_id),
            target: symbol_of(&occurrence.target_symbol_id),
            type_id: match &occurrence.type_id {
                Some(id) => Some(TypeId::new(id)),
                None => None,
            },
            precision,
            freshness,
            completeness,
            provenance: provenance.clone(),
        },
    )
}

proof fn lemma_occurrence_round_trip(
    written: worker_proto::Occurrence,
    canonical: SourceOccurrence,
    read: SourceOccurrence,
)
    requires
        canonical.range.source_unit@ == read.range.source_unit@,
        canonical.provenance@ == read.provenance@,
        represents_occurrence(written, canonical),
        represents_occurrence(written, read),
    ensures
        same_occurrence(canonical, read),
{
    value_names::law_occurrence_kind_texts_differ(canonical.kind, read.kind);
    value_names::law_precision_texts_differ(canonical.precision, read.precision);
    value_names::law_freshness_texts_differ(canonical.freshness, read.freshness);
    value_names::law_completeness_texts_differ(canonical.completeness, read.completeness);
}

/// Whether a worker's reference stands for a canonical one of a snapshot with
/// these occurrences.
pub open spec fn represents_reference(
    edge: worker_proto::ReferenceEdge,
    canonical: ReferenceEdge,
    occurrences: Seq<SourceOccurrence>,
) -> bool {
    &&& edge.source_occurrence_index < occurrences.len()
    &&& same_occurrence(occurrences[edge.source_occurrence_index as int], canonical.source)
    &&& edge.target_symbol_id@ == canonical.target@
    &&& edge.precision@ == value_names::precision_text(canonical.precision)
}

/// Whether two references say the same.
pub open spec fn same_reference(a: ReferenceEdge, b: ReferenceEdge) -> bool {
    &&& same_occurrence(a.source, b.source)
    &&& a.target@ == b.target@
    &&& a.precision == b.precision
}

/// Whether a worker's call stands for a canonical one of a snapshot with these
/// occurrences.
pub open spec fn represents_call(
    edge: worker_proto::CallEdge,
    canonical: CallEdge,
    occurrences: Seq<SourceOccurrence>,
) -> bool {
    &&& edge.source_occurrence_index < occurrences.len()
    &&& same_occurrence(occurrences[edge.source_occurrence_index as int], canonical.source)
    &&& edge.target_symbol_id@ == canonical.target@
    &&& viewed(edge.caller_symbol_id) == viewed(canonical.caller)
    &&& edge.precision@ == value_names::precision_text(canonical.precision)
}

/// Whether two calls say the same.
pub open spec fn same_call(a: CallEdge, b: CallEdge) -> bool {
    &&& same_occurrence(a.source, b.source)
    &&& a.target@ == b.target@
    &&& viewed(a.caller) == viewed(b.caller)
    &&& a.precision == b.precision
}

/// Whether a worker's subtype relation says what a canonical one says, its
/// provenance aside.
pub open spec fn represents_hierarchy(
    edge: worker_proto::HierarchyEdge,
    canonical: HierarchyEdge,
) -> bool {
    &&& edge.subtype_symbol_id@ == canonical.subtype@
    &&& edge.supertype_symbol_id@ == canonical.supertype@
    &&& edge.precision@ == value_names::precision_text(canonical.precision)
}

/// Whether two subtype relations say the same.
pub open spec fn same_hierarchy(a: HierarchyEdge, b: HierarchyEdge) -> bool {
    &&& a.subtype@ == b.subtype@
    &&& a.supertype@ == b.supertype@
    &&& a.precision == b.precision
    &&& a.provenance@ == b.provenance@
}

/// Whether a worker's type says what a canonical one says, the parts that its
/// provenance holds aside.
pub open spec fn represents_type(record: worker_proto::TypeRecord, canonical: TypeRecord) -> bool {
    &&& record.id@ == canonical.id@
    &&& record.language@ == value_names::language_text(canonical.language@)
    &&& record.display@ == canonical.display@
    &&& match canonical.backend_key {
        Some(key) => viewed(record.backend_key) == Some(key.value@)
            && record.backend_schema_version == Some(key.schema_version),
        None => record.backend_key is None && record.backend_schema_version is None,
    }
    &&& record.freshness@ == value_names::freshness_text(canonical.freshness)
    &&& record.completeness@ == value_names::completeness_text(canonical.completeness)
}

/// Whether a type was named by the backend that produced it.
pub open spec fn is_type_of_backend(record: TypeRecord) -> bool {
    &&& record.backend_key matches Some(key) ==> key.backend@ == record.provenance.backend@
    &&& value_names::is_plain_language(record.language@)
}

/// Whether two types say the same.
pub open spec fn same_type(a: TypeRecord, b: TypeRecord) -> bool {
    &&& a.id@ == b.id@
    &&& a.language@ == b.language@
    &&& a.display@ == b.display@
    &&& match (a.backend_key, b.backend_key) {
        (Some(x), Some(y)) => x.backend@ == y.backend@ && x.schema_version == y.schema_version
            && x.value@ == y.value@,
        (None, None) => true,
        _ => false,
    }
    &&& a.freshness == b.freshness
    &&& a.completeness == b.completeness
    &&& a.provenance@ == b.provenance@
}

fn type_record(canonical: &TypeRecord, provenance_index: u32) -> (result: worker_proto::TypeRecord)
    ensures
        represents_type(result, *canonical),
        result.provenance_index == provenance_index,
{
    let (backend_key, backend_schema_version): (Option<String>, Option<u32>) =
        match &canonical.backend_key {
        Some(key) => (Some(key.value.clone()), Some(key.schema_version)),
        None => (None, None),
    };
    worker_proto::TypeRecord {
        id: canonical.id.as_str().to_owned(),
        language: value_names::language_name(&canonical.language),
        display: canonical.display.clone(),
        backend_key,
        backend_schema_version,
        freshness: value_names::freshness_name(canonical.freshness).to_owned(),
        completeness: value_names::completeness_name(canonical.completeness).to_owned(),
        provenance_index,
    }
}

/// Whether a worker's type can be read.
pub open spec fn is_type_record(record: worker_proto::TypeRecord) -> bool {
    &&& record.backend_key is Some <==> record.backend_schema_version is Some
    &&& is_freshness(record.freshness@)
    &&& is_completeness(record.completeness@)
}

fn decode_type_record(record: &worker_proto::TypeRecord, provenance: &Provenance) -> (result:
    Option<TypeRecord>)
    ensures
        result is Some <==> is_type_record(*record),
        result matches Some(canonical) ==> represents_type(*record, canonical)
            && is_type_of_backend(canonical) && canonical.provenance@ == provenance@,
{
    let backend_key = match (&record.backend_key, record.backend_schema_version) {
        (Some(value), Some(schema_version)) => Some(
            BackendKey {
                backend: provenance.backend.clone(),
                schema_version,
                value: value.clone(),
            },
        ),
        (None, None) => None,
        _ => {
            return None;
        },
    };
    let freshness = match value_names::parse_freshness(record.freshness.as_str()) {
        Some(freshness) => freshness,
        None => {
            return None;
        },
    };
    let completeness = match value_names::parse_completeness(record.completeness.as_str()) {
        Some(completeness) => completeness,
        None => {
            return None;
        },
    };
    Some(
        TypeRecord {
            id: TypeId::new(&record.id),
            language: value_names::parse_language(record.language.as_str()),
            display: record.display.clone(),
            backend_key,
            freshness,
            completeness,
            provenance: provenance.clone(),
        },
    )
}

proof fn lemma_type_round_trip(
    written: worker_proto::TypeRecord,
    canonical: TypeRecord,
    read: TypeRecord,
)
    requires
        is_type_of_backend(canonical),
        is_type_of_backend(read),
        canonical.provenance@ == read.provenance@,
        represents_type(written, canonical),
        represents_type(written, read),
    ensures
        same_type(canonical, read),
{
    value_names::law_language_texts_differ(canonical.language@, read.language@);
    value_names::law_freshness_texts_differ(canonical.freshness, read.freshness);
    value_names::law_completeness_texts_differ(canonical.completeness, read.completeness);
}

/// Whether a worker's diagnostic says what a canonical one says, the parts
/// that its snapshot holds aside.
pub open spec fn represents_diagnostic(
    record: worker_proto::Diagnostic,
    canonical: DiagnosticRecord,
) -> bool {
    &&& record.source_unit_index == 0
    &&& record.range == canonical.range
    &&& record.severity@ == value_names::severity_text(canonical.severity)
    &&& viewed(record.code) == viewed(canonical.code)
    &&& record.message@ == canonical.message@
    &&& record.freshness@ == value_names::freshness_text(canonical.freshness)
    &&& record.completeness@ == value_names::completeness_text(canonical.completeness)
}

/// Whether two diagnostics say the same.
pub open spec fn same_diagnostic(a: DiagnosticRecord, b: DiagnosticRecord) -> bool {
    &&& a.source_unit@ == b.source_unit@
    &&& a.range == b.range
    &&& a.severity == b.severity
    &&& viewed(a.code) == viewed(b.code)
    &&& a.message@ == b.message@
    &&& a.freshness == b.freshness
    &&& a.completeness == b.completeness
    &&& a.provenance@ == b.provenance@
}

fn diagnostic(canonical: &DiagnosticRecord, provenance_index: u32) -> (result:
    worker_proto::Diagnostic)
    ensures
        represents_diagnostic(result, *canonical),
        result.provenance_index == provenance_index,
{
    worker_proto::Diagnostic {
        source_unit_index: 0,
        range: canonical.range,
        severity: value_names::severity_name(canonical.severity).to_owned(),
        code: canonical.code.clone(),
        message: canonical.message.clone(),
        freshness: value_names::freshness_name(canonical.freshness).to_owned(),
        completeness: value_names::completeness_name(canonical.completeness).to_owned(),
        provenance_index,
    }
}

/// Whether a worker's diagnostic can be read.
pub open spec fn is_diagnostic(record: worker_proto::Diagnostic) -> bool {
    &&& record.source_unit_index == 0
    &&& is_severity(record.severity@)
    &&& is_freshness(record.freshness@)
    &&& is_completeness(record.completeness@)
}

fn decode_diagnostic(
    record: &worker_proto::Diagnostic,
    unit: &SourceUnit,
    provenance: &Provenance,
) -> (result: Option<DiagnosticRecord>)
    ensures
        result is Some <==> is_diagnostic(*record),
        result matches Some(canonical) ==> represents_diagnostic(*record, canonical)
            && canonical.source_unit@ == unit.id@ && canonical.provenance@ == provenance@,
{
    if record.source_unit_index != 0 {
        return None;
    }
    let severity = match value_names::parse_severity(record.severity.as_str()) {
        Some(severity) => severity,
        None => {
            return None;
        },
    };
    let freshness = match value_names::parse_freshness(record.freshness.as_str()) {
        Some(freshness) => freshness,
        None => {
            return None;
        },
    };
    let completeness = match value_names::parse_completeness(record.completeness.as_str()) {
        Some(completeness) => completeness,
        None => {
            return None;
        },
    };
    Some(
        DiagnosticRecord {
            source_unit: unit.id.clone(),
            range: record.range,
            severity,
            code: record.code.clone(),
            message: record.message.clone(),
            freshness,
            completeness,
            provenance: provenance.clone(),
        },
    )
}

proof fn lemma_diagnostic_round_trip(
    written: worker_proto::Diagnostic,
    canonical: DiagnosticRecord,
    read: DiagnosticRecord,
)
    requires
        canonical.source_unit@ == read.source_unit@,
        canonical.provenance@ == read.provenance@,
        represents_diagnostic(written, canonical),
        represents_diagnostic(written, read),
    ensures
        same_diagnostic(canonical, read),
{
    value_names::law_severity_texts_differ(canonical.severity, read.severity);
    value_names::law_freshness_texts_differ(canonical.freshness, read.freshness);
    value_names::law_completeness_texts_differ(canonical.completeness, read.completeness);
}

/// Whether a table lists a provenance.
pub open spec fn is_listed(table: Seq<Provenance>, provenance: Provenance) -> bool {
    exists|k: int| 0 <= k < table.len() && (#[trigger] table[k])@ == provenance@
}

/// Whether a table lists every provenance of a list.
pub open spec fn all_listed(table: Seq<Provenance>, provenances: Seq<Provenance>) -> bool {
    forall|i: int| 0 <= i < provenances.len() ==> is_listed(table, #[trigger] provenances[i])
}

/// Whether a table lists no provenance twice.
pub open spec fn lists_once(table: Seq<Provenance>) -> bool {
    forall|i: int, j: int|
        0 <= i < j < table.len() ==> (#[trigger] table[i])@ != (#[trigger] table[j])@
}

proof fn lemma_all_listed(table: Seq<Provenance>, longer: Seq<Provenance>, of: Seq<Provenance>)
    requires
        table.is_prefix_of(longer),
        all_listed(table, of),
    ensures
        all_listed(longer, of),
{
    assert forall|i: int| 0 <= i < of.len() implies is_listed(longer, #[trigger] of[i]) by {
        let k = choose|k: int| 0 <= k < table.len() && (#[trigger] table[k])@ == of[i]@;
        assert(longer[k] == table[k]);
    }
}

fn position_of(table: &[Provenance], provenance: &Provenance) -> (result: Option<usize>)
    ensures
        match result {
            Some(k) => k < table@.len() && table@[k as int]@ == provenance@,
            None => !is_listed(table@, *provenance),
        },
{
    let mut k: usize = 0;
    while k < table.len()
        invariant
            k <= table@.len(),
            forall|j: int| 0 <= j < k ==> (#[trigger] table@[j])@ != provenance@,
        decreases table@.len() - k,
    {
        if table[k].same(provenance) {
            return Some(k);
        }
        k = k + 1;
    }
    None
}

fn list_provenances(table: &mut Vec<Provenance>, provenances: &[Provenance])
    requires
        lists_once(old(table)@),
    ensures
        old(table)@.is_prefix_of(final(table)@),
        lists_once(final(table)@),
        all_listed(final(table)@, provenances@),
        final(table)@.len() <= old(table)@.len() + provenances@.len(),
{
    let ghost start = table@;
    let mut i: usize = 0;
    while i < provenances.len()
        invariant
            i <= provenances@.len(),
            start.is_prefix_of(table@),
            lists_once(table@),
            all_listed(table@, provenances@.take(i as int)),
            table@.len() <= start.len() + i,
        decreases provenances@.len() - i,
    {
        let ghost before = table@;
        match position_of(table.as_slice(), &provenances[i]) {
            Some(k) => {
                assert(table@[k as int]@ == provenances@[i as int]@);
            },
            None => {
                table.push(provenances[i].clone());
                assert(table@[before.len() as int]@ == provenances@[i as int]@);
                assert forall|x: int, y: int| 0 <= x < y < table@.len() implies (#[trigger]
                table@[x])@ != (#[trigger] table@[y])@ by {
                    assert(before[x] == table@[x]);
                }
            },
        }
        proof {
            lemma_all_listed(before, table@, provenances@.take(i as int));
            assert(is_listed(table@, provenances@[i as int]));
            assert forall|j: int| 0 <= j < i + 1 implies is_listed(
                table@,
                #[trigger] provenances@.take(i + 1)[j],
            ) by {
                if j < i {
                    assert(provenances@.take(i as int)[j] == provenances@.take(i + 1)[j]);
                }
            }
        }
        i = i + 1;
    }
    assert(provenances@.take(i as int) =~= provenances@);
}

/// The provenances of symbols, in order.
pub open spec fn symbol_provenances(symbols: Seq<SymbolRecord>) -> Seq<Provenance> {
    Seq::new(symbols.len(), |i: int| symbols[i].provenance)
}

fn provenances_of_symbols(symbols: &[SymbolRecord]) -> (result: Vec<Provenance>)
    ensures
        result@ == symbol_provenances(symbols@),
{
    let mut result: Vec<Provenance> = Vec::new();
    let mut i: usize = 0;
    while i < symbols.len()
        invariant
            i <= symbols@.len(),
            result@ == symbol_provenances(symbols@).take(i as int),
        decreases symbols@.len() - i,
    {
        result.push(symbols[i].provenance.clone());
        assert(symbol_provenances(symbols@).take(i + 1) =~= symbol_provenances(symbols@).take(
            i as int,
        ).push(symbols@[i as int].provenance));
        i = i + 1;
    }
    assert(symbol_provenances(symbols@).take(i as int) =~= symbol_provenances(symbols@));
    result
}

/// The provenances of occurrences, in order.
pub open spec fn occurrence_provenances(occurrences: Seq<SourceOccurrence>) -> Seq<Provenance> {
    Seq::new(occurrences.len(), |i: int| occurrences[i].provenance)
}

fn provenances_of_occurrences(occurrences: &[SourceOccurrence]) -> (result: Vec<Provenance>)
    ensures
        result@ == occurrence_provenances(occurrences@),
{
    let mut result: Vec<Provenance> = Vec::new();
    let mut i: usize = 0;
    while i < occurrences.len()
        invariant
            i <= occurrences@.len(),
            result@ == occurrence_provenances(occurrences@).take(i as int),
        decreases occurrences@.len() - i,
    {
        result.push(occurrences[i].provenance.clone());
        assert(occurrence_provenances(occurrences@).take(i + 1) =~= occurrence_provenances(occurrences@).take(
            i as int,
        ).push(occurrences@[i as int].provenance));
        i = i + 1;
    }
    assert(occurrence_provenances(occurrences@).take(i as int) =~= occurrence_provenances(occurrences@));
    result
}

/// The provenances of subtype relations, in order.
pub open spec fn hierarchy_provenances(hierarchy: Seq<HierarchyEdge>) -> Seq<Provenance> {
    Seq::new(hierarchy.len(), |i: int| hierarchy[i].provenance)
}

fn provenances_of_hierarchy(hierarchy: &[HierarchyEdge]) -> (result: Vec<Provenance>)
    ensures
        result@ == hierarchy_provenances(hierarchy@),
{
    let mut result: Vec<Provenance> = Vec::new();
    let mut i: usize = 0;
    while i < hierarchy.len()
        invariant
            i <= hierarchy@.len(),
            result@ == hierarchy_provenances(hierarchy@).take(i as int),
        decreases hierarchy@.len() - i,
    {
        result.push(hierarchy[i].provenance.clone());
        assert(hierarchy_provenances(hierarchy@).take(i + 1) =~= hierarchy_provenances(hierarchy@).take(
            i as int,
        ).push(hierarchy@[i as int].provenance));
        i = i + 1;
    }
    assert(hierarchy_provenances(hierarchy@).take(i as int) =~= hierarchy_provenances(hierarchy@));
    result
}

/// The provenances of types, in order.
pub open spec fn type_provenances(types: Seq<TypeRecord>) -> Seq<Provenance> {
    Seq::new(types.len(), |i: int| types[i].provenance)
}

fn provenances_of_types(types: &[TypeRecord]) -> (result: Vec<Provenance>)
    ensures
        result@ == type_provenances(types@),
{
    let mut result: Vec<Provenance> = Vec::new();
    let mut i: usize = 0;
    while i < types.len()
        invariant
            i <= types@.len(),
            result@ == type_provenances(types@).take(i as int),
        decreases types@.len() - i,
    {
        result.push(types[i].provenance.clone());
        assert(type_provenances(types@).take(i + 1) =~= type_provenances(types@).take(
            i as int,
        ).push(types@[i as int].provenance));
        i = i + 1;
    }
    assert(type_provenances(types@).take(i as int) =~= type_provenances(types@));
    result
}

/// The provenances of diagnostics, in order.
pub open spec fn diagnostic_provenances(diagnostics: Seq<DiagnosticRecord>) -> Seq<Provenance> {
    Seq::new(diagnostics.len(), |i: int| diagnostics[i].provenance)
}

fn provenances_of_diagnostics(diagnostics: &[DiagnosticRecord]) -> (result: Vec<Provenance>)
    ensures
        result@ == diagnostic_provenances(diagnostics@),
{
    let mut result: Vec<Provenance> = Vec::new();
    let mut i: usize = 0;
    while i < diagnostics.len()
        invariant
            i <= diagnostics@.len(),
            result@ == diagnostic_provenances(diagnostics@).take(i as int),
        decreases diagnostics@.len() - i,
    {
        result.push(diagnostics[i].provenance.clone());
        assert(diagnostic_provenances(diagnostics@).take(i + 1) =~= diagnostic_provenances(diagnostics@).take(
            i as int,
        ).push(diagnostics@[i as int].provenance));
        i = i + 1;
    }
    assert(diagnostic_provenances(diagnostics@).take(i as int) =~= diagnostic_provenances(diagnostics@));
    result
}

/// Whether a table lists every provenance of a snapshot, its own first.
pub open spec fn is_table_of(table: Seq<Provenance>, snapshot: FileAnalysisSnapshot) -> bool {
    &&& table.len() > 0
    &&& table[0]@ == snapshot.provenance@
    &&& lists_once(table)
    &&& all_listed(table, symbol_provenances(snapshot.symbols@))
    &&& all_listed(table, occurrence_provenances(snapshot.occurrences@))
    &&& all_listed(table, hierarchy_provenances(snapshot.hierarchy@))
    &&& all_listed(table, type_provenances(snapshot.types@))
    &&& all_listed(table, diagnostic_provenances(snapshot.diagnostics@))
}

/// The number of facts of a snapshot that have a provenance.
pub open spec fn fact_total(snapshot: FileAnalysisSnapshot) -> nat {
    snapshot.symbols@.len() + snapshot.occurrences@.len() + snapshot.hierarchy@.len()
        + snapshot.types@.len() + snapshot.diagnostics@.len()
}

fn provenance_table(snapshot: &FileAnalysisSnapshot) -> (result: Vec<Provenance>)
    ensures
        is_table_of(result@, *snapshot),
        result@.len() <= fact_total(*snapshot) + 1,
{
    let mut table: Vec<Provenance> = Vec::new();
    table.push(snapshot.provenance.clone());
    let ghost own = table@;
    list_provenances(
        &mut table,
        provenances_of_symbols(snapshot.symbols.as_slice()).as_slice(),
    );
    let ghost symbols = table@;
    list_provenances(
        &mut table,
        provenances_of_occurrences(snapshot.occurrences.as_slice()).as_slice(),
    );
    let ghost occurrences = table@;
    list_provenances(
        &mut table,
        provenances_of_hierarchy(snapshot.hierarchy.as_slice()).as_slice(),
    );
    let ghost hierarchy = table@;
    list_provenances(&mut table, provenances_of_types(snapshot.types.as_slice()).as_slice());
    let ghost types = table@;
    list_provenances(
        &mut table,
        provenances_of_diagnostics(snapshot.diagnostics.as_slice()).as_slice(),
    );
    proof {
        assert(table@[0] == types[0] && types[0] == hierarchy[0]);
        assert(hierarchy[0] == occurrences[0] && occurrences[0] == symbols[0]);
        assert(symbols[0] == own[0]);
        lemma_all_listed(symbols, table@, symbol_provenances(snapshot.symbols@));
        lemma_all_listed(occurrences, table@, occurrence_provenances(snapshot.occurrences@));
        lemma_all_listed(hierarchy, table@, hierarchy_provenances(snapshot.hierarchy@));
        lemma_all_listed(types, table@, type_provenances(snapshot.types@));
    }
    table
}

/// Whether an index of a worker's table leads to a provenance.
pub open spec fn leads_to(
    table: Seq<worker_proto::Provenance>,
    index: u32,
    provenance: Provenance,
) -> bool {
    index < table.len() && represents_provenance(table[index as int], provenance)
}

/// Whether a worker's table stands for a canonical one.
pub open spec fn represents_table(
    written: Seq<worker_proto::Provenance>,
    table: Seq<Provenance>,
) -> bool {
    &&& written.len() == table.len()
    &&& forall|k: int|
        0 <= k < table.len() ==> represents_provenance(#[trigger] written[k], table[k])
}

fn written_table(table: &[Provenance]) -> (result: Vec<worker_proto::Provenance>)
    ensures
        represents_table(result@, table@),
{
    let mut result: Vec<worker_proto::Provenance> = Vec::new();
    let mut k: usize = 0;
    while k < table.len()
        invariant
            k <= table@.len(),
            result@.len() == k,
            forall|j: int| 0 <= j < k ==> represents_provenance(#[trigger] result@[j], table@[j]),
        decreases table@.len() - k,
    {
        result.push(provenance(&table[k]));
        k = k + 1;
    }
    result
}

fn index_of(
    table: &[Provenance],
    provenance: &Provenance,
    Ghost(written): Ghost<Seq<worker_proto::Provenance>>,
) -> (result: u32)
    requires
        is_listed(table@, *provenance),
        represents_table(written, table@),
        table@.len() <= u32::MAX,
    ensures
        leads_to(written, result, *provenance),
{
    match position_of(table, provenance) {
        Some(k) => {
            assert(represents_provenance(written[k as int], table@[k as int]));
            k as u32
        },
        None => 0,
    }
}

fn find_occurrence(occurrences: &[SourceOccurrence], wanted: &SourceOccurrence) -> (result: Option<
    usize,
>)
    ensures
        match result {
            Some(k) => k < occurrences@.len() && same_occurrence(occurrences@[k as int], *wanted),
            None => !lists_occurrence(occurrences@, *wanted),
        },
{
    let mut k: usize = 0;
    while k < occurrences.len()
        invariant
            k <= occurrences@.len(),
            forall|j: int|
                0 <= j < k ==> !same_occurrence(#[trigger] occurrences@[j], *wanted),
        decreases occurrences@.len() - k,
    {
        if is_same_occurrence(&occurrences[k], wanted) {
            return Some(k);
        }
        k = k + 1;
    }
    None
}

/// Whether an occurrence is among those of a snapshot.
pub open spec fn lists_occurrence(
    occurrences: Seq<SourceOccurrence>,
    wanted: SourceOccurrence,
) -> bool {
    exists|k: int|
        0 <= k < occurrences.len() && same_occurrence(#[trigger] occurrences[k], wanted)
}

/// Whether the occurrence of every edge is among those of its snapshot.
pub open spec fn edges_are_listed(snapshot: FileAnalysisSnapshot) -> bool {
    &&& forall|i: int|
        0 <= i < snapshot.references@.len() ==> lists_occurrence(
            snapshot.occurrences@,
            (#[trigger] snapshot.references@[i]).source,
        )
    &&& forall|i: int|
        0 <= i < snapshot.calls@.len() ==> lists_occurrence(
            snapshot.occurrences@,
            (#[trigger] snapshot.calls@[i]).source,
        )
}

/// Whether a worker's snapshot stands for a canonical one.
pub open spec fn represents_snapshot(
    written: worker_proto::FileAnalysisSnapshot,
    snapshot: FileAnalysisSnapshot,
) -> bool {
    let table = written.provenances@;
    &&& written.source_unit matches Some(unit) && represents_unit(unit, snapshot.source_unit)
    &&& viewed(written.structural_fingerprint) == viewed(snapshot.structural_fingerprint)
    &&& viewed(written.public_api_fingerprint) == viewed(snapshot.public_api_fingerprint)
    &&& written.completeness@ == value_names::completeness_text(snapshot.completeness)
    &&& leads_to(table, written.provenance_index, snapshot.provenance)
    &&& written.symbols@.len() == snapshot.symbols@.len()
    &&& forall|i: int|
        0 <= i < snapshot.symbols@.len() ==> {
            &&& declares(#[trigger] written.symbols@[i], snapshot.symbols@[i])
            &&& written.symbols@[i].source_unit_index == 0
            &&& leads_to(
                table,
                written.symbols@[i].provenance_index,
                snapshot.symbols@[i].provenance,
            )
        }
    &&& written.occurrences@.len() == snapshot.occurrences@.len()
    &&& forall|i: int|
        0 <= i < snapshot.occurrences@.len() ==> {
            &&& represents_occurrence(#[trigger] written.occurrences@[i], snapshot.occurrences@[i])
            &&& leads_to(
                table,
                written.occurrences@[i].provenance_index,
                snapshot.occurrences@[i].provenance,
            )
        }
    &&& written.references@.len() == snapshot.references@.len()
    &&& forall|i: int|
        0 <= i < snapshot.references@.len() ==> represents_reference(
            #[trigger] written.references@[i],
            snapshot.references@[i],
            snapshot.occurrences@,
        )
    &&& written.calls@.len() == snapshot.calls@.len()
    &&& forall|i: int|
        0 <= i < snapshot.calls@.len() ==> represents_call(
            #[trigger] written.calls@[i],
            snapshot.calls@[i],
            snapshot.occurrences@,
        )
    &&& written.hierarchy@.len() == snapshot.hierarchy@.len()
    &&& forall|i: int|
        0 <= i < snapshot.hierarchy@.len() ==> {
            &&& represents_hierarchy(#[trigger] written.hierarchy@[i], snapshot.hierarchy@[i])
            &&& leads_to(
                table,
                written.hierarchy@[i].provenance_index,
                snapshot.hierarchy@[i].provenance,
            )
        }
    &&& written.types@.len() == snapshot.types@.len()
    &&& forall|i: int|
        0 <= i < snapshot.types@.len() ==> {
            &&& represents_type(#[trigger] written.types@[i], snapshot.types@[i])
            &&& leads_to(table, written.types@[i].provenance_index, snapshot.types@[i].provenance)
        }
    &&& written.diagnostics@.len() == snapshot.diagnostics@.len()
    &&& forall|i: int|
        0 <= i < snapshot.diagnostics@.len() ==> {
            &&& represents_diagnostic(#[trigger] written.diagnostics@[i], snapshot.diagnostics@[i])
            &&& leads_to(
                table,
                written.diagnostics@[i].provenance_index,
                snapshot.diagnostics@[i].provenance,
            )
        }
}

fn written_symbols(
    symbols: &[SymbolRecord],
    table: &[Provenance],
    Ghost(written): Ghost<Seq<worker_proto::Provenance>>,
) -> (result: Vec<worker_proto::SymbolDeclaration>)
    requires
        all_listed(table@, symbol_provenances(symbols@)),
        represents_table(written, table@),
        table@.len() <= u32::MAX,
    ensures
        result@.len() == symbols@.len(),
        forall|i: int|
            0 <= i < symbols@.len() ==> {
                &&& declares(#[trigger] result@[i], symbols@[i])
                &&& result@[i].source_unit_index == 0
                &&& leads_to(written, result@[i].provenance_index, symbols@[i].provenance)
            },
{
    let mut result: Vec<worker_proto::SymbolDeclaration> = Vec::new();
    let mut i: usize = 0;
    while i < symbols.len()
        invariant
            all_listed(table@, symbol_provenances(symbols@)),
            represents_table(written, table@),
            table@.len() <= u32::MAX,
            i <= symbols@.len(),
            result@.len() == i,
            forall|j: int|
                0 <= j < i ==> {
                    &&& declares(#[trigger] result@[j], symbols@[j])
                &&& result@[j].source_unit_index == 0
                    &&& leads_to(written, result@[j].provenance_index, symbols@[j].provenance)
                },
        decreases symbols@.len() - i,
    {
        proof {
            assert(symbol_provenances(symbols@)[i as int] == symbols@[i as int].provenance);
        }
        let index: u32 = index_of(table, &symbols[i].provenance, Ghost(written));
        let mut declaration = symbol_declaration(&symbols[i]);
        declaration.provenance_index = index;
        result.push(declaration);
        i = i + 1;
    }
    result
}

fn written_occurrences(
    occurrences: &[SourceOccurrence],
    table: &[Provenance],
    Ghost(written): Ghost<Seq<worker_proto::Provenance>>,
) -> (result: Vec<worker_proto::Occurrence>)
    requires
        all_listed(table@, occurrence_provenances(occurrences@)),
        represents_table(written, table@),
        table@.len() <= u32::MAX,
    ensures
        result@.len() == occurrences@.len(),
        forall|i: int|
            0 <= i < occurrences@.len() ==> {
                &&& represents_occurrence(#[trigger] result@[i], occurrences@[i])
                &&& leads_to(written, result@[i].provenance_index, occurrences@[i].provenance)
            },
{
    let mut result: Vec<worker_proto::Occurrence> = Vec::new();
    let mut i: usize = 0;
    while i < occurrences.len()
        invariant
            all_listed(table@, occurrence_provenances(occurrences@)),
            represents_table(written, table@),
            table@.len() <= u32::MAX,
            i <= occurrences@.len(),
            result@.len() == i,
            forall|j: int|
                0 <= j < i ==> {
                    &&& represents_occurrence(#[trigger] result@[j], occurrences@[j])
                    &&& leads_to(written, result@[j].provenance_index, occurrences@[j].provenance)
                },
        decreases occurrences@.len() - i,
    {
        proof {
            assert(occurrence_provenances(occurrences@)[i as int] == occurrences@[i as int].provenance);
        }
        let index: u32 = index_of(table, &occurrences[i].provenance, Ghost(written));
        result.push(occurrence(&occurrences[i], index));
        i = i + 1;
    }
    result
}

fn written_hierarchy(
    hierarchy: &[HierarchyEdge],
    table: &[Provenance],
    Ghost(written): Ghost<Seq<worker_proto::Provenance>>,
) -> (result: Vec<worker_proto::HierarchyEdge>)
    requires
        all_listed(table@, hierarchy_provenances(hierarchy@)),
        represents_table(written, table@),
        table@.len() <= u32::MAX,
    ensures
        result@.len() == hierarchy@.len(),
        forall|i: int|
            0 <= i < hierarchy@.len() ==> {
                &&& represents_hierarchy(#[trigger] result@[i], hierarchy@[i])
                &&& leads_to(written, result@[i].provenance_index, hierarchy@[i].provenance)
            },
{
    let mut result: Vec<worker_proto::HierarchyEdge> = Vec::new();
    let mut i: usize = 0;
    while i < hierarchy.len()
        invariant
            all_listed(table@, hierarchy_provenances(hierarchy@)),
            represents_table(written, table@),
            table@.len() <= u32::MAX,
            i <= hierarchy@.len(),
            result@.len() == i,
            forall|j: int|
                0 <= j < i ==> {
                    &&& represents_hierarchy(#[trigger] result@[j], hierarchy@[j])
                    &&& leads_to(written, result@[j].provenance_index, hierarchy@[j].provenance)
                },
        decreases hierarchy@.len() - i,
    {
        proof {
            assert(hierarchy_provenances(hierarchy@)[i as int] == hierarchy@[i as int].provenance);
        }
        let index: u32 = index_of(table, &hierarchy[i].provenance, Ghost(written));
        result.push(
            worker_proto::HierarchyEdge {
                subtype_symbol_id: hierarchy[i].subtype.as_str().to_owned(),
                supertype_symbol_id: hierarchy[i].supertype.as_str().to_owned(),
                precision: value_names::precision_name(hierarchy[i].precision).to_owned(),
                provenance_index: index,
            },
        );
        i = i + 1;
    }
    result
}

fn written_types(
    types: &[TypeRecord],
    table: &[Provenance],
    Ghost(written): Ghost<Seq<worker_proto::Provenance>>,
) -> (result: Vec<worker_proto::TypeRecord>)
    requires
        all_listed(table@, type_provenances(types@)),
        represents_table(written, table@),
        table@.len() <= u32::MAX,
    ensures
        result@.len() == types@.len(),
        forall|i: int|
            0 <= i < types@.len() ==> {
                &&& represents_type(#[trigger] result@[i], types@[i])
                &&& leads_to(written, result@[i].provenance_index, types@[i].provenance)
            },
{
    let mut result: Vec<worker_proto::TypeRecord> = Vec::new();
    let mut i: usize = 0;
    while i < types.len()
        invariant
            all_listed(table@, type_provenances(types@)),
            represents_table(written, table@),
            table@.len() <= u32::MAX,
            i <= types@.len(),
            result@.len() == i,
            forall|j: int|
                0 <= j < i ==> {
                    &&& represents_type(#[trigger] result@[j], types@[j])
                    &&& leads_to(written, result@[j].provenance_index, types@[j].provenance)
                },
        decreases types@.len() - i,
    {
        proof {
            assert(type_provenances(types@)[i as int] == types@[i as int].provenance);
        }
        let index: u32 = index_of(table, &types[i].provenance, Ghost(written));
        result.push(type_record(&types[i], index));
        i = i + 1;
    }
    result
}

fn written_diagnostics(
    diagnostics: &[DiagnosticRecord],
    table: &[Provenance],
    Ghost(written): Ghost<Seq<worker_proto::Provenance>>,
) -> (result: Vec<worker_proto::Diagnostic>)
    requires
        all_listed(table@, diagnostic_provenances(diagnostics@)),
        represents_table(written, table@),
        table@.len() <= u32::MAX,
    ensures
        result@.len() == diagnostics@.len(),
        forall|i: int|
            0 <= i < diagnostics@.len() ==> {
                &&& represents_diagnostic(#[trigger] result@[i], diagnostics@[i])
                &&& leads_to(written, result@[i].provenance_index, diagnostics@[i].provenance)
            },
{
    let mut result: Vec<worker_proto::Diagnostic> = Vec::new();
    let mut i: usize = 0;
    while i < diagnostics.len()
        invariant
            all_listed(table@, diagnostic_provenances(diagnostics@)),
            represents_table(written, table@),
            table@.len() <= u32::MAX,
            i <= diagnostics@.len(),
            result@.len() == i,
            forall|j: int|
                0 <= j < i ==> {
                    &&& represents_diagnostic(#[trigger] result@[j], diagnostics@[j])
                    &&& leads_to(written, result@[j].provenance_index, diagnostics@[j].provenance)
                },
        decreases diagnostics@.len() - i,
    {
        proof {
            assert(diagnostic_provenances(diagnostics@)[i as int] == diagnostics@[i as int].provenance);
        }
        let index: u32 = index_of(table, &diagnostics[i].provenance, Ghost(written));
        result.push(diagnostic(&diagnostics[i], index));
        i = i + 1;
    }
    result
}

fn written_references(references: &[ReferenceEdge], occurrences: &[SourceOccurrence]) -> (result: Option<
    Vec<worker_proto::ReferenceEdge>,
>)
    requires
        occurrences@.len() <= u32::MAX,
    ensures
        result is Some <==> forall|i: int|
            0 <= i < references@.len() ==> lists_occurrence(
                occurrences@,
                (#[trigger] references@[i]).source,
            ),
        result matches Some(edges) ==> edges@.len() == references@.len() && forall|i: int|
            0 <= i < references@.len() ==> represents_reference(
                #[trigger] edges@[i],
                references@[i],
                occurrences@,
            ),
{
    let mut result: Vec<worker_proto::ReferenceEdge> = Vec::new();
    let mut i: usize = 0;
    while i < references.len()
        invariant
            occurrences@.len() <= u32::MAX,
            i <= references@.len(),
            result@.len() == i,
            forall|j: int|
                0 <= j < i ==> lists_occurrence(occurrences@, (#[trigger] references@[j]).source),
            forall|j: int|
                0 <= j < i ==> represents_reference(#[trigger] result@[j], references@[j], occurrences@),
        decreases references@.len() - i,
    {
        match find_occurrence(occurrences, &references[i].source) {
            Some(k) => {
                assert(lists_occurrence(occurrences@, references@[i as int].source)) by {
                    assert(same_occurrence(occurrences@[k as int], references@[i as int].source));
                }
                result.push(
                    worker_proto::ReferenceEdge {
                        source_occurrence_index: k as u32,
                        target_symbol_id: references[i].target.as_str().to_owned(),
                        precision: value_names::precision_name(references[i].precision).to_owned(),
                    },
                );
            },
            None => {
                return None;
            },
        }
        i = i + 1;
    }
    Some(result)
}

fn written_calls(calls: &[CallEdge], occurrences: &[SourceOccurrence]) -> (result: Option<
    Vec<worker_proto::CallEdge>,
>)
    requires
        occurrences@.len() <= u32::MAX,
    ensures
        result is Some <==> forall|i: int|
            0 <= i < calls@.len() ==> lists_occurrence(
                occurrences@,
                (#[trigger] calls@[i]).source,
            ),
        result matches Some(edges) ==> edges@.len() == calls@.len() && forall|i: int|
            0 <= i < calls@.len() ==> represents_call(
                #[trigger] edges@[i],
                calls@[i],
                occurrences@,
            ),
{
    let mut result: Vec<worker_proto::CallEdge> = Vec::new();
    let mut i: usize = 0;
    while i < calls.len()
        invariant
            occurrences@.len() <= u32::MAX,
            i <= calls@.len(),
            result@.len() == i,
            forall|j: int|
                0 <= j < i ==> lists_occurrence(occurrences@, (#[trigger] calls@[j]).source),
            forall|j: int|
                0 <= j < i ==> represents_call(#[trigger] result@[j], calls@[j], occurrences@),
        decreases calls@.len() - i,
    {
        match find_occurrence(occurrences, &calls[i].source) {
            Some(k) => {
                assert(lists_occurrence(occurrences@, calls@[i as int].source)) by {
                    assert(same_occurrence(occurrences@[k as int], calls@[i as int].source));
                }
                result.push(
                    worker_proto::CallEdge {
                        source_occurrence_index: k as u32,
                        target_symbol_id: calls[i].target.as_str().to_owned(),
                        caller_symbol_id: symbol_text(&calls[i].caller),
                        precision: value_names::precision_name(calls[i].precision).to_owned(),
                    },
                );
            },
            None => {
                return None;
            },
        }
        i = i + 1;
    }
    Some(result)
}

/// Writes a snapshot for a worker. An edge whose occurrence is not among those
/// of the snapshot is refused.
pub fn file_analysis_snapshot(snapshot: &FileAnalysisSnapshot) -> (result: Result<
    worker_proto::FileAnalysisSnapshot,
    AdapterError,
>)
    requires
        fact_total(*snapshot) < u32::MAX,
    ensures
        result is Ok <==> edges_are_listed(*snapshot),
        result matches Ok(written) ==> represents_snapshot(written, *snapshot) && exists|
            table: Seq<Provenance>,
        | #[trigger]
            is_table_of(table, *snapshot) && represents_table(written.provenances@, table),
        result matches Err(error) ==> error == AdapterError::UnlistedOccurrence,
{
    let occurrences = snapshot.occurrences.as_slice();
    let references = match written_references(snapshot.references.as_slice(), occurrences) {
        Some(references) => references,
        None => {
            return Err(AdapterError::UnlistedOccurrence);
        },
    };
    let calls = match written_calls(snapshot.calls.as_slice(), occurrences) {
        Some(calls) => calls,
        None => {
            return Err(AdapterError::UnlistedOccurrence);
        },
    };
    let table = provenance_table(snapshot);
    let provenances = written_table(table.as_slice());
    let ghost written = provenances@;
    let slice = table.as_slice();
    assert(represents_provenance(written[0], table@[0]));
    Ok(
        worker_proto::FileAnalysisSnapshot {
            source_unit: Some(source_unit(&snapshot.source_unit)),
            structural_fingerprint: fingerprint_text(&snapshot.structural_fingerprint),
            public_api_fingerprint: fingerprint_text(&snapshot.public_api_fingerprint),
            provenances,
            symbols: written_symbols(snapshot.symbols.as_slice(), slice, Ghost(written)),
            occurrences: written_occurrences(occurrences, slice, Ghost(written)),
            references,
            calls,
            hierarchy: written_hierarchy(snapshot.hierarchy.as_slice(), slice, Ghost(written)),
            types: written_types(snapshot.types.as_slice(), slice, Ghost(written)),
            diagnostics: written_diagnostics(
                snapshot.diagnostics.as_slice(),
                slice,
                Ghost(written),
            ),
            completeness: value_names::completeness_name(snapshot.completeness).to_owned(),
            provenance_index: 0,
        },
    )
}

/// Whether a worker's snapshot can be read.
pub open spec fn is_snapshot(written: worker_proto::FileAnalysisSnapshot) -> bool {
    let total = written.provenances@.len();
    &&& written.source_unit matches Some(unit) && is_origin(unit.origin@)
    &&& is_completeness(written.completeness@)
    &&& written.provenance_index < total
    &&& forall|i: int|
        0 <= i < written.symbols@.len() ==> {
            &&& is_declaration(#[trigger] written.symbols@[i])
            &&& written.symbols@[i].source_unit_index == 0
            &&& written.symbols@[i].provenance_index < total
        }
    &&& forall|i: int|
        0 <= i < written.occurrences@.len() ==> is_occurrence(#[trigger] written.occurrences@[i])
            && written.occurrences@[i].provenance_index < total
    &&& forall|i: int|
        0 <= i < written.references@.len() ==> {
            &&& (#[trigger] written.references@[i]).source_occurrence_index
                < written.occurrences@.len()
            &&& is_precision(written.references@[i].precision@)
        }
    &&& forall|i: int|
        0 <= i < written.calls@.len() ==> {
            &&& (#[trigger] written.calls@[i]).source_occurrence_index < written.occurrences@.len()
            &&& is_precision(written.calls@[i].precision@)
        }
    &&& forall|i: int|
        0 <= i < written.hierarchy@.len() ==> is_precision(
            (#[trigger] written.hierarchy@[i]).precision@,
        ) && written.hierarchy@[i].provenance_index < total
    &&& forall|i: int|
        0 <= i < written.types@.len() ==> is_type_record(#[trigger] written.types@[i])
            && written.types@[i].provenance_index < total
    &&& forall|i: int|
        0 <= i < written.diagnostics@.len() ==> is_diagnostic(#[trigger] written.diagnostics@[i])
            && written.diagnostics@[i].provenance_index < total
}

/// Whether every fact of a snapshot lies in its source unit and was named by
/// the backend that produced it.
pub open spec fn is_coherent(snapshot: FileAnalysisSnapshot) -> bool {
    let unit = snapshot.source_unit.id@;
    &&& value_names::is_plain_language(snapshot.source_unit.language@)
    &&& forall|i: int|
        0 <= i < snapshot.symbols@.len() ==> is_symbol_of(#[trigger] snapshot.symbols@[i], unit)
    &&& forall|i: int|
        0 <= i < snapshot.occurrences@.len() ==> (#[trigger] snapshot.occurrences@[
            i
        ]).range.source_unit@ == unit
    &&& forall|i: int|
        0 <= i < snapshot.types@.len() ==> is_type_of_backend(#[trigger] snapshot.types@[i])
    &&& forall|i: int|
        0 <= i < snapshot.diagnostics@.len() ==> (#[trigger] snapshot.diagnostics@[i]).source_unit@
            == unit
}

/// Whether two snapshots say the same.
pub open spec fn same_snapshot(a: FileAnalysisSnapshot, b: FileAnalysisSnapshot) -> bool {
    &&& same_unit(a.source_unit, b.source_unit)
    &&& viewed(a.structural_fingerprint) == viewed(b.structural_fingerprint)
    &&& viewed(a.public_api_fingerprint) == viewed(b.public_api_fingerprint)
    &&& a.symbols@.len() == b.symbols@.len()
    &&& forall|i: int|
        0 <= i < a.symbols@.len() ==> same_symbol(#[trigger] a.symbols@[i], b.symbols@[i])
    &&& a.occurrences@.len() == b.occurrences@.len()
    &&& forall|i: int|
        0 <= i < a.occurrences@.len() ==> same_occurrence(
            #[trigger] a.occurrences@[i],
            b.occurrences@[i],
        )
    &&& a.references@.len() == b.references@.len()
    &&& forall|i: int|
        0 <= i < a.references@.len() ==> same_reference(
            #[trigger] a.references@[i],
            b.references@[i],
        )
    &&& a.calls@.len() == b.calls@.len()
    &&& forall|i: int| 0 <= i < a.calls@.len() ==> same_call(#[trigger] a.calls@[i], b.calls@[i])
    &&& a.hierarchy@.len() == b.hierarchy@.len()
    &&& forall|i: int|
        0 <= i < a.hierarchy@.len() ==> same_hierarchy(#[trigger] a.hierarchy@[i], b.hierarchy@[i])
    &&& a.types@.len() == b.types@.len()
    &&& forall|i: int| 0 <= i < a.types@.len() ==> same_type(#[trigger] a.types@[i], b.types@[i])
    &&& a.diagnostics@.len() == b.diagnostics@.len()
    &&& forall|i: int|
        0 <= i < a.diagnostics@.len() ==> same_diagnostic(
            #[trigger] a.diagnostics@[i],
            b.diagnostics@[i],
        )
    &&& a.completeness == b.completeness
    &&& a.provenance@ == b.provenance@
}

fn provenance_at(table: &[worker_proto::Provenance], index: u32) -> (result: Option<Provenance>)
    ensures
        result is Some <==> index < table@.len(),
        result matches Some(provenance) ==> leads_to(table@, index, provenance),
{
    if (index as usize) < table.len() {
        Some(decode_provenance(&table[index as usize]))
    } else {
        None
    }
}

fn read_symbols(
    written: &[worker_proto::SymbolDeclaration],
    unit: &SourceUnit,
    table: &[worker_proto::Provenance],
) -> (result: Option<Vec<SymbolRecord>>)
    ensures
        result is Some <==> forall|i: int|
            0 <= i < written@.len() ==> {
                &&& is_declaration(#[trigger] written@[i]) && written@[i].source_unit_index == 0
                &&& written@[i].provenance_index < table@.len()
            },
        result matches Some(read) ==> read@.len() == written@.len() && forall|i: int|
            #![trigger written@[i]]
            #![trigger read@[i]]
            0 <= i < written@.len() ==> {
                &&& declares(written@[i], read@[i])
                &&& is_symbol_of(read@[i], unit.id@)
                &&& leads_to(table@, written@[i].provenance_index, read@[i].provenance)
            },
{
    let mut read: Vec<SymbolRecord> = Vec::new();
    let mut i: usize = 0;
    while i < written.len()
        invariant
            i <= written@.len(),
            read@.len() == i,
            forall|j: int|
                0 <= j < i ==> {
                    &&& is_declaration(#[trigger] written@[j]) && written@[j].source_unit_index == 0
                    &&& written@[j].provenance_index < table@.len()
                },
            forall|j: int|
                #![trigger written@[j]]
                #![trigger read@[j]]
                0 <= j < i ==> {
                    &&& declares(written@[j], read@[j])
                    &&& is_symbol_of(read@[j], unit.id@)
                    &&& leads_to(table@, written@[j].provenance_index, read@[j].provenance)
                },
        decreases written@.len() - i,
    {
        if written[i].source_unit_index != 0 {
            return None;
        }
        let provenance = match provenance_at(table, written[i].provenance_index) {
            Some(provenance) => provenance,
            None => {
                return None;
            },
        };
        match decode_symbol_declaration(&written[i], unit, &provenance) {
            Ok(value) => {
                read.push(value);
            },
            Err(_) => {
                return None;
            },
        }
        i = i + 1;
    }
    Some(read)
}

fn read_occurrences(
    written: &[worker_proto::Occurrence],
    unit: &SourceUnit,
    table: &[worker_proto::Provenance],
) -> (result: Option<Vec<SourceOccurrence>>)
    ensures
        result is Some <==> forall|i: int|
            0 <= i < written@.len() ==> {
                &&& is_occurrence(#[trigger] written@[i])
                &&& written@[i].provenance_index < table@.len()
            },
        result matches Some(read) ==> read@.len() == written@.len() && forall|i: int|
            #![trigger written@[i]]
            #![trigger read@[i]]
            0 <= i < written@.len() ==> {
                &&& represents_occurrence(written@[i], read@[i])
                &&& read@[i].range.source_unit@ == unit.id@
                &&& leads_to(table@, written@[i].provenance_index, read@[i].provenance)
            },
{
    let mut read: Vec<SourceOccurrence> = Vec::new();
    let mut i: usize = 0;
    while i < written.len()
        invariant
            i <= written@.len(),
            read@.len() == i,
            forall|j: int|
                0 <= j < i ==> {
                    &&& is_occurrence(#[trigger] written@[j])
                    &&& written@[j].provenance_index < table@.len()
                },
            forall|j: int|
                #![trigger written@[j]]
                #![trigger read@[j]]
                0 <= j < i ==> {
                    &&& represents_occurrence(written@[j], read@[j])
                    &&& read@[j].range.source_unit@ == unit.id@
                    &&& leads_to(table@, written@[j].provenance_index, read@[j].provenance)
                },
        decreases written@.len() - i,
    {
        let provenance = match provenance_at(table, written[i].provenance_index) {
            Some(provenance) => provenance,
            None => {
                return None;
            },
        };
        match decode_occurrence(&written[i], unit, &provenance) {
            Some(value) => {
                read.push(value);
            },
            None => {
                return None;
            },
        }
        i = i + 1;
    }
    Some(read)
}

fn read_types(
    written: &[worker_proto::TypeRecord],
    table: &[worker_proto::Provenance],
) -> (result: Option<Vec<TypeRecord>>)
    ensures
        result is Some <==> forall|i: int|
            0 <= i < written@.len() ==> {
                &&& is_type_record(#[trigger] written@[i])
                &&& written@[i].provenance_index < table@.len()
            },
        result matches Some(read) ==> read@.len() == written@.len() && forall|i: int|
            #![trigger written@[i]]
            #![trigger read@[i]]
            0 <= i < written@.len() ==> {
                &&& represents_type(written@[i], read@[i])
                &&& is_type_of_backend(read@[i])
                &&& leads_to(table@, written@[i].provenance_index, read@[i].provenance)
            },
{
    let mut read: Vec<TypeRecord> = Vec::new();
    let mut i: usize = 0;
    while i < written.len()
        invariant
            i <= written@.len(),
            read@.len() == i,
            forall|j: int|
                0 <= j < i ==> {
                    &&& is_type_record(#[trigger] written@[j])
                    &&& written@[j].provenance_index < table@.len()
                },
            forall|j: int|
                #![trigger written@[j]]
                #![trigger read@[j]]
                0 <= j < i ==> {
                    &&& represents_type(written@[j], read@[j])
                    &&& is_type_of_backend(read@[j])
                    &&& leads_to(table@, written@[j].provenance_index, read@[j].provenance)
                },
        decreases written@.len() - i,
    {
        let provenance = match provenance_at(table, written[i].provenance_index) {
            Some(provenance) => provenance,
            None => {
                return None;
            },
        };
        match decode_type_record(&written[i], &provenance) {
            Some(value) => {
                read.push(value);
            },
            None => {
                return None;
            },
        }
        i = i + 1;
    }
    Some(read)
}

fn read_diagnostics(
    written: &[worker_proto::Diagnostic],
    unit: &SourceUnit,
    table: &[worker_proto::Provenance],
) -> (result: Option<Vec<DiagnosticRecord>>)
    ensures
        result is Some <==> forall|i: int|
            0 <= i < written@.len() ==> {
                &&& is_diagnostic(#[trigger] written@[i])
                &&& written@[i].provenance_index < table@.len()
            },
        result matches Some(read) ==> read@.len() == written@.len() && forall|i: int|
            #![trigger written@[i]]
            #![trigger read@[i]]
            0 <= i < written@.len() ==> {
                &&& represents_diagnostic(written@[i], read@[i])
                &&& read@[i].source_unit@ == unit.id@
                &&& leads_to(table@, written@[i].provenance_index, read@[i].provenance)
            },
{
    let mut read: Vec<DiagnosticRecord> = Vec::new();
    let mut i: usize = 0;
    while i < written.len()
        invariant
            i <= written@.len(),
            read@.len() == i,
            forall|j: int|
                0 <= j < i ==> {
                    &&& is_diagnostic(#[trigger] written@[j])
                    &&& written@[j].provenance_index < table@.len()
                },
            forall|j: int|
                #![trigger written@[j]]
                #![trigger read@[j]]
                0 <= j < i ==> {
                    &&& represents_diagnostic(written@[j], read@[j])
                    &&& read@[j].source_unit@ == unit.id@
                    &&& leads_to(table@, written@[j].provenance_index, read@[j].provenance)
                },
        decreases written@.len() - i,
    {
        let provenance = match provenance_at(table, written[i].provenance_index) {
            Some(provenance) => provenance,
            None => {
                return None;
            },
        };
        match decode_diagnostic(&written[i], unit, &provenance) {
            Some(value) => {
                read.push(value);
            },
            None => {
                return None;
            },
        }
        i = i + 1;
    }
    Some(read)
}

fn read_hierarchy(
    written: &[worker_proto::HierarchyEdge],
    table: &[worker_proto::Provenance],
) -> (result: Option<Vec<HierarchyEdge>>)
    ensures
        result is Some <==> forall|i: int|
            0 <= i < written@.len() ==> {
                &&& is_precision((#[trigger] written@[i]).precision@)
                &&& written@[i].provenance_index < table@.len()
            },
        result matches Some(read) ==> read@.len() == written@.len() && forall|i: int|
            #![trigger written@[i]]
            #![trigger read@[i]]
            0 <= i < written@.len() ==> {
                &&& represents_hierarchy(written@[i], read@[i])
                &&& leads_to(table@, written@[i].provenance_index, read@[i].provenance)
            },
{
    let mut read: Vec<HierarchyEdge> = Vec::new();
    let mut i: usize = 0;
    while i < written.len()
        invariant
            i <= written@.len(),
            read@.len() == i,
            forall|j: int|
                0 <= j < i ==> {
                    &&& is_precision((#[trigger] written@[j]).precision@)
                    &&& written@[j].provenance_index < table@.len()
                },
            forall|j: int|
                #![trigger written@[j]]
                #![trigger read@[j]]
                0 <= j < i ==> {
                    &&& represents_hierarchy(written@[j], read@[j])
                        &&& leads_to(table@, written@[j].provenance_index, read@[j].provenance)
                },
        decreases written@.len() - i,
    {
        let provenance = match provenance_at(table, written[i].provenance_index) {
            Some(provenance) => provenance,
            None => {
                return None;
            },
        };
        let precision = match value_names::parse_precision(written[i].precision.as_str()) {
            Some(precision) => precision,
            None => {
                return None;
            },
        };
        read.push(
            HierarchyEdge {
                subtype: SymbolId::new(&written[i].subtype_symbol_id),
                supertype: SymbolId::new(&written[i].supertype_symbol_id),
                precision,
                provenance,
            },
        );
        i = i + 1;
    }
    Some(read)
}

fn read_references(written: &[worker_proto::ReferenceEdge], occurrences: &[SourceOccurrence]) -> (result: Option<
    Vec<ReferenceEdge>,
>)
    ensures
        result is Some <==> forall|i: int|
            0 <= i < written@.len() ==> {
                &&& (#[trigger] written@[i]).source_occurrence_index < occurrences@.len()
                &&& is_precision(written@[i].precision@)
            },
        result matches Some(read) ==> read@.len() == written@.len() && forall|i: int|
            #![trigger written@[i]]
            #![trigger read@[i]]
            0 <= i < written@.len() ==> represents_reference(written@[i], read@[i], occurrences@),
{
    let mut read: Vec<ReferenceEdge> = Vec::new();
    let mut i: usize = 0;
    while i < written.len()
        invariant
            i <= written@.len(),
            read@.len() == i,
            forall|j: int|
                0 <= j < i ==> {
                    &&& (#[trigger] written@[j]).source_occurrence_index < occurrences@.len()
                    &&& is_precision(written@[j].precision@)
                },
            forall|j: int|
                #![trigger written@[j]]
                #![trigger read@[j]]
                0 <= j < i ==> represents_reference(written@[j], read@[j], occurrences@),
        decreases written@.len() - i,
    {
        let index: usize = written[i].source_occurrence_index as usize;
        if index >= occurrences.len() {
            return None;
        }
        let precision = match value_names::parse_precision(written[i].precision.as_str()) {
            Some(precision) => precision,
            None => {
                return None;
            },
        };
        read.push(
            ReferenceEdge {
                source: occurrences[index].clone(),
                target: SymbolId::new(&written[i].target_symbol_id),
                precision,
            },
        );
        i = i + 1;
    }
    Some(read)
}

fn read_calls(written: &[worker_proto::CallEdge], occurrences: &[SourceOccurrence]) -> (result: Option<
    Vec<CallEdge>,
>)
    ensures
        result is Some <==> forall|i: int|
            0 <= i < written@.len() ==> {
                &&& (#[trigger] written@[i]).source_occurrence_index < occurrences@.len()
                &&& is_precision(written@[i].precision@)
            },
        result matches Some(read) ==> read@.len() == written@.len() && forall|i: int|
            #![trigger written@[i]]
            #![trigger read@[i]]
            0 <= i < written@.len() ==> represents_call(written@[i], read@[i], occurrences@),
{
    let mut read: Vec<CallEdge> = Vec::new();
    let mut i: usize = 0;
    while i < written.len()
        invariant
            i <= written@.len(),
            read@.len() == i,
            forall|j: int|
                0 <= j < i ==> {
                    &&& (#[trigger] written@[j]).source_occurrence_index < occurrences@.len()
                    &&& is_precision(written@[j].precision@)
                },
            forall|j: int|
                #![trigger written@[j]]
                #![trigger read@[j]]
                0 <= j < i ==> represents_call(written@[j], read@[j], occurrences@),
        decreases written@.len() - i,
    {
        let index: usize = written[i].source_occurrence_index as usize;
        if index >= occurrences.len() {
            return None;
        }
        let precision = match value_names::parse_precision(written[i].precision.as_str()) {
            Some(precision) => precision,
            None => {
                return None;
            },
        };
        read.push(
            CallEdge {
                source: occurrences[index].clone(),
                target: SymbolId::new(&written[i].target_symbol_id),
                caller: symbol_of(&written[i].caller_symbol_id),
                precision,
            },
        );
        i = i + 1;
    }
    Some(read)
}

/// Reads a worker's snapshot.
pub fn decode_file_analysis_snapshot(written: &worker_proto::FileAnalysisSnapshot) -> (result:
    Result<FileAnalysisSnapshot, AdapterError>)
    ensures
        result is Ok <==> is_snapshot(*written),
        result matches Ok(snapshot) ==> represents_snapshot(*written, snapshot) && is_coherent(
            snapshot,
        ),
        result matches Err(error) ==> error == AdapterError::Malformed,
{
    let unit = match &written.source_unit {
        Some(unit) => match decode_source_unit(unit) {
            Ok(unit) => unit,
            Err(error) => {
                return Err(error);
            },
        },
        None => {
            return Err(AdapterError::Malformed);
        },
    };
    let completeness = match value_names::parse_completeness(written.completeness.as_str()) {
        Some(completeness) => completeness,
        None => {
            return Err(AdapterError::Malformed);
        },
    };
    let table = written.provenances.as_slice();
    let provenance = match provenance_at(table, written.provenance_index) {
        Some(provenance) => provenance,
        None => {
            return Err(AdapterError::Malformed);
        },
    };
    let symbols = match read_symbols(written.symbols.as_slice(), &unit, table) {
        Some(symbols) => symbols,
        None => {
            return Err(AdapterError::Malformed);
        },
    };
    let occurrences = match read_occurrences(written.occurrences.as_slice(), &unit, table) {
        Some(occurrences) => occurrences,
        None => {
            return Err(AdapterError::Malformed);
        },
    };
    let references = match read_references(written.references.as_slice(), occurrences.as_slice()) {
        Some(references) => references,
        None => {
            return Err(AdapterError::Malformed);
        },
    };
    let calls = match read_calls(written.calls.as_slice(), occurrences.as_slice()) {
        Some(calls) => calls,
        None => {
            return Err(AdapterError::Malformed);
        },
    };
    let hierarchy = match read_hierarchy(written.hierarchy.as_slice(), table) {
        Some(hierarchy) => hierarchy,
        None => {
            return Err(AdapterError::Malformed);
        },
    };
    let types = match read_types(written.types.as_slice(), table) {
        Some(types) => types,
        None => {
            return Err(AdapterError::Malformed);
        },
    };
    let diagnostics = match read_diagnostics(written.diagnostics.as_slice(), &unit, table) {
        Some(diagnostics) => diagnostics,
        None => {
            return Err(AdapterError::Malformed);
        },
    };
    Ok(
        FileAnalysisSnapshot {
            source_unit: unit,
            structural_fingerprint: fingerprint_of(&written.structural_fingerprint),
            public_api_fingerprint: fingerprint_of(&written.public_api_fingerprint),
            symbols,
            occurrences,
            references,
            calls,
            hierarchy,
            types,
            diagnostics,
            completeness,
            provenance,
        },
    )
}

/// A snapshot that was written and read again says the same, if its facts lie
/// in its source unit and were named by the backends that produced them.
pub proof fn law_snapshot_round_trip(
    written: worker_proto::FileAnalysisSnapshot,
    snapshot: FileAnalysisSnapshot,
    read: FileAnalysisSnapshot,
)
    requires
        is_coherent(snapshot),
        is_coherent(read),
        represents_snapshot(written, snapshot),
        represents_snapshot(written, read),
    ensures
        is_snapshot(written),
        same_snapshot(snapshot, read),
{
    let written_unit = written.source_unit->Some_0;
    law_source_unit_round_trip(written_unit, snapshot.source_unit, read.source_unit);
    let unit = snapshot.source_unit.id@;
    value_names::law_completeness_texts_differ(snapshot.completeness, read.completeness);
    assert forall|i: int| 0 <= i < snapshot.symbols@.len() implies same_symbol(
        #[trigger] snapshot.symbols@[i],
        read.symbols@[i],
    ) && is_declaration(written.symbols@[i]) by {
        let w = written.symbols@[i];
        law_symbol_round_trip(w, snapshot.symbols@[i], read.symbols@[i], unit);
    }
    assert forall|i: int| 0 <= i < snapshot.occurrences@.len() implies same_occurrence(
        #[trigger] snapshot.occurrences@[i],
        read.occurrences@[i],
    ) && is_occurrence(written.occurrences@[i]) by {
        let w = written.occurrences@[i];
        let kept = read.occurrences@[i];
        lemma_occurrence_round_trip(w, snapshot.occurrences@[i], kept);
    }
    assert forall|i: int| 0 <= i < snapshot.references@.len() implies same_reference(
        #[trigger] snapshot.references@[i],
        read.references@[i],
    ) && is_precision(written.references@[i].precision@) by {
        let w = written.references@[i];
        let k = w.source_occurrence_index as int;
        let (a, b) = (snapshot.references@[i], read.references@[i]);
        assert(represents_reference(w, b, read.occurrences@));
        assert(same_occurrence(snapshot.occurrences@[k], read.occurrences@[k]));
        value_names::law_precision_texts_differ(a.precision, b.precision);
    }
    assert forall|i: int| 0 <= i < snapshot.calls@.len() implies same_call(
        #[trigger] snapshot.calls@[i],
        read.calls@[i],
    ) && is_precision(written.calls@[i].precision@) by {
        let w = written.calls@[i];
        let k = w.source_occurrence_index as int;
        let (a, b) = (snapshot.calls@[i], read.calls@[i]);
        assert(represents_call(w, b, read.occurrences@));
        assert(same_occurrence(snapshot.occurrences@[k], read.occurrences@[k]));
        value_names::law_precision_texts_differ(a.precision, b.precision);
    }
    assert forall|i: int| 0 <= i < snapshot.hierarchy@.len() implies same_hierarchy(
        #[trigger] snapshot.hierarchy@[i],
        read.hierarchy@[i],
    ) && is_precision(written.hierarchy@[i].precision@) by {
        let w = written.hierarchy@[i];
        let (a, b) = (snapshot.hierarchy@[i], read.hierarchy@[i]);
        value_names::law_precision_texts_differ(a.precision, b.precision);
    }
    assert forall|i: int| 0 <= i < snapshot.types@.len() implies same_type(
        #[trigger] snapshot.types@[i],
        read.types@[i],
    ) && is_type_record(written.types@[i]) by {
        let w = written.types@[i];
        let kept = read.types@[i];
        lemma_type_round_trip(w, snapshot.types@[i], kept);
    }
    assert forall|i: int| 0 <= i < snapshot.diagnostics@.len() implies same_diagnostic(
        #[trigger] snapshot.diagnostics@[i],
        read.diagnostics@[i],
    ) && is_diagnostic(written.diagnostics@[i]) by {
        let w = written.diagnostics@[i];
        let kept = read.diagnostics@[i];
        lemma_diagnostic_round_trip(w, snapshot.diagnostics@[i], kept);
    }
    assert forall|i: int| 0 <= i < written.symbols@.len() implies is_declaration(
        #[trigger] written.symbols@[i],
    ) by {
        let kept = snapshot.symbols@[i];
    }
    assert forall|i: int| 0 <= i < written.occurrences@.len() implies is_occurrence(
        #[trigger] written.occurrences@[i],
    ) by {
        let kept = snapshot.occurrences@[i];
    }
    assert forall|i: int| 0 <= i < written.types@.len() implies is_type_record(
        #[trigger] written.types@[i],
    ) by {
        let kept = snapshot.types@[i];
    }
    assert forall|i: int| 0 <= i < written.diagnostics@.len() implies is_diagnostic(
        #[trigger] written.diagnostics@[i],
    ) by {
        let kept = snapshot.diagnostics@[i];
    }
}

} // verus!
