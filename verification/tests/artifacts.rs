use std::collections::BTreeMap;

use kide_core::artifact_blob_layout::{
    decompress_section, place_sections, plan_sections, section_payloads, settle_toc, toc_location,
    ArtifactBlobLayout, ArtifactBlobLayoutError, ArtifactBlobSections, EncodedBlock,
    EncodedSections, LayoutPlan, SYMBOL_DETAIL_BLOCK_ENTRY_CAPACITY,
};
use kide_core::artifact_cache::{
    encode_header, validate_copied_length, validate_file_length, validate_header, ArtifactBlob,
    ArtifactBlobCache, ArtifactBlobCacheError, ArtifactBlobKey,
};
use kide_core::artifact_proto::{
    ArtifactBlobSection, ArtifactBlobSectionKind, ArtifactBlobToc, ArtifactHierarchy,
    ArtifactProvenance, ArtifactQualifiedSymbolEntry, ArtifactRange, ArtifactSourceUnit,
    ArtifactSymbol, ArtifactSymbolDetailBlock, GraphArtifact, GraphSnapshot,
};
use kide_core::artifact_proto_adapter::{
    check_envelope, decode_graph_artifact, decode_snapshots, decode_symbol_detail,
    encode_snapshots, seal_payload, ArtifactProtoError, EncodedArtifact, ARTIFACT_FORMAT_VERSION,
};
use kide_core::artifact_query::{
    direct_implementations, group_by_block, has_posted_supertype, implementation_ordinals,
    implementations_in_block, implementations_in_graph, BlockGroup, ImplementationSource,
    ordinals_with_qualified_name, symbols_with_qualified_name, ArtifactQueryError,
};
use kide_core::canonical::{
    BackendKey, ByteRange, CallEdge, Completeness, ComponentId, DiagnosticRecord,
    DiagnosticSeverity, Fingerprint, Freshness, HierarchyEdge, Language, OccurrenceKind, Precision,
    Provenance, ReferenceEdge, SourceOccurrence, SourceOrigin, SourceRange, SourceUnit,
    SourceUnitId, SymbolId, SymbolKind, SymbolRecord, TypeId, TypeRecord, WorkspacePath,
};
use kide_core::dependency_identity::{ResolvedDependencyIdentity, ARTIFACT_BLOB_FORMAT_VERSION};
use kide_core::protocol::{
    AnalysisBatchResponse, ArtifactAnalysisRequest, ArtifactAnalysisResponse, ArtifactCandidate,
    ArtifactDescriptor, ArtifactMaterializationRequest, ArtifactMaterializationResponse,
    FileAnalysisSnapshot, PhaseTiming, SymbolLocator, WorkerError, WorkerErrorCode, WorkerMetric,
    WORKER_PROTOCOL_VERSION,
};
use kide_core::symbol_detail::{detail_block, expand_detail};
use kide_core::worker_proto;
use kide_core::worker_proto_adapter::{
    analysis_batch_response, artifact_analysis_request, artifact_analysis_response,
    decode_analysis_batch_response, decode_artifact_analysis_request,
    decode_artifact_analysis_response, decode_file_analysis_snapshot,
    decode_materialization_request, decode_materialization_response, decode_source_unit,
    decode_symbol_declaration, decode_worker_error, file_analysis_snapshot,
    materialization_request, materialization_response, source_unit, symbol_declaration,
    worker_error, AdapterError,
};
use sha2::{Digest, Sha256};

// A protocol buffer writer and reader for the messages under test.

fn put_varint(out: &mut Vec<u8>, mut value: u64) {
    while value >= 0x80 {
        out.push((value & 0x7f) as u8 | 0x80);
        value >>= 7;
    }
    out.push(value as u8);
}

fn put_number(out: &mut Vec<u8>, tag: u64, value: u64) {
    if value != 0 {
        put_varint(out, tag << 3);
        put_varint(out, value);
    }
}

fn put_optional(out: &mut Vec<u8>, tag: u64, value: Option<u32>) {
    if let Some(value) = value {
        put_varint(out, tag << 3);
        put_varint(out, u64::from(value));
    }
}

fn put_bytes(out: &mut Vec<u8>, tag: u64, value: &[u8]) {
    put_varint(out, tag << 3 | 2);
    put_varint(out, value.len() as u64);
    out.extend_from_slice(value);
}

fn put_text(out: &mut Vec<u8>, tag: u64, value: &str) {
    if !value.is_empty() {
        put_bytes(out, tag, value.as_bytes());
    }
}

fn put_optional_text(out: &mut Vec<u8>, tag: u64, value: &Option<String>) {
    if let Some(value) = value {
        put_bytes(out, tag, value.as_bytes());
    }
}

fn put_range(out: &mut Vec<u8>, tag: u64, range: &Option<ArtifactRange>) {
    if let Some(range) = range {
        let mut inner = Vec::new();
        put_number(&mut inner, 1, range.start);
        put_number(&mut inner, 2, range.end);
        put_bytes(out, tag, &inner);
    }
}

fn put_packed(out: &mut Vec<u8>, tag: u64, values: &[u32]) {
    if !values.is_empty() {
        let mut inner = Vec::new();
        for value in values {
            put_varint(&mut inner, u64::from(*value));
        }
        put_bytes(out, tag, &inner);
    }
}

#[derive(Debug, Clone, PartialEq)]
enum Field {
    Number(u64),
    Bytes(Vec<u8>),
}

fn take_varint(bytes: &[u8], at: &mut usize) -> u64 {
    let mut value = 0u64;
    let mut shift = 0;
    loop {
        let byte = bytes[*at];
        *at += 1;
        value |= u64::from(byte & 0x7f) << shift;
        if byte & 0x80 == 0 {
            return value;
        }
        shift += 7;
    }
}

fn fields(bytes: &[u8]) -> Vec<(u64, Field)> {
    let mut result = Vec::new();
    let mut at = 0;
    while at < bytes.len() {
        let key = take_varint(bytes, &mut at);
        if key & 7 == 0 {
            result.push((key >> 3, Field::Number(take_varint(bytes, &mut at))));
        } else {
            let length = take_varint(bytes, &mut at) as usize;
            result.push((key >> 3, Field::Bytes(bytes[at..at + length].to_vec())));
            at += length;
        }
    }
    result
}

fn messages(bytes: &[u8], tag: u64) -> Vec<Vec<u8>> {
    fields(bytes)
        .into_iter()
        .filter(|(found, _)| *found == tag)
        .map(|(_, field)| match field {
            Field::Bytes(bytes) => bytes,
            Field::Number(_) => panic!("field {tag} is a number"),
        })
        .collect()
}

fn text(bytes: &[u8], tag: u64) -> String {
    String::from_utf8(messages(bytes, tag).pop().unwrap_or_default()).expect("text field")
}

fn number(bytes: &[u8], tag: u64) -> u64 {
    fields(bytes)
        .into_iter()
        .filter(|(found, _)| *found == tag)
        .map(|(_, field)| match field {
            Field::Number(value) => value,
            Field::Bytes(_) => panic!("field {tag} is no number"),
        })
        .last()
        .unwrap_or(0)
}

fn symbol_bytes(symbol: &ArtifactSymbol) -> Vec<u8> {
    let mut out = Vec::new();
    put_text(&mut out, 1, &symbol.id);
    put_text(&mut out, 2, &symbol.backend_key);
    put_number(&mut out, 3, u64::from(symbol.backend_schema_version));
    put_text(&mut out, 4, &symbol.language);
    put_text(&mut out, 5, &symbol.kind);
    put_text(&mut out, 6, &symbol.name);
    put_optional_text(&mut out, 7, &symbol.qualified_name);
    put_optional_text(&mut out, 8, &symbol.signature);
    put_range(&mut out, 9, &symbol.declaration);
    put_range(&mut out, 10, &symbol.name_range);
    put_optional_text(&mut out, 11, &symbol.owner_id);
    for modifier in &symbol.modifiers {
        put_bytes(&mut out, 12, modifier.as_bytes());
    }
    for applied in &symbol.applied_symbol_ids {
        put_bytes(&mut out, 13, applied.as_bytes());
    }
    put_text(&mut out, 14, &symbol.freshness);
    put_text(&mut out, 15, &symbol.completeness);
    put_text(&mut out, 16, &symbol.component_id);
    put_optional(&mut out, 17, symbol.provenance_index);
    put_optional(&mut out, 18, symbol.owner_symbol_ordinal);
    out
}

fn graph_bytes(graph: &GraphArtifact) -> Vec<u8> {
    let mut out = Vec::new();
    for snapshot in &graph.snapshots {
        let mut inner = Vec::new();
        if let Some(unit) = &snapshot.source_unit {
            put_bytes(&mut inner, 1, &unit_bytes(unit));
        }
        for provenance in &snapshot.provenances {
            put_bytes(&mut inner, 4, &provenance_bytes(provenance));
        }
        for symbol in &snapshot.symbols {
            put_bytes(&mut inner, 5, &symbol_bytes(symbol));
        }
        for edge in &snapshot.hierarchy {
            let mut edge_bytes = Vec::new();
            put_text(&mut edge_bytes, 1, &edge.subtype_symbol_id);
            put_text(&mut edge_bytes, 2, &edge.supertype_symbol_id);
            put_text(&mut edge_bytes, 3, &edge.precision);
            put_optional(&mut edge_bytes, 4, edge.provenance_index);
            put_optional(&mut edge_bytes, 5, edge.subtype_symbol_ordinal);
            put_optional(&mut edge_bytes, 6, edge.supertype_symbol_ordinal);
            put_bytes(&mut inner, 9, &edge_bytes);
        }
        put_text(&mut inner, 12, &snapshot.completeness);
        put_optional(&mut inner, 13, snapshot.provenance_index);
        put_bytes(&mut out, 1, &inner);
    }
    out
}

fn unit_bytes(unit: &ArtifactSourceUnit) -> Vec<u8> {
    let mut out = Vec::new();
    put_text(&mut out, 1, &unit.id);
    put_text(&mut out, 2, &unit.component);
    put_text(&mut out, 3, &unit.path);
    put_text(&mut out, 4, &unit.language);
    put_text(&mut out, 5, &unit.origin);
    put_text(&mut out, 6, &unit.content_fingerprint);
    put_text(&mut out, 7, &unit.context_fingerprint);
    out
}

fn provenance_bytes(provenance: &ArtifactProvenance) -> Vec<u8> {
    let mut out = Vec::new();
    put_text(&mut out, 1, &provenance.backend);
    put_text(&mut out, 2, &provenance.backend_version);
    put_number(&mut out, 3, u64::from(provenance.worker_protocol_version));
    put_text(&mut out, 4, &provenance.analysis_options_fingerprint);
    out
}

fn block_bytes(block: &ArtifactSymbolDetailBlock) -> Vec<u8> {
    let mut out = Vec::new();
    put_number(&mut out, 1, u64::from(block.first_symbol_ordinal));
    if let Some(defaults) = &block.defaults {
        let mut inner = Vec::new();
        if let Some(unit) = &defaults.source_unit {
            put_bytes(&mut inner, 1, &unit_bytes(unit));
        }
        for provenance in &defaults.provenances {
            put_bytes(&mut inner, 2, &provenance_bytes(provenance));
        }
        put_text(&mut inner, 3, &defaults.language);
        put_text(&mut inner, 4, &defaults.freshness);
        put_text(&mut inner, 5, &defaults.completeness);
        put_text(&mut inner, 6, &defaults.component_id);
        put_optional(&mut inner, 7, defaults.provenance_index);
        for value in &defaults.string_table {
            put_bytes(&mut inner, 8, value.as_bytes());
        }
        put_bytes(&mut out, 2, &inner);
    }
    for entry in &block.entries {
        let mut inner = Vec::new();
        put_text(&mut inner, 1, &entry.id);
        put_text(&mut inner, 2, &entry.backend_key);
        put_number(&mut inner, 3, u64::from(entry.backend_schema_version));
        put_text(&mut inner, 4, &entry.kind);
        put_text(&mut inner, 5, &entry.name);
        put_optional_text(&mut inner, 6, &entry.qualified_name);
        put_optional_text(&mut inner, 7, &entry.signature);
        put_range(&mut inner, 8, &entry.declaration);
        put_range(&mut inner, 9, &entry.name_range);
        put_optional_text(&mut inner, 10, &entry.owner_id);
        for modifier in &entry.modifiers {
            put_bytes(&mut inner, 11, modifier.as_bytes());
        }
        for applied in &entry.applied_symbol_ids {
            put_bytes(&mut inner, 12, applied.as_bytes());
        }
        put_optional_text(&mut inner, 13, &entry.language);
        put_optional_text(&mut inner, 14, &entry.freshness);
        put_optional_text(&mut inner, 15, &entry.completeness);
        put_optional_text(&mut inner, 16, &entry.component_id);
        put_optional(&mut inner, 17, entry.provenance_index);
        put_optional(&mut inner, 18, entry.backend_key_string_index);
        put_optional(&mut inner, 19, entry.kind_string_index);
        put_optional(&mut inner, 20, entry.name_string_index);
        put_optional(&mut inner, 21, entry.qualified_name_string_index);
        put_optional(&mut inner, 22, entry.signature_string_index);
        put_optional(&mut inner, 23, entry.owner_id_string_index);
        put_packed(&mut inner, 24, &entry.modifier_string_indexes);
        put_packed(&mut inner, 25, &entry.applied_symbol_string_indexes);
        put_bytes(&mut out, 3, &inner);
    }
    out
}

fn kind_number(kind: ArtifactBlobSectionKind) -> u64 {
    match kind {
        ArtifactBlobSectionKind::SymbolDictionary => 1,
        ArtifactBlobSectionKind::GraphFacts => 2,
        ArtifactBlobSectionKind::SymbolPostings => 3,
        ArtifactBlobSectionKind::HierarchyPostings => 4,
        ArtifactBlobSectionKind::QualifiedSymbolDirectory => 5,
        ArtifactBlobSectionKind::SymbolDetailBlock => 6,
    }
}

fn kind_of(number: u64) -> Option<ArtifactBlobSectionKind> {
    [
        ArtifactBlobSectionKind::SymbolDictionary,
        ArtifactBlobSectionKind::GraphFacts,
        ArtifactBlobSectionKind::SymbolPostings,
        ArtifactBlobSectionKind::HierarchyPostings,
        ArtifactBlobSectionKind::QualifiedSymbolDirectory,
        ArtifactBlobSectionKind::SymbolDetailBlock,
    ]
    .into_iter()
    .find(|kind| kind_number(*kind) == number)
}

fn toc_bytes(toc: &ArtifactBlobToc) -> Vec<u8> {
    let mut out = Vec::new();
    put_number(&mut out, 1, u64::from(toc.layout_version));
    for section in &toc.sections {
        let mut inner = Vec::new();
        put_number(&mut inner, 1, section.kind.map_or(0, kind_number));
        put_number(&mut inner, 2, section.offset);
        put_number(&mut inner, 3, section.length);
        put_bytes(&mut inner, 4, &section.sha256);
        put_number(&mut inner, 5, section.compression as u64);
        put_number(&mut inner, 6, u64::from(section.symbol_ordinal_start));
        put_number(&mut inner, 7, u64::from(section.symbol_ordinal_end));
        put_bytes(&mut out, 2, &inner);
    }
    out
}

fn parse_toc(bytes: &[u8]) -> ArtifactBlobToc {
    ArtifactBlobToc {
        layout_version: number(bytes, 1) as u32,
        sections: messages(bytes, 2)
            .iter()
            .map(|section| ArtifactBlobSection {
                kind: kind_of(number(section, 1)),
                offset: number(section, 2),
                length: number(section, 3),
                sha256: messages(section, 4).pop().unwrap_or_default(),
                compression: number(section, 5) as i32,
                symbol_ordinal_start: number(section, 6) as u32,
                symbol_ordinal_end: number(section, 7) as u32,
            })
            .collect(),
    }
}

fn encoded_sections(plan: &LayoutPlan, graph: &GraphArtifact) -> EncodedSections {
    let mut dictionary = Vec::new();
    for entry in &plan.dictionary.entries {
        let mut inner = Vec::new();
        put_text(&mut inner, 1, &entry.id);
        put_text(&mut inner, 2, &entry.name);
        put_bytes(&mut dictionary, 1, &inner);
    }
    let mut postings = Vec::new();
    for entry in &plan.postings.entries {
        let mut inner = Vec::new();
        put_number(&mut inner, 1, u64::from(entry.source_unit_index));
        put_number(&mut inner, 2, u64::from(entry.symbol_ordinal));
        put_bytes(&mut postings, 1, &inner);
    }
    let mut hierarchy = Vec::new();
    for entry in &plan.hierarchy.entries {
        let mut inner = Vec::new();
        put_text(&mut inner, 1, &entry.subtype_symbol_id);
        put_text(&mut inner, 2, &entry.supertype_symbol_id);
        put_text(&mut inner, 3, &entry.precision);
        put_bytes(&mut hierarchy, 1, &inner);
    }
    let mut directory = Vec::new();
    for entry in &plan.directory.entries {
        let mut inner = Vec::new();
        put_text(&mut inner, 1, &entry.qualified_name);
        put_number(&mut inner, 2, u64::from(entry.symbol_ordinal));
        put_bytes(&mut directory, 1, &inner);
    }
    EncodedSections {
        dictionary,
        postings,
        hierarchy,
        directory,
        graph: graph_bytes(graph),
        blocks: plan
            .blocks
            .iter()
            .map(|block| EncodedBlock::of(block, block_bytes(block)))
            .collect(),
    }
}

fn encode_layout(graph: &GraphArtifact) -> (LayoutPlan, ArtifactBlobLayout) {
    let plan = plan_sections(graph);
    let payloads = section_payloads(&encoded_sections(&plan, graph));
    let encoded = settle_toc(&payloads, |toc: &ArtifactBlobToc| toc_bytes(toc)).expect("settles");
    let layout = ArtifactBlobLayout::encode(&payloads, &encoded);
    (plan, layout)
}

fn validate_layout(bytes: Vec<u8>) -> Result<ArtifactBlobLayout, ArtifactBlobLayoutError> {
    let location = ArtifactBlobLayout::locate_toc(&bytes)?;
    let start = location.offset as usize;
    let toc = parse_toc(&bytes[start..start + location.length]);
    ArtifactBlobLayout::validate(bytes, location, Ok(toc))
}

fn range(start: u64, end: u64) -> Option<ArtifactRange> {
    Some(ArtifactRange { start, end })
}

fn fixture_unit() -> ArtifactSourceUnit {
    ArtifactSourceUnit {
        id: "jvm:sha256:fixture".into(),
        component: "fixture:main".into(),
        path: ".kide/dependencies/fixture.jar".into(),
        language: "java".into(),
        origin: "dependency".into(),
        content_fingerprint: "sha256:fixture".into(),
        context_fingerprint: "sha256:context".into(),
    }
}

fn fixture_provenance() -> ArtifactProvenance {
    ArtifactProvenance {
        backend: "fixture".into(),
        backend_version: "1".into(),
        worker_protocol_version: 1,
        analysis_options_fingerprint: "sha256:options".into(),
    }
}

fn graph(provenance_index: Option<u32>) -> GraphArtifact {
    GraphArtifact {
        snapshots: vec![GraphSnapshot {
            source_unit: Some(fixture_unit()),
            provenances: vec![fixture_provenance()],
            symbols: (0..512)
                .map(|ordinal| ArtifactSymbol {
                    id: format!("java:fixture.Symbol{ordinal}"),
                    backend_key: format!("fixture.Symbol{ordinal}"),
                    backend_schema_version: 1,
                    language: "java".into(),
                    kind: "class".into(),
                    name: format!("Symbol{ordinal}"),
                    qualified_name: Some(format!("fixture.Symbol{ordinal}")),
                    declaration: range(ordinal, ordinal + 1),
                    name_range: range(ordinal, ordinal + 1),
                    applied_symbol_ids: vec!["jvm:annotation:fixture.Repeated".into()],
                    freshness: "fresh".into(),
                    completeness: "complete".into(),
                    component_id: "fixture:main".into(),
                    provenance_index,
                    ..Default::default()
                })
                .collect(),
            completeness: "complete".into(),
            provenance_index: Some(0),
            ..Default::default()
        }],
    }
}

#[test]
fn dependency_facts_inherit_snapshot_provenance_and_shrink_graph_bytes() {
    let compact = graph(None);
    let redundant = graph(Some(0));

    let compact_bytes = graph_bytes(&compact);
    let redundant_bytes = graph_bytes(&redundant);
    assert!(compact_bytes.len() < redundant_bytes.len());
    assert!(
        redundant_bytes.len() - compact_bytes.len() >= 1_000,
        "compact={} redundant={}",
        compact_bytes.len(),
        redundant_bytes.len()
    );

    let decoded = decode_graph_artifact(&compact).expect("compact graph decodes");
    assert!(decoded[0]
        .symbols
        .iter()
        .all(|symbol| symbol.provenance == decoded[0].provenance));
    assert_eq!(decode_graph_artifact(&redundant).expect("explicit overrides decode"), decoded);
}

#[test]
fn ordinal_symbol_postings_shrink_the_dependency_blob() {
    let graph = graph(None);
    let (plan, compact) = encode_layout(&graph);
    let new_postings = encoded_sections(&plan, &graph).postings;
    let mut legacy_postings = Vec::new();
    for symbol in &graph.snapshots[0].symbols {
        let mut inner = Vec::new();
        put_bytes(&mut inner, 2, &symbol_bytes(symbol));
        put_bytes(&mut legacy_postings, 1, &inner);
    }
    let legacy_size = compact.bytes().len() - new_postings.len() + legacy_postings.len();
    assert!(compact.bytes().len() < legacy_size);
    assert!(legacy_size - compact.bytes().len() >= 50_000);
}

#[test]
fn detail_block_interns_repeated_long_strings_and_decodes_without_extra_io() {
    let graph = graph(None);
    let (plan, layout) = encode_layout(&graph);
    let block = &plan.blocks[0];
    assert_eq!(
        layout.symbol_detail_block(0).expect("reads one bounded block"),
        block_bytes(block)
    );
    assert!(block
        .defaults
        .as_ref()
        .expect("defaults")
        .string_table
        .iter()
        .any(|value| value == "jvm:annotation:fixture.Repeated"));
    assert!(block.entries[0].applied_symbol_ids.is_empty());
    assert_eq!(block.entries[0].applied_symbol_string_indexes.len(), 1);
    let decoded = decode_symbol_detail(block, 0).expect("decodes interned symbol");
    assert_eq!(
        decoded.applied_symbols.iter().map(|value| value.as_str()).collect::<Vec<_>>(),
        graph.snapshots[0].symbols[0]
            .applied_symbol_ids
            .iter()
            .map(String::as_str)
            .collect::<Vec<_>>()
    );
}

#[test]
fn interned_detail_strings_shrink_a_bounded_block() {
    let graph = graph(None);
    let (plan, layout) = encode_layout(&graph);
    let interned_bytes = layout.symbol_detail_block(0).expect("reads interned block");
    assert_eq!(interned_bytes, block_bytes(&plan.blocks[0]));
    let mut inline = plan_sections(&graph).blocks.remove(0);
    let repeated = inline.defaults.as_ref().expect("defaults").string_table[0].clone();
    inline.defaults.as_mut().expect("defaults").string_table.clear();
    for entry in &mut inline.entries {
        entry.applied_symbol_ids = vec![repeated.clone()];
        entry.applied_symbol_string_indexes.clear();
    }
    assert!(interned_bytes.len() < block_bytes(&inline).len());
}

#[test]
fn local_graph_edge_ordinals_shrink_and_restore_symbol_ids() {
    let with_edges = |edges: Vec<ArtifactHierarchy>| {
        let mut graph = graph(None);
        graph.snapshots[0].hierarchy = edges;
        graph
    };
    let inline = with_edges(
        (1..512)
            .map(|ordinal| ArtifactHierarchy {
                subtype_symbol_id: format!("java:fixture.Symbol{ordinal}"),
                supertype_symbol_id: format!("java:fixture.Symbol{}", ordinal - 1),
                precision: "exact".into(),
                ..Default::default()
            })
            .collect(),
    );
    let ordinal = with_edges(
        (0..511)
            .map(|index| ArtifactHierarchy {
                precision: "exact".into(),
                subtype_symbol_ordinal: Some(index + 1),
                supertype_symbol_ordinal: Some(index),
                ..Default::default()
            })
            .collect(),
    );
    assert!(graph_bytes(&ordinal).len() < graph_bytes(&inline).len());
    assert_eq!(
        decode_graph_artifact(&ordinal).expect("ordinal graph decodes"),
        decode_graph_artifact(&inline).expect("inline graph decodes")
    );
}

fn widget_graph() -> GraphArtifact {
    GraphArtifact {
        snapshots: vec![GraphSnapshot {
            symbols: vec![
                ArtifactSymbol {
                    id: "java:example.Widget".into(),
                    name: "Widget".into(),
                    ..Default::default()
                },
                ArtifactSymbol {
                    id: "java:example.WidgetImpl".into(),
                    backend_key: "example.WidgetImpl".into(),
                    backend_schema_version: 1,
                    language: "java".into(),
                    kind: "class".into(),
                    name: "WidgetImpl".into(),
                    qualified_name: Some("example.WidgetImpl".into()),
                    declaration: range(7, 17),
                    name_range: range(7, 17),
                    freshness: "fresh".into(),
                    completeness: "partial".into(),
                    component_id: "fixture:main".into(),
                    ..Default::default()
                },
            ],
            hierarchy: vec![ArtifactHierarchy {
                subtype_symbol_id: "java:example.WidgetImpl".into(),
                supertype_symbol_id: "java:example.Widget".into(),
                precision: "exact".into(),
                provenance_index: Some(0),
                subtype_symbol_ordinal: None,
                supertype_symbol_ordinal: None,
            }],
            completeness: "partial".into(),
            ..Default::default()
        }],
    }
}

#[test]
fn jvm_blob_layout_validates_header_and_reads_dictionary_without_graph_decode() {
    let (plan, encoded) = encode_layout(&widget_graph());
    let validated =
        validate_layout(encoded.bytes().to_vec()).expect("fixed header and TOC validate");
    let dictionary = validated
        .section(ArtifactBlobSectionKind::SymbolDictionary)
        .expect("dictionary range is available");
    assert_eq!(text(&messages(dictionary, 1)[0], 1), "java:example.Widget");
    let postings = validated.symbol_postings().expect("postings decode");
    assert_eq!(number(&messages(postings, 1)[0], 2), 0);
    let graph = validated.graph_facts().expect("gzip graph facts decode");
    assert_eq!(
        text(&messages(&messages(&graph, 1)[0], 9)[0], 1),
        "java:example.WidgetImpl"
    );
    assert_eq!(
        plan.directory.entries,
        vec![ArtifactQualifiedSymbolEntry {
            qualified_name: "example.WidgetImpl".into(),
            symbol_ordinal: 1,
        }]
    );
    let directory = validated.qualified_symbol_directory().expect("directory decodes");
    assert_eq!(text(&messages(directory, 1)[0], 1), "example.WidgetImpl");
    let hierarchy = validated.hierarchy_postings().expect("hierarchy decodes");
    assert_eq!(text(&messages(hierarchy, 1)[0], 2), "java:example.Widget");

    let mut corrupt = encoded.bytes().to_vec();
    *corrupt.last_mut().expect("nonempty blob") ^= 1;
    let validated = validate_layout(corrupt).expect("header remains valid");
    assert!(matches!(
        validated.section(ArtifactBlobSectionKind::SymbolDetailBlock),
        Err(ArtifactBlobLayoutError::ChecksumMismatch)
    ));
}

#[test]
fn dependency_detail_blocks_bound_the_selected_ordinal_payload() {
    let count = SYMBOL_DETAIL_BLOCK_ENTRY_CAPACITY + 1;
    let graph = GraphArtifact {
        snapshots: vec![GraphSnapshot {
            symbols: (0..count)
                .map(|ordinal| ArtifactSymbol {
                    id: format!("java:example.Symbol{ordinal}"),
                    name: format!("Symbol{ordinal}"),
                    ..Default::default()
                })
                .collect(),
            ..Default::default()
        }],
    };
    let layout =
        validate_layout(encode_layout(&graph).1.bytes().to_vec()).expect("valid layout");
    let block = layout
        .symbol_detail_block((count - 1) as u32)
        .expect("reads last ordinal block only");
    assert_eq!(number(&block, 1), (count - 1) as u64);
    assert_eq!(messages(&block, 3).len(), 1);
    assert!(matches!(
        layout.symbol_detail_block(count as u32),
        Err(ArtifactBlobLayoutError::MissingSection(ArtifactBlobSectionKind::SymbolDetailBlock))
    ));
}

struct CacheFiles {
    files: BTreeMap<String, Vec<u8>>,
}

impl CacheFiles {
    fn new() -> Self {
        CacheFiles { files: BTreeMap::new() }
    }

    fn publish(&mut self, cache: &ArtifactBlobCache, key: &ArtifactBlobKey, payload: &[u8]) -> bool {
        let path = cache.path_for(key);
        match cache.publish(key, payload, self.files.contains_key(&path)) {
            Some(bytes) => {
                self.files.insert(path, bytes);
                true
            }
            None => false,
        }
    }

    fn load(
        &self,
        cache: &ArtifactBlobCache,
        key: &ArtifactBlobKey,
    ) -> Result<Option<Vec<u8>>, ArtifactBlobCacheError> {
        cache.load(key, self.files.get(&cache.path_for(key)).map(Vec::as_slice))
    }
}

fn key_provenance() -> Provenance {
    Provenance {
        backend: "kide-kotlin-jvm".to_owned(),
        backend_version: "0.1.0".to_owned(),
        protocol_version: WORKER_PROTOCOL_VERSION,
        analysis_options: Fingerprint::new("sha256:options"),
    }
}

fn key() -> ArtifactBlobKey {
    ArtifactBlobKey::new(
        Fingerprint::new("sha256:artifact"),
        Fingerprint::new("sha256:component-context"),
        &key_provenance(),
    )
}

#[test]
fn a_blob_is_shared_by_independent_project_cache_handles() {
    let mut files = CacheFiles::new();
    let first = ArtifactBlobCache::open("cache".to_owned());
    let second = ArtifactBlobCache::open("cache".to_owned());
    let key = key();

    assert!(files.publish(&first, &key, b"opaque binary facts"));
    assert!(!files.publish(&second, &key, b"different payload"));
    assert_eq!(
        files.load(&second, &key).expect("loads"),
        Some(b"opaque binary facts".to_vec())
    );

    let file = &files.files[&second.path_for(&key)];
    let payload_len = validate_header(&file[..52], &key).expect("opens");
    validate_file_length(payload_len, file.len() as u64).expect("exists");
    let blob = ArtifactBlob { payload_len };
    assert_eq!(blob.len(), 19);
    let start = blob.read_range(7, 6).expect("reads index range") as usize;
    assert_eq!(&file[start..start + 6], b"binary");
}

#[test]
fn stream_publication_does_not_require_a_payload_buffer() {
    let cache = ArtifactBlobCache::open("cache".to_owned());
    let mut files = CacheFiles::new();
    let key = key();
    let mut streamed = encode_header(&key, 16);
    streamed.extend_from_slice(b"streamed payload");
    assert!(validate_copied_length(16, (streamed.len() - 52) as u64).is_ok());
    files.files.insert(cache.path_for(&key), streamed);
    assert_eq!(
        files.load(&cache, &key).expect("loads"),
        Some(b"streamed payload".to_vec())
    );
    assert_eq!(
        validate_copied_length(16, 15),
        Err(ArtifactBlobCacheError::TruncatedPayload { expected: 16 })
    );
}

#[test]
fn backend_or_schema_identity_changes_the_cache_key() {
    let cache = ArtifactBlobCache::open("cache".to_owned());
    let mut files = CacheFiles::new();
    let incompatible = ArtifactBlobKey::new(
        Fingerprint::new("sha256:artifact"),
        Fingerprint::new("sha256:component-context"),
        &Provenance { backend_version: "0.2.0".to_owned(), ..key_provenance() },
    );

    assert!(files.publish(&cache, &key(), b"v1"));
    assert_eq!(files.load(&cache, &incompatible).expect("separate key"), None);
}

#[test]
fn context_or_analysis_options_identity_changes_the_cache_key() {
    let cache = ArtifactBlobCache::open("cache".to_owned());
    let mut files = CacheFiles::new();
    let changed_context = ArtifactBlobKey::new(
        Fingerprint::new("sha256:artifact"),
        Fingerprint::new("sha256:other-context"),
        &key_provenance(),
    );
    let changed_options = ArtifactBlobKey::new(
        Fingerprint::new("sha256:artifact"),
        Fingerprint::new("sha256:component-context"),
        &Provenance {
            analysis_options: Fingerprint::new("sha256:other-options"),
            ..key_provenance()
        },
    );

    assert!(files.publish(&cache, &key(), b"v1"));
    assert_eq!(files.load(&cache, &changed_context).expect("separate key"), None);
    assert_eq!(files.load(&cache, &changed_options).expect("separate key"), None);
}

#[test]
fn promotes_a_verified_staged_file_without_reading_it_into_memory() {
    let cache = ArtifactBlobCache::open("cache".to_owned());
    let mut files = CacheFiles::new();
    let payload = vec![0x5a; 256 * 1024];
    let digest = Sha256::digest(&payload);
    let promoted = cache
        .promote_staged(&key(), &payload, payload.len() as u64, &digest, false)
        .expect("promotes staged blob")
        .expect("is new");
    files.files.insert(cache.path_for(&key()), promoted);
    assert_eq!(files.load(&cache, &key()).expect("loads cache"), Some(payload));
}

#[test]
fn rejects_bad_staged_metadata_before_publication() {
    let cache = ArtifactBlobCache::open("cache".to_owned());
    let files = CacheFiles::new();
    assert!(matches!(
        cache.promote_staged(&key(), b"payload", 7, &[0; 32], false),
        Err(ArtifactBlobCacheError::StagedChecksumMismatch)
    ));
    assert!(matches!(
        cache.promote_staged(&key(), b"payload", 8, &[0; 32], false),
        Err(ArtifactBlobCacheError::StagedLengthMismatch { expected: 8, actual: 7 })
    ));
    assert!(files.load(&cache, &key()).expect("opens cache").is_none());
}

#[test]
fn foreign_or_truncated_cache_files_are_refused() {
    let cache = ArtifactBlobCache::open("cache".to_owned());
    let other = ArtifactBlobKey::new(
        Fingerprint::new("sha256:other"),
        Fingerprint::new("sha256:component-context"),
        &key_provenance(),
    );
    let file = cache.publish(&key(), b"payload", false).expect("is new");
    assert_eq!(file.len(), 59);
    assert_eq!(cache.load(&other, Some(&file)), Err(ArtifactBlobCacheError::InvalidHeader));
    assert_eq!(
        cache.load(&key(), Some(&file[..58])),
        Err(ArtifactBlobCacheError::InvalidHeader)
    );
    let mut unknown = file.clone();
    unknown[8] = 2;
    assert_eq!(cache.load(&key(), Some(&unknown)), Err(ArtifactBlobCacheError::InvalidHeader));
    assert_ne!(key().digest(), other.digest());
    assert!(cache.path_for(&key()).starts_with("cache"));
    assert!(cache.path_for(&key()).ends_with(&key().filename()));
    assert_ne!(cache.temporary_for(&key(), 7), cache.path_for(&key()));
    assert!(!ArtifactBlob { payload_len: 7 }.is_empty());
    assert_eq!(ArtifactBlob { payload_len: 7 }.read_all(), Ok(7));
    assert!(ArtifactBlob { payload_len: 7 }.read_range(3, 5).is_err());
}

#[test]
fn cached_blob_reads_postings_by_range_without_loading_graph_facts() {
    let source = SourceUnit {
        id: SourceUnitId::new("jvm:example-widget"),
        component: ComponentId::new("fixture:main"),
        path: WorkspacePath::new(".kide/dependencies/widget.jar"),
        language: Language::Java,
        origin: SourceOrigin::Dependency,
        content: Fingerprint::new("sha256:artifact"),
        context: Fingerprint::new("sha256:context"),
    };
    let declared = |name: &str, start: u64, end: u64| ArtifactSymbol {
        id: format!("java:example.{name}"),
        backend_key: format!("example.{name}"),
        backend_schema_version: 1,
        language: "java".into(),
        kind: "class".into(),
        name: name.into(),
        declaration: range(start, end),
        name_range: range(start, end),
        freshness: "fresh".into(),
        completeness: "partial".into(),
        component_id: "fixture:main".into(),
        provenance_index: Some(0),
        ..Default::default()
    };
    let graph = GraphArtifact {
        snapshots: vec![GraphSnapshot {
            source_unit: Some(ArtifactSourceUnit {
                id: "jvm:example-widget".into(),
                component: "fixture:main".into(),
                path: ".kide/dependencies/widget.jar".into(),
                language: "java".into(),
                origin: "dependency".into(),
                content_fingerprint: "sha256:artifact".into(),
                context_fingerprint: "sha256:context".into(),
            }),
            provenances: vec![ArtifactProvenance {
                worker_protocol_version: WORKER_PROTOCOL_VERSION,
                ..fixture_provenance()
            }],
            provenance_index: Some(0),
            symbols: vec![declared("Widget", 0, 6), declared("WidgetImpl", 7, 17)],
            hierarchy: vec![ArtifactHierarchy {
                subtype_symbol_id: "java:example.WidgetImpl".into(),
                supertype_symbol_id: "java:example.Widget".into(),
                precision: "exact".into(),
                provenance_index: Some(0),
                subtype_symbol_ordinal: None,
                supertype_symbol_ordinal: None,
            }],
            completeness: "partial".into(),
            ..Default::default()
        }],
    };
    let (plan, encoded) = encode_layout(&graph);
    let layout =
        validate_layout(encoded.bytes().to_vec()).expect("validates detail-block layout");
    let detail = layout.symbol_detail_block(1).expect("selected ordinal reads one block");
    assert_eq!(detail, block_bytes(&plan.blocks[0]));
    assert_eq!(plan.blocks[0].first_symbol_ordinal, 0);
    let reconstructed = decode_symbol_detail(&plan.blocks[0], 1)
        .expect("reconstructs selected canonical declaration");
    assert_eq!(reconstructed.id, SymbolId::new("java:example.WidgetImpl"));
    assert_eq!(
        reconstructed.declaration.source_unit,
        SourceUnitId::new("jvm:example-widget")
    );
    assert_eq!(reconstructed.provenance.backend, "fixture");
    assert_eq!(reconstructed.component, ComponentId::new("fixture:main"));

    let mut files = CacheFiles::new();
    let cache = ArtifactBlobCache::open("cache".to_owned());
    let provenance = Provenance {
        backend: "fixture".into(),
        backend_version: "1".into(),
        protocol_version: WORKER_PROTOCOL_VERSION,
        analysis_options: Fingerprint::new("sha256:options"),
    };
    let key = ArtifactBlobKey::new(
        Fingerprint::new("sha256:artifact"),
        Fingerprint::new("sha256:context"),
        &provenance,
    );
    assert!(files.publish(&cache, &key, encoded.bytes()));
    let file = &files.files[&cache.path_for(&key)];
    let blob = ArtifactBlob { payload_len: validate_header(&file[..52], &key).expect("opens") };
    let read = |offset: u64, length: usize| {
        let start = blob.read_range(offset, length).expect("is inside the blob") as usize;
        file[start..start + length].to_vec()
    };
    let location = toc_location(&read(0, 28)).expect("reads header");
    let toc = read(location.offset, location.length);
    let toc_len = toc.len();
    let sections =
        ArtifactBlobSections::open(location, blob.len(), toc_len, Ok(parse_toc(&toc)))
            .expect("reads header and toc only");
    let postings = sections.section(ArtifactBlobSectionKind::SymbolPostings).expect("is there");
    let postings = sections
        .read_section(
            ArtifactBlobSectionKind::SymbolPostings,
            &read(postings.offset, postings.length as usize),
        )
        .expect("reads postings");
    assert_eq!(number(&messages(&postings, 1)[0], 2), 0);
    let section = sections.detail_section(0).expect("has a block");
    let block = sections
        .symbol_detail_block(0, &read(section.offset, section.length as usize))
        .expect("reads bounded detail block");
    assert_eq!(block, block_bytes(&plan.blocks[0]));
    let symbol = decode_symbol_detail(&plan.blocks[0], 0).expect("decodes canonical symbol");
    assert_eq!(symbol.id.as_str(), "java:example.Widget");
    assert_eq!(symbol.declaration.source_unit, source.id);

    let descriptor = ArtifactDescriptor {
        source_unit: source,
        provenance,
        resolved_identity: None,
        symbol_locators: Vec::new(),
    };
    assert_eq!(ArtifactBlobKey::for_descriptor(&descriptor).filename(), key.filename());
    let ordinals =
        implementation_ordinals(&plan.hierarchy, &plan.dictionary, "java:example.Widget");
    let groups = group_by_block(&sections, &ordinals).expect("reads hierarchy");
    assert_eq!(groups.len(), 1);
    assert_eq!(groups[0].start, 0);
    let source =
        ImplementationSource::Blocks { groups, blocks: vec![plan.blocks[0].clone()] };
    let found = direct_implementations(&source, "java:example.Widget").expect("reads");
    assert_eq!(
        found.into_iter().map(|symbol| symbol.id).collect::<Vec<_>>(),
        vec![SymbolId::new("java:example.WidgetImpl")]
    );
}

fn decode_base64(value: &str) -> Vec<u8> {
    let digit = |byte: u8| match byte {
        b'A'..=b'Z' => byte - b'A',
        b'a'..=b'z' => byte - b'a' + 26,
        b'0'..=b'9' => byte - b'0' + 52,
        b'+' => 62,
        b'/' => 63,
        _ => panic!("invalid base64"),
    };
    let mut output = Vec::new();
    for chunk in value.as_bytes().chunks(4) {
        let values = [
            digit(chunk[0]),
            digit(chunk[1]),
            if chunk[2] == b'=' { 0 } else { digit(chunk[2]) },
            if chunk[3] == b'=' { 0 } else { digit(chunk[3]) },
        ];
        output.push((values[0] << 2) | (values[1] >> 4));
        if chunk[2] != b'=' {
            output.push((values[1] << 4) | (values[2] >> 2));
        }
        if chunk[3] != b'=' {
            output.push((values[2] << 6) | values[3]);
        }
    }
    output
}

#[test]
fn rust_reads_the_kotlin_produced_jvm_blob_golden_fixture() {
    let bytes = decode_base64(
        "S0lERUpWTTEBAAAAHAAAAAAAAABXAAAAAAAAAAgBEigIARBzGB8iIA489LPoUAvcGllTAE+K7M0J/nOnVWSAFr91EmHoc5C4EikIAhCSARghIiCkA26Ly4pgd+PWgqAmnGisI4k48QpBszBrVFP7+rNQeQodChNqYXZhOmZpeHR1cmUuV2lkZ2V0EgZXaWRnZXQKHyodChNqYXZhOmZpeHR1cmUuV2lkZ2V0MgZXaWRnZXQ=",
    );
    let layout = validate_layout(bytes).expect("header and TOC are accepted");
    let dictionary = layout
        .section(ArtifactBlobSectionKind::SymbolDictionary)
        .expect("dictionary range");
    assert_eq!(text(&messages(dictionary, 1)[0], 1), "java:fixture.Widget");
    let graph = layout.graph_facts().expect("graph range");
    assert_eq!(
        text(&messages(&messages(&graph, 1)[0], 5)[0], 6),
        "Widget"
    );
    assert_eq!(
        layout.symbol_postings(),
        Err(ArtifactBlobLayoutError::MissingSection(ArtifactBlobSectionKind::SymbolPostings))
    );
}

#[test]
fn broken_layouts_are_refused() {
    let (_, layout) = encode_layout(&widget_graph());
    let bytes = layout.bytes().to_vec();
    assert_eq!(
        ArtifactBlobLayout::locate_toc(&bytes[..27]),
        Err(ArtifactBlobLayoutError::InvalidHeader)
    );
    let mut foreign = bytes.clone();
    foreign[0] = b'X';
    assert_eq!(
        ArtifactBlobLayout::locate_toc(&foreign),
        Err(ArtifactBlobLayoutError::InvalidHeader)
    );
    let mut future = bytes.clone();
    future[8] = 2;
    assert_eq!(
        ArtifactBlobLayout::locate_toc(&future),
        Err(ArtifactBlobLayoutError::UnsupportedVersion(2))
    );
    let location = ArtifactBlobLayout::locate_toc(&bytes).expect("is a layout");
    let mut toc = parse_toc(&bytes[28..28 + location.length]);
    toc.sections[0].length = bytes.len() as u64;
    assert_eq!(
        ArtifactBlobLayout::validate(bytes, location, Ok(toc)).err(),
        Some(ArtifactBlobLayoutError::InvalidHeader)
    );
}

#[test]
fn sections_are_decompressed_by_their_marker() {
    assert_eq!(decompress_section(b"plain", 0), Ok(b"plain".to_vec()));
    assert_eq!(
        decompress_section(b"plain", 2),
        Err(ArtifactBlobLayoutError::UnsupportedCompression(2))
    );
    assert_eq!(
        decompress_section(b"plain", 1),
        Err(ArtifactBlobLayoutError::Gzip("unexpected end of file".to_owned()))
    );
    assert_eq!(
        decompress_section(b"not a gzip stream", 1),
        Err(ArtifactBlobLayoutError::Gzip("invalid gzip header".to_owned()))
    );
    let payloads = section_payloads(&EncodedSections {
        dictionary: Vec::new(),
        postings: Vec::new(),
        hierarchy: Vec::new(),
        directory: Vec::new(),
        graph: vec![7; 4096],
        blocks: Vec::new(),
    });
    let graph = payloads.last().expect("graph section");
    assert_eq!(graph.kind, ArtifactBlobSectionKind::GraphFacts);
    assert!(graph.bytes.len() < 4096);
    assert_eq!(decompress_section(&graph.bytes, graph.compression), Ok(vec![7; 4096]));
}

#[test]
fn ordinals_and_details_are_read_back() {
    let graph = graph(None);
    let plan = plan_sections(&graph);
    assert_eq!(plan.blocks.len(), 2);
    assert_eq!(plan.blocks[1].first_symbol_ordinal, 256);
    assert_eq!(plan.postings.entries[511].symbol_ordinal, 511);
    let expanded = expand_detail(&plan.blocks[1], 300).expect("expands");
    assert_eq!(expanded.symbol.id, "java:fixture.Symbol300");
    assert_eq!(expanded.symbol.freshness, "fresh");
    assert_eq!(expanded.provenance, fixture_provenance());
    assert_eq!(expanded.source_unit, fixture_unit());
    assert!(expand_detail(&plan.blocks[1], 255).is_err());
    let block = detail_block(&graph.snapshots[0], &graph.snapshots[0].symbols[..2], 5);
    assert!(block.defaults.as_ref().expect("defaults").string_table.is_empty());
    assert_eq!(block.entries[1].id, "java:fixture.Symbol1");
    assert_eq!(
        ordinals_with_qualified_name(&plan.directory, "fixture.Symbol300"),
        vec![300]
    );
    let found = symbols_with_qualified_name(
        &plan.directory,
        "fixture.Symbol300",
        &plan.blocks[1..],
    )
    .expect("reads");
    assert_eq!(found[0].name, "Symbol300");
    assert!(matches!(
        implementations_in_block(&plan.blocks[0], &[300]),
        Err(ArtifactQueryError::Graph(ArtifactProtoError::LengthMismatch))
    ));
}

fn canonical_snapshot() -> FileAnalysisSnapshot {
    let provenance = key_provenance();
    let unit = SourceUnit {
        id: SourceUnitId::new("gradle:app:Main.kt"),
        component: ComponentId::new("gradle:app:main"),
        path: WorkspacePath::new("src/Main.kt"),
        language: Language::Kotlin,
        origin: SourceOrigin::Source,
        content: Fingerprint::new("sha256:content"),
        context: Fingerprint::new("sha256:context"),
    };
    let at = |start: u64, end: u64| SourceRange {
        source_unit: SourceUnitId::new("gradle:app:Main.kt"),
        bytes: ByteRange { start, end },
    };
    let occurrence = SourceOccurrence {
        range: at(30, 34),
        kind: OccurrenceKind::Call,
        enclosing_symbol: Some(SymbolId::new("kotlin:demo.Child")),
        target: Some(SymbolId::new("kotlin:demo.Child")),
        type_id: Some(TypeId::new("kotlin:String")),
        precision: Precision::Exact,
        freshness: Freshness::Fresh,
        completeness: Completeness::Complete,
        provenance: provenance.clone(),
    };
    FileAnalysisSnapshot {
        source_unit: unit,
        structural_fingerprint: Some(Fingerprint::new("sha256:structure")),
        public_api_fingerprint: None,
        symbols: vec![SymbolRecord {
            id: SymbolId::new("kotlin:demo.Child"),
            backend_key: BackendKey {
                backend: "kide-kotlin-jvm".to_owned(),
                schema_version: 1,
                value: "demo.Child".to_owned(),
            },
            language: Language::Kotlin,
            kind: SymbolKind::Class,
            name: "Child".to_owned(),
            qualified_name: Some("demo.Child".to_owned()),
            signature: None,
            component: ComponentId::new("gradle:app:main"),
            declaration: at(0, 40),
            name_range: at(6, 11),
            owner: None,
            modifiers: vec!["public".to_owned()],
            applied_symbols: vec![SymbolId::new("kotlin:demo.Mark")],
            freshness: Freshness::Fresh,
            completeness: Completeness::Complete,
            provenance: provenance.clone(),
        }],
        occurrences: vec![occurrence.clone()],
        references: vec![ReferenceEdge {
            source: occurrence.clone(),
            target: SymbolId::new("kotlin:demo.target"),
            precision: Precision::Exact,
        }],
        calls: vec![CallEdge {
            source: occurrence,
            target: SymbolId::new("kotlin:demo.target"),
            caller: Some(SymbolId::new("kotlin:demo.Child")),
            precision: Precision::Exact,
        }],
        hierarchy: vec![HierarchyEdge {
            subtype: SymbolId::new("kotlin:demo.Child"),
            supertype: SymbolId::new("kotlin:demo.Parent"),
            precision: Precision::Exact,
            provenance: provenance.clone(),
        }],
        types: vec![TypeRecord {
            id: TypeId::new("kotlin:String"),
            language: Language::Kotlin,
            display: "String".to_owned(),
            backend_key: None,
            freshness: Freshness::Fresh,
            completeness: Completeness::Complete,
            provenance: provenance.clone(),
        }],
        diagnostics: vec![DiagnosticRecord {
            source_unit: SourceUnitId::new("gradle:app:Main.kt"),
            range: Some(ByteRange { start: 40, end: 45 }),
            severity: DiagnosticSeverity::Warning,
            code: None,
            message: "warning".to_owned(),
            freshness: Freshness::Fresh,
            completeness: Completeness::Complete,
            provenance: provenance.clone(),
        }],
        completeness: Completeness::Complete,
        provenance,
    }
}

#[test]
fn graph_artifact_round_trips_canonical_snapshots_and_rejects_bad_envelopes() {
    let artifact = encode_snapshots(&[canonical_snapshot()]).expect("encodes storage artifact");
    let decoded = decode_graph_artifact(&artifact).expect("decodes artifact");
    assert_eq!(decoded, vec![canonical_snapshot()]);

    let payload = graph_bytes(&artifact);
    let mut envelope = seal_payload(&payload);
    assert_eq!(envelope.payload_length, payload.len() as u64);
    assert_eq!(check_envelope(&envelope, Some(&payload)), Ok(()));
    assert_eq!(
        check_envelope(&envelope, Some(&payload[1..])),
        Err(ArtifactProtoError::LengthMismatch)
    );
    let encoded = || EncodedArtifact {
        artifact: encode_snapshots(&[canonical_snapshot()]).expect("encodes"),
        bytes: payload.clone(),
    };
    assert_eq!(
        decode_snapshots(Ok(envelope.clone()), Some(encoded())),
        Ok(vec![canonical_snapshot()])
    );
    assert_eq!(
        decode_snapshots(Ok(envelope.clone()), None),
        Err(ArtifactProtoError::LengthMismatch)
    );
    assert_eq!(
        decode_snapshots(Err("bad tag".to_owned()), Some(encoded())),
        Err(ArtifactProtoError::Decode("bad tag".to_owned()))
    );
    assert_eq!(
        ArtifactProtoError::Decode("bad tag".to_owned()).message(),
        "graph artifact protobuf failed to decode: bad tag"
    );
    envelope.payload_sha256[0] ^= 1;
    assert_eq!(
        decode_snapshots(Ok(envelope.clone()), Some(encoded())),
        Err(ArtifactProtoError::ChecksumMismatch)
    );
    envelope.format_version += 1;
    assert!(matches!(
        decode_snapshots(Ok(envelope), Some(encoded())),
        Err(ArtifactProtoError::UnsupportedVersion(found)) if found == ARTIFACT_FORMAT_VERSION + 1
    ));
}

#[test]
fn malformed_graphs_and_edges_are_refused() {
    let mut unlisted = canonical_snapshot();
    unlisted.occurrences.clear();
    assert_eq!(
        file_analysis_snapshot(&unlisted).err(),
        Some(AdapterError::UnlistedOccurrence)
    );
    assert_eq!(
        encode_snapshots(&[unlisted]).err(),
        Some(ArtifactProtoError::Canonical(AdapterError::UnlistedOccurrence))
    );
    let mut artifact = encode_snapshots(&[canonical_snapshot()]).expect("encodes");
    artifact.snapshots[0].symbols[0].kind = "galaxy".to_owned();
    assert_eq!(
        decode_graph_artifact(&artifact).err(),
        Some(ArtifactProtoError::Canonical(AdapterError::Malformed))
    );
    artifact.snapshots[0].provenance_index = None;
    assert_eq!(
        decode_graph_artifact(&artifact).err(),
        Some(ArtifactProtoError::LengthMismatch)
    );
}

#[test]
fn source_unit_adapter_preserves_snapshot_identity() {
    let source = SourceUnit {
        id: SourceUnitId::new("gradle:app:Main.kt"),
        component: ComponentId::new("gradle:app:main"),
        path: WorkspacePath::new("src/Main.kt"),
        language: Language::Kotlin,
        origin: SourceOrigin::Generated,
        content: Fingerprint::new("sha256:content"),
        context: Fingerprint::new("sha256:context"),
    };

    let restored =
        decode_source_unit(&source_unit(&source)).expect("known source origin decodes");

    assert_eq!(restored, source);
    let mut unknown = source_unit(&source);
    unknown.origin = "imagined".to_owned();
    assert_eq!(decode_source_unit(&unknown), Err(AdapterError::Malformed));
}

#[test]
fn symbol_adapter_round_trips_declaration_metadata() {
    let source = SourceUnit {
        id: SourceUnitId::new("unit"),
        component: ComponentId::new("component"),
        path: WorkspacePath::new("Main.kt"),
        language: Language::Kotlin,
        origin: SourceOrigin::Source,
        content: Fingerprint::new("sha256:content"),
        context: Fingerprint::new("sha256:context"),
    };
    let provenance = Provenance {
        backend: "kotlin".into(),
        backend_version: "1".into(),
        protocol_version: 3,
        analysis_options: Fingerprint::new("sha256:options"),
    };
    let symbol = SymbolRecord {
        id: SymbolId::new("symbol"),
        backend_key: BackendKey {
            backend: "kotlin".into(),
            schema_version: 1,
            value: "key".into(),
        },
        language: Language::Kotlin,
        kind: SymbolKind::Class,
        name: "Main".into(),
        qualified_name: Some("demo.Main".into()),
        signature: None,
        component: source.component.clone(),
        declaration: SourceRange {
            source_unit: source.id.clone(),
            bytes: ByteRange { start: 0, end: 4 },
        },
        name_range: SourceRange {
            source_unit: source.id.clone(),
            bytes: ByteRange { start: 0, end: 4 },
        },
        owner: None,
        modifiers: vec!["public".into()],
        applied_symbols: vec![],
        freshness: Freshness::Fresh,
        completeness: Completeness::Complete,
        provenance: provenance.clone(),
    };

    let restored = decode_symbol_declaration(&symbol_declaration(&symbol), &source, &provenance)
        .expect("encoded declaration decodes");

    assert_eq!(restored, symbol);
}

#[test]
fn analysis_snapshot_adapter_round_trips_every_fact_table() {
    let snapshot = canonical_snapshot();
    let written = file_analysis_snapshot(&snapshot).expect("response encodes");
    assert_eq!(written.provenances.len(), 1);
    assert_eq!(written.symbols[0].kind, "class");
    assert_eq!(written.diagnostics[0].severity, "warning");
    let restored = decode_file_analysis_snapshot(&written).expect("response decodes");
    assert_eq!(restored, snapshot);

    let response = AnalysisBatchResponse {
        snapshots: vec![snapshot],
        timings: Vec::new(),
        artifact_candidates: vec![ArtifactCandidate {
            locator: "/tmp/example.jar".into(),
            component: ComponentId::new("maven:app:main"),
            context: Fingerprint::new("sha256:context"),
        }],
        metrics: Vec::new(),
    };
    let encoded = analysis_batch_response(&response).expect("response encodes");
    let restored = decode_analysis_batch_response(&encoded).expect("response decodes");
    assert_eq!(restored, response);
}

#[test]
fn artifact_analysis_adapters_round_trip_and_reject_empty_page_size() {
    let request = ArtifactAnalysisRequest {
        workspace_root: WorkspacePath::new("."),
        max_artifacts: 8,
        cursor: Some("page-2".into()),
    };
    let response =
        ArtifactAnalysisResponse { snapshots: Vec::new(), next_cursor: Some("page-3".into()) };

    assert_eq!(
        decode_artifact_analysis_request(&artifact_analysis_request(&request))
            .expect("request decodes"),
        request
    );
    assert_eq!(
        decode_artifact_analysis_response(
            &artifact_analysis_response(&response).expect("response encodes")
        )
        .expect("response decodes"),
        response
    );
    assert!(decode_artifact_analysis_request(&worker_proto::ArtifactAnalysisRequest {
        workspace_root: ".".into(),
        max_artifacts: 0,
        cursor: None,
    })
    .is_err());
    let facts = ArtifactAnalysisResponse {
        snapshots: vec![canonical_snapshot(), canonical_snapshot()],
        next_cursor: None,
    };
    let written = artifact_analysis_response(&facts).expect("response encodes");
    assert_eq!(decode_artifact_analysis_response(&written), Ok(facts));
    let mut unlisted = canonical_snapshot();
    unlisted.occurrences.clear();
    assert_eq!(
        artifact_analysis_response(&ArtifactAnalysisResponse {
            snapshots: vec![canonical_snapshot(), unlisted],
            next_cursor: None,
        }),
        Err(AdapterError::UnlistedOccurrence)
    );
}

#[test]
fn materialization_and_error_adapters_round_trip_and_reject_bad_metadata() {
    let descriptor = ArtifactDescriptor {
        source_unit: SourceUnit {
            id: SourceUnitId::new("jvm:artifact"),
            component: ComponentId::new("gradle:main"),
            path: WorkspacePath::new(".kide/dependencies/artifact"),
            language: Language::Java,
            origin: SourceOrigin::Dependency,
            content: Fingerprint::new("sha256:artifact"),
            context: Fingerprint::new("sha256:context"),
        },
        provenance: Provenance {
            backend: "kotlin".into(),
            backend_version: "1".into(),
            protocol_version: 3,
            analysis_options: Fingerprint::new("sha256:options"),
        },
        resolved_identity: None,
        symbol_locators: Vec::new(),
    };
    let request = ArtifactMaterializationRequest {
        workspace_root: WorkspacePath::new("."),
        artifact: descriptor,
        staging_directory: "staging-7".into(),
        blob_format_version: 1,
        artifact_locator: None,
    };
    let response = ArtifactMaterializationResponse {
        staged_filename: "artifact.kide".into(),
        byte_length: 12,
        sha256: Fingerprint::new(format!("sha256:{}", "ab".repeat(32))),
        blob_format_version: 1,
        timings: vec![PhaseTiming { phase: "artifact_extract".into(), elapsed_millis: 7 }],
        metrics: vec![WorkerMetric { name: "artifact_input_bytes".into(), value: 42 }],
    };
    let error = WorkerError {
        code: WorkerErrorCode::AnalysisFailed,
        message: "staging failed".into(),
        retryable: true,
        supported_protocol_version: 3,
        received_protocol_version: Some(3),
    };

    assert_eq!(
        decode_materialization_request(&materialization_request(&request))
            .expect("request decodes"),
        request
    );
    let written = materialization_response(&response).expect("response encodes");
    assert_eq!(written.sha256, vec![0xab; 32]);
    assert_eq!(
        decode_materialization_response(&written).expect("response decodes"),
        response
    );
    assert_eq!(decode_worker_error(&worker_error(&error)).expect("error decodes"), error);
    assert!(decode_materialization_response(&worker_proto::ArtifactMaterializationResponse {
        staged_filename: "artifact.kide".into(),
        byte_length: 1,
        sha256: vec![0; 31],
        blob_format_version: 1,
        timings: Vec::new(),
        metrics: Vec::new(),
    })
    .is_err());

    let unnamed = ArtifactMaterializationResponse {
        sha256: Fingerprint::new("sha256:staged"),
        ..response
    };
    assert_eq!(materialization_response(&unnamed).err(), Some(AdapterError::Malformed));
    let mut attributed = request;
    attributed.artifact.resolved_identity = Some(ResolvedDependencyIdentity::unattributed(
        Fingerprint::new("sha256:content"),
        Fingerprint::new("sha256:context"),
        key_provenance(),
        ARTIFACT_BLOB_FORMAT_VERSION,
    ));
    attributed.artifact.symbol_locators = vec![SymbolLocator {
        qualified_name: "example.Widget".into(),
        symbol: SymbolId::new("java:example.Widget"),
    }];
    let mut written = materialization_request(&attributed);
    assert_eq!(decode_materialization_request(&written).as_ref(), Ok(&attributed));
    written.artifact.as_mut().expect("artifact").provenance = None;
    assert_eq!(decode_materialization_request(&written).err(), Some(AdapterError::Malformed));
    let mut written = worker_error(&error);
    assert_eq!(written.code, "analysis_failed");
    written.code = "overslept".into();
    assert_eq!(decode_worker_error(&written).err(), Some(AdapterError::Malformed));
}

#[test]
fn implementations_are_found_in_a_decoded_graph() {
    let artifact = encode_snapshots(&[canonical_snapshot()]).expect("encodes storage artifact");
    let decoded = decode_graph_artifact(&artifact).expect("decodes artifact");
    let found = implementations_in_graph(&decoded, "kotlin:demo.Parent");
    assert_eq!(found.len(), 1);
    assert!(implementations_in_graph(&decoded, "kotlin:demo.Child").is_empty());
}

#[test]
fn identity_serialization_is_versioned_and_preserves_missing_coordinate() {
    let provenance = || Provenance { protocol_version: 3, ..key_provenance() };
    let identity = ResolvedDependencyIdentity::unattributed(
        Fingerprint::new("sha256:content"),
        Fingerprint::new("sha256:context"),
        provenance(),
        ARTIFACT_BLOB_FORMAT_VERSION,
    );

    assert_eq!(
        String::from_utf8(identity.canonical_bytes()).expect("utf8 json"),
        "{\"identity_version\":1,\"ecosystem\":\"unknown\",\"content\":\"sha256:content\",\"context\":\"sha256:context\",\"provenance\":{\"backend\":\"kide-kotlin-jvm\",\"backend_version\":\"0.1.0\",\"protocol_version\":3,\"analysis_options\":\"sha256:options\"},\"canonical_schema_version\":1,\"blob_format_version\":1}"
    );
    let attributed = ResolvedDependencyIdentity::new(
        "maven",
        Some("org.example:library".into()),
        Some("1.0.0".into()),
        Fingerprint::new("sha256:content"),
        Fingerprint::new("sha256:context"),
        provenance(),
        ARTIFACT_BLOB_FORMAT_VERSION,
    );
    assert_ne!(identity.cache_key(), attributed.cache_key());
    assert!(!identity.same(&attributed));
    let quoted = ResolvedDependencyIdentity::new(
        "a\"b\\c\n",
        None,
        None,
        Fingerprint::new("sha256:content"),
        Fingerprint::new("sha256:context"),
        provenance(),
        ARTIFACT_BLOB_FORMAT_VERSION,
    );
    assert!(String::from_utf8(quoted.canonical_bytes())
        .expect("utf8 json")
        .contains("\"ecosystem\":\"a\\\"b\\\\c\\n\""));
}

fn open_sections(layout: &ArtifactBlobLayout) -> ArtifactBlobSections {
    let bytes = layout.bytes();
    let location = toc_location(&bytes[..28]).expect("reads header");
    let start = location.offset as usize;
    let toc = &bytes[start..start + location.length];
    ArtifactBlobSections::open(location, bytes.len() as u64, toc.len(), Ok(parse_toc(toc)))
        .expect("reads table")
}

fn edge(subtype: u32, supertype: u32) -> ArtifactHierarchy {
    ArtifactHierarchy {
        precision: "exact".into(),
        subtype_symbol_ordinal: Some(subtype),
        supertype_symbol_ordinal: Some(supertype),
        ..Default::default()
    }
}

#[test]
fn ordinal_edges_are_posted_like_inline_edges() {
    let inline = widget_graph();
    let mut ordinal = widget_graph();
    ordinal.snapshots[0].hierarchy = vec![edge(1, 0)];
    let plan = plan_sections(&ordinal);
    assert_eq!(plan.hierarchy, plan_sections(&inline).hierarchy);
    assert_eq!(plan.hierarchy.entries[0].subtype_symbol_id, "java:example.WidgetImpl");
    assert_eq!(plan.hierarchy.entries[0].supertype_symbol_id, "java:example.Widget");
    assert_eq!(
        implementation_ordinals(&plan.hierarchy, &plan.dictionary, "java:example.Widget"),
        vec![1]
    );
}

#[test]
fn implementations_given_by_ordinals_are_found_in_blob_and_graph() {
    let mut graph = graph(None);
    graph.snapshots[0].hierarchy = vec![edge(300, 2), edge(7, 2), edge(2, 7)];
    let (plan, layout) = encode_layout(&graph);
    let supertype = "java:fixture.Symbol2";
    let ordinals = implementation_ordinals(&plan.hierarchy, &plan.dictionary, supertype);
    let sections = open_sections(&layout);
    let groups = group_by_block(&sections, &ordinals).expect("has blocks");
    let blocks = groups
        .iter()
        .map(|group| group.ordinals[0] as usize / SYMBOL_DETAIL_BLOCK_ENTRY_CAPACITY)
        .map(|position| plan.blocks[position].clone())
        .collect::<Vec<_>>();
    assert_eq!(blocks.len(), 2);
    let source = ImplementationSource::Blocks { groups, blocks };
    let found = direct_implementations(&source, supertype).expect("reads");
    let snapshots = decode_graph_artifact(&graph).expect("decodes");
    let mut expected = implementations_in_graph(&snapshots, supertype);
    let names = |symbols: &[SymbolRecord]| {
        symbols.iter().map(|symbol| symbol.name.clone()).collect::<Vec<_>>()
    };
    assert_eq!(names(&found), vec!["Symbol7", "Symbol300"]);
    expected.sort_by_key(|symbol| symbol.name.len());
    assert_eq!(found, expected);
    let whole = ImplementationSource::Graph(snapshots);
    let decoded = direct_implementations(&whole, supertype).expect("reads");
    assert_eq!(names(&decoded), vec!["Symbol300", "Symbol7"]);
    assert!(has_posted_supertype(&plan.hierarchy, supertype));
    assert!(!has_posted_supertype(&plan.hierarchy, "java:fixture.Symbol300"));
    assert_eq!(
        implementation_ordinals(&plan.hierarchy, &plan.dictionary, "java:fixture.Symbol300"),
        Vec::<u32>::new()
    );
}

#[test]
fn an_artifact_without_a_blob_has_no_implementations() {
    assert_eq!(
        direct_implementations(&ImplementationSource::Absent, "java:fixture.Symbol2").expect("is none"),
        Vec::new()
    );
    let nothing = ImplementationSource::Blocks { groups: Vec::new(), blocks: Vec::new() };
    assert_eq!(
        direct_implementations(&nothing, "java:fixture.Symbol2").expect("is none"),
        Vec::new()
    );
}

#[test]
fn the_first_block_that_does_not_answer_ends_the_search() {
    let plan = plan_sections(&graph(None));
    let groups = vec![
        BlockGroup { start: 0, ordinals: vec![3, 5] },
        BlockGroup { start: 256, ordinals: vec![7, 300] },
    ];
    let blocks = vec![plan.blocks[0].clone(), plan.blocks[1].clone()];
    assert!(matches!(
        direct_implementations(&ImplementationSource::Blocks { groups, blocks }, "any"),
        Err(ArtifactQueryError::Graph(ArtifactProtoError::LengthMismatch))
    ));
}

#[test]
fn details_and_lookups_agree_with_the_graph() {
    let graph = graph(None);
    let plan = plan_sections(&graph);
    let declared = &decode_graph_artifact(&graph).expect("decodes")[0].symbols;
    for (ordinal, symbol) in declared.iter().enumerate() {
        let block = &plan.blocks[ordinal / SYMBOL_DETAIL_BLOCK_ENTRY_CAPACITY];
        assert_eq!(&decode_symbol_detail(block, ordinal as u32).expect("decodes"), symbol);
        let name = symbol.qualified_name.as_deref().expect("is qualified");
        assert_eq!(ordinals_with_qualified_name(&plan.directory, name), vec![ordinal as u32]);
        let found = symbols_with_qualified_name(&plan.directory, name, &[block.clone()])
            .expect("reads");
        assert_eq!(found, vec![symbol.clone()]);
        assert_eq!(plan.postings.entries[ordinal].symbol_ordinal, ordinal as u32);
        assert_eq!(plan.postings.entries[ordinal].source_unit_index, 0);
    }
    assert_eq!(plan.postings.entries.len(), declared.len());
    assert_eq!(plan.directory.entries.len(), declared.len());
    assert!(ordinals_with_qualified_name(&plan.directory, "fixture.Symbol512").is_empty());
}

#[test]
fn blocks_start_at_multiples_of_their_capacity() {
    let (plan, layout) = encode_layout(&graph(None));
    let sections = open_sections(&layout);
    let capacity = SYMBOL_DETAIL_BLOCK_ENTRY_CAPACITY as u32;
    for ordinal in [0, 1, capacity - 1, capacity, capacity + 44, 2 * capacity - 1] {
        let start = ordinal / capacity * capacity;
        assert_eq!(sections.symbol_detail_block_start(ordinal), Ok(start));
        assert_eq!(
            layout.symbol_detail_block(ordinal).expect("reads block"),
            block_bytes(&plan.blocks[(ordinal / capacity) as usize])
        );
    }
    assert!(sections.symbol_detail_block_start(512).is_err());
}

#[test]
fn written_sections_are_read_back_and_a_change_is_refused_where_it_is() {
    let graph = graph(None);
    let (plan, layout) = encode_layout(&graph);
    let written = encoded_sections(&plan, &graph);
    let read = validate_layout(layout.bytes().to_vec()).expect("validates");
    assert_eq!(read.bytes(), layout.bytes());
    assert_eq!(
        read.section(ArtifactBlobSectionKind::SymbolDictionary),
        Ok(written.dictionary.as_slice())
    );
    assert_eq!(read.symbol_postings(), Ok(written.postings.as_slice()));
    assert_eq!(read.hierarchy_postings(), Ok(written.hierarchy.as_slice()));
    assert_eq!(read.qualified_symbol_directory(), Ok(written.directory.as_slice()));
    assert_eq!(read.graph_facts(), Ok(written.graph.clone()));
    let location = toc_location(&layout.bytes()[..28]).expect("reads header");
    let toc = parse_toc(&layout.bytes()[28..28 + location.length]);
    for kind in [
        ArtifactBlobSectionKind::SymbolDictionary,
        ArtifactBlobSectionKind::SymbolPostings,
        ArtifactBlobSectionKind::QualifiedSymbolDirectory,
    ] {
        let section =
            toc.sections.iter().find(|section| section.kind == Some(kind)).expect("is listed");
        let mut changed = layout.bytes().to_vec();
        changed[section.offset as usize] ^= 1;
        let read = validate_layout(changed).expect("header remains valid");
        assert_eq!(read.section(kind), Err(ArtifactBlobLayoutError::ChecksumMismatch));
        assert_eq!(read.graph_facts(), Ok(written.graph.clone()));
        for other in [
            ArtifactBlobSectionKind::SymbolDictionary,
            ArtifactBlobSectionKind::SymbolPostings,
            ArtifactBlobSectionKind::QualifiedSymbolDirectory,
        ] {
            assert_eq!(read.section(other).is_ok(), other != kind);
        }
    }
}

#[test]
fn tables_settle_at_their_own_length_or_not_at_all() {
    let plan = plan_sections(&widget_graph());
    let payloads = section_payloads(&encoded_sections(&plan, &widget_graph()));
    let settled = settle_toc(&payloads, |toc: &ArtifactBlobToc| toc_bytes(toc)).expect("settles");
    assert_eq!(settled, toc_bytes(&place_sections(&payloads, settled.len())));
    let shrinking = |toc: &ArtifactBlobToc| vec![0u8; if toc.sections.is_empty() { 10 } else { 5 }];
    assert_eq!(settle_toc(&payloads, shrinking), None);
}

#[test]
fn undecodable_tables_and_short_files_are_refused() {
    let (_, layout) = encode_layout(&widget_graph());
    let bytes = layout.bytes().to_vec();
    let location = toc_location(&bytes[..28]).expect("reads header");
    assert_eq!(
        ArtifactBlobLayout::validate(bytes.clone(), location, Err("bad tag".to_owned())).err(),
        Some(ArtifactBlobLayoutError::Decode("bad tag".to_owned()))
    );
    assert_eq!(
        ArtifactBlobSections::open(
            location,
            bytes.len() as u64,
            location.length,
            Err("bad tag".to_owned())
        )
        .err(),
        Some(ArtifactBlobLayoutError::Decode("bad tag".to_owned()))
    );
    let sections = open_sections(&layout);
    let blob = ArtifactBlob { payload_len: bytes.len() as u64 };
    let kind = ArtifactBlobSectionKind::SymbolDictionary;
    let section = sections.section(kind).expect("is there");
    assert_eq!(
        sections.section_range(&blob, kind),
        Ok((52 + section.offset, section.length as usize))
    );
    let block = sections.detail_section(1).expect("has a block");
    assert_eq!(
        sections.detail_range(&blob, 1),
        Ok((52 + block.offset, block.length as usize))
    );
    let short = ArtifactBlob { payload_len: section.offset };
    assert!(matches!(
        sections.section_range(&short, kind),
        Err(ArtifactBlobLayoutError::Cache(_))
    ));
    assert!(matches!(
        sections.detail_range(&short, 1),
        Err(ArtifactBlobLayoutError::Cache(_))
    ));
    assert_eq!(
        sections.detail_range(&blob, 2),
        Err(ArtifactBlobLayoutError::MissingSection(ArtifactBlobSectionKind::SymbolDetailBlock))
    );
}

#[test]
fn refused_blobs_say_why() {
    let layout = |error: ArtifactBlobLayoutError| error.message();
    assert_eq!(
        layout(ArtifactBlobLayoutError::InvalidHeader),
        "artifact blob has an invalid or incompatible header"
    );
    assert_eq!(
        layout(ArtifactBlobLayoutError::UnsupportedVersion(2)),
        "artifact blob uses unsupported layout version 2"
    );
    assert_eq!(
        layout(ArtifactBlobLayoutError::Decode("bad tag".to_owned())),
        "artifact blob TOC cannot be decoded: bad tag"
    );
    assert_eq!(
        layout(ArtifactBlobLayoutError::MissingSection(ArtifactBlobSectionKind::GraphFacts)),
        "artifact blob is missing GraphFacts section"
    );
    assert_eq!(
        layout(ArtifactBlobLayoutError::ChecksumMismatch),
        "artifact blob section checksum does not match"
    );
    assert_eq!(
        layout(ArtifactBlobLayoutError::UnsupportedCompression(-7)),
        "artifact blob uses unsupported section compression -7"
    );
    assert_eq!(
        layout(ArtifactBlobLayoutError::Gzip("invalid gzip header".to_owned())),
        "artifact blob gzip operation failed: invalid gzip header"
    );
    assert_eq!(
        layout(ArtifactBlobLayoutError::Cache(ArtifactBlobCacheError::TruncatedPayload {
            expected: 9
        })),
        "artifact blob cache read failed: artifact blob stream ended before its declared 9 byte payload"
    );
    let cache = |error: ArtifactBlobCacheError| error.message();
    assert_eq!(
        cache(ArtifactBlobCacheError::InvalidHeader),
        "artifact blob has an incompatible or corrupt header"
    );
    assert_eq!(
        cache(ArtifactBlobCacheError::StagedLengthMismatch { expected: 3, actual: 4 }),
        "staged artifact length 4 does not match worker metadata 3"
    );
    assert_eq!(
        cache(ArtifactBlobCacheError::StagedChecksumMismatch),
        "staged artifact checksum does not match worker metadata"
    );
    let query = |error: ArtifactProtoError| ArtifactQueryError::Graph(error).message();
    assert_eq!(
        query(ArtifactProtoError::UnsupportedVersion(2)),
        "artifact graph failed to decode: unsupported graph artifact format version 2"
    );
    assert_eq!(
        query(ArtifactProtoError::LengthMismatch),
        "artifact graph failed to decode: graph artifact payload length does not match its envelope"
    );
    assert_eq!(
        query(ArtifactProtoError::ChecksumMismatch),
        "artifact graph failed to decode: graph artifact payload checksum does not match its envelope"
    );
    assert_eq!(
        ArtifactProtoError::Canonical(AdapterError::Malformed).message(),
        "graph artifact cannot represent the canonical snapshot: a part is missing or unknown"
    );
    assert_eq!(
        ArtifactQueryError::Layout(ArtifactBlobLayoutError::ChecksumMismatch).message(),
        "artifact blob layout failed: artifact blob section checksum does not match"
    );
}
