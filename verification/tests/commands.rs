use std::cell::RefCell;

use kide_core::canonical::{
    BackendKey, ByteRange, Completeness, ComponentId, Fingerprint, Freshness, Language, Location,
    OccurrenceKind, Precision, Provenance, SourceOccurrence, SourceOrigin, SourceRange,
    SourceUnit, SourceUnitId, SymbolId, SymbolKind, SymbolRecord, TextPosition, TypeId,
    TypeRecord, WorkspaceId, WorkspacePath,
};
use kide_core::configuration::{
    initialize_workspace_configuration, load_configuration, ConfigurationError, ConfigurationFile,
    ConfigurationLayer, ConfigurationSources, EffectiveConfiguration, FreshnessStrategy,
    LayerContent, MavenLayer, WORKSPACE_GITIGNORE_TEMPLATE,
};
use kide_core::discovery::{
    workspace_files, workspace_path, DiscoveryError, ObservedFile, WorkspaceFile,
};
use kide_core::freshness_gate::{
    freshness_problem, payload_kind, payload_owners, EffectiveInput, InputObservation,
    SourceObservation,
};
use kide_core::input::{
    exactly_one, piped_records, target_from_pipe_response, target_from_symbols, PipeInputError,
};
use kide_core::navigation::{
    byte_to_location, classify_target, constructors_of, context_range, definition_answer,
    distinct_implementations, fan_out, generic_type_between, generic_type_context,
    is_location_stale, parse_location, query_result, reference_list, resolve_location_target,
    resolve_name_target, resolve_symbol_target, short_location, short_symbol, source_snippet,
    target_problem, type_answer, FanOut, LocationSyntaxError, SymbolById, TargetForm,
    TargetResolution,
};
use kide_core::ordered_map::OrderedMap;
use kide_core::query::{
    exit_code, ConfigurationInputCounts, IndexCounts, QueryPayload, QueryResponse, QueryStatus,
    ResultMetadata, SelectorRecord, StatusResult,
};
use kide_core::query_resolver::{
    byte_offset, locate, resolve_location, LocationResolution, LocationResolutionError,
};
use kide_core::search::{
    check_text_query, count_blobs, next_lookup, sort_provenances, status, symbols_response,
    text_search_status, BlobObservation, CheckpointInputs, StatusObservation, SymbolLookup,
    WorkspaceCheckpoint,
};
use kide_core::source_metadata::{
    known_content, observe_source_file, source_key, stamp_of, SourceFileMetadata,
};
use kide_core::text_index::{
    collect_workspace_text, document_from_bytes, lexical_terms, position_at, snippet_at,
    terms_between, TextDocumentSkip,
};
use kide_core::{
    ArtifactBlobCacheError, ArtifactCoverage, CANONICAL_SCHEMA_VERSION, INDEX_FORMAT_VERSION,
    WORKER_PROTOCOL_VERSION,
};

fn provenance() -> Provenance {
    Provenance {
        backend: "test".into(),
        backend_version: "1".into(),
        protocol_version: WORKER_PROTOCOL_VERSION,
        analysis_options: Fingerprint::new("test"),
    }
}

fn range(start: u64, end: u64) -> SourceRange {
    SourceRange { source_unit: SourceUnitId::new("test"), bytes: ByteRange { start, end } }
}

fn symbol(id: &str, kind: SymbolKind, start: u64, end: u64) -> SymbolRecord {
    SymbolRecord {
        id: SymbolId::new(id),
        backend_key: BackendKey { backend: "test".into(), schema_version: 1, value: "key".into() },
        language: Language::Kotlin,
        kind,
        name: "Controller".into(),
        qualified_name: None,
        signature: None,
        component: ComponentId::new("test"),
        declaration: range(start, end),
        name_range: range(start, end),
        owner: None,
        modifiers: vec![],
        applied_symbols: vec![],
        freshness: Freshness::Fresh,
        completeness: Completeness::Complete,
        provenance: provenance(),
    }
}

fn test_symbol() -> SymbolRecord {
    symbol("kotlin:controller", SymbolKind::Class, 0, 0)
}

fn occurrence(kind: OccurrenceKind, start: u64, end: u64) -> SourceOccurrence {
    SourceOccurrence {
        range: range(start, end),
        kind,
        enclosing_symbol: None,
        target: Some(SymbolId::new("kotlin:target")),
        type_id: None,
        precision: Precision::Exact,
        freshness: Freshness::Fresh,
        completeness: Completeness::Complete,
        provenance: provenance(),
    }
}


#[test]
fn mod_pipe_input_uses_the_stable_symbol_id() {
    assert_eq!(
        target_from_symbols(vec![SymbolId::new("kotlin:controller")]).unwrap(),
        "kotlin:controller"
    );
}

#[test]
fn main_pipe_input_uses_the_stable_symbol_id() {
    assert_eq!(
        target_from_symbols(vec![SymbolId::new("kotlin:controller")]).unwrap(),
        "kotlin:controller"
    );
}

#[test]
fn mod_pipe_input_rejects_ambiguous_symbol_results() {
    assert!(target_from_symbols(vec![
        SymbolId::new("kotlin:first"),
        SymbolId::new("kotlin:second"),
    ])
    .is_err());
}

#[test]
fn main_pipe_input_rejects_ambiguous_symbol_results() {
    assert!(target_from_symbols(vec![
        SymbolId::new("kotlin:first"),
        SymbolId::new("kotlin:second"),
    ])
    .is_err());
}

#[test]
fn mod_fan_out_deduplicates_selector_targets_and_reports_success() {
    let seen = RefCell::new(Vec::new());
    assert_eq!(
        fan_out(vec!["b".into(), "a".into(), "a".into()], |target| {
            seen.borrow_mut().push(target);
            Ok::<QueryStatus, String>(QueryStatus::Success)
        })
        .unwrap(),
        QueryStatus::Success
    );
    assert_eq!(seen.into_inner(), vec!["a", "b"]);
}

#[test]
fn main_fan_out_deduplicates_selector_targets_and_reports_success() {
    let seen = RefCell::new(Vec::new());
    assert_eq!(
        fan_out(vec!["b".into(), "a".into(), "a".into()], |target| {
            seen.borrow_mut().push(target);
            Ok::<QueryStatus, String>(QueryStatus::Success)
        })
        .unwrap(),
        QueryStatus::Success
    );
    assert_eq!(seen.into_inner(), vec!["a", "b"]);
}

#[test]
fn targets_are_handed_out_once_each_in_ascending_order() {
    let mut fan = FanOut::new(&["b".to_owned(), "a".to_owned(), "a".to_owned()]);
    assert_eq!(fan.status(), QueryStatus::NoResult);
    assert_eq!(fan.next_target(), Some("a".to_owned()));
    fan.record(QueryStatus::Success);
    assert_eq!(fan.status(), QueryStatus::Success);
    assert_eq!(fan.next_target(), Some("b".to_owned()));
    fan.record(QueryStatus::NoResult);
    assert_eq!(fan.next_target(), None);
    assert_eq!(fan.next_target(), None);
    assert_eq!(fan.status(), QueryStatus::Success);
    assert_eq!(FanOut::new(&[]).next_target(), None);
}

#[test]
fn fan_out_stops_at_the_first_error() {
    let seen = RefCell::new(Vec::new());
    let result = fan_out(vec!["c".into(), "b".into(), "a".into()], |target| {
        let failed = target == "b";
        seen.borrow_mut().push(target);
        if failed {
            Err("broken")
        } else {
            Ok(QueryStatus::NoResult)
        }
    });
    assert_eq!(result, Err("broken"));
    assert_eq!(seen.into_inner(), vec!["a", "b"]);
    assert_eq!(
        fan_out(Vec::new(), |_| Ok::<QueryStatus, String>(QueryStatus::Success)),
        Ok(QueryStatus::NoResult)
    );
}

#[test]
fn ambiguous_and_stale_targets_are_machine_readable_states() {
    let (status, _, problems) = target_problem(TargetResolution::Ambiguous(vec![
        SymbolId::new("kotlin:first"),
        SymbolId::new("kotlin:second"),
    ]));
    assert_eq!(status, QueryStatus::Ambiguous);
    assert_eq!(problems[0].code, "ambiguous_target");
    let (status, _, problems) = target_problem(TargetResolution::Stale);
    assert_eq!(status, QueryStatus::Stale);
    assert_eq!(problems[0].code, "stale_source_snapshot");
    assert!(problems[0].retryable);
}

#[test]
fn mod_short_locations_use_one_based_unicode_scalar_coordinates() {
    assert_eq!(byte_to_location("a😀b\nnext", 5), Some((1, 3)));
    assert_eq!(byte_to_location("a😀b\nnext", 7), Some((2, 1)));
    assert_eq!(byte_to_location("a😀b", 2), None);
}

#[test]
fn main_short_locations_use_one_based_unicode_scalar_coordinates() {
    assert_eq!(byte_to_location("a😀b\nnext", 5), Some((1, 3)));
    assert_eq!(byte_to_location("a😀b\nnext", 7), Some((2, 1)));
    assert_eq!(byte_to_location("a😀b", 2), None);
}

#[test]
fn mod_exit_codes_match_the_v1_contract() {
    assert_eq!(exit_code(QueryStatus::Success), 0);
    assert_eq!(exit_code(QueryStatus::Ambiguous), 1);
    assert_eq!(exit_code(QueryStatus::InvalidRequest), 2);
    assert_eq!(exit_code(QueryStatus::Unsupported), 3);
    assert_eq!(exit_code(QueryStatus::Failed), 4);
}

#[test]
fn main_exit_codes_match_the_v1_contract() {
    assert_eq!(exit_code(QueryStatus::Success), 0);
    assert_eq!(exit_code(QueryStatus::Ambiguous), 1);
    assert_eq!(exit_code(QueryStatus::InvalidRequest), 2);
    assert_eq!(exit_code(QueryStatus::Unsupported), 3);
    assert_eq!(exit_code(QueryStatus::Failed), 4);
}

#[test]
fn piped_responses_give_one_target() {
    let response = |result| QueryResponse::bare(QueryStatus::Success, result, Vec::new());
    assert_eq!(
        target_from_pipe_response(response(Some(QueryPayload::Definition {
            symbol: test_symbol()
        }))),
        Ok("kotlin:controller".to_owned())
    );
    assert_eq!(
        target_from_pipe_response(response(Some(QueryPayload::Symbols {
            symbols: vec![test_symbol(), test_symbol()]
        }))),
        Err(PipeInputError::NotOneSymbol { count: 2 })
    );
    assert_eq!(target_from_pipe_response(response(None)), Err(PipeInputError::NoResult));
    assert_eq!(
        target_from_pipe_response(response(Some(QueryPayload::Callers { calls: Vec::new() }))),
        Err(PipeInputError::OtherQuery)
    );
    assert_eq!(piped_records("a\r\n  \n\nb"), vec!["a", "b"]);
    assert_eq!(exactly_one(vec!["a".into()]), Ok("a".to_owned()));
    assert_eq!(exactly_one(vec!["a".into(), "b".into()]), Err(2));
}

#[test]
fn locations_are_read_from_the_end() {
    let location = parse_location("C:/src/Main.kt:3:+14").expect("location");
    assert_eq!(location.path.as_str(), "C:/src/Main.kt");
    assert_eq!(location.position, TextPosition { line: 3, column: 14 });
    assert_eq!(parse_location("Main.kt:3:x"), Err(LocationSyntaxError::InvalidColumn));
    assert_eq!(parse_location("Main.kt:x:3"), Err(LocationSyntaxError::InvalidLine));
    assert_eq!(parse_location("3"), Err(LocationSyntaxError::Incomplete));
    assert_eq!(parse_location("3:4"), Err(LocationSyntaxError::Incomplete));
    assert_eq!(parse_location(":3:4"), Err(LocationSyntaxError::Incomplete));
    assert_eq!(parse_location("a:1:4294967296"), Err(LocationSyntaxError::InvalidColumn));
}

#[test]
fn targets_are_told_apart_by_their_form() {
    assert_eq!(
        classify_target("kotlin:demo.Target"),
        TargetForm::Symbol(SymbolId::new("kotlin:demo.Target"))
    );
    assert_eq!(
        classify_target("jvm:sha256:1:2"),
        TargetForm::Symbol(SymbolId::new("jvm:sha256:1:2"))
    );
    assert_eq!(
        classify_target("Main.kt:1:2"),
        TargetForm::Location(Location {
            path: WorkspacePath::new("Main.kt"),
            position: TextPosition { line: 1, column: 2 },
        })
    );
    assert_eq!(classify_target("Target"), TargetForm::Name);
}

#[test]
fn targets_resolve_to_at_most_one_symbol() {
    let id = SymbolId::new("kotlin:a");
    assert_eq!(resolve_symbol_target(id.clone(), false, 0), TargetResolution::NoResult);
    assert_eq!(resolve_symbol_target(id.clone(), false, 1), TargetResolution::Symbol(id.clone()));
    assert_eq!(resolve_name_target(Vec::new()), TargetResolution::NoResult);
    assert_eq!(resolve_name_target(vec![id.clone()]), TargetResolution::Symbol(id.clone()));
    let two = vec![id.clone(), SymbolId::new("kotlin:b")];
    assert_eq!(resolve_name_target(two.clone()), TargetResolution::Ambiguous(two.clone()));
    assert_eq!(
        resolve_location_target(LocationResolution::Ambiguous { candidates: two.clone() }),
        TargetResolution::Ambiguous(two)
    );
    let unit = source_unit("sha256:old");
    assert!(is_location_stale(&[unit.clone()], &Fingerprint::new("sha256:new")));
    assert!(!is_location_stale(&[unit.clone()], &Fingerprint::new("sha256:old")));
    assert!(!is_location_stale(&[unit.clone(), unit], &Fingerprint::new("sha256:new")));
}

fn source_unit(content: &str) -> SourceUnit {
    SourceUnit {
        id: SourceUnitId::new("test"),
        component: ComponentId::new("test"),
        path: WorkspacePath::new("src/Main.kt"),
        language: Language::Kotlin,
        origin: SourceOrigin::Source,
        content: Fingerprint::new(content),
        context: Fingerprint::new("sha256:context"),
    }
}

#[test]
fn definitions_report_a_missing_record() {
    let id = SymbolId::new("kotlin:a");
    let (status, payload, problems) = definition_answer(TargetResolution::Symbol(id.clone()), None);
    assert_eq!(status, QueryStatus::NoResult);
    assert!(payload.is_none());
    assert_eq!(problems[0].code, "resolved_symbol_missing");
    let (status, payload, problems) =
        definition_answer(TargetResolution::Symbol(id), Some(test_symbol()));
    assert_eq!(status, QueryStatus::Success);
    assert_eq!(payload, Some(QueryPayload::Definition { symbol: test_symbol() }));
    assert!(problems.is_empty());
    let (_, _, problems) = definition_answer(TargetResolution::Ambiguous(Vec::new()), None);
    assert_eq!(problems[0].message, "location resolves to 0 symbols");
}

#[test]
fn empty_lists_are_no_result() {
    assert_eq!(
        query_result(QueryPayload::Refs { references: Vec::new() }).0,
        QueryStatus::NoResult
    );
    let payload = QueryPayload::Implementations { symbols: vec![test_symbol()] };
    assert_eq!(query_result(payload.clone()), (QueryStatus::Success, Some(payload), Vec::new()));
}

#[test]
fn references_are_sorted_and_listed_once() {
    let a = occurrence(OccurrenceKind::Reference, 4, 6);
    let b = occurrence(OccurrenceKind::Call, 4, 6);
    let c = occurrence(OccurrenceKind::Reference, 1, 2);
    assert_eq!(
        reference_list(vec![a.clone(), b.clone(), a.clone(), c.clone()]),
        vec![c, b, a]
    );
}

#[test]
fn constructors_belong_to_their_class() {
    let class = symbol("kotlin:Class", SymbolKind::Class, 0, 10);
    let mut owned = symbol("kotlin:Class#1", SymbolKind::Constructor, 20, 30);
    owned.owner = Some(SymbolId::new("kotlin:Class"));
    let primary = symbol("kotlin:Class#0", SymbolKind::Constructor, 0, 10);
    let other = symbol("kotlin:Other#0", SymbolKind::Constructor, 40, 50);
    let declarations = vec![class.clone(), owned, primary, other];
    assert_eq!(
        constructors_of(&class, &declarations),
        vec![SymbolId::new("kotlin:Class#1"), SymbolId::new("kotlin:Class#0")]
    );
    let function = symbol("kotlin:f", SymbolKind::Function, 0, 10);
    assert!(constructors_of(&function, &declarations).is_empty());
}

#[test]
fn implementations_are_listed_once_by_id() {
    let listed = distinct_implementations(vec![
        SymbolById { symbol: symbol("b", SymbolKind::Class, 0, 1) },
        SymbolById { symbol: symbol("a", SymbolKind::Class, 0, 2) },
        SymbolById { symbol: symbol("b", SymbolKind::Class, 5, 6) },
    ]);
    let ids: Vec<&str> = listed.iter().map(|item| item.symbol.id.as_str()).collect();
    assert_eq!(ids, vec!["a", "b"]);
    assert_eq!(listed[1].symbol.declaration.bytes.start, 0);
}

#[test]
fn the_first_typed_occurrence_answers() {
    let mut typed = occurrence(OccurrenceKind::Reference, 0, 3);
    typed.type_id = Some(TypeId::new("kotlin:Unit"));
    let ty = TypeRecord {
        id: TypeId::new("kotlin:Unit"),
        language: Language::Kotlin,
        display: "Unit".into(),
        backend_key: None,
        freshness: Freshness::Fresh,
        completeness: Completeness::Complete,
        provenance: provenance(),
    };
    let plain = occurrence(OccurrenceKind::Call, 0, 3);
    assert_eq!(
        type_answer(&[plain.clone(), typed.clone()], &[ty.clone()]),
        (
            QueryStatus::Success,
            Some(QueryPayload::TypeAt { occurrence: typed.clone(), ty })
        )
    );
    assert_eq!(type_answer(&[typed], &[]), (QueryStatus::NoResult, None));
    assert_eq!(type_answer(&[plain], &[]), (QueryStatus::NoResult, None));
}

#[test]
fn snippets_collapse_white_space() {
    assert_eq!(source_snippet("a  b\n\t c ", 0, 9), Some("a b c".to_owned()));
    assert_eq!(source_snippet("aé", 0, 2), None);
    assert_eq!(source_snippet("abc", 2, 1), None);
    assert_eq!(source_snippet("abc", 0, 4), None);
    assert_eq!(source_snippet("abc", 1, 1), Some(String::new()));
}

#[test]
fn generic_types_show_their_name() {
    let text = "val x: demo.List< Item > = y";
    assert_eq!(generic_type_context(text, 18, 22), Some("demo.List< Item >".to_owned()));
    assert_eq!(generic_type_context("Item", 0, 4), None);
    assert_eq!(generic_type_context("éß<T>", 5, 6), Some("éß<T>".to_owned()));
    assert_eq!(
        generic_type_between("ab<T>", &[false, true, false, false, false], 3, 4),
        Some("b<T>".to_owned())
    );
}

#[test]
fn the_widest_type_reference_is_the_context() {
    let narrow = occurrence(OccurrenceKind::TypeReference, 4, 8);
    let wide = occurrence(OccurrenceKind::TypeReference, 2, 10);
    let call = occurrence(OccurrenceKind::Call, 0, 20);
    let inner = ByteRange { start: 5, end: 6 };
    assert_eq!(context_range(&[narrow, wide, call], inner), ByteRange { start: 2, end: 10 });
    assert_eq!(context_range(&[], inner), inner);
}

#[test]
fn short_forms_name_the_place() {
    assert_eq!(short_location("Main.kt", Some((3, 14)), 40), "Main.kt:3:14");
    assert_eq!(short_location("Main.kt", None, 40), "Main.kt:byte:40");
    let mut record = test_symbol();
    assert_eq!(short_symbol(&record, "Main.kt:1:1", None), "class Controller Main.kt:1:1");
    record.qualified_name = Some("demo.Controller".into());
    record.kind = SymbolKind::TypeAlias;
    assert_eq!(
        short_symbol(&record, "Main.kt:1:1", Some("definition")),
        "definition typealias demo.Controller Main.kt:1:1"
    );
}

#[test]
fn positions_are_one_based_unicode_scalar_columns() {
    assert_eq!(
        byte_offset("a😀b\nnext", TextPosition { line: 1, column: 3 }).expect("offset"),
        5
    );
    assert_eq!(
        byte_offset("a😀b\nnext", TextPosition { line: 2, column: 1 }).expect("offset"),
        7
    );
}

#[test]
fn positions_outside_the_text_are_refused() {
    assert_eq!(
        byte_offset("ab", TextPosition { line: 0, column: 1 }),
        Err(LocationResolutionError::InvalidCoordinate)
    );
    assert_eq!(
        byte_offset("ab", TextPosition { line: 1, column: 9 }),
        Err(LocationResolutionError::OutOfRange)
    );
    let location = Location {
        path: WorkspacePath::new("src/Main.kt"),
        position: TextPosition { line: 1, column: 2 },
    };
    assert_eq!(
        locate(&[], &location, "ab"),
        Err(LocationResolutionError::UnknownPath("src/Main.kt".into()))
    );
    let unit = source_unit("sha256:a");
    assert_eq!(
        locate(&[unit.clone(), unit.clone()], &location, "ab"),
        Err(LocationResolutionError::AmbiguousPath("src/Main.kt".into()))
    );
    assert_eq!(locate(&[unit], &location, "ab"), Ok((SourceUnitId::new("test"), 1)));
}

#[test]
fn positions_and_offsets_are_inverse() {
    let text = "a😀b\n\nnext";
    for offset in [0usize, 1, 5, 6, 7, 8, 12] {
        let position = position_at(text, offset).expect("boundary");
        if offset < text.len() {
            assert_eq!(byte_offset(text, position), Ok(offset as u64));
        }
    }
    assert_eq!(position_at(text, 2), None);
}

#[test]
fn locations_resolve_to_what_stands_there() {
    let call = occurrence(OccurrenceKind::Call, 3, 6);
    assert_eq!(
        resolve_location(&[call], &[], 4),
        LocationResolution::Symbol(SymbolId::new("kotlin:target"))
    );
    assert_eq!(resolve_location(&[], &[], 4), LocationResolution::NoResult);
}

#[test]
fn text_documents_are_plain_utf8() {
    let path = WorkspacePath::new("a.txt");
    let document = document_from_bytes(path.clone(), b"abc".to_vec()).expect("document");
    assert_eq!(document.content, "abc");
    assert_eq!(
        document.fingerprint.as_str(),
        "sha256:ba7816bf8f01cfea414140de5dae2223b00361a396177a9cb410ff61f20015ad"
    );
    assert_eq!(
        document_from_bytes(path.clone(), vec![b'a', 0]),
        Err(TextDocumentSkip::Binary)
    );
    assert_eq!(
        document_from_bytes(path.clone(), vec![0xff]),
        Err(TextDocumentSkip::InvalidUtf8)
    );
    assert_eq!(
        document_from_bytes(path, vec![b'a'; 1_048_577]),
        Err(TextDocumentSkip::Oversized { bytes: 1_048_577 })
    );
}

#[test]
fn workspace_text_is_sorted_and_accounts_for_every_file() {
    let file = |path: &str, content: &[u8]| WorkspaceFile {
        path: WorkspacePath::new(path),
        content: content.to_vec(),
    };
    let inventory =
        collect_workspace_text(vec![file("b.txt", b"b"), file("a.bin", &[0]), file("a.txt", b"a")]);
    let paths: Vec<&str> =
        inventory.documents.iter().map(|document| document.path.as_str()).collect();
    assert_eq!(paths, vec!["a.txt", "b.txt"]);
    assert_eq!(inventory.skipped.len(), 1);
}

#[test]
fn lexical_terms_are_runs_of_letters_digits_and_underscores() {
    assert_eq!(
        lexical_terms("él_1 + x"),
        vec![("él_1".to_owned(), 0, 5), ("x".to_owned(), 8, 9)]
    );
    assert_eq!(
        terms_between("abc", &[true, false, true]),
        vec![("a".to_owned(), 0, 1), ("c".to_owned(), 2, 3)]
    );
    assert_eq!(snippet_at("one\n  two \nthree", 6, 9), "two");
}

#[test]
fn text_queries_hold_something() {
    assert!(check_text_query("  ").is_some());
    assert!(check_text_query("needle").is_none());
    assert_eq!(text_search_status(0), QueryStatus::NoResult);
    assert_eq!(text_search_status(1), QueryStatus::Success);
}

#[test]
fn symbol_lookups_widen_until_something_is_found() {
    assert_eq!(next_lookup(SymbolLookup::Named, 1), None);
    assert!(next_lookup(SymbolLookup::Named, 0).is_some());
    assert_eq!(next_lookup(SymbolLookup::Matching, 0), None);
    let response = symbols_response(vec![test_symbol()]);
    assert_eq!(response.status, QueryStatus::Success);
    assert_eq!(symbols_response(Vec::new()).status, QueryStatus::NoResult);
}

fn inputs() -> CheckpointInputs {
    CheckpointInputs {
        workspace: WorkspaceId::new("w"),
        manifest: Fingerprint::new("m"),
        configuration_inputs: Fingerprint::new("c"),
        source_inputs: Fingerprint::new("s"),
        artifact_catalog: Fingerprint::new("a"),
    }
}

fn observation(current: &str) -> StatusObservation {
    StatusObservation {
        workspace: WorkspacePath::new("."),
        configuration: EffectiveConfiguration::default(),
        configuration_inputs: Vec::new(),
        affected_components: Vec::new(),
        sources: vec![SourceObservation {
            origin: SourceOrigin::Source,
            content: Fingerprint::new("x"),
            current: Some(Fingerprint::new(current)),
        }],
        checkpoint: Some(WorkspaceCheckpoint { committed: true, inputs: inputs() }),
        current: inputs(),
        blobs: vec![
            BlobObservation::Opened(Ok(true)),
            BlobObservation::Opened(Err(ArtifactBlobCacheError::InvalidHeader)),
        ],
        provenances: vec![provenance(), provenance()],
    }
}

#[test]
fn status_is_fresh_only_where_everything_is_verified() {
    let response = status(observation("x"));
    assert_eq!(response.metadata.freshness, Freshness::Fresh);
    assert_eq!(response.metadata.provenance, vec![provenance()]);
    let response = status(observation("y"));
    assert_eq!(response.metadata.freshness, Freshness::Stale);
    let mut unknown = observation("x");
    unknown.checkpoint = None;
    assert_ne!(status(unknown).metadata.freshness, Freshness::Fresh);
    assert_eq!(
        count_blobs(&observation("x").blobs),
        ArtifactCoverage { cataloged: 2, cached: 1, missing: 0, invalid: 1 }
    );
    let mut other = provenance();
    other.backend = "a".into();
    assert_eq!(
        sort_provenances(vec![provenance(), other.clone(), provenance()]),
        vec![other, provenance()]
    );
}

#[test]
fn the_strict_policy_holds_stale_answers_back() {
    let source = |current: &str| SourceObservation {
        origin: SourceOrigin::Source,
        content: Fingerprint::new("x"),
        current: Some(Fingerprint::new(current)),
    };
    let problem = freshness_problem(
        FreshnessStrategy::FreshOnly,
        &[],
        &EffectiveInput::NoManifest,
        &[source("y")],
    );
    assert!(problem.expect("problem").retryable);
    assert!(freshness_problem(
        FreshnessStrategy::AllowStale,
        &[],
        &EffectiveInput::NoManifest,
        &[source("y")],
    )
    .is_none());
    let changed = InputObservation {
        path: WorkspacePath::new("pom.xml"),
        persisted: Fingerprint::new("a"),
        current: None,
    };
    assert!(freshness_problem(
        FreshnessStrategy::FreshOnly,
        &[changed],
        &EffectiveInput::NoManifest,
        &[],
    )
    .is_some());
    assert!(freshness_problem(
        FreshnessStrategy::FreshOnly,
        &[],
        &EffectiveInput::NoManifest,
        &[source("x")],
    )
    .is_none());
    let payload = QueryPayload::Definition { symbol: test_symbol() };
    assert_eq!(payload_kind(&payload), "definition");
    assert_eq!(payload_owners(&payload), vec![SourceUnitId::new("test")]);
}

#[test]
fn responses_keep_an_explicit_schema_and_metadata() {
    let response = QueryResponse::ok(
        QueryPayload::Status(StatusResult {
            workspace: WorkspacePath::new("."),
            configuration_schema_version: 1,
            freshness_strategy: FreshnessStrategy::FreshOnly,
            manifest: Freshness::Fresh,
            source_units: IndexCounts { fresh: 2, stale: 0, unknown: 0, unsupported: 0 },
            configuration_inputs: ConfigurationInputCounts::default(),
            dependency_blobs: ArtifactCoverage::default(),
            affected_components: Vec::new(),
            workers_running: Vec::new(),
        }),
        ResultMetadata {
            freshness: Freshness::Fresh,
            completeness: Completeness::Complete,
            precision: Precision::Exact,
            index_format_version: INDEX_FORMAT_VERSION,
            source_snapshot: None,
            provenance: Vec::new(),
        },
    );

    assert_eq!(response.schema_version, CANONICAL_SCHEMA_VERSION);
    assert_eq!(response.status, QueryStatus::Success);
    assert_eq!(response.metadata.freshness, Freshness::Fresh);
}

fn layer(path: &str, schema: Option<u32>, strategy: Option<FreshnessStrategy>) -> ConfigurationFile {
    ConfigurationFile {
        path: path.to_owned(),
        content: LayerContent::Layer(ConfigurationLayer {
            schema_version: schema,
            freshness_strategy: strategy,
            maven: None,
        }),
    }
}

#[test]
fn defaults_to_fresh_only_without_files() {
    let loaded = load_configuration(&None, &None).unwrap();
    assert_eq!(loaded.effective, EffectiveConfiguration::default());
    assert_eq!(loaded.sources, ConfigurationSources::default());
}

#[test]
fn workspace_overrides_global_field_by_field() {
    let global = layer("global.toml", Some(1), Some(FreshnessStrategy::AllowStale));
    let workspace = layer(".kide/config.toml", Some(1), Some(FreshnessStrategy::FreshOnly));
    let loaded = load_configuration(&Some(global), &Some(workspace)).unwrap();
    assert_eq!(loaded.effective.freshness_strategy, FreshnessStrategy::FreshOnly);
    assert_eq!(loaded.sources.global, Some("global.toml".to_owned()));
    assert_eq!(loaded.sources.workspace, Some(".kide/config.toml".to_owned()));
    let kept = load_configuration(
        &Some(layer("global.toml", None, Some(FreshnessStrategy::AllowStale))),
        &Some(layer(".kide/config.toml", Some(1), None)),
    )
    .unwrap();
    assert_eq!(kept.effective.freshness_strategy, FreshnessStrategy::AllowStale);
}

#[test]
fn rejects_unknown_keys_invalid_values_and_newer_schema() {
    let malformed = ConfigurationFile {
        path: "config.toml".to_owned(),
        content: LayerContent::Malformed("unknown field `surprise`".to_owned()),
    };
    assert!(matches!(
        load_configuration(&Some(malformed), &None),
        Err(ConfigurationError::Parse { .. })
    ));
    let unreadable = ConfigurationFile {
        path: "config.toml".to_owned(),
        content: LayerContent::Unreadable("denied".to_owned()),
    };
    assert!(matches!(
        load_configuration(&None, &Some(unreadable)),
        Err(ConfigurationError::Read { .. })
    ));
    assert!(matches!(
        load_configuration(&Some(layer("config.toml", Some(2), None)), &None),
        Err(ConfigurationError::UnsupportedSchema { found: 2, .. })
    ));
}

#[test]
fn initialization_writes_the_safe_template_once() {
    let files = initialize_workspace_configuration(false).unwrap();
    assert!(files.iter().any(|file| file.path == ".kide/config.toml"));
    let ignored = files.iter().find(|file| file.path == ".kide/.gitignore").expect("ignore file");
    assert_eq!(ignored.content, WORKSPACE_GITIGNORE_TEMPLATE);
    assert!(matches!(
        initialize_workspace_configuration(true),
        Err(ConfigurationError::AlreadyInitialized(existing)) if existing == ".kide/config.toml"
    ));
}

#[test]
fn unchanged_files_keep_their_fingerprint() {
    assert_eq!(source_key("src\\Main.kt"), "src/Main.kt");
    let stamp = stamp_of("src\\Main.kt", 3, 7).expect("stamp");
    let mut cached = OrderedMap::new();
    assert_eq!(known_content(&stamp, &cached), None);
    cached.insert(
        "src/Main.kt".to_owned(),
        SourceFileMetadata {
            path: WorkspacePath::new("src/Main.kt"),
            byte_size: 3,
            modified_nanos: 7,
            content: Fingerprint::new("sha256:kept"),
        },
    );
    assert_eq!(known_content(&stamp, &cached), Some(Fingerprint::new("sha256:kept")));
    let later = stamp_of("src/Main.kt", 3, 8).expect("stamp");
    assert_eq!(
        observe_source_file(later, &cached, b"abc").content.as_str(),
        "sha256:ba7816bf8f01cfea414140de5dae2223b00361a396177a9cb410ff61f20015ad"
    );
    assert!(stamp_of("a", u64::MAX, 0).is_none());
    assert!(stamp_of("a", 0, u128::MAX).is_none());
}

#[test]
fn selector_records_name_a_navigation_target() {
    let record = SelectorRecord { symbol: test_symbol(), metadata: ResultMetadata::empty() };
    assert_eq!(
        target_from_symbols(vec![record.symbol.id.clone()]).unwrap(),
        "kotlin:controller"
    );
}

fn maven_layer(path: &str, best_effort_dependencies: Option<bool>) -> Option<ConfigurationFile> {
    Some(ConfigurationFile {
        path: path.to_owned(),
        content: LayerContent::Layer(ConfigurationLayer {
            schema_version: Some(1),
            freshness_strategy: None,
            maven: Some(MavenLayer { best_effort_dependencies }),
        }),
    })
}

#[test]
fn unavailable_dependencies_are_tolerated_unless_a_file_says_otherwise() {
    let loaded = |global: Option<ConfigurationFile>, workspace: Option<ConfigurationFile>| {
        load_configuration(&global, &workspace).unwrap().effective.maven.best_effort_dependencies
    };
    assert!(loaded(None, None));
    assert!(loaded(Some(layer("global.toml", Some(1), None)), maven_layer("w.toml", None)));
    assert!(!loaded(None, maven_layer("w.toml", Some(false))));
    assert!(!loaded(maven_layer("global.toml", Some(false)), maven_layer("w.toml", None)));
    assert!(loaded(maven_layer("global.toml", Some(false)), maven_layer("w.toml", Some(true))));
}

#[test]
fn workspace_files_lie_below_the_root_and_are_readable() {
    let found = |path: &str, content: Result<Vec<u8>, String>| ObservedFile {
        path: path.to_owned(),
        content,
    };
    assert_eq!(workspace_path("/work", "/work/src/A.kt"), Ok(WorkspacePath::new("src/A.kt")));
    assert_eq!(
        workspace_files("/work", vec![found("/work/b", Ok(vec![1])), found("/work/a", Ok(vec![]))]),
        Ok(vec![
            WorkspaceFile { path: WorkspacePath::new("b"), content: vec![1] },
            WorkspaceFile { path: WorkspacePath::new("a"), content: Vec::new() },
        ])
    );
    let outside = workspace_files(
        "/work",
        vec![found("/workshop/a", Ok(Vec::new())), found("/work/b", Err("denied".to_owned()))],
    )
    .unwrap_err();
    assert_eq!(
        outside,
        DiscoveryError::OutsideWorkspace { path: "/workshop/a".to_owned(), root: "/work".to_owned() }
    );
    assert_eq!(outside.message(), "/workshop/a is outside the workspace /work");
    let unreadable = workspace_files("/work", vec![found("/work/b", Err("denied".to_owned()))])
        .unwrap_err();
    assert_eq!(
        unreadable,
        DiscoveryError::Io { path: "/work/b".to_owned(), source: "denied".to_owned() }
    );
    assert_eq!(unreadable.message(), "cannot inspect /work/b: denied");
}

#[test]
fn refused_configurations_say_why() {
    let refused = |error: ConfigurationError| error.message();
    let path = || ".kide/config.toml".to_owned();
    assert_eq!(
        refused(ConfigurationError::Read { path: path(), source: "denied".to_owned() }),
        "failed to read KIDE configuration `.kide/config.toml`: denied"
    );
    assert_eq!(
        refused(ConfigurationError::Parse { path: path(), source: "bad key".to_owned() }),
        "failed to parse KIDE configuration `.kide/config.toml`: bad key"
    );
    assert_eq!(
        refused(ConfigurationError::UnsupportedSchema { path: path(), found: 2, supported: 1 }),
        "KIDE configuration `.kide/config.toml` uses unsupported schema version 2; supported version is 1"
    );
    assert_eq!(
        refused(ConfigurationError::AlreadyInitialized(path())),
        "KIDE configuration already exists at `.kide/config.toml`"
    );
}
