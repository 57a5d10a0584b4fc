use std::mem::size_of;

use kide_core::canonical::{
    BackendKey, ByteRange, Completeness, ComponentId, Fingerprint, Freshness, Language, Provenance,
    SourceOrigin, SourceRange, SourceUnit, SourceUnitId, SymbolId, SymbolKind, SymbolRecord,
    WorkspacePath,
};
use kide_core::framework_query::{
    validate_code, CandidateDisposition, FrameworkAssumption, FrameworkBoundary,
    FrameworkCandidate, FrameworkEvidence, FrameworkEvidenceTarget, FrameworkQueryResult,
    FrameworkQueryResultError, FrameworkQueryState,
};
use kide_core::protocol::{
    ensure_compatible_protocol_version, AnalysisBatchResponse, AnalyzeBatchRequest,
    FileAnalysisSnapshot, HandshakeRequest, HandshakeResponse, ProjectManifestRequest,
    ProjectManifestResponse, WorkerEnvelope, WorkerError, WorkerErrorCode, WorkerIdentity,
    WorkerMessage, WORKER_PROTOCOL_VERSION,
};
use kide_core::semantic_capability::{
    check_handshake, plan_semantic_capability, semantic_query_envelope, take_semantic_response,
    validate_arguments, validate_budget, validate_semantic_capability_response,
    DiscoveredWorker, SemanticCapabilityError, SemanticCapabilityPlan, SemanticQueryArgument, SemanticQueryArgumentValue,
    SemanticQueryBudget, SemanticQueryCapability, SemanticQueryParameter,
    SemanticQueryParameterType, SemanticQueryRequest, SemanticQueryResponse,
    SemanticQueryResponseState, SemanticQueryResultKind, MAX_CAPABILITY_CANDIDATES,
};
use kide_core::worker_framing::{decode, encode, next_step, read_frame, write_frame, FrameError, PrefixStep};

#[test]
fn message_size_is_bounded_by_the_largest_non_delta_batch_payload() {
    let largest_non_delta_payload = [
        size_of::<HandshakeRequest>(),
        size_of::<HandshakeResponse>(),
        size_of::<ProjectManifestRequest>(),
        size_of::<ProjectManifestResponse>(),
        size_of::<AnalyzeBatchRequest>(),
        size_of::<AnalysisBatchResponse>(),
        size_of::<WorkerError>(),
    ]
    .into_iter()
    .max()
    .expect("payload sizes are present");

    assert!(size_of::<WorkerMessage>() <= largest_non_delta_payload);
}

#[test]
fn incompatible_version_is_a_structured_non_retryable_error() {
    let error = ensure_compatible_protocol_version(WORKER_PROTOCOL_VERSION + 1)
        .expect_err("future protocol must be rejected");

    assert_eq!(error.code, WorkerErrorCode::IncompatibleProtocolVersion);
    assert!(!error.retryable);
    assert_eq!(error.received_protocol_version, Some(2));
}

#[test]
fn envelopes_carry_the_current_protocol_version() {
    let request = || {
        WorkerMessage::HandshakeRequest(HandshakeRequest { core_version: "0.1.0".to_owned() })
    };
    let mut envelope = WorkerEnvelope::new("r-1", request());
    assert_eq!(envelope.request_id, "r-1");
    assert_eq!(envelope.protocol_version, WORKER_PROTOCOL_VERSION);
    assert!(envelope.validate_protocol_version().is_ok());
    envelope.protocol_version = 9;
    assert!(envelope.validate_protocol_version().is_err());
}

#[test]
fn frames_round_trip_and_are_read_in_order() {
    let long = vec![7u8; 300];
    let frame = encode(&long);
    assert_eq!(&frame[..2], &[0xac, 0x02]);
    assert_eq!(decode(&frame), Ok(long.as_slice()));
    let mut stream = Vec::new();
    write_frame(&mut stream, b"one");
    write_frame(&mut stream, b"");
    let first = read_frame(&stream).expect("frame").expect("present");
    assert_eq!(first.payload, b"one");
    let second = read_frame(&stream[first.consumed..]).expect("frame").expect("present");
    assert_eq!(second.payload, b"");
    assert_eq!(read_frame(&stream[first.consumed + second.consumed..]), Ok(None));
}

#[test]
fn broken_frames_are_refused() {
    assert_eq!(decode(&[3, 1]), Err(FrameError::LengthMismatch));
    assert_eq!(decode(&[0x80; 11]), Err(FrameError::InvalidLength));
    assert_eq!(read_frame(&[5, 1]), Err(FrameError::UnexpectedEnd));
    assert_eq!(next_step(&[0x80]), PrefixStep::Continue);
    assert_eq!(next_step(&[0x80, 0x01]), PrefixStep::Payload(128));
    assert_eq!(next_step(&[0x80; 10]), PrefixStep::Invalid);
}

fn capability() -> SemanticQueryCapability {
    SemanticQueryCapability {
        name: "types.assignable".to_owned(),
        version: 1,
        parameters: vec![SemanticQueryParameter {
            name: "target".to_owned(),
            ty: SemanticQueryParameterType::SymbolId,
            required: true,
        }],
        result: SemanticQueryResultKind::CandidateSymbols,
    }
}

fn target(value: SemanticQueryArgumentValue) -> SemanticQueryArgument {
    SemanticQueryArgument { name: "target".to_owned(), value }
}

#[test]
fn typed_arguments_and_core_budget_caps_are_enforced_before_launch() {
    let capability = capability();
    assert!(matches!(
        validate_arguments(
            &capability,
            &[target(SemanticQueryArgumentValue::String("not-an-id".to_owned()))]
        ),
        Err(SemanticCapabilityError::InvalidArguments(_))
    ));
    assert_eq!(
        validate_arguments(
            &capability,
            &[target(SemanticQueryArgumentValue::SymbolId(SymbolId::new("target")))]
        )
        .expect("typed argument")
        .len(),
        1
    );
    assert!(matches!(
        validate_budget(SemanticQueryBudget {
            max_candidates: MAX_CAPABILITY_CANDIDATES + 1,
            max_nodes: 1,
            max_bytes: 1,
            deadline_millis: 1,
        }),
        Err(SemanticCapabilityError::InvalidBudget(field)) if field == "max_candidates"
    ));
}

fn budget() -> SemanticQueryBudget {
    SemanticQueryBudget { max_candidates: 1, max_nodes: 10, max_bytes: 4096, deadline_millis: 1000 }
}

#[test]
fn capabilities_are_planned_for_the_worker_that_has_them() {
    let worker = DiscoveredWorker {
        identity: WorkerIdentity { backend: "fixture".into(), backend_version: "1".into() },
        semantic_query_capabilities: vec![capability()],
    };
    let argument = target(SemanticQueryArgumentValue::SymbolId(SymbolId::new("t")));
    let plan = plan_semantic_capability(
        &worker,
        "types.assignable",
        1,
        &[argument.clone()],
        &[SymbolId::new("a")],
        &[],
        budget(),
    )
    .expect("plans");
    assert_eq!(plan.worker, worker.identity);
    assert_eq!(plan.request.arguments, vec![argument.clone()]);
    assert!(check_handshake(&plan, &worker.identity, &worker.semantic_query_capabilities).is_ok());
    assert!(check_handshake(&plan, &worker.identity, &[]).is_err());
    let envelope = semantic_query_envelope(&plan, "q-1");
    assert_eq!(envelope.request_id, "q-1");
    assert_eq!(
        envelope.message,
        WorkerMessage::SemanticQueryRequest(Box::new(plan.request.clone()))
    );
    assert!(matches!(
        plan_semantic_capability(&worker, "types.assignable", 2, &[argument], &[], &[], budget()),
        Err(SemanticCapabilityError::Unavailable { version: 2, .. })
    ));
    assert!(matches!(
        plan_semantic_capability(&worker, "types.assignable", 1, &[], &[], &[], budget()),
        Err(SemanticCapabilityError::InvalidArguments(_))
    ));
}

fn empty_snapshot(id: SourceUnitId, provenance: Provenance) -> FileAnalysisSnapshot {
    FileAnalysisSnapshot {
        source_unit: SourceUnit {
            id,
            component: ComponentId::new("fixture:main"),
            path: WorkspacePath::new("fixture.kt"),
            language: Language::Kotlin,
            origin: SourceOrigin::Source,
            content: Fingerprint::new("sha256:content"),
            context: Fingerprint::new("sha256:context"),
        },
        structural_fingerprint: None,
        public_api_fingerprint: None,
        symbols: Vec::new(),
        occurrences: Vec::new(),
        references: Vec::new(),
        calls: Vec::new(),
        hierarchy: Vec::new(),
        types: Vec::new(),
        diagnostics: Vec::new(),
        completeness: Completeness::Partial,
        provenance,
    }
}

#[test]
fn normalized_facts_stay_inside_source_bounds_and_cannot_overclaim_completeness() {
    let capability = SemanticQueryCapability {
        name: "flow.cfg".to_owned(),
        version: 1,
        parameters: Vec::new(),
        result: SemanticQueryResultKind::NormalizedFacts,
    };
    let identity =
        WorkerIdentity { backend: "fixture".to_owned(), backend_version: "1.0.0".to_owned() };
    let source = SourceUnitId::new("fixture:allowed.kt");
    let plan = SemanticCapabilityPlan {
        worker: identity.clone(),
        capability,
        request: SemanticQueryRequest {
            capability_name: "flow.cfg".to_owned(),
            capability_version: 1,
            arguments: Vec::new(),
            candidate_symbols: Vec::new(),
            candidate_source_units: vec![source.clone()],
            budget: budget(),
        },
    };
    let provenance = Provenance {
        backend: identity.backend,
        backend_version: identity.backend_version,
        protocol_version: WORKER_PROTOCOL_VERSION,
        analysis_options: Fingerprint::new("sha256:flow"),
    };
    let response = SemanticQueryResponse {
        capability_name: "flow.cfg".to_owned(),
        capability_version: 1,
        state: SemanticQueryResponseState::Complete,
        candidate_symbols: Vec::new(),
        snapshots: vec![empty_snapshot(source, provenance.clone())],
        provenance: provenance.clone(),
        visited_nodes: 1,
        produced_bytes: 1,
    };
    assert_eq!(
        take_semantic_response(WorkerMessage::SemanticQueryResponse(Box::new(response.clone()))),
        Ok(response.clone())
    );
    let foreign = || WorkerMessage::SemanticQueryRequest(Box::new(plan.request.clone()));
    assert_eq!(
        take_semantic_response(foreign()),
        Err(SemanticCapabilityError::InvalidResponse(format!(
            "expected semantic_query_response, received {:?}",
            foreign()
        )))
    );
    assert_eq!(
        validate_semantic_capability_response(&plan, response.clone(), 1, 512)
            .expect("bounded partial facts")
            .state,
        SemanticQueryResponseState::Partial
    );
    let outside = SemanticQueryResponse {
        capability_name: "flow.cfg".to_owned(),
        capability_version: 1,
        state: SemanticQueryResponseState::Complete,
        candidate_symbols: Vec::new(),
        snapshots: vec![empty_snapshot(
            SourceUnitId::new("fixture:outside.kt"),
            provenance.clone(),
        )],
        provenance,
        visited_nodes: 1,
        produced_bytes: 1,
    };
    assert!(matches!(
        validate_semantic_capability_response(&plan, outside, 1, 512),
        Err(SemanticCapabilityError::InvalidResponse(_))
    ));
    assert!(matches!(
        validate_semantic_capability_response(&plan, response.clone(), 2000, 512),
        Err(SemanticCapabilityError::BudgetExceeded(_))
    ));
    assert!(matches!(
        validate_semantic_capability_response(&plan, response, 1, 5000),
        Err(SemanticCapabilityError::BudgetExceeded(_))
    ));
}

fn range(start: u64, end: u64) -> SourceRange {
    SourceRange {
        source_unit: SourceUnitId::new("fixture:src/App.kt"),
        bytes: ByteRange { start, end },
    }
}

fn provenance() -> Provenance {
    Provenance {
        backend: "fixture".to_owned(),
        backend_version: "1.0.0".to_owned(),
        protocol_version: WORKER_PROTOCOL_VERSION,
        analysis_options: Fingerprint::new("sha256:fixture"),
    }
}

fn evidence(code: &str, start: u64, end: u64) -> FrameworkEvidence {
    FrameworkEvidence {
        code: code.to_owned(),
        target: FrameworkEvidenceTarget::Source { range: range(start, end) },
        provenance: provenance(),
    }
}

fn candidate(id: &str, disposition: CandidateDisposition) -> FrameworkCandidate {
    FrameworkCandidate {
        symbol: SymbolRecord {
            id: SymbolId::new(id),
            backend_key: BackendKey {
                backend: "fixture".to_owned(),
                schema_version: 1,
                value: id.to_owned(),
            },
            language: Language::Kotlin,
            kind: SymbolKind::Class,
            name: id.to_owned(),
            qualified_name: Some(id.to_owned()),
            signature: None,
            component: ComponentId::new("fixture:main"),
            declaration: range(0, 40),
            name_range: range(6, 12),
            owner: None,
            modifiers: Vec::new(),
            applied_symbols: Vec::new(),
            freshness: Freshness::Fresh,
            completeness: Completeness::Complete,
            provenance: provenance(),
        },
        disposition,
        reasons: vec!["spring.beans.type-compatible".to_owned()],
        evidence: vec![evidence("spring.beans.declaration", 0, 40)],
        assumptions: Vec::new(),
    }
}

fn conditional_result(reversed: bool) -> FrameworkQueryResult {
    let mut second = candidate("bean:b", CandidateDisposition::Unresolved);
    second.assumptions.push(FrameworkAssumption {
        code: "spring.environment.property".to_owned(),
        value: Some("feature.books=true".to_owned()),
        evidence: vec![evidence("spring.condition.declaration", 8, 30)],
    });
    let mut candidates = vec![
        candidate("bean:c", CandidateDisposition::Excluded),
        second,
        candidate("bean:a", CandidateDisposition::Selected),
    ];
    if reversed {
        candidates.reverse();
    }
    FrameworkQueryResult {
        state: FrameworkQueryState::Partial,
        candidates,
        boundaries: vec![FrameworkBoundary {
            code: "spring.environment.unknown-property".to_owned(),
            message: "feature.books is not fixed by the query environment".to_owned(),
            evidence: vec![evidence("spring.condition.declaration", 8, 30)],
        }],
    }
}

#[test]
fn conditional_candidate_results_are_deterministic_and_explainable() {
    let normalized =
        conditional_result(false).normalize().expect("normalizes explainable result");

    assert_eq!(normalized.candidates[0].symbol.id.as_str(), "bean:a");
    assert_eq!(normalized.candidates[1].symbol.id.as_str(), "bean:b");
    assert_eq!(normalized.candidates[2].disposition, CandidateDisposition::Excluded);
    assert_eq!(normalized.state, FrameworkQueryState::Partial);
    assert_eq!(
        normalized.candidates[1].assumptions[0].code,
        "spring.environment.property"
    );
    let again = conditional_result(true).normalize().expect("normalizes");
    assert_eq!(again, normalized);
    assert_eq!(again.normalize(), Ok(normalized));
}

#[test]
fn a_result_is_accepted_in_every_order_of_its_lists() {
    let build = |reversed: bool| {
        let mut only = candidate("bean:a", CandidateDisposition::Selected);
        only.reasons.push("spring.beans.primary".to_owned());
        only.evidence.push(evidence("spring.beans.annotation", 41, 60));
        only.assumptions.push(FrameworkAssumption {
            code: "spring.environment.profile".to_owned(),
            value: None,
            evidence: vec![
                evidence("spring.profile.declaration", 2, 4),
                evidence("spring.profile.default", 1, 2),
            ],
        });
        let mut boundaries = vec![
            FrameworkBoundary {
                code: "spring.environment.unknown-property".to_owned(),
                message: "first".to_owned(),
                evidence: Vec::new(),
            },
            FrameworkBoundary {
                code: "spring.environment.unknown-profile".to_owned(),
                message: "second".to_owned(),
                evidence: Vec::new(),
            },
        ];
        if reversed {
            only.reasons.reverse();
            only.evidence.reverse();
            only.assumptions[0].evidence.reverse();
            boundaries.reverse();
        }
        FrameworkQueryResult {
            state: FrameworkQueryState::Partial,
            candidates: vec![only],
            boundaries,
        }
    };
    let normalized = build(false).normalize().expect("is accepted");
    assert_eq!(build(true).normalize(), Ok(normalized.clone()));
    assert_eq!(
        normalized.candidates[0].reasons,
        vec!["spring.beans.primary".to_owned(), "spring.beans.type-compatible".to_owned()]
    );
    assert_eq!(normalized.boundaries[0].message, "second");
}

#[test]
fn rejects_false_complete_and_unnamed_unsupported_results() {
    assert_eq!(
        FrameworkQueryResult {
            state: FrameworkQueryState::Complete,
            candidates: vec![candidate("bean:a", CandidateDisposition::Unresolved)],
            boundaries: Vec::new(),
        }
        .normalize(),
        Err(FrameworkQueryResultError::InvalidCompleteState)
    );
    assert_eq!(
        FrameworkQueryResult {
            state: FrameworkQueryState::Unsupported,
            candidates: Vec::new(),
            boundaries: Vec::new(),
        }
        .normalize(),
        Err(FrameworkQueryResultError::InvalidUnsupportedState)
    );
}

#[test]
fn framework_results_are_refused_without_reasons_or_evidence() {
    let complete = |candidates: Vec<FrameworkCandidate>| FrameworkQueryResult {
        state: FrameworkQueryState::Complete,
        candidates,
        boundaries: Vec::new(),
    };
    let selected = || candidate("bean:a", CandidateDisposition::Selected);
    assert!(complete(vec![selected()]).normalize().is_ok());
    assert!(matches!(
        complete(vec![selected(), selected()]).normalize(),
        Err(FrameworkQueryResultError::DuplicateCandidate(_))
    ));
    let mut unreasoned = selected();
    unreasoned.reasons.clear();
    assert!(matches!(
        complete(vec![unreasoned]).normalize(),
        Err(FrameworkQueryResultError::MissingReasons(_))
    ));
    let mut unproven = selected();
    unproven.evidence.clear();
    assert!(matches!(
        complete(vec![unproven]).normalize(),
        Err(FrameworkQueryResultError::MissingEvidence(_))
    ));
    let partial = FrameworkQueryResult {
        state: FrameworkQueryState::Partial,
        candidates: vec![selected()],
        boundaries: Vec::new(),
    };
    assert_eq!(partial.normalize(), Err(FrameworkQueryResultError::MissingPartialBoundary));
    assert!(matches!(
        validate_code("spring"),
        Err(FrameworkQueryResultError::InvalidCode(_))
    ));
    assert!(validate_code("spring.beans").is_ok());
}

#[test]
fn refused_capabilities_say_why() {
    let refused = |error: SemanticCapabilityError| error.message();
    assert_eq!(
        refused(SemanticCapabilityError::Unavailable { name: "flow.cfg".to_owned(), version: 2 }),
        "worker does not advertise semantic capability `flow.cfg` version 2"
    );
    assert_eq!(
        refused(SemanticCapabilityError::InvalidArguments("unknown `x`".to_owned())),
        "semantic capability arguments do not match the advertised contract: unknown `x`"
    );
    assert_eq!(
        refused(SemanticCapabilityError::InvalidBudget("max_nodes".to_owned())),
        "semantic capability budget is invalid: max_nodes"
    );
    assert_eq!(
        refused(SemanticCapabilityError::InvalidResponse("late".to_owned())),
        "worker returned an unexpected semantic capability response: late"
    );
    assert_eq!(
        refused(SemanticCapabilityError::BudgetExceeded("node".to_owned())),
        "semantic capability response exceeded the node budget"
    );
}
