//! Conversion between the messages of the protocol and the messages that
//! workers exchange, for those that carry batches, dependency artifacts and
//! failures.

use vstd::prelude::*;

use crate::canonical::{ComponentId, Fingerprint, SymbolId, WorkspacePath};
use crate::dependency_identity::ResolvedDependencyIdentity;
use crate::orchestrator;
use crate::orchestrator::sha256_bytes;
use crate::protocol::{
    AnalysisBatchResponse, ArtifactAnalysisRequest, ArtifactAnalysisResponse, ArtifactCandidate,
    ArtifactDescriptor, ArtifactMaterializationRequest, ArtifactMaterializationResponse, FileAnalysisSnapshot,
    PhaseTiming, SymbolLocator, WorkerError, WorkerMetric,
};
use crate::text;
use crate::value_names;
use crate::worker_proto;
use crate::worker_proto_adapter;
use crate::worker_proto_adapter::{
    decode_file_analysis_snapshot, decode_provenance, decode_source_unit, file_analysis_snapshot,
    provenance, source_unit, AdapterError,
};

verus! {

/// Whether a worker's request for the facts of artifacts stands for another.
pub open spec fn represents_analysis_request(
    written: worker_proto::ArtifactAnalysisRequest,
    request: ArtifactAnalysisRequest,
) -> bool {
    &&& written.workspace_root@ == request.workspace_root@
    &&& written.max_artifacts == request.max_artifacts
    &&& written.cursor == request.cursor
}

/// Writes a request for the facts of artifacts.
pub fn artifact_analysis_request(request: &ArtifactAnalysisRequest) -> (result:
    worker_proto::ArtifactAnalysisRequest)
    ensures
        represents_analysis_request(result, *request),
{
    worker_proto::ArtifactAnalysisRequest {
        workspace_root: request.workspace_root.as_str().to_owned(),
        max_artifacts: request.max_artifacts,
        cursor: request.cursor.clone(),
    }
}

/// Reads a request for the facts of artifacts. A page without room is refused.
pub fn decode_artifact_analysis_request(written: &worker_proto::ArtifactAnalysisRequest) -> (result:
    Result<ArtifactAnalysisRequest, AdapterError>)
    ensures
        result is Ok <==> written.max_artifacts > 0,
        result matches Ok(request) ==> represents_analysis_request(*written, request),
        result matches Err(error) ==> error == AdapterError::Malformed,
{
    if written.max_artifacts == 0 {
        return Err(AdapterError::Malformed);
    }
    Ok(
        ArtifactAnalysisRequest {
            workspace_root: WorkspacePath::new(&written.workspace_root),
            max_artifacts: written.max_artifacts,
            cursor: written.cursor.clone(),
        },
    )
}

/// A request for a page with room that was written and read again asks for the
/// same.
pub proof fn law_analysis_request_round_trip(
    written: worker_proto::ArtifactAnalysisRequest,
    request: ArtifactAnalysisRequest,
    read: ArtifactAnalysisRequest,
)
    requires
        request.max_artifacts > 0,
        represents_analysis_request(written, request),
        represents_analysis_request(written, read),
    ensures
        written.max_artifacts > 0,
        read.workspace_root@ == request.workspace_root@,
        read.max_artifacts == request.max_artifacts,
        read.cursor == request.cursor,
{
}

/// Whether workers' snapshots stand for others, one by one.
pub open spec fn represents_snapshots(
    written: Seq<worker_proto::FileAnalysisSnapshot>,
    snapshots: Seq<FileAnalysisSnapshot>,
) -> bool {
    &&& written.len() == snapshots.len()
    &&& forall|i: int|
        0 <= i < written.len() ==> worker_proto_adapter::represents_snapshot(
            #[trigger] written[i],
            snapshots[i],
        )
}

/// Whether the edges of every snapshot lead to its occurrences.
pub open spec fn all_edges_are_listed(snapshots: Seq<FileAnalysisSnapshot>) -> bool {
    forall|i: int|
        0 <= i < snapshots.len() ==> worker_proto_adapter::edges_are_listed(
            #[trigger] snapshots[i],
        )
}

/// Whether every snapshot has few enough facts to be counted in 32 bits.
pub open spec fn are_countable(snapshots: Seq<FileAnalysisSnapshot>) -> bool {
    forall|i: int|
        0 <= i < snapshots.len() ==> worker_proto_adapter::fact_total(#[trigger] snapshots[i])
            < u32::MAX
}

fn written_snapshots(snapshots: &[FileAnalysisSnapshot]) -> (result: Result<
    Vec<worker_proto::FileAnalysisSnapshot>,
    AdapterError,
>)
    requires
        are_countable(snapshots@),
    ensures
        result is Ok <==> all_edges_are_listed(snapshots@),
        result matches Ok(written) ==> represents_snapshots(written@, snapshots@),
        result matches Err(error) ==> error == AdapterError::UnlistedOccurrence,
{
    let mut result: Vec<worker_proto::FileAnalysisSnapshot> = Vec::new();
    let mut i: usize = 0;
    while i < snapshots.len()
        invariant
            i <= snapshots@.len(),
            are_countable(snapshots@),
            represents_snapshots(result@, snapshots@.take(i as int)),
            all_edges_are_listed(snapshots@.take(i as int)),
        decreases snapshots@.len() - i,
    {
        let ghost kept = snapshots@[i as int];
        match file_analysis_snapshot(&snapshots[i]) {
            Ok(written) => {
                result.push(written);
            },
            Err(error) => {
                return Err(error);
            },
        }
        i = i + 1;
        assert(snapshots@.take(i as int) =~= snapshots@.take(i - 1).push(kept));
    }
    assert(snapshots@.take(i as int) =~= snapshots@);
    Ok(result)
}

/// Writes the facts of artifacts. An edge whose occurrence is not among those
/// of its snapshot is refused.
pub fn artifact_analysis_response(response: &ArtifactAnalysisResponse) -> (result: Result<
    worker_proto::ArtifactAnalysisResponse,
    AdapterError,
>)
    requires
        are_countable(response.snapshots@),
    ensures
        result is Ok <==> all_edges_are_listed(response.snapshots@),
        result matches Ok(written) ==> represents_snapshots(
            written.snapshots@,
            response.snapshots@,
        ) && written.next_cursor == response.next_cursor,
        result matches Err(error) ==> error == AdapterError::UnlistedOccurrence,
{
    match written_snapshots(response.snapshots.as_slice()) {
        Ok(snapshots) => Ok(
            worker_proto::ArtifactAnalysisResponse {
                snapshots,
                next_cursor: response.next_cursor.clone(),
            },
        ),
        Err(error) => Err(error),
    }
}

/// Whether every snapshot can be read.
pub open spec fn are_snapshots(written: Seq<worker_proto::FileAnalysisSnapshot>) -> bool {
    forall|i: int|
        0 <= i < written.len() ==> worker_proto_adapter::is_snapshot(#[trigger] written[i])
}

/// Whether the facts of every snapshot lie in its source unit.
pub open spec fn are_coherent(snapshots: Seq<FileAnalysisSnapshot>) -> bool {
    forall|i: int|
        0 <= i < snapshots.len() ==> worker_proto_adapter::is_coherent(#[trigger] snapshots[i])
}

fn read_snapshots(written: &[worker_proto::FileAnalysisSnapshot]) -> (result: Result<
    Vec<FileAnalysisSnapshot>,
    AdapterError,
>)
    ensures
        result is Ok <==> are_snapshots(written@),
        result matches Ok(snapshots) ==> represents_snapshots(written@, snapshots@)
            && are_coherent(snapshots@),
        result matches Err(error) ==> error == AdapterError::Malformed,
{
    let mut snapshots: Vec<FileAnalysisSnapshot> = Vec::new();
    let mut i: usize = 0;
    while i < written.len()
        invariant
            i <= written@.len(),
            represents_snapshots(written@.take(i as int), snapshots@),
            are_coherent(snapshots@),
            are_snapshots(written@.take(i as int)),
        decreases written@.len() - i,
    {
        let ghost kept = written@[i as int];
        match decode_file_analysis_snapshot(&written[i]) {
            Ok(snapshot) => {
                snapshots.push(snapshot);
            },
            Err(error) => {
                return Err(error);
            },
        }
        i = i + 1;
        assert(written@.take(i as int) =~= written@.take(i - 1).push(kept));
    }
    assert(written@.take(i as int) =~= written@);
    Ok(snapshots)
}

/// Reads the facts of artifacts.
pub fn decode_artifact_analysis_response(written: &worker_proto::ArtifactAnalysisResponse) -> (result:
    Result<ArtifactAnalysisResponse, AdapterError>)
    ensures
        result is Ok <==> are_snapshots(written.snapshots@),
        result matches Ok(response) ==> represents_snapshots(
            written.snapshots@,
            response.snapshots@,
        ) && are_coherent(response.snapshots@) && response.next_cursor == written.next_cursor,
        result matches Err(error) ==> error == AdapterError::Malformed,
{
    match read_snapshots(written.snapshots.as_slice()) {
        Ok(snapshots) => Ok(
            ArtifactAnalysisResponse { snapshots, next_cursor: written.next_cursor.clone() },
        ),
        Err(error) => Err(error),
    }
}

/// Whether two lists of snapshots say the same, one by one.
pub open spec fn same_snapshots(
    a: Seq<FileAnalysisSnapshot>,
    b: Seq<FileAnalysisSnapshot>,
) -> bool {
    &&& a.len() == b.len()
    &&& forall|i: int|
        0 <= i < a.len() ==> worker_proto_adapter::same_snapshot(#[trigger] a[i], b[i])
}

proof fn lemma_snapshots_round_trip(
    written: Seq<worker_proto::FileAnalysisSnapshot>,
    snapshots: Seq<FileAnalysisSnapshot>,
    read: Seq<FileAnalysisSnapshot>,
)
    requires
        are_coherent(snapshots),
        are_coherent(read),
        represents_snapshots(written, snapshots),
        represents_snapshots(written, read),
    ensures
        are_snapshots(written),
        same_snapshots(snapshots, read),
{
    assert forall|i: int| 0 <= i < written.len() implies worker_proto_adapter::is_snapshot(
        #[trigger] written[i],
    ) && worker_proto_adapter::same_snapshot(snapshots[i], read[i]) by {
        assert(worker_proto_adapter::is_coherent(snapshots[i]));
        assert(worker_proto_adapter::is_coherent(read[i]));
        worker_proto_adapter::law_snapshot_round_trip(written[i], snapshots[i], read[i]);
    }
    assert forall|i: int| 0 <= i < snapshots.len() implies worker_proto_adapter::same_snapshot(
        #[trigger] snapshots[i],
        read[i],
    ) by {
        let kept = written[i];
    }
}

/// Facts of artifacts that were written and read again say the same, if the
/// facts of every snapshot lie in its source unit.
pub proof fn law_analysis_response_round_trip(
    written: worker_proto::ArtifactAnalysisResponse,
    response: ArtifactAnalysisResponse,
    read: ArtifactAnalysisResponse,
)
    requires
        are_coherent(response.snapshots@),
        are_coherent(read.snapshots@),
        represents_snapshots(written.snapshots@, response.snapshots@),
        represents_snapshots(written.snapshots@, read.snapshots@),
        written.next_cursor == response.next_cursor,
        read.next_cursor == written.next_cursor,
    ensures
        are_snapshots(written.snapshots@),
        same_snapshots(response.snapshots@, read.snapshots@),
        read.next_cursor == response.next_cursor,
{
    lemma_snapshots_round_trip(written.snapshots@, response.snapshots@, read.snapshots@);
}

/// Whether a worker's provenance stands for another.
pub open spec fn represents_optional_provenance(
    written: Option<worker_proto::Provenance>,
    canonical: crate::canonical::Provenance,
) -> bool {
    written matches Some(written) && worker_proto_adapter::represents_provenance(
        written,
        canonical,
    )
}

/// Whether a worker's identity stands for another.
pub open spec fn represents_identity(
    written: worker_proto::ResolvedDependencyIdentity,
    identity: ResolvedDependencyIdentity,
) -> bool {
    &&& written.identity_version == identity.identity_version
    &&& written.ecosystem == identity.ecosystem
    &&& written.canonical_coordinate == identity.canonical_coordinate
    &&& written.resolved_version == identity.resolved_version
    &&& written.content@ == identity.content@
    &&& written.context@ == identity.context@
    &&& represents_optional_provenance(written.provenance, identity.provenance)
    &&& written.canonical_schema_version == identity.canonical_schema_version
    &&& written.blob_format_version == identity.blob_format_version
}

/// Whether workers' locators stand for others, one by one.
pub open spec fn represents_locators(
    written: Seq<worker_proto::SymbolLocator>,
    locators: Seq<SymbolLocator>,
) -> bool {
    &&& written.len() == locators.len()
    &&& forall|i: int|
        0 <= i < written.len() ==> (#[trigger] written[i]).qualified_name
            == locators[i].qualified_name && written[i].symbol_id@ == locators[i].symbol@
}

/// Whether a worker's descriptor stands for another.
pub open spec fn represents_descriptor(
    written: worker_proto::ArtifactDescriptor,
    descriptor: ArtifactDescriptor,
) -> bool {
    &&& written.source_unit matches Some(unit) && worker_proto_adapter::represents_unit(
        unit,
        descriptor.source_unit,
    )
    &&& represents_optional_provenance(written.provenance, descriptor.provenance)
    &&& match (written.resolved_identity, descriptor.resolved_identity) {
        (Some(written), Some(identity)) => represents_identity(written, identity),
        (None, None) => true,
        _ => false,
    }
    &&& represents_locators(written.symbol_locators@, descriptor.symbol_locators@)
}

/// Whether a worker's descriptor can be read: nothing is missing, and the
/// origin of its source unit is known.
pub open spec fn is_descriptor(written: worker_proto::ArtifactDescriptor) -> bool {
    &&& written.source_unit matches Some(unit) && worker_proto_adapter::is_origin(unit.origin@)
    &&& written.provenance is Some
    &&& written.resolved_identity matches Some(identity) ==> identity.provenance is Some
}

fn written_identity(identity: &ResolvedDependencyIdentity) -> (result:
    worker_proto::ResolvedDependencyIdentity)
    ensures
        represents_identity(result, *identity),
{
    worker_proto::ResolvedDependencyIdentity {
        identity_version: identity.identity_version,
        ecosystem: identity.ecosystem.clone(),
        canonical_coordinate: identity.canonical_coordinate.clone(),
        resolved_version: identity.resolved_version.clone(),
        content: identity.content.as_str().to_owned(),
        context: identity.context.as_str().to_owned(),
        provenance: Some(provenance(&identity.provenance)),
        canonical_schema_version: identity.canonical_schema_version,
        blob_format_version: identity.blob_format_version,
    }
}

fn read_identity(written: &worker_proto::ResolvedDependencyIdentity) -> (result: Option<
    ResolvedDependencyIdentity,
>)
    ensures
        result is Some <==> written.provenance is Some,
        result matches Some(identity) ==> represents_identity(*written, identity),
{
    match &written.provenance {
        Some(produced) => Some(
            ResolvedDependencyIdentity {
                identity_version: written.identity_version,
                ecosystem: written.ecosystem.clone(),
                canonical_coordinate: written.canonical_coordinate.clone(),
                resolved_version: written.resolved_version.clone(),
                content: Fingerprint::new(&written.content),
                context: Fingerprint::new(&written.context),
                provenance: decode_provenance(produced),
                canonical_schema_version: written.canonical_schema_version,
                blob_format_version: written.blob_format_version,
            },
        ),
        None => None,
    }
}

fn written_descriptor(descriptor: &ArtifactDescriptor) -> (result: worker_proto::ArtifactDescriptor)
    ensures
        represents_descriptor(result, *descriptor),
{
    let locators = descriptor.symbol_locators.as_slice();
    let mut symbol_locators: Vec<worker_proto::SymbolLocator> = Vec::new();
    let mut i: usize = 0;
    while i < locators.len()
        invariant
            i <= locators@.len(),
            represents_locators(symbol_locators@, locators@.take(i as int)),
        decreases locators@.len() - i,
    {
        let locator = &locators[i];
        symbol_locators.push(
            worker_proto::SymbolLocator {
                qualified_name: locator.qualified_name.clone(),
                symbol_id: locator.symbol.as_str().to_owned(),
            },
        );
        i = i + 1;
    }
    assert(locators@.take(i as int) =~= locators@);
    worker_proto::ArtifactDescriptor {
        source_unit: Some(source_unit(&descriptor.source_unit)),
        provenance: Some(provenance(&descriptor.provenance)),
        resolved_identity: match &descriptor.resolved_identity {
            Some(identity) => Some(written_identity(identity)),
            None => None,
        },
        symbol_locators,
    }
}

fn read_descriptor(written: &worker_proto::ArtifactDescriptor) -> (result: Option<
    ArtifactDescriptor,
>)
    ensures
        result is Some <==> is_descriptor(*written),
        result matches Some(descriptor) ==> represents_descriptor(*written, descriptor)
            && value_names::is_plain_language(descriptor.source_unit.language@),
{
    let unit = match &written.source_unit {
        Some(unit) => match decode_source_unit(unit) {
            Ok(unit) => unit,
            Err(_) => {
                return None;
            },
        },
        None => {
            return None;
        },
    };
    let produced = match &written.provenance {
        Some(produced) => decode_provenance(produced),
        None => {
            return None;
        },
    };
    let resolved_identity = match &written.resolved_identity {
        Some(identity) => match read_identity(identity) {
            Some(identity) => Some(identity),
            None => {
                return None;
            },
        },
        None => None,
    };
    let locators = written.symbol_locators.as_slice();
    let mut symbol_locators: Vec<SymbolLocator> = Vec::new();
    let mut i: usize = 0;
    while i < locators.len()
        invariant
            i <= locators@.len(),
            represents_locators(locators@.take(i as int), symbol_locators@),
        decreases locators@.len() - i,
    {
        let locator = &locators[i];
        symbol_locators.push(
            SymbolLocator {
                qualified_name: locator.qualified_name.clone(),
                symbol: SymbolId::new(&locator.symbol_id),
            },
        );
        i = i + 1;
    }
    assert(locators@.take(i as int) =~= locators@);
    Some(
        ArtifactDescriptor {
            source_unit: unit,
            provenance: produced,
            resolved_identity,
            symbol_locators,
        },
    )
}

/// Whether a worker's request to materialize stands for another.
pub open spec fn represents_materialization_request(
    written: worker_proto::ArtifactMaterializationRequest,
    request: ArtifactMaterializationRequest,
) -> bool {
    &&& written.workspace_root@ == request.workspace_root@
    &&& written.artifact matches Some(artifact) && represents_descriptor(artifact, request.artifact)
    &&& written.staging_directory == request.staging_directory
    &&& written.blob_format_version == request.blob_format_version
    &&& written.artifact_locator == request.artifact_locator
}

/// Writes a request to materialize an artifact.
pub fn materialization_request(request: &ArtifactMaterializationRequest) -> (result:
    worker_proto::ArtifactMaterializationRequest)
    ensures
        represents_materialization_request(result, *request),
{
    worker_proto::ArtifactMaterializationRequest {
        workspace_root: request.workspace_root.as_str().to_owned(),
        artifact: Some(written_descriptor(&request.artifact)),
        staging_directory: request.staging_directory.clone(),
        blob_format_version: request.blob_format_version,
        artifact_locator: request.artifact_locator.clone(),
    }
}

/// Reads a request to materialize an artifact.
pub fn decode_materialization_request(written: &worker_proto::ArtifactMaterializationRequest) -> (result:
    Result<ArtifactMaterializationRequest, AdapterError>)
    ensures
        result is Ok <==> (written.artifact matches Some(artifact) && is_descriptor(artifact)),
        result matches Ok(request) ==> represents_materialization_request(*written, request)
            && value_names::is_plain_language(request.artifact.source_unit.language@),
        result matches Err(error) ==> error == AdapterError::Malformed,
{
    match &written.artifact {
        Some(artifact) => match read_descriptor(artifact) {
            Some(artifact) => Ok(
                ArtifactMaterializationRequest {
                    workspace_root: WorkspacePath::new(&written.workspace_root),
                    artifact,
                    staging_directory: written.staging_directory.clone(),
                    blob_format_version: written.blob_format_version,
                    artifact_locator: written.artifact_locator.clone(),
                },
            ),
            None => Err(AdapterError::Malformed),
        },
        None => Err(AdapterError::Malformed),
    }
}

/// Whether two descriptors say the same.
pub open spec fn same_descriptor(a: ArtifactDescriptor, b: ArtifactDescriptor) -> bool {
    &&& worker_proto_adapter::same_unit(a.source_unit, b.source_unit)
    &&& a.provenance@ == b.provenance@
    &&& worker_proto_adapter::viewed(a.resolved_identity) == worker_proto_adapter::viewed(
        b.resolved_identity,
    )
    &&& a.symbol_locators@.len() == b.symbol_locators@.len()
    &&& forall|i: int|
        0 <= i < a.symbol_locators@.len() ==> (#[trigger] a.symbol_locators@[i]).qualified_name
            == b.symbol_locators@[i].qualified_name && a.symbol_locators@[i].symbol@
            == b.symbol_locators@[i].symbol@
}

/// A request to materialize an artifact that was written and read again asks
/// for the same.
pub proof fn law_materialization_request_round_trip(
    written: worker_proto::ArtifactMaterializationRequest,
    request: ArtifactMaterializationRequest,
    read: ArtifactMaterializationRequest,
)
    requires
        value_names::is_plain_language(request.artifact.source_unit.language@),
        value_names::is_plain_language(read.artifact.source_unit.language@),
        represents_materialization_request(written, request),
        represents_materialization_request(written, read),
    ensures
        written.artifact is Some && is_descriptor(written.artifact->Some_0),
        read.workspace_root@ == request.workspace_root@,
        same_descriptor(request.artifact, read.artifact),
        read.staging_directory == request.staging_directory,
        read.blob_format_version == request.blob_format_version,
        read.artifact_locator == request.artifact_locator,
{
    let artifact = written.artifact->Some_0;
    worker_proto_adapter::law_source_unit_round_trip(
        artifact.source_unit->Some_0,
        request.artifact.source_unit,
        read.artifact.source_unit,
    );
    match (request.artifact.resolved_identity, read.artifact.resolved_identity) {
        (Some(a), Some(b)) => {
            assert(a@ =~= b@);
        },
        _ => {},
    }
    assert forall|i: int| 0 <= i < request.artifact.symbol_locators@.len() implies (
    #[trigger] request.artifact.symbol_locators@[i]).qualified_name
        == read.artifact.symbol_locators@[i].qualified_name
        && request.artifact.symbol_locators@[i].symbol@
        == read.artifact.symbol_locators@[i].symbol@ by {
        let kept = artifact.symbol_locators@[i];
    }
}

/// Whether workers' timings stand for others, one by one.
pub open spec fn represents_timings(
    written: Seq<worker_proto::PhaseTiming>,
    timings: Seq<PhaseTiming>,
) -> bool {
    &&& written.len() == timings.len()
    &&& forall|i: int|
        0 <= i < written.len() ==> (#[trigger] written[i]).phase == timings[i].phase
            && written[i].elapsed_millis == timings[i].elapsed_millis
}

/// Whether workers' metrics stand for others, one by one.
pub open spec fn represents_metrics(
    written: Seq<worker_proto::WorkerMetric>,
    metrics: Seq<WorkerMetric>,
) -> bool {
    &&& written.len() == metrics.len()
    &&& forall|i: int|
        0 <= i < written.len() ==> (#[trigger] written[i]).name == metrics[i].name
            && written[i].value == metrics[i].value
}

fn written_timings(timings: &[PhaseTiming]) -> (result: Vec<worker_proto::PhaseTiming>)
    ensures
        represents_timings(result@, timings@),
{
    let mut result: Vec<worker_proto::PhaseTiming> = Vec::new();
    let mut i: usize = 0;
    while i < timings.len()
        invariant
            i <= timings@.len(),
            represents_timings(result@, timings@.take(i as int)),
        decreases timings@.len() - i,
    {
        let timing = &timings[i];
        result.push(
            worker_proto::PhaseTiming {
                phase: timing.phase.clone(),
                elapsed_millis: timing.elapsed_millis,
            },
        );
        i = i + 1;
    }
    assert(timings@.take(i as int) =~= timings@);
    result
}

fn read_timings(written: &[worker_proto::PhaseTiming]) -> (result: Vec<PhaseTiming>)
    ensures
        represents_timings(written@, result@),
{
    let mut result: Vec<PhaseTiming> = Vec::new();
    let mut i: usize = 0;
    while i < written.len()
        invariant
            i <= written@.len(),
            represents_timings(written@.take(i as int), result@),
        decreases written@.len() - i,
    {
        let timing = &written[i];
        result.push(
            PhaseTiming { phase: timing.phase.clone(), elapsed_millis: timing.elapsed_millis },
        );
        i = i + 1;
    }
    assert(written@.take(i as int) =~= written@);
    result
}

fn written_metrics(metrics: &[WorkerMetric]) -> (result: Vec<worker_proto::WorkerMetric>)
    ensures
        represents_metrics(result@, metrics@),
{
    let mut result: Vec<worker_proto::WorkerMetric> = Vec::new();
    let mut i: usize = 0;
    while i < metrics.len()
        invariant
            i <= metrics@.len(),
            represents_metrics(result@, metrics@.take(i as int)),
        decreases metrics@.len() - i,
    {
        let metric = &metrics[i];
        result.push(
            worker_proto::WorkerMetric { name: metric.name.clone(), value: metric.value },
        );
        i = i + 1;
    }
    assert(metrics@.take(i as int) =~= metrics@);
    result
}

fn read_metrics(written: &[worker_proto::WorkerMetric]) -> (result: Vec<WorkerMetric>)
    ensures
        represents_metrics(written@, result@),
{
    let mut result: Vec<WorkerMetric> = Vec::new();
    let mut i: usize = 0;
    while i < written.len()
        invariant
            i <= written@.len(),
            represents_metrics(written@.take(i as int), result@),
        decreases written@.len() - i,
    {
        let metric = &written[i];
        result.push(WorkerMetric { name: metric.name.clone(), value: metric.value });
        i = i + 1;
    }
    assert(written@.take(i as int) =~= written@);
    result
}

proof fn lemma_measures_round_trip(
    written_timings: Seq<worker_proto::PhaseTiming>,
    timings: Seq<PhaseTiming>,
    read_timings: Seq<PhaseTiming>,
    written_metrics: Seq<worker_proto::WorkerMetric>,
    metrics: Seq<WorkerMetric>,
    read_metrics: Seq<WorkerMetric>,
)
    requires
        represents_timings(written_timings, timings),
        represents_timings(written_timings, read_timings),
        represents_metrics(written_metrics, metrics),
        represents_metrics(written_metrics, read_metrics),
    ensures
        read_timings == timings,
        read_metrics == metrics,
{
    assert forall|i: int| 0 <= i < timings.len() implies #[trigger] read_timings[i]
        == timings[i] by {
        let kept = written_timings[i];
    }
    assert(read_timings =~= timings);
    assert forall|i: int| 0 <= i < metrics.len() implies #[trigger] read_metrics[i]
        == metrics[i] by {
        let kept = written_metrics[i];
    }
    assert(read_metrics =~= metrics);
}

/// Whether a text names the digest that bytes are.
pub open spec fn names_bytes(name: Seq<char>, digest: Seq<u8>) -> bool {
    &&& digest.len() == 32
    &&& forall|i: int|
        0 <= i < 32 ==> Some(#[trigger] digest[i]) == orchestrator::digest_byte(name, i)
}

/// The name of a digest.
pub open spec fn digest_name(digest: Seq<u8>) -> Seq<char> {
    "sha256:"@ + text::hex_text(digest)
}

/// Whether two answers about a staged artifact agree but for the digest.
pub open spec fn represents_staging(
    written: worker_proto::ArtifactMaterializationResponse,
    response: ArtifactMaterializationResponse,
) -> bool {
    &&& written.staged_filename == response.staged_filename
    &&& written.byte_length == response.byte_length
    &&& written.blob_format_version == response.blob_format_version
    &&& represents_timings(written.timings@, response.timings@)
    &&& represents_metrics(written.metrics@, response.metrics@)
}

/// Writes the answer about a staged artifact. A fingerprint that names no
/// digest is refused.
pub fn materialization_response(response: &ArtifactMaterializationResponse) -> (result: Result<
    worker_proto::ArtifactMaterializationResponse,
    AdapterError,
>)
    ensures
        result is Ok <==> orchestrator::names_digest(response.sha256@),
        result matches Ok(written) ==> represents_staging(written, *response) && names_bytes(
            response.sha256@,
            written.sha256@,
        ),
        result matches Err(error) ==> error == AdapterError::Malformed,
{
    match sha256_bytes(&response.sha256) {
        Some(sha256) => Ok(
            worker_proto::ArtifactMaterializationResponse {
                staged_filename: response.staged_filename.clone(),
                byte_length: response.byte_length,
                sha256,
                blob_format_version: response.blob_format_version,
                timings: written_timings(response.timings.as_slice()),
                metrics: written_metrics(response.metrics.as_slice()),
            },
        ),
        None => Err(AdapterError::Malformed),
    }
}

/// Reads the answer about a staged artifact. A digest of another length is
/// refused.
pub fn decode_materialization_response(written: &worker_proto::ArtifactMaterializationResponse) -> (result:
    Result<ArtifactMaterializationResponse, AdapterError>)
    ensures
        result is Ok <==> written.sha256@.len() == 32,
        result matches Ok(response) ==> represents_staging(*written, response)
            && response.sha256@ == digest_name(written.sha256@),
        result matches Err(error) ==> error == AdapterError::Malformed,
{
    if written.sha256.len() != 32 {
        return Err(AdapterError::Malformed);
    }
    let name = text::join_text("sha256:", text::hex(written.sha256.as_slice()).as_str());
    Ok(
        ArtifactMaterializationResponse {
            staged_filename: written.staged_filename.clone(),
            byte_length: written.byte_length,
            sha256: Fingerprint::new(name),
            blob_format_version: written.blob_format_version,
            timings: read_timings(written.timings.as_slice()),
            metrics: read_metrics(written.metrics.as_slice()),
        },
    )
}

proof fn lemma_digest_name(digest: Seq<u8>)
    requires
        digest.len() == 32,
    ensures
        orchestrator::names_digest(digest_name(digest)),
        names_bytes(digest_name(digest), digest),
{
    reveal_strlit("sha256:");
    let name = digest_name(digest);
    assert(text::begins_with(name, "sha256:"@)) by {
        assert(name.take(7) =~= "sha256:"@);
    }
    assert forall|i: int| 0 <= i < 32 implies Some(#[trigger] digest[i])
        == orchestrator::digest_byte(name, i) by {
        let byte = digest[i] as int;
        assert(name[7 + 2 * i] == text::hex_text(digest)[2 * i]);
        assert(name[7 + 2 * i + 1] == text::hex_text(digest)[2 * i + 1]);
        assert((2 * i) / 2 == i && (2 * i + 1) / 2 == i);
        lemma_hex_digit(byte / 16);
        lemma_hex_digit(byte % 16);
        assert((byte / 16) * 16 + byte % 16 == byte);
    }
    assert forall|i: int| 0 <= i < 32 implies (#[trigger] orchestrator::digest_byte(
        name,
        i,
    )) is Some by {
        assert(Some(digest[i]) == orchestrator::digest_byte(name, i));
    }
}

proof fn lemma_hex_digit(value: int)
    requires
        0 <= value < 16,
    ensures
        orchestrator::hex_value(text::digit_char(value)) == Some(value as u8),
{
}

/// The answer about a staged artifact that was written and read again says the
/// same, if its digest is named in lower case.
pub proof fn law_materialization_response_round_trip(
    written: worker_proto::ArtifactMaterializationResponse,
    response: ArtifactMaterializationResponse,
    read: ArtifactMaterializationResponse,
    digest: Seq<u8>,
)
    requires
        digest.len() == 32,
        response.sha256@ == digest_name(digest),
        represents_staging(written, response),
        names_bytes(response.sha256@, written.sha256@),
        represents_staging(written, read),
        read.sha256@ == digest_name(written.sha256@),
    ensures
        orchestrator::names_digest(response.sha256@),
        written.sha256@ == digest,
        read.staged_filename == response.staged_filename,
        read.byte_length == response.byte_length,
        read.sha256@ == response.sha256@,
        read.blob_format_version == response.blob_format_version,
        read.timings@ == response.timings@,
        read.metrics@ == response.metrics@,
{
    lemma_digest_name(digest);
    assert forall|i: int| 0 <= i < 32 implies #[trigger] written.sha256@[i] == digest[i] by {
        assert(Some(written.sha256@[i]) == orchestrator::digest_byte(response.sha256@, i));
        assert(Some(digest[i]) == orchestrator::digest_byte(response.sha256@, i));
    }
    assert(written.sha256@ =~= digest);
    lemma_measures_round_trip(
        written.timings@,
        response.timings@,
        read.timings@,
        written.metrics@,
        response.metrics@,
        read.metrics@,
    );
}

/// Whether workers' candidates stand for others, one by one.
pub open spec fn represents_candidates(
    written: Seq<worker_proto::ArtifactCandidate>,
    candidates: Seq<ArtifactCandidate>,
) -> bool {
    &&& written.len() == candidates.len()
    &&& forall|i: int|
        0 <= i < written.len() ==> (#[trigger] written[i]).locator == candidates[i].locator
            && written[i].component@ == candidates[i].component@ && written[i].context@
            == candidates[i].context@
}

/// Whether a worker's answer to a batch stands for another.
pub open spec fn represents_batch(
    written: worker_proto::AnalysisBatchResponse,
    response: AnalysisBatchResponse,
) -> bool {
    &&& represents_snapshots(written.snapshots@, response.snapshots@)
    &&& represents_timings(written.timings@, response.timings@)
    &&& represents_candidates(written.artifact_candidates@, response.artifact_candidates@)
    &&& represents_metrics(written.metrics@, response.metrics@)
}

/// Writes the answer to a batch. An edge whose occurrence is not among those of
/// its snapshot is refused.
pub fn analysis_batch_response(response: &AnalysisBatchResponse) -> (result: Result<
    worker_proto::AnalysisBatchResponse,
    AdapterError,
>)
    requires
        are_countable(response.snapshots@),
    ensures
        result is Ok <==> all_edges_are_listed(response.snapshots@),
        result matches Ok(written) ==> represents_batch(written, *response),
        result matches Err(error) ==> error == AdapterError::UnlistedOccurrence,
{
    let snapshots = match written_snapshots(response.snapshots.as_slice()) {
        Ok(snapshots) => snapshots,
        Err(error) => {
            return Err(error);
        },
    };
    let candidates = response.artifact_candidates.as_slice();
    let mut artifact_candidates: Vec<worker_proto::ArtifactCandidate> = Vec::new();
    let mut i: usize = 0;
    while i < candidates.len()
        invariant
            i <= candidates@.len(),
            represents_candidates(artifact_candidates@, candidates@.take(i as int)),
        decreases candidates@.len() - i,
    {
        let candidate = &candidates[i];
        artifact_candidates.push(
            worker_proto::ArtifactCandidate {
                locator: candidate.locator.clone(),
                component: candidate.component.as_str().to_owned(),
                context: candidate.context.as_str().to_owned(),
            },
        );
        i = i + 1;
    }
    assert(candidates@.take(i as int) =~= candidates@);
    Ok(
        worker_proto::AnalysisBatchResponse {
            snapshots,
            timings: written_timings(response.timings.as_slice()),
            artifact_candidates,
            metrics: written_metrics(response.metrics.as_slice()),
        },
    )
}

/// Reads the answer to a batch.
pub fn decode_analysis_batch_response(written: &worker_proto::AnalysisBatchResponse) -> (result:
    Result<AnalysisBatchResponse, AdapterError>)
    ensures
        result is Ok <==> are_snapshots(written.snapshots@),
        result matches Ok(response) ==> represents_batch(*written, response) && are_coherent(
            response.snapshots@,
        ),
        result matches Err(error) ==> error == AdapterError::Malformed,
{
    let snapshots = match read_snapshots(written.snapshots.as_slice()) {
        Ok(snapshots) => snapshots,
        Err(error) => {
            return Err(error);
        },
    };
    let candidates = written.artifact_candidates.as_slice();
    let mut artifact_candidates: Vec<ArtifactCandidate> = Vec::new();
    let mut i: usize = 0;
    while i < candidates.len()
        invariant
            i <= candidates@.len(),
            represents_candidates(candidates@.take(i as int), artifact_candidates@),
        decreases candidates@.len() - i,
    {
        let candidate = &candidates[i];
        artifact_candidates.push(
            ArtifactCandidate {
                locator: candidate.locator.clone(),
                component: ComponentId::new(&candidate.component),
                context: Fingerprint::new(&candidate.context),
            },
        );
        i = i + 1;
    }
    assert(candidates@.take(i as int) =~= candidates@);
    Ok(
        AnalysisBatchResponse {
            snapshots,
            timings: read_timings(written.timings.as_slice()),
            artifact_candidates,
            metrics: read_metrics(written.metrics.as_slice()),
        },
    )
}

/// An answer to a batch that was written and read again says the same, if the
/// facts of every snapshot lie in its source unit.
pub proof fn law_batch_round_trip(
    written: worker_proto::AnalysisBatchResponse,
    response: AnalysisBatchResponse,
    read: AnalysisBatchResponse,
)
    requires
        are_coherent(response.snapshots@),
        are_coherent(read.snapshots@),
        represents_batch(written, response),
        represents_batch(written, read),
    ensures
        are_snapshots(written.snapshots@),
        same_snapshots(response.snapshots@, read.snapshots@),
        read.timings@ == response.timings@,
        read.metrics@ == response.metrics@,
        read.artifact_candidates@.len() == response.artifact_candidates@.len(),
        forall|i: int|
            0 <= i < read.artifact_candidates@.len() ==> (
            #[trigger] read.artifact_candidates@[i]).locator
                == response.artifact_candidates@[i].locator
                && read.artifact_candidates@[i].component@
                == response.artifact_candidates@[i].component@
                && read.artifact_candidates@[i].context@
                == response.artifact_candidates@[i].context@,
{
    lemma_snapshots_round_trip(written.snapshots@, response.snapshots@, read.snapshots@);
    lemma_measures_round_trip(
        written.timings@,
        response.timings@,
        read.timings@,
        written.metrics@,
        response.metrics@,
        read.metrics@,
    );
    assert forall|i: int| 0 <= i < read.artifact_candidates@.len() implies (
    #[trigger] read.artifact_candidates@[i]).locator == response.artifact_candidates@[i].locator
        && read.artifact_candidates@[i].component@ == response.artifact_candidates@[i].component@
        && read.artifact_candidates@[i].context@ == response.artifact_candidates@[i].context@ by {
        let kept = written.artifact_candidates@[i];
    }
}

/// Whether a worker's failure stands for another.
pub open spec fn represents_error(written: worker_proto::WorkerError, error: WorkerError) -> bool {
    &&& written.code@ == value_names::error_code_text(error.code)
    &&& written.message == error.message
    &&& written.retryable == error.retryable
    &&& written.supported_protocol_version == error.supported_protocol_version
    &&& written.received_protocol_version == error.received_protocol_version
}

/// Whether a text is the one of an error code.
pub open spec fn is_error_code(name: Seq<char>) -> bool {
    exists|code: crate::protocol::WorkerErrorCode| #[trigger]
        value_names::error_code_text(code) == name
}

/// Writes a failure.
pub fn worker_error(error: &WorkerError) -> (result: worker_proto::WorkerError)
    ensures
        represents_error(result, *error),
{
    worker_proto::WorkerError {
        code: value_names::error_code_name(error.code).to_owned(),
        message: error.message.clone(),
        retryable: error.retryable,
        supported_protocol_version: error.supported_protocol_version,
        received_protocol_version: error.received_protocol_version,
    }
}

/// Reads a failure. An unknown code is refused.
pub fn decode_worker_error(written: &worker_proto::WorkerError) -> (result: Result<
    WorkerError,
    AdapterError,
>)
    ensures
        result is Ok <==> is_error_code(written.code@),
        result matches Ok(error) ==> represents_error(*written, error),
        result matches Err(error) ==> error == AdapterError::Malformed,
{
    match value_names::parse_error_code(written.code.as_str()) {
        Some(code) => Ok(
            WorkerError {
                code,
                message: written.message.clone(),
                retryable: written.retryable,
                supported_protocol_version: written.supported_protocol_version,
                received_protocol_version: written.received_protocol_version,
            },
        ),
        None => Err(AdapterError::Malformed),
    }
}

/// A failure that was written and read again is the same.
pub proof fn law_worker_error_round_trip(
    written: worker_proto::WorkerError,
    error: WorkerError,
    read: WorkerError,
)
    requires
        represents_error(written, error),
        represents_error(written, read),
    ensures
        is_error_code(written.code@),
        read == error,
{
    value_names::law_error_code_texts_differ(error.code, read.code);
}

} // verus!
