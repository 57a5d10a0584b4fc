//! The versioned requests and responses of the query interface.

use vstd::prelude::*;

use crate::canonical::{
    Completeness, ComponentId, Fingerprint, Freshness, Location, Precision, Provenance,
    SourceOccurrence, SymbolId, SymbolRecord, TypeRecord, WorkspacePath, CANONICAL_SCHEMA_VERSION,
    INDEX_FORMAT_VERSION,
};
use crate::configuration::FreshnessStrategy;

verus! {

/// What position-oriented and symbol-oriented navigation accepts.
#[derive(Debug, Clone, PartialEq, Eq)]
pub enum NavigationTarget {
    Location { location: Location },
    Symbol { symbol: SymbolId },
    Query { query: String },
}

/// A command-shaped public request.
#[derive(Debug, Clone, PartialEq, Eq)]
pub enum QueryRequest {
    Index { path: WorkspacePath },
    Status,
    Symbols { query: String },
    Definition { target: NavigationTarget },
    Refs { target: NavigationTarget },
    Implementations { target: NavigationTarget },
    Callers { target: NavigationTarget },
    TypeAt { location: Location },
}

/// Terminal result state. `Stale` is never silently equivalent to `Success`.
#[derive(Debug, Clone, Copy, PartialEq, Eq, Structural)]
pub enum QueryStatus {
    Success,
    NoResult,
    Ambiguous,
    Stale,
    Unsupported,
    InvalidRequest,
    Failed,
}

/// A structured problem for agents and machine-readable output.
#[derive(Debug, PartialEq, Eq)]
pub struct QueryProblem {
    pub code: String,
    pub message: String,
    pub retryable: bool,
}

impl Clone for QueryProblem {
    fn clone(&self) -> (result: Self)
        ensures
            result == *self,
    {
        QueryProblem {
            code: self.code.clone(),
            message: self.message.clone(),
            retryable: self.retryable,
        }
    }
}

/// What a `QueryProblem` says.
pub struct QueryProblemView {
    pub code: Seq<char>,
    pub message: Seq<char>,
    pub retryable: bool,
}

impl View for QueryProblem {
    type V = QueryProblemView;

    open spec fn view(&self) -> QueryProblemView {
        QueryProblemView {
            code: self.code@,
            message: self.message@,
            retryable: self.retryable,
        }
    }
}

impl QueryProblem {
    /// Makes a problem.
    pub fn new(code: &str, message: &str, retryable: bool) -> (result: Self)
        ensures
            result@ == (QueryProblemView { code: code@, message: message@, retryable }),
    {
        QueryProblem { code: code.to_owned(), message: message.to_owned(), retryable }
    }
}

/// Provenance and freshness attached to every semantic answer.
#[derive(Debug, Clone, PartialEq, Eq)]
pub struct ResultMetadata {
    pub freshness: Freshness,
    pub completeness: Completeness,
    pub precision: Precision,
    pub index_format_version: u32,
    pub source_snapshot: Option<Fingerprint>,
    pub provenance: Vec<Provenance>,
}

impl ResultMetadata {
    /// Whether metadata claims nothing of an answer.
    pub open spec fn is_empty(&self) -> bool {
        &&& self.freshness == Freshness::Unknown
        &&& self.completeness == Completeness::Partial
        &&& self.precision == Precision::Exact
        &&& self.index_format_version == INDEX_FORMAT_VERSION
        &&& self.source_snapshot is None
        &&& self.provenance@.len() == 0
    }

    /// Metadata that claims nothing of an answer.
    pub fn empty() -> (result: Self)
        ensures
            result.is_empty(),
    {
        ResultMetadata {
            freshness: Freshness::Unknown,
            completeness: Completeness::Partial,
            precision: Precision::Exact,
            index_format_version: INDEX_FORMAT_VERSION,
            source_snapshot: None,
            provenance: Vec::new(),
        }
    }
}

/// The versioned response envelope.
#[derive(Debug, Clone, PartialEq, Eq)]
pub struct QueryResponse {
    pub schema_version: u32,
    pub status: QueryStatus,
    pub result: Option<QueryPayload>,
    pub metadata: ResultMetadata,
    pub problems: Vec<QueryProblem>,
}

impl QueryResponse {
    /// A successful response.
    pub fn ok(result: QueryPayload, metadata: ResultMetadata) -> (response: Self)
        ensures
            response.schema_version == CANONICAL_SCHEMA_VERSION,
            response.status == QueryStatus::Success,
            response.result == Some(result),
            response.metadata == metadata,
            response.problems@.len() == 0,
    {
        QueryResponse {
            schema_version: CANONICAL_SCHEMA_VERSION,
            status: QueryStatus::Success,
            result: Some(result),
            metadata,
            problems: Vec::new(),
        }
    }

    /// A response whose metadata claims nothing.
    pub fn bare(
        status: QueryStatus,
        result: Option<QueryPayload>,
        problems: Vec<QueryProblem>,
    ) -> (response: Self)
        ensures
            response.schema_version == CANONICAL_SCHEMA_VERSION,
            response.status == status,
            response.result == result,
            response.metadata.is_empty(),
            response.problems == problems,
    {
        QueryResponse {
            schema_version: CANONICAL_SCHEMA_VERSION,
            status,
            result,
            metadata: ResultMetadata::empty(),
            problems,
        }
    }
}

/// What a response holds.
#[derive(Debug, Clone, PartialEq, Eq)]
pub enum QueryPayload {
    Index(IndexResult),
    Status(StatusResult),
    Symbols { symbols: Vec<SymbolRecord> },
    Selector { records: Vec<SelectorRecord> },
    Definition { symbol: SymbolRecord },
    Refs { references: Vec<SourceOccurrence> },
    Implementations { symbols: Vec<SymbolRecord> },
    Callers { calls: Vec<SourceOccurrence> },
    TypeAt { occurrence: SourceOccurrence, ty: TypeRecord },
}

/// One stable record emitted by a semantic selector. Navigation clients
/// consume `symbol.id`, never a rendered declaration string.
#[derive(Debug, Clone, PartialEq, Eq)]
pub struct SelectorRecord {
    pub symbol: SymbolRecord,
    pub metadata: ResultMetadata,
}

/// The outcome of an index run.
#[derive(Debug, Clone, PartialEq, Eq)]
pub struct IndexResult {
    pub workspace: WorkspacePath,
    pub indexed_source_units: u64,
    pub changed_source_units: u64,
}

/// The health of a persisted index.
#[derive(Debug, Clone, PartialEq, Eq)]
pub struct StatusResult {
    pub workspace: WorkspacePath,
    /// Version of the effective configuration contract used for this status.
    pub configuration_schema_version: u32,
    /// The policy that semantic query gates must enforce for this workspace.
    pub freshness_strategy: FreshnessStrategy,
    pub manifest: Freshness,
    pub source_units: IndexCounts,
    pub configuration_inputs: ConfigurationInputCounts,
    pub dependency_blobs: ArtifactCoverage,
    pub affected_components: Vec<ComponentId>,
    pub workers_running: Vec<String>,
}

/// Configuration inputs by their state.
#[derive(Debug, Clone, Copy, PartialEq, Eq, Structural)]
pub struct ConfigurationInputCounts {
    pub current: u64,
    pub added: u64,
    pub changed: u64,
    pub missing: u64,
}

impl Default for ConfigurationInputCounts {
    fn default() -> (result: Self)
        ensures
            result == (ConfigurationInputCounts { current: 0, added: 0, changed: 0, missing: 0 }),
    {
        ConfigurationInputCounts { current: 0, added: 0, changed: 0, missing: 0 }
    }
}

/// Source units by their freshness.
#[derive(Debug, Clone, Copy, PartialEq, Eq, Structural)]
pub struct IndexCounts {
    pub fresh: u64,
    pub stale: u64,
    pub unknown: u64,
    pub unsupported: u64,
}

/// Dependency artifacts by the state of their blobs.
#[derive(Debug, Clone, Copy, PartialEq, Eq, Structural)]
pub struct ArtifactCoverage {
    pub cataloged: u64,
    pub cached: u64,
    pub missing: u64,
    pub invalid: u64,
}

impl Default for ArtifactCoverage {
    fn default() -> (result: Self)
        ensures
            result == (ArtifactCoverage { cataloged: 0, cached: 0, missing: 0, invalid: 0 }),
    {
        ArtifactCoverage { cataloged: 0, cached: 0, missing: 0, invalid: 0 }
    }
}

/// The process exit code of a status.
pub open spec fn status_code(status: QueryStatus) -> u8 {
    match status {
        QueryStatus::Success => 0,
        QueryStatus::NoResult => 1,
        QueryStatus::Ambiguous => 1,
        QueryStatus::InvalidRequest => 2,
        QueryStatus::Stale => 3,
        QueryStatus::Unsupported => 3,
        QueryStatus::Failed => 4,
    }
}

/// Computes `status_code`.
pub fn exit_code(status: QueryStatus) -> (result: u8)
    ensures
        result == status_code(status),
{
    match status {
        QueryStatus::Success => 0,
        QueryStatus::NoResult => 1,
        QueryStatus::Ambiguous => 1,
        QueryStatus::InvalidRequest => 2,
        QueryStatus::Stale => 3,
        QueryStatus::Unsupported => 3,
        QueryStatus::Failed => 4,
    }
}

/// The exit code is zero exactly for a current, unambiguous answer: neither a
/// stale nor an ambiguous one passes for it.
pub proof fn law_only_success_exits_zero(status: QueryStatus)
    ensures
        status_code(status) == 0 <==> status == QueryStatus::Success,
        status_code(status) <= 4,
{
}

/// A process exits with zero on success, one where there is no single answer,
/// two on an invalid request, three where the index cannot serve the request,
/// and four on a failure.
pub proof fn law_exit_codes(status: QueryStatus, code: u8)
    requires
        call_ensures(exit_code, (status,), code),
    ensures
        code == 0 <==> status == QueryStatus::Success,
        code == 1 <==> status == QueryStatus::NoResult || status == QueryStatus::Ambiguous,
        code == 2 <==> status == QueryStatus::InvalidRequest,
        code == 3 <==> status == QueryStatus::Stale || status == QueryStatus::Unsupported,
        code == 4 <==> status == QueryStatus::Failed,
{
}

} // verus!
