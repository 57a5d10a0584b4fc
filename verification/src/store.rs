//! What the persistent index stores: validation of complete file snapshots,
//! the rows that one becomes, and the compact form of a symbol.
//!
//! A snapshot is validated as a whole before a row of it is written, and all of
//! its rows are known before the first is, so a refused snapshot leaves the
//! committed one as it was.

use vstd::prelude::*;

use crate::canonical::{
    BackendKey, ByteRange, CallEdge, Completeness, DiagnosticRecord,
    DiagnosticSeverity, Freshness, HierarchyEdge, Language, OccurrenceKind, Provenance,
    ReferenceEdge, SourceOccurrence, SourceRange, SourceUnit, SourceUnitId, SymbolId, SymbolKind,
    SymbolRecord, TypeRecord, INDEX_FORMAT_VERSION,
};
use crate::ordering;
use crate::protocol::{FileAnalysisSnapshot, WORKER_PROTOCOL_VERSION};
use crate::shown::push;
use crate::text;

verus! {

pub const SYMBOL_RECORD_FORMAT_VERSION: u8 = 1;

/// The place of the index in a workspace.
pub const INDEX_PATH: &'static str = ".kide/index-v4.sqlite3";

/// Why the index refuses something.
#[derive(Debug, Clone, PartialEq, Eq)]
pub enum IndexStoreError {
    IncompatibleSymbolRecordFormat { found: u8 },
    IncompatibleIndexFormat { found: u32, supported: u32 },
    IncompatibleWorkerProtocol { found: u32, supported: u32 },
    SourceUnitMismatch,
    SnapshotInputMismatch,
    FactOwnedByOtherSource { record: &'static str, expected: String, actual: String },
    InvalidRange { record: &'static str, start: u64, end: u64 },
    ByteOffsetOutOfRange { value: u64 },
}

impl IndexStoreError {
    /// The message that is shown for an error.
    pub open spec fn message_text(&self) -> Seq<char> {
        match self {
            IndexStoreError::IncompatibleSymbolRecordFormat { found } => {
                "symbol record binary format "@
                + text::decimal_text(*found as nat)
                + " is incompatible"@
            },
            IndexStoreError::IncompatibleIndexFormat { found, supported } => "index format "@
                + text::decimal_text(*found as nat)
                + " is incompatible; supported format is "@
                + text::decimal_text(*supported as nat),
            IndexStoreError::IncompatibleWorkerProtocol { found, supported } => "worker protocol "@
                + text::decimal_text(*found as nat)
                + " is incompatible; supported protocol is "@
                + text::decimal_text(*supported as nat),
            IndexStoreError::SourceUnitMismatch => {
                "snapshot source unit does not match the source unit Core requested"@
            },
            IndexStoreError::SnapshotInputMismatch => {
                "snapshot content or context fingerprint changed before commit"@
            },
            IndexStoreError::FactOwnedByOtherSource { record, expected, actual } => record@
                + " belongs to "@
                + actual@
                + ", not snapshot source unit "@
                + expected@,
            IndexStoreError::InvalidRange { record, start, end } => record@
                + " has an invalid byte range "@
                + text::decimal_text(*start as nat)
                + ".."@
                + text::decimal_text(*end as nat),
            IndexStoreError::ByteOffsetOutOfRange { value } => "byte offset "@
                + text::decimal_text(*value as nat)
                + " cannot be represented by SQLite"@,
        }
    }

    /// Computes `message_text`.
    pub fn message(&self) -> (result: String)
        ensures
            result@ == self.message_text(),
    {
        match self {
            IndexStoreError::IncompatibleSymbolRecordFormat { found } => {
                let mut out = "symbol record binary format ".to_owned();
                push(&mut out, text::decimal(*found as u64).as_str());
                push(&mut out, " is incompatible");
                out
            },
            IndexStoreError::IncompatibleIndexFormat { found, supported } => {
                let mut out = "index format ".to_owned();
                push(&mut out, text::decimal(*found as u64).as_str());
                push(&mut out, " is incompatible; supported format is ");
                push(&mut out, text::decimal(*supported as u64).as_str());
                out
            },
            IndexStoreError::IncompatibleWorkerProtocol { found, supported } => {
                let mut out = "worker protocol ".to_owned();
                push(&mut out, text::decimal(*found as u64).as_str());
                push(&mut out, " is incompatible; supported protocol is ");
                push(&mut out, text::decimal(*supported as u64).as_str());
                out
            },
            IndexStoreError::SourceUnitMismatch => {
                "snapshot source unit does not match the source unit Core requested".to_owned()
            },
            IndexStoreError::SnapshotInputMismatch => {
                "snapshot content or context fingerprint changed before commit".to_owned()
            },
            IndexStoreError::FactOwnedByOtherSource { record, expected, actual } => {
                let mut out = (*record).to_owned();
                push(&mut out, " belongs to ");
                push(&mut out, actual.as_str());
                push(&mut out, ", not snapshot source unit ");
                push(&mut out, expected.as_str());
                out
            },
            IndexStoreError::InvalidRange { record, start, end } => {
                let mut out = (*record).to_owned();
                push(&mut out, " has an invalid byte range ");
                push(&mut out, text::decimal(*start as u64).as_str());
                push(&mut out, "..");
                push(&mut out, text::decimal(*end as u64).as_str());
                out
            },
            IndexStoreError::ByteOffsetOutOfRange { value } => {
                let mut out = "byte offset ".to_owned();
                push(&mut out, text::decimal(*value as u64).as_str());
                push(&mut out, " cannot be represented by SQLite");
                out
            },
        }
    }
}

/// What an `IndexStoreError` says.
pub enum IndexStoreErrorView {
    IncompatibleSymbolRecordFormat { found: u8 },
    IncompatibleIndexFormat { found: u32, supported: u32 },
    IncompatibleWorkerProtocol { found: u32, supported: u32 },
    SourceUnitMismatch,
    SnapshotInputMismatch,
    FactOwnedByOtherSource { record: Seq<char>, expected: Seq<char>, actual: Seq<char> },
    InvalidRange { record: Seq<char>, start: u64, end: u64 },
    ByteOffsetOutOfRange { value: u64 },
}

impl View for IndexStoreError {
    type V = IndexStoreErrorView;

    open spec fn view(&self) -> IndexStoreErrorView {
        match self {
            IndexStoreError::IncompatibleSymbolRecordFormat { found } => {
                IndexStoreErrorView::IncompatibleSymbolRecordFormat { found: *found }
            },
            IndexStoreError::IncompatibleIndexFormat { found, supported } => {
                IndexStoreErrorView::IncompatibleIndexFormat {
                    found: *found,
                    supported: *supported,
                }
            },
            IndexStoreError::IncompatibleWorkerProtocol { found, supported } => {
                IndexStoreErrorView::IncompatibleWorkerProtocol {
                    found: *found,
                    supported: *supported,
                }
            },
            IndexStoreError::SourceUnitMismatch => IndexStoreErrorView::SourceUnitMismatch,
            IndexStoreError::SnapshotInputMismatch => IndexStoreErrorView::SnapshotInputMismatch,
            IndexStoreError::FactOwnedByOtherSource { record, expected, actual } => {
                IndexStoreErrorView::FactOwnedByOtherSource {
                    record: record@,
                    expected: expected@,
                    actual: actual@,
                }
            },
            IndexStoreError::InvalidRange { record, start, end } => {
                IndexStoreErrorView::InvalidRange { record: record@, start: *start, end: *end }
            },
            IndexStoreError::ByteOffsetOutOfRange { value } => {
                IndexStoreErrorView::ByteOffsetOutOfRange { value: *value }
            },
        }
    }
}

/// Whether a result is an error exactly where there is a problem, and that one.
pub open spec fn reports(result: Result<(), IndexStoreError>, problem: Option<IndexStoreErrorView>) -> bool {
    match problem {
        Some(problem) => result is Err && result->Err_0@ == problem,
        None => result is Ok,
    }
}

/// The first of two problems.
pub open spec fn earlier<E>(a: Option<E>, b: Option<E>) -> Option<E> {
    match a {
        Some(problem) => Some(problem),
        None => b,
    }
}

/// The problem of a provenance of another protocol version.
pub open spec fn provenance_problem(provenance: Provenance) -> Option<IndexStoreErrorView> {
    if provenance.protocol_version != WORKER_PROTOCOL_VERSION {
        Some(
            IndexStoreErrorView::IncompatibleWorkerProtocol {
                found: provenance.protocol_version,
                supported: WORKER_PROTOCOL_VERSION,
            },
        )
    } else {
        None
    }
}

/// The problem of a fact of another source unit.
pub open spec fn owner_problem(record: Seq<char>, expected: Seq<char>, actual: SourceUnitId) -> Option<
    IndexStoreErrorView,
> {
    if actual@ != expected {
        Some(IndexStoreErrorView::FactOwnedByOtherSource { record, expected, actual: actual@ })
    } else {
        None
    }
}

/// The problem of a range that ends before it starts.
pub open spec fn range_problem(record: Seq<char>, range: ByteRange) -> Option<
    IndexStoreErrorView,
> {
    if range.start > range.end {
        Some(IndexStoreErrorView::InvalidRange { record, start: range.start, end: range.end })
    } else {
        None
    }
}

/// Refuses a provenance of another protocol version.
pub fn validate_provenance(provenance: &Provenance) -> (result: Result<(), IndexStoreError>)
    ensures
        reports(result, provenance_problem(*provenance)),
{
    if provenance.protocol_version != WORKER_PROTOCOL_VERSION {
        return Err(
            IndexStoreError::IncompatibleWorkerProtocol {
                found: provenance.protocol_version,
                supported: WORKER_PROTOCOL_VERSION,
            },
        );
    }
    Ok(())
}

/// Refuses a fact of another source unit.
pub fn ensure_fact_source(record: &'static str, expected: &str, actual: &SourceUnitId) -> (result:
    Result<(), IndexStoreError>)
    ensures
        reports(result, owner_problem(record@, expected@, *actual)),
{
    if text::same_text(actual.as_str(), expected) {
        Ok(())
    } else {
        Err(
            IndexStoreError::FactOwnedByOtherSource {
                record,
                expected: expected.to_owned(),
                actual: actual.as_str().to_owned(),
            },
        )
    }
}

/// Refuses a range that ends before it starts.
pub fn validate_range(record: &'static str, range: &ByteRange) -> (result: Result<
    (),
    IndexStoreError,
>)
    ensures
        reports(result, range_problem(record@, *range)),
{
    if range.start <= range.end {
        Ok(())
    } else {
        Err(IndexStoreError::InvalidRange { record, start: range.start, end: range.end })
    }
}

/// The problem of a symbol: its provenance, its owners, its ranges.
pub open spec fn symbol_problem(source: Seq<char>, symbol: SymbolRecord) -> Option<
    IndexStoreErrorView,
> {
    earlier(
        provenance_problem(symbol.provenance),
        earlier(
            owner_problem("symbol declaration"@, source, symbol.declaration.source_unit),
            earlier(
                owner_problem("symbol name range"@, source, symbol.name_range.source_unit),
                earlier(
                    range_problem("symbol declaration"@, symbol.declaration.bytes),
                    range_problem("symbol name range"@, symbol.name_range.bytes),
                ),
            ),
        ),
    )
}

/// The problem of an occurrence: its provenance, its owner, its range.
pub open spec fn occurrence_problem(source: Seq<char>, occurrence: SourceOccurrence) -> Option<
    IndexStoreErrorView,
> {
    earlier(
        provenance_problem(occurrence.provenance),
        earlier(
            owner_problem("occurrence"@, source, occurrence.range.source_unit),
            range_problem("occurrence"@, occurrence.range.bytes),
        ),
    )
}

/// The problem of a diagnostic: its provenance, its owner, its range.
pub open spec fn diagnostic_problem(source: Seq<char>, diagnostic: DiagnosticRecord) -> Option<
    IndexStoreErrorView,
> {
    earlier(
        provenance_problem(diagnostic.provenance),
        earlier(
            owner_problem("diagnostic"@, source, diagnostic.source_unit),
            match diagnostic.range {
                Some(range) => range_problem("diagnostic"@, range),
                None => None,
            },
        ),
    )
}

fn validate_symbol(source: &str, symbol: &SymbolRecord) -> (result: Result<(), IndexStoreError>)
    ensures
        reports(result, symbol_problem(source@, *symbol)),
{
    match validate_provenance(&symbol.provenance) {
        Ok(()) => {},
        Err(error) => {
            return Err(error);
        },
    }
    match ensure_fact_source("symbol declaration", source, &symbol.declaration.source_unit) {
        Ok(()) => {},
        Err(error) => {
            return Err(error);
        },
    }
    match ensure_fact_source("symbol name range", source, &symbol.name_range.source_unit) {
        Ok(()) => {},
        Err(error) => {
            return Err(error);
        },
    }
    match validate_range("symbol declaration", &symbol.declaration.bytes) {
        Ok(()) => {},
        Err(error) => {
            return Err(error);
        },
    }
    validate_range("symbol name range", &symbol.name_range.bytes)
}

/// Refuses an occurrence that does not belong to a source unit.
pub fn validate_occurrence(source: &str, occurrence: &SourceOccurrence) -> (result: Result<
    (),
    IndexStoreError,
>)
    ensures
        reports(result, occurrence_problem(source@, *occurrence)),
{
    match validate_provenance(&occurrence.provenance) {
        Ok(()) => {},
        Err(error) => {
            return Err(error);
        },
    }
    match ensure_fact_source("occurrence", source, &occurrence.range.source_unit) {
        Ok(()) => {},
        Err(error) => {
            return Err(error);
        },
    }
    validate_range("occurrence", &occurrence.range.bytes)
}

fn validate_diagnostic(source: &str, diagnostic: &DiagnosticRecord) -> (result: Result<
    (),
    IndexStoreError,
>)
    ensures
        reports(result, diagnostic_problem(source@, *diagnostic)),
{
    match validate_provenance(&diagnostic.provenance) {
        Ok(()) => {},
        Err(error) => {
            return Err(error);
        },
    }
    match ensure_fact_source("diagnostic", source, &diagnostic.source_unit) {
        Ok(()) => {},
        Err(error) => {
            return Err(error);
        },
    }
    match &diagnostic.range {
        Some(range) => validate_range("diagnostic", range),
        None => Ok(()),
    }
}

/// The problem of each symbol.
pub open spec fn symbol_findings(source: Seq<char>, symbols: Seq<SymbolRecord>) -> Seq<
    Option<IndexStoreErrorView>,
> {
    Seq::new(symbols.len(), |i: int| symbol_problem(source, symbols[i]))
}

/// The problem of each occurrence.
pub open spec fn occurrence_findings(
    source: Seq<char>,
    occurrences: Seq<SourceOccurrence>,
) -> Seq<Option<IndexStoreErrorView>> {
    Seq::new(occurrences.len(), |i: int| occurrence_problem(source, occurrences[i]))
}

/// The problem of each reference.
pub open spec fn reference_findings(source: Seq<char>, references: Seq<ReferenceEdge>) -> Seq<
    Option<IndexStoreErrorView>,
> {
    Seq::new(references.len(), |i: int| occurrence_problem(source, references[i].source))
}

/// The problem of each call.
pub open spec fn call_findings(source: Seq<char>, calls: Seq<CallEdge>) -> Seq<
    Option<IndexStoreErrorView>,
> {
    Seq::new(calls.len(), |i: int| occurrence_problem(source, calls[i].source))
}

/// The problem of each hierarchy edge.
pub open spec fn hierarchy_findings(edges: Seq<HierarchyEdge>) -> Seq<Option<IndexStoreErrorView>> {
    Seq::new(edges.len(), |i: int| provenance_problem(edges[i].provenance))
}

/// The problem of each type.
pub open spec fn type_findings(types: Seq<TypeRecord>) -> Seq<Option<IndexStoreErrorView>> {
    Seq::new(types.len(), |i: int| provenance_problem(types[i].provenance))
}

/// The problem of each diagnostic.
pub open spec fn diagnostic_findings(
    source: Seq<char>,
    diagnostics: Seq<DiagnosticRecord>,
) -> Seq<Option<IndexStoreErrorView>> {
    Seq::new(diagnostics.len(), |i: int| diagnostic_problem(source, diagnostics[i]))
}

/// The problem of the facts of a snapshot: the first in the order symbols,
/// occurrences, references, calls, hierarchy, types, diagnostics.
pub open spec fn facts_problem(source: Seq<char>, snapshot: FileAnalysisSnapshot) -> Option<
    IndexStoreErrorView,
> {
    earlier(
        ordering::first_problem(symbol_findings(source, snapshot.symbols@)),
        earlier(
            ordering::first_problem(occurrence_findings(source, snapshot.occurrences@)),
            earlier(
                ordering::first_problem(reference_findings(source, snapshot.references@)),
                earlier(
                    ordering::first_problem(call_findings(source, snapshot.calls@)),
                    earlier(
                        ordering::first_problem(hierarchy_findings(snapshot.hierarchy@)),
                        earlier(
                            ordering::first_problem(type_findings(snapshot.types@)),
                            ordering::first_problem(
                                diagnostic_findings(source, snapshot.diagnostics@),
                            ),
                        ),
                    ),
                ),
            ),
        ),
    )
}

/// The problem of a snapshot: its source unit, its inputs, its provenance, its
/// facts.
pub open spec fn snapshot_problem(expected: SourceUnit, snapshot: FileAnalysisSnapshot) -> Option<
    IndexStoreErrorView,
> {
    if snapshot.source_unit.id@ != expected.id@ {
        Some(IndexStoreErrorView::SourceUnitMismatch)
    } else if snapshot.source_unit.content@ != expected.content@ || snapshot.source_unit.context@
        != expected.context@ {
        Some(IndexStoreErrorView::SnapshotInputMismatch)
    } else {
        earlier(
            provenance_problem(snapshot.provenance),
            facts_problem(expected.id@, snapshot),
        )
    }
}

fn validate_symbols(source: &str, items: &[SymbolRecord]) -> (result: Result<(), IndexStoreError>)
    ensures
        reports(result, ordering::first_problem(symbol_findings(source@, items@))),
{
    let ghost findings = symbol_findings(source@, items@);
    let mut i: usize = 0;
    while i < items.len()
        invariant
            findings == symbol_findings(source@, items@),
            i <= items@.len(),
            forall|j: int| 0 <= j < i ==> (#[trigger] findings[j]) is None,
        decreases items@.len() - i,
    {
        match validate_symbol(source, &items[i]) {
            Ok(()) => {},
            Err(error) => {
                proof {
                    ordering::lemma_first_problem(findings, i as int);
                }
                return Err(error);
            },
        }
        i = i + 1;
    }
    proof {
        ordering::lemma_first_problem(findings, i as int);
    }
    Ok(())
}

fn validate_occurrences(source: &str, items: &[SourceOccurrence]) -> (result: Result<(), IndexStoreError>)
    ensures
        reports(result, ordering::first_problem(occurrence_findings(source@, items@))),
{
    let ghost findings = occurrence_findings(source@, items@);
    let mut i: usize = 0;
    while i < items.len()
        invariant
            findings == occurrence_findings(source@, items@),
            i <= items@.len(),
            forall|j: int| 0 <= j < i ==> (#[trigger] findings[j]) is None,
        decreases items@.len() - i,
    {
        match validate_occurrence(source, &items[i]) {
            Ok(()) => {},
            Err(error) => {
                proof {
                    ordering::lemma_first_problem(findings, i as int);
                }
                return Err(error);
            },
        }
        i = i + 1;
    }
    proof {
        ordering::lemma_first_problem(findings, i as int);
    }
    Ok(())
}

fn validate_references(source: &str, items: &[ReferenceEdge]) -> (result: Result<(), IndexStoreError>)
    ensures
        reports(result, ordering::first_problem(reference_findings(source@, items@))),
{
    let ghost findings = reference_findings(source@, items@);
    let mut i: usize = 0;
    while i < items.len()
        invariant
            findings == reference_findings(source@, items@),
            i <= items@.len(),
            forall|j: int| 0 <= j < i ==> (#[trigger] findings[j]) is None,
        decreases items@.len() - i,
    {
        match validate_occurrence(source, &items[i].source) {
            Ok(()) => {},
            Err(error) => {
                proof {
                    ordering::lemma_first_problem(findings, i as int);
                }
                return Err(error);
            },
        }
        i = i + 1;
    }
    proof {
        ordering::lemma_first_problem(findings, i as int);
    }
    Ok(())
}

fn validate_calls(source: &str, items: &[CallEdge]) -> (result: Result<(), IndexStoreError>)
    ensures
        reports(result, ordering::first_problem(call_findings(source@, items@))),
{
    let ghost findings = call_findings(source@, items@);
    let mut i: usize = 0;
    while i < items.len()
        invariant
            findings == call_findings(source@, items@),
            i <= items@.len(),
            forall|j: int| 0 <= j < i ==> (#[trigger] findings[j]) is None,
        decreases items@.len() - i,
    {
        match validate_occurrence(source, &items[i].source) {
            Ok(()) => {},
            Err(error) => {
                proof {
                    ordering::lemma_first_problem(findings, i as int);
                }
                return Err(error);
            },
        }
        i = i + 1;
    }
    proof {
        ordering::lemma_first_problem(findings, i as int);
    }
    Ok(())
}

fn validate_hierarchy(items: &[HierarchyEdge]) -> (result: Result<(), IndexStoreError>)
    ensures
        reports(result, ordering::first_problem(hierarchy_findings(items@))),
{
    let ghost findings = hierarchy_findings(items@);
    let mut i: usize = 0;
    while i < items.len()
        invariant
            findings == hierarchy_findings(items@),
            i <= items@.len(),
            forall|j: int| 0 <= j < i ==> (#[trigger] findings[j]) is None,
        decreases items@.len() - i,
    {
        match validate_provenance(&items[i].provenance) {
            Ok(()) => {},
            Err(error) => {
                proof {
                    ordering::lemma_first_problem(findings, i as int);
                }
                return Err(error);
            },
        }
        i = i + 1;
    }
    proof {
        ordering::lemma_first_problem(findings, i as int);
    }
    Ok(())
}

fn validate_types(items: &[TypeRecord]) -> (result: Result<(), IndexStoreError>)
    ensures
        reports(result, ordering::first_problem(type_findings(items@))),
{
    let ghost findings = type_findings(items@);
    let mut i: usize = 0;
    while i < items.len()
        invariant
            findings == type_findings(items@),
            i <= items@.len(),
            forall|j: int| 0 <= j < i ==> (#[trigger] findings[j]) is None,
        decreases items@.len() - i,
    {
        match validate_provenance(&items[i].provenance) {
            Ok(()) => {},
            Err(error) => {
                proof {
                    ordering::lemma_first_problem(findings, i as int);
                }
                return Err(error);
            },
        }
        i = i + 1;
    }
    proof {
        ordering::lemma_first_problem(findings, i as int);
    }
    Ok(())
}

fn validate_diagnostics(source: &str, items: &[DiagnosticRecord]) -> (result: Result<(), IndexStoreError>)
    ensures
        reports(result, ordering::first_problem(diagnostic_findings(source@, items@))),
{
    let ghost findings = diagnostic_findings(source@, items@);
    let mut i: usize = 0;
    while i < items.len()
        invariant
            findings == diagnostic_findings(source@, items@),
            i <= items@.len(),
            forall|j: int| 0 <= j < i ==> (#[trigger] findings[j]) is None,
        decreases items@.len() - i,
    {
        match validate_diagnostic(source, &items[i]) {
            Ok(()) => {},
            Err(error) => {
                proof {
                    ordering::lemma_first_problem(findings, i as int);
                }
                return Err(error);
            },
        }
        i = i + 1;
    }
    proof {
        ordering::lemma_first_problem(findings, i as int);
    }
    Ok(())
}

/// Refuses a snapshot that is not of the expected source unit and inputs, or
/// that holds a fact of another source unit, an invalid range or an
/// incompatible provenance.
pub fn validate_snapshot(expected: &SourceUnit, snapshot: &FileAnalysisSnapshot) -> (result: Result<
    (),
    IndexStoreError,
>)
    ensures
        reports(result, snapshot_problem(*expected, *snapshot)),
{
    if !snapshot.source_unit.id.same(&expected.id) {
        return Err(IndexStoreError::SourceUnitMismatch);
    }
    if !snapshot.source_unit.content.same(&expected.content) || !snapshot.source_unit.context.same(
        &expected.context,
    ) {
        return Err(IndexStoreError::SnapshotInputMismatch);
    }
    match validate_provenance(&snapshot.provenance) {
        Ok(()) => {},
        Err(error) => {
            return Err(error);
        },
    }
    let source = expected.id.as_str();
    match validate_symbols(source, snapshot.symbols.as_slice()) {
        Ok(()) => {},
        Err(error) => {
            return Err(error);
        },
    }
    match validate_occurrences(source, snapshot.occurrences.as_slice()) {
        Ok(()) => {},
        Err(error) => {
            return Err(error);
        },
    }
    match validate_references(source, snapshot.references.as_slice()) {
        Ok(()) => {},
        Err(error) => {
            return Err(error);
        },
    }
    match validate_calls(source, snapshot.calls.as_slice()) {
        Ok(()) => {},
        Err(error) => {
            return Err(error);
        },
    }
    match validate_hierarchy(snapshot.hierarchy.as_slice()) {
        Ok(()) => {},
        Err(error) => {
            return Err(error);
        },
    }
    match validate_types(snapshot.types.as_slice()) {
        Ok(()) => {},
        Err(error) => {
            return Err(error);
        },
    }
    validate_diagnostics(source, snapshot.diagnostics.as_slice())
}

/// The problem of a byte offset that is no signed 64-bit number.
pub open spec fn offset_problem(value: u64) -> Option<IndexStoreErrorView> {
    if value > i64::MAX {
        Some(IndexStoreErrorView::ByteOffsetOutOfRange { value })
    } else {
        None
    }
}

/// Converts a byte offset to the signed number that a column holds.
pub fn sqlite_offset(value: u64) -> (result: Result<i64, IndexStoreError>)
    ensures
        match offset_problem(value) {
            Some(problem) => result is Err && result->Err_0@ == problem,
            None => result is Ok && result->Ok_0 == value,
        },
{
    if value > i64::MAX as u64 {
        Err(IndexStoreError::ByteOffsetOutOfRange { value })
    } else {
        Ok(value as i64)
    }
}

/// The problem of the offsets of a range, the start first.
pub open spec fn offsets_problem(range: ByteRange) -> Option<IndexStoreErrorView> {
    earlier(offset_problem(range.start), offset_problem(range.end))
}

fn sqlite_range(range: &ByteRange) -> (result: Result<(i64, i64), IndexStoreError>)
    ensures
        match offsets_problem(*range) {
            Some(problem) => result is Err && result->Err_0@ == problem,
            None => result is Ok && result->Ok_0.0 == range.start && result->Ok_0.1 == range.end,
        },
{
    let start: i64 = match sqlite_offset(range.start) {
        Ok(start) => start,
        Err(error) => {
            return Err(error);
        },
    };
    match sqlite_offset(range.end) {
        Ok(end) => Ok((start, end)),
        Err(error) => Err(error),
    }
}

/// The tables that hold the facts of a source unit, in the order in which they
/// are cleared.
pub const FACT_TABLES: [&'static str; 8] = [
    "reference_edges",
    "call_edges",
    "hierarchy_edges",
    "type_records",
    "diagnostics",
    "occurrences",
    "symbols",
    "source_snapshots",
];

/// The name of an occurrence kind in the index.
pub open spec fn occurrence_kind_text(kind: OccurrenceKind) -> Seq<char> {
    match kind {
        OccurrenceKind::Declaration => "Declaration"@,
        OccurrenceKind::Reference => "Reference"@,
        OccurrenceKind::Call => "Call"@,
        OccurrenceKind::TypeReference => "TypeReference"@,
        OccurrenceKind::Import => "Import"@,
    }
}

/// Computes `occurrence_kind_text`.
pub fn occurrence_kind_name(kind: OccurrenceKind) -> (result: &'static str)
    ensures
        result@ == occurrence_kind_text(kind),
{
    match kind {
        OccurrenceKind::Declaration => "Declaration",
        OccurrenceKind::Reference => "Reference",
        OccurrenceKind::Call => "Call",
        OccurrenceKind::TypeReference => "TypeReference",
        OccurrenceKind::Import => "Import",
    }
}

/// The name of a severity in the index.
pub open spec fn severity_text(severity: DiagnosticSeverity) -> Seq<char> {
    match severity {
        DiagnosticSeverity::Error => "Error"@,
        DiagnosticSeverity::Warning => "Warning"@,
        DiagnosticSeverity::Information => "Information"@,
        DiagnosticSeverity::Hint => "Hint"@,
    }
}

/// Computes `severity_text`.
pub fn severity_name(severity: DiagnosticSeverity) -> (result: &'static str)
    ensures
        result@ == severity_text(severity),
{
    match severity {
        DiagnosticSeverity::Error => "Error",
        DiagnosticSeverity::Warning => "Warning",
        DiagnosticSeverity::Information => "Information",
        DiagnosticSeverity::Hint => "Hint",
    }
}

/// The lookup columns of a source unit.
#[derive(Debug, PartialEq, Eq)]
pub struct SourceRow {
    pub source_unit_id: String,
    pub component_id: String,
    pub workspace_path: String,
    pub content_fingerprint: String,
    pub context_fingerprint: String,
    pub protocol_version: u32,
}

/// The lookup columns of a symbol, and what its record holds beside them.
#[derive(Debug, PartialEq, Eq)]
pub struct SymbolRow {
    pub symbol_id: String,
    pub source_unit_id: String,
    pub name: String,
    pub name_start_byte: i64,
    pub record: StoredSymbolRecord,
}

/// The lookup columns of an occurrence.
#[derive(Debug, PartialEq, Eq)]
pub struct OccurrenceRow {
    pub source_unit_id: String,
    pub start_byte: i64,
    pub end_byte: i64,
    pub occurrence_kind: &'static str,
    pub target_symbol_id: Option<SymbolId>,
}

/// The lookup columns of a reference or a call.
#[derive(Debug, PartialEq, Eq)]
pub struct EdgeRow {
    pub source_unit_id: String,
    pub start_byte: i64,
    pub end_byte: i64,
    pub target_symbol_id: String,
}

/// The lookup columns of a hierarchy edge.
#[derive(Debug, PartialEq, Eq)]
pub struct HierarchyRow {
    pub source_unit_id: String,
    pub subtype_symbol_id: String,
    pub supertype_symbol_id: String,
}

/// The lookup columns of a type.
#[derive(Debug, PartialEq, Eq)]
pub struct TypeRow {
    pub source_unit_id: String,
    pub type_id: String,
}

/// The lookup columns of a diagnostic.
#[derive(Debug, PartialEq, Eq)]
pub struct DiagnosticRow {
    pub source_unit_id: String,
    pub range: Option<(i64, i64)>,
    pub severity: &'static str,
}

/// The rows that a snapshot becomes: the row at `i` of a table is of the fact
/// at `i` of the snapshot, whose record is stored beside it.
#[derive(Debug, PartialEq, Eq)]
pub struct SnapshotRows {
    pub source: SourceRow,
    pub symbols: Vec<SymbolRow>,
    pub occurrences: Vec<OccurrenceRow>,
    pub references: Vec<EdgeRow>,
    pub calls: Vec<EdgeRow>,
    pub hierarchy: Vec<HierarchyRow>,
    pub types: Vec<TypeRow>,
    pub diagnostics: Vec<DiagnosticRow>,
}

/// What a symbol keeps beside its lookup columns: the columns own identity and
/// lookup fields, the source unit owns component and provenance.
#[derive(Debug, Clone, PartialEq, Eq)]
pub struct StoredSymbolRecord {
    pub backend_key: BackendKey,
    pub language: Language,
    pub kind: SymbolKind,
    pub qualified_name: Option<String>,
    pub signature: Option<String>,
    pub declaration: ByteRange,
    pub name_range: ByteRange,
    pub owner: Option<SymbolId>,
    pub modifiers: Vec<String>,
    pub applied_symbols: Vec<SymbolId>,
    pub freshness: Freshness,
    pub completeness: Completeness,
}

impl StoredSymbolRecord {
    /// Whether a record keeps what a symbol holds beside the lookup columns.
    pub open spec fn keeps(&self, symbol: SymbolRecord) -> bool {
        &&& self.backend_key == symbol.backend_key
        &&& self.language == symbol.language
        &&& self.kind == symbol.kind
        &&& self.qualified_name == symbol.qualified_name
        &&& self.signature == symbol.signature
        &&& self.declaration == symbol.declaration.bytes
        &&& self.name_range == symbol.name_range.bytes
        &&& self.owner == symbol.owner
        &&& self.modifiers@ == symbol.modifiers@
        &&& self.applied_symbols@ == symbol.applied_symbols@
        &&& self.freshness == symbol.freshness
        &&& self.completeness == symbol.completeness
    }

    /// The record of a symbol.
    pub fn of(symbol: &SymbolRecord) -> (result: Self)
        ensures
            result.keeps(*symbol),
    {
        let result = StoredSymbolRecord {
            backend_key: symbol.backend_key.clone(),
            language: symbol.language.clone(),
            kind: symbol.kind,
            qualified_name: symbol.qualified_name.clone(),
            signature: symbol.signature.clone(),
            declaration: symbol.declaration.bytes,
            name_range: symbol.name_range.bytes,
            owner: symbol.owner.clone(),
            modifiers: symbol.modifiers.clone(),
            applied_symbols: symbol.applied_symbols.clone(),
            freshness: symbol.freshness,
            completeness: symbol.completeness,
        };
        assert(result.modifiers@ =~= symbol.modifiers@);
        assert(result.applied_symbols@ =~= symbol.applied_symbols@);
        result
    }

    /// The symbol of a record, with its lookup columns, the source unit that
    /// owns it and the provenance of its snapshot.
    pub fn into_symbol(
        self,
        id: SymbolId,
        name: String,
        source_unit: &SourceUnit,
        provenance: &Provenance,
    ) -> (result: SymbolRecord)
        ensures
            self.keeps(result),
            result.id == id,
            result.name == name,
            result.component == source_unit.component,
            result.declaration.source_unit == source_unit.id,
            result.name_range.source_unit == source_unit.id,
            result.provenance == *provenance,
    {
        SymbolRecord {
            id,
            backend_key: self.backend_key,
            language: self.language,
            kind: self.kind,
            name,
            qualified_name: self.qualified_name,
            signature: self.signature,
            component: source_unit.component.clone(),
            declaration: SourceRange {
                source_unit: source_unit.id.clone(),
                bytes: self.declaration,
            },
            name_range: SourceRange { source_unit: source_unit.id.clone(), bytes: self.name_range },
            owner: self.owner,
            modifiers: self.modifiers,
            applied_symbols: self.applied_symbols,
            freshness: self.freshness,
            completeness: self.completeness,
            provenance: provenance.clone(),
        }
    }
}

/// A symbol that is stored and read back is the same symbol, wherever its
/// component, owner and provenance are those of its source unit and snapshot.
pub proof fn law_stored_symbol_round_trip(
    symbol: SymbolRecord,
    stored: StoredSymbolRecord,
    restored: SymbolRecord,
    source_unit: SourceUnit,
    provenance: Provenance,
)
    requires
        stored.keeps(symbol),
        symbol.component == source_unit.component,
        symbol.declaration.source_unit == source_unit.id,
        symbol.name_range.source_unit == source_unit.id,
        symbol.provenance == provenance,
        stored.keeps(restored),
        restored.id == symbol.id,
        restored.name == symbol.name,
        restored.component == source_unit.component,
        restored.declaration.source_unit == source_unit.id,
        restored.name_range.source_unit == source_unit.id,
        restored.provenance == provenance,
    ensures
        restored@ == symbol@,
{
}

/// Frames the payload of a symbol record with its format version.
pub fn encode_stored_symbol(payload: &[u8]) -> (result: Vec<u8>)
    ensures
        result@ == seq![SYMBOL_RECORD_FORMAT_VERSION] + payload@,
{
    let mut encoded: Vec<u8> = Vec::new();
    encoded.push(SYMBOL_RECORD_FORMAT_VERSION);
    crate::digest::append_bytes(&mut encoded, payload);
    assert(encoded@ =~= seq![SYMBOL_RECORD_FORMAT_VERSION] + payload@);
    encoded
}

/// Takes the payload out of a framed symbol record of the supported version.
pub fn decode_stored_symbol(encoded: &[u8]) -> (result: Result<Vec<u8>, IndexStoreError>)
    ensures
        if encoded@.len() == 0 {
            result is Err && result->Err_0@
                == (IndexStoreErrorView::IncompatibleSymbolRecordFormat { found: 0 })
        } else if encoded@[0] != SYMBOL_RECORD_FORMAT_VERSION {
            result is Err && result->Err_0@
                == (IndexStoreErrorView::IncompatibleSymbolRecordFormat { found: encoded@[0] })
        } else {
            result is Ok && result->Ok_0@ == encoded@.skip(1)
        },
{
    let len: usize = encoded.len();
    if len == 0 {
        return Err(IndexStoreError::IncompatibleSymbolRecordFormat { found: 0 });
    }
    let version: u8 = encoded[0];
    if version != SYMBOL_RECORD_FORMAT_VERSION {
        return Err(IndexStoreError::IncompatibleSymbolRecordFormat { found: version });
    }
    let mut payload: Vec<u8> = Vec::new();
    crate::digest::append_bytes(&mut payload, &encoded[1..len]);
    assert(payload@ =~= encoded@.skip(1));
    Ok(payload)
}

/// A framed payload is read back as it was.
pub proof fn law_symbol_frame_round_trip(payload: Seq<u8>)
    ensures
        ({
            let encoded = seq![SYMBOL_RECORD_FORMAT_VERSION] + payload;
            &&& encoded.len() > 0
            &&& encoded[0] == SYMBOL_RECORD_FORMAT_VERSION
            &&& encoded.skip(1) == payload
        }),
{
    assert((seq![SYMBOL_RECORD_FORMAT_VERSION] + payload).skip(1) =~= payload);
}

/// The index format that a stored version stands for: an unreadable one for
/// the greatest.
pub open spec fn stored_format(value: Seq<char>) -> u32 {
    match text::number_value(value) {
        Some(number) => if number <= u32::MAX {
            number as u32
        } else {
            u32::MAX
        },
        None => u32::MAX,
    }
}

/// Checks the format version of an opened index. A new index is to be given
/// the current one.
pub fn check_index_format(stored: Option<&str>) -> (result: Result<bool, IndexStoreError>)
    ensures
        match stored {
            None => result == Ok::<bool, IndexStoreError>(true),
            Some(value) => if stored_format(value@) == INDEX_FORMAT_VERSION {
                result == Ok::<bool, IndexStoreError>(false)
            } else {
                result is Err && result->Err_0@ == (IndexStoreErrorView::IncompatibleIndexFormat {
                    found: stored_format(value@),
                    supported: INDEX_FORMAT_VERSION,
                })
            },
        },
{
    match stored {
        None => Ok(true),
        Some(value) => {
            let found: u32 = match text::parse_number(value, u32::MAX as u64) {
                Some(number) => number as u32,
                None => u32::MAX,
            };
            if found != INDEX_FORMAT_VERSION {
                return Err(
                    IndexStoreError::IncompatibleIndexFormat {
                        found,
                        supported: INDEX_FORMAT_VERSION,
                    },
                );
            }
            Ok(false)
        },
    }
}

/// Whether a row holds the lookup columns of the source unit of a snapshot.
pub open spec fn is_source_row(row: SourceRow, snapshot: FileAnalysisSnapshot) -> bool {
    let source = snapshot.source_unit;
    &&& row.source_unit_id@ == source.id@
    &&& row.component_id@ == source.component@
    &&& row.workspace_path@ == source.path@
    &&& row.content_fingerprint@ == source.content@
    &&& row.context_fingerprint@ == source.context@
    &&& row.protocol_version == snapshot.provenance.protocol_version
}

/// Whether a row is of a symbol.
pub open spec fn is_symbol_row(row: SymbolRow, source: Seq<char>, symbol: SymbolRecord) -> bool {
    &&& row.symbol_id@ == symbol.id@
    &&& row.source_unit_id@ == source
    &&& row.name@ == symbol.name@
    &&& row.name_start_byte == symbol.name_range.bytes.start
    &&& row.record.keeps(symbol)
}

/// Whether a row is of an occurrence.
pub open spec fn is_occurrence_row(
    row: OccurrenceRow,
    source: Seq<char>,
    occurrence: SourceOccurrence,
) -> bool {
    &&& row.source_unit_id@ == source
    &&& row.start_byte == occurrence.range.bytes.start
    &&& row.end_byte == occurrence.range.bytes.end
    &&& row.occurrence_kind@ == occurrence_kind_text(occurrence.kind)
    &&& row.target_symbol_id == occurrence.target
}

/// Whether a row is of an edge from an occurrence to a target.
pub open spec fn is_edge_row(
    row: EdgeRow,
    source: Seq<char>,
    from: SourceOccurrence,
    target: SymbolId,
) -> bool {
    &&& row.source_unit_id@ == source
    &&& row.start_byte == from.range.bytes.start
    &&& row.end_byte == from.range.bytes.end
    &&& row.target_symbol_id@ == target@
}

/// Whether a row is of a hierarchy edge.
pub open spec fn is_hierarchy_row(row: HierarchyRow, source: Seq<char>, edge: HierarchyEdge) -> bool {
    &&& row.source_unit_id@ == source
    &&& row.subtype_symbol_id@ == edge.subtype@
    &&& row.supertype_symbol_id@ == edge.supertype@
}

/// Whether a row is of a type.
pub open spec fn is_type_row(row: TypeRow, source: Seq<char>, ty: TypeRecord) -> bool {
    row.source_unit_id@ == source && row.type_id@ == ty.id@
}

/// Whether a row is of a diagnostic.
pub open spec fn is_diagnostic_row(
    row: DiagnosticRow,
    source: Seq<char>,
    diagnostic: DiagnosticRecord,
) -> bool {
    &&& row.source_unit_id@ == source
    &&& match diagnostic.range {
        Some(range) => row.range is Some && row.range->Some_0.0 == range.start
            && row.range->Some_0.1 == range.end,
        None => row.range is None,
    }
    &&& row.severity@ == severity_text(diagnostic.severity)
}

/// The offset problem of each symbol.
pub open spec fn symbol_offsets(symbols: Seq<SymbolRecord>) -> Seq<Option<IndexStoreErrorView>> {
    Seq::new(symbols.len(), |i: int| offset_problem(symbols[i].name_range.bytes.start))
}

/// The offset problem of each occurrence.
pub open spec fn occurrence_offsets(occurrences: Seq<SourceOccurrence>) -> Seq<
    Option<IndexStoreErrorView>,
> {
    Seq::new(occurrences.len(), |i: int| offsets_problem(occurrences[i].range.bytes))
}

/// The offset problem of each reference.
pub open spec fn reference_offsets(references: Seq<ReferenceEdge>) -> Seq<
    Option<IndexStoreErrorView>,
> {
    Seq::new(references.len(), |i: int| offsets_problem(references[i].source.range.bytes))
}

/// The offset problem of each call.
pub open spec fn call_offsets(calls: Seq<CallEdge>) -> Seq<Option<IndexStoreErrorView>> {
    Seq::new(calls.len(), |i: int| offsets_problem(calls[i].source.range.bytes))
}

/// The offset problem of a diagnostic.
pub open spec fn diagnostic_offset(diagnostic: DiagnosticRecord) -> Option<IndexStoreErrorView> {
    match diagnostic.range {
        Some(range) => offsets_problem(range),
        None => None,
    }
}

/// The offset problem of each diagnostic.
pub open spec fn diagnostic_offsets(diagnostics: Seq<DiagnosticRecord>) -> Seq<
    Option<IndexStoreErrorView>,
> {
    Seq::new(diagnostics.len(), |i: int| diagnostic_offset(diagnostics[i]))
}

/// The first offset of a snapshot that no column can hold, in the order of the
/// tables.
pub open spec fn rows_problem(snapshot: FileAnalysisSnapshot) -> Option<IndexStoreErrorView> {
    earlier(
        ordering::first_problem(symbol_offsets(snapshot.symbols@)),
        earlier(
            ordering::first_problem(occurrence_offsets(snapshot.occurrences@)),
            earlier(
                ordering::first_problem(reference_offsets(snapshot.references@)),
                earlier(
                    ordering::first_problem(call_offsets(snapshot.calls@)),
                    ordering::first_problem(diagnostic_offsets(snapshot.diagnostics@)),
                ),
            ),
        ),
    )
}

/// Whether rows are one for each fact of a snapshot, in the order of the facts.
pub open spec fn are_rows_of(rows: SnapshotRows, snapshot: FileAnalysisSnapshot) -> bool {
    let source = snapshot.source_unit.id@;
    &&& is_source_row(rows.source, snapshot)
    &&& are_symbol_rows(rows.symbols@, source, snapshot.symbols@)
    &&& are_occurrence_rows(rows.occurrences@, source, snapshot.occurrences@)
    &&& are_reference_rows(rows.references@, source, snapshot.references@)
    &&& are_call_rows(rows.calls@, source, snapshot.calls@)
    &&& are_hierarchy_rows(rows.hierarchy@, source, snapshot.hierarchy@)
    &&& are_type_rows(rows.types@, source, snapshot.types@)
    &&& are_diagnostic_rows(rows.diagnostics@, source, snapshot.diagnostics@)
}

/// Whether rows are those of the symbols, in order.
pub open spec fn are_symbol_rows(rows: Seq<SymbolRow>, source: Seq<char>, symbols: Seq<SymbolRecord>) -> bool {
    &&& rows.len() == symbols.len()
    &&& forall|i: int| 0 <= i < symbols.len() ==> is_symbol_row(#[trigger] rows[i], source, symbols[i])
}

fn plan_symbol_rows(source: &str, items: &[SymbolRecord]) -> (result: Result<Vec<SymbolRow>, IndexStoreError>)
    ensures
        match ordering::first_problem(symbol_offsets(items@)) {
            Some(problem) => result is Err && result->Err_0@ == problem,
            None => result is Ok && are_symbol_rows(result->Ok_0@, source@, items@),
        },
{
    let ghost findings = symbol_offsets(items@);
    let mut rows: Vec<SymbolRow> = Vec::new();
    let mut i: usize = 0;
    while i < items.len()
        invariant
            findings == symbol_offsets(items@),
            i <= items@.len(),
            forall|j: int| 0 <= j < i ==> (#[trigger] findings[j]) is None,
            rows@.len() == i,
            forall|j: int| 0 <= j < i ==> is_symbol_row(#[trigger] rows@[j], source@, items@[j]),
        decreases items@.len() - i,
    {
        let symbol = &items[i];
        let name_start_byte: i64 = match sqlite_offset(symbol.name_range.bytes.start) {
            Ok(start) => start,
            Err(error) => {
                proof {
                    ordering::lemma_first_problem(findings, i as int);
                }
                return Err(error);
            },
        };
        rows.push(
            SymbolRow {
                symbol_id: symbol.id.as_str().to_owned(),
                source_unit_id: source.to_owned(),
                name: symbol.name.clone(),
                name_start_byte,
                record: StoredSymbolRecord::of(symbol),
            },
        );
        i = i + 1;
    }
    proof {
        ordering::lemma_first_problem(findings, i as int);
    }
    Ok(rows)
}

/// Whether rows are those of the occurrences, in order.
pub open spec fn are_occurrence_rows(rows: Seq<OccurrenceRow>, source: Seq<char>, occurrences: Seq<SourceOccurrence>) -> bool {
    &&& rows.len() == occurrences.len()
    &&& forall|i: int| 0 <= i < occurrences.len() ==> is_occurrence_row(#[trigger] rows[i], source, occurrences[i])
}

fn plan_occurrence_rows(source: &str, items: &[SourceOccurrence]) -> (result: Result<Vec<OccurrenceRow>, IndexStoreError>)
    ensures
        match ordering::first_problem(occurrence_offsets(items@)) {
            Some(problem) => result is Err && result->Err_0@ == problem,
            None => result is Ok && are_occurrence_rows(result->Ok_0@, source@, items@),
        },
{
    let ghost findings = occurrence_offsets(items@);
    let mut rows: Vec<OccurrenceRow> = Vec::new();
    let mut i: usize = 0;
    while i < items.len()
        invariant
            findings == occurrence_offsets(items@),
            i <= items@.len(),
            forall|j: int| 0 <= j < i ==> (#[trigger] findings[j]) is None,
            rows@.len() == i,
            forall|j: int| 0 <= j < i ==> is_occurrence_row(#[trigger] rows@[j], source@, items@[j]),
        decreases items@.len() - i,
    {
        let occurrence = &items[i];
        let (start_byte, end_byte) = match sqlite_range(&occurrence.range.bytes) {
            Ok(range) => range,
            Err(error) => {
                proof {
                    ordering::lemma_first_problem(findings, i as int);
                }
                return Err(error);
            },
        };
        rows.push(
            OccurrenceRow {
                source_unit_id: source.to_owned(),
                start_byte,
                end_byte,
                occurrence_kind: occurrence_kind_name(occurrence.kind),
                target_symbol_id: occurrence.target.clone(),
            },
        );
        i = i + 1;
    }
    proof {
        ordering::lemma_first_problem(findings, i as int);
    }
    Ok(rows)
}

/// Whether rows are those of the references, in order.
pub open spec fn are_reference_rows(rows: Seq<EdgeRow>, source: Seq<char>, references: Seq<ReferenceEdge>) -> bool {
    &&& rows.len() == references.len()
    &&& forall|i: int| 0 <= i < references.len() ==> is_edge_row(#[trigger] rows[i], source, references[i].source, references[i].target)
}

fn plan_reference_rows(source: &str, items: &[ReferenceEdge]) -> (result: Result<Vec<EdgeRow>, IndexStoreError>)
    ensures
        match ordering::first_problem(reference_offsets(items@)) {
            Some(problem) => result is Err && result->Err_0@ == problem,
            None => result is Ok && are_reference_rows(result->Ok_0@, source@, items@),
        },
{
    let ghost findings = reference_offsets(items@);
    let mut rows: Vec<EdgeRow> = Vec::new();
    let mut i: usize = 0;
    while i < items.len()
        invariant
            findings == reference_offsets(items@),
            i <= items@.len(),
            forall|j: int| 0 <= j < i ==> (#[trigger] findings[j]) is None,
            rows@.len() == i,
            forall|j: int| 0 <= j < i ==> is_edge_row(#[trigger] rows@[j], source@, items@[j].source, items@[j].target),
        decreases items@.len() - i,
    {
        let edge = &items[i];
        let (start_byte, end_byte) = match sqlite_range(&edge.source.range.bytes) {
            Ok(range) => range,
            Err(error) => {
                proof {
                    ordering::lemma_first_problem(findings, i as int);
                }
                return Err(error);
            },
        };
        rows.push(
            EdgeRow {
                source_unit_id: source.to_owned(),
                start_byte,
                end_byte,
                target_symbol_id: edge.target.as_str().to_owned(),
            },
        );
        i = i + 1;
    }
    proof {
        ordering::lemma_first_problem(findings, i as int);
    }
    Ok(rows)
}

/// Whether rows are those of the calls, in order.
pub open spec fn are_call_rows(rows: Seq<EdgeRow>, source: Seq<char>, calls: Seq<CallEdge>) -> bool {
    &&& rows.len() == calls.len()
    &&& forall|i: int| 0 <= i < calls.len() ==> is_edge_row(#[trigger] rows[i], source, calls[i].source, calls[i].target)
}

fn plan_call_rows(source: &str, items: &[CallEdge]) -> (result: Result<Vec<EdgeRow>, IndexStoreError>)
    ensures
        match ordering::first_problem(call_offsets(items@)) {
            Some(problem) => result is Err && result->Err_0@ == problem,
            None => result is Ok && are_call_rows(result->Ok_0@, source@, items@),
        },
{
    let ghost findings = call_offsets(items@);
    let mut rows: Vec<EdgeRow> = Vec::new();
    let mut i: usize = 0;
    while i < items.len()
        invariant
            findings == call_offsets(items@),
            i <= items@.len(),
            forall|j: int| 0 <= j < i ==> (#[trigger] findings[j]) is None,
            rows@.len() == i,
            forall|j: int| 0 <= j < i ==> is_edge_row(#[trigger] rows@[j], source@, items@[j].source, items@[j].target),
        decreases items@.len() - i,
    {
        let edge = &items[i];
        let (start_byte, end_byte) = match sqlite_range(&edge.source.range.bytes) {
            Ok(range) => range,
            Err(error) => {
                proof {
                    ordering::lemma_first_problem(findings, i as int);
                }
                return Err(error);
            },
        };
        rows.push(
            EdgeRow {
                source_unit_id: source.to_owned(),
                start_byte,
                end_byte,
                target_symbol_id: edge.target.as_str().to_owned(),
            },
        );
        i = i + 1;
    }
    proof {
        ordering::lemma_first_problem(findings, i as int);
    }
    Ok(rows)
}

/// Whether rows are those of the hierarchy edges, in order.
pub open spec fn are_hierarchy_rows(rows: Seq<HierarchyRow>, source: Seq<char>, hierarchy: Seq<HierarchyEdge>) -> bool {
    &&& rows.len() == hierarchy.len()
    &&& forall|i: int| 0 <= i < hierarchy.len() ==> is_hierarchy_row(#[trigger] rows[i], source, hierarchy[i])
}

fn plan_hierarchy_rows(source: &str, items: &[HierarchyEdge]) -> (result: Vec<HierarchyRow>)
    ensures
        are_hierarchy_rows(result@, source@, items@),
{
    let mut rows: Vec<HierarchyRow> = Vec::new();
    let mut i: usize = 0;
    while i < items.len()
        invariant
            i <= items@.len(),
            rows@.len() == i,
            forall|j: int| 0 <= j < i ==> is_hierarchy_row(#[trigger] rows@[j], source@, items@[j]),
        decreases items@.len() - i,
    {
        rows.push(
            HierarchyRow {
                source_unit_id: source.to_owned(),
                subtype_symbol_id: items[i].subtype.as_str().to_owned(),
                supertype_symbol_id: items[i].supertype.as_str().to_owned(),
            },
        );
        i = i + 1;
    }
    rows
}

/// Whether rows are those of the types, in order.
pub open spec fn are_type_rows(rows: Seq<TypeRow>, source: Seq<char>, types: Seq<TypeRecord>) -> bool {
    &&& rows.len() == types.len()
    &&& forall|i: int| 0 <= i < types.len() ==> is_type_row(#[trigger] rows[i], source, types[i])
}

fn plan_type_rows(source: &str, items: &[TypeRecord]) -> (result: Vec<TypeRow>)
    ensures
        are_type_rows(result@, source@, items@),
{
    let mut rows: Vec<TypeRow> = Vec::new();
    let mut i: usize = 0;
    while i < items.len()
        invariant
            i <= items@.len(),
            rows@.len() == i,
            forall|j: int| 0 <= j < i ==> is_type_row(#[trigger] rows@[j], source@, items@[j]),
        decreases items@.len() - i,
    {
        rows.push(
            TypeRow {
                source_unit_id: source.to_owned(),
                type_id: items[i].id.as_str().to_owned(),
            },
        );
        i = i + 1;
    }
    rows
}

/// Whether rows are those of the diagnostics, in order.
pub open spec fn are_diagnostic_rows(rows: Seq<DiagnosticRow>, source: Seq<char>, diagnostics: Seq<DiagnosticRecord>) -> bool {
    &&& rows.len() == diagnostics.len()
    &&& forall|i: int| 0 <= i < diagnostics.len() ==> is_diagnostic_row(#[trigger] rows[i], source, diagnostics[i])
}

fn plan_diagnostic_rows(source: &str, items: &[DiagnosticRecord]) -> (result: Result<Vec<DiagnosticRow>, IndexStoreError>)
    ensures
        match ordering::first_problem(diagnostic_offsets(items@)) {
            Some(problem) => result is Err && result->Err_0@ == problem,
            None => result is Ok && are_diagnostic_rows(result->Ok_0@, source@, items@),
        },
{
    let ghost findings = diagnostic_offsets(items@);
    let mut rows: Vec<DiagnosticRow> = Vec::new();
    let mut i: usize = 0;
    while i < items.len()
        invariant
            findings == diagnostic_offsets(items@),
            i <= items@.len(),
            forall|j: int| 0 <= j < i ==> (#[trigger] findings[j]) is None,
            rows@.len() == i,
            forall|j: int| 0 <= j < i ==> is_diagnostic_row(#[trigger] rows@[j], source@, items@[j]),
        decreases items@.len() - i,
    {
        let diagnostic = &items[i];
        let range: Option<(i64, i64)> = match &diagnostic.range {
            Some(range) => match sqlite_range(range) {
                Ok(range) => Some(range),
                Err(error) => {
                    proof {
                        ordering::lemma_first_problem(findings, i as int);
                    }
                    return Err(error);
                },
            },
            None => None,
        };
        rows.push(
            DiagnosticRow {
                source_unit_id: source.to_owned(),
                range,
                severity: severity_name(diagnostic.severity),
            },
        );
        i = i + 1;
    }
    proof {
        ordering::lemma_first_problem(findings, i as int);
    }
    Ok(rows)
}

/// Plans the rows of a snapshot.
pub fn snapshot_rows(snapshot: &FileAnalysisSnapshot) -> (result: Result<
    SnapshotRows,
    IndexStoreError,
>)
    ensures
        match rows_problem(*snapshot) {
            Some(problem) => result is Err && result->Err_0@ == problem,
            None => result is Ok && are_rows_of(result->Ok_0, *snapshot),
        },
{
    let id = snapshot.source_unit.id.as_str();
    let source = SourceRow {
        source_unit_id: id.to_owned(),
        component_id: snapshot.source_unit.component.as_str().to_owned(),
        workspace_path: snapshot.source_unit.path.as_str().to_owned(),
        content_fingerprint: snapshot.source_unit.content.as_str().to_owned(),
        context_fingerprint: snapshot.source_unit.context.as_str().to_owned(),
        protocol_version: snapshot.provenance.protocol_version,
    };
    let symbols = match plan_symbol_rows(id, snapshot.symbols.as_slice()) {
        Ok(rows) => rows,
        Err(error) => {
            return Err(error);
        },
    };
    let occurrences = match plan_occurrence_rows(id, snapshot.occurrences.as_slice()) {
        Ok(rows) => rows,
        Err(error) => {
            return Err(error);
        },
    };
    let references = match plan_reference_rows(id, snapshot.references.as_slice()) {
        Ok(rows) => rows,
        Err(error) => {
            return Err(error);
        },
    };
    let calls = match plan_call_rows(id, snapshot.calls.as_slice()) {
        Ok(rows) => rows,
        Err(error) => {
            return Err(error);
        },
    };
    let hierarchy = plan_hierarchy_rows(id, snapshot.hierarchy.as_slice());
    let types = plan_type_rows(id, snapshot.types.as_slice());
    let diagnostics = match plan_diagnostic_rows(id, snapshot.diagnostics.as_slice()) {
        Ok(rows) => rows,
        Err(error) => {
            return Err(error);
        },
    };
    Ok(
        SnapshotRows {
            source,
            symbols,
            occurrences,
            references,
            calls,
            hierarchy,
            types,
            diagnostics,
        },
    )
}

/// The problem of replacing the facts of a source unit: of the snapshot, then
/// of its rows.
pub open spec fn replacement_problem(
    expected: SourceUnit,
    snapshot: FileAnalysisSnapshot,
) -> Option<IndexStoreErrorView> {
    earlier(snapshot_problem(expected, snapshot), rows_problem(snapshot))
}

/// Plans the one transaction that replaces every fact of a source unit: the
/// facts of the unit are cleared from all fact tables, then the rows written.
/// Nothing is planned for a snapshot that is refused.
pub fn replace_snapshot(expected: &SourceUnit, snapshot: &FileAnalysisSnapshot) -> (result: Result<
    SnapshotRows,
    IndexStoreError,
>)
    ensures
        match replacement_problem(*expected, *snapshot) {
            Some(problem) => result is Err && result->Err_0@ == problem,
            None => result is Ok && are_rows_of(result->Ok_0, *snapshot),
        },
{
    match validate_snapshot(expected, snapshot) {
        Ok(()) => {},
        Err(error) => {
            return Err(error);
        },
    }
    snapshot_rows(snapshot)
}

/// A replacement that is planned writes rows of the expected source unit only,
/// so it leaves the facts of every other source unit as they are.
pub proof fn law_replacement_stays_in_its_unit(
    expected: SourceUnit,
    snapshot: FileAnalysisSnapshot,
    rows: SnapshotRows,
)
    requires
        replacement_problem(expected, snapshot) is None,
        are_rows_of(rows, snapshot),
    ensures
        rows.source.source_unit_id@ == expected.id@,
        forall|i: int|
            0 <= i < rows.symbols@.len() ==> (#[trigger] rows.symbols@[i]).source_unit_id@
                == expected.id@,
        forall|i: int|
            0 <= i < rows.occurrences@.len() ==> (#[trigger] rows.occurrences@[i]).source_unit_id@
                == expected.id@,
        forall|i: int|
            0 <= i < rows.references@.len() ==> (#[trigger] rows.references@[i]).source_unit_id@
                == expected.id@,
        forall|i: int|
            0 <= i < rows.calls@.len() ==> (#[trigger] rows.calls@[i]).source_unit_id@
                == expected.id@,
        forall|i: int|
            0 <= i < rows.hierarchy@.len() ==> (#[trigger] rows.hierarchy@[i]).source_unit_id@
                == expected.id@,
        forall|i: int|
            0 <= i < rows.types@.len() ==> (#[trigger] rows.types@[i]).source_unit_id@
                == expected.id@,
        forall|i: int|
            0 <= i < rows.diagnostics@.len() ==> (#[trigger] rows.diagnostics@[i]).source_unit_id@
                == expected.id@,
{
}

/// A snapshot whose inputs changed since they were listed is never written.
pub proof fn law_changed_inputs_are_refused(expected: SourceUnit, snapshot: FileAnalysisSnapshot)
    requires
        snapshot.source_unit.id@ == expected.id@,
        snapshot.source_unit.content@ != expected.content@ || snapshot.source_unit.context@
            != expected.context@,
    ensures
        replacement_problem(expected, snapshot) == Some(IndexStoreErrorView::SnapshotInputMismatch),
{
}

/// A snapshot, or a fact in it, of another protocol version is never written.
pub proof fn law_other_protocols_are_refused(
    expected: SourceUnit,
    snapshot: FileAnalysisSnapshot,
    i: int,
)
    requires
        snapshot.provenance.protocol_version != WORKER_PROTOCOL_VERSION || (0 <= i
            < snapshot.symbols@.len() && snapshot.symbols@[i].provenance.protocol_version
            != WORKER_PROTOCOL_VERSION),
    ensures
        replacement_problem(expected, snapshot) is Some,
{
    if facts_problem(expected.id@, snapshot) is None {
        let findings = symbol_findings(expected.id@, snapshot.symbols@);
        ordering::lemma_no_first_problem(findings);
        if 0 <= i < snapshot.symbols@.len() {
            assert(findings[i] is None);
        }
    }
}

/// A snapshot that is accepted is of the expected source unit and its inputs and
/// of the supported protocol, and every symbol and occurrence in it lies in that
/// unit with ranges that do not end before they start.
pub proof fn law_accepted_snapshot_is_of_its_unit(
    expected: &SourceUnit,
    snapshot: &FileAnalysisSnapshot,
    s: int,
    o: int,
)
    requires
        call_ensures(validate_snapshot, (expected, snapshot), Ok::<(), IndexStoreError>(())),
        0 <= s < snapshot.symbols@.len(),
        0 <= o < snapshot.occurrences@.len(),
    ensures
        snapshot.source_unit.id@ == expected.id@,
        snapshot.source_unit.content@ == expected.content@,
        snapshot.source_unit.context@ == expected.context@,
        snapshot.provenance.protocol_version == WORKER_PROTOCOL_VERSION,
        ({
            let symbol = snapshot.symbols@[s];
            &&& symbol.provenance.protocol_version == WORKER_PROTOCOL_VERSION
            &&& symbol.declaration.source_unit@ == expected.id@
            &&& symbol.name_range.source_unit@ == expected.id@
            &&& symbol.declaration.bytes.start <= symbol.declaration.bytes.end
            &&& symbol.name_range.bytes.start <= symbol.name_range.bytes.end
        }),
        ({
            let occurrence = snapshot.occurrences@[o];
            &&& occurrence.provenance.protocol_version == WORKER_PROTOCOL_VERSION
            &&& occurrence.range.source_unit@ == expected.id@
            &&& occurrence.range.bytes.start <= occurrence.range.bytes.end
        }),
{
    let symbols = symbol_findings(expected.id@, snapshot.symbols@);
    ordering::lemma_no_first_problem(symbols);
    assert(symbols[s] is None);
    let occurrences = occurrence_findings(expected.id@, snapshot.occurrences@);
    ordering::lemma_no_first_problem(occurrences);
    assert(occurrences[o] is None);
}

/// The edges and diagnostics of an accepted snapshot lie in its unit, too.
pub proof fn law_accepted_edges_are_of_their_unit(
    expected: &SourceUnit,
    snapshot: &FileAnalysisSnapshot,
    i: int,
)
    requires
        call_ensures(validate_snapshot, (expected, snapshot), Ok::<(), IndexStoreError>(())),
    ensures
        0 <= i < snapshot.references@.len() ==> snapshot.references@[i].source.range.source_unit@
            == expected.id@ && snapshot.references@[i].source.range.bytes.start
            <= snapshot.references@[i].source.range.bytes.end,
        0 <= i < snapshot.calls@.len() ==> snapshot.calls@[i].source.range.source_unit@
            == expected.id@ && snapshot.calls@[i].source.range.bytes.start
            <= snapshot.calls@[i].source.range.bytes.end,
        0 <= i < snapshot.hierarchy@.len()
            ==> snapshot.hierarchy@[i].provenance.protocol_version == WORKER_PROTOCOL_VERSION,
        0 <= i < snapshot.types@.len() ==> snapshot.types@[i].provenance.protocol_version
            == WORKER_PROTOCOL_VERSION,
        0 <= i < snapshot.diagnostics@.len() ==> snapshot.diagnostics@[i].source_unit@
            == expected.id@,
{
    let references = reference_findings(expected.id@, snapshot.references@);
    let calls = call_findings(expected.id@, snapshot.calls@);
    let hierarchy = hierarchy_findings(snapshot.hierarchy@);
    let types = type_findings(snapshot.types@);
    let diagnostics = diagnostic_findings(expected.id@, snapshot.diagnostics@);
    ordering::lemma_no_first_problem(references);
    ordering::lemma_no_first_problem(calls);
    ordering::lemma_no_first_problem(hierarchy);
    ordering::lemma_no_first_problem(types);
    ordering::lemma_no_first_problem(diagnostics);
    if 0 <= i < references.len() {
        assert(references[i] is None);
    }
    if 0 <= i < calls.len() {
        assert(calls[i] is None);
    }
    if 0 <= i < hierarchy.len() {
        assert(hierarchy[i] is None);
    }
    if 0 <= i < types.len() {
        assert(types[i] is None);
    }
    if 0 <= i < diagnostics.len() {
        assert(diagnostics[i] is None);
    }
}

/// A snapshot of another unit or of other inputs is refused with that reason.
pub proof fn law_foreign_snapshot_is_refused(
    expected: &SourceUnit,
    snapshot: &FileAnalysisSnapshot,
    result: Result<(), IndexStoreError>,
)
    requires
        call_ensures(validate_snapshot, (expected, snapshot), result),
    ensures
        snapshot.source_unit.id@ != expected.id@ ==> result is Err
            && result->Err_0 is SourceUnitMismatch,
        snapshot.source_unit.id@ == expected.id@ && (snapshot.source_unit.content@
            != expected.content@ || snapshot.source_unit.context@ != expected.context@)
            ==> result is Err && result->Err_0 is SnapshotInputMismatch,
        snapshot.source_unit.id@ == expected.id@ && snapshot.source_unit.content@
            == expected.content@ && snapshot.source_unit.context@ == expected.context@
            && snapshot.provenance.protocol_version == WORKER_PROTOCOL_VERSION
            && snapshot.symbols@.len() == 0 && snapshot.occurrences@.len() == 0
            && snapshot.references@.len() == 0 && snapshot.calls@.len() == 0
            && snapshot.hierarchy@.len() == 0 && snapshot.types@.len() == 0
            && snapshot.diagnostics@.len() == 0 ==> result is Ok,
{
    assert(symbol_findings(expected.id@, snapshot.symbols@).len() == snapshot.symbols@.len());
    assert(occurrence_findings(expected.id@, snapshot.occurrences@).len()
        == snapshot.occurrences@.len());
    assert(reference_findings(expected.id@, snapshot.references@).len()
        == snapshot.references@.len());
    assert(call_findings(expected.id@, snapshot.calls@).len() == snapshot.calls@.len());
    assert(hierarchy_findings(snapshot.hierarchy@).len() == snapshot.hierarchy@.len());
    assert(type_findings(snapshot.types@).len() == snapshot.types@.len());
    assert(diagnostic_findings(expected.id@, snapshot.diagnostics@).len()
        == snapshot.diagnostics@.len());
}

/// A planned replacement writes one row for every fact of the snapshot, with the
/// fact's own ids and offsets.
pub proof fn law_replacement_writes_every_fact(
    expected: &SourceUnit,
    snapshot: &FileAnalysisSnapshot,
    rows: SnapshotRows,
    i: int,
)
    requires
        call_ensures(replace_snapshot, (expected, snapshot), Ok::<SnapshotRows, IndexStoreError>(rows)),
    ensures
        rows.source.source_unit_id@ == expected.id@,
        rows.source.content_fingerprint@ == expected.content@,
        rows.source.context_fingerprint@ == expected.context@,
        rows.symbols@.len() == snapshot.symbols@.len(),
        rows.occurrences@.len() == snapshot.occurrences@.len(),
        rows.references@.len() == snapshot.references@.len(),
        rows.calls@.len() == snapshot.calls@.len(),
        rows.hierarchy@.len() == snapshot.hierarchy@.len(),
        rows.types@.len() == snapshot.types@.len(),
        rows.diagnostics@.len() == snapshot.diagnostics@.len(),
        0 <= i < rows.symbols@.len() ==> rows.symbols@[i].symbol_id@ == snapshot.symbols@[i].id@
            && rows.symbols@[i].name@ == snapshot.symbols@[i].name@
            && rows.symbols@[i].name_start_byte == snapshot.symbols@[i].name_range.bytes.start,
        0 <= i < rows.occurrences@.len() ==> rows.occurrences@[i].start_byte
            == snapshot.occurrences@[i].range.bytes.start && rows.occurrences@[i].end_byte
            == snapshot.occurrences@[i].range.bytes.end && rows.occurrences@[i].target_symbol_id
            == snapshot.occurrences@[i].target,
        0 <= i < rows.references@.len() ==> rows.references@[i].target_symbol_id@
            == snapshot.references@[i].target@,
        0 <= i < rows.hierarchy@.len() ==> rows.hierarchy@[i].subtype_symbol_id@
            == snapshot.hierarchy@[i].subtype@ && rows.hierarchy@[i].supertype_symbol_id@
            == snapshot.hierarchy@[i].supertype@,
        0 <= i < rows.types@.len() ==> rows.types@[i].type_id@ == snapshot.types@[i].id@,
{
    if 0 <= i < rows.symbols@.len() {
        assert(is_symbol_row(rows.symbols@[i], snapshot.source_unit.id@, snapshot.symbols@[i]));
    }
    if 0 <= i < rows.occurrences@.len() {
        assert(is_occurrence_row(
            rows.occurrences@[i],
            snapshot.source_unit.id@,
            snapshot.occurrences@[i],
        ));
    }
    if 0 <= i < rows.references@.len() {
        let row = rows.references@[i];
    }
    if 0 <= i < rows.hierarchy@.len() {
        assert(is_hierarchy_row(
            rows.hierarchy@[i],
            snapshot.source_unit.id@,
            snapshot.hierarchy@[i],
        ));
    }
    if 0 <= i < rows.types@.len() {
        assert(is_type_row(rows.types@[i], snapshot.source_unit.id@, snapshot.types@[i]));
    }
}

/// A stored symbol record is read back as it was written.
pub proof fn law_stored_record_is_read_back(
    payload: &[u8],
    encoded: Vec<u8>,
    bytes: &[u8],
    result: Result<Vec<u8>, IndexStoreError>,
)
    requires
        call_ensures(encode_stored_symbol, (payload,), encoded),
        bytes@ == encoded@,
        call_ensures(decode_stored_symbol, (bytes,), result),
    ensures
        result is Ok,
        result->Ok_0@ == payload@,
{
    law_symbol_frame_round_trip(payload@);
}

/// An index of another format than the current one is never opened; a new one is
/// to be given the current format.
pub proof fn law_only_the_current_format_is_opened(
    stored: &str,
    format: u32,
    opened: Result<bool, IndexStoreError>,
    created: Result<bool, IndexStoreError>,
)
    requires
        stored@ == text::decimal_text(format as nat),
        call_ensures(check_index_format, (Some(stored),), opened),
        call_ensures(check_index_format, (None,), created),
    ensures
        created is Ok && created->Ok_0,
        opened is Ok <==> format == INDEX_FORMAT_VERSION,
        opened is Ok ==> !opened->Ok_0,
        opened is Err ==> opened->Err_0 is IncompatibleIndexFormat,
{
    let s = stored@;
    text::lemma_decimal_text(format as nat);
    assert(text::is_digit(s[0]));
    assert(text::number_digits(s) == s);
}

} // verus!
