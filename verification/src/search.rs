//! Answers of the status and search commands.

use vstd::prelude::*;

use crate::artifact_cache::ArtifactBlobCacheError;
use crate::canonical::{
    Completeness, ComponentId, Fingerprint, Freshness, Precision, Provenance, SourceOrigin,
    SymbolRecord, WorkspaceId, WorkspacePath, CANONICAL_SCHEMA_VERSION, INDEX_FORMAT_VERSION,
};
use crate::configuration::EffectiveConfiguration;
use crate::freshness_gate;
use crate::freshness_gate::{still_current, SourceObservation};
use crate::input_inventory::{ConfigurationInputState, ConfigurationInputStatus};
use crate::ordering;
use crate::ordering::{deduplicate, stable_sort, Alike, Ranked};
use crate::query;
use crate::query::{
    ArtifactCoverage, ConfigurationInputCounts, IndexCounts, QueryPayload, QueryProblem,
    QueryResponse, QueryStatus, ResultMetadata, StatusResult,
};
use crate::text;
use crate::text_index;

verus! {

/// How many values of a sequence satisfy a predicate.
pub open spec fn count_where<T>(s: Seq<T>, holds: spec_fn(T) -> bool) -> nat
    decreases s.len(),
{
    if s.len() == 0 {
        0
    } else {
        count_where(s.drop_last(), holds) + (if holds(s.last()) {
            1nat
        } else {
            0nat
        })
    }
}

/// There are at most as many as there are values.
pub proof fn lemma_count_where<T>(s: Seq<T>, holds: spec_fn(T) -> bool)
    ensures
        count_where(s, holds) <= s.len(),
    decreases s.len(),
{
    if s.len() > 0 {
        lemma_count_where(s.drop_last(), holds);
    }
}

/// How many inputs are in a state.
pub open spec fn inputs_in(
    inputs: Seq<ConfigurationInputStatus>,
    state: ConfigurationInputState,
) -> nat {
    count_where(inputs, |input: ConfigurationInputStatus| input.state == state)
}

/// Counts configuration inputs by their state.
pub fn count_inputs(inputs: &[ConfigurationInputStatus]) -> (result: ConfigurationInputCounts)
    ensures
        result.current == inputs_in(inputs@, ConfigurationInputState::Current),
        result.added == inputs_in(inputs@, ConfigurationInputState::Added),
        result.changed == inputs_in(inputs@, ConfigurationInputState::Changed),
        result.missing == inputs_in(inputs@, ConfigurationInputState::Missing),
{
    let mut counts = ConfigurationInputCounts { current: 0, added: 0, changed: 0, missing: 0 };
    let mut i: usize = 0;
    while i < inputs.len()
        invariant
            i <= inputs@.len(),
            counts.current <= i && counts.added <= i && counts.changed <= i && counts.missing <= i,
            counts.current == inputs_in(
                inputs@.take(i as int),
                ConfigurationInputState::Current,
            ),
            counts.added == inputs_in(inputs@.take(i as int), ConfigurationInputState::Added),
            counts.changed == inputs_in(
                inputs@.take(i as int),
                ConfigurationInputState::Changed,
            ),
            counts.missing == inputs_in(
                inputs@.take(i as int),
                ConfigurationInputState::Missing,
            ),
        decreases inputs@.len() - i,
    {
        assert(inputs@.take(i + 1).drop_last() =~= inputs@.take(i as int));
        assert(inputs@.take(i + 1).last() == inputs@[i as int]);
        match inputs[i].state {
            ConfigurationInputState::Current => {
                counts.current = counts.current + 1;
            },
            ConfigurationInputState::Added => {
                counts.added = counts.added + 1;
            },
            ConfigurationInputState::Changed => {
                counts.changed = counts.changed + 1;
            },
            ConfigurationInputState::Missing => {
                counts.missing = counts.missing + 1;
            },
        }
        i = i + 1;
    }
    assert(inputs@.take(i as int) =~= inputs@);
    counts
}

/// The freshness of an observed source unit: unknown where its file cannot be
/// read, and for dependencies.
pub open spec fn source_freshness(source: SourceObservation) -> Freshness {
    if source.origin == SourceOrigin::Dependency || source.current is None {
        Freshness::Unknown
    } else if freshness_gate::is_current(source.current, source.content) {
        Freshness::Fresh
    } else {
        Freshness::Stale
    }
}

/// How many sources have a freshness.
pub open spec fn sources_with(sources: Seq<SourceObservation>, freshness: Freshness) -> nat {
    count_where(sources, |source: SourceObservation| source_freshness(source) == freshness)
}

/// Counts source units by their freshness.
pub fn count_sources(sources: &[SourceObservation]) -> (result: IndexCounts)
    ensures
        result.fresh == sources_with(sources@, Freshness::Fresh),
        result.stale == sources_with(sources@, Freshness::Stale),
        result.unknown == sources_with(sources@, Freshness::Unknown),
        result.unsupported == 0,
{
    let mut counts = IndexCounts { fresh: 0, stale: 0, unknown: 0, unsupported: 0 };
    let mut i: usize = 0;
    while i < sources.len()
        invariant
            i <= sources@.len(),
            counts.fresh <= i && counts.stale <= i && counts.unknown <= i,
            counts.unsupported == 0,
            counts.fresh == sources_with(sources@.take(i as int), Freshness::Fresh),
            counts.stale == sources_with(sources@.take(i as int), Freshness::Stale),
            counts.unknown == sources_with(sources@.take(i as int), Freshness::Unknown),
        decreases sources@.len() - i,
    {
        assert(sources@.take(i + 1).drop_last() =~= sources@.take(i as int));
        assert(sources@.take(i + 1).last() == sources@[i as int]);
        let source = &sources[i];
        if source.origin == SourceOrigin::Dependency || source.current.is_none() {
            counts.unknown = counts.unknown + 1;
        } else if still_current(&source.current, &source.content) {
            counts.fresh = counts.fresh + 1;
        } else {
            counts.stale = counts.stale + 1;
        }
        i = i + 1;
    }
    assert(sources@.take(i as int) =~= sources@);
    counts
}

/// What was observed of the blob of a cataloged artifact.
#[derive(Debug, PartialEq, Eq)]
pub enum BlobObservation {
    /// The index records no blob.
    Unrecorded,
    /// The blob was looked for in the cache.
    Opened(Result<bool, ArtifactBlobCacheError>),
    /// The cache could not be read.
    Unreadable,
}

/// Whether an observed blob can be used.
pub open spec fn blob_cached(blob: BlobObservation) -> bool {
    blob matches BlobObservation::Opened(opened) && opened == Ok::<bool, ArtifactBlobCacheError>(
        true,
    )
}

/// Whether an observed blob is malformed.
pub open spec fn blob_invalid(blob: BlobObservation) -> bool {
    blob matches BlobObservation::Opened(opened) && opened is Err
}

/// Whether an observed blob is not there.
pub open spec fn blob_missing(blob: BlobObservation) -> bool {
    !blob_cached(blob) && !blob_invalid(blob)
}

/// Counts cataloged artifacts by the state of their blobs.
pub fn count_blobs(blobs: &[BlobObservation]) -> (result: ArtifactCoverage)
    ensures
        result.cataloged == blobs@.len(),
        result.cached == count_where(blobs@, |blob: BlobObservation| blob_cached(blob)),
        result.missing == count_where(blobs@, |blob: BlobObservation| blob_missing(blob)),
        result.invalid == count_where(blobs@, |blob: BlobObservation| blob_invalid(blob)),
{
    let mut counts = ArtifactCoverage { cataloged: 0, cached: 0, missing: 0, invalid: 0 };
    let mut i: usize = 0;
    while i < blobs.len()
        invariant
            i <= blobs@.len(),
            counts.cataloged == i,
            counts.cached <= i && counts.missing <= i && counts.invalid <= i,
            counts.cached == count_where(
                blobs@.take(i as int),
                |blob: BlobObservation| blob_cached(blob),
            ),
            counts.missing == count_where(
                blobs@.take(i as int),
                |blob: BlobObservation| blob_missing(blob),
            ),
            counts.invalid == count_where(
                blobs@.take(i as int),
                |blob: BlobObservation| blob_invalid(blob),
            ),
        decreases blobs@.len() - i,
    {
        assert(blobs@.take(i + 1).drop_last() =~= blobs@.take(i as int));
        assert(blobs@.take(i + 1).last() == blobs@[i as int]);
        counts.cataloged = counts.cataloged + 1;
        match &blobs[i] {
            BlobObservation::Opened(Ok(present)) => {
                if *present {
                    counts.cached = counts.cached + 1;
                } else {
                    counts.missing = counts.missing + 1;
                }
            },
            BlobObservation::Opened(Err(_)) => {
                counts.invalid = counts.invalid + 1;
            },
            BlobObservation::Unrecorded => {
                counts.missing = counts.missing + 1;
            },
            BlobObservation::Unreadable => {
                counts.missing = counts.missing + 1;
            },
        }
        i = i + 1;
    }
    assert(blobs@.take(i as int) =~= blobs@);
    counts
}

/// What a finished index run recorded of its inputs.
#[derive(Debug, PartialEq, Eq)]
pub struct WorkspaceCheckpoint {
    pub committed: bool,
    pub inputs: CheckpointInputs,
}

/// The inputs of an index run, by their fingerprints.
#[derive(Debug, PartialEq, Eq)]
pub struct CheckpointInputs {
    pub workspace: WorkspaceId,
    pub manifest: Fingerprint,
    pub configuration_inputs: Fingerprint,
    pub source_inputs: Fingerprint,
    pub artifact_catalog: Fingerprint,
}

/// Whether a checkpoint is of a finished run over the same inputs.
pub open spec fn checkpoint_holds(
    checkpoint: WorkspaceCheckpoint,
    current: CheckpointInputs,
) -> bool {
    &&& checkpoint.committed
    &&& checkpoint.inputs.workspace@ == current.workspace@
    &&& checkpoint.inputs.manifest@ == current.manifest@
    &&& checkpoint.inputs.configuration_inputs@ == current.configuration_inputs@
    &&& checkpoint.inputs.source_inputs@ == current.source_inputs@
    &&& checkpoint.inputs.artifact_catalog@ == current.artifact_catalog@
}

/// Computes `checkpoint_holds`.
pub fn checkpoint_matches(checkpoint: &WorkspaceCheckpoint, current: &CheckpointInputs) -> (result:
    bool)
    ensures
        result == checkpoint_holds(*checkpoint, *current),
{
    checkpoint.committed && checkpoint.inputs.workspace.same(&current.workspace)
        && checkpoint.inputs.manifest.same(&current.manifest)
        && checkpoint.inputs.configuration_inputs.same(&current.configuration_inputs)
        && checkpoint.inputs.source_inputs.same(&current.source_inputs)
        && checkpoint.inputs.artifact_catalog.same(&current.artifact_catalog)
}

/// The freshness of an index: unknown without a checkpoint; stale where a
/// source or a configuration input changed or the checkpoint is of other
/// inputs; unknown where a source cannot be judged; fresh otherwise.
pub open spec fn index_freshness(
    checkpoint: Option<WorkspaceCheckpoint>,
    current: CheckpointInputs,
    sources: IndexCounts,
    inputs: ConfigurationInputCounts,
) -> Freshness {
    match checkpoint {
        None => Freshness::Unknown,
        Some(checkpoint) => if sources.stale > 0 || inputs.added > 0 || inputs.changed > 0
            || inputs.missing > 0 || !checkpoint_holds(checkpoint, current) {
            Freshness::Stale
        } else if sources.unknown > 0 {
            Freshness::Unknown
        } else {
            Freshness::Fresh
        },
    }
}

/// Computes `index_freshness`.
pub fn judge_index(
    checkpoint: &Option<WorkspaceCheckpoint>,
    current: &CheckpointInputs,
    sources: IndexCounts,
    inputs: ConfigurationInputCounts,
) -> (result: Freshness)
    ensures
        result == index_freshness(*checkpoint, *current, sources, inputs),
{
    match checkpoint {
        None => Freshness::Unknown,
        Some(checkpoint) => if sources.stale > 0 || inputs.added > 0 || inputs.changed > 0
            || inputs.missing > 0 || !checkpoint_matches(checkpoint, current) {
            Freshness::Stale
        } else if sources.unknown > 0 {
            Freshness::Unknown
        } else {
            Freshness::Fresh
        },
    }
}

/// The order of provenances: by backend, its version, the protocol version and
/// the analysis options.
pub open spec fn provenance_lt(a: Provenance, b: Provenance) -> bool {
    if a.backend@ != b.backend@ {
        text::text_lt(a.backend@, b.backend@)
    } else if a.backend_version@ != b.backend_version@ {
        text::text_lt(a.backend_version@, b.backend_version@)
    } else if a.protocol_version != b.protocol_version {
        a.protocol_version < b.protocol_version
    } else {
        text::text_lt(a.analysis_options@, b.analysis_options@)
    }
}

impl Ranked for Provenance {
    open spec fn ranks_before(&self, other: &Self) -> bool {
        provenance_lt(*self, *other)
    }

    proof fn lemma_rank_asymmetric(a: &Self, b: &Self) {
        text::lemma_text_order(a.backend@, b.backend@, b.backend@);
        text::lemma_text_order(a.backend_version@, b.backend_version@, b.backend_version@);
        text::lemma_text_order(a.analysis_options@, b.analysis_options@, b.analysis_options@);
    }

    proof fn lemma_rank_negatively_transitive(a: &Self, b: &Self, c: &Self) {
        text::lemma_text_order(a.backend@, b.backend@, c.backend@);
        text::lemma_text_order(a.backend_version@, b.backend_version@, c.backend_version@);
        text::lemma_text_order(a.analysis_options@, b.analysis_options@, c.analysis_options@);
    }

    fn is_before(&self, other: &Self) -> (result: bool) {
        if self.backend != other.backend {
            text::text_before(self.backend.as_str(), other.backend.as_str())
        } else if self.backend_version != other.backend_version {
            text::text_before(self.backend_version.as_str(), other.backend_version.as_str())
        } else if self.protocol_version != other.protocol_version {
            self.protocol_version < other.protocol_version
        } else {
            text::text_before(self.analysis_options.as_str(), other.analysis_options.as_str())
        }
    }
}

impl Alike for Provenance {
    open spec fn alike(&self, other: &Self) -> bool {
        self@ == other@
    }

    fn is_alike(&self, other: &Self) -> (result: bool) {
        self.same(other)
    }
}

/// Provenances in ascending order, each once.
pub open spec fn distinct_provenances(provenances: Seq<Provenance>) -> Seq<Provenance> {
    ordering::deduplicated(ordering::stable_sorted(provenances))
}

/// Computes `distinct_provenances`.
pub fn sort_provenances(provenances: Vec<Provenance>) -> (result: Vec<Provenance>)
    ensures
        result@ == distinct_provenances(provenances@),
{
    deduplicate(stable_sort(provenances))
}

proof fn lemma_deduplicated_ascends(s: Seq<Provenance>)
    requires
        ordering::in_order(s),
    ensures
        forall|i: int, j: int|
            #![trigger ordering::deduplicated(s)[i], ordering::deduplicated(s)[j]]
            0 <= i < j < ordering::deduplicated(s).len() ==> provenance_lt(
                ordering::deduplicated(s)[i],
                ordering::deduplicated(s)[j],
            ),
        s.len() > 0 ==> ordering::deduplicated(s).len() > 0 && ordering::deduplicated(
            s,
        ).last()@ == s.last()@,
    decreases s.len(),
{
    if s.len() > 0 {
        let t = s.drop_last();
        assert forall|i: int, j: int|
            #![trigger t[i], t[j]]
            0 <= i < j < t.len() implies !t[j].ranks_before(&t[i]) by {
            assert(t[i] == s[i] && t[j] == s[j]);
        }
        lemma_deduplicated_ascends(t);
        let kept = ordering::deduplicated(t);
        let all = ordering::deduplicated(s);
        let last = s.last();
        if t.len() > 0 && !kept.last().alike(&last) {
            let before = t.last();
            assert(!s[s.len() - 1].ranks_before(&s[s.len() - 2]));
            text::lemma_text_order(before.backend@, last.backend@, last.backend@);
            text::lemma_text_order(
                before.backend_version@,
                last.backend_version@,
                last.backend_version@,
            );
            text::lemma_text_order(
                before.analysis_options@,
                last.analysis_options@,
                last.analysis_options@,
            );
            assert(provenance_lt(kept.last(), last));
            assert forall|i: int, j: int|
                #![trigger all[i], all[j]]
                0 <= i < j < all.len() implies provenance_lt(all[i], all[j]) by {
                if j < kept.len() {
                    assert(all[i] == kept[i] && all[j] == kept[j]);
                } else {
                    assert(all[i] == kept[i] && all[j] == last);
                    if i < kept.len() - 1 {
                        assert(provenance_lt(kept[i], kept[kept.len() - 1]));
                        let a = kept[i];
                        let b = kept.last();
                        text::lemma_text_order(a.backend@, b.backend@, last.backend@);
                        text::lemma_text_order(
                            a.backend_version@,
                            b.backend_version@,
                            last.backend_version@,
                        );
                        text::lemma_text_order(
                            a.analysis_options@,
                            b.analysis_options@,
                            last.analysis_options@,
                        );
                    }
                }
            }
        }
    }
}

/// The provenances of an answer stand in strictly ascending order, so none is
/// listed twice.
pub proof fn law_provenances_ascend(provenances: Seq<Provenance>, i: int, j: int)
    requires
        0 <= i < j < distinct_provenances(provenances).len(),
    ensures
        provenance_lt(
            distinct_provenances(provenances)[i],
            distinct_provenances(provenances)[j],
        ),
{
    ordering::lemma_stable_sorted_in_order(provenances);
    lemma_deduplicated_ascends(ordering::stable_sorted(provenances));
}

/// What the status of an index is judged by.
pub struct StatusObservation {
    pub workspace: WorkspacePath,
    pub configuration: EffectiveConfiguration,
    pub configuration_inputs: Vec<ConfigurationInputStatus>,
    pub affected_components: Vec<ComponentId>,
    pub sources: Vec<SourceObservation>,
    pub checkpoint: Option<WorkspaceCheckpoint>,
    pub current: CheckpointInputs,
    pub blobs: Vec<BlobObservation>,
    pub provenances: Vec<Provenance>,
}

/// The response to a status request.
pub fn status(observed: StatusObservation) -> (result: QueryResponse)
    ensures
        result.schema_version == CANONICAL_SCHEMA_VERSION,
        result.status == QueryStatus::Success,
        result.problems@.len() == 0,
        result.result is Some,
        result.result->Some_0 is Status,
        ({
            let found = result.result->Some_0->Status_0;
            let freshness = index_freshness(
                observed.checkpoint,
                observed.current,
                found.source_units,
                found.configuration_inputs,
            );
            let inputs = observed.configuration_inputs@;
            let sources = observed.sources@;
            &&& found.workspace == observed.workspace
            &&& found.configuration_schema_version == observed.configuration.schema_version
            &&& found.freshness_strategy == observed.configuration.freshness_strategy
            &&& found.manifest == freshness
            &&& found.source_units.fresh == sources_with(sources, Freshness::Fresh)
            &&& found.source_units.stale == sources_with(sources, Freshness::Stale)
            &&& found.source_units.unknown == sources_with(sources, Freshness::Unknown)
            &&& found.source_units.unsupported == 0
            &&& found.configuration_inputs.current == inputs_in(
                inputs,
                ConfigurationInputState::Current,
            )
            &&& found.configuration_inputs.added == inputs_in(
                inputs,
                ConfigurationInputState::Added,
            )
            &&& found.configuration_inputs.changed == inputs_in(
                inputs,
                ConfigurationInputState::Changed,
            )
            &&& found.configuration_inputs.missing == inputs_in(
                inputs,
                ConfigurationInputState::Missing,
            )
            &&& found.dependency_blobs.cataloged == observed.blobs@.len()
            &&& found.dependency_blobs.cached == count_where(
                observed.blobs@,
                |blob: BlobObservation| blob_cached(blob),
            )
            &&& found.dependency_blobs.missing == count_where(
                observed.blobs@,
                |blob: BlobObservation| blob_missing(blob),
            )
            &&& found.dependency_blobs.invalid == count_where(
                observed.blobs@,
                |blob: BlobObservation| blob_invalid(blob),
            )
            &&& found.affected_components == observed.affected_components
            &&& found.workers_running@.len() == 0
            &&& result.metadata.freshness == freshness
            &&& result.metadata.completeness == (if found.source_units.unknown == 0 {
                Completeness::Complete
            } else {
                Completeness::Partial
            })
            &&& result.metadata.precision == Precision::Exact
            &&& result.metadata.index_format_version == INDEX_FORMAT_VERSION
            &&& result.metadata.source_snapshot is None
            &&& result.metadata.provenance@ == distinct_provenances(observed.provenances@)
        }),
{
    let source_units = count_sources(observed.sources.as_slice());
    let configuration_inputs = count_inputs(observed.configuration_inputs.as_slice());
    let dependency_blobs = count_blobs(observed.blobs.as_slice());
    let freshness = judge_index(
        &observed.checkpoint,
        &observed.current,
        source_units,
        configuration_inputs,
    );
    let completeness = if source_units.unknown == 0 {
        Completeness::Complete
    } else {
        Completeness::Partial
    };
    let provenance = sort_provenances(observed.provenances);
    QueryResponse::ok(
        QueryPayload::Status(
            StatusResult {
                workspace: observed.workspace,
                configuration_schema_version: observed.configuration.schema_version,
                freshness_strategy: observed.configuration.freshness_strategy,
                manifest: freshness,
                source_units,
                configuration_inputs,
                dependency_blobs,
                affected_components: observed.affected_components,
                workers_running: Vec::new(),
            },
        ),
        ResultMetadata {
            freshness,
            completeness,
            precision: Precision::Exact,
            index_format_version: INDEX_FORMAT_VERSION,
            source_snapshot: None,
            provenance,
        },
    )
}

/// An index is called fresh only where its checkpoint is of the current inputs
/// and no source and no configuration input differs from what was indexed.
pub proof fn law_fresh_means_verified(
    checkpoint: Option<WorkspaceCheckpoint>,
    current: CheckpointInputs,
    sources: IndexCounts,
    inputs: ConfigurationInputCounts,
)
    requires
        index_freshness(checkpoint, current, sources, inputs) == Freshness::Fresh,
    ensures
        checkpoint is Some,
        checkpoint_holds(checkpoint->Some_0, current),
        sources.stale == 0,
        sources.unknown == 0,
        inputs.added == 0,
        inputs.changed == 0,
        inputs.missing == 0,
{
}

/// Every source unit is counted once.
pub proof fn law_every_source_is_counted(sources: Seq<SourceObservation>)
    ensures
        sources_with(sources, Freshness::Fresh) + sources_with(sources, Freshness::Stale)
            + sources_with(sources, Freshness::Unknown) == sources.len(),
    decreases sources.len(),
{
    if sources.len() > 0 {
        law_every_source_is_counted(sources.drop_last());
    }
}

/// Where symbols of a name are looked for, in this order.
#[derive(Debug, Clone, Copy, PartialEq, Eq, Structural)]
pub enum SymbolLookup {
    Named,
    Qualified,
    CachedDependencies,
    Matching,
}

/// The lookup after one that found nothing.
pub open spec fn lookup_after(lookup: SymbolLookup) -> Option<SymbolLookup> {
    match lookup {
        SymbolLookup::Named => Some(SymbolLookup::Qualified),
        SymbolLookup::Qualified => Some(SymbolLookup::CachedDependencies),
        SymbolLookup::CachedDependencies => Some(SymbolLookup::Matching),
        SymbolLookup::Matching => None,
    }
}

/// The lookup to make after one: none where it found something.
pub fn next_lookup(lookup: SymbolLookup, found: usize) -> (result: Option<SymbolLookup>)
    ensures
        result == (if found > 0 {
            None
        } else {
            lookup_after(lookup)
        }),
{
    if found > 0 {
        return None;
    }
    match lookup {
        SymbolLookup::Named => Some(SymbolLookup::Qualified),
        SymbolLookup::Qualified => Some(SymbolLookup::CachedDependencies),
        SymbolLookup::CachedDependencies => Some(SymbolLookup::Matching),
        SymbolLookup::Matching => None,
    }
}

/// The order of found symbols: by source unit, the start of the name, and id.
pub open spec fn symbol_lt(a: SymbolRecord, b: SymbolRecord) -> bool {
    if a.declaration.source_unit@ != b.declaration.source_unit@ {
        text::text_lt(a.declaration.source_unit@, b.declaration.source_unit@)
    } else if a.name_range.bytes.start != b.name_range.bytes.start {
        a.name_range.bytes.start < b.name_range.bytes.start
    } else {
        text::text_lt(a.id@, b.id@)
    }
}

impl Ranked for SymbolRecord {
    open spec fn ranks_before(&self, other: &Self) -> bool {
        symbol_lt(*self, *other)
    }

    proof fn lemma_rank_asymmetric(a: &Self, b: &Self) {
        let x = b.declaration.source_unit@;
        text::lemma_text_order(a.declaration.source_unit@, x, x);
        text::lemma_text_order(a.id@, b.id@, b.id@);
    }

    proof fn lemma_rank_negatively_transitive(a: &Self, b: &Self, c: &Self) {
        text::lemma_text_order(
            a.declaration.source_unit@,
            b.declaration.source_unit@,
            c.declaration.source_unit@,
        );
        text::lemma_text_order(a.id@, b.id@, c.id@);
    }

    fn is_before(&self, other: &Self) -> (result: bool) {
        if !self.declaration.source_unit.same(&other.declaration.source_unit) {
            text::text_before(
                self.declaration.source_unit.as_str(),
                other.declaration.source_unit.as_str(),
            )
        } else if self.name_range.bytes.start != other.name_range.bytes.start {
            self.name_range.bytes.start < other.name_range.bytes.start
        } else {
            text::text_before(self.id.as_str(), other.id.as_str())
        }
    }
}

/// Whether a symbol of a freshness is among others.
pub open spec fn has_freshness(symbols: Seq<SymbolRecord>, freshness: Freshness) -> bool {
    exists|i: int| 0 <= i < symbols.len() && (#[trigger] symbols[i]).freshness == freshness
}

/// The freshness of a list of symbols: that of the worst, stale before unknown.
pub open spec fn symbols_freshness(symbols: Seq<SymbolRecord>) -> Freshness {
    if has_freshness(symbols, Freshness::Stale) {
        Freshness::Stale
    } else if has_freshness(symbols, Freshness::Unknown) {
        Freshness::Unknown
    } else {
        Freshness::Fresh
    }
}

fn is_any(symbols: &[SymbolRecord], freshness: Freshness) -> (result: bool)
    ensures
        result == has_freshness(symbols@, freshness),
{
    let mut i: usize = 0;
    while i < symbols.len()
        invariant
            i <= symbols@.len(),
            forall|j: int| 0 <= j < i ==> (#[trigger] symbols@[j]).freshness != freshness,
        decreases symbols@.len() - i,
    {
        if symbols[i].freshness == freshness {
            assert(symbols@[i as int].freshness == freshness);
            return true;
        }
        i = i + 1;
    }
    false
}

/// Computes `symbols_freshness`.
pub fn judge_symbols(symbols: &[SymbolRecord]) -> (result: Freshness)
    ensures
        result == symbols_freshness(symbols@),
{
    if is_any(symbols, Freshness::Stale) {
        Freshness::Stale
    } else if is_any(symbols, Freshness::Unknown) {
        Freshness::Unknown
    } else {
        Freshness::Fresh
    }
}

/// The provenances of symbols, in their order.
pub open spec fn symbol_provenances(symbols: Seq<SymbolRecord>) -> Seq<Provenance> {
    Seq::new(symbols.len(), |i: int| symbols[i].provenance)
}

fn list_provenances(symbols: &[SymbolRecord]) -> (result: Vec<Provenance>)
    ensures
        result@ == symbol_provenances(symbols@),
{
    let mut result: Vec<Provenance> = Vec::new();
    let mut i: usize = 0;
    while i < symbols.len()
        invariant
            i <= symbols@.len(),
            result@.len() == i,
            forall|j: int| 0 <= j < i ==> #[trigger] result@[j] == symbols@[j].provenance,
        decreases symbols@.len() - i,
    {
        result.push(symbols[i].provenance.clone());
        i = i + 1;
    }
    assert(result@ =~= symbol_provenances(symbols@));
    result
}

/// The status of an answer with so many symbols.
pub open spec fn symbols_status(count: nat) -> QueryStatus {
    if count == 0 {
        QueryStatus::NoResult
    } else if count == 1 {
        QueryStatus::Success
    } else {
        QueryStatus::Ambiguous
    }
}

/// The problem of a query that several symbols match.
pub open spec fn ambiguous_symbols() -> query::QueryProblemView {
    query::QueryProblemView {
        code: "ambiguous_symbol_query"@,
        message: "symbol query matched multiple declarations; choose a returned stable symbol id"@,
        retryable: false,
    }
}

/// The response to a symbol query, given what the lookups found.
pub fn symbols_response(found: Vec<SymbolRecord>) -> (result: QueryResponse)
    ensures
        ({
            let symbols = ordering::stable_sorted(found@);
            &&& result.schema_version == CANONICAL_SCHEMA_VERSION
            &&& result.status == symbols_status(found@.len())
            &&& result.result is Some <==> found@.len() > 0
            &&& result.result matches Some(payload) ==> payload is Symbols
                && payload->Symbols_symbols@ == symbols
            &&& result.metadata.freshness == symbols_freshness(symbols)
            &&& result.metadata.completeness == Completeness::Complete
            &&& result.metadata.precision == Precision::Exact
            &&& result.metadata.index_format_version == INDEX_FORMAT_VERSION
            &&& result.metadata.source_snapshot is None
            &&& result.metadata.provenance@ == distinct_provenances(symbol_provenances(symbols))
            &&& if found@.len() > 1 {
                result.problems@.len() == 1 && result.problems@[0]@ == ambiguous_symbols()
            } else {
                result.problems@.len() == 0
            }
        }),
{
    proof {
        ordering::lemma_stable_sorted_in_order(found@);
    }
    let symbols = stable_sort(found);
    let freshness = judge_symbols(symbols.as_slice());
    let provenance = sort_provenances(list_provenances(symbols.as_slice()));
    let count: usize = symbols.len();
    let status = if count == 0 {
        QueryStatus::NoResult
    } else if count == 1 {
        QueryStatus::Success
    } else {
        QueryStatus::Ambiguous
    };
    let mut problems: Vec<QueryProblem> = Vec::new();
    if count > 1 {
        problems.push(
            QueryProblem::new(
                "ambiguous_symbol_query",
                "symbol query matched multiple declarations; choose a returned stable symbol id",
                false,
            ),
        );
    }
    let result = if count == 0 {
        None
    } else {
        Some(QueryPayload::Symbols { symbols })
    };
    QueryResponse {
        schema_version: CANONICAL_SCHEMA_VERSION,
        status,
        result,
        metadata: ResultMetadata {
            freshness,
            completeness: Completeness::Complete,
            precision: Precision::Exact,
            index_format_version: INDEX_FORMAT_VERSION,
            source_snapshot: None,
            provenance,
        },
        problems,
    }
}

/// Whether a text is one lexical term.
pub open spec fn is_lexical_term(value: Seq<char>) -> bool {
    value.len() > 0 && forall|i: int|
        0 <= i < value.len() ==> #[trigger] text_index::term_flags(value)[i]
}

/// The problem of a text query that is not one lexical term.
pub open spec fn invalid_text_query() -> query::QueryProblemView {
    query::QueryProblemView {
        code: "invalid_text_query"@,
        message: "text query must be one non-empty lexical term"@,
        retryable: false,
    }
}

/// Refuses a text query that is not one lexical term.
pub fn check_text_query(value: &str) -> (result: Option<QueryProblem>)
    ensures
        result is None <==> is_lexical_term(value@),
        result matches Some(problem) ==> problem@ == invalid_text_query(),
{
    let chars = text::chars_of(value);
    let mut valid: bool = chars.len() > 0;
    let mut i: usize = 0;
    while i < chars.len()
        invariant
            chars@ == value@,
            i <= chars@.len(),
            valid <==> value@.len() > 0 && forall|j: int|
                0 <= j < i ==> #[trigger] text_index::term_flags(value@)[j],
        decreases chars@.len() - i,
    {
        let good: bool = text_index::is_alphanumeric(chars[i]) || chars[i] == '_';
        assert(good == text_index::term_flags(value@)[i as int]);
        valid = valid && good;
        i = i + 1;
    }
    if valid {
        None
    } else {
        Some(
            QueryProblem::new(
                "invalid_text_query",
                "text query must be one non-empty lexical term",
                false,
            ),
        )
    }
}

/// The status of a text search with so many matches.
pub fn text_search_status(matches: usize) -> (result: QueryStatus)
    ensures
        result == (if matches == 0 {
            QueryStatus::NoResult
        } else {
            QueryStatus::Success
        }),
{
    if matches == 0 {
        QueryStatus::NoResult
    } else {
        QueryStatus::Success
    }
}

proof fn lemma_none_counted<T>(s: Seq<T>, holds: spec_fn(T) -> bool)
    ensures
        count_where(s, holds) == 0 <==> forall|i: int| 0 <= i < s.len() ==> !holds(#[trigger] s[i]),
    decreases s.len(),
{
    if s.len() > 0 {
        let rest = s.drop_last();
        lemma_none_counted(rest, holds);
        assert(s[s.len() - 1] == s.last());
        if count_where(s, holds) == 0 {
            assert forall|i: int| 0 <= i < s.len() implies !holds(#[trigger] s[i]) by {
                if i < rest.len() {
                    assert(rest[i] == s[i]);
                }
            }
        } else if !holds(s.last()) {
            let i = choose|i: int| 0 <= i < rest.len() && holds(#[trigger] rest[i]);
            assert(holds(s[i]));
        }
    }
}

/// One more source counts as fresh where it is a source of the workspace whose
/// file holds what was indexed, as stale where the file holds something else,
/// and as unknown where it cannot be read or is a dependency.
pub proof fn law_source_counts_by_what_its_file_holds(
    sources: &[SourceObservation],
    more: &[SourceObservation],
    source: SourceObservation,
    before: IndexCounts,
    after: IndexCounts,
)
    requires
        call_ensures(count_sources, (sources,), before),
        call_ensures(count_sources, (more,), after),
        more@ == sources@.push(source),
    ensures
        sources@.len() == 0 ==> before == (IndexCounts {
            fresh: 0,
            stale: 0,
            unknown: 0,
            unsupported: 0,
        }),
        ({
            let unknown = source.origin == SourceOrigin::Dependency || source.current is None;
            let same = source.current is Some && source.current->0@ == source.content@;
            &&& after.unknown - before.unknown == (if unknown { 1int } else { 0 })
            &&& after.fresh - before.fresh == (if !unknown && same { 1int } else { 0 })
            &&& after.stale - before.stale == (if !unknown && !same { 1int } else { 0 })
            &&& after.unsupported == 0
        }),
{
    assert(more@.drop_last() =~= sources@);
}

/// One more configuration input counts under its own state and no other.
pub proof fn law_input_counts_under_its_state(
    inputs: &[ConfigurationInputStatus],
    more: &[ConfigurationInputStatus],
    input: ConfigurationInputStatus,
    before: ConfigurationInputCounts,
    after: ConfigurationInputCounts,
)
    requires
        call_ensures(count_inputs, (inputs,), before),
        call_ensures(count_inputs, (more,), after),
        more@ == inputs@.push(input),
    ensures
        inputs@.len() == 0 ==> before.current == 0 && before.added == 0 && before.changed == 0
            && before.missing == 0,
        after.current - before.current == (if input.state is Current { 1int } else { 0 }),
        after.added - before.added == (if input.state is Added { 1int } else { 0 }),
        after.changed - before.changed == (if input.state is Changed { 1int } else { 0 }),
        after.missing - before.missing == (if input.state is Missing { 1int } else { 0 }),
{
    assert(more@.drop_last() =~= inputs@);
}

/// One more artifact counts as cached where its blob was found, as invalid where
/// the blob is malformed, and as missing otherwise.
pub proof fn law_blob_counts_by_what_was_found(
    blobs: &[BlobObservation],
    more: &[BlobObservation],
    blob: BlobObservation,
    before: ArtifactCoverage,
    after: ArtifactCoverage,
)
    requires
        call_ensures(count_blobs, (blobs,), before),
        call_ensures(count_blobs, (more,), after),
        more@ == blobs@.push(blob),
    ensures
        blobs@.len() == 0 ==> before.cataloged == 0 && before.cached == 0 && before.missing == 0
            && before.invalid == 0,
        after.cataloged == before.cataloged + 1,
        ({
            let found = blob is Opened && blob->Opened_0 is Ok && blob->Opened_0->Ok_0;
            let malformed = blob is Opened && blob->Opened_0 is Err;
            &&& after.cached - before.cached == (if found { 1int } else { 0 })
            &&& after.invalid - before.invalid == (if malformed { 1int } else { 0 })
            &&& after.missing - before.missing == (if !found && !malformed { 1int } else { 0 })
        }),
{
    assert(more@.drop_last() =~= blobs@);
}

/// The status calls an index fresh exactly where a finished run over the current
/// inputs is on record, every configuration input is current, and the file of
/// every source, none of which is a dependency, holds what was indexed. Without
/// a run on record nothing is known.
pub proof fn law_status_is_fresh_only_where_nothing_changed(
    observed: StatusObservation,
    response: QueryResponse,
)
    requires
        call_ensures(status, (observed,), response),
    ensures
        response.status == QueryStatus::Success,
        response.result is Some && response.result->0 is Status,
        response.result->0->Status_0.manifest == response.metadata.freshness,
        observed.checkpoint is None ==> response.metadata.freshness == Freshness::Unknown,
        response.metadata.freshness == Freshness::Fresh <==> {
            &&& observed.checkpoint is Some
            &&& observed.checkpoint->0.committed
            &&& observed.checkpoint->0.inputs.workspace@ == observed.current.workspace@
            &&& observed.checkpoint->0.inputs.manifest@ == observed.current.manifest@
            &&& observed.checkpoint->0.inputs.configuration_inputs@
                == observed.current.configuration_inputs@
            &&& observed.checkpoint->0.inputs.source_inputs@ == observed.current.source_inputs@
            &&& observed.checkpoint->0.inputs.artifact_catalog@
                == observed.current.artifact_catalog@
            &&& forall|i: int|
                0 <= i < observed.configuration_inputs@.len() ==> (
                #[trigger] observed.configuration_inputs@[i]).state
                    == ConfigurationInputState::Current
            &&& forall|i: int|
                0 <= i < observed.sources@.len() ==> (#[trigger] observed.sources@[i]).origin
                    != SourceOrigin::Dependency && observed.sources@[i].current is Some
                    && observed.sources@[i].current->0@ == observed.sources@[i].content@
        },
        response.metadata.completeness == Completeness::Complete <==> forall|i: int|
            0 <= i < observed.sources@.len() ==> (#[trigger] observed.sources@[i]).origin
                != SourceOrigin::Dependency && observed.sources@[i].current is Some,
{
    let inputs = observed.configuration_inputs@;
    let sources = observed.sources@;
    let added = |input: ConfigurationInputStatus| input.state == ConfigurationInputState::Added;
    let changed = |input: ConfigurationInputStatus|
        input.state == ConfigurationInputState::Changed;
    let missing = |input: ConfigurationInputStatus|
        input.state == ConfigurationInputState::Missing;
    let stale = |source: SourceObservation| source_freshness(source) == Freshness::Stale;
    let unknown = |source: SourceObservation| source_freshness(source) == Freshness::Unknown;
    lemma_none_counted(inputs, added);
    lemma_none_counted(inputs, changed);
    lemma_none_counted(inputs, missing);
    lemma_none_counted(sources, stale);
    lemma_none_counted(sources, unknown);
    if response.metadata.freshness == Freshness::Fresh {
        assert forall|i: int| 0 <= i < inputs.len() implies (#[trigger] inputs[i]).state
            == ConfigurationInputState::Current by {
            assert(!added(inputs[i]) && !changed(inputs[i]) && !missing(inputs[i]));
        }
        assert forall|i: int| 0 <= i < sources.len() implies (#[trigger] sources[i]).origin
            != SourceOrigin::Dependency && sources[i].current is Some && sources[i].current->0@
            == sources[i].content@ by {
            assert(!stale(sources[i]) && !unknown(sources[i]));
        }
    }
    if response.metadata.completeness == Completeness::Complete {
        assert forall|i: int| 0 <= i < sources.len() implies (#[trigger] sources[i]).origin
            != SourceOrigin::Dependency && sources[i].current is Some by {
            assert(!unknown(sources[i]));
        }
    }
}

/// Symbols are looked for by name, by qualified name, among the cached
/// dependencies and by match, in this order, until a lookup finds something.
pub proof fn law_lookups_end_with_the_first_find(
    lookup: SymbolLookup,
    found: usize,
    next: Option<SymbolLookup>,
)
    requires
        call_ensures(next_lookup, (lookup, found), next),
    ensures
        found > 0 ==> next is None,
        found == 0 ==> (next is None <==> lookup is Matching),
        found == 0 && lookup is Named ==> next == Some(SymbolLookup::Qualified),
        found == 0 && lookup is Qualified ==> next == Some(SymbolLookup::CachedDependencies),
        found == 0 && lookup is CachedDependencies ==> next == Some(SymbolLookup::Matching),
{
}

/// A symbol query answers with every symbol that was found, in the order of
/// their source units, names and ids. One is a success, several are ambiguous,
/// and the answer is no fresher than the least fresh of them.
pub proof fn law_symbols_answer_with_all_that_was_found(
    found: Vec<SymbolRecord>,
    response: QueryResponse,
    i: int,
)
    requires
        call_ensures(symbols_response, (found,), response),
        0 <= i < found@.len(),
    ensures
        found@.len() == 1 ==> response.status == QueryStatus::Success && response.problems@.len()
            == 0,
        found@.len() > 1 ==> response.status == QueryStatus::Ambiguous && response.problems@.len()
            == 1,
        response.result is Some && response.result->0 is Symbols,
        response.result->0->Symbols_symbols@.len() == found@.len(),
        response.result->0->Symbols_symbols@.contains(found@[i]),
        response.metadata.freshness == Freshness::Fresh ==> found@[i].freshness
            != Freshness::Stale && found@[i].freshness != Freshness::Unknown,
        found@[i].freshness == Freshness::Stale ==> response.metadata.freshness
            == Freshness::Stale,
{
    let symbols = response.result->0->Symbols_symbols@;
    ordering::lemma_stable_sorted_in_order(found@);
    ordering::lemma_stable_sorted_contains(found@, found@[i]);
    let at = symbols.index_of(found@[i]);
    assert(symbols[at] == found@[i]);
}

/// A symbol query that found nothing has no result.
pub proof fn law_nothing_found_is_no_result(found: Vec<SymbolRecord>, response: QueryResponse)
    requires
        call_ensures(symbols_response, (found,), response),
        found@.len() == 0,
    ensures
        response.status == QueryStatus::NoResult,
        response.result is None,
        response.problems@.len() == 0,
{
}

/// A text query is accepted exactly where it is one word: not empty, and made of
/// alphanumeric scalar values and underscores alone.
pub proof fn law_text_queries_are_one_word(value: &str, result: Option<QueryProblem>)
    requires
        call_ensures(check_text_query, (value,), result),
    ensures
        result is None <==> value@.len() > 0 && forall|i: int|
            0 <= i < value@.len() ==> text_index::alphanumeric(#[trigger] value@[i]) || value@[i]
                == '_',
        result is Some ==> result->0.code@ == "invalid_text_query"@ && !result->0.retryable,
{
    let flags = text_index::term_flags(value@);
    if is_lexical_term(value@) {
        assert forall|i: int| 0 <= i < value@.len() implies text_index::alphanumeric(
            #[trigger] value@[i],
        ) || value@[i] == '_' by {
            assert(flags[i]);
        }
    }
}

/// A text search has a result exactly where something matches.
pub proof fn law_matches_are_a_result(matches: usize, status: QueryStatus)
    requires
        call_ensures(text_search_status, (matches,), status),
    ensures
        status == QueryStatus::Success <==> matches > 0,
        status == QueryStatus::NoResult <==> matches == 0,
{
}

/// A checkpoint is of the current state exactly where its run was finished and
/// every input is the same.
pub proof fn law_checkpoints_cover_every_input(
    checkpoint: &WorkspaceCheckpoint,
    current: &CheckpointInputs,
    result: bool,
)
    requires
        call_ensures(checkpoint_matches, (checkpoint, current), result),
    ensures
        result <==> checkpoint.committed && checkpoint.inputs.workspace@ == current.workspace@
            && checkpoint.inputs.manifest@ == current.manifest@
            && checkpoint.inputs.configuration_inputs@ == current.configuration_inputs@
            && checkpoint.inputs.source_inputs@ == current.source_inputs@
            && checkpoint.inputs.artifact_catalog@ == current.artifact_catalog@,
{
}

} // verus!
