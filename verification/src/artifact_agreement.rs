//! How the parts of an artifact agree with each other.
//!
//! An artifact is read in two ways: as a whole graph, or through its postings,
//! its directory and its detail blocks. What is proved here is that both ways
//! say the same, and that it does not matter whether a subtype relation names a
//! declaration by its ordinal or by its id.

use vstd::prelude::*;

use crate::artifact_blob_layout;
use crate::artifact_blob_layout::LayoutPlan;
use crate::artifact_proto::{
    ArtifactHierarchy, ArtifactQualifiedSymbolEntry, ArtifactSymbolDetailBlock, GraphArtifact,
    GraphSnapshot,
};
use crate::artifact_proto_adapter;
use crate::artifact_query;
use crate::canonical::{HierarchyEdge, SymbolRecord};
use crate::dependency_identity;
use crate::ordering::Ranked;
use crate::protocol;
use crate::symbol_detail;
use crate::text;
use crate::value_names;
use crate::worker_proto;
use crate::worker_proto_adapter;

verus! {

/// Whether a relation that carries ids is the same as one that may name
/// declarations by ordinal.
pub open spec fn inlines_edge(
    inline: ArtifactHierarchy,
    edge: ArtifactHierarchy,
    ids: Seq<Seq<char>>,
) -> bool {
    &&& inline.subtype_symbol_ordinal is None
    &&& inline.supertype_symbol_ordinal is None
    &&& inline.subtype_symbol_id@ == artifact_proto_adapter::restored_id(
        edge.subtype_symbol_id@,
        edge.subtype_symbol_ordinal,
        ids,
    )
    &&& inline.supertype_symbol_id@ == artifact_proto_adapter::restored_id(
        edge.supertype_symbol_id@,
        edge.supertype_symbol_ordinal,
        ids,
    )
    &&& inline.precision == edge.precision
    &&& inline.provenance_index == edge.provenance_index
}

/// Whether a snapshot is the same as another, its relations carrying ids.
pub open spec fn inlines_snapshot(
    inline: GraphSnapshot,
    snapshot: GraphSnapshot,
    ids: Seq<Seq<char>>,
) -> bool {
    &&& inline.source_unit == snapshot.source_unit
    &&& inline.structural_fingerprint == snapshot.structural_fingerprint
    &&& inline.public_api_fingerprint == snapshot.public_api_fingerprint
    &&& inline.provenances@ == snapshot.provenances@
    &&& inline.symbols@ == snapshot.symbols@
    &&& inline.occurrences@ == snapshot.occurrences@
    &&& inline.references@ == snapshot.references@
    &&& inline.calls@ == snapshot.calls@
    &&& inline.hierarchy@.len() == snapshot.hierarchy@.len()
    &&& forall|i: int|
        0 <= i < snapshot.hierarchy@.len() ==> inlines_edge(
            #[trigger] inline.hierarchy@[i],
            snapshot.hierarchy@[i],
            ids,
        )
    &&& inline.types@ == snapshot.types@
    &&& inline.diagnostics@ == snapshot.diagnostics@
    &&& inline.completeness == snapshot.completeness
    &&& inline.provenance_index == snapshot.provenance_index
}

/// Whether snapshots are the same as others, their relations carrying ids.
pub open spec fn inlines(
    inline: Seq<GraphSnapshot>,
    snapshots: Seq<GraphSnapshot>,
    ids: Seq<Seq<char>>,
) -> bool {
    &&& inline.len() == snapshots.len()
    &&& forall|i: int|
        0 <= i < snapshots.len() ==> inlines_snapshot(#[trigger] inline[i], snapshots[i], ids)
}

/// Whether the ordinals of a relation are ones that the artifact has.
pub open spec fn names_declarations(edge: ArtifactHierarchy, total: nat) -> bool {
    &&& edge.subtype_symbol_ordinal matches Some(k) ==> k < total
    &&& edge.supertype_symbol_ordinal matches Some(k) ==> k < total
}

/// Whether the ordinals of all relations are ones that the artifact has.
pub open spec fn edges_name_declarations(snapshots: Seq<GraphSnapshot>) -> bool {
    let edges = artifact_blob_layout::all_hierarchy(snapshots);
    forall|i: int|
        0 <= i < edges.len() ==> names_declarations(
            #[trigger] edges[i],
            artifact_blob_layout::all_symbols(snapshots).len(),
        )
}

proof fn lemma_artifact_ids(snapshots: Seq<GraphSnapshot>)
    ensures
        artifact_proto_adapter::artifact_ids(snapshots) == artifact_proto_adapter::stored_ids(
            artifact_blob_layout::all_symbols(snapshots),
        ),
    decreases snapshots.len(),
{
    if snapshots.len() > 0 {
        lemma_artifact_ids(snapshots.drop_last());
    }
    assert(artifact_proto_adapter::artifact_ids(snapshots) =~= artifact_proto_adapter::stored_ids(
        artifact_blob_layout::all_symbols(snapshots),
    ));
}

proof fn lemma_inlined_parts(
    inline: Seq<GraphSnapshot>,
    snapshots: Seq<GraphSnapshot>,
    ids: Seq<Seq<char>>,
)
    requires
        inlines(inline, snapshots, ids),
    ensures
        artifact_blob_layout::all_symbols(inline) == artifact_blob_layout::all_symbols(snapshots),
        artifact_blob_layout::all_hierarchy(inline).len() == artifact_blob_layout::all_hierarchy(
            snapshots,
        ).len(),
        forall|i: int|
            0 <= i < artifact_blob_layout::all_hierarchy(snapshots).len() ==> inlines_edge(
                #[trigger] artifact_blob_layout::all_hierarchy(inline)[i],
                artifact_blob_layout::all_hierarchy(snapshots)[i],
                ids,
            ),
    decreases snapshots.len(),
{
    if snapshots.len() > 0 {
        let n = snapshots.len() - 1;
        assert forall|i: int| 0 <= i < n implies inlines_snapshot(
            #[trigger] inline.drop_last()[i],
            snapshots.drop_last()[i],
            ids,
        ) by {
            assert(inlines_snapshot(inline[i], snapshots[i], ids));
        }
        lemma_inlined_parts(inline.drop_last(), snapshots.drop_last(), ids);
        assert(inlines_snapshot(inline[n], snapshots[n], ids));
        let before = artifact_blob_layout::all_hierarchy(snapshots.drop_last());
        let inline_before = artifact_blob_layout::all_hierarchy(inline.drop_last());
        assert forall|i: int|
            0 <= i < artifact_blob_layout::all_hierarchy(snapshots).len() implies inlines_edge(
            #[trigger] artifact_blob_layout::all_hierarchy(inline)[i],
            artifact_blob_layout::all_hierarchy(snapshots)[i],
            ids,
        ) by {
            if i < before.len() {
                assert(inlines_edge(inline_before[i], before[i], ids));
            } else {
                assert(inlines_edge(
                    inline[n].hierarchy@[i - before.len()],
                    snapshots[n].hierarchy@[i - before.len()],
                    ids,
                ));
            }
        }
    }
}

proof fn lemma_restores_inlined(
    value: worker_proto::FileAnalysisSnapshot,
    inline: GraphSnapshot,
    snapshot: GraphSnapshot,
    ids: Seq<Seq<char>>,
)
    requires
        inlines_snapshot(inline, snapshot, ids),
    ensures
        artifact_proto_adapter::restores_snapshot(value, inline, ids)
            == artifact_proto_adapter::restores_snapshot(value, snapshot, ids),
{
    assert forall|i: int|
        0 <= i < snapshot.hierarchy@.len() && i < value.hierarchy@.len() implies
        artifact_proto_adapter::restores_hierarchy(
        #[trigger] value.hierarchy@[i],
        inline.hierarchy@[i],
        value.provenance_index,
        ids,
    ) == artifact_proto_adapter::restores_hierarchy(
        value.hierarchy@[i],
        snapshot.hierarchy@[i],
        value.provenance_index,
        ids,
    ) by {
        assert(inlines_edge(inline.hierarchy@[i], snapshot.hierarchy@[i], ids));
    }
}

/// A graph whose relations name declarations by ordinal decodes as the same
/// graph with the ids in place: to the same snapshots, and where it does not
/// decode, for the same reasons.
pub proof fn law_ordinal_edges_decode_as_inline_edges(
    inline: GraphArtifact,
    artifact: GraphArtifact,
)
    requires
        inlines(
            inline.snapshots@,
            artifact.snapshots@,
            artifact_proto_adapter::artifact_ids(artifact.snapshots@),
        ),
    ensures
        forall|snapshots: Seq<protocol::FileAnalysisSnapshot>| #[trigger]
            artifact_proto_adapter::reads_artifact(snapshots, inline)
                == artifact_proto_adapter::reads_artifact(snapshots, artifact),
        forall|i: int|
            0 <= i < artifact.snapshots@.len() ==> artifact_proto_adapter::stored_problem(
                #[trigger] inline.snapshots@[i],
                artifact_proto_adapter::artifact_ids(inline.snapshots@),
            ) == artifact_proto_adapter::stored_problem(
                artifact.snapshots@[i],
                artifact_proto_adapter::artifact_ids(artifact.snapshots@),
            ),
{
    let ids = artifact_proto_adapter::artifact_ids(artifact.snapshots@);
    lemma_inlined_parts(inline.snapshots@, artifact.snapshots@, ids);
    lemma_artifact_ids(inline.snapshots@);
    lemma_artifact_ids(artifact.snapshots@);
    assert(artifact_proto_adapter::artifact_ids(inline.snapshots@) == ids);
    assert forall|i: int, value: worker_proto::FileAnalysisSnapshot|
        0 <= i < artifact.snapshots@.len() implies #[trigger] artifact_proto_adapter::restores_snapshot(
        value,
        inline.snapshots@[i],
        ids,
    ) == artifact_proto_adapter::restores_snapshot(value, artifact.snapshots@[i], ids) by {
        lemma_restores_inlined(value, inline.snapshots@[i], artifact.snapshots@[i], ids);
    }
    assert forall|i: int, value: worker_proto::FileAnalysisSnapshot|
        0 <= i < artifact.snapshots@.len() implies #[trigger] artifact_proto_adapter::restores_snapshot(
        value,
        artifact.snapshots@[i],
        ids,
    ) == artifact_proto_adapter::restores_snapshot(value, inline.snapshots@[i], ids) by {
        lemma_restores_inlined(value, inline.snapshots@[i], artifact.snapshots@[i], ids);
    }
    assert forall|i: int| 0 <= i < artifact.snapshots@.len() implies (
    #[trigger] inline.snapshots@[i]).provenance_index == artifact.snapshots@[i].provenance_index by {
        assert(inlines_snapshot(inline.snapshots@[i], artifact.snapshots@[i], ids));
    }
    assert forall|i: int, snapshot: protocol::FileAnalysisSnapshot|
        0 <= i < artifact.snapshots@.len() implies #[trigger] artifact_proto_adapter::reads_snapshot(
        snapshot,
        inline.snapshots@[i],
        ids,
    ) == artifact_proto_adapter::reads_snapshot(snapshot, artifact.snapshots@[i], ids) by {}
    assert forall|snapshots: Seq<protocol::FileAnalysisSnapshot>| #[trigger]
        artifact_proto_adapter::reads_artifact(snapshots, inline)
            == artifact_proto_adapter::reads_artifact(snapshots, artifact) by {
        if artifact_proto_adapter::reads_artifact(snapshots, inline) {
            assert forall|i: int| 0 <= i < snapshots.len() implies
                artifact_proto_adapter::reads_snapshot(
                #[trigger] snapshots[i],
                artifact.snapshots@[i],
                ids,
            ) by {
                assert(artifact_proto_adapter::reads_snapshot(
                    snapshots[i],
                    inline.snapshots@[i],
                    ids,
                ));
            }
        }
        if artifact_proto_adapter::reads_artifact(snapshots, artifact) {
            assert forall|i: int| 0 <= i < snapshots.len() implies
                artifact_proto_adapter::reads_snapshot(
                #[trigger] snapshots[i],
                inline.snapshots@[i],
                ids,
            ) by {
                assert(artifact_proto_adapter::reads_snapshot(
                    snapshots[i],
                    artifact.snapshots@[i],
                    ids,
                ));
            }
        }
    }
}

/// A graph whose relations name declarations by ordinal has the postings of the
/// same graph with the ids in place.
pub proof fn law_ordinal_edges_post_as_inline_edges(
    inline_plan: LayoutPlan,
    plan: LayoutPlan,
    inline: Seq<GraphSnapshot>,
    snapshots: Seq<GraphSnapshot>,
)
    requires
        artifact_blob_layout::is_plan_of(inline_plan, inline),
        artifact_blob_layout::is_plan_of(plan, snapshots),
        edges_name_declarations(snapshots),
        inlines(inline, snapshots, artifact_proto_adapter::artifact_ids(snapshots)),
    ensures
        inline_plan.hierarchy.entries@.len() == plan.hierarchy.entries@.len(),
        forall|i: int|
            0 <= i < plan.hierarchy.entries@.len() ==> {
                let posting = #[trigger] plan.hierarchy.entries@[i];
                let other = inline_plan.hierarchy.entries@[i];
                &&& posting.subtype_symbol_id@ == other.subtype_symbol_id@
                &&& posting.supertype_symbol_id@ == other.supertype_symbol_id@
                &&& posting.precision == other.precision
            },
{
    let ids = artifact_proto_adapter::artifact_ids(snapshots);
    lemma_inlined_parts(inline, snapshots, ids);
    lemma_artifact_ids(snapshots);
    let edges = artifact_blob_layout::all_hierarchy(snapshots);
    assert forall|i: int| 0 <= i < plan.hierarchy.entries@.len() implies {
        let posting = #[trigger] plan.hierarchy.entries@[i];
        let other = inline_plan.hierarchy.entries@[i];
        &&& posting.subtype_symbol_id@ == other.subtype_symbol_id@
        &&& posting.supertype_symbol_id@ == other.supertype_symbol_id@
        &&& posting.precision == other.precision
    } by {
        assert(inlines_edge(artifact_blob_layout::all_hierarchy(inline)[i], edges[i], ids));
        assert(names_declarations(
            edges[i],
            artifact_blob_layout::all_symbols(snapshots).len(),
        ));
    }
}

/// Whether declarations carry their owners as ids, and snapshots have the first
/// of their provenances.
pub open spec fn is_plainly_stored(snapshots: Seq<GraphSnapshot>) -> bool {
    &&& forall|i: int|
        0 <= i < snapshots.len() ==> (#[trigger] snapshots[i]).provenance_index == Some(0u32)
    &&& forall|k: int|
        0 <= k < artifact_blob_layout::all_symbols(snapshots).len() ==> (
        #[trigger] artifact_blob_layout::all_symbols(snapshots)[k]).owner_symbol_ordinal is None
}

/// Decoded declarations stand where the stored ones stand.
proof fn lemma_declarations(
    read: Seq<protocol::FileAnalysisSnapshot>,
    artifact: GraphArtifact,
    n: int,
)
    requires
        artifact_proto_adapter::reads_artifact(read, artifact),
        0 <= n <= read.len(),
    ensures
        artifact_query::all_declarations(read.take(n)).len() == artifact_blob_layout::all_symbols(
            artifact.snapshots@.take(n),
        ).len(),
    decreases n,
{
    if n > 0 {
        lemma_declarations(read, artifact, n - 1);
        assert(read.take(n).drop_last() =~= read.take(n - 1));
        assert(artifact.snapshots@.take(n).drop_last() =~= artifact.snapshots@.take(n - 1));
        assert(artifact_proto_adapter::reads_snapshot(
            read[n - 1],
            artifact.snapshots@[n - 1],
            artifact_proto_adapter::artifact_ids(artifact.snapshots@),
        ));
    }
}

proof fn lemma_declaration_at(
    read: Seq<protocol::FileAnalysisSnapshot>,
    unit: int,
    i: int,
)
    requires
        0 <= unit < read.len(),
        0 <= i < read[unit].symbols@.len(),
    ensures
        ({
            let first = artifact_query::all_declarations(read.take(unit)).len();
            &&& first + i < artifact_query::all_declarations(read).len()
            &&& artifact_query::all_declarations(read)[first + i] == read[unit].symbols@[i]
        }),
    decreases read.len(),
{
    let rest = read.drop_last();
    if unit < rest.len() {
        lemma_declaration_at(rest, unit, i);
        assert(rest.take(unit) =~= read.take(unit));
    } else {
        assert(read.take(unit) =~= rest);
    }
}

/// What is decoded of a stored declaration says what the stored one says.
proof fn lemma_decoded_says(
    read: Seq<protocol::FileAnalysisSnapshot>,
    artifact: GraphArtifact,
    ordinal: u32,
) -> (unit: int)
    requires
        artifact_proto_adapter::reads_artifact(read, artifact),
        is_plainly_stored(artifact.snapshots@),
        artifact.snapshots@.len() <= u32::MAX,
        ordinal < artifact_blob_layout::all_symbols(artifact.snapshots@).len(),
    ensures
        0 <= unit < read.len(),
        ({
            let symbol = artifact_blob_layout::all_symbols(artifact.snapshots@)[ordinal as int];
            let declared = artifact_query::all_declarations(read)[ordinal as int];
            let named = symbol_detail::named_provenance(symbol);
            let stored = artifact.snapshots@[unit];
            &&& artifact_query::all_declarations(read).len() == artifact_blob_layout::all_symbols(
                artifact.snapshots@,
            ).len()
            &&& artifact_blob_layout::declares_ordinal(
                artifact.snapshots@,
                unit as u32,
                ordinal as int,
            )
            &&& artifact_proto_adapter::says(symbol_detail::symbol_text(symbol), declared)
            &&& stored.source_unit is Some
            &&& worker_proto_adapter::is_origin(stored.source_unit->0.origin@)
            &&& worker_proto_adapter::is_symbol_of(declared, stored.source_unit->0.id@)
            &&& named < stored.provenances@.len()
            &&& stored.provenances@[named].backend@ == declared.provenance.backend@
            &&& stored.provenances@[named].backend_version@ == declared.provenance.backend_version@
            &&& stored.provenances@[named].worker_protocol_version
                == declared.provenance.protocol_version
            &&& stored.provenances@[named].analysis_options_fingerprint@
                == declared.provenance.analysis_options@
        }),
{
    let snapshots = artifact.snapshots@;
    let ids = artifact_proto_adapter::artifact_ids(snapshots);
    artifact_blob_layout::lemma_unit_of_ordinal(snapshots, ordinal as int);
    let unit = artifact_blob_layout::all_units(snapshots)[ordinal as int] as int;
    let first = artifact_blob_layout::all_symbols(snapshots.take(unit)).len();
    let i = ordinal - first;
    let stored = snapshots[unit];
    assert(artifact_proto_adapter::reads_snapshot(read[unit], stored, ids));
    let restored = choose|restored: worker_proto::FileAnalysisSnapshot| #[trigger]
        artifact_proto_adapter::restores_snapshot(restored, stored, ids)
            && worker_proto_adapter::represents_snapshot(restored, read[unit]);
    lemma_declarations(read, artifact, unit);
    lemma_declarations(read, artifact, read.len() as int);
    assert(read.take(read.len() as int) =~= read);
    assert(snapshots.take(read.len() as int) =~= snapshots);
    lemma_declaration_at(read, unit, i);
    let symbol = stored.symbols@[i];
    assert(symbol == artifact_blob_layout::all_symbols(snapshots)[ordinal as int]);
    let declared = read[unit].symbols@[i];
    let written = restored.symbols@[i];
    assert(artifact_proto_adapter::restores_symbol(
        written,
        symbol,
        restored.provenance_index,
        ids,
    ));
    assert(stored.provenance_index == Some(0u32));
    assert(worker_proto_adapter::declares(written, declared));
    assert(worker_proto_adapter::is_symbol_of(declared, read[unit].source_unit.id@));
    assert(artifact_proto_adapter::stores_provenance(
        stored.provenances@[written.provenance_index as int],
        restored.provenances@[written.provenance_index as int],
    ));
    assert(dependency_identity::option_view(written.owner_id)
        == worker_proto_adapter::viewed(declared.owner));
    assert(dependency_identity::option_view(symbol.qualified_name)
        == worker_proto_adapter::viewed(written.qualified_name));
    assert(dependency_identity::option_view(symbol.signature)
        == worker_proto_adapter::viewed(written.signature));
    assert(artifact_proto_adapter::says(symbol_detail::symbol_text(symbol), declared));
    let unit_text = restored.source_unit->0;
    assert(value_names::origin_text(read[unit].source_unit.origin) == unit_text.origin@);
    unit
}

/// A declaration that is read from its detail block is the one that is decoded
/// from the whole graph, in every field. A block answers for no other ordinal.
pub proof fn law_detail_agrees_with_graph(
    plan: LayoutPlan,
    artifact: GraphArtifact,
    read: Seq<protocol::FileAnalysisSnapshot>,
    block: int,
    ordinal: u32,
)
    requires
        artifact_blob_layout::is_plan_of(plan, artifact.snapshots@),
        artifact_blob_layout::layout_fits(artifact.snapshots@),
        artifact_proto_adapter::reads_artifact(read, artifact),
        is_plainly_stored(artifact.snapshots@),
        0 <= block < plan.blocks@.len(),
    ensures
        artifact_blob_layout::holds_ordinal(plan.blocks@[block], ordinal) ==> {
            &&& artifact_proto_adapter::detail_problem(plan.blocks@[block], ordinal) is None
            &&& ordinal < artifact_query::all_declarations(read).len()
            &&& forall|symbol: SymbolRecord| #[trigger]
                artifact_proto_adapter::answers(symbol, plan.blocks@[block], ordinal)
                    ==> worker_proto_adapter::same_symbol(
                    artifact_query::all_declarations(read)[ordinal as int],
                    symbol,
                )
        },
        !artifact_blob_layout::holds_ordinal(plan.blocks@[block], ordinal)
            ==> artifact_proto_adapter::detail_problem(plan.blocks@[block], ordinal) == Some(
            artifact_proto_adapter::ArtifactProtoError::LengthMismatch,
        ),
{
    let snapshots = artifact.snapshots@;
    let held = plan.blocks@[block];
    if artifact_blob_layout::holds_ordinal(held, ordinal) {
        let (k, c) = artifact_blob_layout::lemma_block_position(plan.blocks@, snapshots, block);
        let unit = lemma_decoded_says(read, artifact, ordinal);
        let declared = artifact_query::all_declarations(read)[ordinal as int];
        artifact_blob_layout::lemma_one_unit(snapshots, k, unit, ordinal as int);
        artifact_blob_layout::law_ordinal_round_trip(plan.blocks@, snapshots, ordinal, block);
        let stored = symbol_detail::expanded_symbol(held, ordinal);
        assert(value_names::symbol_kind_text(declared.kind) == stored.kind);
        assert(value_names::freshness_text(declared.freshness) == stored.freshness);
        assert(value_names::completeness_text(declared.completeness) == stored.completeness);
        assert forall|symbol: SymbolRecord| #[trigger]
            artifact_proto_adapter::answers(symbol, held, ordinal) implies
            worker_proto_adapter::same_symbol(declared, symbol) by {
            value_names::law_language_texts_differ(declared.language@, symbol.language@);
            value_names::law_symbol_kind_texts_differ(declared.kind, symbol.kind);
            value_names::law_freshness_texts_differ(declared.freshness, symbol.freshness);
            value_names::law_completeness_texts_differ(
                declared.completeness,
                symbol.completeness,
            );
        }
    }
}

/// Whether ordinals ascend strictly.
pub open spec fn ordinals_ascend(ordinals: Seq<u32>) -> bool {
    forall|i: int, j: int|
        #![trigger ordinals[i], ordinals[j]]
        0 <= i < j < ordinals.len() ==> ordinals[i] < ordinals[j]
}

/// Whether one of the first entries lists an ordinal under a name.
pub open spec fn lists_ordinal(
    entries: Seq<ArtifactQualifiedSymbolEntry>,
    name: Seq<char>,
    n: int,
    ordinal: u32,
) -> bool {
    exists|i: int|
        0 <= i < n && (#[trigger] entries[i]).qualified_name@ == name && entries[i].symbol_ordinal
            == ordinal
}

proof fn lemma_named_ordinals(plan: LayoutPlan, name: Seq<char>, n: int)
    requires
        0 <= n <= plan.directory.entries@.len(),
        forall|i: int, j: int|
            #![trigger plan.directory.entries@[i], plan.directory.entries@[j]]
            0 <= i < j < plan.directory.entries@.len() && plan.directory.entries@[i].qualified_name@
                == plan.directory.entries@[j].qualified_name@
                ==> plan.directory.entries@[i].symbol_ordinal
                < plan.directory.entries@[j].symbol_ordinal,
    ensures
        ordinals_ascend(artifact_query::named_ordinals(plan.directory, name, n)),
        forall|k: int|
            0 <= k < artifact_query::named_ordinals(plan.directory, name, n).len()
                ==> lists_ordinal(
                plan.directory.entries@,
                name,
                n,
                #[trigger] artifact_query::named_ordinals(plan.directory, name, n)[k],
            ),
        forall|i: int|
            0 <= i < n && (#[trigger] plan.directory.entries@[i]).qualified_name@ == name
                ==> artifact_query::named_ordinals(plan.directory, name, n).contains(
                plan.directory.entries@[i].symbol_ordinal,
            ),
    decreases n,
{
    if n > 0 {
        lemma_named_ordinals(plan, name, n - 1);
        let entries = plan.directory.entries@;
        let before = artifact_query::named_ordinals(plan.directory, name, n - 1);
        let found = artifact_query::named_ordinals(plan.directory, name, n);
        assert forall|k: int| 0 <= k < found.len() implies lists_ordinal(
            entries,
            name,
            n,
            #[trigger] found[k],
        ) by {
            if k < before.len() {
                assert(found[k] == before[k]);
                let i = choose|i: int|
                    0 <= i < n - 1 && (#[trigger] entries[i]).qualified_name@ == name
                        && entries[i].symbol_ordinal == before[k];
                assert(entries[i].symbol_ordinal == found[k]);
            } else {
                assert(entries[n - 1].symbol_ordinal == found[k]);
            }
        }
        assert forall|i: int|
            0 <= i < n && (#[trigger] entries[i]).qualified_name@ == name implies found.contains(
            entries[i].symbol_ordinal,
        ) by {
            if i < n - 1 {
                let k = before.index_of(entries[i].symbol_ordinal);
                assert(found[k] == before[k]);
            } else {
                assert(found[found.len() - 1] == entries[i].symbol_ordinal);
            }
        }
        assert forall|i: int, j: int|
            #![trigger found[i], found[j]]
            0 <= i < j < found.len() implies found[i] < found[j] by {
            assert(found[i] == before[i]);
            if j < before.len() {
                assert(found[j] == before[j]);
            } else {
                let p = choose|p: int|
                    0 <= p < n - 1 && (#[trigger] entries[p]).qualified_name@ == name
                        && entries[p].symbol_ordinal == before[i];
                assert(entries[p].symbol_ordinal < entries[n - 1].symbol_ordinal);
            }
        }
    }
}

/// The directory of an artifact leads from a qualified name to exactly the
/// declarations of that name, in the order of ordinals.
pub proof fn law_qualified_lookup_is_exact(
    plan: LayoutPlan,
    snapshots: Seq<GraphSnapshot>,
    name: Seq<char>,
)
    requires
        artifact_blob_layout::is_plan_of(plan, snapshots),
        artifact_blob_layout::layout_fits(snapshots),
    ensures
        ({
            let symbols = artifact_blob_layout::all_symbols(snapshots);
            let found = artifact_query::named_ordinals(
                plan.directory,
                name,
                plan.directory.entries@.len() as int,
            );
            &&& ordinals_ascend(found)
            &&& forall|k: u32| #[trigger]
                found.contains(k) <==> k < symbols.len() && dependency_identity::option_view(
                    symbols[k as int].qualified_name,
                ) == Some(name)
        }),
{
    let symbols = artifact_blob_layout::all_symbols(snapshots);
    let entries = plan.directory.entries@;
    artifact_blob_layout::law_directory_is_exact(plan, snapshots);
    assert forall|i: int, j: int|
        #![trigger entries[i], entries[j]]
        0 <= i < j < entries.len() && entries[i].qualified_name@
            == entries[j].qualified_name@ implies entries[i].symbol_ordinal
        < entries[j].symbol_ordinal by {
        assert(entries[i].ranks_before(&entries[j]));
        text::lemma_text_lt_irreflexive(entries[i].qualified_name@);
    }
    lemma_named_ordinals(plan, name, entries.len() as int);
    let found = artifact_query::named_ordinals(plan.directory, name, entries.len() as int);
    assert forall|k: u32| #[trigger] found.contains(k) <==> k < symbols.len()
        && dependency_identity::option_view(symbols[k as int].qualified_name) == Some(name) by {
        if found.contains(k) {
            let p = found.index_of(k);
            assert(found[p] == k);
            let i = choose|i: int|
                0 <= i < entries.len() && (#[trigger] entries[i]).qualified_name@ == name
                    && entries[i].symbol_ordinal == found[p];
            assert(symbols[entries[i].symbol_ordinal as int].qualified_name == Some(
                entries[i].qualified_name,
            ));
        }
        if k < symbols.len() && dependency_identity::option_view(symbols[k as int].qualified_name)
            == Some(name) {
            let entry = ArtifactQualifiedSymbolEntry {
                qualified_name: symbols[k as int].qualified_name->0,
                symbol_ordinal: k,
            };
            assert(symbols[k as int].qualified_name is Some);
            assert(entries.contains(entry));
            let i = entries.index_of(entry);
            assert(entries[i].qualified_name@ == name);
        }
    }
}

/// Whether blocks are the ones that a plan holds for ordinals, one each.
pub open spec fn are_planned_blocks(
    blocks: Seq<ArtifactSymbolDetailBlock>,
    plan: LayoutPlan,
    ordinals: Seq<u32>,
) -> bool {
    &&& blocks.len() == ordinals.len()
    &&& forall|i: int|
        0 <= i < ordinals.len() ==> artifact_blob_layout::holds_ordinal(
            #[trigger] blocks[i],
            ordinals[i],
        ) && exists|b: int| 0 <= b < plan.blocks@.len() && #[trigger] plan.blocks@[b] == blocks[i]
}

proof fn lemma_no_blocks_problem(
    blocks: Seq<ArtifactSymbolDetailBlock>,
    ordinals: Seq<u32>,
    n: int,
)
    requires
        forall|i: int|
            0 <= i < n ==> artifact_proto_adapter::detail_problem(
                #[trigger] blocks[i],
                ordinals[i],
            ) is None,
    ensures
        artifact_query::blocks_problem(blocks, ordinals, n) is None,
    decreases n,
{
    if n > 0 {
        lemma_no_blocks_problem(blocks, ordinals, n - 1);
        assert(artifact_proto_adapter::detail_problem(blocks[n - 1], ordinals[n - 1]) is None);
    }
}

/// Looking a qualified name up in an artifact, through its directory and its
/// detail blocks, gives the declarations of that name that decoding the whole
/// graph gives.
pub proof fn law_qualified_lookup_agrees_with_graph(
    plan: LayoutPlan,
    artifact: GraphArtifact,
    read: Seq<protocol::FileAnalysisSnapshot>,
    name: Seq<char>,
    blocks: Seq<ArtifactSymbolDetailBlock>,
    symbols: Seq<SymbolRecord>,
)
    requires
        artifact_blob_layout::is_plan_of(plan, artifact.snapshots@),
        artifact_blob_layout::layout_fits(artifact.snapshots@),
        artifact_proto_adapter::reads_artifact(read, artifact),
        is_plainly_stored(artifact.snapshots@),
        are_planned_blocks(
            blocks,
            plan,
            artifact_query::named_ordinals(
                plan.directory,
                name,
                plan.directory.entries@.len() as int,
            ),
        ),
        artifact_query::are_symbols_of(
            symbols,
            blocks,
            artifact_query::named_ordinals(
                plan.directory,
                name,
                plan.directory.entries@.len() as int,
            ),
        ),
    ensures
        ({
            let found = artifact_query::named_ordinals(
                plan.directory,
                name,
                plan.directory.entries@.len() as int,
            );
            let declared = artifact_query::all_declarations(read);
            &&& artifact_query::blocks_problem(blocks, found, found.len() as int) is None
            &&& ordinals_ascend(found)
            &&& forall|k: u32| #[trigger]
                found.contains(k) <==> k < declared.len() && worker_proto_adapter::viewed(
                    declared[k as int].qualified_name,
                ) == Some(name)
            &&& forall|i: int|
                0 <= i < found.len() ==> worker_proto_adapter::same_symbol(
                    declared[found[i] as int],
                    #[trigger] symbols[i],
                )
        }),
{
    let found = artifact_query::named_ordinals(
        plan.directory,
        name,
        plan.directory.entries@.len() as int,
    );
    let declared = artifact_query::all_declarations(read);
    let stored = artifact_blob_layout::all_symbols(artifact.snapshots@);
    law_qualified_lookup_is_exact(plan, artifact.snapshots@, name);
    lemma_declarations(read, artifact, read.len() as int);
    assert(read.take(read.len() as int) =~= read);
    assert(artifact.snapshots@.take(read.len() as int) =~= artifact.snapshots@);
    assert forall|i: int| 0 <= i < found.len() implies artifact_proto_adapter::detail_problem(
        #[trigger] blocks[i],
        found[i],
    ) is None && worker_proto_adapter::same_symbol(declared[found[i] as int], symbols[i]) by {
        let b = choose|b: int|
            0 <= b < plan.blocks@.len() && #[trigger] plan.blocks@[b] == blocks[i];
        assert(artifact_proto_adapter::answers(symbols[i], blocks[i], found[i]));
        law_detail_agrees_with_graph(plan, artifact, read, b, found[i]);
    }
    lemma_no_blocks_problem(blocks, found, found.len() as int);
    assert forall|i: int| 0 <= i < found.len() implies worker_proto_adapter::same_symbol(
        declared[found[i] as int],
        #[trigger] symbols[i],
    ) by {
        assert(artifact_proto_adapter::detail_problem(blocks[i], found[i]) is None);
    }
    assert forall|k: u32| #[trigger] found.contains(k) <==> k < declared.len()
        && worker_proto_adapter::viewed(declared[k as int].qualified_name) == Some(name) by {
        if k < declared.len() {
            let unit = lemma_decoded_says(read, artifact, k);
            assert(dependency_identity::option_view(stored[k as int].qualified_name)
                == worker_proto_adapter::viewed(declared[k as int].qualified_name));
        }
    }
}

/// All subtype relations of decoded snapshots.
pub open spec fn all_edges(snapshots: Seq<protocol::FileAnalysisSnapshot>) -> Seq<
    HierarchyEdge,
>
    decreases snapshots.len(),
{
    if snapshots.len() == 0 {
        Seq::empty()
    } else {
        all_edges(snapshots.drop_last()) + snapshots.last().hierarchy@
    }
}

/// Decoded relations stand where the stored ones stand and name the same
/// declarations.
proof fn lemma_edges(read: Seq<protocol::FileAnalysisSnapshot>, artifact: GraphArtifact, n: int)
    requires
        artifact_proto_adapter::reads_artifact(read, artifact),
        0 <= n <= read.len(),
    ensures
        all_edges(read.take(n)).len() == artifact_blob_layout::all_hierarchy(
            artifact.snapshots@.take(n),
        ).len(),
        forall|i: int|
            0 <= i < all_edges(read.take(n)).len() ==> {
                let edge = #[trigger] all_edges(read.take(n))[i];
                let stored = artifact_blob_layout::all_hierarchy(artifact.snapshots@.take(n))[i];
                let ids = artifact_proto_adapter::artifact_ids(artifact.snapshots@);
                &&& edge.subtype@ == artifact_proto_adapter::restored_id(
                    stored.subtype_symbol_id@,
                    stored.subtype_symbol_ordinal,
                    ids,
                )
                &&& edge.supertype@ == artifact_proto_adapter::restored_id(
                    stored.supertype_symbol_id@,
                    stored.supertype_symbol_ordinal,
                    ids,
                )
            },
    decreases n,
{
    if n > 0 {
        lemma_edges(read, artifact, n - 1);
        assert(read.take(n).drop_last() =~= read.take(n - 1));
        assert(artifact.snapshots@.take(n).drop_last() =~= artifact.snapshots@.take(n - 1));
        let ids = artifact_proto_adapter::artifact_ids(artifact.snapshots@);
        let stored = artifact.snapshots@[n - 1];
        assert(artifact_proto_adapter::reads_snapshot(read[n - 1], stored, ids));
        let restored = choose|restored: worker_proto::FileAnalysisSnapshot| #[trigger]
            artifact_proto_adapter::restores_snapshot(restored, stored, ids)
                && worker_proto_adapter::represents_snapshot(restored, read[n - 1]);
        let before = all_edges(read.take(n - 1));
        assert forall|i: int| 0 <= i < all_edges(read.take(n)).len() implies {
            let edge = #[trigger] all_edges(read.take(n))[i];
            let stored = artifact_blob_layout::all_hierarchy(artifact.snapshots@.take(n))[i];
            &&& edge.subtype@ == artifact_proto_adapter::restored_id(
                stored.subtype_symbol_id@,
                stored.subtype_symbol_ordinal,
                ids,
            )
            &&& edge.supertype@ == artifact_proto_adapter::restored_id(
                stored.supertype_symbol_id@,
                stored.supertype_symbol_ordinal,
                ids,
            )
        } by {
            if i < before.len() {
                assert(all_edges(read.take(n))[i] == before[i]);
            } else {
                let j = i - before.len();
                assert(worker_proto_adapter::represents_hierarchy(
                    restored.hierarchy@[j],
                    read[n - 1].hierarchy@[j],
                ));
                assert(artifact_proto_adapter::restores_hierarchy(
                    restored.hierarchy@[j],
                    stored.hierarchy@[j],
                    restored.provenance_index,
                    ids,
                ));
            }
        }
    }
}

/// Whether relations make an id a direct subtype.
pub open spec fn is_direct_subtype(
    edges: Seq<HierarchyEdge>,
    supertype: Seq<char>,
    id: Seq<char>,
) -> bool {
    exists|i: int|
        0 <= i < edges.len() && (#[trigger] edges[i]).supertype@ == supertype && edges[i].subtype@
            == id
}

proof fn lemma_subtype_ordinals(plan: LayoutPlan, supertype: Seq<char>, n: int)
    requires
        0 <= n <= plan.dictionary.entries@.len() <= u32::MAX,
    ensures
        ({
            let found = artifact_query::subtype_ordinals(
                plan.hierarchy,
                plan.dictionary,
                supertype,
                n,
            );
            &&& ordinals_ascend(found)
            &&& forall|k: int| 0 <= k < found.len() ==> #[trigger] found[k] < n
            &&& forall|k: u32| #[trigger]
                found.contains(k) <==> k < n && artifact_query::is_subtype(
                    plan.hierarchy,
                    supertype,
                    plan.dictionary.entries@[k as int].id@,
                )
        }),
    decreases n,
{
    if n > 0 {
        lemma_subtype_ordinals(plan, supertype, n - 1);
        let before = artifact_query::subtype_ordinals(
            plan.hierarchy,
            plan.dictionary,
            supertype,
            n - 1,
        );
        let found = artifact_query::subtype_ordinals(plan.hierarchy, plan.dictionary, supertype, n);
        assert forall|k: u32| #[trigger] found.contains(k) <==> k < n && artifact_query::is_subtype(
            plan.hierarchy,
            supertype,
            plan.dictionary.entries@[k as int].id@,
        ) by {
            assert(before.contains(k) <==> k < n - 1 && artifact_query::is_subtype(
                plan.hierarchy,
                supertype,
                plan.dictionary.entries@[k as int].id@,
            ));
            if before.contains(k) {
                let p = before.index_of(k);
                assert(found[p] == k);
            }
            if found.contains(k) {
                let p = found.index_of(k);
                if p < before.len() {
                    assert(before[p] == k);
                }
            }
            if k == n - 1 && artifact_query::is_subtype(
                plan.hierarchy,
                supertype,
                plan.dictionary.entries@[k as int].id@,
            ) {
                assert(found[found.len() - 1] == k);
            }
        }
        assert forall|i: int, j: int|
            #![trigger found[i], found[j]]
            0 <= i < j < found.len() implies found[i] < found[j] by {
            assert(found[i] == before[i]);
            if j < before.len() {
                assert(found[j] == before[j]);
            }
        }
    }
}

/// The postings of an artifact lead from a declaration to exactly its direct
/// implementations in the artifact, in the order of ordinals: the declarations
/// that some relation of the decoded graph makes a subtype, whether it names
/// them by ordinal or by id.
pub proof fn law_implementation_lookup_is_exact(
    plan: LayoutPlan,
    artifact: GraphArtifact,
    read: Seq<protocol::FileAnalysisSnapshot>,
    supertype: Seq<char>,
)
    requires
        artifact_blob_layout::is_plan_of(plan, artifact.snapshots@),
        artifact_blob_layout::layout_fits(artifact.snapshots@),
        artifact_proto_adapter::reads_artifact(read, artifact),
        edges_name_declarations(artifact.snapshots@),
    ensures
        ({
            let symbols = artifact_blob_layout::all_symbols(artifact.snapshots@);
            let found = artifact_query::subtype_ordinals(
                plan.hierarchy,
                plan.dictionary,
                supertype,
                plan.dictionary.entries@.len() as int,
            );
            &&& ordinals_ascend(found)
            &&& forall|k: u32| #[trigger]
                found.contains(k) <==> k < symbols.len() && is_direct_subtype(
                    all_edges(read),
                    supertype,
                    symbols[k as int].id@,
                )
        }),
{
    let snapshots = artifact.snapshots@;
    let symbols = artifact_blob_layout::all_symbols(snapshots);
    let edges = artifact_blob_layout::all_hierarchy(snapshots);
    lemma_subtype_ordinals(plan, supertype, plan.dictionary.entries@.len() as int);
    lemma_edges(read, artifact, read.len() as int);
    assert(read.take(read.len() as int) =~= read);
    assert(snapshots.take(read.len() as int) =~= snapshots);
    lemma_artifact_ids(snapshots);
    let decoded = all_edges(read);
    let postings = plan.hierarchy.entries@;
    assert forall|i: int| 0 <= i < edges.len() implies (
    #[trigger] decoded[i]).subtype@ == postings[i].subtype_symbol_id@ && decoded[i].supertype@
        == postings[i].supertype_symbol_id@ by {
        assert(names_declarations(edges[i], symbols.len()));
    }
    assert forall|id: Seq<char>| #[trigger]
        artifact_query::is_subtype(plan.hierarchy, supertype, id) == is_direct_subtype(
            decoded,
            supertype,
            id,
        ) by {
        if artifact_query::is_subtype(plan.hierarchy, supertype, id) {
            let i = choose|i: int|
                0 <= i < postings.len() && (#[trigger] postings[i]).supertype_symbol_id@
                    == supertype && postings[i].subtype_symbol_id@ == id;
            assert(decoded[i].supertype@ == supertype);
        }
        if is_direct_subtype(decoded, supertype, id) {
            let i = choose|i: int|
                0 <= i < decoded.len() && (#[trigger] decoded[i]).supertype@ == supertype
                    && decoded[i].subtype@ == id;
            assert(postings[i].supertype_symbol_id@ == supertype);
        }
    }
}

proof fn lemma_no_group_problem(
    block: ArtifactSymbolDetailBlock,
    ordinals: Seq<u32>,
    n: int,
)
    requires
        forall|k: int|
            0 <= k < n ==> artifact_proto_adapter::detail_problem(
                block,
                #[trigger] ordinals[k],
            ) is None,
    ensures
        artifact_query::group_problem(block, ordinals, n) is None,
    decreases n,
{
    if n > 0 {
        lemma_no_group_problem(block, ordinals, n - 1);
        assert(artifact_proto_adapter::detail_problem(block, ordinals[n - 1]) is None);
    }
}

proof fn lemma_no_groups_problem(
    groups: Seq<artifact_query::BlockGroup>,
    blocks: Seq<ArtifactSymbolDetailBlock>,
    n: int,
)
    requires
        forall|g: int, k: int|
            0 <= g < n && 0 <= k < groups[g].ordinals@.len()
                ==> artifact_proto_adapter::detail_problem(
                blocks[g],
                #[trigger] groups[g].ordinals@[k],
            ) is None,
    ensures
        artifact_query::groups_problem(groups, blocks, n) is None,
    decreases n,
{
    if n > 0 {
        lemma_no_groups_problem(groups, blocks, n - 1);
        lemma_no_group_problem(
            blocks[n - 1],
            groups[n - 1].ordinals@,
            groups[n - 1].ordinals@.len() as int,
        );
    }
}

/// Whether blocks are the ones that a plan holds for groups of ordinals, each
/// found by the first ordinal of its group.
pub open spec fn are_group_blocks(
    blocks: Seq<ArtifactSymbolDetailBlock>,
    plan: LayoutPlan,
    sections: artifact_blob_layout::ArtifactBlobSections,
    groups: Seq<artifact_query::BlockGroup>,
) -> bool {
    &&& blocks.len() == groups.len()
    &&& forall|g: int|
        0 <= g < groups.len() ==> #[trigger] blocks[g]
            == plan.blocks@[artifact_blob_layout::first_covering(
            sections@,
            groups[g].ordinals@[0],
        ) - 5]
}

/// The direct implementations that the blob of an artifact gives, through its
/// postings and over all detail blocks that these lead to: every declared
/// subtype that the decoded graph relates to the supertype, once, in the order
/// of declaration, in every field as the decoded graph declares it. Every
/// subtype has a block and every block answers.
pub proof fn law_direct_implementations_are_exact(
    layout: artifact_blob_layout::ArtifactBlobLayout,
    payloads: Seq<artifact_blob_layout::SectionPayload>,
    toc_bytes: Seq<u8>,
    encoded: artifact_blob_layout::EncodedSections,
    plan: LayoutPlan,
    artifact: GraphArtifact,
    read: Seq<protocol::FileAnalysisSnapshot>,
    sections: artifact_blob_layout::ArtifactBlobSections,
    supertype: Seq<char>,
    groups: Seq<artifact_query::BlockGroup>,
    blocks: Seq<ArtifactSymbolDetailBlock>,
    symbols: Seq<SymbolRecord>,
)
    requires
        artifact_blob_layout::is_layout_of(layout, payloads, toc_bytes),
        artifact_blob_layout::are_payloads_of(payloads, encoded),
        artifact_blob_layout::is_plan_of(plan, artifact.snapshots@),
        artifact_blob_layout::layout_fits(artifact.snapshots@),
        artifact_blob_layout::cover_blocks(encoded.blocks@, plan.blocks@),
        artifact_proto_adapter::reads_artifact(read, artifact),
        is_plainly_stored(artifact.snapshots@),
        edges_name_declarations(artifact.snapshots@),
        sections@ == layout.sections(),
        artifact_query::are_groups_of(
            groups,
            sections,
            artifact_query::subtype_ordinals(
                plan.hierarchy,
                plan.dictionary,
                supertype,
                plan.dictionary.entries@.len() as int,
            ),
        ),
        are_group_blocks(blocks, plan, sections, groups),
        artifact_query::are_implementations(symbols, groups, blocks),
    ensures
        ({
            let found = artifact_query::subtype_ordinals(
                plan.hierarchy,
                plan.dictionary,
                supertype,
                plan.dictionary.entries@.len() as int,
            );
            let declared = artifact_query::all_declarations(read);
            &&& artifact_query::all_have_blocks(sections, found)
            &&& artifact_query::groups_problem(groups, blocks, groups.len() as int) is None
            &&& ordinals_ascend(found)
            &&& forall|k: u32| #[trigger]
                found.contains(k) <==> k < declared.len() && is_direct_subtype(
                    all_edges(read),
                    supertype,
                    declared[k as int].id@,
                )
            &&& symbols.len() == found.len()
            &&& forall|i: int|
                0 <= i < found.len() ==> worker_proto_adapter::same_symbol(
                    declared[found[i] as int],
                    #[trigger] symbols[i],
                )
        }),
{
    let found = artifact_query::subtype_ordinals(
        plan.hierarchy,
        plan.dictionary,
        supertype,
        plan.dictionary.entries@.len() as int,
    );
    let snapshots = artifact.snapshots@;
    let stored = artifact_blob_layout::all_symbols(snapshots);
    let declared = artifact_query::all_declarations(read);
    law_implementation_lookup_is_exact(plan, artifact, read, supertype);
    lemma_declarations(read, artifact, read.len() as int);
    assert(read.take(read.len() as int) =~= read);
    assert(snapshots.take(read.len() as int) =~= snapshots);
    assert forall|k: u32| #[trigger] found.contains(k) <==> k < declared.len()
        && is_direct_subtype(all_edges(read), supertype, declared[k as int].id@) by {
        if k < declared.len() {
            lemma_decoded_id(read, artifact, k as int);
        }
    }
    assert forall|i: int| 0 <= i < found.len() implies #[trigger] found[i] < stored.len() by {
        assert(found.contains(found[i]));
    }
    assert forall|k: int| 0 <= k < found.len() implies artifact_query::has_block(
        sections,
        #[trigger] found[k],
    ) by {
        artifact_blob_layout::law_detail_blocks_read_back(
            layout,
            payloads,
            toc_bytes,
            encoded,
            plan,
            snapshots,
            found[k],
        );
    }
    assert forall|i: int, j: int|
        #![trigger found[i], found[j]]
        0 <= i < j < found.len() implies artifact_query::block_start(sections, found[i])
        <= artifact_query::block_start(sections, found[j]) by {
        artifact_blob_layout::law_block_starts_group_ordinals(
            layout,
            payloads,
            toc_bytes,
            encoded,
            plan,
            snapshots,
            found[i],
            found[j],
        );
    }
    artifact_query::law_groups_keep_the_order(groups, sections, found);
    assert forall|g: int, k: int|
        0 <= g < groups.len() && 0 <= k < groups[g].ordinals@.len() implies
        artifact_proto_adapter::detail_problem(
        blocks[g],
        #[trigger] groups[g].ordinals@[k],
    ) is None by {
        lemma_group_answers(
            layout,
            payloads,
            toc_bytes,
            encoded,
            plan,
            artifact,
            read,
            sections,
            found,
            groups,
            blocks,
            g,
            groups[g].ordinals@[k],
        );
    }
    lemma_no_groups_problem(groups, blocks, groups.len() as int);
    assert forall|i: int| 0 <= i < found.len() implies worker_proto_adapter::same_symbol(
        declared[found[i] as int],
        #[trigger] symbols[i],
    ) by {
        let (g, ordinal) = artifact_query::grouped(groups)[i];
        assert(artifact_proto_adapter::answers(symbols[i], blocks[g], ordinal));
        lemma_group_answers(
            layout,
            payloads,
            toc_bytes,
            encoded,
            plan,
            artifact,
            read,
            sections,
            found,
            groups,
            blocks,
            g,
            found[i],
        );
    }
}

proof fn lemma_group_answers(
    layout: artifact_blob_layout::ArtifactBlobLayout,
    payloads: Seq<artifact_blob_layout::SectionPayload>,
    toc_bytes: Seq<u8>,
    encoded: artifact_blob_layout::EncodedSections,
    plan: LayoutPlan,
    artifact: GraphArtifact,
    read: Seq<protocol::FileAnalysisSnapshot>,
    sections: artifact_blob_layout::ArtifactBlobSections,
    found: Seq<u32>,
    groups: Seq<artifact_query::BlockGroup>,
    blocks: Seq<ArtifactSymbolDetailBlock>,
    g: int,
    ordinal: u32,
)
    requires
        artifact_blob_layout::is_layout_of(layout, payloads, toc_bytes),
        artifact_blob_layout::are_payloads_of(payloads, encoded),
        artifact_blob_layout::is_plan_of(plan, artifact.snapshots@),
        artifact_blob_layout::layout_fits(artifact.snapshots@),
        artifact_blob_layout::cover_blocks(encoded.blocks@, plan.blocks@),
        artifact_proto_adapter::reads_artifact(read, artifact),
        is_plainly_stored(artifact.snapshots@),
        sections@ == layout.sections(),
        artifact_query::are_groups_of(groups, sections, found),
        are_group_blocks(blocks, plan, sections, groups),
        forall|i: int|
            0 <= i < found.len() ==> #[trigger] found[i] < artifact_blob_layout::all_symbols(
                artifact.snapshots@,
            ).len(),
        0 <= g < groups.len(),
        groups[g].ordinals@.contains(ordinal) || (found.contains(ordinal) && groups[g].start
            == artifact_query::block_start(sections, ordinal)),
    ensures
        artifact_proto_adapter::detail_problem(blocks[g], ordinal) is None,
        forall|symbol: SymbolRecord| #[trigger]
            artifact_proto_adapter::answers(symbol, blocks[g], ordinal)
                ==> worker_proto_adapter::same_symbol(
                artifact_query::all_declarations(read)[ordinal as int],
                symbol,
            ),
{
    let start = groups[g].start;
    artifact_query::lemma_in_block_members(sections, found, start);
    let own = groups[g].ordinals@;
    assert(own == artifact_query::in_block(sections, found, start));
    let first = own[0];
    assert(found.contains(first) && artifact_query::block_start(sections, first) == start);
    if own.contains(ordinal) {
        let k = own.index_of(ordinal);
        assert(own[k] == ordinal);
    }
    let p = found.index_of(first);
    let q = found.index_of(ordinal);
    assert(found[p] == first && found[q] == ordinal);
    artifact_blob_layout::law_block_starts_group_ordinals(
        layout,
        payloads,
        toc_bytes,
        encoded,
        plan,
        artifact.snapshots@,
        ordinal,
        first,
    );
    artifact_blob_layout::law_detail_blocks_read_back(
        layout,
        payloads,
        toc_bytes,
        encoded,
        plan,
        artifact.snapshots@,
        ordinal,
    );
    let block = artifact_blob_layout::first_covering(sections@, ordinal) - 5;
    assert(blocks[g] == plan.blocks@[block]);
    artifact_blob_layout::lemma_section_positions(layout, payloads, toc_bytes, encoded);
    law_detail_agrees_with_graph(plan, artifact, read, block, ordinal);
}

proof fn lemma_declared(symbols: Seq<SymbolRecord>, id: Seq<char>)
    ensures
        match artifact_query::declared(symbols, id) {
            Some(symbol) => symbol.id@ == id && symbols.contains(symbol),
            None => forall|i: int| 0 <= i < symbols.len() ==> (#[trigger] symbols[i]).id@ != id,
        },
    decreases symbols.len(),
{
    if symbols.len() > 0 {
        let rest = symbols.drop_last();
        lemma_declared(rest, id);
        if symbols.last().id@ == id {
            assert(symbols[symbols.len() - 1] == symbols.last());
        } else {
            match artifact_query::declared(rest, id) {
                Some(symbol) => {
                    let i = rest.index_of(symbol);
                    assert(symbols[i] == symbol);
                },
                None => {
                    assert forall|i: int| 0 <= i < symbols.len() implies (
                    #[trigger] symbols[i]).id@ != id by {
                        if i < rest.len() {
                            assert(rest[i] == symbols[i]);
                        }
                    }
                },
            }
        }
    }
}

/// Whether some listed declaration has an id.
pub open spec fn lists_id(symbols: Seq<SymbolRecord>, id: Seq<char>) -> bool {
    exists|i: int| 0 <= i < symbols.len() && (#[trigger] symbols[i]).id@ == id
}

proof fn lemma_lists_id_sum(a: Seq<SymbolRecord>, b: Seq<SymbolRecord>, id: Seq<char>)
    ensures
        lists_id(a + b, id) == (lists_id(a, id) || lists_id(b, id)),
{
    if lists_id(a + b, id) {
        let i = choose|i: int| 0 <= i < (a + b).len() && (#[trigger] (a + b)[i]).id@ == id;
        if i < a.len() {
            assert(a[i].id@ == id);
        } else {
            assert(b[i - a.len()].id@ == id);
        }
    }
    if lists_id(a, id) {
        let i = choose|i: int| 0 <= i < a.len() && (#[trigger] a[i]).id@ == id;
        assert((a + b)[i].id@ == id);
    }
    if lists_id(b, id) {
        let i = choose|i: int| 0 <= i < b.len() && (#[trigger] b[i]).id@ == id;
        assert((a + b)[a.len() + i].id@ == id);
    }
}

proof fn lemma_declared_subtypes(
    edges: Seq<HierarchyEdge>,
    symbols: Seq<SymbolRecord>,
    supertype: Seq<char>,
    id: Seq<char>,
)
    ensures
        lists_id(artifact_query::declared_subtypes(edges, symbols, supertype), id) == (lists_id(
            symbols,
            id,
        ) && is_direct_subtype(edges, supertype, id)),
    decreases edges.len(),
{
    if edges.len() > 0 {
        let rest = edges.drop_last();
        let last = edges.last();
        lemma_declared_subtypes(rest, symbols, supertype, id);
        lemma_declared(symbols, last.subtype@);
        let before = artifact_query::declared_subtypes(rest, symbols, supertype);
        let found = artifact_query::declared_subtypes(edges, symbols, supertype);
        if is_direct_subtype(rest, supertype, id) {
            let i = choose|i: int|
                0 <= i < rest.len() && (#[trigger] rest[i]).supertype@ == supertype
                    && rest[i].subtype@ == id;
            assert(edges[i] == rest[i]);
        }
        if is_direct_subtype(edges, supertype, id) && !is_direct_subtype(rest, supertype, id) {
            let i = choose|i: int|
                0 <= i < edges.len() && (#[trigger] edges[i]).supertype@ == supertype
                    && edges[i].subtype@ == id;
            if i < rest.len() {
                assert(rest[i] == edges[i]);
            }
        }
        assert(edges[edges.len() - 1] == last);
        if last.supertype@ == supertype {
            match artifact_query::declared(symbols, last.subtype@) {
                Some(symbol) => {
                    lemma_lists_id_sum(before, seq![symbol], id);
                    assert(found =~= before + seq![symbol]);
                    assert(seq![symbol][0] == symbol);
                    assert(lists_id(seq![symbol], id) == (symbol.id@ == id));
                    let i = symbols.index_of(symbol);
                    assert(symbols[i].id@ == last.subtype@);
                },
                None => {
                    assert(!lists_id(symbols, last.subtype@));
                },
            }
        }
    }
}

proof fn lemma_graph_subtypes(
    snapshots: Seq<protocol::FileAnalysisSnapshot>,
    symbols: Seq<SymbolRecord>,
    supertype: Seq<char>,
    id: Seq<char>,
)
    ensures
        lists_id(artifact_query::graph_subtypes(snapshots, symbols, supertype), id) == (lists_id(
            symbols,
            id,
        ) && is_direct_subtype(all_edges(snapshots), supertype, id)),
    decreases snapshots.len(),
{
    if snapshots.len() > 0 {
        let rest = snapshots.drop_last();
        lemma_graph_subtypes(rest, symbols, supertype, id);
        lemma_declared_subtypes(snapshots.last().hierarchy@, symbols, supertype, id);
        lemma_lists_id_sum(
            artifact_query::graph_subtypes(rest, symbols, supertype),
            artifact_query::declared_subtypes(snapshots.last().hierarchy@, symbols, supertype),
            id,
        );
        let a = all_edges(rest);
        let b = snapshots.last().hierarchy@;
        let all = all_edges(snapshots);
        if is_direct_subtype(a, supertype, id) {
            let i = choose|i: int|
                0 <= i < a.len() && (#[trigger] a[i]).supertype@ == supertype && a[i].subtype@
                    == id;
            assert(all[i] == a[i]);
        }
        if is_direct_subtype(b, supertype, id) {
            let i = choose|i: int|
                0 <= i < b.len() && (#[trigger] b[i]).supertype@ == supertype && b[i].subtype@
                    == id;
            assert(all[a.len() + i] == b[i]);
        }
        if is_direct_subtype(all, supertype, id) {
            let i = choose|i: int|
                0 <= i < all.len() && (#[trigger] all[i]).supertype@ == supertype && all[i].subtype@
                    == id;
            if i < a.len() {
                assert(a[i] == all[i]);
            } else {
                assert(b[i - a.len()] == all[i]);
            }
        }
    }
}

/// The direct implementations that the postings lead to are the ones that the
/// whole decoded graph gives.
pub proof fn law_implementation_lookup_agrees_with_graph(
    plan: LayoutPlan,
    artifact: GraphArtifact,
    read: Seq<protocol::FileAnalysisSnapshot>,
    supertype: Seq<char>,
    id: Seq<char>,
)
    requires
        artifact_blob_layout::is_plan_of(plan, artifact.snapshots@),
        artifact_blob_layout::layout_fits(artifact.snapshots@),
        artifact_proto_adapter::reads_artifact(read, artifact),
        edges_name_declarations(artifact.snapshots@),
    ensures
        lists_id(
            artifact_query::graph_subtypes(read, artifact_query::all_declarations(read), supertype),
            id,
        ) <==> exists|k: u32| #[trigger]
            artifact_query::subtype_ordinals(
                plan.hierarchy,
                plan.dictionary,
                supertype,
                plan.dictionary.entries@.len() as int,
            ).contains(k) && artifact_blob_layout::all_symbols(artifact.snapshots@)[k as int].id@
                == id,
{
    let symbols = artifact_blob_layout::all_symbols(artifact.snapshots@);
    let declared = artifact_query::all_declarations(read);
    let found = artifact_query::subtype_ordinals(
        plan.hierarchy,
        plan.dictionary,
        supertype,
        plan.dictionary.entries@.len() as int,
    );
    law_implementation_lookup_is_exact(plan, artifact, read, supertype);
    lemma_graph_subtypes(read, declared, supertype, id);
    assert forall|k: int| 0 <= k < symbols.len() implies declared.len() == symbols.len() && (
    #[trigger] declared[k]).id@ == symbols[k].id@ by {
        lemma_decoded_id(read, artifact, k);
    }
    lemma_declarations(read, artifact, read.len() as int);
    assert(read.take(read.len() as int) =~= read);
    assert(artifact.snapshots@.take(read.len() as int) =~= artifact.snapshots@);
    if lists_id(artifact_query::graph_subtypes(read, declared, supertype), id) {
        let k = choose|k: int| 0 <= k < declared.len() && (#[trigger] declared[k]).id@ == id;
        assert(found.contains(k as u32));
    }
    if exists|k: u32| #[trigger] found.contains(k) && symbols[k as int].id@ == id {
        let k = choose|k: u32| #[trigger] found.contains(k) && symbols[k as int].id@ == id;
        assert(declared[k as int].id@ == id);
    }
}

proof fn lemma_decoded_id(
    read: Seq<protocol::FileAnalysisSnapshot>,
    artifact: GraphArtifact,
    ordinal: int,
)
    requires
        artifact_proto_adapter::reads_artifact(read, artifact),
        artifact.snapshots@.len() <= u32::MAX,
        0 <= ordinal < artifact_blob_layout::all_symbols(artifact.snapshots@).len(),
    ensures
        artifact_query::all_declarations(read).len() == artifact_blob_layout::all_symbols(
            artifact.snapshots@,
        ).len(),
        artifact_query::all_declarations(read)[ordinal].id@ == artifact_blob_layout::all_symbols(
            artifact.snapshots@,
        )[ordinal].id@,
{
    let snapshots = artifact.snapshots@;
    let ids = artifact_proto_adapter::artifact_ids(snapshots);
    artifact_blob_layout::lemma_unit_of_ordinal(snapshots, ordinal);
    let unit = artifact_blob_layout::all_units(snapshots)[ordinal] as int;
    let i = ordinal - artifact_blob_layout::all_symbols(snapshots.take(unit)).len();
    assert(artifact_proto_adapter::reads_snapshot(read[unit], snapshots[unit], ids));
    let restored = choose|restored: worker_proto::FileAnalysisSnapshot| #[trigger]
        artifact_proto_adapter::restores_snapshot(restored, snapshots[unit], ids)
            && worker_proto_adapter::represents_snapshot(restored, read[unit]);
    lemma_declarations(read, artifact, unit);
    lemma_declarations(read, artifact, read.len() as int);
    assert(read.take(read.len() as int) =~= read);
    assert(snapshots.take(read.len() as int) =~= snapshots);
    lemma_declaration_at(read, unit, i);
    assert(artifact_proto_adapter::restores_symbol(
        restored.symbols@[i],
        snapshots[unit].symbols@[i],
        restored.provenance_index,
        ids,
    ));
    assert(worker_proto_adapter::declares(restored.symbols@[i], read[unit].symbols@[i]));
}

} // verus!
