//! On-demand semantic queries over one immutable dependency artifact blob.
//!
//! A caller fetches and decodes the messages that these functions ask for; the
//! functions say which declarations a query selects and in which order.

use vstd::prelude::*;

use crate::artifact_blob_layout;
use crate::artifact_blob_layout::{ArtifactBlobLayoutError, ArtifactBlobSections};
use crate::artifact_proto::{
    ArtifactBlobSectionKind, ArtifactHierarchyPostings, ArtifactQualifiedSymbolDirectory,
    ArtifactSymbolDetailBlock, ArtifactSymbolDictionary,
};
use crate::artifact_proto_adapter;
use crate::artifact_proto_adapter::{decode_symbol_detail, ArtifactProtoError};
use crate::canonical::{HierarchyEdge, SymbolRecord};
use crate::protocol::FileAnalysisSnapshot;
use crate::text;

verus! {

/// Why a query over an artifact fails.
#[derive(Debug, Clone, PartialEq, Eq)]
pub enum ArtifactQueryError {
    Layout(ArtifactBlobLayoutError),
    Graph(ArtifactProtoError),
}

impl ArtifactQueryError {
    /// The message that is shown for an error.
    pub open spec fn message_text(&self) -> Seq<char> {
        match self {
            ArtifactQueryError::Layout(error) => "artifact blob layout failed: "@
                + error.message_text(),
            ArtifactQueryError::Graph(error) => "artifact graph failed to decode: "@
                + error.message_text(),
        }
    }

    /// Computes `message_text`.
    pub fn message(&self) -> (result: String)
        ensures
            result@ == self.message_text(),
    {
        match self {
            ArtifactQueryError::Layout(error) => text::join_text(
                "artifact blob layout failed: ",
                error.message().as_str(),
            ),
            ArtifactQueryError::Graph(error) => text::join_text(
                "artifact graph failed to decode: ",
                error.message().as_str(),
            ),
        }
    }
}

/// The ordinals that the first `n` directory entries give for a qualified name.
pub open spec fn named_ordinals(
    directory: ArtifactQualifiedSymbolDirectory,
    qualified_name: Seq<char>,
    n: int,
) -> Seq<u32>
    decreases n,
{
    if n <= 0 {
        Seq::empty()
    } else if directory.entries@[n - 1].qualified_name@ == qualified_name {
        named_ordinals(directory, qualified_name, n - 1).push(
            directory.entries@[n - 1].symbol_ordinal,
        )
    } else {
        named_ordinals(directory, qualified_name, n - 1)
    }
}

/// The ordinals of one exact qualified name, in directory order.
pub fn ordinals_with_qualified_name(
    directory: &ArtifactQualifiedSymbolDirectory,
    qualified_name: &str,
) -> (result: Vec<u32>)
    ensures
        result@ == named_ordinals(
            *directory,
            qualified_name@,
            directory.entries@.len() as int,
        ),
{
    let mut result: Vec<u32> = Vec::new();
    let mut i: usize = 0;
    while i < directory.entries.len()
        invariant
            i <= directory.entries@.len(),
            result@ == named_ordinals(*directory, qualified_name@, i as int),
        decreases directory.entries@.len() - i,
    {
        if text::same_text(directory.entries[i].qualified_name.as_str(), qualified_name) {
            result.push(directory.entries[i].symbol_ordinal);
        }
        i = i + 1;
    }
    result
}

/// Why the blocks that were fetched for ordinals, one each, do not answer: the
/// problem of the first that does not.
pub open spec fn blocks_problem(
    blocks: Seq<ArtifactSymbolDetailBlock>,
    ordinals: Seq<u32>,
    n: int,
) -> Option<ArtifactProtoError>
    decreases n,
{
    if n <= 0 {
        None
    } else {
        match blocks_problem(blocks, ordinals, n - 1) {
            Some(problem) => Some(problem),
            None => artifact_proto_adapter::detail_problem(blocks[n - 1], ordinals[n - 1]),
        }
    }
}

proof fn lemma_blocks_problem(
    blocks: Seq<ArtifactSymbolDetailBlock>,
    ordinals: Seq<u32>,
    n: int,
    total: int,
)
    requires
        0 <= n <= total,
        blocks_problem(blocks, ordinals, n) is Some,
    ensures
        blocks_problem(blocks, ordinals, total) == blocks_problem(blocks, ordinals, n),
    decreases total - n,
{
    if n < total {
        lemma_blocks_problem(blocks, ordinals, n + 1, total);
    }
}

/// Whether symbols are the ones of ordinals, each read from its own block.
pub open spec fn are_symbols_of(
    symbols: Seq<SymbolRecord>,
    blocks: Seq<ArtifactSymbolDetailBlock>,
    ordinals: Seq<u32>,
) -> bool {
    &&& symbols.len() == ordinals.len()
    &&& forall|i: int|
        0 <= i < ordinals.len() ==> artifact_proto_adapter::answers(
            #[trigger] symbols[i],
            blocks[i],
            ordinals[i],
        )
}

/// Resolves one exact qualified name through the directory, given the detail
/// block of each of its ordinals. Nothing is returned in part: a block that
/// cannot answer for its ordinal fails the query.
pub fn symbols_with_qualified_name(
    directory: &ArtifactQualifiedSymbolDirectory,
    qualified_name: &str,
    blocks: &[ArtifactSymbolDetailBlock],
) -> (result: Result<Vec<SymbolRecord>, ArtifactQueryError>)
    requires
        blocks@.len() == named_ordinals(
            *directory,
            qualified_name@,
            directory.entries@.len() as int,
        ).len(),
    ensures
        ({
            let ordinals = named_ordinals(
                *directory,
                qualified_name@,
                directory.entries@.len() as int,
            );
            match blocks_problem(blocks@, ordinals, ordinals.len() as int) {
                None => result is Ok && are_symbols_of(result->Ok_0@, blocks@, ordinals),
                Some(problem) => result is Err && result->Err_0 == ArtifactQueryError::Graph(
                    problem,
                ),
            }
        }),
{
    let ordinals = ordinals_with_qualified_name(directory, qualified_name);
    let mut symbols: Vec<SymbolRecord> = Vec::new();
    let mut i: usize = 0;
    while i < ordinals.len()
        invariant
            ordinals@ == named_ordinals(
                *directory,
                qualified_name@,
                directory.entries@.len() as int,
            ),
            i <= ordinals@.len() == blocks@.len(),
            symbols@.len() == i,
            blocks_problem(blocks@, ordinals@, i as int) is None,
            forall|j: int|
                0 <= j < i ==> artifact_proto_adapter::answers(
                    #[trigger] symbols@[j],
                    blocks@[j],
                    ordinals@[j],
                ),
        decreases ordinals@.len() - i,
    {
        match decode_symbol_detail(&blocks[i], ordinals[i]) {
            Ok(symbol) => {
                symbols.push(symbol);
            },
            Err(error) => {
                assert(blocks_problem(blocks@, ordinals@, i + 1) == Some(error));
                proof {
                    lemma_blocks_problem(blocks@, ordinals@, i + 1, ordinals@.len() as int);
                }
                return Err(ArtifactQueryError::Graph(error));
            },
        }
        i = i + 1;
    }
    Ok(symbols)
}

/// Whether the postings make an id a direct subtype.
pub open spec fn is_subtype(
    hierarchy: ArtifactHierarchyPostings,
    supertype: Seq<char>,
    id: Seq<char>,
) -> bool {
    exists|i: int|
        0 <= i < hierarchy.entries@.len() && (
        #[trigger] hierarchy.entries@[i]).supertype_symbol_id@ == supertype
            && hierarchy.entries@[i].subtype_symbol_id@ == id
}

fn has_subtype(hierarchy: &ArtifactHierarchyPostings, supertype: &str, id: &str) -> (result: bool)
    ensures
        result == is_subtype(*hierarchy, supertype@, id@),
{
    let mut i: usize = 0;
    while i < hierarchy.entries.len()
        invariant
            i <= hierarchy.entries@.len(),
            forall|j: int|
                0 <= j < i ==> !((#[trigger] hierarchy.entries@[j]).supertype_symbol_id@
                    == supertype@ && hierarchy.entries@[j].subtype_symbol_id@ == id@),
        decreases hierarchy.entries@.len() - i,
    {
        if text::same_text(hierarchy.entries[i].supertype_symbol_id.as_str(), supertype)
            && text::same_text(hierarchy.entries[i].subtype_symbol_id.as_str(), id) {
            assert(hierarchy.entries@[i as int].supertype_symbol_id@ == supertype@);
            return true;
        }
        i = i + 1;
    }
    false
}

/// The ordinals below `n` whose declarations are direct subtypes.
pub open spec fn subtype_ordinals(
    hierarchy: ArtifactHierarchyPostings,
    dictionary: ArtifactSymbolDictionary,
    supertype: Seq<char>,
    n: int,
) -> Seq<u32>
    decreases n,
{
    if n <= 0 {
        Seq::empty()
    } else {
        let rest = subtype_ordinals(hierarchy, dictionary, supertype, n - 1);
        if is_subtype(hierarchy, supertype, dictionary.entries@[n - 1].id@) {
            rest.push((n - 1) as u32)
        } else {
            rest
        }
    }
}

/// The ordinals of the direct subtypes of a declaration, in order.
pub fn implementation_ordinals(
    hierarchy: &ArtifactHierarchyPostings,
    dictionary: &ArtifactSymbolDictionary,
    supertype: &str,
) -> (result: Vec<u32>)
    requires
        dictionary.entries@.len() <= u32::MAX,
    ensures
        result@ == subtype_ordinals(
            *hierarchy,
            *dictionary,
            supertype@,
            dictionary.entries@.len() as int,
        ),
{
    let mut result: Vec<u32> = Vec::new();
    let mut i: usize = 0;
    while i < dictionary.entries.len()
        invariant
            dictionary.entries@.len() <= u32::MAX,
            i <= dictionary.entries@.len(),
            result@ == subtype_ordinals(*hierarchy, *dictionary, supertype@, i as int),
        decreases dictionary.entries@.len() - i,
    {
        if has_subtype(hierarchy, supertype, dictionary.entries[i].id.as_str()) {
            result.push(i as u32);
        }
        i = i + 1;
    }
    result
}

/// Whether a posting names a supertype.
pub open spec fn is_posted_supertype(
    hierarchy: ArtifactHierarchyPostings,
    supertype: Seq<char>,
) -> bool {
    exists|i: int|
        0 <= i < hierarchy.entries@.len() && (
        #[trigger] hierarchy.entries@[i]).supertype_symbol_id@ == supertype
}

/// Computes `is_posted_supertype`: where it does not hold, there is nothing to
/// look up in the dictionary.
pub fn has_posted_supertype(hierarchy: &ArtifactHierarchyPostings, supertype: &str) -> (result: bool)
    ensures
        result == is_posted_supertype(*hierarchy, supertype@),
{
    let mut i: usize = 0;
    while i < hierarchy.entries.len()
        invariant
            i <= hierarchy.entries@.len(),
            forall|j: int|
                0 <= j < i ==> (#[trigger] hierarchy.entries@[j]).supertype_symbol_id@
                    != supertype@,
        decreases hierarchy.entries@.len() - i,
    {
        if text::same_text(hierarchy.entries[i].supertype_symbol_id.as_str(), supertype) {
            return true;
        }
        i = i + 1;
    }
    false
}

/// A supertype that no posting names has no subtypes, whatever the dictionary
/// lists.
pub proof fn law_unposted_supertype_has_no_subtypes(
    hierarchy: ArtifactHierarchyPostings,
    dictionary: ArtifactSymbolDictionary,
    supertype: Seq<char>,
    n: int,
)
    requires
        !is_posted_supertype(hierarchy, supertype),
    ensures
        subtype_ordinals(hierarchy, dictionary, supertype, n) == Seq::<u32>::empty(),
    decreases n,
{
    if n > 0 {
        law_unposted_supertype_has_no_subtypes(hierarchy, dictionary, supertype, n - 1);
    }
}

/// Ordinals that one detail block answers for.
#[derive(Debug, PartialEq, Eq)]
pub struct BlockGroup {
    /// The first ordinal of the block.
    pub start: u32,
    pub ordinals: Vec<u32>,
}

/// Whether the detail block of an ordinal is listed.
pub open spec fn has_block(sections: ArtifactBlobSections, ordinal: u32) -> bool {
    artifact_blob_layout::first_covering(sections@, ordinal) < sections@.len()
}

/// The first ordinal of the detail block of an ordinal.
pub open spec fn block_start(sections: ArtifactBlobSections, ordinal: u32) -> u32 {
    sections@[artifact_blob_layout::first_covering(sections@, ordinal)].symbol_ordinal_start
}

/// The ordinals of a list whose block begins at `start`, in order.
pub open spec fn in_block(
    sections: ArtifactBlobSections,
    ordinals: Seq<u32>,
    start: u32,
) -> Seq<u32>
    decreases ordinals.len(),
{
    if ordinals.len() == 0 {
        Seq::empty()
    } else if block_start(sections, ordinals.last()) == start {
        in_block(sections, ordinals.drop_last(), start).push(ordinals.last())
    } else {
        in_block(sections, ordinals.drop_last(), start)
    }
}

/// Whether groups are the ordinals by block, the blocks in ascending order.
pub open spec fn are_groups_of(
    groups: Seq<BlockGroup>,
    sections: ArtifactBlobSections,
    ordinals: Seq<u32>,
) -> bool {
    &&& forall|i: int, j: int|
        #![trigger groups[i], groups[j]]
        0 <= i < j < groups.len() ==> groups[i].start < groups[j].start
    &&& forall|i: int|
        0 <= i < groups.len() ==> (#[trigger] groups[i]).ordinals@ == in_block(
            sections,
            ordinals,
            groups[i].start,
        ) && groups[i].ordinals@.len() > 0
    &&& forall|k: int|
        0 <= k < ordinals.len() ==> exists|i: int|
            0 <= i < groups.len() && (#[trigger] groups[i]).start == block_start(
                sections,
                #[trigger] ordinals[k],
            )
}

/// Whether the detail blocks of all ordinals are listed.
pub open spec fn all_have_blocks(sections: ArtifactBlobSections, ordinals: Seq<u32>) -> bool {
    forall|k: int| 0 <= k < ordinals.len() ==> has_block(sections, #[trigger] ordinals[k])
}

proof fn lemma_in_block_empty(sections: ArtifactBlobSections, ordinals: Seq<u32>, start: u32)
    requires
        forall|k: int|
            0 <= k < ordinals.len() ==> block_start(sections, #[trigger] ordinals[k]) != start,
    ensures
        in_block(sections, ordinals, start) == Seq::<u32>::empty(),
    decreases ordinals.len(),
{
    if ordinals.len() > 0 {
        assert(block_start(sections, ordinals[ordinals.len() - 1]) != start);
        assert forall|k: int| 0 <= k < ordinals.drop_last().len() implies block_start(
            sections,
            #[trigger] ordinals.drop_last()[k],
        ) != start by {
            assert(ordinals.drop_last()[k] == ordinals[k]);
        }
        lemma_in_block_empty(sections, ordinals.drop_last(), start);
    }
}

/// Puts one more ordinal into its group.
fn add_to_group(
    groups: &mut Vec<BlockGroup>,
    start: u32,
    ordinal: u32,
    Ghost(sections): Ghost<ArtifactBlobSections>,
    Ghost(seen): Ghost<Seq<u32>>,
)
    requires
        are_groups_of(old(groups)@, sections, seen),
        block_start(sections, ordinal) == start,
    ensures
        are_groups_of(final(groups)@, sections, seen.push(ordinal)),
{
    let ghost before = groups@;
    let ghost now = seen.push(ordinal);
    assert(now.drop_last() =~= seen);
    let mut position: usize = 0;
    while position < groups.len() && groups[position].start < start
        invariant
            groups@ == before,
            position <= before.len(),
            forall|i: int| 0 <= i < position ==> (#[trigger] before[i]).start < start,
        decreases before.len() - position,
    {
        position = position + 1;
    }
    if position < groups.len() && groups[position].start == start {
        let mut ordinals: Vec<u32> = Vec::new();
        std::mem::swap(&mut ordinals, &mut groups[position].ordinals);
        ordinals.push(ordinal);
        groups.set(position, BlockGroup { start, ordinals });
        proof {
            let p = position as int;
            assert(groups@[p].ordinals@ =~= before[p].ordinals@.push(ordinal));
            assert forall|i: int| 0 <= i < groups@.len() implies (#[trigger] groups@[i]).start
                == before[i].start by {}
            assert forall|i: int| 0 <= i < groups@.len() implies (
            #[trigger] groups@[i]).ordinals@ == in_block(sections, now, groups@[i].start)
                && groups@[i].ordinals@.len() > 0 by {
                assert(before[i].ordinals@ == in_block(sections, seen, before[i].start));
                if i != p {
                    if i < p {
                        assert(before[i].start < before[p].start);
                    } else {
                        assert(before[p].start < before[i].start);
                    }
                    assert(groups@[i] == before[i]);
                }
            }
            assert forall|k: int| 0 <= k < now.len() implies exists|i: int|
                0 <= i < groups@.len() && (#[trigger] groups@[i]).start == block_start(
                    sections,
                    #[trigger] now[k],
                ) by {
                if k < seen.len() {
                    assert(now[k] == seen[k]);
                    let i = choose|i: int|
                        0 <= i < before.len() && (#[trigger] before[i]).start == block_start(
                            sections,
                            seen[k],
                        );
                    assert(groups@[i].start == before[i].start);
                } else {
                    assert(groups@[p].start == start);
                }
            }
        }
    } else {
        let mut ordinals: Vec<u32> = Vec::new();
        ordinals.push(ordinal);
        groups.insert(position, BlockGroup { start, ordinals });
        proof {
            let p = position as int;
            assert forall|i: int| 0 <= i < before.len() implies (#[trigger] before[i]).start
                != start by {
                if i > p {
                    assert(before[p].start < before[i].start);
                }
            }
            assert forall|k: int| 0 <= k < seen.len() implies block_start(
                sections,
                #[trigger] seen[k],
            ) != start by {
                let i = choose|i: int|
                    0 <= i < before.len() && (#[trigger] before[i]).start == block_start(
                        sections,
                        seen[k],
                    );
                assert(before[i].start != start);
            }
            lemma_in_block_empty(sections, seen, start);
            assert(groups@[p].ordinals@ =~= in_block(sections, now, start));
            assert forall|i: int, j: int|
                #![trigger groups@[i], groups@[j]]
                0 <= i < j < groups@.len() implies groups@[i].start < groups@[j].start by {
                let a = if i < p { i } else { i - 1 };
                let b = if j < p { j } else { j - 1 };
                if i == p {
                    assert(groups@[j] == before[b]);
                    if b > p {
                        assert(before[p].start < before[b].start);
                    }
                } else if j == p {
                    assert(groups@[i] == before[a]);
                } else {
                    assert(groups@[i] == before[a] && groups@[j] == before[b]);
                }
            }
            assert forall|i: int| 0 <= i < groups@.len() implies (
            #[trigger] groups@[i]).ordinals@ == in_block(sections, now, groups@[i].start)
                && groups@[i].ordinals@.len() > 0 by {
                if i != p {
                    let a = if i < p { i } else { i - 1 };
                    assert(groups@[i] == before[a]);
                    assert(before[a].ordinals@ == in_block(sections, seen, before[a].start));
                }
            }
            assert forall|k: int| 0 <= k < now.len() implies exists|i: int|
                0 <= i < groups@.len() && (#[trigger] groups@[i]).start == block_start(
                    sections,
                    #[trigger] now[k],
                ) by {
                if k < seen.len() {
                    assert(now[k] == seen[k]);
                    let a = choose|a: int|
                        0 <= a < before.len() && (#[trigger] before[a]).start == block_start(
                            sections,
                            seen[k],
                        );
                    let i = if a < p { a } else { a + 1 };
                    assert(groups@[i] == before[a]);
                } else {
                    assert(groups@[p].start == start);
                }
            }
        }
    }
}

/// Groups ordinals by detail block, so that each block is read once. An
/// ordinal without a block fails the query.
pub fn group_by_block(sections: &ArtifactBlobSections, ordinals: &[u32]) -> (result: Result<
    Vec<BlockGroup>,
    ArtifactQueryError,
>)
    ensures
        result is Ok <==> all_have_blocks(*sections, ordinals@),
        result matches Ok(groups) ==> are_groups_of(groups@, *sections, ordinals@),
        result matches Err(error) ==> error == ArtifactQueryError::Layout(
            ArtifactBlobLayoutError::MissingSection(ArtifactBlobSectionKind::SymbolDetailBlock),
        ),
{
    let mut groups: Vec<BlockGroup> = Vec::new();
    let mut i: usize = 0;
    while i < ordinals.len()
        invariant
            i <= ordinals@.len(),
            all_have_blocks(*sections, ordinals@.take(i as int)),
            are_groups_of(groups@, *sections, ordinals@.take(i as int)),
        decreases ordinals@.len() - i,
    {
        match sections.symbol_detail_block_start(ordinals[i]) {
            Ok(start) => {
                add_to_group(
                    &mut groups,
                    start,
                    ordinals[i],
                    Ghost(*sections),
                    Ghost(ordinals@.take(i as int)),
                );
                proof {
                    let now = ordinals@.take(i + 1);
                    assert(now =~= ordinals@.take(i as int).push(ordinals@[i as int]));
                    assert forall|k: int| 0 <= k < now.len() implies has_block(
                        *sections,
                        #[trigger] now[k],
                    ) by {
                        if k < i {
                            assert(now[k] == ordinals@.take(i as int)[k]);
                        }
                    }
                }
            },
            Err(error) => {
                assert(!has_block(*sections, ordinals@[i as int]));
                return Err(ArtifactQueryError::Layout(error));
            },
        }
        i = i + 1;
    }
    assert(ordinals@.take(i as int) =~= ordinals@);
    Ok(groups)
}

/// Why a block does not answer for the ordinals of its group: the problem of
/// the first that it does not answer for.
pub open spec fn group_problem(
    block: ArtifactSymbolDetailBlock,
    ordinals: Seq<u32>,
    n: int,
) -> Option<ArtifactProtoError>
    decreases n,
{
    if n <= 0 {
        None
    } else {
        match group_problem(block, ordinals, n - 1) {
            Some(problem) => Some(problem),
            None => artifact_proto_adapter::detail_problem(block, ordinals[n - 1]),
        }
    }
}

proof fn lemma_group_problem(
    block: ArtifactSymbolDetailBlock,
    ordinals: Seq<u32>,
    n: int,
    total: int,
)
    requires
        0 <= n <= total,
        group_problem(block, ordinals, n) is Some,
    ensures
        group_problem(block, ordinals, total) == group_problem(block, ordinals, n),
    decreases total - n,
{
    if n < total {
        lemma_group_problem(block, ordinals, n + 1, total);
    }
}

/// Returns the declarations of a group of ordinals that one detail block holds,
/// in the order of the group.
pub fn implementations_in_block(block: &ArtifactSymbolDetailBlock, ordinals: &[u32]) -> (result:
    Result<Vec<SymbolRecord>, ArtifactQueryError>)
    ensures
        match group_problem(*block, ordinals@, ordinals@.len() as int) {
            None => result is Ok && result->Ok_0@.len() == ordinals@.len() && forall|i: int|
                0 <= i < ordinals@.len() ==> artifact_proto_adapter::answers(
                    #[trigger] result->Ok_0@[i],
                    *block,
                    ordinals@[i],
                ),
            Some(problem) => result is Err && result->Err_0 == ArtifactQueryError::Graph(problem),
        },
{
    let mut symbols: Vec<SymbolRecord> = Vec::new();
    let mut i: usize = 0;
    while i < ordinals.len()
        invariant
            i <= ordinals@.len(),
            symbols@.len() == i,
            group_problem(*block, ordinals@, i as int) is None,
            forall|j: int|
                0 <= j < i ==> artifact_proto_adapter::answers(
                    #[trigger] symbols@[j],
                    *block,
                    ordinals@[j],
                ),
        decreases ordinals@.len() - i,
    {
        match decode_symbol_detail(block, ordinals[i]) {
            Ok(symbol) => {
                symbols.push(symbol);
            },
            Err(error) => {
                assert(group_problem(*block, ordinals@, i + 1) == Some(error));
                proof {
                    lemma_group_problem(*block, ordinals@, i + 1, ordinals@.len() as int);
                }
                return Err(ArtifactQueryError::Graph(error));
            },
        }
        i = i + 1;
    }
    Ok(symbols)
}

/// The ordinals of groups, group by group, each with the position of its group.
pub open spec fn grouped(groups: Seq<BlockGroup>) -> Seq<(int, u32)>
    decreases groups.len(),
{
    if groups.len() == 0 {
        Seq::empty()
    } else {
        let last = groups.last().ordinals@;
        grouped(groups.drop_last()) + Seq::new(last.len(), |i: int| (groups.len() - 1, last[i]))
    }
}

/// Why the first `n` groups are not answered for: the problem of the first
/// block that does not answer for its group.
pub open spec fn groups_problem(
    groups: Seq<BlockGroup>,
    blocks: Seq<ArtifactSymbolDetailBlock>,
    n: int,
) -> Option<ArtifactProtoError>
    decreases n,
{
    if n <= 0 {
        None
    } else {
        match groups_problem(groups, blocks, n - 1) {
            Some(problem) => Some(problem),
            None => group_problem(
                blocks[n - 1],
                groups[n - 1].ordinals@,
                groups[n - 1].ordinals@.len() as int,
            ),
        }
    }
}

proof fn lemma_groups_problem(
    groups: Seq<BlockGroup>,
    blocks: Seq<ArtifactSymbolDetailBlock>,
    n: int,
    total: int,
)
    requires
        0 <= n <= total,
        groups_problem(groups, blocks, n) is Some,
    ensures
        groups_problem(groups, blocks, total) == groups_problem(groups, blocks, n),
    decreases total - n,
{
    if n < total {
        lemma_groups_problem(groups, blocks, n + 1, total);
    }
}

/// Whether declarations are the ones that blocks hold for the ordinals of their
/// groups, group by group.
pub open spec fn are_implementations(
    symbols: Seq<SymbolRecord>,
    groups: Seq<BlockGroup>,
    blocks: Seq<ArtifactSymbolDetailBlock>,
) -> bool {
    &&& symbols.len() == grouped(groups).len()
    &&& forall|i: int|
        0 <= i < symbols.len() ==> artifact_proto_adapter::answers(
            #[trigger] symbols[i],
            blocks[grouped(groups)[i].0],
            grouped(groups)[i].1,
        )
}

/// Returns the declarations of all groups, block by block.
pub fn implementations_in_blocks(
    groups: &[BlockGroup],
    blocks: &[ArtifactSymbolDetailBlock],
) -> (result: Result<Vec<SymbolRecord>, ArtifactQueryError>)
    requires
        groups@.len() == blocks@.len(),
    ensures
        match groups_problem(groups@, blocks@, groups@.len() as int) {
            None => result is Ok && are_implementations(result->Ok_0@, groups@, blocks@),
            Some(problem) => result is Err && result->Err_0 == ArtifactQueryError::Graph(problem),
        },
{
    let mut symbols: Vec<SymbolRecord> = Vec::new();
    let mut i: usize = 0;
    assert(grouped(groups@.take(0)).len() == 0);
    while i < groups.len()
        invariant
            groups@.len() == blocks@.len(),
            i <= groups@.len(),
            groups_problem(groups@, blocks@, i as int) is None,
            are_implementations(symbols@, groups@.take(i as int), blocks@),
        decreases groups@.len() - i,
    {
        let ordinals = groups[i].ordinals.as_slice();
        let ghost before = symbols@;
        let ghost earlier = grouped(groups@.take(i as int));
        assert(groups@.take(i + 1).drop_last() =~= groups@.take(i as int));
        match implementations_in_block(&blocks[i], ordinals) {
            Ok(own) => {
                let mut own = own;
                let ghost added = own@;
                symbols.append(&mut own);
                proof {
                    let now = grouped(groups@.take(i + 1));
                    assert forall|k: int| 0 <= k < symbols@.len() implies
                        artifact_proto_adapter::answers(
                        #[trigger] symbols@[k],
                        blocks@[now[k].0],
                        now[k].1,
                    ) by {
                        if k < before.len() {
                            assert(symbols@[k] == before[k]);
                            assert(now[k] == earlier[k]);
                        } else {
                            assert(symbols@[k] == added[k - before.len()]);
                        }
                    }
                }
            },
            Err(error) => {
                proof {
                    lemma_groups_problem(groups@, blocks@, i + 1, groups@.len() as int);
                }
                return Err(error);
            },
        }
        i = i + 1;
    }
    assert(groups@.take(i as int) =~= groups@);
    Ok(symbols)
}

/// Whether the blocks of ordinals come in the order of the ordinals.
pub open spec fn blocks_in_order(sections: ArtifactBlobSections, ordinals: Seq<u32>) -> bool {
    forall|i: int, j: int|
        #![trigger ordinals[i], ordinals[j]]
        0 <= i < j < ordinals.len() ==> block_start(sections, ordinals[i]) <= block_start(
            sections,
            ordinals[j],
        )
}

proof fn lemma_in_block_run(sections: ArtifactBlobSections, ordinals: Seq<u32>, start: u32) -> (run: (
    int,
    int,
))
    requires
        blocks_in_order(sections, ordinals),
    ensures
        ({
            let (p, q) = run;
            &&& 0 <= p <= q <= ordinals.len()
            &&& in_block(sections, ordinals, start) == ordinals.subrange(p, q)
            &&& forall|k: int|
                0 <= k < p ==> block_start(sections, #[trigger] ordinals[k]) < start
            &&& forall|k: int|
                p <= k < q ==> block_start(sections, #[trigger] ordinals[k]) == start
            &&& forall|k: int|
                q <= k < ordinals.len() ==> block_start(sections, #[trigger] ordinals[k]) > start
        }),
    decreases ordinals.len(),
{
    if ordinals.len() == 0 {
        assert(in_block(sections, ordinals, start) =~= ordinals.subrange(0, 0));
        (0, 0)
    } else {
        let rest = ordinals.drop_last();
        let n = rest.len() as int;
        let (p, q) = lemma_in_block_run(sections, rest, start);
        assert forall|k: int| 0 <= k < n implies #[trigger] rest[k] == ordinals[k] by {}
        assert(ordinals[n] == ordinals.last());
        let last = block_start(sections, ordinals[n]);
        if last < start {
            assert(p == n) by {
                if p < n {
                    assert(rest[p] == ordinals[p]);
                    assert(block_start(sections, ordinals[p]) <= block_start(sections, ordinals[n]));
                }
            }
            assert(in_block(sections, ordinals, start) =~= ordinals.subrange(n + 1, n + 1));
            assert forall|k: int| 0 <= k < n + 1 implies block_start(
                sections,
                #[trigger] ordinals[k],
            ) < start by {
                if k < n {
                    assert(rest[k] == ordinals[k]);
                }
            }
            (n + 1, n + 1)
        } else if last == start {
            assert(q == n) by {
                if q < n {
                    assert(rest[q] == ordinals[q]);
                    assert(block_start(sections, ordinals[q]) <= block_start(sections, ordinals[n]));
                }
            }
            assert(in_block(sections, ordinals, start) =~= ordinals.subrange(p, n + 1));
            assert forall|k: int| 0 <= k < p implies block_start(
                sections,
                #[trigger] ordinals[k],
            ) < start by {
                assert(rest[k] == ordinals[k]);
            }
            assert forall|k: int| p <= k < n + 1 implies block_start(
                sections,
                #[trigger] ordinals[k],
            ) == start by {
                if k < n {
                    assert(rest[k] == ordinals[k]);
                }
            }
            (p, n + 1)
        } else {
            assert(in_block(sections, ordinals, start) =~= ordinals.subrange(p, q));
            assert forall|k: int| 0 <= k < p implies block_start(
                sections,
                #[trigger] ordinals[k],
            ) < start by {
                assert(rest[k] == ordinals[k]);
            }
            assert forall|k: int| p <= k < q implies block_start(
                sections,
                #[trigger] ordinals[k],
            ) == start by {
                assert(rest[k] == ordinals[k]);
            }
            assert forall|k: int| q <= k < n + 1 implies block_start(
                sections,
                #[trigger] ordinals[k],
            ) > start by {
                if k < n {
                    assert(rest[k] == ordinals[k]);
                }
            }
            (p, q)
        }
    }
}

proof fn lemma_grouped_prefix(
    groups: Seq<BlockGroup>,
    sections: ArtifactBlobSections,
    ordinals: Seq<u32>,
    m: int,
) -> (p: int)
    requires
        are_groups_of(groups, sections, ordinals),
        blocks_in_order(sections, ordinals),
        0 <= m <= groups.len(),
    ensures
        0 <= p <= ordinals.len(),
        grouped(groups.take(m)).len() == p,
        forall|k: int|
            0 <= k < p ==> (#[trigger] grouped(groups.take(m))[k]).1 == ordinals[k] && 0
                <= grouped(groups.take(m))[k].0 < m && groups[grouped(groups.take(m))[k].0].start
                == block_start(sections, ordinals[k]),
        forall|k: int|
            0 <= k < p ==> m > 0 && block_start(sections, #[trigger] ordinals[k])
                <= groups[m - 1].start,
        forall|k: int|
            p <= k < ordinals.len() && m > 0 ==> block_start(sections, #[trigger] ordinals[k])
                > groups[m - 1].start,
    decreases m,
{
    if m == 0 {
        0
    } else {
        let p = lemma_grouped_prefix(groups, sections, ordinals, m - 1);
        let start = groups[m - 1].start;
        let (from, to) = lemma_in_block_run(sections, ordinals, start);
        let own = groups[m - 1].ordinals@;
        assert(own == ordinals.subrange(from, to));
        if from < p {
            assert(own[0] == ordinals[from]);
            assert(block_start(sections, ordinals[from]) == start);
            assert(groups[m - 2].start < groups[m - 1].start);
        }
        if p < from {
            let between = block_start(sections, ordinals[p]);
            assert(between < start);
            let i = choose|i: int|
                0 <= i < groups.len() && (#[trigger] groups[i]).start == block_start(
                    sections,
                    ordinals[p],
                );
            if i > m - 1 {
                assert(groups[m - 1].start < groups[i].start);
            } else if i < m - 2 {
                assert(groups[i].start < groups[m - 2].start);
            }
        }
        assert(p == from);
        assert(groups.take(m).drop_last() =~= groups.take(m - 1));
        let before = grouped(groups.take(m - 1));
        let now = grouped(groups.take(m));
        assert forall|k: int| 0 <= k < to implies (#[trigger] now[k]).1 == ordinals[k] && 0
            <= now[k].0 < m && groups[now[k].0].start == block_start(sections, ordinals[k]) by {
            if k < p {
                assert(now[k] == before[k]);
            } else {
                assert(own[k - p] == ordinals[k]);
            }
        }
        assert forall|k: int| 0 <= k < to implies m > 0 && block_start(
            sections,
            #[trigger] ordinals[k],
        ) <= groups[m - 1].start by {
            if k < p {
                assert(groups[m - 2].start < groups[m - 1].start);
            }
        }
        to
    }
}

/// The ordinals in a block are among those that were grouped, and the block is
/// theirs.
pub proof fn lemma_in_block_members(
    sections: ArtifactBlobSections,
    ordinals: Seq<u32>,
    start: u32,
)
    ensures
        forall|k: int|
            0 <= k < in_block(sections, ordinals, start).len() ==> ordinals.contains(
                #[trigger] in_block(sections, ordinals, start)[k],
            ) && block_start(sections, in_block(sections, ordinals, start)[k]) == start,
    decreases ordinals.len(),
{
    if ordinals.len() > 0 {
        let rest = ordinals.drop_last();
        let before = in_block(sections, rest, start);
        let now = in_block(sections, ordinals, start);
        lemma_in_block_members(sections, rest, start);
        assert forall|k: int| 0 <= k < now.len() implies ordinals.contains(#[trigger] now[k])
            && block_start(sections, now[k]) == start by {
            if k < before.len() {
                assert(now[k] == before[k]);
                let p = rest.index_of(before[k]);
                assert(ordinals[p] == now[k]);
            } else {
                assert(ordinals[ordinals.len() - 1] == now[k]);
            }
        }
    }
}

/// Where the blocks of ordinals come in the order of the ordinals, the groups
/// one after the other are the ordinals in their order, each in the group of
/// its block.
pub proof fn law_groups_keep_the_order(
    groups: Seq<BlockGroup>,
    sections: ArtifactBlobSections,
    ordinals: Seq<u32>,
)
    requires
        are_groups_of(groups, sections, ordinals),
        blocks_in_order(sections, ordinals),
    ensures
        grouped(groups).len() == ordinals.len(),
        forall|k: int|
            0 <= k < ordinals.len() ==> (#[trigger] grouped(groups)[k]).1 == ordinals[k] && 0
                <= grouped(groups)[k].0 < groups.len() && groups[grouped(groups)[k].0].start
                == block_start(sections, ordinals[k]),
{
    let n = groups.len() as int;
    let p = lemma_grouped_prefix(groups, sections, ordinals, n);
    assert(groups.take(n) =~= groups);
    if p < ordinals.len() {
        let i = choose|i: int|
            0 <= i < groups.len() && (#[trigger] groups[i]).start == block_start(
                sections,
                ordinals[p],
            );
        if i < n - 1 {
            assert(groups[i].start < groups[n - 1].start);
        }
    }
}

/// What the blob of an artifact gave to a search for implementations.
pub enum ImplementationSource {
    /// There is no blob.
    Absent,
    /// The ordinals that the postings lead to, by block, and the block that was
    /// read for each group.
    Blocks { groups: Vec<BlockGroup>, blocks: Vec<ArtifactSymbolDetailBlock> },
    /// The decoded graph of a blob that has no postings.
    Graph(Vec<FileAnalysisSnapshot>),
}

/// Returns the direct implementations that an artifact holds: none without a
/// blob, else those of its blocks in the order of their groups, else those of
/// its graph.
pub fn direct_implementations(source: &ImplementationSource, supertype: &str) -> (result: Result<
    Vec<SymbolRecord>,
    ArtifactQueryError,
>)
    requires
        source matches ImplementationSource::Blocks { groups, blocks } ==> groups@.len()
            == blocks@.len(),
    ensures
        match *source {
            ImplementationSource::Absent => result is Ok && result->Ok_0@.len() == 0,
            ImplementationSource::Blocks { groups, blocks } => match groups_problem(
                groups@,
                blocks@,
                groups@.len() as int,
            ) {
                None => result is Ok && are_implementations(result->Ok_0@, groups@, blocks@),
                Some(problem) => result is Err && result->Err_0 == ArtifactQueryError::Graph(
                    problem,
                ),
            },
            ImplementationSource::Graph(snapshots) => result is Ok && are_graph_implementations(
                result->Ok_0@,
                snapshots@,
                supertype@,
            ),
        },
{
    match source {
        ImplementationSource::Absent => Ok(Vec::new()),
        ImplementationSource::Blocks { groups, blocks } => implementations_in_blocks(
            groups.as_slice(),
            blocks.as_slice(),
        ),
        ImplementationSource::Graph(snapshots) => Ok(
            implementations_in_graph(snapshots.as_slice(), supertype),
        ),
    }
}

/// All declarations of decoded snapshots.
pub open spec fn all_declarations(snapshots: Seq<FileAnalysisSnapshot>) -> Seq<SymbolRecord>
    decreases snapshots.len(),
{
    if snapshots.len() == 0 {
        Seq::empty()
    } else {
        all_declarations(snapshots.drop_last()) + snapshots.last().symbols@
    }
}

/// The last declaration of an id.
pub open spec fn declared(symbols: Seq<SymbolRecord>, id: Seq<char>) -> Option<
    SymbolRecord,
>
    decreases symbols.len(),
{
    if symbols.len() == 0 {
        None
    } else if symbols.last().id@ == id {
        Some(symbols.last())
    } else {
        declared(symbols.drop_last(), id)
    }
}

/// The declared subtypes that relations name, relation by relation.
pub open spec fn declared_subtypes(
    edges: Seq<HierarchyEdge>,
    symbols: Seq<SymbolRecord>,
    supertype: Seq<char>,
) -> Seq<SymbolRecord>
    decreases edges.len(),
{
    if edges.len() == 0 {
        Seq::empty()
    } else {
        let rest = declared_subtypes(edges.drop_last(), symbols, supertype);
        if edges.last().supertype@ == supertype {
            match declared(symbols, edges.last().subtype@) {
                Some(symbol) => rest.push(symbol),
                None => rest,
            }
        } else {
            rest
        }
    }
}

/// The declared subtypes of a declaration in a whole graph.
pub open spec fn graph_subtypes(
    snapshots: Seq<FileAnalysisSnapshot>,
    symbols: Seq<SymbolRecord>,
    supertype: Seq<char>,
) -> Seq<SymbolRecord>
    decreases snapshots.len(),
{
    if snapshots.len() == 0 {
        Seq::empty()
    } else {
        graph_subtypes(snapshots.drop_last(), symbols, supertype) + declared_subtypes(
            snapshots.last().hierarchy@,
            symbols,
            supertype,
        )
    }
}

fn find_declaration<'a>(snapshots: &'a [FileAnalysisSnapshot], id: &str) -> (result: Option<
    &'a SymbolRecord,
>)
    ensures
        match result {
            Some(symbol) => declared(all_declarations(snapshots@), id@) == Some(*symbol),
            None => declared(all_declarations(snapshots@), id@) is None,
        },
{
    let mut i: usize = snapshots.len();
    assert(snapshots@.take(i as int) =~= snapshots@);
    while i > 0
        invariant
            i <= snapshots@.len(),
            declared(all_declarations(snapshots@), id@) == declared(
                all_declarations(snapshots@.take(i as int)),
                id@,
            ),
        decreases i,
    {
        i = i - 1;
        let symbols = &snapshots[i].symbols;
        let ghost before = all_declarations(snapshots@.take(i as int));
        assert(snapshots@.take(i + 1).drop_last() =~= snapshots@.take(i as int));
        let mut j: usize = symbols.len();
        assert(before + symbols@.take(j as int) =~= all_declarations(snapshots@.take(i + 1))) by {
            assert(symbols@.take(j as int) =~= symbols@);
        }
        while j > 0
            invariant
                j <= symbols@.len(),
                declared(all_declarations(snapshots@), id@) == declared(
                    before + symbols@.take(j as int),
                    id@,
                ),
            decreases j,
        {
            j = j - 1;
            proof {
                let now = before + symbols@.take(j + 1);
                assert(now.drop_last() =~= before + symbols@.take(j as int));
                assert(now.last() == symbols@[j as int]);
            }
            if text::same_text(symbols[j].id.as_str(), id) {
                return Some(&symbols[j]);
            }
        }
        assert(before + symbols@.take(0) =~= before);
    }
    None
}

/// Whether declarations are the direct subtypes that a decoded graph gives.
pub open spec fn are_graph_implementations(
    symbols: Seq<SymbolRecord>,
    snapshots: Seq<FileAnalysisSnapshot>,
    supertype: Seq<char>,
) -> bool {
    let expected = graph_subtypes(snapshots, all_declarations(snapshots), supertype);
    &&& symbols.len() == expected.len()
    &&& forall|i: int| 0 <= i < expected.len() ==> (#[trigger] symbols[i])@ == expected[i]@
}

/// The direct implementations in a whole decoded graph, for blobs without
/// hierarchy postings.
pub fn implementations_in_graph(snapshots: &[FileAnalysisSnapshot], supertype: &str) -> (result:
    Vec<SymbolRecord>)
    ensures
        are_graph_implementations(result@, snapshots@, supertype@),
{
    let mut result: Vec<SymbolRecord> = Vec::new();
    let ghost symbols = all_declarations(snapshots@);
    let mut i: usize = 0;
    while i < snapshots.len()
        invariant
            i <= snapshots@.len(),
            symbols == all_declarations(snapshots@),
            result@.len() == graph_subtypes(snapshots@.take(i as int), symbols, supertype@).len(),
            forall|k: int|
                0 <= k < result@.len() ==> (#[trigger] result@[k])@ == graph_subtypes(
                    snapshots@.take(i as int),
                    symbols,
                    supertype@,
                )[k]@,
        decreases snapshots@.len() - i,
    {
        let edges = &snapshots[i].hierarchy;
        let ghost before = graph_subtypes(snapshots@.take(i as int), symbols, supertype@);
        assert(snapshots@.take(i + 1).drop_last() =~= snapshots@.take(i as int));
        let mut j: usize = 0;
        while j < edges.len()
            invariant
                j <= edges@.len(),
                symbols == all_declarations(snapshots@),
                result@.len() == before.len() + declared_subtypes(
                    edges@.take(j as int),
                    symbols,
                    supertype@,
                ).len(),
                forall|k: int|
                    0 <= k < result@.len() ==> (#[trigger] result@[k])@ == (before
                        + declared_subtypes(edges@.take(j as int), symbols, supertype@))[k]@,
            decreases edges@.len() - j,
        {
            assert(edges@.take(j + 1).drop_last() =~= edges@.take(j as int));
            if text::same_text(edges[j].supertype.as_str(), supertype) {
                if let Some(symbol) = find_declaration(
                    snapshots,
                    edges[j].subtype.as_str(),
                ) {
                    result.push(symbol.clone());
                }
            }
            j = j + 1;
        }
        assert(edges@.take(j as int) =~= edges@);
        i = i + 1;
    }
    assert(snapshots@.take(i as int) =~= snapshots@);
    result
}

proof fn lemma_named_ordinals(
    directory: ArtifactQualifiedSymbolDirectory,
    name: Seq<char>,
    n: int,
    ordinal: u32,
)
    requires
        0 <= n <= directory.entries@.len(),
    ensures
        named_ordinals(directory, name, n).contains(ordinal) <==> exists|i: int|
            0 <= i < n && (#[trigger] directory.entries@[i]).qualified_name@ == name
                && directory.entries@[i].symbol_ordinal == ordinal,
    decreases n,
{
    if n > 0 {
        lemma_named_ordinals(directory, name, n - 1, ordinal);
        let before = named_ordinals(directory, name, n - 1);
        let now = named_ordinals(directory, name, n);
        let entry = directory.entries@[n - 1];
        if before.contains(ordinal) {
            assert(now[before.index_of(ordinal)] == ordinal);
        }
        if entry.qualified_name@ == name {
            assert(now[before.len() as int] == entry.symbol_ordinal);
        }
        if now.contains(ordinal) && !before.contains(ordinal) {
            let i = now.index_of(ordinal);
            if i < before.len() {
                assert(before[i] == ordinal);
            }
        }
    }
}

/// The ordinals of a qualified name are exactly those that the directory lists
/// under that name.
pub proof fn law_directory_answers_for_the_exact_name(
    directory: &ArtifactQualifiedSymbolDirectory,
    qualified_name: &str,
    result: Vec<u32>,
    ordinal: u32,
)
    requires
        call_ensures(ordinals_with_qualified_name, (directory, qualified_name), result),
    ensures
        result@.contains(ordinal) <==> exists|i: int|
            0 <= i < directory.entries@.len() && (
            #[trigger] directory.entries@[i]).qualified_name@ == qualified_name@
                && directory.entries@[i].symbol_ordinal == ordinal,
{
    lemma_named_ordinals(
        *directory,
        qualified_name@,
        directory.entries@.len() as int,
        ordinal,
    );
}

proof fn lemma_subtype_ordinals(
    hierarchy: ArtifactHierarchyPostings,
    dictionary: ArtifactSymbolDictionary,
    supertype: Seq<char>,
    n: int,
    k: int,
)
    requires
        0 <= n <= dictionary.entries@.len() <= u32::MAX,
        0 <= k < dictionary.entries@.len(),
    ensures
        subtype_ordinals(hierarchy, dictionary, supertype, n).contains(k as u32) <==> k < n
            && is_subtype(hierarchy, supertype, dictionary.entries@[k].id@),
    decreases n,
{
    if n > 0 {
        lemma_subtype_ordinals(hierarchy, dictionary, supertype, n - 1, k);
        let before = subtype_ordinals(hierarchy, dictionary, supertype, n - 1);
        let now = subtype_ordinals(hierarchy, dictionary, supertype, n);
        if before.contains(k as u32) {
            assert(now[before.index_of(k as u32)] == k as u32);
        }
        if now.len() > before.len() {
            assert(now[before.len() as int] == (n - 1) as u32);
        }
        if now.contains(k as u32) && !before.contains(k as u32) {
            let i = now.index_of(k as u32);
            if i < before.len() {
                assert(before[i] == k as u32);
            }
        }
    }
}

/// A declaration of an artifact is an implementation exactly where a posting
/// makes it a direct subtype: the supertype is on the supertype's side of it.
pub proof fn law_postings_make_implementations(
    hierarchy: &ArtifactHierarchyPostings,
    dictionary: &ArtifactSymbolDictionary,
    supertype: &str,
    result: Vec<u32>,
    k: int,
)
    requires
        dictionary.entries@.len() <= u32::MAX,
        call_ensures(implementation_ordinals, (hierarchy, dictionary, supertype), result),
        0 <= k < dictionary.entries@.len(),
    ensures
        result@.contains(k as u32) <==> exists|i: int|
            0 <= i < hierarchy.entries@.len() && (
            #[trigger] hierarchy.entries@[i]).supertype_symbol_id@ == supertype@
                && hierarchy.entries@[i].subtype_symbol_id@ == dictionary.entries@[k].id@,
{
    lemma_subtype_ordinals(
        *hierarchy,
        *dictionary,
        supertype@,
        dictionary.entries@.len() as int,
        k,
    );
}

/// Something is posted under a supertype exactly where a posting names it.
pub proof fn law_posted_supertypes_are_named(
    hierarchy: &ArtifactHierarchyPostings,
    supertype: &str,
    result: bool,
)
    requires
        call_ensures(has_posted_supertype, (hierarchy, supertype), result),
    ensures
        result <==> exists|i: int|
            0 <= i < hierarchy.entries@.len() && (
            #[trigger] hierarchy.entries@[i]).supertype_symbol_id@ == supertype@,
{
}

proof fn lemma_declared(symbols: Seq<SymbolRecord>, id: Seq<char>)
    ensures
        declared(symbols, id) matches Some(symbol) ==> symbol.id@ == id && symbols.contains(
            symbol,
        ),
        declared(symbols, id) is None ==> forall|i: int|
            0 <= i < symbols.len() ==> (#[trigger] symbols[i]).id@ != id,
    decreases symbols.len(),
{
    if symbols.len() > 0 {
        let rest = symbols.drop_last();
        lemma_declared(rest, id);
        assert(symbols[symbols.len() - 1] == symbols.last());
        if symbols.last().id@ != id {
            if let Some(symbol) = declared(rest, id) {
                assert(symbols[rest.index_of(symbol)] == symbol);
            } else {
                assert forall|i: int| 0 <= i < symbols.len() implies (#[trigger] symbols[i]).id@
                    != id by {
                    if i < rest.len() {
                        assert(rest[i] == symbols[i]);
                    }
                }
            }
        }
    }
}

proof fn lemma_declared_subtypes(
    edges: Seq<HierarchyEdge>,
    symbols: Seq<SymbolRecord>,
    supertype: Seq<char>,
    e: int,
)
    requires
        0 <= e < edges.len(),
        edges[e].supertype@ == supertype,
        declared(symbols, edges[e].subtype@) is Some,
    ensures
        declared_subtypes(edges, symbols, supertype).contains(
            declared(symbols, edges[e].subtype@)->0,
        ),
    decreases edges.len(),
{
    let wanted = declared(symbols, edges[e].subtype@)->0;
    let rest = declared_subtypes(edges.drop_last(), symbols, supertype);
    let all = declared_subtypes(edges, symbols, supertype);
    if e < edges.len() - 1 {
        assert(edges.drop_last()[e] == edges[e]);
        lemma_declared_subtypes(edges.drop_last(), symbols, supertype, e);
        assert(all[rest.index_of(wanted)] == wanted);
    } else {
        assert(all[rest.len() as int] == wanted);
    }
}

proof fn lemma_graph_subtypes(
    snapshots: Seq<FileAnalysisSnapshot>,
    symbols: Seq<SymbolRecord>,
    supertype: Seq<char>,
    s: int,
    e: int,
)
    requires
        0 <= s < snapshots.len(),
        0 <= e < snapshots[s].hierarchy@.len(),
        snapshots[s].hierarchy@[e].supertype@ == supertype,
        declared(symbols, snapshots[s].hierarchy@[e].subtype@) is Some,
    ensures
        graph_subtypes(snapshots, symbols, supertype).contains(
            declared(symbols, snapshots[s].hierarchy@[e].subtype@)->0,
        ),
    decreases snapshots.len(),
{
    let wanted = declared(symbols, snapshots[s].hierarchy@[e].subtype@)->0;
    let rest = graph_subtypes(snapshots.drop_last(), symbols, supertype);
    let own = declared_subtypes(snapshots.last().hierarchy@, symbols, supertype);
    let all = graph_subtypes(snapshots, symbols, supertype);
    if s < snapshots.len() - 1 {
        assert(snapshots.drop_last()[s] == snapshots[s]);
        lemma_graph_subtypes(snapshots.drop_last(), symbols, supertype, s, e);
        assert(all[rest.index_of(wanted)] == wanted);
    } else {
        lemma_declared_subtypes(snapshots.last().hierarchy@, symbols, supertype, e);
        assert(all[rest.len() + own.index_of(wanted)] == wanted);
    }
}

proof fn lemma_all_declarations(snapshots: Seq<FileAnalysisSnapshot>, t: int, d: int)
    requires
        0 <= t < snapshots.len(),
        0 <= d < snapshots[t].symbols@.len(),
    ensures
        all_declarations(snapshots).contains(snapshots[t].symbols@[d]),
    decreases snapshots.len(),
{
    let rest = all_declarations(snapshots.drop_last());
    let all = all_declarations(snapshots);
    let wanted = snapshots[t].symbols@[d];
    if t < snapshots.len() - 1 {
        assert(snapshots.drop_last()[t] == snapshots[t]);
        lemma_all_declarations(snapshots.drop_last(), t, d);
        assert(all[rest.index_of(wanted)] == wanted);
    } else {
        assert(all[rest.len() + d] == wanted);
    }
}

/// A declaration that an edge of the graph makes a subtype is an implementation:
/// one with its id is returned.
pub proof fn law_edges_make_implementations(
    snapshots: &[FileAnalysisSnapshot],
    supertype: &str,
    result: Vec<SymbolRecord>,
    s: int,
    e: int,
    t: int,
    d: int,
) -> (k: int)
    requires
        call_ensures(implementations_in_graph, (snapshots, supertype), result),
        0 <= s < snapshots@.len(),
        0 <= e < snapshots@[s].hierarchy@.len(),
        snapshots@[s].hierarchy@[e].supertype@ == supertype@,
        0 <= t < snapshots@.len(),
        0 <= d < snapshots@[t].symbols@.len(),
        snapshots@[t].symbols@[d].id@ == snapshots@[s].hierarchy@[e].subtype@,
    ensures
        0 <= k < result@.len(),
        result@[k].id@ == snapshots@[s].hierarchy@[e].subtype@,
{
    let symbols = all_declarations(snapshots@);
    let id = snapshots@[s].hierarchy@[e].subtype@;
    lemma_declared(symbols, id);
    lemma_all_declarations(snapshots@, t, d);
    let at = symbols.index_of(snapshots@[t].symbols@[d]);
    assert(symbols[at].id@ == id);
    lemma_graph_subtypes(snapshots@, symbols, supertype@, s, e);
    let expected = graph_subtypes(snapshots@, symbols, supertype@);
    let k = expected.index_of(declared(symbols, id)->0);
    assert(result@[k]@ == expected[k]@);
    k
}

/// Without a blob an artifact has no implementations.
pub proof fn law_absent_blobs_have_no_implementations(
    supertype: &str,
    result: Result<Vec<SymbolRecord>, ArtifactQueryError>,
)
    requires
        call_ensures(direct_implementations, (&ImplementationSource::Absent, supertype), result),
    ensures
        result is Ok,
        result->Ok_0@.len() == 0,
{
}

} // verus!
