//! Fixed-header, section-addressable layout for dependency graph blobs.
//!
//! A blob is a header, a table of contents and sections. The table gives the
//! place, the digest and the compression of each section, so that a reader can
//! fetch one section by range and trust what it got.

use std::io::{Read, Write};

use vstd::prelude::*;

use crate::artifact_cache::{ArtifactBlob, ArtifactBlobCacheError, BLOB_HEADER_SIZE};
use crate::artifact_proto::{
    ArtifactBlobSection, ArtifactBlobSectionKind, ArtifactBlobToc, ArtifactHierarchy,
    ArtifactHierarchyPosting, ArtifactHierarchyPostings, ArtifactQualifiedSymbolDirectory,
    ArtifactQualifiedSymbolEntry, ArtifactSymbol, ArtifactSymbolDetailBlock,
    ArtifactSymbolDictionary, ArtifactSymbolDictionaryEntry, ArtifactSymbolPosting,
    ArtifactSymbolPostings, GraphArtifact, GraphSnapshot,
};
use crate::digest;
use crate::ordering;
use crate::ordering::{stable_sort, Ranked};
use crate::protocol::ARTIFACT_BLOB_LAYOUT_VERSION;
use crate::shown::{push, Shown};
use crate::symbol_detail;
use crate::symbol_detail::detail_block;
use crate::text;

verus! {

/// Upper bound on declarations decoded for one selected ordinal lookup.
pub const SYMBOL_DETAIL_BLOCK_ENTRY_CAPACITY: usize = 256;

/// Length of the header in front of the table of contents.
pub const LAYOUT_HEADER_SIZE: usize = 28;

/// Why a blob is refused.
#[derive(Debug, Clone, PartialEq, Eq)]
pub enum ArtifactBlobLayoutError {
    InvalidHeader,
    UnsupportedVersion(u32),
    /// The table of contents is no message, with what its decoder said.
    Decode(String),
    MissingSection(ArtifactBlobSectionKind),
    ChecksumMismatch,
    UnsupportedCompression(i32),
    /// A section is no gzip stream, with what its decoder said.
    Gzip(String),
    /// The cache does not hold the range that was asked for.
    Cache(ArtifactBlobCacheError),
}

/// What an `ArtifactBlobLayoutError` says.
pub enum ArtifactBlobLayoutErrorView {
    InvalidHeader,
    UnsupportedVersion(u32),
    Decode(Seq<char>),
    MissingSection(ArtifactBlobSectionKind),
    ChecksumMismatch,
    UnsupportedCompression(i32),
    Gzip(Seq<char>),
    Cache(ArtifactBlobCacheError),
}

impl View for ArtifactBlobLayoutError {
    type V = ArtifactBlobLayoutErrorView;

    open spec fn view(&self) -> ArtifactBlobLayoutErrorView {
        match self {
            ArtifactBlobLayoutError::InvalidHeader => ArtifactBlobLayoutErrorView::InvalidHeader,
            ArtifactBlobLayoutError::UnsupportedVersion(version) => {
                ArtifactBlobLayoutErrorView::UnsupportedVersion(*version)
            },
            ArtifactBlobLayoutError::Decode(cause) => ArtifactBlobLayoutErrorView::Decode(cause@),
            ArtifactBlobLayoutError::MissingSection(kind) => {
                ArtifactBlobLayoutErrorView::MissingSection(*kind)
            },
            ArtifactBlobLayoutError::ChecksumMismatch => {
                ArtifactBlobLayoutErrorView::ChecksumMismatch
            },
            ArtifactBlobLayoutError::UnsupportedCompression(compression) => {
                ArtifactBlobLayoutErrorView::UnsupportedCompression(*compression)
            },
            ArtifactBlobLayoutError::Gzip(cause) => ArtifactBlobLayoutErrorView::Gzip(cause@),
            ArtifactBlobLayoutError::Cache(error) => ArtifactBlobLayoutErrorView::Cache(*error),
        }
    }
}

impl ArtifactBlobLayoutError {
    /// The message that is shown for an error.
    pub open spec fn message_text(&self) -> Seq<char> {
        match self {
            ArtifactBlobLayoutError::InvalidHeader => {
                "artifact blob has an invalid or incompatible header"@
            },
            ArtifactBlobLayoutError::UnsupportedVersion(version) => {
                "artifact blob uses unsupported layout version "@
                + text::decimal_text(*version as nat)
            },
            ArtifactBlobLayoutError::Decode(cause) => "artifact blob TOC cannot be decoded: "@
                + cause@,
            ArtifactBlobLayoutError::MissingSection(kind) => "artifact blob is missing "@
                + kind.shown()
                + " section"@,
            ArtifactBlobLayoutError::ChecksumMismatch => {
                "artifact blob section checksum does not match"@
            },
            ArtifactBlobLayoutError::UnsupportedCompression(compression) => {
                "artifact blob uses unsupported section compression "@
                + (*compression as i64).shown()
            },
            ArtifactBlobLayoutError::Gzip(cause) => "artifact blob gzip operation failed: "@
                + cause@,
            ArtifactBlobLayoutError::Cache(error) => "artifact blob cache read failed: "@
                + error.message_text(),
        }
    }

    /// Computes `message_text`.
    pub fn message(&self) -> (result: String)
        ensures
            result@ == self.message_text(),
    {
        match self {
            ArtifactBlobLayoutError::InvalidHeader => {
                "artifact blob has an invalid or incompatible header".to_owned()
            },
            ArtifactBlobLayoutError::UnsupportedVersion(version) => text::join_text(
                "artifact blob uses unsupported layout version ",
                text::decimal(*version as u64).as_str(),
            ),
            ArtifactBlobLayoutError::Decode(cause) => text::join_text(
                "artifact blob TOC cannot be decoded: ",
                cause.as_str(),
            ),
            ArtifactBlobLayoutError::MissingSection(kind) => {
                let mut out = "artifact blob is missing ".to_owned();
                push(&mut out, kind.show().as_str());
                push(&mut out, " section");
                out
            },
            ArtifactBlobLayoutError::ChecksumMismatch => {
                "artifact blob section checksum does not match".to_owned()
            },
            ArtifactBlobLayoutError::UnsupportedCompression(compression) => text::join_text(
                "artifact blob uses unsupported section compression ",
                (*compression as i64).show().as_str(),
            ),
            ArtifactBlobLayoutError::Gzip(cause) => text::join_text(
                "artifact blob gzip operation failed: ",
                cause.as_str(),
            ),
            ArtifactBlobLayoutError::Cache(error) => text::join_text(
                "artifact blob cache read failed: ",
                error.message().as_str(),
            ),
        }
    }
}

/// What a gzip stream holds, else what its decoder says of it.
pub uninterp spec fn gunzipped(stream: Seq<u8>) -> Result<Seq<u8>, Seq<char>>;

/// The gzip stream of a byte string at the fastest level.
pub uninterp spec fn gzipped(content: Seq<u8>) -> Seq<u8>;

/// `flate2::write::GzEncoder` at the fastest level. The stream depends on the
/// content alone, and decoding it gives the content back.
#[verifier::external_body]
fn gzip(content: &[u8]) -> (result: Vec<u8>)
    ensures
        result@ == gzipped(content@),
        gunzipped(result@) is Ok,
        gunzipped(result@)->Ok_0 == content@,
{
    let mut encoder = flate2::write::GzEncoder::new(Vec::new(), flate2::Compression::fast());
    encoder.write_all(content).expect("Vec writes cannot fail");
    encoder.finish().expect("Vec writes cannot fail")
}

/// What a decoder gave.
pub open spec fn decoding_view(result: Result<Vec<u8>, String>) -> Result<Seq<u8>, Seq<char>> {
    match result {
        Ok(content) => Ok(content@),
        Err(cause) => Err(cause@),
    }
}

/// `flate2::read::GzDecoder` read to its end: what the stream holds, or the text
/// of its error where it cannot be decoded. Both depend on the stream alone.
#[verifier::external_body]
fn gunzip(stream: &[u8]) -> (result: Result<Vec<u8>, String>)
    ensures
        decoding_view(result) == gunzipped(stream@),
{
    let mut content = Vec::new();
    match flate2::read::GzDecoder::new(stream).read_to_end(&mut content) {
        Ok(_) => Ok(content),
        Err(error) => Err(error.to_string()),
    }
}

/// All declarations of an artifact, by ordinal.
pub open spec fn all_symbols(snapshots: Seq<GraphSnapshot>) -> Seq<ArtifactSymbol>
    decreases snapshots.len(),
{
    if snapshots.len() == 0 {
        Seq::empty()
    } else {
        all_symbols(snapshots.drop_last()) + snapshots.last().symbols@
    }
}

/// The snapshot that declares each ordinal.
pub open spec fn all_units(snapshots: Seq<GraphSnapshot>) -> Seq<u32>
    decreases snapshots.len(),
{
    if snapshots.len() == 0 {
        Seq::empty()
    } else {
        all_units(snapshots.drop_last()) + Seq::new(
            snapshots.last().symbols@.len(),
            |i: int| (snapshots.len() - 1) as u32,
        )
    }
}

/// All subtype relations of an artifact.
pub open spec fn all_hierarchy(snapshots: Seq<GraphSnapshot>) -> Seq<ArtifactHierarchy>
    decreases snapshots.len(),
{
    if snapshots.len() == 0 {
        Seq::empty()
    } else {
        all_hierarchy(snapshots.drop_last()) + snapshots.last().hierarchy@
    }
}

/// The qualified names of declarations with their ordinals.
pub open spec fn directory_entries(symbols: Seq<ArtifactSymbol>) -> Seq<
    ArtifactQualifiedSymbolEntry,
>
    decreases symbols.len(),
{
    if symbols.len() == 0 {
        Seq::empty()
    } else {
        let rest = directory_entries(symbols.drop_last());
        match symbols.last().qualified_name {
            Some(qualified_name) => rest.push(
                ArtifactQualifiedSymbolEntry {
                    qualified_name,
                    symbol_ordinal: (symbols.len() - 1) as u32,
                },
            ),
            None => rest,
        }
    }
}

impl Ranked for ArtifactQualifiedSymbolEntry {
    open spec fn ranks_before(&self, other: &Self) -> bool {
        text::text_lt(self.qualified_name@, other.qualified_name@) || self.qualified_name@
            == other.qualified_name@ && self.symbol_ordinal < other.symbol_ordinal
    }

    proof fn lemma_rank_asymmetric(a: &Self, b: &Self) {
        text::lemma_text_lt_irreflexive(a.qualified_name@);
        if text::text_lt(a.qualified_name@, b.qualified_name@) {
            text::lemma_text_lt_asymmetric(a.qualified_name@, b.qualified_name@);
        }
    }

    proof fn lemma_rank_negatively_transitive(a: &Self, b: &Self, c: &Self) {
        text::lemma_text_lt_negatively_transitive(
            a.qualified_name@,
            b.qualified_name@,
            c.qualified_name@,
        );
        text::lemma_text_lt_total(a.qualified_name@, b.qualified_name@);
        text::lemma_text_lt_total(b.qualified_name@, c.qualified_name@);
        text::lemma_text_lt_total(a.qualified_name@, c.qualified_name@);
        if a.ranks_before(c) {
            if text::text_lt(b.qualified_name@, a.qualified_name@) && text::text_lt(
                c.qualified_name@,
                b.qualified_name@,
            ) {
                text::lemma_text_lt_transitive(
                    c.qualified_name@,
                    b.qualified_name@,
                    a.qualified_name@,
                );
            }
            text::lemma_text_lt_irreflexive(a.qualified_name@);
        }
    }

    fn is_before(&self, other: &Self) -> (result: bool) {
        text::text_before(self.qualified_name.as_str(), other.qualified_name.as_str())
            || self.qualified_name == other.qualified_name && self.symbol_ordinal
            < other.symbol_ordinal
    }
}

/// How many blocks a number of declarations takes.
pub open spec fn block_count(symbols: nat) -> nat {
    (symbols + 255) / 256
}

/// The declarations of a block of a snapshot.
pub open spec fn block_symbols(symbols: Seq<ArtifactSymbol>, block: int) -> Seq<ArtifactSymbol> {
    symbols.subrange(
        block * 256,
        if (block + 1) * 256 < symbols.len() {
            (block + 1) * 256
        } else {
            symbols.len() as int
        },
    )
}

/// Whether blocks are the ones of a snapshot whose first ordinal is `first`.
pub open spec fn are_snapshot_blocks(
    blocks: Seq<ArtifactSymbolDetailBlock>,
    snapshot: GraphSnapshot,
    first: int,
) -> bool {
    &&& blocks.len() == block_count(snapshot.symbols@.len())
    &&& forall|c: int|
        0 <= c < blocks.len() ==> symbol_detail::is_block_of(
            #[trigger] blocks[c],
            snapshot,
            block_symbols(snapshot.symbols@, c),
            first + c * 256,
        )
}

/// How many blocks an artifact takes.
pub open spec fn block_total(snapshots: Seq<GraphSnapshot>) -> nat
    decreases snapshots.len(),
{
    if snapshots.len() == 0 {
        0
    } else {
        block_total(snapshots.drop_last()) + block_count(snapshots.last().symbols@.len())
    }
}

/// Whether blocks are the ones of an artifact, snapshot by snapshot.
pub open spec fn are_blocks(
    blocks: Seq<ArtifactSymbolDetailBlock>,
    snapshots: Seq<GraphSnapshot>,
) -> bool
    decreases snapshots.len(),
{
    if snapshots.len() == 0 {
        blocks.len() == 0
    } else {
        let rest = snapshots.drop_last();
        let n = block_total(rest);
        &&& n <= blocks.len()
        &&& are_blocks(blocks.take(n as int), rest)
        &&& are_snapshot_blocks(
            blocks.skip(n as int),
            snapshots.last(),
            all_symbols(rest).len() as int,
        )
    }
}

/// Whether the ordinals, unit indexes and table positions of an artifact fit
/// their width.
pub open spec fn layout_fits(snapshots: Seq<GraphSnapshot>) -> bool {
    &&& all_symbols(snapshots).len() <= u32::MAX
    &&& snapshots.len() <= u32::MAX
    &&& forall|i: int|
        0 <= i < snapshots.len() ==> symbol_detail::all_strings(
            (#[trigger] snapshots[i]).symbols@,
        ).len() <= u32::MAX
}

/// The messages that an artifact's blob is made of, besides the graph itself.
#[derive(Debug, Clone, PartialEq, Eq)]
pub struct LayoutPlan {
    pub dictionary: ArtifactSymbolDictionary,
    pub postings: ArtifactSymbolPostings,
    pub hierarchy: ArtifactHierarchyPostings,
    pub directory: ArtifactQualifiedSymbolDirectory,
    pub blocks: Vec<ArtifactSymbolDetailBlock>,
}

/// The id that a subtype relation posts: the declaration that its ordinal
/// names, else the text that it carries.
pub open spec fn posted_id(
    inline: String,
    ordinal: Option<u32>,
    symbols: Seq<ArtifactSymbol>,
) -> String {
    match ordinal {
        Some(k) => if k < symbols.len() {
            symbols[k as int].id
        } else {
            inline
        },
        None => inline,
    }
}

/// The posting of a subtype relation.
pub open spec fn posting_of(
    edge: ArtifactHierarchy,
    symbols: Seq<ArtifactSymbol>,
) -> ArtifactHierarchyPosting {
    ArtifactHierarchyPosting {
        subtype_symbol_id: posted_id(
            edge.subtype_symbol_id,
            edge.subtype_symbol_ordinal,
            symbols,
        ),
        supertype_symbol_id: posted_id(
            edge.supertype_symbol_id,
            edge.supertype_symbol_ordinal,
            symbols,
        ),
        precision: edge.precision,
    }
}

/// Whether a plan is the one of an artifact.
pub open spec fn is_plan_of(plan: LayoutPlan, snapshots: Seq<GraphSnapshot>) -> bool {
    let symbols = all_symbols(snapshots);
    let edges = all_hierarchy(snapshots);
    &&& plan.dictionary.entries@ == Seq::new(
        symbols.len(),
        |i: int| ArtifactSymbolDictionaryEntry { id: symbols[i].id, name: symbols[i].name },
    )
    &&& plan.postings.entries@ == Seq::new(
        symbols.len(),
        |i: int|
            ArtifactSymbolPosting {
                source_unit_index: all_units(snapshots)[i],
                symbol_ordinal: i as u32,
            },
    )
    &&& plan.hierarchy.entries@ == Seq::new(edges.len(), |i: int| posting_of(edges[i], symbols))
    &&& plan.directory.entries@ == ordering::stable_sorted(directory_entries(symbols))
    &&& are_blocks(plan.blocks@, snapshots)
}

proof fn lemma_prefix_sizes(snapshots: Seq<GraphSnapshot>, n: int)
    requires
        0 <= n <= snapshots.len(),
    ensures
        all_symbols(snapshots.take(n)).len() <= all_symbols(snapshots).len(),
        all_units(snapshots).len() == all_symbols(snapshots).len(),
    decreases snapshots.len(),
{
    if n == snapshots.len() {
        assert(snapshots.take(n) =~= snapshots);
        if n > 0 {
            lemma_prefix_sizes(snapshots.drop_last(), n - 1);
        }
    } else {
        lemma_prefix_sizes(snapshots.drop_last(), n);
        assert(snapshots.drop_last().take(n) =~= snapshots.take(n));
    }
}

/// The texts of consecutive declarations are no more than those of all.
proof fn lemma_fewer_strings(symbols: Seq<ArtifactSymbol>, start: int, end: int)
    requires
        0 <= start <= end <= symbols.len(),
    ensures
        symbol_detail::all_strings(symbols.subrange(start, end)).len()
            <= symbol_detail::all_strings(symbols).len(),
    decreases symbols.len(),
{
    let part = symbols.subrange(start, end);
    if end < symbols.len() {
        lemma_fewer_strings(symbols.drop_last(), start, end);
        assert(symbols.drop_last().subrange(start, end) =~= part);
    } else if start < end {
        lemma_fewer_strings(symbols.drop_last(), start, end - 1);
        assert(symbols.drop_last().subrange(start, end - 1) =~= part.drop_last());
        assert(part.last() == symbols.last());
    }
}

fn snapshot_blocks(snapshot: &GraphSnapshot, first: u32) -> (result: Vec<ArtifactSymbolDetailBlock>)
    requires
        first + snapshot.symbols@.len() <= u32::MAX,
        symbol_detail::all_strings(snapshot.symbols@).len() <= u32::MAX,
    ensures
        are_snapshot_blocks(result@, *snapshot, first as int),
{
    let symbols = snapshot.symbols.as_slice();
    let mut blocks: Vec<ArtifactSymbolDetailBlock> = Vec::new();
    let mut start: usize = 0;
    while start < symbols.len()
        invariant
            symbols@ == snapshot.symbols@,
            first + symbols@.len() <= u32::MAX,
            symbol_detail::all_strings(symbols@).len() <= u32::MAX,
            start <= symbols@.len(),
            start == symbols@.len() || start == blocks@.len() * 256,
            blocks@.len() == block_count(start as nat),
            forall|c: int|
                0 <= c < blocks@.len() ==> symbol_detail::is_block_of(
                    #[trigger] blocks@[c],
                    *snapshot,
                    block_symbols(symbols@, c),
                    first + c * 256,
                ),
        decreases symbols@.len() - start,
    {
        let end: usize = if symbols.len() - start > SYMBOL_DETAIL_BLOCK_ENTRY_CAPACITY {
            start + SYMBOL_DETAIL_BLOCK_ENTRY_CAPACITY
        } else {
            symbols.len()
        };
        let entries = &symbols[start..end];
        proof {
            lemma_fewer_strings(symbols@, start as int, end as int);
            assert(entries@ =~= block_symbols(symbols@, blocks@.len() as int));
        }
        blocks.push(detail_block(snapshot, entries, first + start as u32));
        start = end;
    }
    blocks
}

fn post_id(
    inline: &String,
    ordinal: Option<u32>,
    dictionary: &[ArtifactSymbolDictionaryEntry],
    Ghost(symbols): Ghost<Seq<ArtifactSymbol>>,
) -> (result: String)
    requires
        dictionary@.len() == symbols.len(),
        forall|k: int| 0 <= k < symbols.len() ==> (#[trigger] dictionary@[k]).id == symbols[k].id,
    ensures
        result == posted_id(*inline, ordinal, symbols),
{
    match ordinal {
        Some(k) => if (k as usize) < dictionary.len() {
            dictionary[k as usize].id.clone()
        } else {
            inline.clone()
        },
        None => inline.clone(),
    }
}

fn post_hierarchy(
    snapshots: &[GraphSnapshot],
    dictionary: &[ArtifactSymbolDictionaryEntry],
    Ghost(symbols): Ghost<Seq<ArtifactSymbol>>,
) -> (result: Vec<ArtifactHierarchyPosting>)
    requires
        dictionary@.len() == symbols.len(),
        forall|k: int| 0 <= k < symbols.len() ==> (#[trigger] dictionary@[k]).id == symbols[k].id,
    ensures
        result@ == Seq::new(
            all_hierarchy(snapshots@).len(),
            |i: int| posting_of(all_hierarchy(snapshots@)[i], symbols),
        ),
{
    let mut postings: Vec<ArtifactHierarchyPosting> = Vec::new();
    let mut i: usize = 0;
    while i < snapshots.len()
        invariant
            i <= snapshots@.len(),
            dictionary@.len() == symbols.len(),
            forall|k: int|
                0 <= k < symbols.len() ==> (#[trigger] dictionary@[k]).id == symbols[k].id,
            postings@.len() == all_hierarchy(snapshots@.take(i as int)).len(),
            forall|j: int|
                0 <= j < postings@.len() ==> #[trigger] postings@[j] == posting_of(
                    all_hierarchy(snapshots@.take(i as int))[j],
                    symbols,
                ),
        decreases snapshots@.len() - i,
    {
        let edges = &snapshots[i].hierarchy;
        let ghost before = all_hierarchy(snapshots@.take(i as int));
        assert(snapshots@.take(i + 1).drop_last() =~= snapshots@.take(i as int));
        let mut j: usize = 0;
        while j < edges.len()
            invariant
                j <= edges@.len(),
                dictionary@.len() == symbols.len(),
                forall|k: int|
                    0 <= k < symbols.len() ==> (#[trigger] dictionary@[k]).id == symbols[k].id,
                postings@.len() == before.len() + j,
                forall|k: int|
                    0 <= k < postings@.len() ==> #[trigger] postings@[k] == posting_of(
                        (before + edges@)[k],
                        symbols,
                    ),
            decreases edges@.len() - j,
        {
            let edge = &edges[j];
            postings.push(
                ArtifactHierarchyPosting {
                    subtype_symbol_id: post_id(
                        &edge.subtype_symbol_id,
                        edge.subtype_symbol_ordinal,
                        dictionary,
                        Ghost(symbols),
                    ),
                    supertype_symbol_id: post_id(
                        &edge.supertype_symbol_id,
                        edge.supertype_symbol_ordinal,
                        dictionary,
                        Ghost(symbols),
                    ),
                    precision: edge.precision.clone(),
                },
            );
            j = j + 1;
        }
        i = i + 1;
    }
    assert(snapshots@.take(i as int) =~= snapshots@);
    postings
}

/// Computes the messages that an artifact's blob is made of: the identities
/// by ordinal, where each ordinal is declared, the subtype relations, the
/// qualified names in order, and the details in bounded blocks.
pub fn plan_sections(artifact: &GraphArtifact) -> (result: LayoutPlan)
    requires
        layout_fits(artifact.snapshots@),
    ensures
        is_plan_of(result, artifact.snapshots@),
{
    let snapshots = artifact.snapshots.as_slice();
    let mut dictionary: Vec<ArtifactSymbolDictionaryEntry> = Vec::new();
    let mut postings: Vec<ArtifactSymbolPosting> = Vec::new();
    let mut directory: Vec<ArtifactQualifiedSymbolEntry> = Vec::new();
    let mut blocks: Vec<ArtifactSymbolDetailBlock> = Vec::new();
    let mut first: u32 = 0;
    let mut i: usize = 0;
    while i < snapshots.len()
        invariant
            layout_fits(snapshots@),
            i <= snapshots@.len(),
            first == all_symbols(snapshots@.take(i as int)).len(),
            dictionary@.len() == first,
            postings@.len() == first,
            all_units(snapshots@.take(i as int)).len() == first,
            forall|j: int|
                0 <= j < first ==> (#[trigger] dictionary@[j]).id == all_symbols(
                    snapshots@.take(i as int),
                )[j].id && dictionary@[j].name == all_symbols(snapshots@.take(i as int))[j].name,
            forall|j: int|
                0 <= j < first ==> (#[trigger] postings@[j]).symbol_ordinal == j
                    && postings@[j].source_unit_index == all_units(snapshots@.take(i as int))[j],
            directory@ == directory_entries(all_symbols(snapshots@.take(i as int))),
            blocks@.len() == block_total(snapshots@.take(i as int)),
            are_blocks(blocks@, snapshots@.take(i as int)),
        decreases snapshots@.len() - i,
    {
        let snapshot = &snapshots[i];
        let ghost before = all_symbols(snapshots@.take(i as int));
        let ghost units = all_units(snapshots@.take(i as int));
        proof {
            lemma_prefix_sizes(snapshots@, i + 1);
            lemma_prefix_sizes(snapshots@.take(i + 1), i + 1);
            assert(snapshots@.take(i + 1).drop_last() =~= snapshots@.take(i as int));
            assert(before + snapshot.symbols@.take(0) =~= before);
        }
        let mut j: usize = 0;
        while j < snapshot.symbols.len()
            invariant
                i < snapshots@.len() <= u32::MAX,
                before.len() + snapshot.symbols@.len() <= u32::MAX,
                first == before.len(),
                units.len() == before.len(),
                j <= snapshot.symbols@.len(),
                dictionary@.len() == before.len() + j,
                postings@.len() == before.len() + j,
                forall|k: int|
                    0 <= k < before.len() + j ==> (#[trigger] dictionary@[k]).id == (before
                        + snapshot.symbols@)[k].id && dictionary@[k].name == (before
                        + snapshot.symbols@)[k].name,
                forall|k: int|
                    0 <= k < before.len() + j ==> (#[trigger] postings@[k]).symbol_ordinal == k
                        && postings@[k].source_unit_index == (if k < before.len() {
                        units[k]
                    } else {
                        i as u32
                    }),
                directory@ == directory_entries(before + snapshot.symbols@.take(j as int)),
            decreases snapshot.symbols@.len() - j,
        {
            let symbol = &snapshot.symbols[j];
            let ordinal: u32 = first + j as u32;
            dictionary.push(
                ArtifactSymbolDictionaryEntry { id: symbol.id.clone(), name: symbol.name.clone() },
            );
            postings.push(
                ArtifactSymbolPosting { source_unit_index: i as u32, symbol_ordinal: ordinal },
            );
            if let Some(qualified_name) = &symbol.qualified_name {
                directory.push(
                    ArtifactQualifiedSymbolEntry {
                        qualified_name: qualified_name.clone(),
                        symbol_ordinal: ordinal,
                    },
                );
            }
            j = j + 1;
            proof {
                let now = before + snapshot.symbols@.take(j as int);
                assert(now.drop_last() =~= before + snapshot.symbols@.take(j - 1));
                assert(now.last() == *symbol);
            }
        }
        assert(snapshot.symbols@.take(j as int) =~= snapshot.symbols@);
        let mut own = snapshot_blocks(snapshot, first);
        let ghost earlier = blocks@;
        let ghost added = own@;
        blocks.append(&mut own);
        proof {
            assert(blocks@.take(earlier.len() as int) =~= earlier);
            assert(blocks@.skip(earlier.len() as int) =~= added);
        }
        first = first + snapshot.symbols.len() as u32;
        i = i + 1;
    }
    assert(snapshots@.take(i as int) =~= snapshots@);
    let ghost symbols = all_symbols(snapshots@);
    proof {
        assert(dictionary@ =~= Seq::new(
            symbols.len(),
            |i: int| ArtifactSymbolDictionaryEntry { id: symbols[i].id, name: symbols[i].name },
        ));
        assert(postings@ =~= Seq::new(
            symbols.len(),
            |i: int|
                ArtifactSymbolPosting {
                    source_unit_index: all_units(snapshots@)[i],
                    symbol_ordinal: i as u32,
                },
        ));
    }
    let hierarchy = post_hierarchy(snapshots, dictionary.as_slice(), Ghost(symbols));
    LayoutPlan {
        dictionary: ArtifactSymbolDictionary { entries: dictionary },
        postings: ArtifactSymbolPostings { entries: postings },
        hierarchy: ArtifactHierarchyPostings { entries: hierarchy },
        directory: ArtifactQualifiedSymbolDirectory { entries: stable_sort(directory) },
        blocks,
    }
}

/// Whether a block holds the detail of an ordinal.
pub open spec fn holds_ordinal(block: ArtifactSymbolDetailBlock, ordinal: u32) -> bool {
    block.first_symbol_ordinal <= ordinal < block.first_symbol_ordinal + block.entries@.len()
}

/// A block is a bounded part of one snapshot.
pub proof fn lemma_block_position(
    blocks: Seq<ArtifactSymbolDetailBlock>,
    snapshots: Seq<GraphSnapshot>,
    b: int,
) -> (result: (int, int))
    requires
        are_blocks(blocks, snapshots),
        0 <= b < blocks.len(),
    ensures
        ({
            let (k, c) = result;
            let first = all_symbols(snapshots.take(k)).len();
            let part = block_symbols(snapshots[k].symbols@, c);
            &&& 0 <= k < snapshots.len()
            &&& 0 <= c < block_count(snapshots[k].symbols@.len())
            &&& symbol_detail::is_block_of(blocks[b], snapshots[k], part, first + c * 256)
            &&& part.len() > 0
            &&& first + c * 256 + part.len() <= all_symbols(snapshots).len()
            &&& forall|i: int|
                0 <= i < part.len() ==> #[trigger] part[i] == all_symbols(snapshots)[first + c * 256
                    + i]
        }),
    decreases snapshots.len(),
{
    let rest = snapshots.drop_last();
    let n = block_total(rest) as int;
    let last = snapshots.last();
    if b < n {
        let (k, c) = lemma_block_position(blocks.take(n), rest, b);
        assert(rest.take(k) =~= snapshots.take(k));
        assert(rest[k] == snapshots[k]);
        assert(blocks.take(n)[b] == blocks[b]);
        let part = block_symbols(snapshots[k].symbols@, c);
        let first = all_symbols(snapshots.take(k)).len();
        assert forall|i: int| 0 <= i < part.len() implies #[trigger] part[i] == all_symbols(
            snapshots,
        )[first + c * 256 + i] by {
            assert(part[i] == all_symbols(rest)[first + c * 256 + i]);
        }
        (k, c)
    } else {
        let c = b - n;
        assert(blocks.skip(n)[c] == blocks[b]);
        let k = snapshots.len() - 1;
        assert(snapshots.take(k) =~= rest);
        let part = block_symbols(last.symbols@, c);
        let first = all_symbols(rest).len();
        assert forall|i: int| 0 <= i < part.len() implies #[trigger] part[i] == all_symbols(
            snapshots,
        )[first + c * 256 + i] by {
            assert(part[i] == last.symbols@[c * 256 + i]);
        }
        (k, c)
    }
}

proof fn lemma_block_of_ordinal(
    blocks: Seq<ArtifactSymbolDetailBlock>,
    snapshots: Seq<GraphSnapshot>,
    ordinal: u32,
) -> (b: int)
    requires
        are_blocks(blocks, snapshots),
        ordinal < all_symbols(snapshots).len(),
    ensures
        0 <= b < blocks.len(),
        holds_ordinal(blocks[b], ordinal),
    decreases snapshots.len(),
{
    let rest = snapshots.drop_last();
    let n = block_total(rest) as int;
    let before = all_symbols(rest).len() as int;
    if ordinal < before {
        let b = lemma_block_of_ordinal(blocks.take(n), rest, ordinal);
        assert(blocks.take(n)[b] == blocks[b]);
        b
    } else {
        let c = (ordinal - before) / 256;
        let own = blocks.skip(n);
        assert(0 <= c < own.len());
        assert(symbol_detail::is_block_of(
            own[c],
            snapshots.last(),
            block_symbols(snapshots.last().symbols@, c),
            before + c * 256,
        ));
        assert(own[c] == blocks[n + c]);
        n + c
    }
}

proof fn lemma_blocks_ascend(
    blocks: Seq<ArtifactSymbolDetailBlock>,
    snapshots: Seq<GraphSnapshot>,
    a: int,
    b: int,
)
    requires
        are_blocks(blocks, snapshots),
        0 <= a < b < blocks.len(),
    ensures
        blocks[a].first_symbol_ordinal + blocks[a].entries@.len() <= blocks[b].first_symbol_ordinal,
    decreases snapshots.len(),
{
    let rest = snapshots.drop_last();
    let n = block_total(rest) as int;
    let before = all_symbols(rest).len() as int;
    let own = blocks.skip(n);
    if b < n {
        lemma_blocks_ascend(blocks.take(n), rest, a, b);
        assert(blocks.take(n)[a] == blocks[a] && blocks.take(n)[b] == blocks[b]);
    } else {
        assert(own[b - n] == blocks[b]);
        assert(blocks[b].first_symbol_ordinal == before + (b - n) * 256);
        if a < n {
            let (k, c) = lemma_block_position(blocks.take(n), rest, a);
            assert(blocks.take(n)[a] == blocks[a]);
        } else {
            assert(own[a - n] == blocks[a]);
            assert(blocks[a].first_symbol_ordinal == before + (a - n) * 256);
            assert(blocks[a].entries@.len() == block_symbols(
                snapshots.last().symbols@,
                a - n,
            ).len());
        }
    }
}

/// The detail of every declaration is in exactly one block, and no block holds
/// more details than the capacity.
pub proof fn law_each_ordinal_has_one_block(
    blocks: Seq<ArtifactSymbolDetailBlock>,
    snapshots: Seq<GraphSnapshot>,
    ordinal: u32,
)
    requires
        are_blocks(blocks, snapshots),
        ordinal < all_symbols(snapshots).len(),
    ensures
        exists|b: int| 0 <= b < blocks.len() && holds_ordinal(#[trigger] blocks[b], ordinal),
        forall|a: int, b: int|
            #![trigger blocks[a], blocks[b]]
            0 <= a < blocks.len() && 0 <= b < blocks.len() && holds_ordinal(blocks[a], ordinal)
                && holds_ordinal(blocks[b], ordinal) ==> a == b,
        forall|b: int|
            0 <= b < blocks.len() ==> (#[trigger] blocks[b]).entries@.len()
                <= SYMBOL_DETAIL_BLOCK_ENTRY_CAPACITY,
{
    let found = lemma_block_of_ordinal(blocks, snapshots, ordinal);
    assert(holds_ordinal(blocks[found], ordinal));
    assert forall|a: int, b: int|
        #![trigger blocks[a], blocks[b]]
        0 <= a < blocks.len() && 0 <= b < blocks.len() && holds_ordinal(blocks[a], ordinal)
            && holds_ordinal(blocks[b], ordinal) implies a == b by {
        if a < b {
            lemma_blocks_ascend(blocks, snapshots, a, b);
        } else if b < a {
            lemma_blocks_ascend(blocks, snapshots, b, a);
        }
    }
    assert forall|b: int| 0 <= b < blocks.len() implies (#[trigger] blocks[b]).entries@.len()
        <= SYMBOL_DETAIL_BLOCK_ENTRY_CAPACITY by {
        let (k, c) = lemma_block_position(blocks, snapshots, b);
    }
}

/// The block that holds an ordinal gives back the declaration of that ordinal
/// and its provenance, where its defaults have a source unit and the provenance that it names.
pub proof fn law_ordinal_round_trip(
    blocks: Seq<ArtifactSymbolDetailBlock>,
    snapshots: Seq<GraphSnapshot>,
    ordinal: u32,
    b: int,
)
    requires
        are_blocks(blocks, snapshots),
        layout_fits(snapshots),
        ordinal < all_symbols(snapshots).len(),
        0 <= b < blocks.len(),
        holds_ordinal(blocks[b], ordinal),
        blocks[b].defaults->0.source_unit is Some,
        symbol_detail::named_provenance(all_symbols(snapshots)[ordinal as int])
            < blocks[b].defaults->0.provenances@.len(),
    ensures
        symbol_detail::detail_readable(blocks[b], ordinal),
        symbol_detail::expanded_symbol(blocks[b], ordinal) == symbol_detail::symbol_text(
            all_symbols(snapshots)[ordinal as int],
        ),
        symbol_detail::expanded_provenance(blocks[b], ordinal)
            == blocks[b].defaults->0.provenances@[symbol_detail::named_provenance(
            all_symbols(snapshots)[ordinal as int],
        )],
{
    let (k, c) = lemma_block_position(blocks, snapshots, b);
    let first = all_symbols(snapshots.take(k)).len() + c * 256;
    let symbols = snapshots[k].symbols@;
    let part = block_symbols(symbols, c);
    let end = if (c + 1) * 256 < symbols.len() {
        (c + 1) * 256
    } else {
        symbols.len() as int
    };
    lemma_fewer_strings(symbols, c * 256, end);
    assert(part[ordinal - first] == all_symbols(snapshots)[ordinal as int]);
    symbol_detail::law_detail_round_trip(blocks[b], snapshots[k], part, first as int, ordinal);
}

/// One section before it is placed: its bytes as they are stored, how they are
/// compressed, and the ordinals that a detail block covers.
#[derive(Debug, Clone, PartialEq, Eq)]
pub struct SectionPayload {
    pub kind: ArtifactBlobSectionKind,
    pub bytes: Vec<u8>,
    pub compression: i32,
    pub symbol_ordinal_start: u32,
    pub symbol_ordinal_end: u32,
}

/// The encoded messages of a plan and the encoded graph.
#[derive(Debug, Clone, PartialEq, Eq)]
pub struct EncodedSections {
    pub dictionary: Vec<u8>,
    pub postings: Vec<u8>,
    pub hierarchy: Vec<u8>,
    pub directory: Vec<u8>,
    pub graph: Vec<u8>,
    pub blocks: Vec<EncodedBlock>,
}

/// One encoded detail block with the ordinals it covers.
#[derive(Debug, Clone, PartialEq, Eq)]
pub struct EncodedBlock {
    pub bytes: Vec<u8>,
    pub symbol_ordinal_start: u32,
    pub symbol_ordinal_end: u32,
}

impl EncodedBlock {
    /// Puts an encoded detail block beside the ordinals that it covers.
    pub fn of(block: &ArtifactSymbolDetailBlock, bytes: Vec<u8>) -> (result: Self)
        requires
            block.first_symbol_ordinal + block.entries@.len() <= u32::MAX,
        ensures
            result.bytes@ == bytes@,
            result.covers_block(*block),
    {
        EncodedBlock {
            bytes,
            symbol_ordinal_start: block.first_symbol_ordinal,
            symbol_ordinal_end: block.first_symbol_ordinal + block.entries.len() as u32,
        }
    }

    /// Whether the ordinals are the ones of a block.
    pub open spec fn covers_block(&self, block: ArtifactSymbolDetailBlock) -> bool {
        &&& self.symbol_ordinal_start == block.first_symbol_ordinal
        &&& self.symbol_ordinal_end == block.first_symbol_ordinal + block.entries@.len()
    }
}

/// Whether encoded blocks cover the ordinals of detail blocks, one by one.
pub open spec fn cover_blocks(
    encoded: Seq<EncodedBlock>,
    blocks: Seq<ArtifactSymbolDetailBlock>,
) -> bool {
    &&& encoded.len() == blocks.len()
    &&& forall|i: int| 0 <= i < blocks.len() ==> (#[trigger] encoded[i]).covers_block(blocks[i])
}

/// Whether a payload is a plain section of a kind.
pub open spec fn is_plain_section(
    payload: SectionPayload,
    kind: ArtifactBlobSectionKind,
    bytes: Seq<u8>,
) -> bool {
    &&& payload.kind == kind
    &&& payload.bytes@ == bytes
    &&& payload.compression == 0
    &&& payload.symbol_ordinal_start == 0
    &&& payload.symbol_ordinal_end == 0
}

/// Whether the first payloads are the sections of the four tables and of the
/// compressed graph.
pub open spec fn are_tables_of(payloads: Seq<SectionPayload>, encoded: EncodedSections) -> bool {
    &&& is_plain_section(
        payloads[0],
        ArtifactBlobSectionKind::SymbolDictionary,
        encoded.dictionary@,
    )
    &&& is_plain_section(payloads[1], ArtifactBlobSectionKind::SymbolPostings, encoded.postings@)
    &&& is_plain_section(
        payloads[2],
        ArtifactBlobSectionKind::HierarchyPostings,
        encoded.hierarchy@,
    )
    &&& is_plain_section(
        payloads[3],
        ArtifactBlobSectionKind::QualifiedSymbolDirectory,
        encoded.directory@,
    )
    &&& payloads[4].kind == ArtifactBlobSectionKind::GraphFacts
    &&& payloads[4].bytes@ == gzipped(encoded.graph@)
    &&& gunzipped(payloads[4].bytes@) == Ok::<Seq<u8>, Seq<char>>(encoded.graph@)
    &&& payloads[4].compression == 1
    &&& payloads[4].symbol_ordinal_start == 0
    &&& payloads[4].symbol_ordinal_end == 0
}

/// Whether payloads are the sections of encoded messages, in their order: the
/// four tables, the compressed graph, the detail blocks.
pub open spec fn are_payloads_of(payloads: Seq<SectionPayload>, encoded: EncodedSections) -> bool {
    &&& payloads.len() == 5 + encoded.blocks@.len()
    &&& are_tables_of(payloads, encoded)
    &&& forall|i: int|
        0 <= i < encoded.blocks@.len() ==> {
            &&& (#[trigger] payloads[5 + i]).kind == ArtifactBlobSectionKind::SymbolDetailBlock
            &&& payloads[5 + i].bytes@ == encoded.blocks@[i].bytes@
            &&& payloads[5 + i].compression == 0
            &&& payloads[5 + i].symbol_ordinal_start == encoded.blocks@[i].symbol_ordinal_start
            &&& payloads[5 + i].symbol_ordinal_end == encoded.blocks@[i].symbol_ordinal_end
        }
}

fn plain_section(kind: ArtifactBlobSectionKind, bytes: &[u8]) -> (result: SectionPayload)
    ensures
        is_plain_section(result, kind, bytes@),
{
    SectionPayload {
        kind,
        bytes: copied(bytes),
        compression: 0,
        symbol_ordinal_start: 0,
        symbol_ordinal_end: 0,
    }
}

fn copied(bytes: &[u8]) -> (result: Vec<u8>)
    ensures
        result@ == bytes@,
{
    let mut result: Vec<u8> = Vec::new();
    digest::append_bytes(&mut result, bytes);
    assert(result@ =~= bytes@);
    result
}

/// Puts encoded messages into sections. Only the graph is compressed.
pub fn section_payloads(encoded: &EncodedSections) -> (result: Vec<SectionPayload>)
    ensures
        are_payloads_of(result@, *encoded),
{
    let mut payloads: Vec<SectionPayload> = Vec::new();
    payloads.push(
        plain_section(ArtifactBlobSectionKind::SymbolDictionary, encoded.dictionary.as_slice()),
    );
    payloads.push(
        plain_section(ArtifactBlobSectionKind::SymbolPostings, encoded.postings.as_slice()),
    );
    payloads.push(
        plain_section(ArtifactBlobSectionKind::HierarchyPostings, encoded.hierarchy.as_slice()),
    );
    payloads.push(
        plain_section(
            ArtifactBlobSectionKind::QualifiedSymbolDirectory,
            encoded.directory.as_slice(),
        ),
    );
    payloads.push(
        SectionPayload {
            kind: ArtifactBlobSectionKind::GraphFacts,
            bytes: gzip(encoded.graph.as_slice()),
            compression: 1,
            symbol_ordinal_start: 0,
            symbol_ordinal_end: 0,
        },
    );
    let mut i: usize = 0;
    while i < encoded.blocks.len()
        invariant
            i <= encoded.blocks@.len(),
            payloads@.len() == 5 + i,
            are_tables_of(payloads@, *encoded),
            forall|j: int|
                0 <= j < i ==> {
                    &&& (#[trigger] payloads@[5 + j]).kind
                        == ArtifactBlobSectionKind::SymbolDetailBlock
                    &&& payloads@[5 + j].bytes@ == encoded.blocks@[j].bytes@
                    &&& payloads@[5 + j].compression == 0
                    &&& payloads@[5 + j].symbol_ordinal_start
                        == encoded.blocks@[j].symbol_ordinal_start
                    &&& payloads@[5 + j].symbol_ordinal_end
                        == encoded.blocks@[j].symbol_ordinal_end
                },
        decreases encoded.blocks@.len() - i,
    {
        payloads.push(
            SectionPayload {
                kind: ArtifactBlobSectionKind::SymbolDetailBlock,
                bytes: copied(encoded.blocks[i].bytes.as_slice()),
                compression: 0,
                symbol_ordinal_start: encoded.blocks[i].symbol_ordinal_start,
                symbol_ordinal_end: encoded.blocks[i].symbol_ordinal_end,
            },
        );
        i = i + 1;
    }
    payloads
}

/// The bytes of all sections, one after the other.
pub open spec fn section_bytes(payloads: Seq<SectionPayload>) -> Seq<u8>
    decreases payloads.len(),
{
    if payloads.len() == 0 {
        Seq::empty()
    } else {
        section_bytes(payloads.drop_last()) + payloads.last().bytes@
    }
}

/// Whether a table entry places a payload at an offset.
pub open spec fn places(section: ArtifactBlobSection, payload: SectionPayload, offset: int) -> bool {
    &&& section.kind == Some(payload.kind)
    &&& section.offset == offset
    &&& section.length == payload.bytes@.len()
    &&& section.sha256@ == digest::sha256_digest(payload.bytes@)
    &&& section.sha256@.len() == 32
    &&& section.compression == payload.compression
    &&& section.symbol_ordinal_start == payload.symbol_ordinal_start
    &&& section.symbol_ordinal_end == payload.symbol_ordinal_end
}

/// Whether a table of contents places payloads one after the other behind a
/// header and a table of this encoded length.
pub open spec fn is_toc_of(
    toc: ArtifactBlobToc,
    payloads: Seq<SectionPayload>,
    toc_length: int,
) -> bool {
    &&& toc.layout_version == ARTIFACT_BLOB_LAYOUT_VERSION
    &&& toc.sections@.len() == payloads.len()
    &&& forall|i: int|
        0 <= i < payloads.len() ==> places(
            #[trigger] toc.sections@[i],
            payloads[i],
            LAYOUT_HEADER_SIZE + toc_length + section_bytes(payloads.take(i)).len(),
        )
}

proof fn lemma_section_prefix(payloads: Seq<SectionPayload>, i: int)
    requires
        0 <= i < payloads.len(),
    ensures
        section_bytes(payloads.take(i)).len() + payloads[i].bytes@.len() <= section_bytes(
            payloads,
        ).len(),
        section_bytes(payloads).subrange(
            section_bytes(payloads.take(i)).len() as int,
            (section_bytes(payloads.take(i)).len() + payloads[i].bytes@.len()) as int,
        ) == payloads[i].bytes@,
    decreases payloads.len(),
{
    let rest = payloads.drop_last();
    let all = section_bytes(payloads);
    if i == payloads.len() - 1 {
        assert(payloads.take(i) =~= rest);
        assert(all.subrange(section_bytes(rest).len() as int, all.len() as int)
            =~= payloads.last().bytes@);
    } else {
        lemma_section_prefix(rest, i);
        assert(rest.take(i) =~= payloads.take(i));
        let start = section_bytes(payloads.take(i)).len() as int;
        let end = start + payloads[i].bytes@.len();
        assert(all.subrange(start, end) =~= section_bytes(rest).subrange(start, end));
    }
}

/// Places payloads behind a header and a table of this encoded length. The
/// length of a table depends on the offsets in it, so a writer repeats this
/// with the length that it got until the length stays.
pub fn place_sections(payloads: &[SectionPayload], toc_length: usize) -> (result: ArtifactBlobToc)
    requires
        LAYOUT_HEADER_SIZE + toc_length + section_bytes(payloads@).len() <= u64::MAX,
    ensures
        is_toc_of(result, payloads@, toc_length as int),
{
    let mut sections: Vec<ArtifactBlobSection> = Vec::new();
    let mut offset: u64 = LAYOUT_HEADER_SIZE as u64 + toc_length as u64;
    let mut i: usize = 0;
    while i < payloads.len()
        invariant
            LAYOUT_HEADER_SIZE + toc_length + section_bytes(payloads@).len() <= u64::MAX,
            i <= payloads@.len(),
            offset == LAYOUT_HEADER_SIZE + toc_length + section_bytes(payloads@.take(i as int)).len(),
            sections@.len() == i,
            forall|j: int|
                0 <= j < i ==> places(
                    #[trigger] sections@[j],
                    payloads@[j],
                    LAYOUT_HEADER_SIZE + toc_length + section_bytes(payloads@.take(j)).len(),
                ),
        decreases payloads@.len() - i,
    {
        let payload = &payloads[i];
        sections.push(
            ArtifactBlobSection {
                kind: Some(payload.kind),
                offset,
                length: payload.bytes.len() as u64,
                sha256: digest::sha256(payload.bytes.as_slice()),
                compression: payload.compression,
                symbol_ordinal_start: payload.symbol_ordinal_start,
                symbol_ordinal_end: payload.symbol_ordinal_end,
            },
        );
        proof {
            lemma_section_prefix(payloads@, i as int);
            assert(payloads@.take(i + 1).drop_last() =~= payloads@.take(i as int));
        }
        offset = offset + payload.bytes.len() as u64;
        i = i + 1;
    }
    ArtifactBlobToc { layout_version: ARTIFACT_BLOB_LAYOUT_VERSION, sections }
}

/// Whether an encoded table of contents is the one that places payloads behind
/// a table of its own length.
pub open spec fn is_settled<F: Fn(&ArtifactBlobToc) -> Vec<u8>>(
    encode: F,
    payloads: Seq<SectionPayload>,
    encoded: Vec<u8>,
) -> bool {
    exists|toc: ArtifactBlobToc|
        is_toc_of(toc, payloads, encoded@.len() as int) && #[trigger] call_ensures(
            encode,
            (&toc,),
            encoded,
        )
}

/// Whether an encoding of a table is shorter than the one that the table was
/// placed for, or leaves no room for the sections.
pub open spec fn outgrows<F: Fn(&ArtifactBlobToc) -> Vec<u8>>(
    encode: F,
    payloads: Seq<SectionPayload>,
    toc: ArtifactBlobToc,
    toc_length: int,
    encoded: Vec<u8>,
) -> bool {
    &&& call_ensures(encode, (&toc,), encoded)
    &&& toc.layout_version == ARTIFACT_BLOB_LAYOUT_VERSION
    &&& toc.sections@.len() == 0 || is_toc_of(toc, payloads, toc_length)
    &&& encoded@.len() < toc_length || LAYOUT_HEADER_SIZE + encoded@.len() + section_bytes(
        payloads,
    ).len() > usize::MAX
}

fn total_length(payloads: &[SectionPayload]) -> (result: Option<usize>)
    ensures
        match result {
            Some(total) => total == section_bytes(payloads@).len(),
            None => section_bytes(payloads@).len() > usize::MAX,
        },
{
    let mut total: usize = 0;
    let mut i: usize = 0;
    while i < payloads.len()
        invariant
            i <= payloads@.len(),
            total == section_bytes(payloads@.take(i as int)).len(),
        decreases payloads@.len() - i,
    {
        proof {
            lemma_section_prefix(payloads@, i as int);
            assert(payloads@.take(i + 1).drop_last() =~= payloads@.take(i as int));
        }
        match total.checked_add(payloads[i].bytes.len()) {
            Some(sum) => {
                total = sum;
            },
            None => {
                return None;
            },
        }
        i = i + 1;
    }
    assert(payloads@.take(i as int) =~= payloads@);
    Some(total)
}

/// Encodes the table of contents that places payloads behind itself. The
/// offsets in a table depend on its encoded length, so it is placed again with
/// the length that it got until the length stays. An encoding that shrinks when
/// offsets grow, or that leaves no room for the sections, does not settle.
pub fn settle_toc<F: Fn(&ArtifactBlobToc) -> Vec<u8>>(
    payloads: &[SectionPayload],
    encode: F,
) -> (result: Option<Vec<u8>>)
    requires
        forall|toc: ArtifactBlobToc| #[trigger] call_requires(encode, (&toc,)),
    ensures
        match result {
            Some(encoded) => is_settled(encode, payloads@, encoded) && LAYOUT_HEADER_SIZE
                + encoded@.len() + section_bytes(payloads@).len() <= usize::MAX,
            None => exists|toc: ArtifactBlobToc, toc_length: int, encoded: Vec<u8>| #[trigger]
                outgrows(encode, payloads@, toc, toc_length, encoded),
        },
{
    let empty = ArtifactBlobToc {
        layout_version: ARTIFACT_BLOB_LAYOUT_VERSION,
        sections: Vec::new(),
    };
    let mut encoded = encode(&empty);
    let total = total_length(payloads);
    let mut length: usize = 0;
    let ghost mut last = empty;
    loop
        invariant
            forall|toc: ArtifactBlobToc| #[trigger] call_requires(encode, (&toc,)),
            match total {
                Some(total) => total == section_bytes(payloads@).len(),
                None => section_bytes(payloads@).len() > usize::MAX,
            },
            call_ensures(encode, (&last,), encoded),
            last.layout_version == ARTIFACT_BLOB_LAYOUT_VERSION,
            last.sections@.len() == 0 || is_toc_of(last, payloads@, length as int),
            length <= encoded@.len(),
        decreases usize::MAX - encoded@.len(),
    {
        let ghost placed = length;
        length = encoded.len();
        let fits: bool = match total {
            Some(total) => match total.checked_add(LAYOUT_HEADER_SIZE) {
                Some(sum) => sum.checked_add(length).is_some(),
                None => false,
            },
            None => false,
        };
        if !fits {
            assert(outgrows(encode, payloads@, last, placed as int, encoded));
            return None;
        }
        let toc = place_sections(payloads, length);
        let next = encode(&toc);
        if next.len() == length {
            assert(is_settled(encode, payloads@, next));
            return Some(next);
        }
        if next.len() < length {
            assert(outgrows(encode, payloads@, toc, length as int, next));
            return None;
        }
        proof {
            last = toc;
        }
        encoded = next;
    }
}

/// The eight bytes that every blob begins with.
pub open spec fn layout_magic() -> Seq<u8> {
    seq![0x4bu8, 0x49u8, 0x44u8, 0x45u8, 0x4au8, 0x56u8, 0x4du8, 0x31u8]
}

/// The header: magic, layout version, offset and length of the table.
pub open spec fn layout_header(version: u32, toc_offset: u64, toc_length: u64) -> Seq<u8> {
    layout_magic() + vstd::bytes::spec_u32_to_le_bytes(version)
        + vstd::bytes::spec_u64_to_le_bytes(toc_offset) + vstd::bytes::spec_u64_to_le_bytes(
        toc_length,
    )
}

fn encode_layout_header(version: u32, toc_offset: u64, toc_length: u64) -> (result: Vec<u8>)
    ensures
        result@ == layout_header(version, toc_offset, toc_length),
        result@.len() == LAYOUT_HEADER_SIZE,
{
    proof {
        vstd::bytes::lemma_auto_spec_u32_to_from_le_bytes();
        vstd::bytes::lemma_auto_spec_u64_to_from_le_bytes();
    }
    let mut header: Vec<u8> = vec![0x4b, 0x49, 0x44, 0x45, 0x4a, 0x56, 0x4d, 0x31];
    assert(header@ =~= layout_magic());
    digest::append_bytes(&mut header, vstd::bytes::u32_to_le_bytes(version).as_slice());
    digest::append_bytes(&mut header, vstd::bytes::u64_to_le_bytes(toc_offset).as_slice());
    digest::append_bytes(&mut header, vstd::bytes::u64_to_le_bytes(toc_length).as_slice());
    header
}

/// Whether a header is well formed and of this layout version.
pub open spec fn header_has_version(header: Seq<u8>, version: u32) -> bool {
    exists|offset: u64, length: u64| header == #[trigger] layout_header(version, offset, length)
}

/// Where the encoded table of contents stands.
#[derive(Debug, Clone, Copy, PartialEq, Eq, Structural)]
pub struct TocLocation {
    pub offset: u64,
    pub length: usize,
}

/// Reads the place of the table of contents out of a header. A header of
/// another length, magic or table offset is invalid; another version is
/// unsupported.
pub fn toc_location(header: &[u8]) -> (result: Result<TocLocation, ArtifactBlobLayoutError>)
    ensures
        result matches Ok(location) ==> location.offset == LAYOUT_HEADER_SIZE && header@
            == layout_header(
            ARTIFACT_BLOB_LAYOUT_VERSION,
            LAYOUT_HEADER_SIZE as u64,
            location.length as u64,
        ),
        result matches Err(error) ==> match error {
            ArtifactBlobLayoutError::UnsupportedVersion(version) => version
                != ARTIFACT_BLOB_LAYOUT_VERSION && header_has_version(header@, version),
            ArtifactBlobLayoutError::InvalidHeader => (forall|version: u32, offset: u64, length: u64|
                header@ == #[trigger] layout_header(version, offset, length) ==> version
                    == ARTIFACT_BLOB_LAYOUT_VERSION && (offset != LAYOUT_HEADER_SIZE || length
                    > usize::MAX)),
            _ => false,
        },
{
    proof {
        vstd::bytes::lemma_auto_spec_u32_to_from_le_bytes();
        vstd::bytes::lemma_auto_spec_u64_to_from_le_bytes();
    }
    if header.len() != LAYOUT_HEADER_SIZE {
        return Err(ArtifactBlobLayoutError::InvalidHeader);
    }
    let version_bytes = &header[8..12];
    let offset_bytes = &header[12..20];
    let length_bytes = &header[20..28];
    let version: u32 = vstd::bytes::u32_from_le_bytes(version_bytes);
    let toc_offset: u64 = vstd::bytes::u64_from_le_bytes(offset_bytes);
    let toc_length: u64 = vstd::bytes::u64_from_le_bytes(length_bytes);
    let expected = encode_layout_header(version, toc_offset, toc_length);
    assert forall|v: u32, o: u64, n: u64| header@ == #[trigger] layout_header(v, o, n) implies v
        == version && o == toc_offset && n == toc_length by {
        assert(version_bytes@ =~= vstd::bytes::spec_u32_to_le_bytes(v));
        assert(offset_bytes@ =~= vstd::bytes::spec_u64_to_le_bytes(o));
        assert(length_bytes@ =~= vstd::bytes::spec_u64_to_le_bytes(n));
    }
    if !digest::same_bytes(header, expected.as_slice()) {
        return Err(ArtifactBlobLayoutError::InvalidHeader);
    }
    assert(header@ == layout_header(version, toc_offset, toc_length));
    assert(header_has_version(header@, version));
    if version != ARTIFACT_BLOB_LAYOUT_VERSION {
        return Err(ArtifactBlobLayoutError::UnsupportedVersion(version));
    }
    if toc_offset != LAYOUT_HEADER_SIZE as u64 {
        return Err(ArtifactBlobLayoutError::InvalidHeader);
    }
    if toc_length > usize::MAX as u64 {
        return Err(ArtifactBlobLayoutError::InvalidHeader);
    }
    Ok(TocLocation { offset: toc_offset, length: toc_length as usize })
}

/// Whether a section lies behind the table and inside the payload, and has a
/// digest of the right length.
pub open spec fn section_fits(section: ArtifactBlobSection, toc_end: int, payload_len: int) -> bool {
    &&& toc_end <= section.offset
    &&& section.offset + section.length <= payload_len
    &&& section.sha256@.len() == 32
}

/// Whether all sections fit.
pub open spec fn sections_fit(
    sections: Seq<ArtifactBlobSection>,
    toc_end: int,
    payload_len: int,
) -> bool {
    forall|i: int|
        0 <= i < sections.len() ==> section_fits(#[trigger] sections[i], toc_end, payload_len)
}

/// What a table of contents at this place is answered: its own length and end
/// first, then whether it was decoded, then its version, then its sections.
pub open spec fn toc_verdict(
    location: TocLocation,
    payload_len: u64,
    toc_bytes_len: nat,
    toc: Result<ArtifactBlobToc, String>,
) -> Option<ArtifactBlobLayoutError> {
    let toc_end = location.offset + location.length;
    if toc_end > u64::MAX || toc_bytes_len != location.length || toc_end > payload_len {
        Some(ArtifactBlobLayoutError::InvalidHeader)
    } else {
        match toc {
            Err(cause) => Some(ArtifactBlobLayoutError::Decode(cause)),
            Ok(toc) => if toc.layout_version != ARTIFACT_BLOB_LAYOUT_VERSION {
                Some(ArtifactBlobLayoutError::UnsupportedVersion(toc.layout_version))
            } else if !sections_fit(toc.sections@, toc_end, payload_len as int) {
                Some(ArtifactBlobLayoutError::InvalidHeader)
            } else {
                None
            },
        }
    }
}

/// Computes `toc_verdict` for a table of contents, where it could be decoded.
pub fn check_toc(
    location: TocLocation,
    payload_len: u64,
    toc_bytes_len: usize,
    toc: &Result<ArtifactBlobToc, String>,
) -> (result: Result<(), ArtifactBlobLayoutError>)
    ensures
        result == (match toc_verdict(location, payload_len, toc_bytes_len as nat, *toc) {
            Some(error) => Err(error),
            None => Ok(()),
        }),
{
    let toc_end: u64 = match location.offset.checked_add(location.length as u64) {
        Some(end) => end,
        None => {
            return Err(ArtifactBlobLayoutError::InvalidHeader);
        },
    };
    if toc_bytes_len != location.length || toc_end > payload_len {
        return Err(ArtifactBlobLayoutError::InvalidHeader);
    }
    let table = match toc {
        Ok(table) => table,
        Err(cause) => {
            return Err(ArtifactBlobLayoutError::Decode(cause.clone()));
        },
    };
    if table.layout_version != ARTIFACT_BLOB_LAYOUT_VERSION {
        return Err(ArtifactBlobLayoutError::UnsupportedVersion(table.layout_version));
    }
    let mut i: usize = 0;
    while i < table.sections.len()
        invariant
            *toc == Ok::<ArtifactBlobToc, String>(*table),
            i <= table.sections@.len(),
            toc_end == location.offset + location.length,
            toc_bytes_len == location.length,
            toc_end <= payload_len,
            table.layout_version == ARTIFACT_BLOB_LAYOUT_VERSION,
            forall|j: int|
                0 <= j < i ==> section_fits(
                    #[trigger] table.sections@[j],
                    toc_end as int,
                    payload_len as int,
                ),
        decreases table.sections@.len() - i,
    {
        let section = &table.sections[i];
        let fits: bool = match section.offset.checked_add(section.length) {
            Some(end) => section.offset >= toc_end && end <= payload_len && section.sha256.len()
                == 32,
            None => false,
        };
        if !fits {
            assert(!section_fits(
                table.sections@[i as int],
                toc_end as int,
                payload_len as int,
            ));
            return Err(ArtifactBlobLayoutError::InvalidHeader);
        }
        i = i + 1;
    }
    Ok(())
}

/// The position of the first section of a kind; the length, where none is.
pub open spec fn first_of_kind(
    sections: Seq<ArtifactBlobSection>,
    kind: ArtifactBlobSectionKind,
) -> int
    decreases sections.len(),
{
    if sections.len() == 0 || sections[0].kind == Some(kind) {
        0
    } else {
        1 + first_of_kind(sections.drop_first(), kind)
    }
}

/// Whether a section is the detail block of an ordinal.
pub open spec fn covers(section: ArtifactBlobSection, ordinal: u32) -> bool {
    section.kind == Some(ArtifactBlobSectionKind::SymbolDetailBlock) && section.symbol_ordinal_start
        <= ordinal < section.symbol_ordinal_end
}

/// The position of the first detail block of an ordinal; the length, where
/// none is.
pub open spec fn first_covering(sections: Seq<ArtifactBlobSection>, ordinal: u32) -> int
    decreases sections.len(),
{
    if sections.len() == 0 || covers(sections[0], ordinal) {
        0
    } else {
        1 + first_covering(sections.drop_first(), ordinal)
    }
}

proof fn lemma_first_of_kind(
    sections: Seq<ArtifactBlobSection>,
    kind: ArtifactBlobSectionKind,
    p: int,
)
    requires
        0 <= p <= sections.len(),
        forall|i: int| 0 <= i < p ==> (#[trigger] sections[i]).kind != Some(kind),
        p < sections.len() ==> sections[p].kind == Some(kind),
    ensures
        first_of_kind(sections, kind) == p,
    decreases p,
{
    if p > 0 {
        assert(sections[0].kind != Some(kind));
        let rest = sections.drop_first();
        assert forall|i: int| 0 <= i < p - 1 implies (#[trigger] rest[i]).kind != Some(kind) by {
            assert(rest[i] == sections[i + 1]);
        }
        lemma_first_of_kind(rest, kind, p - 1);
    }
}

proof fn lemma_first_covering(sections: Seq<ArtifactBlobSection>, ordinal: u32, p: int)
    requires
        0 <= p <= sections.len(),
        forall|i: int| 0 <= i < p ==> !covers(#[trigger] sections[i], ordinal),
        p < sections.len() ==> covers(sections[p], ordinal),
    ensures
        first_covering(sections, ordinal) == p,
    decreases p,
{
    if p > 0 {
        assert(!covers(sections[0], ordinal));
        let rest = sections.drop_first();
        assert forall|i: int| 0 <= i < p - 1 implies !covers(#[trigger] rest[i], ordinal) by {
            assert(rest[i] == sections[i + 1]);
        }
        lemma_first_covering(rest, ordinal, p - 1);
    }
}

fn find_section(sections: &[ArtifactBlobSection], kind: ArtifactBlobSectionKind) -> (result: Result<
    usize,
    ArtifactBlobLayoutError,
>)
    ensures
        match result {
            Ok(position) => position == first_of_kind(sections@, kind) && position < sections@.len(),
            Err(error) => first_of_kind(sections@, kind) == sections@.len() && error
                == ArtifactBlobLayoutError::MissingSection(kind),
        },
{
    let mut i: usize = 0;
    while i < sections.len()
        invariant
            i <= sections@.len(),
            forall|j: int| 0 <= j < i ==> (#[trigger] sections@[j]).kind != Some(kind),
        decreases sections@.len() - i,
    {
        let found: bool = match sections[i].kind {
            Some(other) => other == kind,
            None => false,
        };
        if found {
            proof {
                lemma_first_of_kind(sections@, kind, i as int);
            }
            return Ok(i);
        }
        i = i + 1;
    }
    proof {
        lemma_first_of_kind(sections@, kind, i as int);
    }
    Err(ArtifactBlobLayoutError::MissingSection(kind))
}

fn find_detail_section(sections: &[ArtifactBlobSection], ordinal: u32) -> (result: Result<
    usize,
    ArtifactBlobLayoutError,
>)
    ensures
        match result {
            Ok(position) => position == first_covering(sections@, ordinal) && position
                < sections@.len(),
            Err(error) => first_covering(sections@, ordinal) == sections@.len() && error
                == ArtifactBlobLayoutError::MissingSection(
                ArtifactBlobSectionKind::SymbolDetailBlock,
            ),
        },
{
    let mut i: usize = 0;
    while i < sections.len()
        invariant
            i <= sections@.len(),
            forall|j: int| 0 <= j < i ==> !covers(#[trigger] sections@[j], ordinal),
        decreases sections@.len() - i,
    {
        let detail: bool = match sections[i].kind {
            Some(kind) => kind == ArtifactBlobSectionKind::SymbolDetailBlock,
            None => false,
        };
        if detail && sections[i].symbol_ordinal_start <= ordinal && ordinal
            < sections[i].symbol_ordinal_end {
            proof {
                lemma_first_covering(sections@, ordinal, i as int);
            }
            return Ok(i);
        }
        i = i + 1;
    }
    proof {
        lemma_first_covering(sections@, ordinal, i as int);
    }
    Err(ArtifactBlobLayoutError::MissingSection(ArtifactBlobSectionKind::SymbolDetailBlock))
}

/// What stored bytes of a section hold.
pub open spec fn decompressed(bytes: Seq<u8>, compression: i32) -> Result<
    Seq<u8>,
    ArtifactBlobLayoutErrorView,
> {
    if compression == 0 {
        Ok(bytes)
    } else if compression == 1 {
        match gunzipped(bytes) {
            Ok(content) => Ok(content),
            Err(cause) => Err(ArtifactBlobLayoutErrorView::Gzip(cause)),
        }
    } else {
        Err(ArtifactBlobLayoutErrorView::UnsupportedCompression(compression))
    }
}

/// Whether a result holds what is expected.
pub open spec fn is_bytes_result(
    result: Result<Vec<u8>, ArtifactBlobLayoutError>,
    expected: Result<Seq<u8>, ArtifactBlobLayoutErrorView>,
) -> bool {
    match (result, expected) {
        (Ok(bytes), Ok(wanted)) => bytes@ == wanted,
        (Err(error), Err(wanted)) => error@ == wanted,
        _ => false,
    }
}

/// Computes `decompressed`.
pub fn decompress_section(bytes: &[u8], compression: i32) -> (result: Result<
    Vec<u8>,
    ArtifactBlobLayoutError,
>)
    ensures
        is_bytes_result(result, decompressed(bytes@, compression)),
{
    if compression == 0 {
        Ok(copied(bytes))
    } else if compression == 1 {
        match gunzip(bytes) {
            Ok(content) => Ok(content),
            Err(cause) => Err(ArtifactBlobLayoutError::Gzip(cause)),
        }
    } else {
        Err(ArtifactBlobLayoutError::UnsupportedCompression(compression))
    }
}

/// What the bytes that were read for a section hold, once their digest is
/// found to be the one in the table.
pub open spec fn checked_content(section: ArtifactBlobSection, bytes: Seq<u8>) -> Result<
    Seq<u8>,
    ArtifactBlobLayoutErrorView,
> {
    if section.sha256@ != digest::sha256_digest(bytes) {
        Err(ArtifactBlobLayoutErrorView::ChecksumMismatch)
    } else {
        decompressed(bytes, section.compression)
    }
}

fn check_content(section: &ArtifactBlobSection, bytes: &[u8]) -> (result: Result<
    Vec<u8>,
    ArtifactBlobLayoutError,
>)
    ensures
        is_bytes_result(result, checked_content(*section, bytes@)),
{
    if !digest::same_bytes(section.sha256.as_slice(), digest::sha256(bytes).as_slice()) {
        return Err(ArtifactBlobLayoutError::ChecksumMismatch);
    }
    decompress_section(bytes, section.compression)
}

/// Where in a cache file a section begins, and its length. A length that cannot
/// be addressed makes the header invalid.
pub open spec fn range_of(blob: ArtifactBlob, section: ArtifactBlobSection) -> Result<
    (u64, usize),
    ArtifactBlobLayoutError,
> {
    if section.length > usize::MAX {
        Err(ArtifactBlobLayoutError::InvalidHeader)
    } else if section.offset + section.length > blob.payload_len {
        Err(ArtifactBlobLayoutError::Cache(ArtifactBlobCacheError::InvalidHeader))
    } else {
        Ok(((BLOB_HEADER_SIZE + section.offset) as u64, section.length as usize))
    }
}

fn locate_range(blob: &ArtifactBlob, section: &ArtifactBlobSection) -> (result: Result<
    (u64, usize),
    ArtifactBlobLayoutError,
>)
    requires
        blob.payload_len + BLOB_HEADER_SIZE <= u64::MAX,
    ensures
        result == range_of(*blob, *section),
{
    if section.length > usize::MAX as u64 {
        return Err(ArtifactBlobLayoutError::InvalidHeader);
    }
    let length: usize = section.length as usize;
    match blob.read_range(section.offset, length) {
        Ok(position) => Ok((position, length)),
        Err(error) => Err(ArtifactBlobLayoutError::Cache(error)),
    }
}

/// A table of contents read from a cache file without its graph payload.
#[derive(Debug, Clone, PartialEq, Eq)]
pub struct ArtifactBlobSections {
    toc: ArtifactBlobToc,
}

impl View for ArtifactBlobSections {
    type V = Seq<ArtifactBlobSection>;

    closed spec fn view(&self) -> Seq<ArtifactBlobSection> {
        self.toc.sections@
    }
}

impl ArtifactBlobSections {
    /// Takes a table of contents, if it was decoded and fits the payload it
    /// came from.
    pub fn open(
        location: TocLocation,
        payload_len: u64,
        toc_bytes_len: usize,
        toc: Result<ArtifactBlobToc, String>,
    ) -> (result: Result<Self, ArtifactBlobLayoutError>)
        ensures
            match toc_verdict(location, payload_len, toc_bytes_len as nat, toc) {
                Some(error) => result == Err::<Self, ArtifactBlobLayoutError>(error),
                None => result is Ok && result->Ok_0@ == toc->Ok_0.sections@,
            },
    {
        match check_toc(location, payload_len, toc_bytes_len, &toc) {
            Ok(()) => match toc {
                Ok(toc) => Ok(ArtifactBlobSections { toc }),
                Err(cause) => Err(ArtifactBlobLayoutError::Decode(cause)),
            },
            Err(error) => Err(error),
        }
    }

    /// The table entry of the first section of a kind.
    pub fn section(&self, kind: ArtifactBlobSectionKind) -> (result: Result<
        &ArtifactBlobSection,
        ArtifactBlobLayoutError,
    >)
        ensures
            match result {
                Ok(section) => first_of_kind(self@, kind) < self@.len() && *section
                    == self@[first_of_kind(self@, kind)],
                Err(error) => first_of_kind(self@, kind) == self@.len() && error
                    == ArtifactBlobLayoutError::MissingSection(kind),
            },
    {
        match find_section(self.toc.sections.as_slice(), kind) {
            Ok(position) => Ok(&self.toc.sections[position]),
            Err(error) => Err(error),
        }
    }

    /// Where in the cache file the first section of a kind begins, and its
    /// length.
    pub fn section_range(&self, blob: &ArtifactBlob, kind: ArtifactBlobSectionKind) -> (result:
        Result<(u64, usize), ArtifactBlobLayoutError>)
        requires
            blob.payload_len + BLOB_HEADER_SIZE <= u64::MAX,
        ensures
            result == (if first_of_kind(self@, kind) == self@.len() {
                Err(ArtifactBlobLayoutError::MissingSection(kind))
            } else {
                range_of(*blob, self@[first_of_kind(self@, kind)])
            }),
    {
        match self.section(kind) {
            Ok(section) => locate_range(blob, section),
            Err(error) => Err(error),
        }
    }

    /// Where in the cache file the detail block of an ordinal begins, and its
    /// length.
    pub fn detail_range(&self, blob: &ArtifactBlob, ordinal: u32) -> (result: Result<
        (u64, usize),
        ArtifactBlobLayoutError,
    >)
        requires
            blob.payload_len + BLOB_HEADER_SIZE <= u64::MAX,
        ensures
            result == (if first_covering(self@, ordinal) == self@.len() {
                Err(
                    ArtifactBlobLayoutError::MissingSection(
                        ArtifactBlobSectionKind::SymbolDetailBlock,
                    ),
                )
            } else {
                range_of(*blob, self@[first_covering(self@, ordinal)])
            }),
    {
        match self.detail_section(ordinal) {
            Ok(section) => locate_range(blob, section),
            Err(error) => Err(error),
        }
    }

    /// The content of the first section of a kind, given the bytes that were
    /// read for it.
    pub fn read_section(&self, kind: ArtifactBlobSectionKind, bytes: &[u8]) -> (result: Result<
        Vec<u8>,
        ArtifactBlobLayoutError,
    >)
        ensures
            first_of_kind(self@, kind) == self@.len() ==> is_bytes_result(
                result,
                Err(ArtifactBlobLayoutErrorView::MissingSection(kind)),
            ),
            first_of_kind(self@, kind) < self@.len() ==> is_bytes_result(
                result,
                checked_content(self@[first_of_kind(self@, kind)], bytes@),
            ),
    {
        match self.section(kind) {
            Ok(section) => check_content(section, bytes),
            Err(error) => Err(error),
        }
    }

    /// The table entry of the detail block that covers an ordinal.
    pub fn detail_section(&self, ordinal: u32) -> (result: Result<
        &ArtifactBlobSection,
        ArtifactBlobLayoutError,
    >)
        ensures
            match result {
                Ok(section) => first_covering(self@, ordinal) < self@.len() && *section
                    == self@[first_covering(self@, ordinal)],
                Err(error) => first_covering(self@, ordinal) == self@.len() && error
                    == ArtifactBlobLayoutError::MissingSection(
                    ArtifactBlobSectionKind::SymbolDetailBlock,
                ),
            },
    {
        match find_detail_section(self.toc.sections.as_slice(), ordinal) {
            Ok(position) => Ok(&self.toc.sections[position]),
            Err(error) => Err(error),
        }
    }

    /// The content of the detail block that covers an ordinal, given the bytes
    /// that were read for it.
    pub fn symbol_detail_block(&self, ordinal: u32, bytes: &[u8]) -> (result: Result<
        Vec<u8>,
        ArtifactBlobLayoutError,
    >)
        ensures
            first_covering(self@, ordinal) == self@.len() ==> is_bytes_result(
                result,
                Err(
                    ArtifactBlobLayoutErrorView::MissingSection(
                        ArtifactBlobSectionKind::SymbolDetailBlock,
                    ),
                ),
            ),
            first_covering(self@, ordinal) < self@.len() ==> is_bytes_result(
                result,
                checked_content(self@[first_covering(self@, ordinal)], bytes@),
            ),
    {
        match self.detail_section(ordinal) {
            Ok(section) => check_content(section, bytes),
            Err(error) => Err(error),
        }
    }

    /// Stable grouping key for all ordinals of the same detail block.
    pub fn symbol_detail_block_start(&self, ordinal: u32) -> (result: Result<
        u32,
        ArtifactBlobLayoutError,
    >)
        ensures
            match result {
                Ok(start) => first_covering(self@, ordinal) < self@.len() && start
                    == self@[first_covering(self@, ordinal)].symbol_ordinal_start,
                Err(error) => first_covering(self@, ordinal) == self@.len() && error
                    == ArtifactBlobLayoutError::MissingSection(
                    ArtifactBlobSectionKind::SymbolDetailBlock,
                ),
            },
    {
        match self.detail_section(ordinal) {
            Ok(section) => Ok(section.symbol_ordinal_start),
            Err(error) => Err(error),
        }
    }
}

/// A whole blob in memory with its table of contents.
#[derive(Debug, Clone, PartialEq, Eq)]
pub struct ArtifactBlobLayout {
    bytes: Vec<u8>,
    toc: ArtifactBlobToc,
}

/// Whether a result is where the table of contents of a blob stands, or why it
/// has none: a header of another version is unsupported, one that is no header
/// or leads out of the blob is invalid.
pub open spec fn locates_toc(
    bytes: Seq<u8>,
    result: Result<TocLocation, ArtifactBlobLayoutError>,
) -> bool {
    match result {
        Ok(location) => {
            &&& location.offset == LAYOUT_HEADER_SIZE
            &&& LAYOUT_HEADER_SIZE + location.length <= bytes.len()
            &&& bytes.take(LAYOUT_HEADER_SIZE as int) == layout_header(
                ARTIFACT_BLOB_LAYOUT_VERSION,
                LAYOUT_HEADER_SIZE as u64,
                location.length as u64,
            )
        },
        Err(error) => match error {
            ArtifactBlobLayoutError::UnsupportedVersion(version) => version
                != ARTIFACT_BLOB_LAYOUT_VERSION && bytes.len() >= LAYOUT_HEADER_SIZE
                && header_has_version(bytes.take(LAYOUT_HEADER_SIZE as int), version),
            ArtifactBlobLayoutError::InvalidHeader => bytes.len() >= LAYOUT_HEADER_SIZE ==> (forall|
                version: u32,
                offset: u64,
                length: u64,
            |
                bytes.take(LAYOUT_HEADER_SIZE as int) == #[trigger] layout_header(
                    version,
                    offset,
                    length,
                ) ==> version == ARTIFACT_BLOB_LAYOUT_VERSION && (offset != LAYOUT_HEADER_SIZE
                    || LAYOUT_HEADER_SIZE + length > bytes.len())),
            _ => false,
        },
    }
}

/// Whether a layout is the one of payloads behind an encoded table.
pub open spec fn is_layout_of(
    layout: ArtifactBlobLayout,
    payloads: Seq<SectionPayload>,
    toc_bytes: Seq<u8>,
) -> bool {
    &&& LAYOUT_HEADER_SIZE + toc_bytes.len() + section_bytes(payloads).len() <= usize::MAX
    &&& layout.blob() == layout_header(
        ARTIFACT_BLOB_LAYOUT_VERSION,
        LAYOUT_HEADER_SIZE as u64,
        toc_bytes.len() as u64,
    ) + toc_bytes + section_bytes(payloads)
    &&& exists|toc: ArtifactBlobToc| #[trigger]
        is_toc_of(toc, payloads, toc_bytes.len() as int) && layout.sections() == toc.sections@
}

/// What a blob with this table of contents is answered.
pub open spec fn blob_verdict(
    bytes: Seq<u8>,
    toc: Result<ArtifactBlobToc, String>,
    location: TocLocation,
) -> Option<ArtifactBlobLayoutError> {
    toc_verdict(location, bytes.len() as u64, location.length as nat, toc)
}

impl ArtifactBlobLayout {
    /// The blob.
    pub closed spec fn blob(&self) -> Seq<u8> {
        self.bytes@
    }

    /// Its table of contents.
    pub closed spec fn sections(&self) -> Seq<ArtifactBlobSection> {
        self.toc.sections@
    }

    /// Every section lies inside the blob.
    pub open spec fn wf(&self) -> bool {
        sections_fit(self.sections(), 0, self.blob().len() as int)
    }

    /// Puts sections behind their encoded table of contents, which has to be
    /// the encoding of `place_sections` for its own length.
    pub fn encode(payloads: &[SectionPayload], toc_bytes: &[u8]) -> (result: Self)
        requires
            LAYOUT_HEADER_SIZE + toc_bytes@.len() + section_bytes(payloads@).len() <= usize::MAX,
        ensures
            is_layout_of(result, payloads@, toc_bytes@),
            result.wf(),
    {
        let toc = place_sections(payloads, toc_bytes.len());
        let mut bytes = encode_layout_header(
            ARTIFACT_BLOB_LAYOUT_VERSION,
            LAYOUT_HEADER_SIZE as u64,
            toc_bytes.len() as u64,
        );
        digest::append_bytes(&mut bytes, toc_bytes);
        let ghost head = bytes@;
        let mut i: usize = 0;
        assert(head + section_bytes(payloads@.take(0)) =~= head);
        while i < payloads.len()
            invariant
                i <= payloads@.len(),
                bytes@ == head + section_bytes(payloads@.take(i as int)),
            decreases payloads@.len() - i,
        {
            digest::append_bytes(&mut bytes, payloads[i].bytes.as_slice());
            i = i + 1;
            proof {
                let now = payloads@.take(i as int);
                assert(now.drop_last() =~= payloads@.take(i - 1));
                assert(head + section_bytes(now) =~= (head + section_bytes(payloads@.take(i - 1)))
                    + payloads@[i - 1].bytes@);
            }
        }
        assert(payloads@.take(i as int) =~= payloads@);
        proof {
            assert forall|j: int| 0 <= j < toc.sections@.len() implies section_fits(
                #[trigger] toc.sections@[j],
                0,
                bytes@.len() as int,
            ) by {
                lemma_section_prefix(payloads@, j);
                assert(places(
                    toc.sections@[j],
                    payloads@[j],
                    LAYOUT_HEADER_SIZE + toc_bytes@.len() + section_bytes(payloads@.take(j)).len(),
                ));
            }
            assert(is_toc_of(toc, payloads@, toc_bytes@.len() as int));
        }
        ArtifactBlobLayout { bytes, toc }
    }

    /// Where the table of contents of a blob stands. The range lies inside it.
    pub fn locate_toc(bytes: &[u8]) -> (result: Result<TocLocation, ArtifactBlobLayoutError>)
        ensures
            locates_toc(bytes@, result),
    {
        if bytes.len() < LAYOUT_HEADER_SIZE {
            return Err(ArtifactBlobLayoutError::InvalidHeader);
        }
        let header = &bytes[0..28];
        assert(header@ =~= bytes@.take(LAYOUT_HEADER_SIZE as int));
        match toc_location(header) {
            Ok(location) => {
                if location.length > bytes.len() - LAYOUT_HEADER_SIZE {
                    proof {
                        vstd::bytes::lemma_auto_spec_u32_to_from_le_bytes();
                        vstd::bytes::lemma_auto_spec_u64_to_from_le_bytes();
                        assert forall|version: u32, offset: u64, length: u64|
                            header@ == #[trigger] layout_header(
                                version,
                                offset,
                                length,
                            ) implies version == ARTIFACT_BLOB_LAYOUT_VERSION && offset
                            == LAYOUT_HEADER_SIZE && length == location.length by {
                            assert(header@.subrange(8, 12) =~= vstd::bytes::spec_u32_to_le_bytes(
                                version,
                            ));
                            assert(header@.subrange(12, 20) =~= vstd::bytes::spec_u64_to_le_bytes(
                                offset,
                            ));
                            assert(header@.subrange(20, 28) =~= vstd::bytes::spec_u64_to_le_bytes(
                                length,
                            ));
                            assert(header@.subrange(8, 12) =~= vstd::bytes::spec_u32_to_le_bytes(
                                ARTIFACT_BLOB_LAYOUT_VERSION,
                            ));
                            assert(header@.subrange(12, 20) =~= vstd::bytes::spec_u64_to_le_bytes(
                                LAYOUT_HEADER_SIZE as u64,
                            ));
                            assert(header@.subrange(20, 28) =~= vstd::bytes::spec_u64_to_le_bytes(
                                location.length as u64,
                            ));
                        }
                    }
                    return Err(ArtifactBlobLayoutError::InvalidHeader);
                }
                Ok(location)
            },
            Err(error) => Err(error),
        }
    }

    /// Takes a blob whose table of contents was found at `location` and, if it
    /// could be, decoded as `toc`.
    pub fn validate(
        bytes: Vec<u8>,
        location: TocLocation,
        toc: Result<ArtifactBlobToc, String>,
    ) -> (result: Result<Self, ArtifactBlobLayoutError>)
        ensures
            match blob_verdict(bytes@, toc, location) {
                Some(error) => result == Err::<Self, ArtifactBlobLayoutError>(error),
                None => {
                    &&& result is Ok
                    &&& result->Ok_0.blob() == bytes@
                    &&& result->Ok_0.sections() == toc->Ok_0.sections@
                    &&& result->Ok_0.wf()
                },
            },
    {
        match check_toc(location, bytes.len() as u64, location.length, &toc) {
            Ok(()) => {},
            Err(error) => {
                return Err(error);
            },
        }
        let toc = match toc {
            Ok(toc) => toc,
            Err(cause) => {
                return Err(ArtifactBlobLayoutError::Decode(cause));
            },
        };
        proof {
            assert forall|j: int| 0 <= j < toc.sections@.len() implies section_fits(
                #[trigger] toc.sections@[j],
                0,
                bytes@.len() as int,
            ) by {
                assert(section_fits(
                    toc.sections@[j],
                    location.offset + location.length,
                    bytes@.len() as int,
                ));
            }
        }
        Ok(ArtifactBlobLayout { bytes, toc })
    }

    /// The stored bytes of a section.
    pub open spec fn stored(&self, position: int) -> Seq<u8> {
        self.blob().subrange(
            self.sections()[position].offset as int,
            self.sections()[position].offset + self.sections()[position].length,
        )
    }

    /// The stored bytes of the section at a position, once their digest is
    /// found to be the one in the table.
    fn section_by_position(&self, position: usize) -> (result: Result<
        &[u8],
        ArtifactBlobLayoutError,
    >)
        requires
            self.wf(),
            position < self.sections().len(),
        ensures
            match result {
                Ok(bytes) => bytes@ == self.stored(position as int)
                    && self.sections()[position as int].sha256@ == digest::sha256_digest(bytes@),
                Err(error) => error == ArtifactBlobLayoutError::ChecksumMismatch
                    && self.sections()[position as int].sha256@ != digest::sha256_digest(
                    self.stored(position as int),
                ),
            },
    {
        let section = &self.toc.sections[position];
        assert(section_fits(
            self.sections()[position as int],
            0,
            self.blob().len() as int,
        ));
        let all = self.bytes.as_slice();
        let total: usize = all.len();
        assert(section.offset + section.length <= total);
        let start: usize = section.offset as usize;
        let end: usize = start + section.length as usize;
        let bytes = &all[start..end];
        if !digest::same_bytes(section.sha256.as_slice(), digest::sha256(bytes).as_slice()) {
            return Err(ArtifactBlobLayoutError::ChecksumMismatch);
        }
        Ok(bytes)
    }

    /// Whether a result is what the first section of a kind is answered: its
    /// stored bytes under their digest, else that it is missing or harmed.
    pub open spec fn is_section(
        &self,
        kind: ArtifactBlobSectionKind,
        result: Result<&[u8], ArtifactBlobLayoutError>,
    ) -> bool {
        let position = first_of_kind(self.sections(), kind);
        match result {
            Ok(bytes) => self.readable(kind) && bytes@ == self.stored(position),
            Err(error) => !self.readable(kind) && error == (if position == self.sections().len() {
                ArtifactBlobLayoutError::MissingSection(kind)
            } else {
                ArtifactBlobLayoutError::ChecksumMismatch
            }),
        }
    }

    /// The stored bytes of the first section of a kind.
    pub fn section(&self, kind: ArtifactBlobSectionKind) -> (result: Result<
        &[u8],
        ArtifactBlobLayoutError,
    >)
        requires
            self.wf(),
        ensures
            self.is_section(kind, result),
    {
        match find_section(self.toc.sections.as_slice(), kind) {
            Ok(position) => self.section_by_position(position),
            Err(error) => Err(error),
        }
    }

    /// The declaration postings, without the rest of the graph.
    pub fn symbol_postings(&self) -> (result: Result<&[u8], ArtifactBlobLayoutError>)
        requires
            self.wf(),
        ensures
            self.is_section(ArtifactBlobSectionKind::SymbolPostings, result),
    {
        self.section(ArtifactBlobSectionKind::SymbolPostings)
    }

    /// The subtype postings.
    pub fn hierarchy_postings(&self) -> (result: Result<&[u8], ArtifactBlobLayoutError>)
        requires
            self.wf(),
        ensures
            self.is_section(ArtifactBlobSectionKind::HierarchyPostings, result),
    {
        self.section(ArtifactBlobSectionKind::HierarchyPostings)
    }

    /// The directory of qualified names.
    pub fn qualified_symbol_directory(&self) -> (result: Result<&[u8], ArtifactBlobLayoutError>)
        requires
            self.wf(),
        ensures
            self.is_section(ArtifactBlobSectionKind::QualifiedSymbolDirectory, result),
    {
        self.section(ArtifactBlobSectionKind::QualifiedSymbolDirectory)
    }

    /// Whether the first section of a kind is read as these bytes.
    pub open spec fn reads(&self, kind: ArtifactBlobSectionKind, bytes: Seq<u8>) -> bool {
        self.readable(kind) && self.stored(first_of_kind(self.sections(), kind)) == bytes
    }

    /// Whether the first section of a kind is there and unharmed.
    pub open spec fn readable(&self, kind: ArtifactBlobSectionKind) -> bool {
        let position = first_of_kind(self.sections(), kind);
        position < self.sections().len() && self.sections()[position].sha256@
            == digest::sha256_digest(self.stored(position))
    }

    /// The encoded graph.
    pub fn graph_facts(&self) -> (result: Result<Vec<u8>, ArtifactBlobLayoutError>)
        requires
            self.wf(),
        ensures
            ({
                let position = first_of_kind(
                    self.sections(),
                    ArtifactBlobSectionKind::GraphFacts,
                );
                &&& position == self.sections().len() ==> is_bytes_result(
                    result,
                    Err(
                        ArtifactBlobLayoutErrorView::MissingSection(
                            ArtifactBlobSectionKind::GraphFacts,
                        ),
                    ),
                )
                &&& position < self.sections().len() ==> is_bytes_result(
                    result,
                    checked_content(self.sections()[position], self.stored(position)),
                )
            }),
    {
        match find_section(self.toc.sections.as_slice(), ArtifactBlobSectionKind::GraphFacts) {
            Ok(position) => match self.section_by_position(position) {
                Ok(bytes) => decompress_section(bytes, self.toc.sections[position].compression),
                Err(error) => Err(error),
            },
            Err(error) => Err(error),
        }
    }

    /// The encoded detail block that covers an ordinal.
    pub fn symbol_detail_block(&self, ordinal: u32) -> (result: Result<
        Vec<u8>,
        ArtifactBlobLayoutError,
    >)
        requires
            self.wf(),
        ensures
            ({
                let position = first_covering(self.sections(), ordinal);
                &&& position == self.sections().len() ==> is_bytes_result(
                    result,
                    Err(
                        ArtifactBlobLayoutErrorView::MissingSection(
                            ArtifactBlobSectionKind::SymbolDetailBlock,
                        ),
                    ),
                )
                &&& position < self.sections().len() ==> is_bytes_result(
                    result,
                    checked_content(self.sections()[position], self.stored(position)),
                )
            }),
    {
        match find_detail_section(self.toc.sections.as_slice(), ordinal) {
            Ok(position) => match self.section_by_position(position) {
                Ok(bytes) => decompress_section(bytes, self.toc.sections[position].compression),
                Err(error) => Err(error),
            },
            Err(error) => Err(error),
        }
    }

    /// The blob.
    pub fn bytes(&self) -> (result: &[u8])
        ensures
            result@ == self.blob(),
    {
        self.bytes.as_slice()
    }
}

/// A blob that was put together gives its parts back: its header leads to the
/// encoded table, its own table is accepted, and every section reads back the
/// bytes that were put there, under the digest that the table holds for them.
pub proof fn law_layout_reads_back(
    layout: ArtifactBlobLayout,
    payloads: Seq<SectionPayload>,
    toc_bytes: Seq<u8>,
    toc: ArtifactBlobToc,
    location: TocLocation,
)
    requires
        LAYOUT_HEADER_SIZE + toc_bytes.len() + section_bytes(payloads).len() <= usize::MAX,
        layout.blob() == layout_header(
            ARTIFACT_BLOB_LAYOUT_VERSION,
            LAYOUT_HEADER_SIZE as u64,
            toc_bytes.len() as u64,
        ) + toc_bytes + section_bytes(payloads),
        is_toc_of(toc, payloads, toc_bytes.len() as int),
        layout.sections() == toc.sections@,
        location.offset == LAYOUT_HEADER_SIZE,
        location.length == toc_bytes.len(),
    ensures
        layout.blob().take(LAYOUT_HEADER_SIZE as int) == layout_header(
            ARTIFACT_BLOB_LAYOUT_VERSION,
            LAYOUT_HEADER_SIZE as u64,
            toc_bytes.len() as u64,
        ),
        layout.blob().subrange(
            LAYOUT_HEADER_SIZE as int,
            LAYOUT_HEADER_SIZE + toc_bytes.len(),
        ) == toc_bytes,
        blob_verdict(layout.blob(), Ok(toc), location) is None,
        forall|i: int|
            0 <= i < payloads.len() ==> {
                &&& #[trigger] layout.stored(i) == payloads[i].bytes@
                &&& checked_content(layout.sections()[i], layout.stored(i)) == decompressed(
                    payloads[i].bytes@,
                    payloads[i].compression,
                )
            },
{
    vstd::bytes::lemma_auto_spec_u32_to_from_le_bytes();
    vstd::bytes::lemma_auto_spec_u64_to_from_le_bytes();
    let header = layout_header(
        ARTIFACT_BLOB_LAYOUT_VERSION,
        LAYOUT_HEADER_SIZE as u64,
        toc_bytes.len() as u64,
    );
    assert(header.len() == LAYOUT_HEADER_SIZE);
    assert(layout.blob().take(LAYOUT_HEADER_SIZE as int) =~= header);
    assert(layout.blob().subrange(
        LAYOUT_HEADER_SIZE as int,
        LAYOUT_HEADER_SIZE + toc_bytes.len(),
    ) =~= toc_bytes);
    let toc_end = LAYOUT_HEADER_SIZE + toc_bytes.len();
    assert forall|i: int| 0 <= i < payloads.len() implies #[trigger] layout.stored(i)
        == payloads[i].bytes@ && section_fits(
        toc.sections@[i],
        toc_end,
        layout.blob().len() as int,
    ) by {
        lemma_section_prefix(payloads, i);
        let before = section_bytes(payloads.take(i)).len() as int;
        assert(places(toc.sections@[i], payloads[i], toc_end + before));
        assert(layout.stored(i) =~= section_bytes(payloads).subrange(
            before,
            before + payloads[i].bytes@.len(),
        ));
    }
    assert(sections_fit(toc.sections@, toc_end, layout.blob().len() as int)) by {
        assert forall|i: int| 0 <= i < toc.sections@.len() implies section_fits(
            #[trigger] toc.sections@[i],
            toc_end,
            layout.blob().len() as int,
        ) by {
            assert(layout.stored(i) == payloads[i].bytes@);
        }
    }
    assert forall|i: int| 0 <= i < payloads.len() implies checked_content(
        layout.sections()[i],
        #[trigger] layout.stored(i),
    ) == decompressed(payloads[i].bytes@, payloads[i].compression) by {
        assert(places(
            toc.sections@[i],
            payloads[i],
            toc_end + section_bytes(payloads.take(i)).len(),
        ));
    }
}

/// Whether two table entries say the same.
pub open spec fn same_section(a: ArtifactBlobSection, b: ArtifactBlobSection) -> bool {
    &&& a.kind == b.kind
    &&& a.offset == b.offset
    &&& a.length == b.length
    &&& a.sha256@ == b.sha256@
    &&& a.compression == b.compression
    &&& a.symbol_ordinal_start == b.symbol_ordinal_start
    &&& a.symbol_ordinal_end == b.symbol_ordinal_end
}

/// Whether two layouts are the same blob with the same table.
pub open spec fn same_layout(a: ArtifactBlobLayout, b: ArtifactBlobLayout) -> bool {
    &&& a.blob() == b.blob()
    &&& a.sections().len() == b.sections().len()
    &&& forall|i: int|
        0 <= i < a.sections().len() ==> same_section(#[trigger] a.sections()[i], b.sections()[i])
}

proof fn lemma_same_positions(a: Seq<ArtifactBlobSection>, b: Seq<ArtifactBlobSection>)
    requires
        a.len() == b.len(),
        forall|i: int| 0 <= i < a.len() ==> same_section(#[trigger] a[i], b[i]),
    ensures
        forall|kind: ArtifactBlobSectionKind| #[trigger]
            first_of_kind(a, kind) == first_of_kind(b, kind),
        forall|ordinal: u32| #[trigger] first_covering(a, ordinal) == first_covering(b, ordinal),
    decreases a.len(),
{
    if a.len() > 0 {
        assert(same_section(a[0], b[0]));
        assert forall|i: int| 0 <= i < a.drop_first().len() implies same_section(
            #[trigger] a.drop_first()[i],
            b.drop_first()[i],
        ) by {
            assert(same_section(a[i + 1], b[i + 1]));
        }
        lemma_same_positions(a.drop_first(), b.drop_first());
        assert forall|kind: ArtifactBlobSectionKind| #[trigger]
            first_of_kind(a, kind) == first_of_kind(b, kind) by {
            assert(first_of_kind(a.drop_first(), kind) == first_of_kind(b.drop_first(), kind));
        }
        assert forall|ordinal: u32| #[trigger]
            first_covering(a, ordinal) == first_covering(b, ordinal) by {
            assert(first_covering(a.drop_first(), ordinal) == first_covering(
                b.drop_first(),
                ordinal,
            ));
        }
    }
}

/// A blob that was put together is found valid and gives the same layout: its
/// header leads to its table, and with what the table decodes to, the blob is
/// accepted, holds the same bytes, lists the same sections, and reads every
/// kind of section and every detail block as before.
pub proof fn law_encoded_layout_validates(
    layout: ArtifactBlobLayout,
    payloads: Seq<SectionPayload>,
    toc_bytes: Seq<u8>,
    toc: ArtifactBlobToc,
    located: Result<TocLocation, ArtifactBlobLayoutError>,
    validated: ArtifactBlobLayout,
)
    requires
        is_layout_of(layout, payloads, toc_bytes),
        is_toc_of(toc, payloads, toc_bytes.len() as int),
        locates_toc(layout.blob(), located),
        validated.blob() == layout.blob(),
        validated.sections() == toc.sections@,
    ensures
        located is Ok,
        located->Ok_0.offset == LAYOUT_HEADER_SIZE,
        located->Ok_0.length == toc_bytes.len(),
        blob_verdict(layout.blob(), Ok(toc), located->Ok_0) is None,
        same_layout(layout, validated),
        forall|kind: ArtifactBlobSectionKind| #[trigger]
            layout.readable(kind) == validated.readable(kind),
        forall|kind: ArtifactBlobSectionKind| #[trigger]
            first_of_kind(layout.sections(), kind) == first_of_kind(validated.sections(), kind),
        forall|ordinal: u32| #[trigger]
            first_covering(layout.sections(), ordinal) == first_covering(
                validated.sections(),
                ordinal,
            ),
{
    let own = choose|own: ArtifactBlobToc| #[trigger]
        is_toc_of(own, payloads, toc_bytes.len() as int) && layout.sections() == own.sections@;
    let location = TocLocation {
        offset: LAYOUT_HEADER_SIZE as u64,
        length: toc_bytes.len() as usize,
    };
    law_layout_reads_back(layout, payloads, toc_bytes, own, location);
    law_layout_reads_back(validated, payloads, toc_bytes, toc, location);
    vstd::bytes::lemma_auto_spec_u32_to_from_le_bytes();
    vstd::bytes::lemma_auto_spec_u64_to_from_le_bytes();
    let header = layout.blob().take(LAYOUT_HEADER_SIZE as int);
    assert forall|version: u32, offset: u64, length: u64|
        header == #[trigger] layout_header(version, offset, length) implies version
        == ARTIFACT_BLOB_LAYOUT_VERSION && offset == LAYOUT_HEADER_SIZE && length
        == toc_bytes.len() by {
        assert(header.subrange(8, 12) =~= vstd::bytes::spec_u32_to_le_bytes(version));
        assert(header.subrange(12, 20) =~= vstd::bytes::spec_u64_to_le_bytes(offset));
        assert(header.subrange(20, 28) =~= vstd::bytes::spec_u64_to_le_bytes(length));
        assert(header.subrange(8, 12) =~= vstd::bytes::spec_u32_to_le_bytes(
            ARTIFACT_BLOB_LAYOUT_VERSION,
        ));
        assert(header.subrange(12, 20) =~= vstd::bytes::spec_u64_to_le_bytes(
            LAYOUT_HEADER_SIZE as u64,
        ));
        assert(header.subrange(20, 28) =~= vstd::bytes::spec_u64_to_le_bytes(
            toc_bytes.len() as u64,
        ));
    }
    assert(layout_header(
        ARTIFACT_BLOB_LAYOUT_VERSION,
        LAYOUT_HEADER_SIZE as u64,
        toc_bytes.len() as u64,
    ) == header);
    if located is Err {
        match located->Err_0 {
            ArtifactBlobLayoutError::UnsupportedVersion(version) => {
                let (offset, length) = choose|offset: u64, length: u64|
                    header == #[trigger] layout_header(version, offset, length);
            },
            _ => {},
        }
        assert(false);
    }
    assert forall|i: int| 0 <= i < layout.sections().len() implies same_section(
        #[trigger] layout.sections()[i],
        validated.sections()[i],
    ) by {
        let offset = LAYOUT_HEADER_SIZE + toc_bytes.len() + section_bytes(payloads.take(i)).len();
        assert(places(own.sections@[i], payloads[i], offset));
        assert(places(toc.sections@[i], payloads[i], offset));
    }
    lemma_same_positions(layout.sections(), validated.sections());
    assert forall|kind: ArtifactBlobSectionKind| #[trigger]
        layout.readable(kind) == validated.readable(kind) by {
        let position = first_of_kind(layout.sections(), kind);
        assert(position == first_of_kind(validated.sections(), kind));
        lemma_first_of_kind_bounds(layout.sections(), kind);
        if position < layout.sections().len() {
            assert(same_section(layout.sections()[position], validated.sections()[position]));
            assert(layout.stored(position) == payloads[position].bytes@);
            assert(validated.stored(position) == payloads[position].bytes@);
        }
    }
}

proof fn lemma_first_of_kind_bounds(
    sections: Seq<ArtifactBlobSection>,
    kind: ArtifactBlobSectionKind,
)
    ensures
        0 <= first_of_kind(sections, kind) <= sections.len(),
    decreases sections.len(),
{
    if sections.len() > 0 && sections[0].kind != Some(kind) {
        lemma_first_of_kind_bounds(sections.drop_first(), kind);
    }
}

/// What is stored of the graph decompresses to the encoded graph.
pub proof fn law_graph_section_round_trip(
    payloads: Seq<SectionPayload>,
    encoded: EncodedSections,
)
    requires
        are_payloads_of(payloads, encoded),
    ensures
        decompressed(payloads[4].bytes@, payloads[4].compression) == Ok::<
            Seq<u8>,
            ArtifactBlobLayoutErrorView,
        >(encoded.graph@),
{
}

/// Where the sections of encoded messages stand: the four tables and the graph
/// first, each the first of its kind, then the detail blocks.
pub proof fn lemma_section_positions(
    layout: ArtifactBlobLayout,
    payloads: Seq<SectionPayload>,
    toc_bytes: Seq<u8>,
    encoded: EncodedSections,
)
    requires
        is_layout_of(layout, payloads, toc_bytes),
        are_payloads_of(payloads, encoded),
    ensures
        layout.sections().len() == payloads.len(),
        forall|i: int|
            0 <= i < payloads.len() ==> {
                &&& (#[trigger] layout.sections()[i]).kind == Some(payloads[i].kind)
                &&& layout.sections()[i].symbol_ordinal_start == payloads[i].symbol_ordinal_start
                &&& layout.sections()[i].symbol_ordinal_end == payloads[i].symbol_ordinal_end
                &&& layout.sections()[i].sha256@ == digest::sha256_digest(layout.stored(i))
                &&& layout.stored(i) == payloads[i].bytes@
                &&& checked_content(layout.sections()[i], layout.stored(i)) == decompressed(
                    payloads[i].bytes@,
                    payloads[i].compression,
                )
            },
        first_of_kind(layout.sections(), ArtifactBlobSectionKind::SymbolDictionary) == 0,
        first_of_kind(layout.sections(), ArtifactBlobSectionKind::SymbolPostings) == 1,
        first_of_kind(layout.sections(), ArtifactBlobSectionKind::HierarchyPostings) == 2,
        first_of_kind(layout.sections(), ArtifactBlobSectionKind::QualifiedSymbolDirectory) == 3,
        first_of_kind(layout.sections(), ArtifactBlobSectionKind::GraphFacts) == 4,
{
    let toc = choose|toc: ArtifactBlobToc| #[trigger]
        is_toc_of(toc, payloads, toc_bytes.len() as int) && layout.sections() == toc.sections@;
    let location = TocLocation {
        offset: LAYOUT_HEADER_SIZE as u64,
        length: toc_bytes.len() as usize,
    };
    law_layout_reads_back(layout, payloads, toc_bytes, toc, location);
    assert forall|i: int| 0 <= i < payloads.len() implies {
        &&& (#[trigger] layout.sections()[i]).kind == Some(payloads[i].kind)
        &&& layout.sections()[i].symbol_ordinal_start == payloads[i].symbol_ordinal_start
        &&& layout.sections()[i].symbol_ordinal_end == payloads[i].symbol_ordinal_end
        &&& layout.sections()[i].sha256@ == digest::sha256_digest(layout.stored(i))
        &&& layout.stored(i) == payloads[i].bytes@
        &&& checked_content(layout.sections()[i], layout.stored(i)) == decompressed(
            payloads[i].bytes@,
            payloads[i].compression,
        )
    } by {
        assert(places(
            toc.sections@[i],
            payloads[i],
            LAYOUT_HEADER_SIZE + toc_bytes.len() + section_bytes(payloads.take(i)).len(),
        ));
        assert(layout.stored(i) == payloads[i].bytes@);
    }
    let sections = layout.sections();
    assert(sections[0].kind == Some(payloads[0].kind));
    assert(sections[1].kind == Some(payloads[1].kind));
    assert(sections[2].kind == Some(payloads[2].kind));
    assert(sections[3].kind == Some(payloads[3].kind));
    assert(sections[4].kind == Some(payloads[4].kind));
    lemma_first_of_kind(sections, ArtifactBlobSectionKind::SymbolDictionary, 0);
    lemma_first_of_kind(sections, ArtifactBlobSectionKind::SymbolPostings, 1);
    lemma_first_of_kind(sections, ArtifactBlobSectionKind::HierarchyPostings, 2);
    lemma_first_of_kind(sections, ArtifactBlobSectionKind::QualifiedSymbolDirectory, 3);
    lemma_first_of_kind(sections, ArtifactBlobSectionKind::GraphFacts, 4);
}

/// Each table of an encoded artifact, and the graph itself, is read back from
/// the blob as it was encoded.
pub proof fn law_tables_read_back(
    layout: ArtifactBlobLayout,
    payloads: Seq<SectionPayload>,
    toc_bytes: Seq<u8>,
    encoded: EncodedSections,
)
    requires
        is_layout_of(layout, payloads, toc_bytes),
        are_payloads_of(payloads, encoded),
    ensures
        layout.reads(ArtifactBlobSectionKind::SymbolDictionary, encoded.dictionary@),
        layout.reads(ArtifactBlobSectionKind::SymbolPostings, encoded.postings@),
        layout.reads(ArtifactBlobSectionKind::HierarchyPostings, encoded.hierarchy@),
        layout.reads(ArtifactBlobSectionKind::QualifiedSymbolDirectory, encoded.directory@),
        ({
            let position = first_of_kind(layout.sections(), ArtifactBlobSectionKind::GraphFacts);
            &&& position < layout.sections().len()
            &&& checked_content(layout.sections()[position], layout.stored(position)) == Ok::<
                Seq<u8>,
                ArtifactBlobLayoutErrorView,
            >(encoded.graph@)
        }),
{
    lemma_section_positions(layout, payloads, toc_bytes, encoded);
    law_graph_section_round_trip(payloads, encoded);
    assert(layout.sections()[0].kind == Some(payloads[0].kind));
    assert(layout.sections()[1].kind == Some(payloads[1].kind));
    assert(layout.sections()[2].kind == Some(payloads[2].kind));
    assert(layout.sections()[3].kind == Some(payloads[3].kind));
    assert(layout.sections()[4].kind == Some(payloads[4].kind));
}

/// The detail block that the blob of an artifact gives for an ordinal is the
/// one that was planned for it, is read back as it was encoded, and starts
/// where the plan says. An ordinal that the artifact does not have has no
/// block.
pub proof fn law_detail_blocks_read_back(
    layout: ArtifactBlobLayout,
    payloads: Seq<SectionPayload>,
    toc_bytes: Seq<u8>,
    encoded: EncodedSections,
    plan: LayoutPlan,
    snapshots: Seq<GraphSnapshot>,
    ordinal: u32,
)
    requires
        is_layout_of(layout, payloads, toc_bytes),
        are_payloads_of(payloads, encoded),
        is_plan_of(plan, snapshots),
        cover_blocks(encoded.blocks@, plan.blocks@),
    ensures
        ({
            let position = first_covering(layout.sections(), ordinal);
            let block = position - 5;
            if ordinal < all_symbols(snapshots).len() {
                &&& 5 <= position < layout.sections().len()
                &&& holds_ordinal(plan.blocks@[block], ordinal)
                &&& plan.blocks@[block].entries@.len() <= SYMBOL_DETAIL_BLOCK_ENTRY_CAPACITY
                &&& plan.blocks@[block].entries@[ordinal
                    - plan.blocks@[block].first_symbol_ordinal].id == all_symbols(
                    snapshots,
                )[ordinal as int].id
                &&& layout.sections()[position].symbol_ordinal_start
                    == plan.blocks@[block].first_symbol_ordinal
                &&& checked_content(layout.sections()[position], layout.stored(position)) == Ok::<
                    Seq<u8>,
                    ArtifactBlobLayoutErrorView,
                >(encoded.blocks@[block].bytes@)
            } else {
                position == layout.sections().len()
            }
        }),
{
    lemma_section_positions(layout, payloads, toc_bytes, encoded);
    let sections = layout.sections();
    let blocks = plan.blocks@;
    assert forall|i: int| 0 <= i < 5 implies !covers(#[trigger] sections[i], ordinal) by {
        assert(sections[i].kind == Some(payloads[i].kind));
    }
    assert forall|i: int| 5 <= i < sections.len() implies covers(#[trigger] sections[i], ordinal)
        == holds_ordinal(blocks[i - 5], ordinal) by {
        assert(sections[i].kind == Some(payloads[i].kind));
        assert(payloads[5 + (i - 5)].kind == ArtifactBlobSectionKind::SymbolDetailBlock);
        assert(encoded.blocks@[i - 5].covers_block(blocks[i - 5]));
    }
    if ordinal < all_symbols(snapshots).len() {
        law_each_ordinal_has_one_block(blocks, snapshots, ordinal);
        let b = choose|b: int| 0 <= b < blocks.len() && holds_ordinal(#[trigger] blocks[b], ordinal);
        assert forall|i: int| 0 <= i < 5 + b implies !covers(#[trigger] sections[i], ordinal) by {
            if i >= 5 {
                assert(blocks[i - 5] == blocks[i - 5] && blocks[b] == blocks[b]);
            }
        }
        assert(covers(sections[5 + b], ordinal));
        lemma_first_covering(sections, ordinal, 5 + b);
        assert(payloads[5 + b].bytes@ == encoded.blocks@[b].bytes@);
        assert(encoded.blocks@[b].covers_block(blocks[b]));
        let (k, c) = lemma_block_position(blocks, snapshots, b);
        let part = block_symbols(snapshots[k].symbols@, c);
        let first = all_symbols(snapshots.take(k)).len() + c * 256;
        assert(part[ordinal - first] == all_symbols(snapshots)[ordinal as int]);
        assert(symbol_detail::is_detail_of(
            blocks[b].entries@[ordinal - first],
            part[ordinal - first],
            blocks[b].defaults->0,
        ));
    } else {
        assert forall|i: int| 0 <= i < sections.len() implies !covers(
            #[trigger] sections[i],
            ordinal,
        ) by {
            if i >= 5 {
                let (k, c) = lemma_block_position(blocks, snapshots, i - 5);
            }
        }
        lemma_first_covering(sections, ordinal, sections.len() as int);
    }
}

/// Two ordinals of an artifact are given the same block start exactly where
/// they are stored in the same block, a block starts at or before each of its
/// ordinals, and the blocks come in the order of their ordinals.
pub proof fn law_block_starts_group_ordinals(
    layout: ArtifactBlobLayout,
    payloads: Seq<SectionPayload>,
    toc_bytes: Seq<u8>,
    encoded: EncodedSections,
    plan: LayoutPlan,
    snapshots: Seq<GraphSnapshot>,
    i: u32,
    j: u32,
)
    requires
        is_layout_of(layout, payloads, toc_bytes),
        are_payloads_of(payloads, encoded),
        is_plan_of(plan, snapshots),
        cover_blocks(encoded.blocks@, plan.blocks@),
        i < all_symbols(snapshots).len(),
        j < all_symbols(snapshots).len(),
    ensures
        ({
            let a = first_covering(layout.sections(), i);
            let b = first_covering(layout.sections(), j);
            let start = layout.sections()[a].symbol_ordinal_start;
            &&& start <= i
            &&& (start == layout.sections()[b].symbol_ordinal_start) == (a == b)
            &&& (a == b) == holds_ordinal(plan.blocks@[a - 5], j)
            &&& i <= j ==> start <= layout.sections()[b].symbol_ordinal_start
        }),
{
    law_detail_blocks_read_back(layout, payloads, toc_bytes, encoded, plan, snapshots, i);
    law_detail_blocks_read_back(layout, payloads, toc_bytes, encoded, plan, snapshots, j);
    lemma_section_positions(layout, payloads, toc_bytes, encoded);
    let a = first_covering(layout.sections(), i) - 5;
    let b = first_covering(layout.sections(), j) - 5;
    assert(0 <= a < plan.blocks@.len() && 0 <= b < plan.blocks@.len());
    if a < b {
        lemma_blocks_ascend(plan.blocks@, snapshots, a, b);
    } else if b < a {
        lemma_blocks_ascend(plan.blocks@, snapshots, b, a);
    }
}

/// A change inside one section is found where that section is read, and
/// nowhere else: the header and the table still lead to the same answer, the
/// section fails its digest, and every other section holds what it held. The
/// changed bytes are taken to have another digest.
pub proof fn law_changed_section_is_refused(
    layout: ArtifactBlobLayout,
    changed: ArtifactBlobLayout,
    payloads: Seq<SectionPayload>,
    toc_bytes: Seq<u8>,
    toc: ArtifactBlobToc,
    location: TocLocation,
    position: int,
)
    requires
        is_layout_of(layout, payloads, toc_bytes),
        is_toc_of(toc, payloads, toc_bytes.len() as int),
        layout.sections() == toc.sections@,
        location.offset == LAYOUT_HEADER_SIZE,
        location.length == toc_bytes.len(),
        0 <= position < payloads.len(),
        changed.sections() == layout.sections(),
        changed.blob().len() == layout.blob().len(),
        forall|j: int|
            0 <= j < layout.blob().len() && !(layout.sections()[position].offset <= j
                < layout.sections()[position].offset + layout.sections()[position].length)
                ==> #[trigger] changed.blob()[j] == layout.blob()[j],
        digest::sha256_digest(changed.stored(position)) != digest::sha256_digest(
            layout.stored(position),
        ),
    ensures
        changed.blob().take(LAYOUT_HEADER_SIZE + toc_bytes.len()) == layout.blob().take(
            LAYOUT_HEADER_SIZE + toc_bytes.len(),
        ),
        blob_verdict(changed.blob(), Ok(toc), location) is None,
        checked_content(changed.sections()[position], changed.stored(position)) == Err::<
            Seq<u8>,
            ArtifactBlobLayoutErrorView,
        >(ArtifactBlobLayoutErrorView::ChecksumMismatch),
        forall|kind: ArtifactBlobSectionKind| #[trigger]
            first_of_kind(changed.sections(), kind) == position ==> !changed.readable(kind),
        forall|i: int|
            0 <= i < payloads.len() && i != position ==> #[trigger] changed.stored(i)
                == layout.stored(i),
        forall|kind: ArtifactBlobSectionKind|
            first_of_kind(changed.sections(), kind) != position ==> #[trigger] changed.readable(
                kind,
            ) == layout.readable(kind),
{
    law_layout_reads_back(layout, payloads, toc_bytes, toc, location);
    let toc_end = LAYOUT_HEADER_SIZE + toc_bytes.len();
    let own = LAYOUT_HEADER_SIZE + toc_bytes.len() + section_bytes(payloads.take(position)).len();
    assert(places(toc.sections@[position], payloads[position], own));
    assert(changed.blob().take(toc_end) =~= layout.blob().take(toc_end));
    assert(layout.stored(position) == payloads[position].bytes@);
    assert forall|i: int| 0 <= i < payloads.len() && i != position implies #[trigger] changed.stored(
        i,
    ) == layout.stored(i) by {
        let other = LAYOUT_HEADER_SIZE + toc_bytes.len() + section_bytes(payloads.take(i)).len();
        assert(places(toc.sections@[i], payloads[i], other));
        lemma_section_prefix(payloads, i);
        if i < position {
            lemma_section_prefix(payloads.take(position), i);
            assert(payloads.take(position).take(i) =~= payloads.take(i));
        } else {
            lemma_section_prefix(payloads.take(i), position);
            assert(payloads.take(i).take(position) =~= payloads.take(position));
        }
        assert(changed.stored(i) =~= layout.stored(i));
    }
    assert forall|kind: ArtifactBlobSectionKind|
        first_of_kind(changed.sections(), kind) != position implies #[trigger] changed.readable(kind)
        == layout.readable(kind) by {
        lemma_first_of_kind_bounds(changed.sections(), kind);
        let p = first_of_kind(changed.sections(), kind);
        if p < payloads.len() {
            assert(changed.stored(p) == layout.stored(p));
        }
    }
}

proof fn lemma_directory_entries(symbols: Seq<ArtifactSymbol>)
    requires
        symbols.len() <= u32::MAX,
    ensures
        forall|i: int|
            0 <= i < directory_entries(symbols).len() ==> {
                let entry = #[trigger] directory_entries(symbols)[i];
                entry.symbol_ordinal < symbols.len()
                    && symbols[entry.symbol_ordinal as int].qualified_name == Some(
                    entry.qualified_name,
                )
            },
        forall|i: int, j: int|
            #![trigger directory_entries(symbols)[i], directory_entries(symbols)[j]]
            0 <= i < j < directory_entries(symbols).len() ==> directory_entries(
                symbols,
            )[i].symbol_ordinal < directory_entries(symbols)[j].symbol_ordinal,
        forall|k: int|
            0 <= k < symbols.len() && (#[trigger] symbols[k]).qualified_name is Some
                ==> directory_entries(symbols).contains(
                ArtifactQualifiedSymbolEntry {
                    qualified_name: symbols[k].qualified_name->0,
                    symbol_ordinal: k as u32,
                },
            ),
    decreases symbols.len(),
{
    if symbols.len() > 0 {
        let rest = symbols.drop_last();
        lemma_directory_entries(rest);
        let all = directory_entries(symbols);
        let before = directory_entries(rest);
        assert forall|i: int| 0 <= i < all.len() implies {
            let entry = #[trigger] all[i];
            entry.symbol_ordinal < symbols.len()
                && symbols[entry.symbol_ordinal as int].qualified_name == Some(entry.qualified_name)
        } by {
            if i < before.len() {
                assert(all[i] == before[i]);
                assert(rest[before[i].symbol_ordinal as int]
                    == symbols[before[i].symbol_ordinal as int]);
            }
        }
        assert forall|i: int, j: int|
            #![trigger all[i], all[j]]
            0 <= i < j < all.len() implies all[i].symbol_ordinal < all[j].symbol_ordinal by {
            assert(all[i] == before[i]);
            if j < before.len() {
                assert(all[j] == before[j]);
            }
        }
        assert forall|k: int|
            0 <= k < symbols.len() && (
            #[trigger] symbols[k]).qualified_name is Some implies all.contains(
            ArtifactQualifiedSymbolEntry {
                qualified_name: symbols[k].qualified_name->0,
                symbol_ordinal: k as u32,
            },
        ) by {
            let entry = ArtifactQualifiedSymbolEntry {
                qualified_name: symbols[k].qualified_name->0,
                symbol_ordinal: k as u32,
            };
            if k < rest.len() {
                assert(rest[k] == symbols[k]);
                let i = before.index_of(entry);
                assert(all[i] == entry);
            } else {
                assert(all.last() == entry);
                assert(all[all.len() - 1] == entry);
            }
        }
    }
}

/// The directory of qualified names ascends strictly, by name and by ordinal,
/// and lists exactly the declarations that have a qualified name, each under
/// its own.
pub proof fn law_directory_is_exact(plan: LayoutPlan, snapshots: Seq<GraphSnapshot>)
    requires
        is_plan_of(plan, snapshots),
        layout_fits(snapshots),
    ensures
        forall|i: int, j: int|
            #![trigger plan.directory.entries@[i], plan.directory.entries@[j]]
            0 <= i < j < plan.directory.entries@.len()
                ==> plan.directory.entries@[i].ranks_before(&plan.directory.entries@[j]),
        forall|i: int|
            0 <= i < plan.directory.entries@.len() ==> {
                let entry = #[trigger] plan.directory.entries@[i];
                entry.symbol_ordinal < all_symbols(snapshots).len() && all_symbols(
                    snapshots,
                )[entry.symbol_ordinal as int].qualified_name == Some(entry.qualified_name)
            },
        forall|k: int|
            0 <= k < all_symbols(snapshots).len() && (#[trigger] all_symbols(
                snapshots,
            )[k]).qualified_name is Some ==> plan.directory.entries@.contains(
                ArtifactQualifiedSymbolEntry {
                    qualified_name: all_symbols(snapshots)[k].qualified_name->0,
                    symbol_ordinal: k as u32,
                },
            ),
{
    let symbols = all_symbols(snapshots);
    let listed = directory_entries(symbols);
    let sorted = plan.directory.entries@;
    lemma_directory_entries(symbols);
    ordering::lemma_stable_sorted_in_order(listed);
    ordering::lemma_stable_sorted_permutes(listed);
    assert(listed.no_duplicates()) by {
        assert forall|i: int, j: int|
            0 <= i < listed.len() && 0 <= j < listed.len() && i != j implies listed[i]
            != listed[j] by {
            if i < j {
                assert(listed[i].symbol_ordinal < listed[j].symbol_ordinal);
            } else {
                assert(listed[j].symbol_ordinal < listed[i].symbol_ordinal);
            }
        }
    }
    listed.lemma_multiset_has_no_duplicates();
    sorted.lemma_multiset_has_no_duplicates_conv();
    assert forall|i: int| 0 <= i < sorted.len() implies {
        let entry = #[trigger] sorted[i];
        entry.symbol_ordinal < symbols.len()
            && symbols[entry.symbol_ordinal as int].qualified_name == Some(entry.qualified_name)
    } by {
        ordering::lemma_stable_sorted_contains(listed, sorted[i]);
        assert(sorted.contains(sorted[i]));
        let p = listed.index_of(sorted[i]);
        assert(listed[p] == sorted[i]);
    }
    assert forall|k: int|
        0 <= k < symbols.len() && (
        #[trigger] symbols[k]).qualified_name is Some implies sorted.contains(
        ArtifactQualifiedSymbolEntry {
            qualified_name: symbols[k].qualified_name->0,
            symbol_ordinal: k as u32,
        },
    ) by {
        ordering::lemma_stable_sorted_contains(
            listed,
            ArtifactQualifiedSymbolEntry {
                qualified_name: symbols[k].qualified_name->0,
                symbol_ordinal: k as u32,
            },
        );
    }
    assert forall|i: int, j: int|
        #![trigger sorted[i], sorted[j]]
        0 <= i < j < sorted.len() implies sorted[i].ranks_before(&sorted[j]) by {
        assert(!sorted[j].ranks_before(&sorted[i]));
        text::lemma_text_lt_total(sorted[i].qualified_name@, sorted[j].qualified_name@);
        if sorted[i].symbol_ordinal == sorted[j].symbol_ordinal {
            assert(sorted[i].qualified_name == sorted[j].qualified_name);
            assert(sorted[i] == sorted[j]);
        }
    }
}

/// Where in its snapshot an ordinal is declared.
pub proof fn lemma_unit_of_ordinal(snapshots: Seq<GraphSnapshot>, ordinal: int)
    requires
        0 <= ordinal < all_symbols(snapshots).len(),
        snapshots.len() <= u32::MAX,
    ensures
        all_units(snapshots).len() == all_symbols(snapshots).len(),
        declares_ordinal(snapshots, all_units(snapshots)[ordinal], ordinal),
    decreases snapshots.len(),
{
    let rest = snapshots.drop_last();
    lemma_prefix_sizes(snapshots, snapshots.len() as int);
    lemma_prefix_sizes(rest, rest.len() as int);
    if ordinal < all_symbols(rest).len() {
        lemma_unit_of_ordinal(rest, ordinal);
        let unit = all_units(rest)[ordinal];
        assert(rest.take(unit as int) =~= snapshots.take(unit as int));
        assert(rest[unit as int] == snapshots[unit as int]);
    } else {
        assert(snapshots.take(snapshots.len() - 1) =~= rest);
    }
}

/// Whether a snapshot is the one that declares an ordinal.
pub open spec fn declares_ordinal(snapshots: Seq<GraphSnapshot>, unit: u32, ordinal: int) -> bool {
    let first = all_symbols(snapshots.take(unit as int)).len();
    &&& unit < snapshots.len()
    &&& first <= ordinal < first + snapshots[unit as int].symbols@.len()
    &&& snapshots[unit as int].symbols@[ordinal - first] == all_symbols(snapshots)[ordinal]
}

proof fn lemma_prefixes_grow(snapshots: Seq<GraphSnapshot>, a: int, b: int)
    requires
        0 <= a < b <= snapshots.len(),
    ensures
        all_symbols(snapshots.take(a)).len() + snapshots[a].symbols@.len() <= all_symbols(
            snapshots.take(b),
        ).len(),
    decreases b,
{
    assert(snapshots.take(b).drop_last() =~= snapshots.take(b - 1));
    if a < b - 1 {
        lemma_prefixes_grow(snapshots, a, b - 1);
    }
}

/// One snapshot alone declares an ordinal.
pub proof fn lemma_one_unit(snapshots: Seq<GraphSnapshot>, a: int, b: int, ordinal: int)
    requires
        0 <= a < snapshots.len() <= u32::MAX,
        all_symbols(snapshots.take(a)).len() <= ordinal < all_symbols(snapshots.take(a)).len()
            + snapshots[a].symbols@.len(),
        0 <= b < snapshots.len(),
        declares_ordinal(snapshots, b as u32, ordinal),
    ensures
        a == b,
{
    if a < b {
        lemma_prefixes_grow(snapshots, a, b);
    } else if b < a {
        lemma_prefixes_grow(snapshots, b, a);
    }
}

/// There is one posting for each declaration, in the order of ordinals, and it
/// names the snapshot that declares it.
pub proof fn law_postings_are_exact(plan: LayoutPlan, snapshots: Seq<GraphSnapshot>)
    requires
        is_plan_of(plan, snapshots),
        layout_fits(snapshots),
    ensures
        plan.postings.entries@.len() == all_symbols(snapshots).len(),
        forall|k: int|
            0 <= k < plan.postings.entries@.len() ==> {
                &&& (#[trigger] plan.postings.entries@[k]).symbol_ordinal == k
                &&& declares_ordinal(snapshots, plan.postings.entries@[k].source_unit_index, k)
            },
{
    assert forall|k: int| 0 <= k < plan.postings.entries@.len() implies {
        &&& (#[trigger] plan.postings.entries@[k]).symbol_ordinal == k
        &&& declares_ordinal(snapshots, plan.postings.entries@[k].source_unit_index, k)
    } by {
        lemma_unit_of_ordinal(snapshots, k);
    }
}

proof fn lemma_declaration_ordinal(snapshots: Seq<GraphSnapshot>, s: int, d: int) -> (k: int)
    requires
        0 <= s < snapshots.len() <= u32::MAX,
        0 <= d < snapshots[s].symbols@.len(),
    ensures
        0 <= k < all_symbols(snapshots).len(),
        all_symbols(snapshots).len() == all_units(snapshots).len(),
        all_symbols(snapshots)[k] == snapshots[s].symbols@[d],
        all_units(snapshots)[k] == s,
    decreases snapshots.len(),
{
    let rest = snapshots.drop_last();
    lemma_prefix_sizes(snapshots, snapshots.len() as int);
    lemma_prefix_sizes(rest, rest.len() as int);
    if s < rest.len() {
        assert(rest[s] == snapshots[s]);
        lemma_declaration_ordinal(rest, s, d)
    } else {
        all_symbols(rest).len() + d
    }
}

/// Every declaration of an artifact has an ordinal, under which the dictionary
/// gives its id and its name, and the postings the snapshot that declares it.
pub proof fn law_every_declaration_has_an_ordinal(
    artifact: &GraphArtifact,
    plan: LayoutPlan,
    s: int,
    d: int,
) -> (k: int)
    requires
        call_ensures(plan_sections, (artifact,), plan),
        0 <= s < artifact.snapshots@.len() <= u32::MAX,
        0 <= d < artifact.snapshots@[s].symbols@.len(),
    ensures
        0 <= k < plan.dictionary.entries@.len(),
        plan.postings.entries@.len() == plan.dictionary.entries@.len(),
        plan.dictionary.entries@[k].id == artifact.snapshots@[s].symbols@[d].id,
        plan.dictionary.entries@[k].name == artifact.snapshots@[s].symbols@[d].name,
        plan.postings.entries@[k].source_unit_index == s,
        plan.postings.entries@[k].symbol_ordinal == k as u32,
{
    lemma_declaration_ordinal(artifact.snapshots@, s, d)
}

/// A table of contents is accepted only where it lies in the payload, is of the
/// supported version, and every section lies between it and the end.
pub proof fn law_accepted_sections_lie_in_the_payload(
    location: TocLocation,
    payload_len: u64,
    toc_bytes_len: usize,
    toc: &Result<ArtifactBlobToc, String>,
    result: Result<(), ArtifactBlobLayoutError>,
    i: int,
)
    requires
        call_ensures(check_toc, (location, payload_len, toc_bytes_len, toc), result),
    ensures
        result is Ok ==> {
            &&& *toc is Ok
            &&& toc->Ok_0.layout_version == ARTIFACT_BLOB_LAYOUT_VERSION
            &&& toc_bytes_len == location.length
            &&& location.offset + location.length <= payload_len
            &&& 0 <= i < toc->Ok_0.sections@.len() ==> {
                let section = toc->Ok_0.sections@[i];
                &&& location.offset + location.length <= section.offset
                &&& section.offset + section.length <= payload_len
                &&& section.sha256@.len() == 32
            }
        },
        *toc is Ok && toc->Ok_0.sections@.len() == 0 && toc->Ok_0.layout_version
            == ARTIFACT_BLOB_LAYOUT_VERSION && toc_bytes_len == location.length
            && location.offset + location.length <= payload_len ==> result is Ok,
{
    if result is Ok && 0 <= i < toc->Ok_0.sections@.len() {
        assert(section_fits(
            toc->Ok_0.sections@[i],
            location.offset + location.length,
            payload_len as int,
        ));
    }
}

proof fn lemma_edge_position(snapshots: Seq<GraphSnapshot>, s: int, e: int) -> (k: int)
    requires
        0 <= s < snapshots.len(),
        0 <= e < snapshots[s].hierarchy@.len(),
    ensures
        0 <= k < all_hierarchy(snapshots).len(),
        all_hierarchy(snapshots)[k] == snapshots[s].hierarchy@[e],
    decreases snapshots.len(),
{
    let rest = snapshots.drop_last();
    if s < rest.len() {
        assert(rest[s] == snapshots[s]);
        lemma_edge_position(rest, s, e)
    } else {
        all_hierarchy(rest).len() + e
    }
}

/// Every subtype relation of an artifact is posted, the subtype as the subtype
/// and the supertype as the supertype, each under its id.
pub proof fn law_every_relation_is_posted(
    artifact: &GraphArtifact,
    plan: LayoutPlan,
    s: int,
    e: int,
) -> (k: int)
    requires
        call_ensures(plan_sections, (artifact,), plan),
        0 <= s < artifact.snapshots@.len(),
        0 <= e < artifact.snapshots@[s].hierarchy@.len(),
    ensures
        0 <= k < plan.hierarchy.entries@.len(),
        ({
            let edge = artifact.snapshots@[s].hierarchy@[e];
            let posting = plan.hierarchy.entries@[k];
            &&& edge.subtype_symbol_ordinal is None ==> posting.subtype_symbol_id
                == edge.subtype_symbol_id
            &&& edge.supertype_symbol_ordinal is None ==> posting.supertype_symbol_id
                == edge.supertype_symbol_id
            &&& edge.subtype_symbol_ordinal is Some && edge.subtype_symbol_ordinal->0
                < plan.dictionary.entries@.len() ==> posting.subtype_symbol_id
                == plan.dictionary.entries@[edge.subtype_symbol_ordinal->0 as int].id
            &&& edge.supertype_symbol_ordinal is Some && edge.supertype_symbol_ordinal->0
                < plan.dictionary.entries@.len() ==> posting.supertype_symbol_id
                == plan.dictionary.entries@[edge.supertype_symbol_ordinal->0 as int].id
            &&& posting.precision == edge.precision
        }),
{
    lemma_edge_position(artifact.snapshots@, s, e)
}

} // verus!
