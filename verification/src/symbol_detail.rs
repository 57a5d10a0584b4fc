//! The compact form of declarations inside a detail block.
//!
//! A block states once what its declarations have in common, and lists once
//! the long texts that they repeat. A declaration keeps only what differs.

use vstd::prelude::*;

use crate::artifact_proto::{
    ArtifactProvenance, ArtifactRange, ArtifactSourceUnit, ArtifactSymbol, ArtifactSymbolDetail,
    ArtifactSymbolDetailBlock, ArtifactSymbolSnapshotDefaults, GraphSnapshot,
};
use crate::artifact_proto_adapter::ArtifactProtoError;
use crate::dependency_identity;
use crate::digest;
use crate::ordered_map::OrderedMap;
use crate::ordering;
use crate::text;

verus! {

/// How often a text has to occur in a block to be listed.
pub const STRING_INTERN_MIN_OCCURRENCES: usize = 3;

/// How many bytes a text has to have to be listed.
pub const STRING_INTERN_MIN_BYTES: usize = 8;

/// An optional text as a list.
pub open spec fn optional_list(value: Option<String>) -> Seq<Seq<char>> {
    match value {
        Some(value) => seq![value@],
        None => Seq::empty(),
    }
}

/// The texts of a declaration that may be listed.
pub open spec fn symbol_strings(symbol: ArtifactSymbol) -> Seq<Seq<char>> {
    seq![symbol.backend_key@, symbol.kind@, symbol.name@] + optional_list(symbol.qualified_name)
        + optional_list(symbol.signature) + optional_list(symbol.owner_id) + text::texts(
        symbol.modifiers@,
    ) + text::texts(symbol.applied_symbol_ids@)
}

/// The texts of all declarations that may be listed.
pub open spec fn all_strings(symbols: Seq<ArtifactSymbol>) -> Seq<Seq<char>>
    decreases symbols.len(),
{
    if symbols.len() == 0 {
        Seq::empty()
    } else {
        all_strings(symbols.drop_last()) + symbol_strings(symbols.last())
    }
}

/// How often a text occurs.
pub open spec fn occurrences(values: Seq<Seq<char>>, value: Seq<char>) -> nat
    decreases values.len(),
{
    if values.len() == 0 {
        0
    } else {
        occurrences(values.drop_last(), value) + (if values.last() == value {
            1nat
        } else {
            0nat
        })
    }
}

/// Whether a text is long and frequent enough to be listed.
pub open spec fn worth_interning(values: Seq<Seq<char>>, value: Seq<char>) -> bool {
    occurrences(values, value) >= STRING_INTERN_MIN_OCCURRENCES && text::byte_len(value)
        >= STRING_INTERN_MIN_BYTES
}

/// The listed texts of a block.
pub open spec fn interned(symbols: Seq<ArtifactSymbol>) -> Set<Seq<char>> {
    all_strings(symbols).to_set().filter(
        |value: Seq<char>| worth_interning(all_strings(symbols), value),
    )
}

/// The listed texts of a block, in ascending order.
pub open spec fn string_table(symbols: Seq<ArtifactSymbol>) -> Seq<Seq<char>> {
    ordering::sorted_texts(interned(symbols))
}

/// Where a text is listed.
pub open spec fn table_index(table: Seq<Seq<char>>, value: Seq<char>) -> Option<u32> {
    if table.contains(value) {
        Some(table.index_of(value) as u32)
    } else {
        None
    }
}

/// The listed texts of a block with their positions.
pub struct StringTable {
    values: Vec<String>,
    indexes: OrderedMap<u32>,
}

impl View for StringTable {
    type V = Seq<Seq<char>>;

    closed spec fn view(&self) -> Seq<Seq<char>> {
        text::texts(self.values@)
    }
}

/// Counts one more occurrence, up to the number that matters.
fn count_text(counts: &mut OrderedMap<usize>, value: &String, Ghost(seen): Ghost<Seq<Seq<char>>>)
    requires
        old(counts).wf(),
        counted(old(counts)@, seen),
    ensures
        final(counts).wf(),
        counted(final(counts)@, seen.push(value@)),
{
    let count: usize = match counts.get(value.as_str()) {
        Some(count) => *count,
        None => 0,
    };
    let next: usize = if count < STRING_INTERN_MIN_OCCURRENCES {
        count + 1
    } else {
        count
    };
    proof {
        lemma_absent_text(seen, value@);
        assert(seen.push(value@).drop_last() =~= seen);
        assert forall|t: Seq<char>|
            seen.push(value@).to_set().contains(t) == seen.to_set().insert(value@).contains(t) by {
            if seen.contains(t) {
                let i = seen.index_of(t);
                assert(seen.push(value@)[i] == t);
            }
            assert(seen.push(value@)[seen.len() as int] == value@);
            if seen.push(value@).contains(t) && t != value@ {
                let i = seen.push(value@).index_of(t);
                assert(seen[i] == t);
            }
        }
        assert(seen.push(value@).to_set() =~= seen.to_set().insert(value@));
    }
    counts.insert(value.clone(), next);
    assert forall|t: Seq<char>| #[trigger] counts@.dom().contains(t) implies counts@[t] == capped(
        occurrences(seen.push(value@), t),
    ) by {}
}

/// A count up to the number that matters.
spec fn capped(count: nat) -> nat {
    if count < STRING_INTERN_MIN_OCCURRENCES {
        count
    } else {
        STRING_INTERN_MIN_OCCURRENCES as nat
    }
}

/// Whether counts are the ones of the texts seen.
spec fn counted(counts: Map<Seq<char>, usize>, seen: Seq<Seq<char>>) -> bool {
    &&& counts.dom() == seen.to_set()
    &&& forall|t: Seq<char>| #[trigger]
        counts.dom().contains(t) ==> counts[t] == capped(occurrences(seen, t))
}

/// Whether exactly those of the texts seen are listed that are worth it.
spec fn lists_worthy(
    listed: Seq<Seq<char>>,
    all: Seq<Seq<char>>,
    seen: Seq<Seq<char>>,
) -> bool {
    forall|t: Seq<char>|
        #![trigger listed.contains(t)]
        #![trigger seen.contains(t)]
        listed.contains(t) <==> worth_interning(all, t) && seen.contains(t)
}

proof fn lemma_absent_text(values: Seq<Seq<char>>, value: Seq<char>)
    ensures
        occurrences(values, value) == 0 <==> !values.contains(value),
    decreases values.len(),
{
    if values.len() > 0 {
        let rest = values.drop_last();
        lemma_absent_text(rest, value);
        if rest.contains(value) {
            let i = rest.index_of(value);
            assert(values[i] == value);
        }
        if values.contains(value) && values.last() != value {
            let i = values.index_of(value);
            assert(rest[i] == value);
        }
        assert(values[values.len() - 1] == values.last());
    }
}

fn count_optional(
    counts: &mut OrderedMap<usize>,
    value: &Option<String>,
    Ghost(seen): Ghost<Seq<Seq<char>>>,
)
    requires
        old(counts).wf(),
        counted(old(counts)@, seen),
    ensures
        final(counts).wf(),
        counted(final(counts)@, seen + optional_list(*value)),
{
    match value {
        Some(value) => {
            count_text(counts, value, Ghost(seen));
            assert(seen.push(value@) =~= seen + seq![value@]);
        },
        None => {
            assert(seen + Seq::<Seq<char>>::empty() =~= seen);
        },
    }
}

fn count_many(
    counts: &mut OrderedMap<usize>,
    values: &[String],
    Ghost(seen): Ghost<Seq<Seq<char>>>,
)
    requires
        old(counts).wf(),
        counted(old(counts)@, seen),
    ensures
        final(counts).wf(),
        counted(final(counts)@, seen + text::texts(values@)),
{
    let ghost all = text::texts(values@);
    let mut i: usize = 0;
    assert(seen + all.take(0) =~= seen);
    while i < values.len()
        invariant
            counts.wf(),
            all == text::texts(values@),
            i <= values@.len(),
            counted(counts@, seen + all.take(i as int)),
        decreases values@.len() - i,
    {
        count_text(counts, &values[i], Ghost(seen + all.take(i as int)));
        i = i + 1;
        assert(seen + all.take(i as int) =~= (seen + all.take(i - 1)).push(values@[i - 1]@));
    }
    assert(all.take(i as int) =~= all);
}

fn count_symbol(
    counts: &mut OrderedMap<usize>,
    symbol: &ArtifactSymbol,
    Ghost(seen): Ghost<Seq<Seq<char>>>,
)
    requires
        old(counts).wf(),
        counted(old(counts)@, seen),
    ensures
        final(counts).wf(),
        counted(final(counts)@, seen + symbol_strings(*symbol)),
{
    count_text(counts, &symbol.backend_key, Ghost(seen));
    let ghost seen1 = seen.push(symbol.backend_key@);
    count_text(counts, &symbol.kind, Ghost(seen1));
    let ghost seen2 = seen1.push(symbol.kind@);
    count_text(counts, &symbol.name, Ghost(seen2));
    let ghost seen3 = seen2.push(symbol.name@);
    count_optional(counts, &symbol.qualified_name, Ghost(seen3));
    let ghost seen4 = seen3 + optional_list(symbol.qualified_name);
    count_optional(counts, &symbol.signature, Ghost(seen4));
    let ghost seen5 = seen4 + optional_list(symbol.signature);
    count_optional(counts, &symbol.owner_id, Ghost(seen5));
    let ghost seen6 = seen5 + optional_list(symbol.owner_id);
    count_many(counts, symbol.modifiers.as_slice(), Ghost(seen6));
    let ghost seen7 = seen6 + text::texts(symbol.modifiers@);
    count_many(counts, symbol.applied_symbol_ids.as_slice(), Ghost(seen7));
    assert(seen7 + text::texts(symbol.applied_symbol_ids@) =~= seen + symbol_strings(*symbol));
}

impl StringTable {
    /// The texts are listed in ascending order and each knows its position.
    pub closed spec fn wf(&self) -> bool {
        &&& self.indexes.wf()
        &&& ordering::ascending(self@)
        &&& self@.len() <= u32::MAX
        &&& self.indexes@.dom() == self@.to_set()
        &&& forall|i: int|
            0 <= i < self@.len() ==> self.indexes@[#[trigger] self@[i]] == i
    }

    /// Lists the long texts that a block repeats.
    pub fn from_symbols(symbols: &[ArtifactSymbol]) -> (result: Self)
        requires
            all_strings(symbols@).len() <= u32::MAX,
        ensures
            result.wf(),
            result@ == string_table(symbols@),
    {
        let mut counts: OrderedMap<usize> = OrderedMap::new();
        assert(counted(counts@, all_strings(symbols@.take(0)))) by {
            assert(counts@.dom() =~= Seq::<Seq<char>>::empty().to_set());
        }
        let mut i: usize = 0;
        while i < symbols.len()
            invariant
                counts.wf(),
                i <= symbols@.len(),
                counted(counts@, all_strings(symbols@.take(i as int))),
            decreases symbols@.len() - i,
        {
            count_symbol(&mut counts, &symbols[i], Ghost(all_strings(symbols@.take(i as int))));
            i = i + 1;
            assert(symbols@.take(i as int).drop_last() =~= symbols@.take(i - 1));
        }
        assert(symbols@.take(i as int) =~= symbols@);
        let ghost all = all_strings(symbols@);
        proof {
            counts.lemma_order();
            all.lemma_cardinality_of_set();
            assert forall|a: int, b: int|
                0 <= a < counts.order().len() && 0 <= b < counts.order().len() && a
                    != b implies counts.order()[a] != counts.order()[b] by {
                text::lemma_text_lt_irreflexive(counts.order()[a]);
                if a < b {
                    assert(text::text_lt(counts.order()[a], counts.order()[b]));
                } else {
                    assert(text::text_lt(counts.order()[b], counts.order()[a]));
                }
            }
            counts.order().unique_seq_to_set();
        }
        let mut values: Vec<String> = Vec::new();
        let mut indexes: OrderedMap<u32> = OrderedMap::new();
        assert(indexes@.dom() =~= text::texts(values@).to_set());
        let mut k: usize = 0;
        while k < counts.len()
            invariant
                counts.wf(),
                indexes.wf(),
                ordering::ascending(counts.order()),
                counts.order().to_set() == counts@.dom(),
                counted(counts@, all),
                counts.order().len() <= u32::MAX,
                k <= counts.order().len(),
                values@.len() <= k,
                ordering::ascending(text::texts(values@)),
                indexes@.dom() == text::texts(values@).to_set(),
                forall|j: int|
                    0 <= j < values@.len() ==> indexes@[#[trigger] text::texts(values@)[j]] == j,
                forall|j: int|
                    0 <= j < values@.len() ==> exists|m: int|
                        0 <= m < k && #[trigger] counts.order()[m] == #[trigger] text::texts(
                            values@,
                        )[j],
                lists_worthy(text::texts(values@), all, counts.order().take(k as int)),
            decreases counts.order().len() - k,
        {
            let key = counts.key_at(k);
            let count: usize = *counts.value_at(k);
            let ghost order = counts.order();
            let ghost before = text::texts(values@);
            let ghost next = order.take(k + 1);
            proof {
                assert(next =~= order.take(k as int).push(key@));
                assert(counts@[key@] == capped(occurrences(all, key@)));
                if before.contains(key@) {
                    let j = before.index_of(key@);
                    let m = choose|m: int|
                        0 <= m < k && #[trigger] order[m] == #[trigger] before[j];
                    assert(text::text_lt(order[m], order[k as int]));
                    text::lemma_text_lt_irreflexive(key@);
                }
            }
            let long: bool = digest::bytes_of(key.as_str()).len() >= STRING_INTERN_MIN_BYTES;
            if count >= STRING_INTERN_MIN_OCCURRENCES && long {
                indexes.insert(key.clone(), values.len() as u32);
                values.push(key.clone());
                proof {
                    let now = text::texts(values@);
                    assert(now =~= before.push(key@));
                    assert forall|a: int, b: int| 0 <= a < b < now.len() implies text::text_lt(
                        #[trigger] now[a],
                        #[trigger] now[b],
                    ) by {
                        if b == before.len() {
                            let m = choose|m: int|
                                0 <= m < k && #[trigger] order[m] == #[trigger] before[a];
                            assert(text::text_lt(order[m], order[k as int]));
                        } else {
                            assert(now[a] == before[a] && now[b] == before[b]);
                        }
                    }
                    assert forall|t: Seq<char>|
                        now.to_set().contains(t) == before.to_set().insert(key@).contains(t) by {
                        if before.contains(t) {
                            let j = before.index_of(t);
                            assert(now[j] == t);
                        }
                        assert(now[before.len() as int] == key@);
                        if now.contains(t) && t != key@ {
                            let j = now.index_of(t);
                            assert(before[j] == t);
                        }
                    }
                    assert(now.to_set() =~= before.to_set().insert(key@));
                    assert forall|j: int| 0 <= j < now.len() implies indexes@[#[trigger] now[j]]
                        == j by {
                        if j < before.len() {
                            assert(now[j] == before[j]);
                            assert(before.contains(before[j]));
                        }
                    }
                    assert forall|j: int| 0 <= j < now.len() implies exists|m: int|
                        0 <= m < k + 1 && #[trigger] order[m] == #[trigger] now[j] by {
                        if j < before.len() {
                            let m = choose|m: int|
                                0 <= m < k && #[trigger] order[m] == #[trigger] before[j];
                            assert(order[m] == now[j]);
                        } else {
                            assert(order[k as int] == now[j]);
                        }
                    }
                    assert forall|t: Seq<char>|
                        #![trigger now.contains(t)]
                        #![trigger next.contains(t)]
                        now.contains(t) <==> worth_interning(all, t) && next.contains(t) by {
                        Self::lemma_push_contains(before, key@, t);
                        Self::lemma_push_contains(order.take(k as int), key@, t);
                    }
                }
            } else {
                proof {
                    assert forall|t: Seq<char>|
                        #![trigger before.contains(t)]
                        #![trigger next.contains(t)]
                        before.contains(t) <==> worth_interning(all, t) && next.contains(t) by {
                        Self::lemma_push_contains(order.take(k as int), key@, t);
                    }
                    assert forall|j: int| 0 <= j < before.len() implies exists|m: int|
                        0 <= m < k + 1 && #[trigger] order[m] == #[trigger] before[j] by {
                        let m = choose|m: int|
                            0 <= m < k && #[trigger] order[m] == #[trigger] before[j];
                        assert(order[m] == before[j]);
                    }
                }
            }
            k = k + 1;
            assert(counts.order().take(k as int) == next);
        }
        proof {
            let listed = text::texts(values@);
            assert(counts.order().take(k as int) =~= counts.order());
            assert forall|t: Seq<char>|
                listed.to_set().contains(t) == interned(symbols@).contains(t) by {
                assert(counts.order().take(k as int).contains(t) == counts.order().to_set().contains(
                    t,
                ));
            }
            assert(listed.to_set() =~= interned(symbols@));
            ordering::lemma_ascending_is_sorted(listed);
        }
        StringTable { values, indexes }
    }

    proof fn lemma_push_contains(s: Seq<Seq<char>>, x: Seq<char>, t: Seq<char>)
        ensures
            s.push(x).contains(t) <==> s.contains(t) || t == x,
    {
        if s.contains(t) {
            let i = s.index_of(t);
            assert(s.push(x)[i] == t);
        }
        assert(s.push(x)[s.len() as int] == x);
        if s.push(x).contains(t) && t != x {
            let i = s.push(x).index_of(t);
            assert(s[i] == t);
        }
    }

    /// The listed texts.
    pub fn values(&self) -> (result: Vec<String>)
        ensures
            text::texts(result@) == self@,
    {
        let result = self.values.clone();
        assert(result@ =~= self.values@);
        result
    }

    /// Where a text is listed.
    pub fn index(&self, value: &str) -> (result: Option<u32>)
        requires
            self.wf(),
        ensures
            result == table_index(self@, value@),
    {
        let found = self.indexes.get(value);
        proof {
            if self@.contains(value@) {
                let i = self@.index_of(value@);
                assert(self.indexes@[self@[i]] == i);
            }
        }
        match found {
            Some(index) => Some(*index),
            None => None,
        }
    }
}

/// Where an optional text is listed.
pub open spec fn optional_index(table: Seq<Seq<char>>, value: Option<Seq<char>>) -> Option<u32> {
    match value {
        Some(value) => table_index(table, value),
        None => None,
    }
}

/// What of a text is kept in place: nothing, where it is listed.
pub open spec fn inlined(table: Seq<Seq<char>>, value: Seq<char>) -> Seq<char> {
    if table.contains(value) {
        Seq::empty()
    } else {
        value
    }
}

/// What of an optional text is kept in place.
pub open spec fn inlined_optional(table: Seq<Seq<char>>, value: Option<Seq<char>>) -> Option<
    Seq<char>,
> {
    match value {
        Some(value) => if table.contains(value) {
            None
        } else {
            Some(value)
        },
        None => None,
    }
}

/// Whether every text of a list is listed.
pub open spec fn all_listed(table: Seq<Seq<char>>, values: Seq<Seq<char>>) -> bool {
    forall|i: int| 0 <= i < values.len() ==> table.contains(#[trigger] values[i])
}

/// The positions of a list of texts: all of them, or none.
pub open spec fn many_indexes(table: Seq<Seq<char>>, values: Seq<Seq<char>>) -> Seq<u32> {
    if all_listed(table, values) {
        Seq::new(values.len(), |i: int| table.index_of(values[i]) as u32)
    } else {
        Seq::empty()
    }
}

/// What of a list of texts is kept in place.
pub open spec fn inlined_many(table: Seq<Seq<char>>, values: Seq<Seq<char>>) -> Seq<Seq<char>> {
    if all_listed(table, values) {
        Seq::empty()
    } else {
        values
    }
}

impl StringTable {
    fn inline(&self, value: &String) -> (result: String)
        requires
            self.wf(),
        ensures
            result@ == inlined(self@, value@),
    {
        match self.index(value.as_str()) {
            Some(_) => String::new(),
            None => value.clone(),
        }
    }

    fn inline_optional(&self, value: &Option<String>) -> (result: Option<String>)
        requires
            self.wf(),
        ensures
            dependency_identity::option_view(result) == inlined_optional(
                self@,
                dependency_identity::option_view(*value),
            ),
    {
        match value {
            Some(value) => match self.index(value.as_str()) {
                Some(_) => None,
                None => Some(value.clone()),
            },
            None => None,
        }
    }

    fn index_optional(&self, value: &Option<String>) -> (result: Option<u32>)
        requires
            self.wf(),
        ensures
            result == optional_index(self@, dependency_identity::option_view(*value)),
    {
        match value {
            Some(value) => self.index(value.as_str()),
            None => None,
        }
    }

    fn indexes(&self, values: &[String]) -> (result: Vec<u32>)
        requires
            self.wf(),
        ensures
            result@ == many_indexes(self@, text::texts(values@)),
    {
        let ghost wanted = text::texts(values@);
        let mut result: Vec<u32> = Vec::new();
        let mut i: usize = 0;
        while i < values.len()
            invariant
                self.wf(),
                wanted == text::texts(values@),
                i <= values@.len(),
                result@.len() == i,
                forall|j: int|
                    0 <= j < i ==> self@.contains(#[trigger] wanted[j]) && result@[j]
                        == self@.index_of(wanted[j]) as u32,
            decreases values@.len() - i,
        {
            match self.index(values[i].as_str()) {
                Some(index) => {
                    result.push(index);
                },
                None => {
                    assert(!self@.contains(wanted[i as int]));
                    let none: Vec<u32> = Vec::new();
                    assert(none@ =~= many_indexes(self@, wanted));
                    return none;
                },
            }
            i = i + 1;
        }
        assert(result@ =~= many_indexes(self@, wanted));
        result
    }

    fn inline_many(&self, values: &Vec<String>) -> (result: Vec<String>)
        requires
            self.wf(),
        ensures
            text::texts(result@) == inlined_many(self@, text::texts(values@)),
    {
        let ghost wanted = text::texts(values@);
        let indexes = self.indexes(values.as_slice());
        if indexes.len() == 0 {
            let result = values.clone();
            assert(result@ =~= values@);
            proof {
                if all_listed(self@, wanted) {
                    assert(wanted.len() == 0);
                    assert(wanted =~= Seq::<Seq<char>>::empty());
                }
            }
            result
        } else {
            let result: Vec<String> = Vec::new();
            assert(text::texts(result@) =~= Seq::<Seq<char>>::empty());
            result
        }
    }
}

/// A text that all declarations share, or the empty text.
pub open spec fn common_text(values: Seq<Seq<char>>) -> Seq<char> {
    if values.len() > 0 && forall|i: int| 0 <= i < values.len() ==> #[trigger] values[i]
        == values[0] {
        values[0]
    } else {
        Seq::empty()
    }
}

/// A provenance index that all declarations share, or none.
pub open spec fn common_provenance(symbols: Seq<ArtifactSymbol>) -> Option<u32> {
    if symbols.len() > 0 && forall|i: int|
        0 <= i < symbols.len() ==> (#[trigger] symbols[i]).provenance_index
            == symbols[0].provenance_index {
        symbols[0].provenance_index
    } else {
        None
    }
}

/// The languages of declarations.
pub open spec fn languages(symbols: Seq<ArtifactSymbol>) -> Seq<Seq<char>> {
    Seq::new(symbols.len(), |i: int| symbols[i].language@)
}

/// The freshness texts of declarations.
pub open spec fn freshnesses(symbols: Seq<ArtifactSymbol>) -> Seq<Seq<char>> {
    Seq::new(symbols.len(), |i: int| symbols[i].freshness@)
}

/// The completeness texts of declarations.
pub open spec fn completenesses(symbols: Seq<ArtifactSymbol>) -> Seq<Seq<char>> {
    Seq::new(symbols.len(), |i: int| symbols[i].completeness@)
}

/// The components of declarations.
pub open spec fn component_ids(symbols: Seq<ArtifactSymbol>) -> Seq<Seq<char>> {
    Seq::new(symbols.len(), |i: int| symbols[i].component_id@)
}

/// Whether defaults are the ones of a block of a snapshot.
pub open spec fn is_defaults_of(
    defaults: ArtifactSymbolSnapshotDefaults,
    snapshot: GraphSnapshot,
    symbols: Seq<ArtifactSymbol>,
) -> bool {
    &&& defaults.source_unit == snapshot.source_unit
    &&& defaults.provenances@ == snapshot.provenances@
    &&& defaults.language@ == common_text(languages(symbols))
    &&& defaults.freshness@ == common_text(freshnesses(symbols))
    &&& defaults.completeness@ == common_text(completenesses(symbols))
    &&& defaults.component_id@ == common_text(component_ids(symbols))
    &&& defaults.provenance_index == common_provenance(symbols)
    &&& text::texts(defaults.string_table@) == string_table(symbols)
}

/// The shared text of a list of texts, or the empty one.
fn common_field(values: &Vec<&String>) -> (result: String)
    ensures
        result@ == common_text(Seq::new(values@.len(), |i: int| values@[i]@)),
{
    let ghost listed = Seq::new(values@.len(), |i: int| values@[i]@);
    if values.len() == 0 {
        return String::new();
    }
    let mut i: usize = 0;
    while i < values.len()
        invariant
            0 < values@.len(),
            i <= values@.len(),
            listed == Seq::new(values@.len(), |i: int| values@[i]@),
            forall|j: int| 0 <= j < i ==> #[trigger] listed[j] == listed[0],
        decreases values@.len() - i,
    {
        if !text::same_text(values[i].as_str(), values[0].as_str()) {
            assert(listed[i as int] != listed[0]);
            return String::new();
        }
        i = i + 1;
    }
    values[0].clone()
}

fn common_symbol_option(symbols: &[ArtifactSymbol]) -> (result: Option<u32>)
    ensures
        result == common_provenance(symbols@),
{
    if symbols.len() == 0 {
        return None;
    }
    let first = symbols[0].provenance_index;
    let mut i: usize = 0;
    while i < symbols.len()
        invariant
            0 < symbols@.len(),
            i <= symbols@.len(),
            first == symbols@[0].provenance_index,
            forall|j: int|
                0 <= j < i ==> (#[trigger] symbols@[j]).provenance_index == first,
        decreases symbols@.len() - i,
    {
        let same: bool = match (symbols[i].provenance_index, first) {
            (Some(a), Some(b)) => a == b,
            (None, None) => true,
            _ => false,
        };
        if !same {
            assert(symbols@[i as int].provenance_index != first);
            return None;
        }
        i = i + 1;
    }
    first
}

/// The defaults of a block of a snapshot.
pub fn snapshot_defaults(
    snapshot: &GraphSnapshot,
    symbols: &[ArtifactSymbol],
    table: &StringTable,
) -> (result: ArtifactSymbolSnapshotDefaults)
    requires
        table@ == string_table(symbols@),
    ensures
        is_defaults_of(result, *snapshot, symbols@),
{
    let mut language: Vec<&String> = Vec::new();
    let mut freshness: Vec<&String> = Vec::new();
    let mut completeness: Vec<&String> = Vec::new();
    let mut component: Vec<&String> = Vec::new();
    let mut i: usize = 0;
    while i < symbols.len()
        invariant
            i <= symbols@.len(),
            language@.len() == i,
            freshness@.len() == i,
            completeness@.len() == i,
            component@.len() == i,
            forall|j: int| 0 <= j < i ==> (#[trigger] language@[j])@ == symbols@[j].language@,
            forall|j: int| 0 <= j < i ==> (#[trigger] freshness@[j])@ == symbols@[j].freshness@,
            forall|j: int|
                0 <= j < i ==> (#[trigger] completeness@[j])@ == symbols@[j].completeness@,
            forall|j: int| 0 <= j < i ==> (#[trigger] component@[j])@ == symbols@[j].component_id@,
        decreases symbols@.len() - i,
    {
        language.push(&symbols[i].language);
        freshness.push(&symbols[i].freshness);
        completeness.push(&symbols[i].completeness);
        component.push(&symbols[i].component_id);
        i = i + 1;
    }
    proof {
        assert(Seq::new(language@.len(), |i: int| language@[i]@) =~= languages(symbols@));
        assert(Seq::new(freshness@.len(), |i: int| freshness@[i]@) =~= freshnesses(symbols@));
        assert(Seq::new(completeness@.len(), |i: int| completeness@[i]@) =~= completenesses(
            symbols@,
        ));
        assert(Seq::new(component@.len(), |i: int| component@[i]@) =~= component_ids(symbols@));
    }
    let provenances = snapshot.provenances.clone();
    assert(provenances@ =~= snapshot.provenances@);
    ArtifactSymbolSnapshotDefaults {
        source_unit: snapshot.source_unit.clone(),
        provenances,
        language: common_field(&language),
        freshness: common_field(&freshness),
        completeness: common_field(&completeness),
        component_id: common_field(&component),
        provenance_index: common_symbol_option(symbols),
        string_table: table.values(),
    }
}

/// A text that differs from its default.
pub open spec fn own_text(value: Seq<char>, default_value: Seq<char>) -> Option<Seq<char>> {
    if value != default_value {
        Some(value)
    } else {
        None
    }
}

/// Whether a detail is the one of a declaration.
pub open spec fn is_detail_of(
    detail: ArtifactSymbolDetail,
    symbol: ArtifactSymbol,
    defaults: ArtifactSymbolSnapshotDefaults,
) -> bool {
    let table = text::texts(defaults.string_table@);
    &&& detail.id == symbol.id
    &&& detail.backend_key@ == inlined(table, symbol.backend_key@)
    &&& detail.backend_schema_version == symbol.backend_schema_version
    &&& detail.kind@ == inlined(table, symbol.kind@)
    &&& detail.name@ == inlined(table, symbol.name@)
    &&& dependency_identity::option_view(detail.qualified_name) == inlined_optional(
        table,
        dependency_identity::option_view(symbol.qualified_name),
    )
    &&& dependency_identity::option_view(detail.signature) == inlined_optional(
        table,
        dependency_identity::option_view(symbol.signature),
    )
    &&& detail.declaration == symbol.declaration
    &&& detail.name_range == symbol.name_range
    &&& dependency_identity::option_view(detail.owner_id) == inlined_optional(
        table,
        dependency_identity::option_view(symbol.owner_id),
    )
    &&& text::texts(detail.modifiers@) == inlined_many(table, text::texts(symbol.modifiers@))
    &&& text::texts(detail.applied_symbol_ids@) == inlined_many(
        table,
        text::texts(symbol.applied_symbol_ids@),
    )
    &&& dependency_identity::option_view(detail.language) == own_text(
        symbol.language@,
        defaults.language@,
    )
    &&& dependency_identity::option_view(detail.freshness) == own_text(
        symbol.freshness@,
        defaults.freshness@,
    )
    &&& dependency_identity::option_view(detail.completeness) == own_text(
        symbol.completeness@,
        defaults.completeness@,
    )
    &&& dependency_identity::option_view(detail.component_id) == own_text(
        symbol.component_id@,
        defaults.component_id@,
    )
    &&& detail.provenance_index == (if symbol.provenance_index != defaults.provenance_index {
        symbol.provenance_index
    } else {
        None
    })
    &&& detail.backend_key_string_index == table_index(table, symbol.backend_key@)
    &&& detail.kind_string_index == table_index(table, symbol.kind@)
    &&& detail.name_string_index == table_index(table, symbol.name@)
    &&& detail.qualified_name_string_index == optional_index(
        table,
        dependency_identity::option_view(symbol.qualified_name),
    )
    &&& detail.signature_string_index == optional_index(
        table,
        dependency_identity::option_view(symbol.signature),
    )
    &&& detail.owner_id_string_index == optional_index(
        table,
        dependency_identity::option_view(symbol.owner_id),
    )
    &&& detail.modifier_string_indexes@ == many_indexes(table, text::texts(symbol.modifiers@))
    &&& detail.applied_symbol_string_indexes@ == many_indexes(
        table,
        text::texts(symbol.applied_symbol_ids@),
    )
}

fn own_field(value: &String, default_value: &String) -> (result: Option<String>)
    ensures
        dependency_identity::option_view(result) == own_text(value@, default_value@),
{
    if *value == *default_value {
        None
    } else {
        Some(value.clone())
    }
}

/// The compact form of a declaration.
pub fn symbol_detail(
    symbol: &ArtifactSymbol,
    defaults: &ArtifactSymbolSnapshotDefaults,
    table: &StringTable,
) -> (result: ArtifactSymbolDetail)
    requires
        table.wf(),
        table@ == text::texts(defaults.string_table@),
    ensures
        is_detail_of(result, *symbol, *defaults),
{
    let same_provenance: bool = match (symbol.provenance_index, defaults.provenance_index) {
        (Some(a), Some(b)) => a == b,
        (None, None) => true,
        _ => false,
    };
    ArtifactSymbolDetail {
        id: symbol.id.clone(),
        backend_key: table.inline(&symbol.backend_key),
        backend_schema_version: symbol.backend_schema_version,
        kind: table.inline(&symbol.kind),
        name: table.inline(&symbol.name),
        qualified_name: table.inline_optional(&symbol.qualified_name),
        signature: table.inline_optional(&symbol.signature),
        declaration: symbol.declaration,
        name_range: symbol.name_range,
        owner_id: table.inline_optional(&symbol.owner_id),
        modifiers: table.inline_many(&symbol.modifiers),
        applied_symbol_ids: table.inline_many(&symbol.applied_symbol_ids),
        language: own_field(&symbol.language, &defaults.language),
        freshness: own_field(&symbol.freshness, &defaults.freshness),
        completeness: own_field(&symbol.completeness, &defaults.completeness),
        component_id: own_field(&symbol.component_id, &defaults.component_id),
        provenance_index: if same_provenance {
            None
        } else {
            symbol.provenance_index
        },
        backend_key_string_index: table.index(symbol.backend_key.as_str()),
        kind_string_index: table.index(symbol.kind.as_str()),
        name_string_index: table.index(symbol.name.as_str()),
        qualified_name_string_index: table.index_optional(&symbol.qualified_name),
        signature_string_index: table.index_optional(&symbol.signature),
        owner_id_string_index: table.index_optional(&symbol.owner_id),
        modifier_string_indexes: table.indexes(symbol.modifiers.as_slice()),
        applied_symbol_string_indexes: table.indexes(symbol.applied_symbol_ids.as_slice()),
    }
}

/// Whether a block holds the details of consecutive declarations.
pub open spec fn is_block_of(
    block: ArtifactSymbolDetailBlock,
    snapshot: GraphSnapshot,
    symbols: Seq<ArtifactSymbol>,
    first: int,
) -> bool {
    &&& block.first_symbol_ordinal == first
    &&& block.defaults is Some
    &&& is_defaults_of(block.defaults->0, snapshot, symbols)
    &&& block.entries@.len() == symbols.len()
    &&& forall|i: int|
        0 <= i < symbols.len() ==> is_detail_of(
            #[trigger] block.entries@[i],
            symbols[i],
            block.defaults->0,
        )
}

/// Puts consecutive declarations of a snapshot into a block.
pub fn detail_block(snapshot: &GraphSnapshot, symbols: &[ArtifactSymbol], first: u32) -> (result:
    ArtifactSymbolDetailBlock)
    requires
        all_strings(symbols@).len() <= u32::MAX,
    ensures
        is_block_of(result, *snapshot, symbols@, first as int),
{
    let table = StringTable::from_symbols(symbols);
    let defaults = snapshot_defaults(snapshot, symbols, &table);
    let mut entries: Vec<ArtifactSymbolDetail> = Vec::new();
    let mut i: usize = 0;
    while i < symbols.len()
        invariant
            table.wf(),
            table@ == text::texts(defaults.string_table@),
            i <= symbols@.len(),
            entries@.len() == i,
            forall|j: int|
                0 <= j < i ==> is_detail_of(#[trigger] entries@[j], symbols@[j], defaults),
        decreases symbols@.len() - i,
    {
        entries.push(symbol_detail(&symbols[i], &defaults, &table));
        i = i + 1;
    }
    ArtifactSymbolDetailBlock { first_symbol_ordinal: first, defaults: Some(defaults), entries }
}

/// What a declaration says.
#[verifier::ext_equal]
pub struct SymbolText {
    pub id: Seq<char>,
    pub backend_key: Seq<char>,
    pub backend_schema_version: u32,
    pub language: Seq<char>,
    pub kind: Seq<char>,
    pub name: Seq<char>,
    pub qualified_name: Option<Seq<char>>,
    pub signature: Option<Seq<char>>,
    pub declaration: Option<ArtifactRange>,
    pub name_range: Option<ArtifactRange>,
    pub owner_id: Option<Seq<char>>,
    pub modifiers: Seq<Seq<char>>,
    pub applied_symbol_ids: Seq<Seq<char>>,
    pub freshness: Seq<char>,
    pub completeness: Seq<char>,
    pub component_id: Seq<char>,
}

/// What a stored declaration says, its provenance and local owner aside.
pub open spec fn symbol_text(symbol: ArtifactSymbol) -> SymbolText {
    SymbolText {
        id: symbol.id@,
        backend_key: symbol.backend_key@,
        backend_schema_version: symbol.backend_schema_version,
        language: symbol.language@,
        kind: symbol.kind@,
        name: symbol.name@,
        qualified_name: dependency_identity::option_view(symbol.qualified_name),
        signature: dependency_identity::option_view(symbol.signature),
        declaration: symbol.declaration,
        name_range: symbol.name_range,
        owner_id: dependency_identity::option_view(symbol.owner_id),
        modifiers: text::texts(symbol.modifiers@),
        applied_symbol_ids: text::texts(symbol.applied_symbol_ids@),
        freshness: symbol.freshness@,
        completeness: symbol.completeness@,
        component_id: symbol.component_id@,
    }
}

/// Whether an index, where there is one, is listed.
pub open spec fn index_listed(index: Option<u32>, table: Seq<Seq<char>>) -> bool {
    match index {
        Some(index) => index < table.len(),
        None => true,
    }
}

/// Whether all indexes are listed.
pub open spec fn indexes_listed(indexes: Seq<u32>, table: Seq<Seq<char>>) -> bool {
    forall|i: int| 0 <= i < indexes.len() ==> (#[trigger] indexes[i]) < table.len()
}

/// The listed text, else the one in place.
pub open spec fn expanded_text(
    inline: Seq<char>,
    index: Option<u32>,
    table: Seq<Seq<char>>,
) -> Seq<char> {
    match index {
        Some(index) => table[index as int],
        None => inline,
    }
}

/// The listed text, else the optional one in place.
pub open spec fn expanded_optional(
    inline: Option<Seq<char>>,
    index: Option<u32>,
    table: Seq<Seq<char>>,
) -> Option<Seq<char>> {
    match index {
        Some(index) => Some(table[index as int]),
        None => inline,
    }
}

/// The listed texts, else the ones in place.
pub open spec fn expanded_many(
    inline: Seq<Seq<char>>,
    indexes: Seq<u32>,
    table: Seq<Seq<char>>,
) -> Seq<Seq<char>> {
    if indexes.len() == 0 {
        inline
    } else {
        Seq::new(indexes.len(), |i: int| table[indexes[i] as int])
    }
}

/// A text of its own, else the default.
pub open spec fn text_or(value: Option<String>, default_value: String) -> Seq<char> {
    match value {
        Some(value) => value@,
        None => default_value@,
    }
}

/// The position of the provenance of a detail: its own, else the default,
/// else the first.
pub open spec fn detail_provenance(
    detail: ArtifactSymbolDetail,
    defaults: ArtifactSymbolSnapshotDefaults,
) -> int {
    match (detail.provenance_index, defaults.provenance_index) {
        (Some(index), _) => index as int,
        (None, Some(index)) => index as int,
        (None, None) => 0,
    }
}

/// Whether a block can answer for an ordinal: it has the entry, its defaults
/// and their source unit, and every index that the entry holds is listed.
pub open spec fn detail_readable(block: ArtifactSymbolDetailBlock, ordinal: u32) -> bool {
    &&& block.first_symbol_ordinal <= ordinal
    &&& ordinal - block.first_symbol_ordinal < block.entries@.len()
    &&& block.defaults is Some
    &&& block.defaults->0.source_unit is Some
    &&& ({
        let detail = block.entries@[ordinal - block.first_symbol_ordinal];
        let defaults = block.defaults->0;
        let table = text::texts(defaults.string_table@);
        &&& detail_provenance(detail, defaults) < defaults.provenances@.len()
        &&& index_listed(detail.backend_key_string_index, table)
        &&& index_listed(detail.kind_string_index, table)
        &&& index_listed(detail.name_string_index, table)
        &&& index_listed(detail.qualified_name_string_index, table)
        &&& index_listed(detail.signature_string_index, table)
        &&& index_listed(detail.owner_id_string_index, table)
        &&& indexes_listed(detail.modifier_string_indexes@, table)
        &&& indexes_listed(detail.applied_symbol_string_indexes@, table)
    })
}

/// What the detail of an ordinal says once expanded.
pub open spec fn expanded_symbol(block: ArtifactSymbolDetailBlock, ordinal: u32) -> SymbolText {
    let detail = block.entries@[ordinal - block.first_symbol_ordinal];
    let defaults = block.defaults->0;
    let table = text::texts(defaults.string_table@);
    SymbolText {
        id: detail.id@,
        backend_key: expanded_text(detail.backend_key@, detail.backend_key_string_index, table),
        backend_schema_version: detail.backend_schema_version,
        language: text_or(detail.language, defaults.language),
        kind: expanded_text(detail.kind@, detail.kind_string_index, table),
        name: expanded_text(detail.name@, detail.name_string_index, table),
        qualified_name: expanded_optional(
            dependency_identity::option_view(detail.qualified_name),
            detail.qualified_name_string_index,
            table,
        ),
        signature: expanded_optional(
            dependency_identity::option_view(detail.signature),
            detail.signature_string_index,
            table,
        ),
        declaration: detail.declaration,
        name_range: detail.name_range,
        owner_id: expanded_optional(
            dependency_identity::option_view(detail.owner_id),
            detail.owner_id_string_index,
            table,
        ),
        modifiers: expanded_many(
            text::texts(detail.modifiers@),
            detail.modifier_string_indexes@,
            table,
        ),
        applied_symbol_ids: expanded_many(
            text::texts(detail.applied_symbol_ids@),
            detail.applied_symbol_string_indexes@,
            table,
        ),
        freshness: text_or(detail.freshness, defaults.freshness),
        completeness: text_or(detail.completeness, defaults.completeness),
        component_id: text_or(detail.component_id, defaults.component_id),
    }
}

/// The provenance of an ordinal.
pub open spec fn expanded_provenance(
    block: ArtifactSymbolDetailBlock,
    ordinal: u32,
) -> ArtifactProvenance {
    let detail = block.entries@[ordinal - block.first_symbol_ordinal];
    block.defaults->0.provenances@[detail_provenance(detail, block.defaults->0)]
}

fn listed_text(inline: &String, index: Option<u32>, table: &[String]) -> (result: Option<String>)
    ensures
        result is Some <==> index_listed(index, text::texts(table@)),
        result matches Some(value) ==> value@ == expanded_text(inline@, index, text::texts(table@)),
{
    match index {
        Some(index) => if (index as usize) < table.len() {
            Some(table[index as usize].clone())
        } else {
            None
        },
        None => Some(inline.clone()),
    }
}

fn listed_optional(inline: &Option<String>, index: Option<u32>, table: &[String]) -> (result: Option<
    Option<String>,
>)
    ensures
        result is Some <==> index_listed(index, text::texts(table@)),
        result matches Some(value) ==> dependency_identity::option_view(value) == expanded_optional(
            dependency_identity::option_view(*inline),
            index,
            text::texts(table@),
        ),
{
    match index {
        Some(index) => if (index as usize) < table.len() {
            Some(Some(table[index as usize].clone()))
        } else {
            None
        },
        None => Some(inline.clone()),
    }
}

fn listed_many(inline: &Vec<String>, indexes: &[u32], table: &[String]) -> (result: Option<
    Vec<String>,
>)
    ensures
        result is Some <==> indexes_listed(indexes@, text::texts(table@)),
        result matches Some(values) ==> text::texts(values@) == expanded_many(
            text::texts(inline@),
            indexes@,
            text::texts(table@),
        ),
{
    if indexes.len() == 0 {
        let values = inline.clone();
        assert(values@ =~= inline@);
        return Some(values);
    }
    let mut values: Vec<String> = Vec::new();
    let mut i: usize = 0;
    while i < indexes.len()
        invariant
            0 < indexes@.len(),
            i <= indexes@.len(),
            values@.len() == i,
            forall|j: int| 0 <= j < i ==> (#[trigger] indexes@[j]) < table@.len(),
            forall|j: int|
                0 <= j < i ==> (#[trigger] values@[j])@ == text::texts(table@)[indexes@[j] as int],
        decreases indexes@.len() - i,
    {
        let index: usize = indexes[i] as usize;
        if index >= table.len() {
            assert(!(indexes@[i as int] < text::texts(table@).len()));
            return None;
        }
        values.push(table[index].clone());
        i = i + 1;
    }
    assert(text::texts(values@) =~= expanded_many(
        text::texts(inline@),
        indexes@,
        text::texts(table@),
    ));
    Some(values)
}

fn own_or_default(value: &Option<String>, default_value: &String) -> (result: String)
    ensures
        result@ == text_or(*value, *default_value),
{
    match value {
        Some(value) => value.clone(),
        None => default_value.clone(),
    }
}

/// A declaration taken out of a block, with its source unit and provenance.
#[derive(Debug, PartialEq, Eq)]
pub struct ExpandedSymbol {
    pub source_unit: ArtifactSourceUnit,
    pub provenance: ArtifactProvenance,
    pub symbol: ArtifactSymbol,
}

fn expand_entry(
    detail: &ArtifactSymbolDetail,
    defaults: &ArtifactSymbolSnapshotDefaults,
    source_unit: &ArtifactSourceUnit,
    Ghost(block): Ghost<ArtifactSymbolDetailBlock>,
    Ghost(ordinal): Ghost<u32>,
) -> (result: Option<ExpandedSymbol>)
    requires
        block.first_symbol_ordinal <= ordinal,
        ordinal - block.first_symbol_ordinal < block.entries@.len(),
        *detail == block.entries@[ordinal - block.first_symbol_ordinal],
        block.defaults == Some(*defaults),
        defaults.source_unit == Some(*source_unit),
    ensures
        result is Some <==> detail_readable(block, ordinal),
        result matches Some(expanded) ==> {
            &&& expanded.source_unit == *source_unit
            &&& expanded.provenance == expanded_provenance(block, ordinal)
            &&& symbol_text(expanded.symbol) == expanded_symbol(block, ordinal)
            &&& expanded.symbol.provenance_index is None
            &&& expanded.symbol.owner_symbol_ordinal is None
        },
{
    let position: usize = match (detail.provenance_index, defaults.provenance_index) {
        (Some(index), _) => index as usize,
        (None, Some(index)) => index as usize,
        (None, None) => 0,
    };
    if position >= defaults.provenances.len() {
        return None;
    }
    let table = defaults.string_table.as_slice();
    let backend_key = match listed_text(&detail.backend_key, detail.backend_key_string_index, table) {
        Some(value) => value,
        None => {
            return None;
        },
    };
    let kind = match listed_text(&detail.kind, detail.kind_string_index, table) {
        Some(value) => value,
        None => {
            return None;
        },
    };
    let name = match listed_text(&detail.name, detail.name_string_index, table) {
        Some(value) => value,
        None => {
            return None;
        },
    };
    let qualified_name = match listed_optional(
        &detail.qualified_name,
        detail.qualified_name_string_index,
        table,
    ) {
        Some(value) => value,
        None => {
            return None;
        },
    };
    let signature = match listed_optional(&detail.signature, detail.signature_string_index, table) {
        Some(value) => value,
        None => {
            return None;
        },
    };
    let owner_id = match listed_optional(&detail.owner_id, detail.owner_id_string_index, table) {
        Some(value) => value,
        None => {
            return None;
        },
    };
    let modifiers = match listed_many(
        &detail.modifiers,
        detail.modifier_string_indexes.as_slice(),
        table,
    ) {
        Some(value) => value,
        None => {
            return None;
        },
    };
    let applied_symbol_ids = match listed_many(
        &detail.applied_symbol_ids,
        detail.applied_symbol_string_indexes.as_slice(),
        table,
    ) {
        Some(value) => value,
        None => {
            return None;
        },
    };
    Some(
        ExpandedSymbol {
            source_unit: source_unit.clone(),
            provenance: defaults.provenances[position].clone(),
            symbol: ArtifactSymbol {
                id: detail.id.clone(),
                backend_key,
                backend_schema_version: detail.backend_schema_version,
                language: own_or_default(&detail.language, &defaults.language),
                kind,
                name,
                qualified_name,
                signature,
                declaration: detail.declaration,
                name_range: detail.name_range,
                owner_id,
                modifiers,
                applied_symbol_ids,
                freshness: own_or_default(&detail.freshness, &defaults.freshness),
                completeness: own_or_default(&detail.completeness, &defaults.completeness),
                component_id: own_or_default(&detail.component_id, &defaults.component_id),
                provenance_index: None,
                owner_symbol_ordinal: None,
            },
        },
    )
}

/// Takes the declaration of an ordinal out of its block. The block carries
/// what it needs, so nothing else of the artifact is read.
pub fn expand_detail(block: &ArtifactSymbolDetailBlock, ordinal: u32) -> (result: Result<
    ExpandedSymbol,
    ArtifactProtoError,
>)
    ensures
        result is Ok <==> detail_readable(*block, ordinal),
        result matches Err(error) ==> error == ArtifactProtoError::LengthMismatch,
        result matches Ok(expanded) ==> {
            &&& block.defaults->0.source_unit == Some(expanded.source_unit)
            &&& expanded.provenance == expanded_provenance(*block, ordinal)
            &&& symbol_text(expanded.symbol) == expanded_symbol(*block, ordinal)
            &&& expanded.symbol.provenance_index is None
            &&& expanded.symbol.owner_symbol_ordinal is None
        },
{
    if ordinal < block.first_symbol_ordinal {
        return Err(ArtifactProtoError::LengthMismatch);
    }
    let index: usize = (ordinal - block.first_symbol_ordinal) as usize;
    if index >= block.entries.len() {
        return Err(ArtifactProtoError::LengthMismatch);
    }
    match &block.defaults {
        Some(defaults) => match &defaults.source_unit {
            Some(source_unit) => match expand_entry(
                &block.entries[index],
                defaults,
                source_unit,
                Ghost(*block),
                Ghost(ordinal),
            ) {
                Some(expanded) => Ok(expanded),
                None => Err(ArtifactProtoError::LengthMismatch),
            },
            None => Err(ArtifactProtoError::LengthMismatch),
        },
        None => Err(ArtifactProtoError::LengthMismatch),
    }
}

proof fn lemma_index_expands(table: Seq<Seq<char>>, value: Seq<char>)
    requires
        table.len() <= u32::MAX,
    ensures
        index_listed(table_index(table, value), table),
        expanded_text(inlined(table, value), table_index(table, value), table) == value,
{
    if table.contains(value) {
        let i = table.index_of(value);
        assert(table[i] == value);
    }
}

proof fn lemma_optional_expands(table: Seq<Seq<char>>, value: Option<Seq<char>>)
    requires
        table.len() <= u32::MAX,
    ensures
        index_listed(optional_index(table, value), table),
        expanded_optional(inlined_optional(table, value), optional_index(table, value), table)
            == value,
{
    if let Some(value) = value {
        lemma_index_expands(table, value);
    }
}

proof fn lemma_many_expands(table: Seq<Seq<char>>, values: Seq<Seq<char>>)
    requires
        table.len() <= u32::MAX,
    ensures
        indexes_listed(many_indexes(table, values), table),
        expanded_many(inlined_many(table, values), many_indexes(table, values), table) == values,
{
    let indexes = many_indexes(table, values);
    assert forall|i: int| 0 <= i < indexes.len() implies (#[trigger] indexes[i]) < table.len()
        && table[indexes[i] as int] == values[i] by {
        assert(table.contains(values[i]));
        lemma_index_expands(table, values[i]);
    }
    assert(expanded_many(inlined_many(table, values), indexes, table) =~= values);
}

/// Reading the detail of an ordinal gives back the declaration that was put
/// into the block, with the provenance that it names or else the first one.
/// The snapshot has to have a source unit, and that provenance.
pub proof fn law_detail_round_trip(
    block: ArtifactSymbolDetailBlock,
    snapshot: GraphSnapshot,
    symbols: Seq<ArtifactSymbol>,
    first: int,
    ordinal: u32,
)
    requires
        is_block_of(block, snapshot, symbols, first),
        all_strings(symbols).len() <= u32::MAX,
        first <= ordinal < first + symbols.len(),
        snapshot.source_unit is Some,
        named_provenance(symbols[ordinal - first]) < snapshot.provenances@.len(),
    ensures
        detail_readable(block, ordinal),
        expanded_symbol(block, ordinal) == symbol_text(symbols[ordinal - first]),
        expanded_provenance(block, ordinal) == snapshot.provenances@[named_provenance(
            symbols[ordinal - first],
        )],
{
    let i = ordinal - first;
    let symbol = symbols[i];
    let defaults = block.defaults->0;
    let detail = block.entries@[i];
    assert(is_detail_of(detail, symbol, defaults));
    let table = string_table(symbols);
    lemma_table_bound(symbols);
    lemma_index_expands(table, symbol.backend_key@);
    lemma_index_expands(table, symbol.kind@);
    lemma_index_expands(table, symbol.name@);
    lemma_optional_expands(table, dependency_identity::option_view(symbol.qualified_name));
    lemma_optional_expands(table, dependency_identity::option_view(symbol.signature));
    lemma_optional_expands(table, dependency_identity::option_view(symbol.owner_id));
    lemma_many_expands(table, text::texts(symbol.modifiers@));
    lemma_many_expands(table, text::texts(symbol.applied_symbol_ids@));
    if let Some(index) = common_provenance(symbols) {
        assert(symbols[i].provenance_index == symbols[0].provenance_index);
    }
}

/// The position of the provenance that a declaration names, else the first.
pub open spec fn named_provenance(symbol: ArtifactSymbol) -> int {
    match symbol.provenance_index {
        Some(index) => index as int,
        None => 0,
    }
}

/// The listed texts are no more than all texts.
proof fn lemma_table_bound(symbols: Seq<ArtifactSymbol>)
    ensures
        string_table(symbols).len() <= all_strings(symbols).len(),
{
    let all = all_strings(symbols);
    let listed = interned(symbols);
    assert(listed.subset_of(all.to_set()));
    vstd::seq_lib::seq_to_set_is_finite(all);
    vstd::set_lib::lemma_len_subset(listed, all.to_set());
    all.lemma_cardinality_of_set();
    ordering::lemma_sorted_texts(listed);
    let table = string_table(symbols);
    assert forall|a: int, b: int|
        0 <= a < table.len() && 0 <= b < table.len() && a != b implies table[a] != table[b] by {
        text::lemma_text_lt_irreflexive(table[a]);
        if a < b {
            assert(text::text_lt(table[a], table[b]));
        } else {
            assert(text::text_lt(table[b], table[a]));
        }
    }
    table.unique_seq_to_set();
}

} // verus!
