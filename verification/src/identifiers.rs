//! Lists of identifiers, each once and in ascending order.

use vstd::prelude::*;

use crate::canonical::{SourceUnitId, SymbolId};
use crate::ordered_map;
use crate::ordered_map::{index_by_key, Keyed, OrderedMap};
use crate::ordering;

verus! {

impl Keyed for SymbolId {
    open spec fn key(&self) -> Seq<char> {
        self@
    }

    fn key_text(&self) -> (result: &str) {
        self.as_str()
    }
}

impl Keyed for SourceUnitId {
    open spec fn key(&self) -> Seq<char> {
        self@
    }

    fn key_text(&self) -> (result: &str) {
        self.as_str()
    }
}

/// The texts of a list of symbol ids.
pub open spec fn symbol_texts(symbols: Seq<SymbolId>) -> Seq<Seq<char>> {
    Seq::new(symbols.len(), |i: int| symbols[i]@)
}

/// The texts of a list of source unit ids.
pub open spec fn unit_texts(units: Seq<SourceUnitId>) -> Seq<Seq<char>> {
    Seq::new(units.len(), |i: int| units[i]@)
}

/// The ids of a list, each once, in ascending order.
pub fn sorted_symbols(symbols: &[SymbolId]) -> (result: Vec<SymbolId>)
    ensures
        symbol_texts(result@) == ordering::sorted_texts(ordered_map::keys_of(symbols@)),
{
    let found: OrderedMap<usize> = index_by_key(symbols);
    proof {
        found.lemma_order();
    }
    let mut result: Vec<SymbolId> = Vec::new();
    let mut i: usize = 0;
    while i < found.len()
        invariant
            found.wf(),
            i <= found.order().len(),
            result@.len() == i,
            forall|j: int| 0 <= j < i ==> (#[trigger] result@[j])@ == found.order()[j],
        decreases found.order().len() - i,
    {
        result.push(SymbolId::new(found.key_at(i)));
        i = i + 1;
    }
    assert(symbol_texts(result@) =~= found.order());
    result
}

/// The ids of a list, each once, in ascending order.
pub fn sorted_units(units: &[SourceUnitId]) -> (result: Vec<SourceUnitId>)
    ensures
        unit_texts(result@) == ordering::sorted_texts(ordered_map::keys_of(units@)),
{
    let found: OrderedMap<usize> = index_by_key(units);
    proof {
        found.lemma_order();
    }
    let mut result: Vec<SourceUnitId> = Vec::new();
    let mut i: usize = 0;
    while i < found.len()
        invariant
            found.wf(),
            i <= found.order().len(),
            result@.len() == i,
            forall|j: int| 0 <= j < i ==> (#[trigger] result@[j])@ == found.order()[j],
        decreases found.order().len() - i,
    {
        result.push(SourceUnitId::new(found.key_at(i)));
        i = i + 1;
    }
    assert(unit_texts(result@) =~= found.order());
    result
}

} // verus!
