//! Deterministic resolution of user locations to persisted semantic symbols.

use vstd::prelude::*;

use crate::canonical::{
    Location, SourceOccurrence, SourceUnit, SourceUnitId, SymbolId, SymbolKind, SymbolRecord,
    TextPosition,
};
use crate::identifiers;
use crate::identifiers::sorted_symbols;
use crate::ordered_map;
use crate::ordered_map::Keyed;
use crate::ordering;
use crate::position;
use crate::position::{byte_length, find_line, find_offset};
use crate::text;

verus! {

/// The outcome of resolving one location before a navigation command chooses
/// its relation (definition, references, callers, and so on).
#[derive(Debug, Clone, PartialEq, Eq)]
pub enum LocationResolution {
    Symbol(SymbolId),
    NoResult,
    Ambiguous { candidates: Vec<SymbolId> },
}

/// What a `LocationResolution` says.
pub enum LocationResolutionView {
    Symbol(Seq<char>),
    NoResult,
    Ambiguous { candidates: Seq<Seq<char>> },
}

impl View for LocationResolution {
    type V = LocationResolutionView;

    open spec fn view(&self) -> LocationResolutionView {
        match self {
            LocationResolution::Symbol(symbol) => LocationResolutionView::Symbol(symbol@),
            LocationResolution::NoResult => LocationResolutionView::NoResult,
            LocationResolution::Ambiguous { candidates } => LocationResolutionView::Ambiguous {
                candidates: identifiers::symbol_texts(candidates@),
            },
        }
    }
}

/// Why a location cannot be resolved.
#[derive(Debug, Clone, PartialEq, Eq)]
pub enum LocationResolutionError {
    InvalidCoordinate,
    OutOfRange,
    UnknownPath(String),
    AmbiguousPath(String),
}

/// What a `LocationResolutionError` says.
pub enum LocationResolutionErrorView {
    InvalidCoordinate,
    OutOfRange,
    UnknownPath(Seq<char>),
    AmbiguousPath(Seq<char>),
}

impl View for LocationResolutionError {
    type V = LocationResolutionErrorView;

    open spec fn view(&self) -> LocationResolutionErrorView {
        match self {
            LocationResolutionError::InvalidCoordinate => {
                LocationResolutionErrorView::InvalidCoordinate
            },
            LocationResolutionError::OutOfRange => LocationResolutionErrorView::OutOfRange,
            LocationResolutionError::UnknownPath(path) => LocationResolutionErrorView::UnknownPath(
                path@,
            ),
            LocationResolutionError::AmbiguousPath(path) => {
                LocationResolutionErrorView::AmbiguousPath(path@)
            },
        }
    }
}

impl LocationResolutionError {
    /// The message that is shown for an error.
    pub open spec fn message_text(&self) -> Seq<char> {
        match self {
            LocationResolutionError::InvalidCoordinate => {
                "location line and column are one-based and must be positive"@
            },
            LocationResolutionError::OutOfRange => "location is outside the indexed source text"@,
            LocationResolutionError::UnknownPath(path) => "workspace path is not indexed: "@
                + path@,
            LocationResolutionError::AmbiguousPath(path) => {
                "workspace path is indexed by multiple source units: "@ + path@
            },
        }
    }

    /// Computes `message_text`.
    pub fn message(&self) -> (result: String)
        ensures
            result@ == self.message_text(),
    {
        match self {
            LocationResolutionError::InvalidCoordinate => {
                "location line and column are one-based and must be positive".to_owned()
            },
            LocationResolutionError::OutOfRange => {
                "location is outside the indexed source text".to_owned()
            },
            LocationResolutionError::UnknownPath(path) => text::join_text(
                "workspace path is not indexed: ",
                path.as_str(),
            ),
            LocationResolutionError::AmbiguousPath(path) => text::join_text(
                "workspace path is indexed by multiple source units: ",
                path.as_str(),
            ),
        }
    }
}

/// The one source unit at a path, given all that are persisted there.
pub fn unique_source_unit(units: &[SourceUnit], path: &str) -> (result: Result<
    SourceUnitId,
    LocationResolutionError,
>)
    ensures
        units@.len() == 0 ==> result is Err && result->Err_0@
            == LocationResolutionErrorView::UnknownPath(path@),
        units@.len() == 1 ==> result == Ok::<SourceUnitId, LocationResolutionError>(units@[0].id),
        units@.len() > 1 ==> result is Err && result->Err_0@
            == LocationResolutionErrorView::AmbiguousPath(path@),
{
    if units.len() == 0 {
        Err(LocationResolutionError::UnknownPath(path.to_owned()))
    } else if units.len() == 1 {
        Ok(units[0].id.clone())
    } else {
        Err(LocationResolutionError::AmbiguousPath(path.to_owned()))
    }
}

/// The index of a one-based position; an error, where the line or the column
/// is not there. The end of a line is a position.
pub open spec fn position_index(s: Seq<char>, at: TextPosition) -> Result<
    int,
    LocationResolutionErrorView,
> {
    let start = position::nth_line_start(s, (at.line - 1) as nat);
    if at.line == 0 || at.column == 0 {
        Err(LocationResolutionErrorView::InvalidCoordinate)
    } else if start >= s.len() || at.column - 1 > position::line_length(s, start) {
        Err(LocationResolutionErrorView::OutOfRange)
    } else {
        Ok(start + at.column - 1)
    }
}

/// Converts a one-based line and a one-based column in scalar values to a byte
/// offset. A column cannot split a scalar value.
pub fn byte_offset(text: &str, position: TextPosition) -> (result: Result<
    u64,
    LocationResolutionError,
>)
    ensures
        match position_index(text@, position) {
            Ok(k) => result is Ok && position::is_index_at(text@, result->Ok_0 as int, k),
            Err(problem) => result is Err && result->Err_0@ == problem,
        },
{
    if position.line == 0 || position.column == 0 {
        return Err(LocationResolutionError::InvalidCoordinate);
    }
    let chars = text::chars_of(text);
    let len: usize = chars.len();
    let start: usize = find_line(chars.as_slice(), (position.line - 1) as usize);
    if start >= len {
        return Err(LocationResolutionError::OutOfRange);
    }
    let length: usize = text::find_char(&chars[start..len], '\n');
    proof {
        assert(chars@.subrange(start as int, len as int) =~= text@.skip(start as int));
        text::lemma_first_position(text@.skip(start as int), '\n');
    }
    let column: usize = (position.column - 1) as usize;
    if column > length {
        return Err(LocationResolutionError::OutOfRange);
    }
    let total: usize = byte_length(text);
    Ok(find_offset(chars.as_slice(), total, start + column) as u64)
}

/// What a list of symbols resolves to: none, the one, or all of them in
/// ascending order.
pub open spec fn resolution_of(symbols: Seq<SymbolId>) -> Option<LocationResolutionView> {
    let ids = ordering::sorted_texts(ordered_map::keys_of(symbols));
    if ids.len() == 0 {
        None
    } else if ids.len() == 1 {
        Some(LocationResolutionView::Symbol(ids[0]))
    } else {
        Some(LocationResolutionView::Ambiguous { candidates: ids })
    }
}

fn resolve_symbols(symbols: &[SymbolId]) -> (result: Option<LocationResolution>)
    ensures
        match resolution_of(symbols@) {
            Some(resolution) => result is Some && result->Some_0@ == resolution,
            None => result is None,
        },
{
    let candidates = sorted_symbols(symbols);
    assert(identifiers::symbol_texts(candidates@).len() == candidates@.len());
    if candidates.len() == 0 {
        None
    } else if candidates.len() == 1 {
        assert(identifiers::symbol_texts(candidates@)[0] == candidates@[0]@);
        Some(LocationResolution::Symbol(candidates[0].clone()))
    } else {
        Some(LocationResolution::Ambiguous { candidates })
    }
}

/// The targets of the first `n` occurrences.
pub open spec fn occurrence_targets(occurrences: Seq<SourceOccurrence>, n: int) -> Seq<SymbolId>
    decreases n,
{
    if n <= 0 {
        Seq::empty()
    } else {
        let before = occurrence_targets(occurrences, n - 1);
        match occurrences[n - 1].target {
            Some(target) => before.push(target),
            None => before,
        }
    }
}

/// How wide the name of a symbol is.
pub open spec fn name_width(symbol: SymbolRecord) -> int {
    symbol.name_range.bytes.end - symbol.name_range.bytes.start
}

/// Whether the name of a symbol covers an offset.
pub open spec fn name_covers(symbol: SymbolRecord, offset: u64) -> bool {
    symbol.name_range.bytes.start <= offset < symbol.name_range.bytes.end
}

/// Whether no candidate is narrower than candidate `i`.
pub open spec fn is_narrowest(candidates: Seq<SymbolRecord>, i: int) -> bool {
    forall|j: int|
        0 <= j < candidates.len() ==> name_width(candidates[i]) <= name_width(
            #[trigger] candidates[j],
        )
}

/// Whether one of the narrowest candidates is no constructor.
pub open spec fn has_plain_candidate(candidates: Seq<SymbolRecord>) -> bool {
    exists|i: int|
        0 <= i < candidates.len() && #[trigger] is_narrowest(candidates, i) && candidates[i].kind
            != SymbolKind::Constructor
}

/// Whether candidate `i` is chosen: it is one of the narrowest, and a
/// constructor only where all of the narrowest are.
pub open spec fn is_chosen(candidates: Seq<SymbolRecord>, i: int) -> bool {
    is_narrowest(candidates, i) && (candidates[i].kind != SymbolKind::Constructor
        || !has_plain_candidate(candidates))
}

/// The chosen ones of the first `n` candidates.
pub open spec fn chosen_symbols(candidates: Seq<SymbolRecord>, n: int) -> Seq<SymbolId>
    decreases n,
{
    if n <= 0 {
        Seq::empty()
    } else {
        let before = chosen_symbols(candidates, n - 1);
        if is_chosen(candidates, n - 1) {
            before.push(candidates[n - 1].id)
        } else {
            before
        }
    }
}

/// The declarations of a source unit whose names cover an offset.
pub open spec fn covering(symbols: Seq<SymbolRecord>, offset: u64) -> Seq<SymbolRecord> {
    symbols.filter(|symbol: SymbolRecord| name_covers(symbol, offset))
}

/// Resolves declarations to the narrowest of them.
pub fn resolve_declaration_candidates(candidates: &[&SymbolRecord]) -> (result: Option<
    LocationResolution,
>)
    requires
        forall|i: int|
            0 <= i < candidates@.len() ==> (#[trigger] candidates@[i]).name_range.bytes.start
                <= candidates@[i].name_range.bytes.end,
    ensures
        ({
            let records = Seq::new(candidates@.len(), |i: int| *candidates@[i]);
            match resolution_of(chosen_symbols(records, records.len() as int)) {
                Some(resolution) => result is Some && result->Some_0@ == resolution,
                None => result is None,
            }
        }),
{
    let ghost records = Seq::new(candidates@.len(), |i: int| *candidates@[i]);
    if candidates.len() == 0 {
        let none: Vec<SymbolId> = Vec::new();
        assert(none@ =~= chosen_symbols(records, 0));
        return resolve_symbols(none.as_slice());
    }
    let mut narrowest: u64 = candidates[0].name_range.bytes.end
        - candidates[0].name_range.bytes.start;
    assert(narrowest == name_width(records[0]));
    let mut i: usize = 1;
    while i < candidates.len()
        invariant
            forall|j: int|
                0 <= j < candidates@.len() ==> (#[trigger] candidates@[j]).name_range.bytes.start
                    <= candidates@[j].name_range.bytes.end,
            1 <= i <= candidates@.len(),
            records == Seq::new(candidates@.len(), |j: int| *candidates@[j]),
            forall|j: int| 0 <= j < i ==> narrowest <= name_width(#[trigger] records[j]),
            exists|j: int| 0 <= j < i && narrowest == name_width(#[trigger] records[j]),
        decreases candidates@.len() - i,
    {
        let width: u64 = candidates[i].name_range.bytes.end - candidates[i].name_range.bytes.start;
        assert(records[i as int] == *candidates@[i as int]);
        if width < narrowest {
            narrowest = width;
            assert(narrowest == name_width(records[i as int]));
        }
        i = i + 1;
    }
    proof {
        let m = choose|j: int| 0 <= j < i && narrowest == name_width(#[trigger] records[j]);
        assert forall|j: int| 0 <= j < records.len() implies #[trigger] is_narrowest(records, j)
            == (name_width(records[j]) == narrowest) by {
            if is_narrowest(records, j) {
                assert(name_width(records[j]) <= name_width(records[m]));
            }
        }
    }
    let mut plain: bool = false;
    let mut j: usize = 0;
    while j < candidates.len()
        invariant
            forall|k: int|
                0 <= k < candidates@.len() ==> (#[trigger] candidates@[k]).name_range.bytes.start
                    <= candidates@[k].name_range.bytes.end,
            j <= candidates@.len(),
            records == Seq::new(candidates@.len(), |k: int| *candidates@[k]),
            forall|k: int|
                0 <= k < records.len() ==> #[trigger] is_narrowest(records, k) == (name_width(
                    records[k],
                ) == narrowest),
            plain <==> exists|k: int|
                0 <= k < j && #[trigger] is_narrowest(records, k) && records[k].kind
                    != SymbolKind::Constructor,
        decreases candidates@.len() - j,
    {
        let symbol = candidates[j];
        assert(records[j as int] == *symbol);
        if symbol.name_range.bytes.end - symbol.name_range.bytes.start == narrowest && symbol.kind
            != SymbolKind::Constructor {
            assert(is_narrowest(records, j as int));
            plain = true;
        } else {
            assert(!(is_narrowest(records, j as int) && records[j as int].kind
                != SymbolKind::Constructor));
        }
        j = j + 1;
    }
    assert(plain == has_plain_candidate(records));
    let mut ids: Vec<SymbolId> = Vec::new();
    let mut k: usize = 0;
    while k < candidates.len()
        invariant
            forall|m: int|
                0 <= m < candidates@.len() ==> (#[trigger] candidates@[m]).name_range.bytes.start
                    <= candidates@[m].name_range.bytes.end,
            k <= candidates@.len(),
            records == Seq::new(candidates@.len(), |m: int| *candidates@[m]),
            forall|m: int|
                0 <= m < records.len() ==> #[trigger] is_narrowest(records, m) == (name_width(
                    records[m],
                ) == narrowest),
            plain == has_plain_candidate(records),
            ids@ == chosen_symbols(records, k as int),
        decreases candidates@.len() - k,
    {
        let symbol = candidates[k];
        assert(records[k as int] == *symbol);
        assert(is_narrowest(records, k as int) == (name_width(records[k as int]) == narrowest));
        if symbol.name_range.bytes.end - symbol.name_range.bytes.start == narrowest && (
        symbol.kind != SymbolKind::Constructor || !plain) {
            ids.push(symbol.id.clone());
        }
        k = k + 1;
    }
    resolve_symbols(ids.as_slice())
}

/// What a location resolves to, given the occurrences at its offset and the
/// declarations of its source unit: the targets of the occurrences, and
/// without any the narrowest declarations whose names cover the offset.
pub open spec fn location_resolution(
    occurrences: Seq<SourceOccurrence>,
    symbols: Seq<SymbolRecord>,
    offset: u64,
) -> LocationResolutionView {
    let candidates = covering(symbols, offset);
    match resolution_of(occurrence_targets(occurrences, occurrences.len() as int)) {
        Some(resolution) => resolution,
        None => match resolution_of(chosen_symbols(candidates, candidates.len() as int)) {
            Some(resolution) => resolution,
            None => LocationResolutionView::NoResult,
        },
    }
}

/// Resolves a location from the occurrences at its offset and the declarations
/// of its source unit.
pub fn resolve_location(
    occurrences: &[SourceOccurrence],
    symbols: &[SymbolRecord],
    offset: u64,
) -> (result: LocationResolution)
    ensures
        result@ == location_resolution(occurrences@, symbols@, offset),
{
    let mut targets: Vec<SymbolId> = Vec::new();
    let mut i: usize = 0;
    while i < occurrences.len()
        invariant
            i <= occurrences@.len(),
            targets@ == occurrence_targets(occurrences@, i as int),
        decreases occurrences@.len() - i,
    {
        if let Some(target) = &occurrences[i].target {
            targets.push(target.clone());
        }
        i = i + 1;
    }
    if let Some(resolution) = resolve_symbols(targets.as_slice()) {
        return resolution;
    }
    let mut candidates: Vec<&SymbolRecord> = Vec::new();
    let ghost mut records: Seq<SymbolRecord> = Seq::empty();
    let mut j: usize = 0;
    while j < symbols.len()
        invariant
            j <= symbols@.len(),
            records == covering(symbols@.take(j as int), offset),
            candidates@.len() == records.len(),
            forall|k: int|
                0 <= k < records.len() ==> *(#[trigger] candidates@[k]) == records[k]
                    && name_covers(records[k], offset),
        decreases symbols@.len() - j,
    {
        proof {
            assert(symbols@.take(j + 1).drop_last() =~= symbols@.take(j as int));
            assert(symbols@.take(j + 1).last() == symbols@[j as int]);
            reveal(Seq::filter);
        }
        let symbol = &symbols[j];
        if symbol.name_range.bytes.start <= offset && offset < symbol.name_range.bytes.end {
            candidates.push(symbol);
            proof {
                records = records.push(*symbol);
            }
        }
        j = j + 1;
    }
    assert(symbols@.take(j as int) =~= symbols@);
    assert(records =~= Seq::new(candidates@.len(), |k: int| *candidates@[k]));
    match resolve_declaration_candidates(candidates.as_slice()) {
        Some(resolution) => resolution,
        None => LocationResolution::NoResult,
    }
}

/// The source unit and the byte offset of a location: the units at its path
/// are looked at first, then its coordinates.
pub fn locate(units: &[SourceUnit], location: &Location, source_text: &str) -> (result: Result<
    (SourceUnitId, u64),
    LocationResolutionError,
>)
    ensures
        units@.len() == 0 ==> result is Err && result->Err_0@
            == LocationResolutionErrorView::UnknownPath(location.path@),
        units@.len() > 1 ==> result is Err && result->Err_0@
            == LocationResolutionErrorView::AmbiguousPath(location.path@),
        units@.len() == 1 ==> match position_index(source_text@, location.position) {
            Ok(k) => result is Ok && result->Ok_0.0 == units@[0].id && position::is_index_at(
                source_text@,
                result->Ok_0.1 as int,
                k,
            ),
            Err(problem) => result is Err && result->Err_0@ == problem,
        },
{
    let unit = match unique_source_unit(units, location.path.as_str()) {
        Ok(unit) => unit,
        Err(error) => {
            return Err(error);
        },
    };
    match byte_offset(source_text, location.position) {
        Ok(offset) => Ok((unit, offset)),
        Err(error) => Err(error),
    }
}

/// The position of an index leads back to the index, wherever its line is a
/// line of the text.
pub proof fn law_position_round_trip(s: Seq<char>, k: int, at: TextPosition)
    requires
        0 <= k <= s.len(),
        position::line_start(s, k) < s.len(),
        at.line == position::line_of(s, k),
        at.column == position::column_of(s, k),
    ensures
        position_index(s, at) == Ok::<int, LocationResolutionErrorView>(k),
{
    position::lemma_line_of_start(s, k);
    assert((at.line - 1) as nat == position::line_feeds(s.take(k)));
}

/// A position that has an index is the position of that index.
pub proof fn law_index_round_trip(s: Seq<char>, at: TextPosition, k: int)
    requires
        position_index(s, at) == Ok::<int, LocationResolutionErrorView>(k),
    ensures
        0 <= k <= s.len(),
        at.line == position::line_of(s, k),
        at.column == position::column_of(s, k),
{
    position::lemma_nth_line_start_bounds(s, (at.line - 1) as nat);
    position::lemma_start_of_line(s, (at.line - 1) as nat, k);
    position::lemma_line_of_start(s, k);
}

/// The target of a resolved location is the target of an occurrence there, or
/// a declaration whose name covers the offset.
pub proof fn law_resolution_is_grounded(
    occurrences: Seq<SourceOccurrence>,
    symbols: Seq<SymbolRecord>,
    offset: u64,
    id: Seq<char>,
)
    requires
        location_resolution(occurrences, symbols, offset) == LocationResolutionView::Symbol(id),
    ensures
        ordered_map::keys_of(occurrence_targets(occurrences, occurrences.len() as int)).contains(
            id,
        ) || ordered_map::keys_of(
            chosen_symbols(covering(symbols, offset), covering(symbols, offset).len() as int),
        ).contains(id),
{
    let targets = occurrence_targets(occurrences, occurrences.len() as int);
    let candidates = covering(symbols, offset);
    let chosen = chosen_symbols(candidates, candidates.len() as int);
    lemma_resolution_in(targets, id);
    lemma_resolution_in(chosen, id);
}

proof fn lemma_resolution_in(symbols: Seq<SymbolId>, id: Seq<char>)
    ensures
        resolution_of(symbols) == Some(LocationResolutionView::Symbol(id)) ==> ordered_map::keys_of(
            symbols,
        ).contains(id),
{
    let keys = ordered_map::keys_of(symbols);
    ordered_map::lemma_keys_of(symbols, id);
    ordering::lemma_sorted_texts(keys);
    let ids = ordering::sorted_texts(keys);
    if ids.len() == 1 {
        assert(ids.to_set().contains(ids[0]));
    }
}

/// Whether a resolution offers a symbol.
pub open spec fn offers(resolution: LocationResolution, id: Seq<char>) -> bool {
    match resolution {
        LocationResolution::Symbol(symbol) => symbol@ == id,
        LocationResolution::NoResult => false,
        LocationResolution::Ambiguous { candidates } => exists|i: int|
            0 <= i < candidates@.len() && (#[trigger] candidates@[i])@ == id,
    }
}

proof fn lemma_resolved(symbols: Seq<SymbolId>, resolution: LocationResolution, id: Seq<char>)
    requires
        resolution_of(symbols) == Some(resolution@),
    ensures
        offers(resolution, id) <==> exists|i: int|
            0 <= i < symbols.len() && (#[trigger] symbols[i])@ == id,
        !(resolution is NoResult),
        resolution matches LocationResolution::Ambiguous { candidates } ==> candidates@.len() >= 2
            && identifiers::symbol_texts(candidates@).no_duplicates(),
{
    let keys = ordered_map::keys_of(symbols);
    ordered_map::lemma_keys_of(symbols, id);
    ordering::lemma_sorted_texts(keys);
    let ids = ordering::sorted_texts(keys);
    assert(ids.to_set().contains(id) == keys.contains(id));
    if keys.contains(id) {
        let i = choose|i: int| 0 <= i < symbols.len() && (#[trigger] symbols[i]).key() == id;
        assert(symbols[i]@ == id);
        let k = ids.index_of(id);
        assert(ids[k] == id);
    }
    if exists|i: int| 0 <= i < symbols.len() && (#[trigger] symbols[i])@ == id {
        let i = choose|i: int| 0 <= i < symbols.len() && (#[trigger] symbols[i])@ == id;
        assert(symbols[i].key() == id);
    }
    assert forall|i: int, j: int|
        0 <= i < ids.len() && 0 <= j < ids.len() && i != j implies ids[i] != ids[j] by {
        text::lemma_text_lt_irreflexive(ids[i]);
        if i < j {
            assert(text::text_lt(ids[i], ids[j]));
        } else {
            assert(text::text_lt(ids[j], ids[i]));
        }
    }
    match resolution {
        LocationResolution::Symbol(symbol) => {
            assert(ids.len() == 1 && symbol@ == ids[0]);
            if offers(resolution, id) {
                assert(ids.contains(id));
            }
        },
        LocationResolution::NoResult => {},
        LocationResolution::Ambiguous { candidates } => {
            let texts = identifiers::symbol_texts(candidates@);
            assert(texts == ids);
            if offers(resolution, id) {
                let i = choose|i: int|
                    0 <= i < candidates@.len() && (#[trigger] candidates@[i])@ == id;
                assert(texts[i] == id);
            }
            if ids.contains(id) {
                let i = ids.index_of(id);
                assert(candidates@[i]@ == texts[i]);
            }
        },
    }
}

proof fn lemma_targets(occurrences: Seq<SourceOccurrence>, n: int, id: Seq<char>)
    requires
        0 <= n <= occurrences.len(),
    ensures
        (exists|i: int|
            0 <= i < occurrence_targets(occurrences, n).len() && (
            #[trigger] occurrence_targets(occurrences, n)[i])@ == id) <==> exists|i: int|
            0 <= i < n && (#[trigger] occurrences[i]).target is Some && occurrences[i].target->0@
                == id,
        occurrence_targets(occurrences, n).len() == 0 <==> forall|i: int|
            0 <= i < n ==> (#[trigger] occurrences[i]).target is None,
    decreases n,
{
    if n > 0 {
        lemma_targets(occurrences, n - 1, id);
        let before = occurrence_targets(occurrences, n - 1);
        let now = occurrence_targets(occurrences, n);
        let last = occurrences[n - 1];
        if exists|i: int| 0 <= i < before.len() && (#[trigger] before[i])@ == id {
            let i = choose|i: int| 0 <= i < before.len() && (#[trigger] before[i])@ == id;
            assert(now[i]@ == id);
        }
        if last.target is Some {
            assert(now[before.len() as int] == last.target->0);
        }
        if exists|i: int| 0 <= i < now.len() && (#[trigger] now[i])@ == id {
            let i = choose|i: int| 0 <= i < now.len() && (#[trigger] now[i])@ == id;
            if i < before.len() {
                assert(before[i]@ == id);
            } else {
                assert(occurrences[n - 1].target is Some);
            }
        }
    }
}

/// Where occurrences at the offset have targets, the location resolves to these
/// and to nothing else: to the one there is, or to all of them.
pub proof fn law_occurrence_targets_are_resolved(
    occurrences: &[SourceOccurrence],
    symbols: &[SymbolRecord],
    offset: u64,
    result: LocationResolution,
    id: Seq<char>,
)
    requires
        call_ensures(resolve_location, (occurrences, symbols, offset), result),
        exists|i: int| 0 <= i < occurrences@.len() && (#[trigger] occurrences@[i]).target is Some,
    ensures
        !(result is NoResult),
        offers(result, id) <==> exists|i: int|
            0 <= i < occurrences@.len() && (#[trigger] occurrences@[i]).target is Some
                && occurrences@[i].target->0@ == id,
        result matches LocationResolution::Ambiguous { candidates } ==> candidates@.len() >= 2
            && identifiers::symbol_texts(candidates@).no_duplicates(),
{
    let n = occurrences@.len() as int;
    let targets = occurrence_targets(occurrences@, n);
    lemma_targets(occurrences@, n, id);
    let k = choose|i: int| 0 <= i < n && (#[trigger] occurrences@[i]).target is Some;
    lemma_some_resolution(targets);
    lemma_resolved(targets, result, id);
}

proof fn lemma_some_resolution(symbols: Seq<SymbolId>)
    ensures
        resolution_of(symbols) is Some <==> symbols.len() > 0,
{
    let keys = ordered_map::keys_of(symbols);
    ordered_map::lemma_keys_of(symbols, Seq::empty());
    ordering::lemma_sorted_texts(keys);
    let ids = ordering::sorted_texts(keys);
    if symbols.len() > 0 {
        let key = symbols[0].key();
        ordered_map::lemma_keys_of(symbols, key);
        assert(ids.to_set().contains(key));
    } else if ids.len() > 0 {
        assert(ids.to_set().contains(ids[0]));
    }
}

proof fn lemma_chosen(candidates: Seq<SymbolRecord>, n: int, id: Seq<char>)
    requires
        0 <= n <= candidates.len(),
    ensures
        (exists|i: int|
            0 <= i < chosen_symbols(candidates, n).len() && (
            #[trigger] chosen_symbols(candidates, n)[i])@ == id) <==> exists|i: int|
            0 <= i < n && #[trigger] is_chosen(candidates, i) && candidates[i].id@ == id,
    decreases n,
{
    if n > 0 {
        lemma_chosen(candidates, n - 1, id);
        let before = chosen_symbols(candidates, n - 1);
        let now = chosen_symbols(candidates, n);
        if exists|i: int| 0 <= i < before.len() && (#[trigger] before[i])@ == id {
            let i = choose|i: int| 0 <= i < before.len() && (#[trigger] before[i])@ == id;
            assert(now[i]@ == id);
        }
        if is_chosen(candidates, n - 1) {
            assert(now[before.len() as int] == candidates[n - 1].id);
        }
        if exists|i: int| 0 <= i < now.len() && (#[trigger] now[i])@ == id {
            let i = choose|i: int| 0 <= i < now.len() && (#[trigger] now[i])@ == id;
            if i < before.len() {
                assert(before[i]@ == id);
            } else {
                assert(is_chosen(candidates, n - 1));
            }
        }
    }
}

proof fn lemma_has_narrowest(candidates: Seq<SymbolRecord>) -> (i: int)
    requires
        candidates.len() > 0,
    ensures
        0 <= i < candidates.len(),
        is_narrowest(candidates, i),
    decreases candidates.len(),
{
    let last = candidates.len() - 1;
    if last == 0 {
        0
    } else {
        let rest = candidates.drop_last();
        let i = lemma_has_narrowest(rest);
        assert(forall|j: int| 0 <= j < rest.len() ==> #[trigger] rest[j] == candidates[j]);
        let found = if name_width(candidates[last]) < name_width(rest[i]) {
            last
        } else {
            i
        };
        assert forall|j: int| 0 <= j < candidates.len() implies name_width(candidates[found])
            <= name_width(#[trigger] candidates[j]) by {
            if j < last {
                assert(rest[j] == candidates[j]);
            }
        }
        found
    }
}

proof fn lemma_chosen_exists(candidates: Seq<SymbolRecord>)
    ensures
        chosen_symbols(candidates, candidates.len() as int).len() > 0 <==> candidates.len() > 0,
{
    let m = candidates.len() as int;
    if m > 0 {
        let i = lemma_has_narrowest(candidates);
        let best = if has_plain_candidate(candidates) {
            choose|i: int|
                0 <= i < candidates.len() && #[trigger] is_narrowest(candidates, i)
                    && candidates[i].kind != SymbolKind::Constructor
        } else {
            i
        };
        assert(is_chosen(candidates, best));
        lemma_chosen(candidates, m, candidates[best].id@);
    }
}

proof fn lemma_covering_resolution(
    occurrences: Seq<SourceOccurrence>,
    symbols: Seq<SymbolRecord>,
    offset: u64,
    resolution: LocationResolution,
    id: Seq<char>,
)
    requires
        resolution@ == location_resolution(occurrences, symbols, offset),
        forall|i: int| 0 <= i < occurrences.len() ==> (#[trigger] occurrences[i]).target is None,
    ensures
        ({
            let candidates = symbols.filter(|symbol: SymbolRecord| name_covers(symbol, offset));
            &&& resolution is NoResult <==> candidates.len() == 0
            &&& offers(resolution, id) <==> exists|i: int|
                0 <= i < candidates.len() && #[trigger] is_chosen(candidates, i)
                    && candidates[i].id@ == id
        }),
        resolution matches LocationResolution::Ambiguous { candidates } ==> candidates@.len() >= 2
            && identifiers::symbol_texts(candidates@).no_duplicates(),
{
    let candidates = covering(symbols, offset);
    let m = candidates.len() as int;
    let chosen = chosen_symbols(candidates, m);
    lemma_targets(occurrences, occurrences.len() as int, id);
    lemma_some_resolution(occurrence_targets(occurrences, occurrences.len() as int));
    lemma_some_resolution(chosen);
    lemma_chosen_exists(candidates);
    lemma_chosen(candidates, m, id);
    if m > 0 {
        lemma_resolved(chosen, resolution, id);
    }
}

/// Where no occurrence at the offset has a target, there is no result exactly
/// where the name of no declaration covers the offset.
pub proof fn law_covering_declaration_is_a_result(
    occurrences: &[SourceOccurrence],
    symbols: &[SymbolRecord],
    offset: u64,
    result: LocationResolution,
)
    requires
        call_ensures(resolve_location, (occurrences, symbols, offset), result),
        forall|i: int| 0 <= i < occurrences@.len() ==> (#[trigger] occurrences@[i]).target is None,
    ensures
        result is NoResult <==> forall|k: int|
            0 <= k < symbols@.len() ==> !((#[trigger] symbols@[k]).name_range.bytes.start <= offset
                < symbols@[k].name_range.bytes.end),
        result matches LocationResolution::Ambiguous { candidates } ==> candidates@.len() >= 2
            && identifiers::symbol_texts(candidates@).no_duplicates(),
{
    let f = |symbol: SymbolRecord| name_covers(symbol, offset);
    lemma_covering_resolution(occurrences@, symbols@, offset, result, Seq::empty());
    let positions = ordering::lemma_filter_positions(symbols@, f);
    if symbols@.filter(f).len() > 0 {
        assert(f(symbols@[positions[0]]));
    } else {
        assert forall|k: int| 0 <= k < symbols@.len() implies !((
        #[trigger] symbols@[k]).name_range.bytes.start <= offset
            < symbols@[k].name_range.bytes.end) by {
            assert(!f(symbols@[k]));
        }
    }
}

/// Where no occurrence at the offset has a target, a declaration whose name
/// covers the offset is offered where no other such name is narrower, unless it
/// is a constructor and one of the same width is none.
pub proof fn law_narrowest_declaration_is_offered(
    occurrences: &[SourceOccurrence],
    symbols: &[SymbolRecord],
    offset: u64,
    result: LocationResolution,
    k: int,
)
    requires
        call_ensures(resolve_location, (occurrences, symbols, offset), result),
        forall|i: int| 0 <= i < occurrences@.len() ==> (#[trigger] occurrences@[i]).target is None,
        0 <= k < symbols@.len(),
        symbols@[k].name_range.bytes.start <= offset < symbols@[k].name_range.bytes.end,
        forall|j: int|
            0 <= j < symbols@.len() && (#[trigger] symbols@[j]).name_range.bytes.start <= offset
                < symbols@[j].name_range.bytes.end ==> {
                let own = symbols@[k].name_range.bytes.end - symbols@[k].name_range.bytes.start;
                let other = symbols@[j].name_range.bytes.end - symbols@[j].name_range.bytes.start;
                &&& own <= other
                &&& own == other && symbols@[k].kind == SymbolKind::Constructor
                    ==> symbols@[j].kind == SymbolKind::Constructor
            },
    ensures
        offers(result, symbols@[k].id@),
{
    let all = symbols@;
    let f = |symbol: SymbolRecord| name_covers(symbol, offset);
    let candidates = all.filter(f);
    lemma_covering_resolution(occurrences@, all, offset, result, all[k].id@);
    let positions = ordering::lemma_filter_positions(all, f);
    assert(f(all[k]));
    let i = positions.index_of(k);
    assert(positions[i] == k && candidates[i] == all[k]);
    assert forall|x: int| 0 <= x < candidates.len() implies name_width(candidates[i])
        <= name_width(#[trigger] candidates[x]) by {
        assert(f(candidates[x]));
        assert(all[positions[x]] == candidates[x]);
    }
    if has_plain_candidate(candidates) {
        let x = choose|x: int|
            0 <= x < candidates.len() && #[trigger] is_narrowest(candidates, x)
                && candidates[x].kind != SymbolKind::Constructor;
        assert(f(candidates[x]));
        assert(all[positions[x]] == candidates[x]);
        assert(name_width(candidates[x]) <= name_width(candidates[i]));
    }
    assert(is_chosen(candidates, i));
}

/// Where no occurrence at the offset has a target, what is offered is declared
/// with a name that covers the offset, no other such name is narrower than it,
/// and it is a constructor only where all names of its width are.
pub proof fn law_offered_declaration_is_narrowest(
    occurrences: &[SourceOccurrence],
    symbols: &[SymbolRecord],
    offset: u64,
    result: LocationResolution,
    id: Seq<char>,
) -> (k: int)
    requires
        call_ensures(resolve_location, (occurrences, symbols, offset), result),
        forall|i: int| 0 <= i < occurrences@.len() ==> (#[trigger] occurrences@[i]).target is None,
        offers(result, id),
    ensures
        0 <= k < symbols@.len(),
        symbols@[k].id@ == id,
        symbols@[k].name_range.bytes.start <= offset < symbols@[k].name_range.bytes.end,
        forall|j: int|
            0 <= j < symbols@.len() && (#[trigger] symbols@[j]).name_range.bytes.start <= offset
                < symbols@[j].name_range.bytes.end ==> {
                let own = symbols@[k].name_range.bytes.end - symbols@[k].name_range.bytes.start;
                let other = symbols@[j].name_range.bytes.end - symbols@[j].name_range.bytes.start;
                &&& own <= other
                &&& own == other && symbols@[k].kind == SymbolKind::Constructor
                    ==> symbols@[j].kind == SymbolKind::Constructor
            },
{
    let all = symbols@;
    let f = |symbol: SymbolRecord| name_covers(symbol, offset);
    let candidates = all.filter(f);
    lemma_covering_resolution(occurrences@, all, offset, result, id);
    let positions = ordering::lemma_filter_positions(all, f);
    let i = choose|i: int|
        0 <= i < candidates.len() && #[trigger] is_chosen(candidates, i) && candidates[i].id@
            == id;
    let k = positions[i];
    assert(f(candidates[i]));
    assert(all[k] == candidates[i]);
    assert forall|j: int|
        0 <= j < all.len() && (#[trigger] all[j]).name_range.bytes.start <= offset
            < all[j].name_range.bytes.end implies {
        let own = all[k].name_range.bytes.end - all[k].name_range.bytes.start;
        let other = all[j].name_range.bytes.end - all[j].name_range.bytes.start;
        &&& own <= other
        &&& own == other && all[k].kind == SymbolKind::Constructor ==> all[j].kind
            == SymbolKind::Constructor
    } by {
        assert(f(all[j]));
        let q = positions.index_of(j);
        assert(positions[q] == j);
        assert(candidates[q] == all[j]);
        assert(name_width(candidates[i]) <= name_width(candidates[q]));
        if name_width(candidates[i]) == name_width(candidates[q]) {
            assert forall|x: int| 0 <= x < candidates.len() implies name_width(candidates[q])
                <= name_width(#[trigger] candidates[x]) by {
                assert(name_width(candidates[i]) <= name_width(candidates[x]));
            }
            assert(is_narrowest(candidates, q));
        }
    }
    k
}

/// Where no occurrence at the offset has a target and the name of exactly one
/// declaration covers the offset, the location is resolved to it.
pub proof fn law_one_covering_declaration_is_the_result(
    occurrences: &[SourceOccurrence],
    symbols: &[SymbolRecord],
    offset: u64,
    result: LocationResolution,
    k: int,
)
    requires
        call_ensures(resolve_location, (occurrences, symbols, offset), result),
        forall|i: int| 0 <= i < occurrences@.len() ==> (#[trigger] occurrences@[i]).target is None,
        0 <= k < symbols@.len(),
        symbols@[k].name_range.bytes.start <= offset < symbols@[k].name_range.bytes.end,
        forall|j: int|
            0 <= j < symbols@.len() && (#[trigger] symbols@[j]).name_range.bytes.start <= offset
                < symbols@[j].name_range.bytes.end ==> j == k,
    ensures
        result is Symbol,
        result->Symbol_0@ == symbols@[k].id@,
{
    law_covering_declaration_is_a_result(occurrences, symbols, offset, result);
    law_narrowest_declaration_is_offered(occurrences, symbols, offset, result, k);
    if let LocationResolution::Ambiguous { candidates } = result {
        let texts = identifiers::symbol_texts(candidates@);
        assert(texts[0] == candidates@[0]@ && texts[1] == candidates@[1]@);
        let a = law_offered_declaration_is_narrowest(
            occurrences,
            symbols,
            offset,
            result,
            candidates@[0]@,
        );
        let b = law_offered_declaration_is_narrowest(
            occurrences,
            symbols,
            offset,
            result,
            candidates@[1]@,
        );
        assert(a == k && b == k);
    }
}

/// A location is resolved in the one source unit at its path. With none or with
/// several there, it is refused.
pub proof fn law_location_needs_one_unit(
    units: &[SourceUnit],
    location: &Location,
    source_text: &str,
    result: Result<(SourceUnitId, u64), LocationResolutionError>,
)
    requires
        call_ensures(locate, (units, location, source_text), result),
    ensures
        result is Ok ==> units@.len() == 1 && result->Ok_0.0 == units@[0].id
            && location.position.line > 0 && location.position.column > 0,
        units@.len() == 0 ==> result is Err && result->Err_0 is UnknownPath,
        units@.len() >= 2 ==> result is Err && result->Err_0 is AmbiguousPath,
        units@.len() == 1 && (location.position.line == 0 || location.position.column == 0)
            ==> result is Err && result->Err_0 is InvalidCoordinate,
{
}

/// A line and a column point at the scalar value that stands there: the offset
/// is the number of bytes before it. Lines are counted by the line feeds before
/// them, columns by the scalar values before them on the line.
pub proof fn law_position_is_the_offset_of_its_scalar(
    text: &str,
    at: TextPosition,
    k: int,
    feed: int,
    result: Result<u64, LocationResolutionError>,
)
    requires
        call_ensures(byte_offset, (text, at), result),
        -1 <= feed < k <= text@.len(),
        feed + 1 < text@.len(),
        feed >= 0 ==> text@[feed] == '\n',
        forall|i: int| feed < i < k ==> text@[i] != '\n',
        at.line == text@.take(k).filter(|c: char| c == '\n').len() + 1,
        at.column == k - feed,
    ensures
        result is Ok,
        result->Ok_0 == vstd::utf8::encode_utf8(text@.take(k)).len(),
{
    let before = text@.take(k);
    assert forall|i: int| feed < i < before.len() implies before[i] != '\n' by {
        assert(before[i] == text@[i]);
    }
    text::lemma_last_position_is(before, '\n', feed);
    crate::navigation::lemma_filtered_feeds(before);
    position::lemma_line_of_start(text@, k);
    assert(position_index(text@, at) is Ok);
    assert(position::is_index_at(text@, result->Ok_0 as int, k));
}

/// Lines and columns start at one.
pub proof fn law_coordinates_start_at_one(
    text: &str,
    at: TextPosition,
    result: Result<u64, LocationResolutionError>,
)
    requires
        call_ensures(byte_offset, (text, at), result),
    ensures
        at.line == 0 || at.column == 0 ==> result is Err && result->Err_0 is InvalidCoordinate,
        at.line > 0 && at.column > 0 && result is Err ==> result->Err_0 is OutOfRange,
{
}

} // verus!
