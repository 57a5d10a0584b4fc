//! Bounded, framework-neutral selection of declarations.

use vstd::prelude::*;

use crate::canonical::{
    Completeness, ComponentId, Freshness, Language, Precision, SymbolId, SymbolKind, SymbolRecord,
    INDEX_FORMAT_VERSION,
};
use crate::ordering;
use crate::ordering::reversed;
use crate::query::{QueryStatus, ResultMetadata, SelectorRecord};
use crate::text;

verus! {

/// A view of one language. It stands for canonical predicates; no framework
/// name enters a selector.
#[derive(Debug, Clone, Copy, PartialEq, Eq, Structural)]
pub enum LanguageView {
    KotlinClass,
    JavaClass,
}

/// A predicate over the facts of a declaration.
#[derive(Debug, PartialEq, Eq)]
pub enum SelectorPredicate {
    Kind(SymbolKind),
    AppliedSymbol(SymbolId),
    QualifiedNamePrefix(String),
    Language(Language),
    Component(ComponentId),
    Backend(String),
}

impl Clone for SelectorPredicate {
    fn clone(&self) -> (result: Self)
        ensures
            result == *self,
    {
        match self {
            SelectorPredicate::Kind(kind) => SelectorPredicate::Kind(*kind),
            SelectorPredicate::AppliedSymbol(symbol) => SelectorPredicate::AppliedSymbol(
                symbol.clone(),
            ),
            SelectorPredicate::QualifiedNamePrefix(prefix) => {
                SelectorPredicate::QualifiedNamePrefix(prefix.clone())
            },
            SelectorPredicate::Language(language) => SelectorPredicate::Language(language.clone()),
            SelectorPredicate::Component(component) => SelectorPredicate::Component(
                component.clone(),
            ),
            SelectorPredicate::Backend(backend) => SelectorPredicate::Backend(backend.clone()),
        }
    }
}

/// A conjunction of predicates and language views.
#[derive(Debug, PartialEq, Eq)]
pub struct Selector {
    pub views: Vec<LanguageView>,
    pub predicates: Vec<SelectorPredicate>,
}

impl Default for Selector {
    fn default() -> (result: Self)
        ensures
            result.views@.len() == 0,
            result.predicates@.len() == 0,
    {
        Selector { views: Vec::new(), predicates: Vec::new() }
    }
}

/// How a selection starts.
#[derive(Debug, PartialEq, Eq)]
pub enum SelectorPlan {
    /// From the declarations that a symbol is applied to.
    AppliedSymbolPosting { applied_symbol: SymbolId },
}

impl Clone for SelectorPlan {
    fn clone(&self) -> (result: Self)
        ensures
            result == *self,
    {
        match self {
            SelectorPlan::AppliedSymbolPosting { applied_symbol } => {
                SelectorPlan::AppliedSymbolPosting { applied_symbol: applied_symbol.clone() }
            },
        }
    }
}

/// A constant argument of an application.
#[derive(Debug, PartialEq, Eq)]
pub enum ApplicationValue {
    Text(String),
    Integer(i64),
    Boolean(bool),
    Symbol(SymbolId),
}

/// A nested application inside an outer one with an argument. The names are
/// relations: callers supply resolved identities.
#[derive(Debug, PartialEq, Eq)]
pub struct NestedApplicationArgumentPattern {
    pub nested_target: SymbolId,
    pub outer_target: SymbolId,
    pub argument_name: String,
    pub argument_value: ApplicationValue,
}

/// The state of an answer. A partial snapshot is never reported as complete.
#[derive(Debug, Clone, Copy, PartialEq, Eq, Structural)]
pub enum SelectorState {
    Complete,
    Partial,
    NoResult,
}

/// What a selection found.
#[derive(Debug, PartialEq, Eq)]
pub struct SelectorResult {
    pub state: SelectorState,
    pub plan: SelectorPlan,
    pub symbols: Vec<SymbolRecord>,
}

/// Why a selection is refused.
#[derive(Debug, Clone, Copy, PartialEq, Eq, Structural)]
pub enum SelectorError {
    /// No applied symbol bounds the declarations to start from.
    Unbounded,
}

impl SelectorError {
    /// The message that is shown for an error.
    pub open spec fn message_text(&self) -> Seq<char> {
        match self {
            SelectorError::Unbounded => {
                "selector requires a resolved annotation predicate to bound its indexed starting set"@
            },
        }
    }

    /// Computes `message_text`.
    pub fn message(&self) -> (result: String)
        ensures
            result@ == self.message_text(),
    {
        match self {
            SelectorError::Unbounded => {
                "selector requires a resolved annotation predicate to bound its indexed starting set".to_owned()
            },
        }
    }
}

/// The predicates that a view stands for.
pub open spec fn view_predicates(view: LanguageView) -> Seq<SelectorPredicate> {
    match view {
        LanguageView::KotlinClass => seq![
            SelectorPredicate::Language(Language::Kotlin),
            SelectorPredicate::Kind(SymbolKind::Class),
        ],
        LanguageView::JavaClass => seq![
            SelectorPredicate::Language(Language::Java),
            SelectorPredicate::Kind(SymbolKind::Class),
        ],
    }
}

/// The predicates that the first `n` views stand for.
pub open spec fn views_predicates(views: Seq<LanguageView>, n: int) -> Seq<SelectorPredicate>
    decreases n,
{
    if n <= 0 {
        Seq::empty()
    } else {
        views_predicates(views, n - 1) + view_predicates(views[n - 1])
    }
}

/// The predicates of a selector followed by those that its views stand for.
pub open spec fn all_predicates(selector: Selector) -> Seq<SelectorPredicate> {
    selector.predicates@ + views_predicates(selector.views@, selector.views@.len() as int)
}

/// Computes `all_predicates`.
pub fn normalized_predicates(selector: &Selector) -> (result: Vec<SelectorPredicate>)
    ensures
        result@ == all_predicates(*selector),
{
    let mut result: Vec<SelectorPredicate> = Vec::new();
    let mut i: usize = 0;
    while i < selector.predicates.len()
        invariant
            i <= selector.predicates@.len(),
            result@ == selector.predicates@.take(i as int),
        decreases selector.predicates@.len() - i,
    {
        result.push(selector.predicates[i].clone());
        i = i + 1;
    }
    let mut j: usize = 0;
    while j < selector.views.len()
        invariant
            j <= selector.views@.len(),
            result@ == selector.predicates@ + views_predicates(selector.views@, j as int),
        decreases selector.views@.len() - j,
    {
        let language = match selector.views[j] {
            LanguageView::KotlinClass => Language::Kotlin,
            LanguageView::JavaClass => Language::Java,
        };
        result.push(SelectorPredicate::Language(language));
        result.push(SelectorPredicate::Kind(SymbolKind::Class));
        assert(result@ =~= selector.predicates@ + views_predicates(selector.views@, j + 1));
        j = j + 1;
    }
    result
}

/// Whether a list holds a symbol.
pub open spec fn holds_symbol(symbols: Seq<SymbolId>, id: Seq<char>) -> bool {
    exists|i: int| 0 <= i < symbols.len() && (#[trigger] symbols[i])@ == id
}

fn contains_symbol(symbols: &[SymbolId], wanted: &SymbolId) -> (result: bool)
    ensures
        result == holds_symbol(symbols@, wanted@),
{
    let mut i: usize = 0;
    while i < symbols.len()
        invariant
            i <= symbols@.len(),
            forall|j: int| 0 <= j < i ==> (#[trigger] symbols@[j])@ != wanted@,
        decreases symbols@.len() - i,
    {
        if symbols[i].same(wanted) {
            return true;
        }
        i = i + 1;
    }
    false
}

/// Whether a declaration satisfies a predicate.
pub open spec fn satisfies(symbol: SymbolRecord, predicate: SelectorPredicate) -> bool {
    match predicate {
        SelectorPredicate::Kind(kind) => symbol.kind == kind,
        SelectorPredicate::AppliedSymbol(applied) => holds_symbol(
            symbol.applied_symbols@,
            applied@,
        ),
        SelectorPredicate::QualifiedNamePrefix(prefix) => match symbol.qualified_name {
            Some(name) => text::begins_with(name@, prefix@),
            None => false,
        },
        SelectorPredicate::Language(language) => symbol.language@ == language@,
        SelectorPredicate::Component(component) => symbol.component@ == component@,
        SelectorPredicate::Backend(backend) => symbol.provenance.backend@ == backend@,
    }
}

/// Whether a declaration satisfies every predicate.
pub open spec fn satisfies_all(symbol: SymbolRecord, predicates: Seq<SelectorPredicate>) -> bool {
    forall|i: int| 0 <= i < predicates.len() ==> satisfies(symbol, #[trigger] predicates[i])
}

fn matches_predicate(symbol: &SymbolRecord, predicate: &SelectorPredicate) -> (result: bool)
    ensures
        result == satisfies(*symbol, *predicate),
{
    match predicate {
        SelectorPredicate::Kind(kind) => symbol.kind == *kind,
        SelectorPredicate::AppliedSymbol(applied) => contains_symbol(
            symbol.applied_symbols.as_slice(),
            applied,
        ),
        SelectorPredicate::QualifiedNamePrefix(prefix) => match &symbol.qualified_name {
            Some(name) => {
                let chars = text::chars_of(name.as_str());
                text::has_prefix(chars.as_slice(), prefix.as_str())
            },
            None => false,
        },
        SelectorPredicate::Language(language) => symbol.language.same(language),
        SelectorPredicate::Component(component) => symbol.component.same(component),
        SelectorPredicate::Backend(backend) => symbol.provenance.backend == *backend,
    }
}

fn matches_all(symbol: &SymbolRecord, predicates: &[SelectorPredicate]) -> (result: bool)
    ensures
        result == satisfies_all(*symbol, predicates@),
{
    let mut i: usize = 0;
    while i < predicates.len()
        invariant
            i <= predicates@.len(),
            forall|j: int| 0 <= j < i ==> satisfies(*symbol, #[trigger] predicates@[j]),
        decreases predicates@.len() - i,
    {
        if !matches_predicate(symbol, &predicates[i]) {
            return false;
        }
        i = i + 1;
    }
    true
}

/// The least symbol, in text order, that one of the first `n` predicates wants
/// applied.
pub open spec fn least_applied(predicates: Seq<SelectorPredicate>, n: int) -> Option<SymbolId>
    decreases n,
{
    if n <= 0 {
        None
    } else {
        let before = least_applied(predicates, n - 1);
        match (predicates[n - 1], before) {
            (SelectorPredicate::AppliedSymbol(symbol), Some(least)) => if text::text_lt(
                symbol@,
                least@,
            ) {
                Some(symbol)
            } else {
                before
            },
            (SelectorPredicate::AppliedSymbol(symbol), None) => Some(symbol),
            _ => before,
        }
    }
}

/// The symbol whose applications a selector starts from.
pub open spec fn starting_symbol(selector: Selector) -> Option<SymbolId> {
    let predicates = all_predicates(selector);
    least_applied(predicates, predicates.len() as int)
}

fn find_least_applied(predicates: &[SelectorPredicate]) -> (result: Option<SymbolId>)
    ensures
        result == least_applied(predicates@, predicates@.len() as int),
{
    let mut found: Option<SymbolId> = None;
    let mut i: usize = 0;
    while i < predicates.len()
        invariant
            i <= predicates@.len(),
            found == least_applied(predicates@, i as int),
        decreases predicates@.len() - i,
    {
        if let SelectorPredicate::AppliedSymbol(symbol) = &predicates[i] {
            let smaller: bool = match &found {
                Some(least) => text::text_before(symbol.as_str(), least.as_str()),
                None => true,
            };
            if smaller {
                found = Some(symbol.clone());
            }
        }
        i = i + 1;
    }
    found
}

/// Plans a selection: it starts from the applications of one symbol, never from
/// every declaration.
pub fn plan_selection(selector: &Selector) -> (result: Result<SelectorPlan, SelectorError>)
    ensures
        match starting_symbol(*selector) {
            Some(applied_symbol) => result == Ok::<SelectorPlan, SelectorError>(
                SelectorPlan::AppliedSymbolPosting { applied_symbol },
            ),
            None => result == Err::<SelectorPlan, SelectorError>(SelectorError::Unbounded),
        },
{
    let predicates = normalized_predicates(selector);
    match find_least_applied(predicates.as_slice()) {
        Some(applied_symbol) => Ok(SelectorPlan::AppliedSymbolPosting { applied_symbol }),
        None => Err(SelectorError::Unbounded),
    }
}

/// Whether what is known of a declaration is current and complete.
pub open spec fn is_settled(symbol: SymbolRecord) -> bool {
    symbol.freshness == Freshness::Fresh && symbol.completeness == Completeness::Complete
}

/// The state of an answer.
pub open spec fn answer_state(symbols: Seq<SymbolRecord>) -> SelectorState {
    if symbols.len() == 0 {
        SelectorState::NoResult
    } else if forall|i: int| 0 <= i < symbols.len() ==> is_settled(#[trigger] symbols[i]) {
        SelectorState::Complete
    } else {
        SelectorState::Partial
    }
}

fn judge(symbols: &[SymbolRecord]) -> (result: SelectorState)
    ensures
        result == answer_state(symbols@),
{
    if symbols.len() == 0 {
        return SelectorState::NoResult;
    }
    let mut i: usize = 0;
    while i < symbols.len()
        invariant
            symbols@.len() > 0,
            i <= symbols@.len(),
            forall|j: int| 0 <= j < i ==> is_settled(#[trigger] symbols@[j]),
        decreases symbols@.len() - i,
    {
        if symbols[i].freshness != Freshness::Fresh || symbols[i].completeness
            != Completeness::Complete {
            assert(!is_settled(symbols@[i as int]));
            return SelectorState::Partial;
        }
        i = i + 1;
    }
    SelectorState::Complete
}

fn retain_matching(candidates: Vec<SymbolRecord>, predicates: &[SelectorPredicate]) -> (result: Vec<
    SymbolRecord,
>)
    ensures
        result@ == candidates@.filter(|symbol: SymbolRecord| satisfies_all(symbol, predicates@)),
{
    let ghost all = candidates@;
    let ghost keeps = |symbol: SymbolRecord| satisfies_all(symbol, predicates@);
    let mut rest = reversed(candidates);
    let mut kept: Vec<SymbolRecord> = Vec::new();
    proof {
        reveal(Seq::filter);
        assert(all.take(0) =~= Seq::<SymbolRecord>::empty());
    }
    while rest.len() > 0
        invariant
            keeps == (|symbol: SymbolRecord| satisfies_all(symbol, predicates@)),
            rest@.len() <= all.len(),
            forall|i: int|
                0 <= i < rest@.len() ==> #[trigger] rest@[i] == all[all.len() - 1 - i],
            kept@ == all.take(all.len() - rest@.len()).filter(keeps),
        decreases rest@.len(),
    {
        let ghost done = all.len() - rest@.len();
        let symbol = rest.pop().unwrap();
        proof {
            reveal(Seq::filter);
            assert(symbol == all[done]);
            assert(all.take(done + 1).drop_last() =~= all.take(done));
        }
        if matches_all(&symbol, predicates) {
            kept.push(symbol);
        }
    }
    assert(all.take(all.len() as int) =~= all);
    kept
}

/// Selects among the declarations that the planned symbol is applied to those
/// that satisfy every predicate.
pub fn select(selector: &Selector, candidates: Vec<SymbolRecord>) -> (result: Result<
    SelectorResult,
    SelectorError,
>)
    ensures
        match starting_symbol(*selector) {
            Some(applied_symbol) => {
                &&& result is Ok
                &&& result->Ok_0.plan == (SelectorPlan::AppliedSymbolPosting { applied_symbol })
                &&& result->Ok_0.symbols@ == candidates@.filter(
                    |symbol: SymbolRecord| satisfies_all(symbol, all_predicates(*selector)),
                )
                &&& result->Ok_0.state == answer_state(result->Ok_0.symbols@)
            },
            None => result is Err && result->Err_0 == SelectorError::Unbounded,
        },
{
    let predicates = normalized_predicates(selector);
    let plan = match plan_selection(selector) {
        Ok(plan) => plan,
        Err(error) => {
            return Err(error);
        },
    };
    let symbols = retain_matching(candidates, predicates.as_slice());
    let state = judge(symbols.as_slice());
    Ok(SelectorResult { state, plan, symbols })
}

/// The answer to a nested application pattern, given the declarations that the
/// index finds for it.
pub fn select_nested_application_argument(
    pattern: &NestedApplicationArgumentPattern,
    symbols: Vec<SymbolRecord>,
) -> (result: SelectorResult)
    ensures
        result.plan == (SelectorPlan::AppliedSymbolPosting {
            applied_symbol: pattern.nested_target,
        }),
        result.symbols == symbols,
        result.state == answer_state(symbols@),
{
    let state = judge(symbols.as_slice());
    SelectorResult {
        state,
        plan: SelectorPlan::AppliedSymbolPosting { applied_symbol: pattern.nested_target.clone() },
        symbols,
    }
}

/// Whether a record carries a declaration with its own provenance.
pub open spec fn is_record_of(record: SelectorRecord, symbol: SymbolRecord) -> bool {
    &&& record.symbol@ == symbol@
    &&& record.metadata.freshness == symbol.freshness
    &&& record.metadata.completeness == symbol.completeness
    &&& record.metadata.precision == Precision::Exact
    &&& record.metadata.index_format_version == INDEX_FORMAT_VERSION
    &&& record.metadata.source_snapshot is None
    &&& record.metadata.provenance@ == seq![symbol.provenance]
}

/// One independent record for each selected declaration.
pub fn records(result: &SelectorResult) -> (records: Vec<SelectorRecord>)
    ensures
        records@.len() == result.symbols@.len(),
        forall|i: int|
            0 <= i < records@.len() ==> is_record_of(
                #[trigger] records@[i],
                result.symbols@[i],
            ),
{
    let mut records: Vec<SelectorRecord> = Vec::new();
    let mut i: usize = 0;
    while i < result.symbols.len()
        invariant
            i <= result.symbols@.len(),
            records@.len() == i,
            forall|j: int|
                0 <= j < i ==> is_record_of(#[trigger] records@[j], result.symbols@[j]),
        decreases result.symbols@.len() - i,
    {
        let symbol = &result.symbols[i];
        let mut provenance = Vec::new();
        provenance.push(symbol.provenance.clone());
        let record = SelectorRecord {
            symbol: symbol.clone(),
            metadata: ResultMetadata {
                freshness: symbol.freshness,
                completeness: symbol.completeness,
                precision: Precision::Exact,
                index_format_version: INDEX_FORMAT_VERSION,
                source_snapshot: None,
                provenance,
            },
        };
        assert(record.metadata.provenance@ =~= seq![symbol.provenance]);
        records.push(record);
        i = i + 1;
    }
    records
}

/// The status that a command reports of a selection.
pub fn selection_status(state: SelectorState) -> (result: QueryStatus)
    ensures
        result == (match state {
            SelectorState::Complete => QueryStatus::Success,
            SelectorState::Partial => QueryStatus::Stale,
            SelectorState::NoResult => QueryStatus::NoResult,
        }),
{
    match state {
        SelectorState::Complete => QueryStatus::Success,
        SelectorState::Partial => QueryStatus::Stale,
        SelectorState::NoResult => QueryStatus::NoResult,
    }
}

/// The symbol that a name of an applied symbol means, given the symbols with
/// that qualified name: the one there is, else the name itself. More than one
/// is refused with their number.
pub fn applied_symbol(name: &str, candidates: &[SymbolId]) -> (result: Result<SymbolId, usize>)
    ensures
        candidates@.len() == 0 ==> result is Ok && result->Ok_0@ == name@,
        candidates@.len() == 1 ==> result == Ok::<SymbolId, usize>(candidates@[0]),
        candidates@.len() > 1 ==> result is Err && result->Err_0 == candidates@.len(),
{
    if candidates.len() == 0 {
        Ok(SymbolId::new(name))
    } else if candidates.len() == 1 {
        Ok(candidates[0].clone())
    } else {
        Err(candidates.len())
    }
}

/// The selector of a selection command.
pub fn command_selector(
    applied: SymbolId,
    view: Option<LanguageView>,
    component: Option<String>,
    qualified_prefix: Option<String>,
) -> (result: Selector)
    ensures
        result.views@ == (match view {
            Some(view) => seq![view],
            None => Seq::empty(),
        }),
        ({
            let wanted = if component is Some {
                2int
            } else {
                1int
            };
            &&& result.predicates@.len() == wanted + (if qualified_prefix is Some {
                1int
            } else {
                0int
            })
            &&& result.predicates@[0] == SelectorPredicate::AppliedSymbol(applied)
            &&& component matches Some(component) ==> result.predicates@[1] is Component
                && result.predicates@[1]->Component_0@ == component@
            &&& qualified_prefix matches Some(prefix) ==> result.predicates@[wanted]
                == SelectorPredicate::QualifiedNamePrefix(prefix)
        }),
{
    let mut views: Vec<LanguageView> = Vec::new();
    if let Some(view) = view {
        views.push(view);
    }
    let mut predicates: Vec<SelectorPredicate> = Vec::new();
    predicates.push(SelectorPredicate::AppliedSymbol(applied));
    if let Some(component) = component {
        predicates.push(SelectorPredicate::Component(ComponentId::new(component)));
    }
    if let Some(prefix) = qualified_prefix {
        predicates.push(SelectorPredicate::QualifiedNamePrefix(prefix));
    }
    Selector { views, predicates }
}

/// A selection starts from a symbol that the selector wants applied, and every
/// selected declaration has it applied.
pub proof fn law_selection_is_bounded(selector: Selector, symbol: SymbolRecord)
    requires
        starting_symbol(selector) is Some,
        satisfies_all(symbol, all_predicates(selector)),
    ensures
        holds_symbol(symbol.applied_symbols@, starting_symbol(selector)->Some_0@),
{
    let predicates = all_predicates(selector);
    lemma_least_applied(predicates, predicates.len() as int);
}

proof fn lemma_least_applied(predicates: Seq<SelectorPredicate>, n: int)
    requires
        0 <= n <= predicates.len(),
        least_applied(predicates, n) is Some,
    ensures
        exists|i: int|
            0 <= i < n && #[trigger] predicates[i] == SelectorPredicate::AppliedSymbol(
                least_applied(predicates, n)->Some_0,
            ),
    decreases n,
{
    if n > 0 {
        if least_applied(predicates, n) == least_applied(predicates, n - 1) {
            lemma_least_applied(predicates, n - 1);
        } else {
            assert(predicates[n - 1] == SelectorPredicate::AppliedSymbol(
                least_applied(predicates, n)->Some_0,
            ));
        }
    }
}

/// A selector without a predicate on an applied symbol is refused, whatever its
/// views are.
pub proof fn law_views_do_not_bound(selector: Selector)
    requires
        forall|i: int|
            0 <= i < selector.predicates@.len() ==> !(#[trigger] selector.predicates@[i]
                is AppliedSymbol),
    ensures
        starting_symbol(selector) is None,
{
    let predicates = all_predicates(selector);
    if least_applied(predicates, predicates.len() as int) is Some {
        lemma_least_applied(predicates, predicates.len() as int);
        let i = choose|i: int|
            0 <= i < predicates.len() && #[trigger] predicates[i]
                == SelectorPredicate::AppliedSymbol(
                least_applied(predicates, predicates.len() as int)->Some_0,
            );
        let own = selector.predicates@.len();
        if i < own {
            assert(predicates[i] == selector.predicates@[i]);
        } else {
            lemma_view_predicates(selector.views@, selector.views@.len() as int, i - own);
            assert(predicates[i] == views_predicates(
                selector.views@,
                selector.views@.len() as int,
            )[i - own]);
        }
    }
}

proof fn lemma_view_predicates(views: Seq<LanguageView>, n: int, i: int)
    requires
        0 <= n <= views.len(),
        0 <= i < views_predicates(views, n).len(),
    ensures
        !(views_predicates(views, n)[i] is AppliedSymbol),
    decreases n,
{
    if n > 0 {
        let before = views_predicates(views, n - 1);
        if i < before.len() {
            lemma_view_predicates(views, n - 1, i);
        }
    }
}

/// An answer is reported as complete only where everything in it is current and
/// complete.
pub proof fn law_partial_is_not_complete(symbols: Seq<SymbolRecord>, i: int)
    requires
        0 <= i < symbols.len(),
        answer_state(symbols) == SelectorState::Complete,
    ensures
        symbols[i].freshness == Freshness::Fresh,
        symbols[i].completeness == Completeness::Complete,
{
    assert(is_settled(symbols[i]));
}

proof fn lemma_view_wants(views: Seq<LanguageView>, n: int, v: int)
    requires
        0 <= v < n <= views.len(),
    ensures
        ({
            let language = if views[v] == LanguageView::KotlinClass {
                Language::Kotlin
            } else {
                Language::Java
            };
            &&& views_predicates(views, n).contains(SelectorPredicate::Language(language))
            &&& views_predicates(views, n).contains(SelectorPredicate::Kind(SymbolKind::Class))
        }),
    decreases n,
{
    let before = views_predicates(views, n - 1);
    let own = view_predicates(views[n - 1]);
    let all = views_predicates(views, n);
    let language = SelectorPredicate::Language(
        if views[v] == LanguageView::KotlinClass {
            Language::Kotlin
        } else {
            Language::Java
        },
    );
    let class = SelectorPredicate::Kind(SymbolKind::Class);
    if v < n - 1 {
        lemma_view_wants(views, n - 1, v);
        let i = before.index_of(language);
        let j = before.index_of(class);
        assert(all[i] == language);
        assert(all[j] == class);
    } else {
        assert(all[before.len() as int] == own[0]);
        assert(all[before.len() as int + 1] == own[1]);
    }
}

/// Every selected declaration is one of the candidates, in their order, and is
/// what the selector asks for: of the language of each view and a class, of
/// each wanted kind, language, component and backend, with each wanted symbol
/// applied to it and each wanted prefix at the start of its qualified name.
pub proof fn law_selected_declarations_meet_the_selector(
    selector: &Selector,
    candidates: Vec<SymbolRecord>,
    result: Result<SelectorResult, SelectorError>,
    i: int,
)
    requires
        call_ensures(select, (selector, candidates), result),
        result is Ok,
        0 <= i < result->Ok_0.symbols@.len(),
    ensures
        exists|positions: Seq<int>|
            ordering::picks(candidates@, result->Ok_0.symbols@, positions),
        ({
            let symbol = result->Ok_0.symbols@[i];
            &&& candidates@.contains(symbol)
            &&& forall|v: int|
                0 <= v < selector.views@.len() ==> symbol.kind == SymbolKind::Class && (
                #[trigger] selector.views@[v] == LanguageView::KotlinClass ==> symbol.language
                    is Kotlin) && (selector.views@[v] == LanguageView::JavaClass
                    ==> symbol.language is Java)
            &&& forall|p: int|
                #![trigger selector.predicates@[p]]
                0 <= p < selector.predicates@.len() ==> {
                    let wanted = selector.predicates@[p];
                    &&& wanted is Kind ==> symbol.kind == wanted->Kind_0
                    &&& wanted is Language ==> symbol.language@ == wanted->Language_0@
                    &&& wanted is Component ==> symbol.component@ == wanted->Component_0@
                    &&& wanted is Backend ==> symbol.provenance.backend@ == wanted->Backend_0@
                    &&& wanted is AppliedSymbol ==> exists|a: int|
                        0 <= a < symbol.applied_symbols@.len() && (
                        #[trigger] symbol.applied_symbols@[a])@ == wanted->AppliedSymbol_0@
                    &&& wanted is QualifiedNamePrefix ==> symbol.qualified_name is Some
                        && wanted->QualifiedNamePrefix_0@.is_prefix_of(
                        symbol.qualified_name->0@,
                    )
                }
        }),
{
    let wants = all_predicates(*selector);
    let meets = |symbol: SymbolRecord| satisfies_all(symbol, wants);
    let positions = ordering::lemma_filter_positions(candidates@, meets);
    let symbol = result->Ok_0.symbols@[i];
    assert(result->Ok_0.symbols@ == candidates@.filter(meets));
    assert(meets(symbol));
    let own = selector.predicates@;
    let views = selector.views@;
    let of_views = views_predicates(views, views.len() as int);
    assert forall|v: int| 0 <= v < views.len() implies symbol.kind == SymbolKind::Class && (
    #[trigger] views[v] == LanguageView::KotlinClass ==> symbol.language is Kotlin) && (views[v]
        == LanguageView::JavaClass ==> symbol.language is Java) by {
        lemma_view_wants(views, views.len() as int, v);
        let language = SelectorPredicate::Language(
            if views[v] == LanguageView::KotlinClass {
                Language::Kotlin
            } else {
                Language::Java
            },
        );
        let class = SelectorPredicate::Kind(SymbolKind::Class);
        let a = of_views.index_of(language);
        let b = of_views.index_of(class);
        assert(wants[own.len() + a] == language);
        assert(wants[own.len() + b] == class);
        assert(satisfies(symbol, wants[own.len() + a]));
        assert(satisfies(symbol, wants[own.len() + b]));
    }
    assert forall|p: int|
        #![trigger selector.predicates@[p]]
        0 <= p < own.len() implies {
        let wanted = selector.predicates@[p];
        &&& wanted is Kind ==> symbol.kind == wanted->Kind_0
        &&& wanted is Language ==> symbol.language@ == wanted->Language_0@
        &&& wanted is Component ==> symbol.component@ == wanted->Component_0@
        &&& wanted is Backend ==> symbol.provenance.backend@ == wanted->Backend_0@
        &&& wanted is AppliedSymbol ==> exists|a: int|
            0 <= a < symbol.applied_symbols@.len() && (#[trigger] symbol.applied_symbols@[a])@
                == wanted->AppliedSymbol_0@
        &&& wanted is QualifiedNamePrefix ==> symbol.qualified_name is Some
            && wanted->QualifiedNamePrefix_0@.is_prefix_of(symbol.qualified_name->0@)
    } by {
        assert(wants[p] == own[p]);
        assert(satisfies(symbol, wants[p]));
    }
}

proof fn lemma_view_predicate_of(views: Seq<LanguageView>, n: int, i: int)
    requires
        0 <= n <= views.len(),
        0 <= i < views_predicates(views, n).len(),
    ensures
        ({
            let wanted = views_predicates(views, n)[i];
            exists|v: int|
                0 <= v < n && (wanted == SelectorPredicate::Kind(SymbolKind::Class) || wanted
                    == SelectorPredicate::Language(
                    if #[trigger] views[v] == LanguageView::KotlinClass {
                        Language::Kotlin
                    } else {
                        Language::Java
                    },
                ))
        }),
    decreases n,
{
    if n > 0 {
        let before = views_predicates(views, n - 1);
        if i < before.len() {
            lemma_view_predicate_of(views, n - 1, i);
        } else {
            assert(views[n - 1] == views[n - 1]);
        }
    }
}

/// A candidate that is all that the selector asks for is selected.
pub proof fn law_wanted_declarations_are_selected(
    selector: &Selector,
    candidates: Vec<SymbolRecord>,
    result: Result<SelectorResult, SelectorError>,
    k: int,
)
    requires
        call_ensures(select, (selector, candidates), result),
        result is Ok,
        0 <= k < candidates@.len(),
        selector.views@.len() > 0 ==> candidates@[k].kind == SymbolKind::Class,
        selector.views@.contains(LanguageView::KotlinClass) ==> candidates@[k].language is Kotlin,
        selector.views@.contains(LanguageView::JavaClass) ==> candidates@[k].language is Java,
        forall|p: int|
            #![trigger selector.predicates@[p]]
            0 <= p < selector.predicates@.len() ==> {
                let wanted = selector.predicates@[p];
                &&& wanted is Kind ==> candidates@[k].kind == wanted->Kind_0
                &&& wanted is Language ==> candidates@[k].language@ == wanted->Language_0@
                &&& wanted is Component ==> candidates@[k].component@ == wanted->Component_0@
                &&& wanted is Backend ==> candidates@[k].provenance.backend@ == wanted->Backend_0@
                &&& wanted is AppliedSymbol ==> exists|a: int|
                    0 <= a < candidates@[k].applied_symbols@.len() && (
                    #[trigger] candidates@[k].applied_symbols@[a])@ == wanted->AppliedSymbol_0@
                &&& wanted is QualifiedNamePrefix ==> candidates@[k].qualified_name is Some
                    && wanted->QualifiedNamePrefix_0@.is_prefix_of(
                    candidates@[k].qualified_name->0@,
                )
            },
    ensures
        result->Ok_0.symbols@.contains(candidates@[k]),
        result->Ok_0.symbols@.to_multiset().count(candidates@[k])
            == candidates@.to_multiset().count(candidates@[k]),
{
    let symbol = candidates@[k];
    let wants = all_predicates(*selector);
    let meets = |symbol: SymbolRecord| satisfies_all(symbol, wants);
    let own = selector.predicates@;
    let views = selector.views@;
    assert forall|i: int| 0 <= i < wants.len() implies satisfies(symbol, #[trigger] wants[i]) by {
        if i < own.len() {
            assert(wants[i] == own[i]);
            if own[i] is QualifiedNamePrefix {
                let name = symbol.qualified_name->0@;
                let prefix = own[i]->QualifiedNamePrefix_0@;
                assert(name.take(prefix.len() as int) =~= prefix);
            }
        } else {
            lemma_view_predicate_of(views, views.len() as int, i - own.len());
            let wanted = views_predicates(views, views.len() as int)[i - own.len()];
            assert(wants[i] == wanted);
            let v = choose|v: int|
                0 <= v < views.len() && (wanted == SelectorPredicate::Kind(SymbolKind::Class)
                    || wanted == SelectorPredicate::Language(
                    if #[trigger] views[v] == LanguageView::KotlinClass {
                        Language::Kotlin
                    } else {
                        Language::Java
                    },
                ));
            assert(views.contains(views[v]));
        }
    }
    assert(meets(symbol));
    let positions = ordering::lemma_filter_positions(candidates@, meets);
    ordering::lemma_filter_counts(candidates@, meets, symbol);
}

/// A selection is refused exactly where no predicate asks for an applied
/// symbol. Else it starts from a wanted symbol, of several from the one that
/// comes first.
pub proof fn law_selection_starts_from_the_first_applied_symbol(
    selector: &Selector,
    plan: Result<SelectorPlan, SelectorError>,
)
    requires
        call_ensures(plan_selection, (selector,), plan),
    ensures
        plan is Ok <==> exists|p: int|
            0 <= p < selector.predicates@.len() && #[trigger] selector.predicates@[p]
                is AppliedSymbol,
        plan is Ok ==> {
            let start = plan->Ok_0->applied_symbol;
            &&& selector.predicates@.contains(SelectorPredicate::AppliedSymbol(start))
            &&& forall|p: int|
                0 <= p < selector.predicates@.len() && #[trigger] selector.predicates@[p]
                    is AppliedSymbol ==> !text::text_lt(
                    selector.predicates@[p]->AppliedSymbol_0@,
                    start@,
                )
        },
{
    let wants = all_predicates(*selector);
    let n = wants.len() as int;
    let own = selector.predicates@;
    lemma_least_is_first(wants, n);
    if plan is Ok {
        lemma_least_applied(wants, n);
        let start = least_applied(wants, n)->Some_0;
        let i = choose|i: int|
            0 <= i < n && #[trigger] wants[i] == SelectorPredicate::AppliedSymbol(start);
        if i >= own.len() {
            lemma_view_predicates(selector.views@, selector.views@.len() as int, i - own.len());
            assert(wants[i] == views_predicates(
                selector.views@,
                selector.views@.len() as int,
            )[i - own.len()]);
        }
        assert(own[i] == wants[i]);
    }
    assert forall|p: int|
        0 <= p < own.len() && #[trigger] own[p] is AppliedSymbol implies plan is Ok
        && !text::text_lt(own[p]->AppliedSymbol_0@, plan->Ok_0->applied_symbol@) by {
        assert(wants[p] == own[p]);
    }
}

proof fn lemma_least_is_first(predicates: Seq<SelectorPredicate>, n: int)
    requires
        0 <= n <= predicates.len(),
    ensures
        forall|i: int|
            0 <= i < n && #[trigger] predicates[i] is AppliedSymbol ==> least_applied(
                predicates,
                n,
            ) is Some && !text::text_lt(
                predicates[i]->AppliedSymbol_0@,
                least_applied(predicates, n)->Some_0@,
            ),
    decreases n,
{
    if n > 0 {
        lemma_least_is_first(predicates, n - 1);
        let before = least_applied(predicates, n - 1);
        let now = least_applied(predicates, n);
        assert forall|i: int| 0 <= i < n && #[trigger] predicates[i] is AppliedSymbol implies now
            is Some && !text::text_lt(predicates[i]->AppliedSymbol_0@, now->Some_0@) by {
            let symbol = predicates[i]->AppliedSymbol_0@;
            if i == n - 1 {
                text::lemma_text_lt_irreflexive(symbol);
            } else if now != before {
                text::lemma_text_lt_asymmetric(now->Some_0@, before->Some_0@);
                text::lemma_text_lt_negatively_transitive(
                    symbol,
                    before->Some_0@,
                    now->Some_0@,
                );
            }
        }
    }
}

/// What is told of a selection: nothing of an empty one, that it is complete
/// exactly where each of its declarations is fresh and complete, and that it
/// is stale otherwise.
pub proof fn law_selection_state_is_honest(
    selector: &Selector,
    candidates: Vec<SymbolRecord>,
    result: Result<SelectorResult, SelectorError>,
    status: QueryStatus,
)
    requires
        call_ensures(select, (selector, candidates), result),
        result is Ok,
        call_ensures(selection_status, (result->Ok_0.state,), status),
    ensures
        ({
            let found = result->Ok_0.symbols@;
            &&& status == QueryStatus::NoResult <==> found.len() == 0
            &&& status == QueryStatus::Success <==> found.len() > 0 && forall|i: int|
                0 <= i < found.len() ==> (#[trigger] found[i]).freshness == Freshness::Fresh
                    && found[i].completeness == Completeness::Complete
            &&& status == QueryStatus::Stale <==> exists|i: int|
                0 <= i < found.len() && ((#[trigger] found[i]).freshness != Freshness::Fresh
                    || found[i].completeness != Completeness::Complete)
        }),
{
    let found = result->Ok_0.symbols@;
    assert(forall|i: int|
        0 <= i < found.len() ==> is_settled(#[trigger] found[i]) == (found[i].freshness
            == Freshness::Fresh && found[i].completeness == Completeness::Complete));
    if result->Ok_0.state == SelectorState::Partial {
        let i = choose|i: int| 0 <= i < found.len() && !is_settled(#[trigger] found[i]);
        assert(found[i].freshness != Freshness::Fresh || found[i].completeness
            != Completeness::Complete);
    }
}

/// The selector that a command makes asks for the applied symbol, and for the
/// view, the component and the prefix where they are given, and for nothing
/// else.
pub proof fn law_command_selector_asks_for_what_is_given(
    applied: SymbolId,
    view: Option<LanguageView>,
    component: Option<String>,
    qualified_prefix: Option<String>,
    selector: Selector,
)
    requires
        call_ensures(command_selector, (applied, view, component, qualified_prefix), selector),
    ensures
        view is None ==> selector.views@.len() == 0,
        view is Some ==> selector.views@.len() == 1 && selector.views@[0] == view->0,
        selector.predicates@.contains(SelectorPredicate::AppliedSymbol(applied)),
        forall|p: int|
            0 <= p < selector.predicates@.len() ==> {
                ||| #[trigger] selector.predicates@[p] == SelectorPredicate::AppliedSymbol(applied)
                ||| component is Some && selector.predicates@[p] is Component
                    && selector.predicates@[p]->Component_0@ == component->0@
                ||| qualified_prefix is Some && selector.predicates@[p]
                    == SelectorPredicate::QualifiedNamePrefix(qualified_prefix->0)
            },
        component is Some ==> exists|p: int|
            0 <= p < selector.predicates@.len() && #[trigger] selector.predicates@[p] is Component
                && selector.predicates@[p]->Component_0@ == component->0@,
        qualified_prefix is Some ==> selector.predicates@.contains(
            SelectorPredicate::QualifiedNamePrefix(qualified_prefix->0),
        ),
{
    let asked = selector.predicates@;
    assert(asked[0] == SelectorPredicate::AppliedSymbol(applied));
    if component is Some {
        assert(asked[1] is Component);
    }
    if qualified_prefix is Some {
        let last = asked.len() - 1;
        assert(asked[last] == SelectorPredicate::QualifiedNamePrefix(qualified_prefix->0));
    }
}

/// Each selected declaration gets a record of its own, with its own freshness,
/// completeness and provenance.
pub proof fn law_records_carry_their_declarations(
    result: &SelectorResult,
    written: Vec<SelectorRecord>,
    i: int,
)
    requires
        call_ensures(records, (result,), written),
        0 <= i < result.symbols@.len(),
    ensures
        written@.len() == result.symbols@.len(),
        written@[i].symbol@ == result.symbols@[i]@,
        written@[i].metadata.freshness == result.symbols@[i].freshness,
        written@[i].metadata.completeness == result.symbols@[i].completeness,
        written@[i].metadata.provenance@.len() == 1,
        written@[i].metadata.provenance@[0] == result.symbols@[i].provenance,
{
    assert(is_record_of(written@[i], result.symbols@[i]));
}

/// A name that several symbols have is refused, the one symbol that has it is
/// taken, and a name that none has stands for itself.
pub proof fn law_applied_name_is_unambiguous(
    name: &str,
    candidates: &[SymbolId],
    result: Result<SymbolId, usize>,
)
    requires
        call_ensures(applied_symbol, (name, candidates), result),
    ensures
        result is Err <==> candidates@.len() >= 2,
        result is Ok && candidates@.len() > 0 ==> candidates@.contains(result->Ok_0),
        candidates@.len() == 0 ==> result->Ok_0@ == name@,
{
    if candidates@.len() == 1 {
        assert(candidates@[0] == result->Ok_0);
    }
}

} // verus!
