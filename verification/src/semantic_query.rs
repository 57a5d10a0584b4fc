//! Typed, bounded query programs and their compilation to selectors.
//!
//! A program and its parameters are typed values, so that no text is ever
//! spliced into an executable query.

use vstd::prelude::*;

use crate::canonical::{ComponentId, Language, SymbolId, SymbolKind, SymbolRecord};
use crate::ordered_map::OrderedMap;
use crate::ordering;
use crate::selector;
use crate::selector::{
    select, Selector, SelectorError, SelectorPlan, SelectorPredicate, SelectorResult,
    SelectorState,
};
use crate::shown::push;
use crate::text;

verus! {

/// The most results that a program may ask for.
pub const MAX_RESULT_LIMIT: u32 = 1_000;

/// A parsed declarative program.
#[derive(Debug, PartialEq, Eq)]
pub struct QueryProgram {
    pub from: QueryFrom,
    pub predicates: Vec<QueryPredicate>,
    pub limit: u32,
}

/// What a program starts from: a positive, indexed relation.
#[derive(Debug, PartialEq, Eq)]
pub enum QueryFrom {
    AppliedSymbol(QuerySymbol),
}

/// A filter on what a program starts from.
#[derive(Debug, PartialEq, Eq)]
pub enum QueryPredicate {
    Kind(SymbolKind),
    Language(Language),
    Component(QueryComponent),
    QualifiedNamePrefix(QueryString),
}

/// A symbol: its id, its exact qualified name, or a parameter.
#[derive(Debug, PartialEq, Eq)]
pub enum QuerySymbol {
    Id(SymbolId),
    QualifiedName(String),
    Parameter(String),
}

/// What a `QuerySymbol` says.
pub enum QuerySymbolView {
    Id(Seq<char>),
    QualifiedName(Seq<char>),
    Parameter(Seq<char>),
}

impl View for QuerySymbol {
    type V = QuerySymbolView;

    open spec fn view(&self) -> QuerySymbolView {
        match self {
            QuerySymbol::Id(id) => QuerySymbolView::Id(id@),
            QuerySymbol::QualifiedName(name) => QuerySymbolView::QualifiedName(name@),
            QuerySymbol::Parameter(name) => QuerySymbolView::Parameter(name@),
        }
    }
}

/// A component: its id or a parameter.
#[derive(Debug, PartialEq, Eq)]
pub enum QueryComponent {
    Id(ComponentId),
    Parameter(String),
}

/// What a `QueryComponent` says.
pub enum QueryComponentView {
    Id(Seq<char>),
    Parameter(Seq<char>),
}

impl View for QueryComponent {
    type V = QueryComponentView;

    open spec fn view(&self) -> QueryComponentView {
        match self {
            QueryComponent::Id(id) => QueryComponentView::Id(id@),
            QueryComponent::Parameter(name) => QueryComponentView::Parameter(name@),
        }
    }
}

/// A text: itself or a parameter.
#[derive(Debug, PartialEq, Eq)]
pub enum QueryString {
    Literal(String),
    Parameter(String),
}

/// What a `QueryString` says.
pub enum QueryStringView {
    Literal(Seq<char>),
    Parameter(Seq<char>),
}

impl View for QueryString {
    type V = QueryStringView;

    open spec fn view(&self) -> QueryStringView {
        match self {
            QueryString::Literal(value) => QueryStringView::Literal(value@),
            QueryString::Parameter(name) => QueryStringView::Parameter(name@),
        }
    }
}

/// What a `QueryPredicate` says.
pub enum QueryPredicateView {
    Kind(SymbolKind),
    Language(Language),
    Component(QueryComponentView),
    QualifiedNamePrefix(QueryStringView),
}

impl View for QueryPredicate {
    type V = QueryPredicateView;

    open spec fn view(&self) -> QueryPredicateView {
        match self {
            QueryPredicate::Kind(kind) => QueryPredicateView::Kind(*kind),
            QueryPredicate::Language(language) => QueryPredicateView::Language(*language),
            QueryPredicate::Component(component) => QueryPredicateView::Component(component@),
            QueryPredicate::QualifiedNamePrefix(prefix) => {
                QueryPredicateView::QualifiedNamePrefix(prefix@)
            },
        }
    }
}

/// The value of a parameter.
#[derive(Debug, PartialEq, Eq)]
pub enum QueryValue {
    SymbolId(SymbolId),
    QualifiedSymbol(String),
    ComponentId(ComponentId),
    String(String),
    Integer(u32),
}

/// What a `QueryValue` says.
pub enum QueryValueView {
    SymbolId(Seq<char>),
    QualifiedSymbol(Seq<char>),
    ComponentId(Seq<char>),
    String(Seq<char>),
    Integer(u32),
}

impl View for QueryValue {
    type V = QueryValueView;

    open spec fn view(&self) -> QueryValueView {
        match self {
            QueryValue::SymbolId(id) => QueryValueView::SymbolId(id@),
            QueryValue::QualifiedSymbol(name) => QueryValueView::QualifiedSymbol(name@),
            QueryValue::ComponentId(id) => QueryValueView::ComponentId(id@),
            QueryValue::String(value) => QueryValueView::String(value@),
            QueryValue::Integer(value) => QueryValueView::Integer(*value),
        }
    }
}

/// The values of a program's parameters by their names.
pub type QueryParameters = OrderedMap<QueryValue>;

/// The plan that is executed.
#[derive(Debug, PartialEq, Eq)]
pub struct CompiledQuery {
    pub selector: Selector,
    pub starting_symbol: SymbolId,
    pub limit: u32,
}

/// The result of a query. It is partial, too, where the limit cut it short.
#[derive(Debug, PartialEq, Eq)]
pub struct QueryResult {
    pub state: SelectorState,
    pub plan: CompiledQuery,
    pub symbols: Vec<SymbolRecord>,
}

/// Why a program is refused.
#[derive(Debug, PartialEq, Eq)]
pub enum QueryCompileError {
    InvalidLimit,
    MissingParameter(String),
    InvalidParameterType { name: String, expected: &'static str },
    UnknownQualifiedSymbol(String),
    AmbiguousQualifiedSymbol { name: String, count: usize },
    Selector(SelectorError),
}

impl QueryCompileError {
    /// The message that is shown for an error.
    pub open spec fn message_text(&self) -> Seq<char> {
        match self {
            QueryCompileError::InvalidLimit => "query limit must be between 1 and "@
                + text::decimal_text(MAX_RESULT_LIMIT as nat),
            QueryCompileError::MissingParameter(name) => "query parameter `"@
                + name@
                + "` is required"@,
            QueryCompileError::InvalidParameterType { name, expected } => "query parameter `"@
                + name@
                + "` must be "@
                + expected@,
            QueryCompileError::UnknownQualifiedSymbol(name) => "qualified symbol `"@
                + name@
                + "` did not resolve"@,
            QueryCompileError::AmbiguousQualifiedSymbol { name, count } => "qualified symbol `"@
                + name@
                + "` is ambiguous: "@
                + text::decimal_text(*count as nat)
                + " candidates"@,
            QueryCompileError::Selector(error) => "selector execution failed: "@
                + error.message_text(),
        }
    }

    /// Computes `message_text`.
    pub fn message(&self) -> (result: String)
        ensures
            result@ == self.message_text(),
    {
        match self {
            QueryCompileError::InvalidLimit => text::join_text(
                "query limit must be between 1 and ",
                text::decimal(MAX_RESULT_LIMIT as u64).as_str(),
            ),
            QueryCompileError::MissingParameter(name) => {
                let mut out = "query parameter `".to_owned();
                push(&mut out, name.as_str());
                push(&mut out, "` is required");
                out
            },
            QueryCompileError::InvalidParameterType { name, expected } => {
                let mut out = "query parameter `".to_owned();
                push(&mut out, name.as_str());
                push(&mut out, "` must be ");
                push(&mut out, *expected);
                out
            },
            QueryCompileError::UnknownQualifiedSymbol(name) => {
                let mut out = "qualified symbol `".to_owned();
                push(&mut out, name.as_str());
                push(&mut out, "` did not resolve");
                out
            },
            QueryCompileError::AmbiguousQualifiedSymbol { name, count } => {
                let mut out = "qualified symbol `".to_owned();
                push(&mut out, name.as_str());
                push(&mut out, "` is ambiguous: ");
                push(&mut out, text::decimal(*count as u64).as_str());
                push(&mut out, " candidates");
                out
            },
            QueryCompileError::Selector(error) => text::join_text(
                "selector execution failed: ",
                error.message().as_str(),
            ),
        }
    }
}

/// What a `QueryCompileError` says.
pub enum QueryCompileErrorView {
    InvalidLimit,
    MissingParameter(Seq<char>),
    InvalidParameterType { name: Seq<char>, expected: Seq<char> },
    UnknownQualifiedSymbol(Seq<char>),
    AmbiguousQualifiedSymbol { name: Seq<char>, count: nat },
    Selector(SelectorError),
}

impl View for QueryCompileError {
    type V = QueryCompileErrorView;

    open spec fn view(&self) -> QueryCompileErrorView {
        match self {
            QueryCompileError::InvalidLimit => QueryCompileErrorView::InvalidLimit,
            QueryCompileError::MissingParameter(name) => QueryCompileErrorView::MissingParameter(
                name@,
            ),
            QueryCompileError::InvalidParameterType { name, expected } => {
                QueryCompileErrorView::InvalidParameterType { name: name@, expected: expected@ }
            },
            QueryCompileError::UnknownQualifiedSymbol(name) => {
                QueryCompileErrorView::UnknownQualifiedSymbol(name@)
            },
            QueryCompileError::AmbiguousQualifiedSymbol { name, count } => {
                QueryCompileErrorView::AmbiguousQualifiedSymbol {
                    name: name@,
                    count: *count as nat,
                }
            },
            QueryCompileError::Selector(error) => QueryCompileErrorView::Selector(*error),
        }
    }
}

/// A symbol whose parameter is bound: an id, or a name to look up.
#[derive(Debug, PartialEq, Eq)]
pub enum SymbolReference {
    Id(SymbolId),
    Name(String),
}

/// What a parameter must hold.
pub open spec fn symbol_types() -> Seq<char> {
    "symbol-id or qualified-symbol"@
}

/// What a query symbol refers to under given parameters.
pub open spec fn symbol_reference(
    symbol: QuerySymbol,
    parameters: Map<Seq<char>, QueryValue>,
) -> Result<SymbolReference, QueryCompileErrorView> {
    match symbol {
        QuerySymbol::Id(id) => Ok(SymbolReference::Id(id)),
        QuerySymbol::QualifiedName(name) => Ok(SymbolReference::Name(name)),
        QuerySymbol::Parameter(name) => if !parameters.dom().contains(name@) {
            Err(QueryCompileErrorView::MissingParameter(name@))
        } else {
            match parameters[name@] {
                QueryValue::SymbolId(id) => Ok(SymbolReference::Id(id)),
                QueryValue::QualifiedSymbol(name) => Ok(SymbolReference::Name(name)),
                _ => Err(
                    QueryCompileErrorView::InvalidParameterType {
                        name: name@,
                        expected: symbol_types(),
                    },
                ),
            }
        },
    }
}

/// Computes `symbol_reference`.
pub fn refer_symbol(symbol: &QuerySymbol, parameters: &QueryParameters) -> (result: Result<
    SymbolReference,
    QueryCompileError,
>)
    requires
        parameters.wf(),
    ensures
        match symbol_reference(*symbol, parameters@) {
            Ok(reference) => result == Ok::<SymbolReference, QueryCompileError>(reference),
            Err(problem) => result is Err && result->Err_0@ == problem,
        },
{
    match symbol {
        QuerySymbol::Id(id) => Ok(SymbolReference::Id(id.clone())),
        QuerySymbol::QualifiedName(name) => Ok(SymbolReference::Name(name.clone())),
        QuerySymbol::Parameter(name) => match parameters.get(name.as_str()) {
            None => Err(QueryCompileError::MissingParameter(name.clone())),
            Some(QueryValue::SymbolId(id)) => Ok(SymbolReference::Id(id.clone())),
            Some(QueryValue::QualifiedSymbol(name)) => Ok(SymbolReference::Name(name.clone())),
            Some(_) => Err(
                QueryCompileError::InvalidParameterType {
                    name: name.clone(),
                    expected: "symbol-id or qualified-symbol",
                },
            ),
        },
    }
}

/// The id that a reference means, given the symbols of its qualified name. A
/// dotted name that is not indexed is taken for a type of a dependency that is
/// not materialized yet.
pub open spec fn resolved_symbol(reference: SymbolReference, candidates: Seq<SymbolId>) -> Result<
    Seq<char>,
    QueryCompileErrorView,
> {
    match reference {
        SymbolReference::Id(id) => Ok(id@),
        SymbolReference::Name(name) => if candidates.len() == 1 {
            Ok(candidates[0]@)
        } else if candidates.len() > 1 {
            Err(
                QueryCompileErrorView::AmbiguousQualifiedSymbol {
                    name: name@,
                    count: candidates.len(),
                },
            )
        } else if name@.contains('.') {
            Ok("jvm:type:"@ + name@)
        } else {
            Err(QueryCompileErrorView::UnknownQualifiedSymbol(name@))
        },
    }
}

/// Computes `resolved_symbol`.
pub fn resolve_reference(reference: SymbolReference, candidates: &[SymbolId]) -> (result: Result<
    SymbolId,
    QueryCompileError,
>)
    ensures
        match resolved_symbol(reference, candidates@) {
            Ok(id) => result is Ok && result->Ok_0@ == id,
            Err(problem) => result is Err && result->Err_0@ == problem,
        },
{
    match reference {
        SymbolReference::Id(id) => Ok(id),
        SymbolReference::Name(name) => {
            if candidates.len() == 1 {
                return Ok(candidates[0].clone());
            }
            if candidates.len() > 1 {
                return Err(
                    QueryCompileError::AmbiguousQualifiedSymbol { name, count: candidates.len() },
                );
            }
            let chars = text::chars_of(name.as_str());
            proof {
                text::lemma_last_position(name@, '.');
            }
            match text::find_last_char(chars.as_slice(), '.') {
                Some(position) => {
                    assert(name@[position as int] == '.');
                    Ok(SymbolId::new(text::join_text("jvm:type:", name.as_str())))
                },
                None => Err(QueryCompileError::UnknownQualifiedSymbol(name)),
            }
        },
    }
}

/// The component that a query component means under given parameters.
pub open spec fn bound_component(
    component: QueryComponent,
    parameters: Map<Seq<char>, QueryValue>,
) -> Result<ComponentId, QueryCompileErrorView> {
    match component {
        QueryComponent::Id(id) => Ok(id),
        QueryComponent::Parameter(name) => if !parameters.dom().contains(name@) {
            Err(QueryCompileErrorView::MissingParameter(name@))
        } else {
            match parameters[name@] {
                QueryValue::ComponentId(id) => Ok(id),
                _ => Err(
                    QueryCompileErrorView::InvalidParameterType {
                        name: name@,
                        expected: "component-id"@,
                    },
                ),
            }
        },
    }
}

/// Computes `bound_component`.
pub fn resolve_component(component: &QueryComponent, parameters: &QueryParameters) -> (result:
    Result<ComponentId, QueryCompileError>)
    requires
        parameters.wf(),
    ensures
        match bound_component(*component, parameters@) {
            Ok(id) => result == Ok::<ComponentId, QueryCompileError>(id),
            Err(problem) => result is Err && result->Err_0@ == problem,
        },
{
    match component {
        QueryComponent::Id(id) => Ok(id.clone()),
        QueryComponent::Parameter(name) => match parameters.get(name.as_str()) {
            None => Err(QueryCompileError::MissingParameter(name.clone())),
            Some(QueryValue::ComponentId(id)) => Ok(id.clone()),
            Some(_) => Err(
                QueryCompileError::InvalidParameterType {
                    name: name.clone(),
                    expected: "component-id",
                },
            ),
        },
    }
}

/// The text that a query string means under given parameters.
pub open spec fn bound_string(value: QueryString, parameters: Map<Seq<char>, QueryValue>) -> Result<
    String,
    QueryCompileErrorView,
> {
    match value {
        QueryString::Literal(literal) => Ok(literal),
        QueryString::Parameter(name) => if !parameters.dom().contains(name@) {
            Err(QueryCompileErrorView::MissingParameter(name@))
        } else {
            match parameters[name@] {
                QueryValue::String(value) => Ok(value),
                _ => Err(
                    QueryCompileErrorView::InvalidParameterType {
                        name: name@,
                        expected: "string"@,
                    },
                ),
            }
        },
    }
}

/// Computes `bound_string`.
pub fn resolve_string(value: &QueryString, parameters: &QueryParameters) -> (result: Result<
    String,
    QueryCompileError,
>)
    requires
        parameters.wf(),
    ensures
        match bound_string(*value, parameters@) {
            Ok(text) => result == Ok::<String, QueryCompileError>(text),
            Err(problem) => result is Err && result->Err_0@ == problem,
        },
{
    match value {
        QueryString::Literal(literal) => Ok(literal.clone()),
        QueryString::Parameter(name) => match parameters.get(name.as_str()) {
            None => Err(QueryCompileError::MissingParameter(name.clone())),
            Some(QueryValue::String(value)) => Ok(value.clone()),
            Some(_) => Err(
                QueryCompileError::InvalidParameterType { name: name.clone(), expected: "string" },
            ),
        },
    }
}

/// The selector predicate of a query predicate under given parameters.
pub open spec fn bound_predicate(
    predicate: QueryPredicate,
    parameters: Map<Seq<char>, QueryValue>,
) -> Result<SelectorPredicate, QueryCompileErrorView> {
    match predicate {
        QueryPredicate::Kind(kind) => Ok(SelectorPredicate::Kind(kind)),
        QueryPredicate::Language(language) => Ok(SelectorPredicate::Language(language)),
        QueryPredicate::Component(component) => match bound_component(component, parameters) {
            Ok(id) => Ok(SelectorPredicate::Component(id)),
            Err(problem) => Err(problem),
        },
        QueryPredicate::QualifiedNamePrefix(prefix) => match bound_string(prefix, parameters) {
            Ok(text) => Ok(SelectorPredicate::QualifiedNamePrefix(text)),
            Err(problem) => Err(problem),
        },
    }
}

fn resolve_predicate(predicate: &QueryPredicate, parameters: &QueryParameters) -> (result: Result<
    SelectorPredicate,
    QueryCompileError,
>)
    requires
        parameters.wf(),
    ensures
        match bound_predicate(*predicate, parameters@) {
            Ok(bound) => result == Ok::<SelectorPredicate, QueryCompileError>(bound),
            Err(problem) => result is Err && result->Err_0@ == problem,
        },
{
    match predicate {
        QueryPredicate::Kind(kind) => Ok(SelectorPredicate::Kind(*kind)),
        QueryPredicate::Language(language) => Ok(SelectorPredicate::Language(language.clone())),
        QueryPredicate::Component(component) => match resolve_component(component, parameters) {
            Ok(id) => Ok(SelectorPredicate::Component(id)),
            Err(error) => Err(error),
        },
        QueryPredicate::QualifiedNamePrefix(prefix) => match resolve_string(prefix, parameters) {
            Ok(text) => Ok(SelectorPredicate::QualifiedNamePrefix(text)),
            Err(error) => Err(error),
        },
    }
}

/// What a program starts from under given parameters.
pub open spec fn program_reference(
    program: QueryProgram,
    parameters: Map<Seq<char>, QueryValue>,
) -> Result<SymbolReference, QueryCompileErrorView> {
    if program.limit == 0 || program.limit > MAX_RESULT_LIMIT {
        Err(QueryCompileErrorView::InvalidLimit)
    } else {
        symbol_reference(program.from->AppliedSymbol_0, parameters)
    }
}

/// Binds the symbol that a program starts from, so that its name can be looked
/// up before the program is compiled.
pub fn starting_reference(program: &QueryProgram, parameters: &QueryParameters) -> (result: Result<
    SymbolReference,
    QueryCompileError,
>)
    requires
        parameters.wf(),
    ensures
        match program_reference(*program, parameters@) {
            Ok(reference) => result == Ok::<SymbolReference, QueryCompileError>(reference),
            Err(problem) => result is Err && result->Err_0@ == problem,
        },
{
    if program.limit == 0 || program.limit > MAX_RESULT_LIMIT {
        return Err(QueryCompileError::InvalidLimit);
    }
    match &program.from {
        QueryFrom::AppliedSymbol(symbol) => refer_symbol(symbol, parameters),
    }
}

/// What is wrong with each filter of a program.
pub open spec fn predicate_problems(
    predicates: Seq<QueryPredicate>,
    parameters: Map<Seq<char>, QueryValue>,
) -> Seq<Option<QueryCompileErrorView>> {
    Seq::new(
        predicates.len(),
        |i: int|
            match bound_predicate(predicates[i], parameters) {
                Ok(_) => None,
                Err(problem) => Some(problem),
            },
    )
}

/// What is wrong with a program, given the symbols of the name that it starts
/// from.
pub open spec fn compile_problem(
    program: QueryProgram,
    parameters: Map<Seq<char>, QueryValue>,
    candidates: Seq<SymbolId>,
) -> Option<QueryCompileErrorView> {
    match program_reference(program, parameters) {
        Err(problem) => Some(problem),
        Ok(reference) => match resolved_symbol(reference, candidates) {
            Err(problem) => Some(problem),
            Ok(_) => ordering::first_problem(predicate_problems(program.predicates@, parameters)),
        },
    }
}

/// Whether a query is what a program compiles to.
pub open spec fn is_compiled(
    query: CompiledQuery,
    program: QueryProgram,
    parameters: Map<Seq<char>, QueryValue>,
    candidates: Seq<SymbolId>,
) -> bool {
    &&& query.limit == program.limit
    &&& query.starting_symbol@ == resolved_symbol(
        program_reference(program, parameters)->Ok_0,
        candidates,
    )->Ok_0
    &&& query.selector.views@.len() == 0
    &&& query.selector.predicates@.len() == program.predicates@.len() + 1
    &&& query.selector.predicates@[0] == SelectorPredicate::AppliedSymbol(query.starting_symbol)
    &&& forall|i: int|
        1 <= i < query.selector.predicates@.len() ==> Ok::<SelectorPredicate, QueryCompileErrorView>(
            #[trigger] query.selector.predicates@[i],
        ) == bound_predicate(program.predicates@[i - 1], parameters)
}

/// Compiles a program to a bounded selector, given the symbols of the name that
/// it starts from.
pub fn compile(
    program: &QueryProgram,
    parameters: &QueryParameters,
    candidates: &[SymbolId],
) -> (result: Result<CompiledQuery, QueryCompileError>)
    requires
        parameters.wf(),
    ensures
        match compile_problem(*program, parameters@, candidates@) {
            Some(problem) => result is Err && result->Err_0@ == problem,
            None => result is Ok && is_compiled(
                result->Ok_0,
                *program,
                parameters@,
                candidates@,
            ),
        },
{
    let reference = match starting_reference(program, parameters) {
        Ok(reference) => reference,
        Err(error) => {
            return Err(error);
        },
    };
    let starting_symbol = match resolve_reference(reference, candidates) {
        Ok(id) => id,
        Err(error) => {
            return Err(error);
        },
    };
    let mut predicates: Vec<SelectorPredicate> = Vec::new();
    predicates.push(SelectorPredicate::AppliedSymbol(starting_symbol.clone()));
    let ghost problems = predicate_problems(program.predicates@, parameters@);
    let mut i: usize = 0;
    while i < program.predicates.len()
        invariant
            parameters.wf(),
            problems == predicate_problems(program.predicates@, parameters@),
            i <= program.predicates@.len(),
            predicates@.len() == i + 1,
            predicates@[0] == SelectorPredicate::AppliedSymbol(starting_symbol),
            forall|j: int| 0 <= j < i ==> (#[trigger] problems[j]) is None,
            forall|j: int|
                1 <= j < predicates@.len() ==> Ok::<SelectorPredicate, QueryCompileErrorView>(
                    #[trigger] predicates@[j],
                ) == bound_predicate(program.predicates@[j - 1], parameters@),
            compile_problem(*program, parameters@, candidates@) == ordering::first_problem(
                problems,
            ),
        decreases program.predicates@.len() - i,
    {
        match resolve_predicate(&program.predicates[i], parameters) {
            Ok(predicate) => {
                assert(problems[i as int] is None);
                predicates.push(predicate);
            },
            Err(error) => {
                proof {
                    ordering::lemma_first_problem(problems, i as int);
                }
                return Err(error);
            },
        }
        i = i + 1;
    }
    proof {
        ordering::lemma_first_problem(problems, i as int);
    }
    Ok(
        CompiledQuery {
            selector: Selector { views: Vec::new(), predicates },
            starting_symbol,
            limit: program.limit,
        },
    )
}

/// The declarations among candidates that a query is after.
pub open spec fn found_symbols(plan: CompiledQuery, candidates: Seq<SymbolRecord>) -> Seq<
    SymbolRecord,
> {
    candidates.filter(
        |symbol: SymbolRecord|
            selector::satisfies_all(symbol, selector::all_predicates(plan.selector)),
    )
}

/// The declarations that a query returns: at most as many as its limit.
pub open spec fn returned_symbols(plan: CompiledQuery, candidates: Seq<SymbolRecord>) -> Seq<
    SymbolRecord,
> {
    let found = found_symbols(plan, candidates);
    if found.len() > plan.limit {
        found.take(plan.limit as int)
    } else {
        found
    }
}

/// Executes a compiled query on the declarations that its starting symbol is
/// applied to, and makes it explicit where the limit cuts the answer short.
pub fn execute(plan: CompiledQuery, candidates: Vec<SymbolRecord>) -> (result: Result<
    QueryResult,
    QueryCompileError,
>)
    ensures
        match selector::starting_symbol(plan.selector) {
            Some(_) => {
                let found = found_symbols(plan, candidates@);
                &&& result is Ok
                &&& result->Ok_0.plan == plan
                &&& result->Ok_0.symbols@ == returned_symbols(plan, candidates@)
                &&& result->Ok_0.state == (if found.len() > plan.limit {
                    SelectorState::Partial
                } else {
                    selector::answer_state(found)
                })
            },
            None => result is Err && result->Err_0@ == QueryCompileErrorView::Selector(
                SelectorError::Unbounded,
            ),
        },
{
    let selected = match select(&plan.selector, candidates) {
        Ok(selected) => selected,
        Err(error) => {
            return Err(QueryCompileError::Selector(error));
        },
    };
    let limit: usize = plan.limit as usize;
    let mut symbols = selected.symbols;
    if symbols.len() > limit {
        symbols.truncate(limit);
        Ok(QueryResult { state: SelectorState::Partial, plan, symbols })
    } else {
        Ok(QueryResult { state: selected.state, plan, symbols })
    }
}

impl QueryResult {
    /// The result as that of the selection it started from.
    pub fn into_selection(self) -> (result: SelectorResult)
        ensures
            result.state == self.state,
            result.symbols == self.symbols,
            result.plan == (SelectorPlan::AppliedSymbolPosting {
                applied_symbol: self.plan.starting_symbol,
            }),
    {
        SelectorResult {
            state: self.state,
            plan: SelectorPlan::AppliedSymbolPosting { applied_symbol: self.plan.starting_symbol },
            symbols: self.symbols,
        }
    }
}

/// A compiled query starts from the applications of one symbol: no program scans
/// every declaration.
pub proof fn law_compiled_query_is_bounded(
    query: CompiledQuery,
    program: QueryProgram,
    parameters: Map<Seq<char>, QueryValue>,
    candidates: Seq<SymbolId>,
)
    requires
        compile_problem(program, parameters, candidates) is None,
        is_compiled(query, program, parameters, candidates),
    ensures
        selector::starting_symbol(query.selector) == Some(query.starting_symbol),
        1 <= query.limit <= MAX_RESULT_LIMIT,
{
    let predicates = selector::all_predicates(query.selector);
    assert(predicates =~= query.selector.predicates@);
    lemma_single_start(
        predicates,
        query.starting_symbol,
        program,
        parameters,
        predicates.len() as int,
    );
}

proof fn lemma_single_start(
    predicates: Seq<SelectorPredicate>,
    symbol: SymbolId,
    program: QueryProgram,
    parameters: Map<Seq<char>, QueryValue>,
    n: int,
)
    requires
        1 <= n <= predicates.len(),
        predicates.len() == program.predicates@.len() + 1,
        predicates[0] == SelectorPredicate::AppliedSymbol(symbol),
        forall|i: int|
            1 <= i < predicates.len() ==> Ok::<SelectorPredicate, QueryCompileErrorView>(
                #[trigger] predicates[i],
            ) == bound_predicate(program.predicates@[i - 1], parameters),
    ensures
        selector::least_applied(predicates, n) == Some(symbol),
    decreases n,
{
    if n > 1 {
        lemma_single_start(predicates, symbol, program, parameters, n - 1);
        assert(!(predicates[n - 1] is AppliedSymbol));
    } else {
        assert(selector::least_applied(predicates, 0) is None);
    }
}

/// A query never returns more than the policy allows.
pub proof fn law_results_are_limited(
    query: CompiledQuery,
    program: QueryProgram,
    parameters: Map<Seq<char>, QueryValue>,
    candidates: Seq<SymbolId>,
    posting: Seq<SymbolRecord>,
)
    requires
        compile_problem(program, parameters, candidates) is None,
        is_compiled(query, program, parameters, candidates),
    ensures
        returned_symbols(query, posting).len() <= MAX_RESULT_LIMIT,
{
}

/// An executed query returns what its selector selects, in order, as far as the
/// limit goes, and says so where the limit cut something off.
pub proof fn law_execution_selects_up_to_the_limit(
    plan: CompiledQuery,
    candidates: Vec<SymbolRecord>,
    selected: Result<SelectorResult, SelectorError>,
    result: Result<QueryResult, QueryCompileError>,
)
    requires
        call_ensures(select, (&plan.selector, candidates), selected),
        call_ensures(execute, (plan, candidates), result),
    ensures
        result is Ok <==> selected is Ok,
        result is Ok ==> {
            let all = selected->Ok_0.symbols@;
            let returned = result->Ok_0.symbols@;
            &&& all.len() <= plan.limit ==> returned == all && result->Ok_0.state
                == selected->Ok_0.state
            &&& all.len() > plan.limit ==> returned == all.subrange(0, plan.limit as int)
                && result->Ok_0.state == SelectorState::Partial
        },
{
    if result is Ok {
        let all = selected->Ok_0.symbols@;
        if all.len() > plan.limit {
            assert(all.take(plan.limit as int) =~= all.subrange(0, plan.limit as int));
        }
    }
}

/// A qualified name stands for its one symbol. Of several none is chosen. A name
/// that is not indexed is taken for a type where it is dotted, and is unknown
/// otherwise. An id always stands for itself.
pub proof fn law_references_resolve_to_one_symbol(
    reference: SymbolReference,
    candidates: &[SymbolId],
    result: Result<SymbolId, QueryCompileError>,
)
    requires
        call_ensures(resolve_reference, (reference, candidates), result),
    ensures
        reference is Id ==> result is Ok && result->Ok_0@ == reference->Id_0@,
        reference is Name && candidates@.len() == 1 ==> result is Ok && result->Ok_0@
            == candidates@[0]@,
        reference is Name && candidates@.len() > 1 ==> result is Err
            && result->Err_0 is AmbiguousQualifiedSymbol,
        reference is Name && candidates@.len() == 0 && reference->Name_0@.contains('.')
            ==> result is Ok && result->Ok_0@ == "jvm:type:"@ + reference->Name_0@,
        reference is Name && candidates@.len() == 0 && !reference->Name_0@.contains('.')
            ==> result is Err && result->Err_0 is UnknownQualifiedSymbol,
{
}

/// A parameter stands for its value, and only for one of a fitting type.
pub proof fn law_parameters_stand_for_their_values(
    name: String,
    parameters: &QueryParameters,
    symbol: Result<SymbolReference, QueryCompileError>,
    component: Result<ComponentId, QueryCompileError>,
    string: Result<String, QueryCompileError>,
)
    requires
        parameters.wf(),
        call_ensures(refer_symbol, (&QuerySymbol::Parameter(name), parameters), symbol),
        call_ensures(resolve_component, (&QueryComponent::Parameter(name), parameters), component),
        call_ensures(resolve_string, (&QueryString::Parameter(name), parameters), string),
    ensures
        !parameters@.dom().contains(name@) ==> symbol is Err && component is Err && string is Err
            && symbol->Err_0 is MissingParameter && component->Err_0 is MissingParameter
            && string->Err_0 is MissingParameter,
        parameters@.dom().contains(name@) ==> {
            let value = parameters@[name@];
            &&& symbol is Ok <==> value is SymbolId || value is QualifiedSymbol
            &&& component is Ok <==> value is ComponentId
            &&& string is Ok <==> value is String
            &&& value is SymbolId ==> symbol->Ok_0 is Id && symbol->Ok_0->Id_0
                == value->SymbolId_0
            &&& value is QualifiedSymbol ==> symbol->Ok_0 is Name && symbol->Ok_0->Name_0
                == value->QualifiedSymbol_0
            &&& value is ComponentId ==> component->Ok_0 == value->ComponentId_0
            &&& value is String ==> string->Ok_0 == value->String_0
        },
{
}

/// A compiled program starts from its symbol, keeps every filter and its limit,
/// which lies between one and a thousand.
pub proof fn law_compilation_keeps_every_filter(
    program: &QueryProgram,
    parameters: &QueryParameters,
    candidates: &[SymbolId],
    query: CompiledQuery,
    i: int,
)
    requires
        parameters.wf(),
        call_ensures(
            compile,
            (program, parameters, candidates),
            Ok::<CompiledQuery, QueryCompileError>(query),
        ),
        0 <= i < program.predicates@.len(),
    ensures
        1 <= query.limit <= 1000,
        query.limit == program.limit,
        query.selector.predicates@[0] == SelectorPredicate::AppliedSymbol(query.starting_symbol),
        program.from->AppliedSymbol_0 is Id ==> query.starting_symbol@
            == program.from->AppliedSymbol_0->Id_0@,
        query.selector.predicates@.len() == program.predicates@.len() + 1,
        ({
            let written = program.predicates@[i];
            let compiled = query.selector.predicates@[i + 1];
            &&& written is Kind ==> compiled is Kind && compiled->Kind_0 == written->Kind_0
            &&& written is Language ==> compiled is Language && compiled->Language_0
                == written->Language_0
            &&& written is Component && written->Component_0 is Id ==> compiled is Component
                && compiled->Component_0 == written->Component_0->Id_0
            &&& written is QualifiedNamePrefix && written->QualifiedNamePrefix_0 is Literal
                ==> compiled is QualifiedNamePrefix && compiled->QualifiedNamePrefix_0
                == written->QualifiedNamePrefix_0->Literal_0
        }),
{
    assert(query.selector.predicates@[i + 1] == query.selector.predicates@[i + 1]);
}

/// A program without a limit, or with one over a thousand, is not compiled.
pub proof fn law_limits_are_enforced(
    program: &QueryProgram,
    parameters: &QueryParameters,
    candidates: &[SymbolId],
    result: Result<CompiledQuery, QueryCompileError>,
)
    requires
        parameters.wf(),
        call_ensures(compile, (program, parameters, candidates), result),
    ensures
        program.limit == 0 || program.limit > 1000 ==> result is Err
            && result->Err_0 is InvalidLimit,
        program.limit > 0 && program.limit <= 1000 && program.predicates@.len() == 0
            && program.from->AppliedSymbol_0 is Id ==> result is Ok,
{
    if program.predicates@.len() == 0 {
        let problems = predicate_problems(program.predicates@, parameters@);
        ordering::lemma_first_problem(problems, 0);
    }
}

} // verus!
