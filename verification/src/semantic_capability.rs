//! Planning and bounded validation of negotiated worker query capabilities.

use vstd::prelude::*;

use crate::canonical::{Completeness, ComponentId, Provenance, SourceUnitId, SymbolId};
use crate::identifiers;
use crate::identifiers::{sorted_symbols, sorted_units};
use crate::ordered_map;
use crate::ordered_map::{index_by_key, Keyed, OrderedMap};
use crate::ordering;
use crate::ordering::{stable_sort, Ranked};
use crate::protocol::{
    FileAnalysisSnapshot, WorkerEnvelope, WorkerIdentity, WorkerMessage, WORKER_PROTOCOL_VERSION,
};
use crate::shown::Shown;
use crate::shown::push;
use crate::text;

verus! {

pub const MAX_CAPABILITY_CANDIDATES: u32 = 1_000;

pub const MAX_CAPABILITY_NODES: u32 = 10_000;

pub const MAX_CAPABILITY_BYTES: u64 = 16_777_216;

pub const MAX_CAPABILITY_DEADLINE_MILLIS: u64 = 30_000;

/// The type of a capability parameter.
#[derive(Debug, Clone, Copy, PartialEq, Eq, Structural)]
pub enum SemanticQueryParameterType {
    SymbolId,
    ComponentId,
    String,
    Integer,
}

/// One advertised parameter.
#[derive(Debug, PartialEq, Eq)]
pub struct SemanticQueryParameter {
    pub name: String,
    pub ty: SemanticQueryParameterType,
    pub required: bool,
}

impl Clone for SemanticQueryParameter {
    fn clone(&self) -> (result: Self)
        ensures
            result == *self,
    {
        SemanticQueryParameter { name: self.name.clone(), ty: self.ty, required: self.required }
    }
}

impl Keyed for SemanticQueryParameter {
    open spec fn key(&self) -> Seq<char> {
        self.name@
    }

    fn key_text(&self) -> (result: &str) {
        self.name.as_str()
    }
}

/// What a capability returns.
#[derive(Debug, Clone, Copy, PartialEq, Eq, Structural)]
pub enum SemanticQueryResultKind {
    CandidateSymbols,
    NormalizedFacts,
}

/// One advertised capability.
#[derive(Debug, PartialEq, Eq)]
pub struct SemanticQueryCapability {
    pub name: String,
    pub version: u32,
    pub parameters: Vec<SemanticQueryParameter>,
    pub result: SemanticQueryResultKind,
}

/// What a `SemanticQueryCapability` holds.
#[verifier::ext_equal]
pub struct SemanticQueryCapabilityView {
    pub name: String,
    pub version: u32,
    pub parameters: Seq<SemanticQueryParameter>,
    pub result: SemanticQueryResultKind,
}

impl View for SemanticQueryCapability {
    type V = SemanticQueryCapabilityView;

    open spec fn view(&self) -> SemanticQueryCapabilityView {
        SemanticQueryCapabilityView {
            name: self.name,
            version: self.version,
            parameters: self.parameters@,
            result: self.result,
        }
    }
}

impl Clone for SemanticQueryCapability {
    fn clone(&self) -> (result: Self)
        ensures
            result@ == self@,
    {
        let result = SemanticQueryCapability {
            name: self.name.clone(),
            version: self.version,
            parameters: self.parameters.clone(),
            result: self.result,
        };
        assert(result.parameters@ =~= self.parameters@);
        result
    }
}

/// The value of an argument.
#[derive(Debug, PartialEq, Eq)]
pub enum SemanticQueryArgumentValue {
    SymbolId(SymbolId),
    ComponentId(ComponentId),
    String(String),
    Integer(i64),
}

impl Clone for SemanticQueryArgumentValue {
    fn clone(&self) -> (result: Self)
        ensures
            result == *self,
    {
        match self {
            SemanticQueryArgumentValue::SymbolId(value) => SemanticQueryArgumentValue::SymbolId(
                value.clone(),
            ),
            SemanticQueryArgumentValue::ComponentId(value) => SemanticQueryArgumentValue::ComponentId(
                value.clone(),
            ),
            SemanticQueryArgumentValue::String(value) => SemanticQueryArgumentValue::String(
                value.clone(),
            ),
            SemanticQueryArgumentValue::Integer(value) => SemanticQueryArgumentValue::Integer(
                *value,
            ),
        }
    }
}

/// One supplied argument.
#[derive(Debug, PartialEq, Eq)]
pub struct SemanticQueryArgument {
    pub name: String,
    pub value: SemanticQueryArgumentValue,
}

impl Clone for SemanticQueryArgument {
    fn clone(&self) -> (result: Self)
        ensures
            result == *self,
    {
        SemanticQueryArgument { name: self.name.clone(), value: self.value.clone() }
    }
}

impl Keyed for SemanticQueryArgument {
    open spec fn key(&self) -> Seq<char> {
        self.name@
    }

    fn key_text(&self) -> (result: &str) {
        self.name.as_str()
    }
}

/// What a query may cost.
#[derive(Debug, Clone, Copy, PartialEq, Eq, Structural)]
pub struct SemanticQueryBudget {
    pub max_candidates: u32,
    pub max_nodes: u32,
    pub max_bytes: u64,
    pub deadline_millis: u64,
}

/// A request for one capability.
#[derive(Debug, PartialEq, Eq)]
pub struct SemanticQueryRequest {
    pub capability_name: String,
    pub capability_version: u32,
    pub arguments: Vec<SemanticQueryArgument>,
    pub candidate_symbols: Vec<SymbolId>,
    pub candidate_source_units: Vec<SourceUnitId>,
    pub budget: SemanticQueryBudget,
}

/// Whether two requests ask for the same.
pub open spec fn same_request(a: SemanticQueryRequest, b: SemanticQueryRequest) -> bool {
    &&& a.capability_name == b.capability_name
    &&& a.capability_version == b.capability_version
    &&& a.arguments@ == b.arguments@
    &&& a.candidate_symbols@ == b.candidate_symbols@
    &&& a.candidate_source_units@ == b.candidate_source_units@
    &&& a.budget == b.budget
}

impl Clone for SemanticQueryRequest {
    fn clone(&self) -> (result: Self)
        ensures
            same_request(result, *self),
    {
        let result = SemanticQueryRequest {
            capability_name: self.capability_name.clone(),
            capability_version: self.capability_version,
            arguments: self.arguments.clone(),
            candidate_symbols: self.candidate_symbols.clone(),
            candidate_source_units: self.candidate_source_units.clone(),
            budget: self.budget,
        };
        assert(result.arguments@ =~= self.arguments@);
        assert(result.candidate_symbols@ =~= self.candidate_symbols@);
        assert(result.candidate_source_units@ =~= self.candidate_source_units@);
        result
    }
}

/// How far a response answers its request.
#[derive(Debug, Clone, Copy, PartialEq, Eq, Structural)]
pub enum SemanticQueryResponseState {
    Complete,
    Partial,
    Unsupported,
}

/// The response to a request.
#[derive(Debug, Clone, PartialEq, Eq)]
pub struct SemanticQueryResponse {
    pub capability_name: String,
    pub capability_version: u32,
    pub state: SemanticQueryResponseState,
    pub candidate_symbols: Vec<SymbolId>,
    pub snapshots: Vec<FileAnalysisSnapshot>,
    pub provenance: Provenance,
    pub visited_nodes: u32,
    pub produced_bytes: u64,
}

/// A worker whose handshake was read.
#[derive(Debug, Clone, PartialEq, Eq)]
pub struct DiscoveredWorker {
    pub identity: WorkerIdentity,
    pub semantic_query_capabilities: Vec<SemanticQueryCapability>,
}

/// A request that the worker's contract and the budget allow.
#[derive(Debug, Clone, PartialEq, Eq)]
pub struct SemanticCapabilityPlan {
    pub worker: WorkerIdentity,
    pub capability: SemanticQueryCapability,
    pub request: SemanticQueryRequest,
}

/// Why a capability cannot be used.
#[derive(Debug, Clone, PartialEq, Eq)]
pub enum SemanticCapabilityError {
    Unavailable { name: String, version: u32 },
    InvalidArguments(String),
    InvalidBudget(String),
    InvalidResponse(String),
    BudgetExceeded(String),
}

impl SemanticCapabilityError {
    /// The message that is shown for an error.
    pub open spec fn message_text(&self) -> Seq<char> {
        match self {
            SemanticCapabilityError::Unavailable { name, version } => {
                "worker does not advertise semantic capability `"@
                + name@
                + "` version "@
                + text::decimal_text(*version as nat)
            },
            SemanticCapabilityError::InvalidArguments(reason) => {
                "semantic capability arguments do not match the advertised contract: "@
                + reason@
            },
            SemanticCapabilityError::InvalidBudget(field) => {
                "semantic capability budget is invalid: "@
                + field@
            },
            SemanticCapabilityError::InvalidResponse(reason) => {
                "worker returned an unexpected semantic capability response: "@
                + reason@
            },
            SemanticCapabilityError::BudgetExceeded(what) => {
                "semantic capability response exceeded the "@
                + what@
                + " budget"@
            },
        }
    }

    /// Computes `message_text`.
    pub fn message(&self) -> (result: String)
        ensures
            result@ == self.message_text(),
    {
        match self {
            SemanticCapabilityError::Unavailable { name, version } => {
                let mut out = "worker does not advertise semantic capability `".to_owned();
                push(&mut out, name.as_str());
                push(&mut out, "` version ");
                push(&mut out, text::decimal(*version as u64).as_str());
                out
            },
            SemanticCapabilityError::InvalidArguments(reason) => text::join_text(
                "semantic capability arguments do not match the advertised contract: ",
                reason.as_str(),
            ),
            SemanticCapabilityError::InvalidBudget(field) => text::join_text(
                "semantic capability budget is invalid: ",
                field.as_str(),
            ),
            SemanticCapabilityError::InvalidResponse(reason) => text::join_text(
                "worker returned an unexpected semantic capability response: ",
                reason.as_str(),
            ),
            SemanticCapabilityError::BudgetExceeded(what) => {
                let mut out = "semantic capability response exceeded the ".to_owned();
                push(&mut out, what.as_str());
                push(&mut out, " budget");
                out
            },
        }
    }
}

/// What a `SemanticCapabilityError` says.
pub enum SemanticCapabilityErrorView {
    Unavailable { name: Seq<char>, version: u32 },
    InvalidArguments(Seq<char>),
    InvalidBudget(Seq<char>),
    InvalidResponse(Seq<char>),
    BudgetExceeded(Seq<char>),
}

impl View for SemanticCapabilityError {
    type V = SemanticCapabilityErrorView;

    open spec fn view(&self) -> SemanticCapabilityErrorView {
        match self {
            SemanticCapabilityError::Unavailable { name, version } => {
                SemanticCapabilityErrorView::Unavailable { name: name@, version: *version }
            },
            SemanticCapabilityError::InvalidArguments(reason) => {
                SemanticCapabilityErrorView::InvalidArguments(reason@)
            },
            SemanticCapabilityError::InvalidBudget(field) => {
                SemanticCapabilityErrorView::InvalidBudget(field@)
            },
            SemanticCapabilityError::InvalidResponse(reason) => {
                SemanticCapabilityErrorView::InvalidResponse(reason@)
            },
            SemanticCapabilityError::BudgetExceeded(what) => {
                SemanticCapabilityErrorView::BudgetExceeded(what@)
            },
        }
    }
}

fn invalid_arguments(before: &str, name: &str, after: &str) -> (result: SemanticCapabilityError)
    ensures
        result@ == SemanticCapabilityErrorView::InvalidArguments(before@ + name@ + after@),
{
    let mut reason = text::join_text(before, name);
    reason.append(after);
    SemanticCapabilityError::InvalidArguments(reason)
}

fn invalid_budget(field: &str) -> (result: SemanticCapabilityError)
    ensures
        result@ == SemanticCapabilityErrorView::InvalidBudget(field@),
{
    SemanticCapabilityError::InvalidBudget(field.to_owned())
}

fn invalid_response(reason: &str) -> (result: SemanticCapabilityError)
    ensures
        result@ == SemanticCapabilityErrorView::InvalidResponse(reason@),
{
    SemanticCapabilityError::InvalidResponse(reason.to_owned())
}

fn budget_exceeded(what: &str) -> (result: SemanticCapabilityError)
    ensures
        result@ == SemanticCapabilityErrorView::BudgetExceeded(what@),
{
    SemanticCapabilityError::BudgetExceeded(what.to_owned())
}

/// The first field of a budget that is zero or above its cap.
pub open spec fn budget_problem(budget: SemanticQueryBudget) -> Option<
    SemanticCapabilityErrorView,
> {
    if budget.max_candidates == 0 || budget.max_candidates > MAX_CAPABILITY_CANDIDATES {
        Some(SemanticCapabilityErrorView::InvalidBudget("max_candidates"@))
    } else if budget.max_nodes == 0 || budget.max_nodes > MAX_CAPABILITY_NODES {
        Some(SemanticCapabilityErrorView::InvalidBudget("max_nodes"@))
    } else if budget.max_bytes == 0 || budget.max_bytes > MAX_CAPABILITY_BYTES {
        Some(SemanticCapabilityErrorView::InvalidBudget("max_bytes"@))
    } else if budget.deadline_millis == 0 || budget.deadline_millis
        > MAX_CAPABILITY_DEADLINE_MILLIS {
        Some(SemanticCapabilityErrorView::InvalidBudget("deadline_millis"@))
    } else {
        None
    }
}

/// Computes `budget_problem`.
pub fn validate_budget(budget: SemanticQueryBudget) -> (result: Result<
    (),
    SemanticCapabilityError,
>)
    ensures
        match budget_problem(budget) {
            Some(problem) => result is Err && result->Err_0@ == problem,
            None => result is Ok,
        },
{
    if budget.max_candidates == 0 || budget.max_candidates > MAX_CAPABILITY_CANDIDATES {
        return Err(invalid_budget("max_candidates"));
    }
    if budget.max_nodes == 0 || budget.max_nodes > MAX_CAPABILITY_NODES {
        return Err(invalid_budget("max_nodes"));
    }
    if budget.max_bytes == 0 || budget.max_bytes > MAX_CAPABILITY_BYTES {
        return Err(invalid_budget("max_bytes"));
    }
    if budget.deadline_millis == 0 || budget.deadline_millis > MAX_CAPABILITY_DEADLINE_MILLIS {
        return Err(invalid_budget("deadline_millis"));
    }
    Ok(())
}

/// Whether a value has a parameter's type.
pub open spec fn value_matches(
    expected: SemanticQueryParameterType,
    value: SemanticQueryArgumentValue,
) -> bool {
    match (expected, value) {
        (SemanticQueryParameterType::SymbolId, SemanticQueryArgumentValue::SymbolId(_)) => true,
        (
            SemanticQueryParameterType::ComponentId,
            SemanticQueryArgumentValue::ComponentId(_),
        ) => true,
        (SemanticQueryParameterType::String, SemanticQueryArgumentValue::String(_)) => true,
        (SemanticQueryParameterType::Integer, SemanticQueryArgumentValue::Integer(_)) => true,
        _ => false,
    }
}

/// Computes `value_matches`.
pub fn argument_matches(
    expected: SemanticQueryParameterType,
    value: &SemanticQueryArgumentValue,
) -> (result: bool)
    ensures
        result == value_matches(expected, *value),
{
    match (expected, value) {
        (SemanticQueryParameterType::SymbolId, SemanticQueryArgumentValue::SymbolId(_)) => true,
        (
            SemanticQueryParameterType::ComponentId,
            SemanticQueryArgumentValue::ComponentId(_),
        ) => true,
        (SemanticQueryParameterType::String, SemanticQueryArgumentValue::String(_)) => true,
        (SemanticQueryParameterType::Integer, SemanticQueryArgumentValue::Integer(_)) => true,
        _ => false,
    }
}

/// Whether the advertised parameter names differ.
pub open spec fn distinct_parameters(parameters: Seq<SemanticQueryParameter>) -> bool {
    forall|i: int, j: int|
        #![trigger parameters[i], parameters[j]]
        0 <= i < j < parameters.len() ==> parameters[i].name@ != parameters[j].name@
}

/// What is wrong with argument `i`, seen with the arguments before it.
pub open spec fn argument_problem(
    parameters: Seq<SemanticQueryParameter>,
    arguments: Seq<SemanticQueryArgument>,
    i: int,
) -> Option<SemanticCapabilityErrorView> {
    let name = arguments[i].name@;
    if !ordered_map::keys_of(parameters).contains(name) {
        Some(
            SemanticCapabilityErrorView::InvalidArguments("unknown argument `"@ + name + "`"@),
        )
    } else if ordered_map::keys_of(arguments.take(i)).contains(name) {
        Some(
            SemanticCapabilityErrorView::InvalidArguments(
                "argument `"@ + name + "` is supplied more than once"@,
            ),
        )
    } else if !value_matches(ordered_map::latest(parameters, name).ty, arguments[i].value) {
        Some(
            SemanticCapabilityErrorView::InvalidArguments(
                "argument `"@ + name + "` has the wrong type"@,
            ),
        )
    } else {
        None
    }
}

/// The problem of the first argument that has one.
pub open spec fn first_argument_problem(
    parameters: Seq<SemanticQueryParameter>,
    arguments: Seq<SemanticQueryArgument>,
    n: int,
) -> Option<SemanticCapabilityErrorView>
    decreases n,
{
    if n <= 0 {
        None
    } else {
        match first_argument_problem(parameters, arguments, n - 1) {
            Some(problem) => Some(problem),
            None => argument_problem(parameters, arguments, n - 1),
        }
    }
}

/// The first of the first `n` parameters that is required and not supplied.
pub open spec fn first_missing(
    parameters: Seq<SemanticQueryParameter>,
    arguments: Seq<SemanticQueryArgument>,
    n: int,
) -> Option<SemanticCapabilityErrorView>
    decreases n,
{
    if n <= 0 {
        None
    } else {
        match first_missing(parameters, arguments, n - 1) {
            Some(problem) => Some(problem),
            None => if parameters[n - 1].required && !ordered_map::keys_of(arguments).contains(
                parameters[n - 1].name@,
            ) {
                Some(
                    SemanticCapabilityErrorView::InvalidArguments(
                        "required argument `"@ + parameters[n - 1].name@ + "` is missing"@,
                    ),
                )
            } else {
                None
            },
        }
    }
}

/// What is wrong with arguments under a contract: the contract first, then the
/// arguments in order, then the parameters in order.
pub open spec fn arguments_problem(
    parameters: Seq<SemanticQueryParameter>,
    arguments: Seq<SemanticQueryArgument>,
) -> Option<SemanticCapabilityErrorView> {
    if !distinct_parameters(parameters) {
        Some(
            SemanticCapabilityErrorView::InvalidArguments(
                "advertised contract contains duplicate parameter names"@,
            ),
        )
    } else {
        match first_argument_problem(parameters, arguments, arguments.len() as int) {
            Some(problem) => Some(problem),
            None => first_missing(parameters, arguments, parameters.len() as int),
        }
    }
}

/// Whether arguments are the given ones in ascending order of their names.
pub open spec fn are_sorted_arguments(
    result: Seq<SemanticQueryArgument>,
    arguments: Seq<SemanticQueryArgument>,
) -> bool {
    let names = ordering::sorted_texts(ordered_map::keys_of(arguments));
    &&& result.len() == names.len()
    &&& forall|i: int|
        0 <= i < names.len() ==> #[trigger] result[i] == ordered_map::latest(arguments, names[i])
}

fn has_distinct_parameters(parameters: &[SemanticQueryParameter]) -> (result: bool)
    ensures
        result == distinct_parameters(parameters@),
{
    let mut i: usize = 0;
    while i < parameters.len()
        invariant
            i <= parameters@.len(),
            forall|a: int, b: int|
                #![trigger parameters@[a], parameters@[b]]
                0 <= a < b < parameters@.len() && a < i ==> parameters@[a].name@
                    != parameters@[b].name@,
        decreases parameters@.len() - i,
    {
        let mut j: usize = i + 1;
        while j < parameters.len()
            invariant
                i < j <= parameters@.len(),
                forall|b: int|
                    i < b < j ==> parameters@[i as int].name@ != (#[trigger] parameters@[b]).name@,
            decreases parameters@.len() - j,
        {
            if parameters[i].name == parameters[j].name {
                assert(parameters@[i as int].name@ == parameters@[j as int].name@);
                return false;
            }
            j = j + 1;
        }
        i = i + 1;
    }
    true
}

/// Checks arguments against a capability's contract and sorts them by name.
pub fn validate_arguments(
    capability: &SemanticQueryCapability,
    arguments: &[SemanticQueryArgument],
) -> (result: Result<Vec<SemanticQueryArgument>, SemanticCapabilityError>)
    ensures
        match arguments_problem(capability.parameters@, arguments@) {
            Some(problem) => result is Err && result->Err_0@ == problem,
            None => result is Ok && are_sorted_arguments(result->Ok_0@, arguments@),
        },
{
    let parameters = capability.parameters.as_slice();
    if !has_distinct_parameters(parameters) {
        return Err(
            SemanticCapabilityError::InvalidArguments(
                "advertised contract contains duplicate parameter names".to_owned(),
            ),
        );
    }
    let declared: OrderedMap<usize> = index_by_key(parameters);
    let mut supplied: OrderedMap<usize> = OrderedMap::new();
    assert(supplied@.dom() =~= ordered_map::keys_of(arguments@.take(0)));
    let mut i: usize = 0;
    while i < arguments.len()
        invariant
            distinct_parameters(capability.parameters@),
            parameters@ == capability.parameters@,
            declared.wf(),
            supplied.wf(),
            declared@.dom() == ordered_map::keys_of(parameters@),
            forall|key: Seq<char>| #[trigger]
                declared@.dom().contains(key) ==> declared@[key] < parameters@.len()
                    && parameters@[declared@[key] as int] == ordered_map::latest(parameters@, key),
            i <= arguments@.len(),
            first_argument_problem(parameters@, arguments@, i as int) is None,
            supplied@.dom() == ordered_map::keys_of(arguments@.take(i as int)),
            forall|key: Seq<char>| #[trigger]
                supplied@.dom().contains(key) ==> supplied@[key] < i && arguments@[supplied@[key] as int]
                    == ordered_map::latest(arguments@.take(i as int), key),
        decreases arguments@.len() - i,
    {
        let name = arguments[i].name.as_str();
        proof {
            lemma_problem_persists(parameters@, arguments@, i + 1, arguments@.len() as int);
        }
        let problem: Option<SemanticCapabilityError> = match declared.get(name) {
            None => Some(invalid_arguments("unknown argument `", name, "`")),
            Some(position) => {
                if supplied.contains_key(name) {
                    Some(invalid_arguments("argument `", name, "` is supplied more than once"))
                } else if !argument_matches(parameters[*position].ty, &arguments[i].value) {
                    Some(invalid_arguments("argument `", name, "` has the wrong type"))
                } else {
                    None
                }
            },
        };
        if let Some(problem) = problem {
            assert(argument_problem(parameters@, arguments@, i as int) == Some(problem@));
            return Err(problem);
        }
        supplied.insert(arguments[i].name.clone(), i);
        i = i + 1;
        assert(arguments@.take(i as int).drop_last() =~= arguments@.take(i - 1));
    }
    assert(arguments@.take(i as int) =~= arguments@);
    let mut j: usize = 0;
    while j < parameters.len()
        invariant
            distinct_parameters(capability.parameters@),
            parameters@ == capability.parameters@,
            first_argument_problem(parameters@, arguments@, arguments@.len() as int) is None,
            supplied.wf(),
            supplied@.dom() == ordered_map::keys_of(arguments@),
            j <= parameters@.len(),
            first_missing(parameters@, arguments@, j as int) is None,
        decreases parameters@.len() - j,
    {
        proof {
            lemma_missing_persists(parameters@, arguments@, j + 1, parameters@.len() as int);
        }
        if parameters[j].required && !supplied.contains_key(parameters[j].name.as_str()) {
            return Err(
                invalid_arguments("required argument `", parameters[j].name.as_str(), "` is missing"),
            );
        }
        j = j + 1;
    }
    proof {
        supplied.lemma_order();
    }
    let mut result: Vec<SemanticQueryArgument> = Vec::new();
    let mut k: usize = 0;
    while k < supplied.len()
        invariant
            supplied.wf(),
            supplied@.dom() == ordered_map::keys_of(arguments@),
            forall|key: Seq<char>| #[trigger]
                supplied@.dom().contains(key) ==> supplied@[key] < arguments@.len()
                    && arguments@[supplied@[key] as int] == ordered_map::latest(arguments@, key),
            k <= supplied.order().len(),
            result@.len() == k,
            forall|m: int|
                0 <= m < k ==> #[trigger] result@[m] == ordered_map::latest(
                    arguments@,
                    supplied.order()[m],
                ),
        decreases supplied.order().len() - k,
    {
        let key = supplied.key_at(k);
        result.push(arguments[*supplied.value_at(k)].clone());
        k = k + 1;
    }
    Ok(result)
}

proof fn lemma_problem_persists(
    parameters: Seq<SemanticQueryParameter>,
    arguments: Seq<SemanticQueryArgument>,
    m: int,
    n: int,
)
    requires
        m <= n,
    ensures
        first_argument_problem(parameters, arguments, m) is Some ==> first_argument_problem(
            parameters,
            arguments,
            n,
        ) == first_argument_problem(parameters, arguments, m),
    decreases n - m,
{
    if m < n {
        lemma_problem_persists(parameters, arguments, m, n - 1);
    }
}

proof fn lemma_missing_persists(
    parameters: Seq<SemanticQueryParameter>,
    arguments: Seq<SemanticQueryArgument>,
    m: int,
    n: int,
)
    requires
        m <= n,
    ensures
        first_missing(parameters, arguments, m) is Some ==> first_missing(parameters, arguments, n)
            == first_missing(parameters, arguments, m),
    decreases n - m,
{
    if m < n {
        lemma_missing_persists(parameters, arguments, m, n - 1);
    }
}

/// The position of the first capability of a name and version; the length,
/// where none is.
pub open spec fn capability_position(
    capabilities: Seq<SemanticQueryCapability>,
    name: Seq<char>,
    version: u32,
) -> int
    decreases capabilities.len(),
{
    if capabilities.len() == 0 || capabilities[0].name@ == name && capabilities[0].version
        == version {
        0
    } else {
        1 + capability_position(capabilities.drop_first(), name, version)
    }
}

proof fn lemma_capability_position(
    capabilities: Seq<SemanticQueryCapability>,
    name: Seq<char>,
    version: u32,
    p: int,
)
    requires
        0 <= p <= capabilities.len(),
        forall|i: int|
            0 <= i < p ==> !((#[trigger] capabilities[i]).name@ == name && capabilities[i].version
                == version),
        p < capabilities.len() ==> capabilities[p].name@ == name && capabilities[p].version
            == version,
    ensures
        capability_position(capabilities, name, version) == p,
    decreases p,
{
    if p > 0 {
        let rest = capabilities.drop_first();
        assert(!(capabilities[0].name@ == name && capabilities[0].version == version));
        assert forall|i: int| 0 <= i < p - 1 implies !((#[trigger] rest[i]).name@ == name
            && rest[i].version == version) by {
            assert(rest[i] == capabilities[i + 1]);
        }
        lemma_capability_position(rest, name, version, p - 1);
    }
}

fn find_capability(
    capabilities: &[SemanticQueryCapability],
    name: &str,
    version: u32,
) -> (result: Option<usize>)
    ensures
        match result {
            Some(position) => position == capability_position(capabilities@, name@, version)
                && position < capabilities@.len(),
            None => capability_position(capabilities@, name@, version) == capabilities@.len(),
        },
{
    let mut i: usize = 0;
    while i < capabilities.len()
        invariant
            i <= capabilities@.len(),
            forall|j: int|
                0 <= j < i ==> !((#[trigger] capabilities@[j]).name@ == name@
                    && capabilities@[j].version == version),
        decreases capabilities@.len() - i,
    {
        if text::same_text(capabilities[i].name.as_str(), name) && capabilities[i].version
            == version {
            proof {
                lemma_capability_position(capabilities@, name@, version, i as int);
            }
            return Some(i);
        }
        i = i + 1;
    }
    proof {
        lemma_capability_position(capabilities@, name@, version, i as int);
    }
    None
}

/// What is wrong with a request before it is sent: the budget, the inputs
/// against it, the capability, the arguments.
pub open spec fn request_problem(
    worker: DiscoveredWorker,
    name: Seq<char>,
    version: u32,
    arguments: Seq<SemanticQueryArgument>,
    symbols: nat,
    units: nat,
    budget: SemanticQueryBudget,
) -> Option<SemanticCapabilityErrorView> {
    let capabilities = worker.semantic_query_capabilities@;
    let position = capability_position(capabilities, name, version);
    match budget_problem(budget) {
        Some(problem) => Some(problem),
        None => if symbols > budget.max_candidates {
            Some(SemanticCapabilityErrorView::BudgetExceeded("candidate input"@))
        } else if units > budget.max_nodes {
            Some(SemanticCapabilityErrorView::BudgetExceeded("source input"@))
        } else if position == capabilities.len() {
            Some(SemanticCapabilityErrorView::Unavailable { name, version })
        } else {
            arguments_problem(capabilities[position].parameters@, arguments)
        },
    }
}

/// Plans a request that the worker's contract and the budget allow. The inputs
/// are sorted and listed once.
pub fn plan_semantic_capability(
    worker: &DiscoveredWorker,
    capability_name: &str,
    capability_version: u32,
    arguments: &[SemanticQueryArgument],
    candidate_symbols: &[SymbolId],
    candidate_source_units: &[SourceUnitId],
    budget: SemanticQueryBudget,
) -> (result: Result<SemanticCapabilityPlan, SemanticCapabilityError>)
    ensures
        match request_problem(
            *worker,
            capability_name@,
            capability_version,
            arguments@,
            candidate_symbols@.len(),
            candidate_source_units@.len(),
            budget,
        ) {
            Some(problem) => result is Err && result->Err_0@ == problem,
            None => {
                let plan = result->Ok_0;
                let capabilities = worker.semantic_query_capabilities@;
                &&& result is Ok
                &&& plan.worker.backend == worker.identity.backend
                &&& plan.worker.backend_version == worker.identity.backend_version
                &&& plan.capability@ == capabilities[capability_position(
                    capabilities,
                    capability_name@,
                    capability_version,
                )]@
                &&& plan.request.capability_name@ == capability_name@
                &&& plan.request.capability_version == capability_version
                &&& are_sorted_arguments(plan.request.arguments@, arguments@)
                &&& identifiers::symbol_texts(plan.request.candidate_symbols@) == ordering::sorted_texts(
                    ordered_map::keys_of(candidate_symbols@),
                )
                &&& identifiers::unit_texts(plan.request.candidate_source_units@) == ordering::sorted_texts(
                    ordered_map::keys_of(candidate_source_units@),
                )
                &&& plan.request.budget == budget
            },
        },
{
    match validate_budget(budget) {
        Ok(()) => {},
        Err(error) => {
            return Err(error);
        },
    }
    if candidate_symbols.len() as u64 > budget.max_candidates as u64 {
        return Err(budget_exceeded("candidate input"));
    }
    if candidate_source_units.len() as u64 > budget.max_nodes as u64 {
        return Err(budget_exceeded("source input"));
    }
    let capabilities = worker.semantic_query_capabilities.as_slice();
    let capability = match find_capability(capabilities, capability_name, capability_version) {
        Some(position) => capabilities[position].clone(),
        None => {
            return Err(
                SemanticCapabilityError::Unavailable {
                    name: capability_name.to_owned(),
                    version: capability_version,
                },
            );
        },
    };
    let arguments = match validate_arguments(&capability, arguments) {
        Ok(arguments) => arguments,
        Err(error) => {
            return Err(error);
        },
    };
    Ok(
        SemanticCapabilityPlan {
            worker: WorkerIdentity {
                backend: worker.identity.backend.clone(),
                backend_version: worker.identity.backend_version.clone(),
            },
            capability,
            request: SemanticQueryRequest {
                capability_name: capability_name.to_owned(),
                capability_version,
                arguments,
                candidate_symbols: sorted_symbols(candidate_symbols),
                candidate_source_units: sorted_units(candidate_source_units),
                budget,
            },
        },
    )
}

impl Ranked for FileAnalysisSnapshot {
    open spec fn ranks_before(&self, other: &Self) -> bool {
        text::text_lt(self.source_unit.id@, other.source_unit.id@)
    }

    proof fn lemma_rank_asymmetric(a: &Self, b: &Self) {
        text::lemma_text_lt_asymmetric(a.source_unit.id@, b.source_unit.id@);
    }

    proof fn lemma_rank_negatively_transitive(a: &Self, b: &Self, c: &Self) {
        text::lemma_text_lt_negatively_transitive(
            a.source_unit.id@,
            b.source_unit.id@,
            c.source_unit.id@,
        );
    }

    fn is_before(&self, other: &Self) -> (result: bool) {
        text::text_before(self.source_unit.id.as_str(), other.source_unit.id.as_str())
    }
}

/// Whether a provenance is the one of a worker under this protocol version.
pub open spec fn from_worker(provenance: Provenance, worker: WorkerIdentity) -> bool {
    &&& provenance.backend@ == worker.backend@
    &&& provenance.backend_version@ == worker.backend_version@
    &&& provenance.protocol_version == WORKER_PROTOCOL_VERSION
}

fn is_from_worker(provenance: &Provenance, worker: &WorkerIdentity) -> (result: bool)
    ensures
        result == from_worker(*provenance, *worker),
{
    provenance.backend == worker.backend && provenance.backend_version == worker.backend_version
        && provenance.protocol_version == WORKER_PROTOCOL_VERSION
}

/// Whether all snapshots are of source units that the request lists.
pub open spec fn inside_bounds(
    snapshots: Seq<FileAnalysisSnapshot>,
    units: Seq<SourceUnitId>,
) -> bool {
    forall|i: int|
        0 <= i < snapshots.len() ==> identifiers::unit_texts(units).contains(
            (#[trigger] snapshots[i]).source_unit.id@,
        )
}

/// Whether all snapshots come from the worker.
pub open spec fn all_from_worker(
    snapshots: Seq<FileAnalysisSnapshot>,
    worker: WorkerIdentity,
) -> bool {
    forall|i: int|
        0 <= i < snapshots.len() ==> from_worker((#[trigger] snapshots[i]).provenance, worker)
}

/// Whether all snapshots are complete.
pub open spec fn all_complete(snapshots: Seq<FileAnalysisSnapshot>) -> bool {
    forall|i: int|
        0 <= i < snapshots.len() ==> (#[trigger] snapshots[i]).completeness
            == Completeness::Complete
}

/// Whether the snapshots at `i` and after it are of the same source unit.
pub open spec fn repeats_unit_at(snapshots: Seq<FileAnalysisSnapshot>, i: int) -> bool {
    snapshots[i].source_unit.id@ == snapshots[i + 1].source_unit.id@
}

/// Whether two neighbours in a list are of the same source unit.
pub open spec fn repeats_unit(snapshots: Seq<FileAnalysisSnapshot>) -> bool {
    exists|i: int| 0 <= i < snapshots.len() - 1 && #[trigger] repeats_unit_at(snapshots, i)
}

/// What is wrong with where a response comes from and with what it cost: its
/// identity, its provenance, and the budget.
pub open spec fn cost_problem(
    plan: SemanticCapabilityPlan,
    response: SemanticQueryResponse,
    elapsed_millis: u64,
    encoded_bytes: u64,
) -> Option<SemanticCapabilityErrorView> {
    let budget = plan.request.budget;
    if response.capability_name@ != plan.request.capability_name@ || response.capability_version
        != plan.request.capability_version {
        Some(
            SemanticCapabilityErrorView::InvalidResponse(
                "capability identity does not match the request"@,
            ),
        )
    } else if !from_worker(response.provenance, plan.worker) {
        Some(
            SemanticCapabilityErrorView::InvalidResponse(
                "provenance does not match the negotiated worker"@,
            ),
        )
    } else if elapsed_millis > budget.deadline_millis {
        Some(SemanticCapabilityErrorView::BudgetExceeded("deadline"@))
    } else if response.visited_nodes > budget.max_nodes {
        Some(SemanticCapabilityErrorView::BudgetExceeded("node"@))
    } else if response.produced_bytes > budget.max_bytes {
        Some(SemanticCapabilityErrorView::BudgetExceeded("reported byte"@))
    } else if response.candidate_symbols@.len() > budget.max_candidates {
        Some(SemanticCapabilityErrorView::BudgetExceeded("candidate output"@))
    } else if response.snapshots@.len() > budget.max_nodes {
        Some(SemanticCapabilityErrorView::BudgetExceeded("snapshot output"@))
    } else if encoded_bytes > budget.max_bytes {
        Some(SemanticCapabilityErrorView::BudgetExceeded("encoded byte"@))
    } else {
        None
    }
}

/// What is wrong with what a response holds: its shape, and the snapshots in
/// it.
pub open spec fn content_problem(
    plan: SemanticCapabilityPlan,
    response: SemanticQueryResponse,
) -> Option<SemanticCapabilityErrorView> {
    let kind = plan.capability.result;
    if kind == SemanticQueryResultKind::CandidateSymbols && response.snapshots@.len() > 0 {
        Some(
            SemanticCapabilityErrorView::InvalidResponse(
                "candidate-symbol capability returned normalized facts"@,
            ),
        )
    } else if kind == SemanticQueryResultKind::NormalizedFacts && response.candidate_symbols@.len()
        > 0 {
        Some(
            SemanticCapabilityErrorView::InvalidResponse(
                "normalized-facts capability returned candidate symbols"@,
            ),
        )
    } else if response.state == SemanticQueryResponseState::Unsupported && (
    response.candidate_symbols@.len() > 0 || response.snapshots@.len() > 0) {
        Some(
            SemanticCapabilityErrorView::InvalidResponse(
                "unsupported response contains results"@,
            ),
        )
    } else if !inside_bounds(response.snapshots@, plan.request.candidate_source_units@) {
        Some(
            SemanticCapabilityErrorView::InvalidResponse(
                "response contains a snapshot outside the bounded source set"@,
            ),
        )
    } else if !all_from_worker(response.snapshots@, plan.worker) {
        Some(
            SemanticCapabilityErrorView::InvalidResponse(
                "snapshot provenance does not match the negotiated worker"@,
            ),
        )
    } else if repeats_unit(ordering::stable_sorted(response.snapshots@)) {
        Some(
            SemanticCapabilityErrorView::InvalidResponse(
                "response contains duplicate source snapshots"@,
            ),
        )
    } else {
        None
    }
}

/// What is wrong with a response: first where it comes from and what it cost,
/// then what it holds.
pub open spec fn response_problem(
    plan: SemanticCapabilityPlan,
    response: SemanticQueryResponse,
    elapsed_millis: u64,
    encoded_bytes: u64,
) -> Option<SemanticCapabilityErrorView> {
    match cost_problem(plan, response, elapsed_millis, encoded_bytes) {
        Some(problem) => Some(problem),
        None => content_problem(plan, response),
    }
}

/// The state that an accepted response is given: incomplete snapshots make a
/// complete response partial.
pub open spec fn accepted_state(response: SemanticQueryResponse) -> SemanticQueryResponseState {
    if response.state == SemanticQueryResponseState::Complete && !all_complete(
        response.snapshots@,
    ) {
        SemanticQueryResponseState::Partial
    } else {
        response.state
    }
}

fn are_all_complete(snapshots: &[FileAnalysisSnapshot]) -> (result: bool)
    ensures
        result == all_complete(snapshots@),
{
    let mut i: usize = 0;
    while i < snapshots.len()
        invariant
            i <= snapshots@.len(),
            forall|j: int|
                0 <= j < i ==> (#[trigger] snapshots@[j]).completeness == Completeness::Complete,
        decreases snapshots@.len() - i,
    {
        if snapshots[i].completeness != Completeness::Complete {
            assert(snapshots@[i as int].completeness != Completeness::Complete);
            return false;
        }
        i = i + 1;
    }
    true
}

fn contains_unit(units: &[SourceUnitId], wanted: &SourceUnitId) -> (result: bool)
    ensures
        result == identifiers::unit_texts(units@).contains(wanted@),
{
    let mut i: usize = 0;
    while i < units.len()
        invariant
            i <= units@.len(),
            forall|j: int| 0 <= j < i ==> identifiers::unit_texts(units@)[j] != wanted@,
        decreases units@.len() - i,
    {
        if units[i].same(wanted) {
            assert(identifiers::unit_texts(units@)[i as int] == wanted@);
            return true;
        }
        i = i + 1;
    }
    false
}

fn are_inside_bounds(snapshots: &[FileAnalysisSnapshot], units: &[SourceUnitId]) -> (result: bool)
    ensures
        result == inside_bounds(snapshots@, units@),
{
    let mut i: usize = 0;
    while i < snapshots.len()
        invariant
            i <= snapshots@.len(),
            forall|j: int|
                0 <= j < i ==> identifiers::unit_texts(units@).contains(
                    (#[trigger] snapshots@[j]).source_unit.id@,
                ),
        decreases snapshots@.len() - i,
    {
        if !contains_unit(units, &snapshots[i].source_unit.id) {
            assert(!identifiers::unit_texts(units@).contains(snapshots@[i as int].source_unit.id@));
            return false;
        }
        i = i + 1;
    }
    true
}

fn are_all_from_worker(snapshots: &[FileAnalysisSnapshot], worker: &WorkerIdentity) -> (result: bool)
    ensures
        result == all_from_worker(snapshots@, *worker),
{
    let mut i: usize = 0;
    while i < snapshots.len()
        invariant
            i <= snapshots@.len(),
            forall|j: int|
                0 <= j < i ==> from_worker((#[trigger] snapshots@[j]).provenance, *worker),
        decreases snapshots@.len() - i,
    {
        if !is_from_worker(&snapshots[i].provenance, worker) {
            assert(!from_worker(snapshots@[i as int].provenance, *worker));
            return false;
        }
        i = i + 1;
    }
    true
}

fn does_repeat_unit(snapshots: &[FileAnalysisSnapshot]) -> (result: bool)
    ensures
        result == repeats_unit(snapshots@),
{
    let len: usize = snapshots.len();
    let mut i: usize = 0;
    while i < len && i + 1 < len
        invariant
            len == snapshots@.len(),
            i <= snapshots@.len(),
            forall|j: int|
                0 <= j < i && j < snapshots@.len() - 1 ==> !#[trigger] repeats_unit_at(
                    snapshots@,
                    j,
                ),
        decreases snapshots@.len() - i,
    {
        if snapshots[i].source_unit.id.same(&snapshots[i + 1].source_unit.id) {
            assert(repeats_unit_at(snapshots@, i as int));
            return true;
        }
        i = i + 1;
    }
    false
}

fn check_cost(
    plan: &SemanticCapabilityPlan,
    response: &SemanticQueryResponse,
    elapsed_millis: u64,
    encoded_bytes: u64,
) -> (result: Result<(), SemanticCapabilityError>)
    ensures
        match cost_problem(*plan, *response, elapsed_millis, encoded_bytes) {
            Some(problem) => result is Err && result->Err_0@ == problem,
            None => result is Ok,
        },
{
    let budget = plan.request.budget;
    if response.capability_name != plan.request.capability_name || response.capability_version
        != plan.request.capability_version {
        return Err(invalid_response("capability identity does not match the request"));
    }
    if !is_from_worker(&response.provenance, &plan.worker) {
        return Err(invalid_response("provenance does not match the negotiated worker"));
    }
    if elapsed_millis > budget.deadline_millis {
        return Err(budget_exceeded("deadline"));
    }
    if response.visited_nodes > budget.max_nodes {
        return Err(budget_exceeded("node"));
    }
    if response.produced_bytes > budget.max_bytes {
        return Err(budget_exceeded("reported byte"));
    }
    if response.candidate_symbols.len() as u64 > budget.max_candidates as u64 {
        return Err(budget_exceeded("candidate output"));
    }
    if response.snapshots.len() as u64 > budget.max_nodes as u64 {
        return Err(budget_exceeded("snapshot output"));
    }
    if encoded_bytes > budget.max_bytes {
        return Err(budget_exceeded("encoded byte"));
    }
    Ok(())
}

/// Checks what a response holds, but for the order of its snapshots.
fn check_content(
    plan: &SemanticCapabilityPlan,
    response: &SemanticQueryResponse,
) -> (result: Result<(), SemanticCapabilityError>)
    ensures
        match result {
            Err(error) => content_problem(*plan, *response) == Some(error@),
            Ok(_) => content_problem(*plan, *response) == (if repeats_unit(
                ordering::stable_sorted(response.snapshots@),
            ) {
                Some(
                    SemanticCapabilityErrorView::InvalidResponse(
                        "response contains duplicate source snapshots"@,
                    ),
                )
            } else {
                None
            }),
        },
{
    match plan.capability.result {
        SemanticQueryResultKind::CandidateSymbols => {
            if response.snapshots.len() > 0 {
                return Err(
                    invalid_response("candidate-symbol capability returned normalized facts"),
                );
            }
        },
        SemanticQueryResultKind::NormalizedFacts => {
            if response.candidate_symbols.len() > 0 {
                return Err(
                    invalid_response("normalized-facts capability returned candidate symbols"),
                );
            }
        },
    }
    if response.state == SemanticQueryResponseState::Unsupported && (
    response.candidate_symbols.len() > 0 || response.snapshots.len() > 0) {
        return Err(invalid_response("unsupported response contains results"));
    }
    if !are_inside_bounds(
        response.snapshots.as_slice(),
        plan.request.candidate_source_units.as_slice(),
    ) {
        return Err(
            invalid_response("response contains a snapshot outside the bounded source set"),
        );
    }
    if !are_all_from_worker(response.snapshots.as_slice(), &plan.worker) {
        return Err(invalid_response("snapshot provenance does not match the negotiated worker"));
    }
    Ok(())
}

/// Holds a response against the plan that asked for it. An accepted response
/// is sorted, and never claims to be complete with incomplete snapshots.
pub fn validate_semantic_capability_response(
    plan: &SemanticCapabilityPlan,
    response: SemanticQueryResponse,
    elapsed_millis: u64,
    encoded_bytes: u64,
) -> (result: Result<SemanticQueryResponse, SemanticCapabilityError>)
    ensures
        match response_problem(*plan, response, elapsed_millis, encoded_bytes) {
            Some(problem) => result is Err && result->Err_0@ == problem,
            None => {
                let accepted = result->Ok_0;
                &&& result is Ok
                &&& accepted.capability_name == response.capability_name
                &&& accepted.capability_version == response.capability_version
                &&& accepted.state == accepted_state(response)
                &&& identifiers::symbol_texts(accepted.candidate_symbols@) == ordering::sorted_texts(
                    ordered_map::keys_of(response.candidate_symbols@),
                )
                &&& accepted.snapshots@ == ordering::stable_sorted(response.snapshots@)
                &&& accepted.provenance == response.provenance
                &&& accepted.visited_nodes == response.visited_nodes
                &&& accepted.produced_bytes == response.produced_bytes
            },
        },
{
    match check_cost(plan, &response, elapsed_millis, encoded_bytes) {
        Ok(()) => {},
        Err(error) => {
            return Err(error);
        },
    }
    match check_content(plan, &response) {
        Ok(()) => {},
        Err(error) => {
            return Err(error);
        },
    }
    let complete: bool = are_all_complete(response.snapshots.as_slice());
    let state = if response.state == SemanticQueryResponseState::Complete && !complete {
        SemanticQueryResponseState::Partial
    } else {
        response.state
    };
    let candidate_symbols = sorted_symbols(response.candidate_symbols.as_slice());
    let snapshots = stable_sort(response.snapshots);
    if does_repeat_unit(snapshots.as_slice()) {
        return Err(invalid_response("response contains duplicate source snapshots"));
    }
    Ok(
        SemanticQueryResponse {
            capability_name: response.capability_name,
            capability_version: response.capability_version,
            state,
            candidate_symbols,
            snapshots,
            provenance: response.provenance,
            visited_nodes: response.visited_nodes,
            produced_bytes: response.produced_bytes,
        },
    )
}

/// Whether a handshake still offers what a plan was made for.
pub open spec fn still_offered(
    plan: SemanticCapabilityPlan,
    identity: WorkerIdentity,
    capabilities: Seq<SemanticQueryCapability>,
) -> bool {
    &&& identity.backend@ == plan.worker.backend@
    &&& identity.backend_version@ == plan.worker.backend_version@
    &&& exists|i: int|
        0 <= i < capabilities.len() && same_capability(#[trigger] capabilities[i], plan.capability)
}

/// Whether two parameters say the same.
pub open spec fn same_parameter(a: SemanticQueryParameter, b: SemanticQueryParameter) -> bool {
    a.name@ == b.name@ && a.ty == b.ty && a.required == b.required
}

/// Whether two capabilities say the same.
pub open spec fn same_capability(a: SemanticQueryCapability, b: SemanticQueryCapability) -> bool {
    &&& a.name@ == b.name@
    &&& a.version == b.version
    &&& a.result == b.result
    &&& a.parameters@.len() == b.parameters@.len()
    &&& forall|i: int|
        0 <= i < a.parameters@.len() ==> same_parameter(
            #[trigger] a.parameters@[i],
            b.parameters@[i],
        )
}

fn is_same_capability(a: &SemanticQueryCapability, b: &SemanticQueryCapability) -> (result: bool)
    ensures
        result == same_capability(*a, *b),
{
    if a.name != b.name || a.version != b.version || a.result != b.result || a.parameters.len()
        != b.parameters.len() {
        return false;
    }
    let mut i: usize = 0;
    while i < a.parameters.len()
        invariant
            a.parameters@.len() == b.parameters@.len(),
            i <= a.parameters@.len(),
            forall|j: int|
                0 <= j < i ==> same_parameter(#[trigger] a.parameters@[j], b.parameters@[j]),
        decreases a.parameters@.len() - i,
    {
        let x = &a.parameters[i];
        let y = &b.parameters[i];
        if x.name != y.name || x.ty != y.ty || x.required != y.required {
            assert(!same_parameter(a.parameters@[i as int], b.parameters@[i as int]));
            return false;
        }
        i = i + 1;
    }
    true
}

/// Decides, from the handshake of a started worker, whether the request of a
/// plan may be sent.
pub fn check_handshake(
    plan: &SemanticCapabilityPlan,
    identity: &WorkerIdentity,
    capabilities: &[SemanticQueryCapability],
) -> (result: Result<(), SemanticCapabilityError>)
    ensures
        result is Ok <==> still_offered(*plan, *identity, capabilities@),
        result matches Err(error) ==> error@ == (SemanticCapabilityErrorView::Unavailable {
            name: plan.capability.name@,
            version: plan.capability.version,
        }),
{
    let mut offered: bool = false;
    let mut i: usize = 0;
    while i < capabilities.len()
        invariant
            i <= capabilities@.len(),
            offered <==> exists|j: int|
                0 <= j < i && same_capability(#[trigger] capabilities@[j], plan.capability),
        decreases capabilities@.len() - i,
    {
        let same: bool = is_same_capability(&capabilities[i], &plan.capability);
        assert(same == same_capability(capabilities@[i as int], plan.capability));
        offered = offered || same;
        i = i + 1;
    }
    if identity.backend == plan.worker.backend && identity.backend_version
        == plan.worker.backend_version && offered {
        Ok(())
    } else {
        Err(
            SemanticCapabilityError::Unavailable {
                name: plan.capability.name.clone(),
                version: plan.capability.version,
            },
        )
    }
}

/// The envelope that asks a worker for what a plan wants.
pub fn semantic_query_envelope(plan: &SemanticCapabilityPlan, request_id: &str) -> (result:
    WorkerEnvelope)
    ensures
        result.protocol_version == WORKER_PROTOCOL_VERSION,
        result.request_id@ == request_id@,
        result.message matches WorkerMessage::SemanticQueryRequest(request) && same_request(
            *request,
            plan.request,
        ),
{
    WorkerEnvelope::new(
        request_id,
        WorkerMessage::SemanticQueryRequest(Box::new(plan.request.clone())),
    )
}

/// Takes the response out of a reply; any other reply is refused with what it
/// is.
pub fn take_semantic_response(message: WorkerMessage) -> (result: Result<
    SemanticQueryResponse,
    SemanticCapabilityError,
>)
    ensures
        match message {
            WorkerMessage::SemanticQueryResponse(response) => result == Ok::<
                SemanticQueryResponse,
                SemanticCapabilityError,
            >(*response),
            received => result is Err && result->Err_0@
                == SemanticCapabilityErrorView::InvalidResponse(
                "expected semantic_query_response, received "@ + received.shown(),
            ),
        },
{
    match message {
        WorkerMessage::SemanticQueryResponse(response) => Ok(*response),
        received => Err(
            SemanticCapabilityError::InvalidResponse(
                text::join_text(
                    "expected semantic_query_response, received ",
                    received.show().as_str(),
                ),
            ),
        ),
    }
}

proof fn lemma_sorted_without_repeats(snapshots: Seq<FileAnalysisSnapshot>, i: int, j: int)
    requires
        ordering::in_order(snapshots),
        !repeats_unit(snapshots),
        0 <= i < j < snapshots.len(),
    ensures
        text::text_lt(snapshots[i].source_unit.id@, snapshots[j].source_unit.id@),
    decreases j - i,
{
    let a = snapshots[i].source_unit.id@;
    let b = snapshots[i + 1].source_unit.id@;
    assert(!repeats_unit_at(snapshots, i));
    assert(!snapshots[i + 1].ranks_before(&snapshots[i]));
    text::lemma_text_lt_total(a, b);
    if i + 1 < j {
        lemma_sorted_without_repeats(snapshots, i + 1, j);
        text::lemma_text_lt_transitive(a, b, snapshots[j].source_unit.id@);
    }
}

/// An accepted response names every source unit at most once, in ascending
/// order.
pub proof fn law_accepted_units_ascend(
    plan: SemanticCapabilityPlan,
    response: SemanticQueryResponse,
    i: int,
    j: int,
)
    requires
        content_problem(plan, response) is None,
        0 <= i < j < ordering::stable_sorted(response.snapshots@).len(),
    ensures
        text::text_lt(
            ordering::stable_sorted(response.snapshots@)[i].source_unit.id@,
            ordering::stable_sorted(response.snapshots@)[j].source_unit.id@,
        ),
{
    ordering::lemma_stable_sorted_in_order(response.snapshots@);
    lemma_sorted_without_repeats(ordering::stable_sorted(response.snapshots@), i, j);
}

/// Every snapshot of an accepted response is of a source unit that the request
/// listed, and comes from the worker that was asked.
pub proof fn law_accepted_snapshots_are_bounded(
    plan: SemanticCapabilityPlan,
    response: SemanticQueryResponse,
    i: int,
)
    requires
        content_problem(plan, response) is None,
        0 <= i < ordering::stable_sorted(response.snapshots@).len(),
    ensures
        ({
            let snapshot = ordering::stable_sorted(response.snapshots@)[i];
            &&& identifiers::unit_texts(plan.request.candidate_source_units@).contains(snapshot.source_unit.id@)
            &&& from_worker(snapshot.provenance, plan.worker)
        }),
{
    let accepted = ordering::stable_sorted(response.snapshots@);
    ordering::lemma_stable_sorted_contains(response.snapshots@, accepted[i]);
    assert(accepted.contains(accepted[i]));
    let k = response.snapshots@.index_of(accepted[i]);
    assert(response.snapshots@[k] == accepted[i]);
}

/// A response that is accepted as complete holds complete snapshots only, and
/// stays inside every bound of the budget.
pub proof fn law_complete_is_not_overclaimed(
    plan: SemanticCapabilityPlan,
    response: SemanticQueryResponse,
    elapsed_millis: u64,
    encoded_bytes: u64,
)
    requires
        response_problem(plan, response, elapsed_millis, encoded_bytes) is None,
    ensures
        accepted_state(response) == SemanticQueryResponseState::Complete ==> all_complete(
            response.snapshots@,
        ),
        elapsed_millis <= plan.request.budget.deadline_millis,
        response.visited_nodes <= plan.request.budget.max_nodes,
        response.produced_bytes <= plan.request.budget.max_bytes,
        encoded_bytes <= plan.request.budget.max_bytes,
        response.candidate_symbols@.len() <= plan.request.budget.max_candidates,
        response.snapshots@.len() <= plan.request.budget.max_nodes,
{
}

/// A budget is accepted exactly where each of its bounds is positive and at most
/// its cap.
pub proof fn law_budgets_are_capped(
    budget: SemanticQueryBudget,
    result: Result<(), SemanticCapabilityError>,
)
    requires
        call_ensures(validate_budget, (budget,), result),
    ensures
        result is Ok <==> 0 < budget.max_candidates <= 1000 && 0 < budget.max_nodes <= 10000 && 0
            < budget.max_bytes <= 16777216 && 0 < budget.deadline_millis <= 30000,
        result is Err ==> result->Err_0 is InvalidBudget,
{
}

/// A value fits a parameter exactly where it is of the parameter's type.
pub proof fn law_values_fit_their_type(
    expected: SemanticQueryParameterType,
    value: &SemanticQueryArgumentValue,
    result: bool,
)
    requires
        call_ensures(argument_matches, (expected, value), result),
    ensures
        expected is SymbolId ==> (result <==> *value is SymbolId),
        expected is ComponentId ==> (result <==> *value is ComponentId),
        expected is String ==> (result <==> *value is String),
        expected is Integer ==> (result <==> *value is Integer),
{
}

proof fn lemma_no_argument_problem(
    parameters: Seq<SemanticQueryParameter>,
    arguments: Seq<SemanticQueryArgument>,
    n: int,
)
    requires
        0 <= n,
        first_argument_problem(parameters, arguments, n) is None,
    ensures
        forall|i: int|
            0 <= i < n ==> (#[trigger] argument_problem(parameters, arguments, i)) is None,
    decreases n,
{
    if n > 0 {
        lemma_no_argument_problem(parameters, arguments, n - 1);
    }
}

proof fn lemma_none_missing(
    parameters: Seq<SemanticQueryParameter>,
    arguments: Seq<SemanticQueryArgument>,
    n: int,
    p: int,
)
    requires
        0 <= p < n,
        first_missing(parameters, arguments, n) is None,
    ensures
        parameters[p].required ==> ordered_map::keys_of(arguments).contains(parameters[p].name@),
    decreases n,
{
    if p < n - 1 {
        lemma_none_missing(parameters, arguments, n - 1, p);
    }
}

/// Accepted arguments are each of an advertised parameter, and every required
/// parameter has one.
pub proof fn law_accepted_arguments_meet_the_contract(
    capability: &SemanticQueryCapability,
    arguments: &[SemanticQueryArgument],
    accepted: Vec<SemanticQueryArgument>,
    a: int,
    p: int,
)
    requires
        call_ensures(
            validate_arguments,
            (capability, arguments),
            Ok::<Vec<SemanticQueryArgument>, SemanticCapabilityError>(accepted),
        ),
        0 <= a < arguments@.len(),
        0 <= p < capability.parameters@.len(),
    ensures
        exists|q: int|
            0 <= q < capability.parameters@.len() && (#[trigger] capability.parameters@[q]).name@
                == arguments@[a].name@,
        capability.parameters@[p].required ==> exists|b: int|
            0 <= b < arguments@.len() && (#[trigger] arguments@[b]).name@
                == capability.parameters@[p].name@,
        capability.parameters@[p].name@ == arguments@[a].name@ ==> match (
            capability.parameters@[p].ty,
            arguments@[a].value,
        ) {
            (SemanticQueryParameterType::SymbolId, value) => value is SymbolId,
            (SemanticQueryParameterType::ComponentId, value) => value is ComponentId,
            (SemanticQueryParameterType::String, value) => value is String,
            (SemanticQueryParameterType::Integer, value) => value is Integer,
        },
{
    let parameters = capability.parameters@;
    lemma_no_argument_problem(parameters, arguments@, arguments@.len() as int);
    assert(argument_problem(parameters, arguments@, a) is None);
    ordered_map::lemma_keys_of(parameters, arguments@[a].name@);
    lemma_none_missing(parameters, arguments@, parameters.len() as int, p);
    ordered_map::lemma_keys_of(arguments@, parameters[p].name@);
    let q = choose|q: int|
        0 <= q < parameters.len() && (#[trigger] parameters[q]).key() == arguments@[a].name@;
    assert(parameters[q].name@ == arguments@[a].name@);
    if parameters[p].required {
        let b = choose|b: int|
            0 <= b < arguments@.len() && (#[trigger] arguments@[b]).key() == parameters[p].name@;
        assert(arguments@[b].name@ == parameters[p].name@);
    }
    if parameters[p].name@ == arguments@[a].name@ {
        assert forall|j: int| p < j < parameters.len() implies (#[trigger] parameters[j]).key()
            != parameters[p].key() by {
            assert(parameters[p].name@ != parameters[j].name@);
        }
        ordered_map::lemma_latest_at(parameters, p);
    }
}

/// A request is planned only for a capability that the worker offers in that
/// version, with inputs inside the budget.
pub proof fn law_planned_requests_are_offered_and_bounded(
    worker: &DiscoveredWorker,
    name: &str,
    version: u32,
    arguments: &[SemanticQueryArgument],
    symbols: &[SymbolId],
    units: &[SourceUnitId],
    budget: SemanticQueryBudget,
    plan: SemanticCapabilityPlan,
)
    requires
        call_ensures(
            plan_semantic_capability,
            (worker, name, version, arguments, symbols, units, budget),
            Ok::<SemanticCapabilityPlan, SemanticCapabilityError>(plan),
        ),
    ensures
        0 < budget.max_candidates <= 1000 && 0 < budget.max_nodes <= 10000 && 0
            < budget.max_bytes <= 16777216 && 0 < budget.deadline_millis <= 30000,
        symbols@.len() <= budget.max_candidates,
        units@.len() <= budget.max_nodes,
        plan.request.capability_name@ == name@,
        plan.request.capability_version == version,
        plan.request.budget == budget,
        exists|c: int|
            0 <= c < worker.semantic_query_capabilities@.len() && (
            #[trigger] worker.semantic_query_capabilities@[c]).name@ == name@
                && worker.semantic_query_capabilities@[c].version == version,
{
    let capabilities = worker.semantic_query_capabilities@;
    lemma_capability_found(capabilities, name@, version);
    let c = capability_position(capabilities, name@, version);
    assert(capabilities[c].name@ == name@ && capabilities[c].version == version);
}

proof fn lemma_capability_found(
    capabilities: Seq<SemanticQueryCapability>,
    name: Seq<char>,
    version: u32,
)
    ensures
        0 <= capability_position(capabilities, name, version) <= capabilities.len(),
        capability_position(capabilities, name, version) < capabilities.len()
            ==> capabilities[capability_position(capabilities, name, version)].name@ == name
            && capabilities[capability_position(capabilities, name, version)].version == version,
    decreases capabilities.len(),
{
    if capabilities.len() > 0 && !(capabilities[0].name@ == name && capabilities[0].version
        == version) {
        lemma_capability_found(capabilities.drop_first(), name, version);
    }
}

/// An accepted response answers the request, comes from the worker that was
/// asked, stays inside every bound, and keeps all that was returned. It is
/// complete only where it said so and every snapshot is complete.
pub proof fn law_accepted_responses_keep_to_the_plan(
    plan: &SemanticCapabilityPlan,
    response: SemanticQueryResponse,
    elapsed_millis: u64,
    encoded_bytes: u64,
    accepted: SemanticQueryResponse,
    i: int,
)
    requires
        call_ensures(
            validate_semantic_capability_response,
            (plan, response, elapsed_millis, encoded_bytes),
            Ok::<SemanticQueryResponse, SemanticCapabilityError>(accepted),
        ),
    ensures
        response.capability_name@ == plan.request.capability_name@,
        response.capability_version == plan.request.capability_version,
        response.provenance.backend@ == plan.worker.backend@,
        response.provenance.backend_version@ == plan.worker.backend_version@,
        response.provenance.protocol_version == WORKER_PROTOCOL_VERSION,
        elapsed_millis <= plan.request.budget.deadline_millis,
        response.visited_nodes <= plan.request.budget.max_nodes,
        response.produced_bytes <= plan.request.budget.max_bytes,
        encoded_bytes <= plan.request.budget.max_bytes,
        response.candidate_symbols@.len() <= plan.request.budget.max_candidates,
        response.snapshots@.len() <= plan.request.budget.max_nodes,
        plan.capability.result is CandidateSymbols ==> response.snapshots@.len() == 0,
        plan.capability.result is NormalizedFacts ==> response.candidate_symbols@.len() == 0,
        accepted.snapshots@.len() == response.snapshots@.len(),
        0 <= i < response.snapshots@.len() ==> accepted.snapshots@.contains(
            response.snapshots@[i],
        ) && response.snapshots@[i].provenance.backend@ == plan.worker.backend@,
        accepted.state is Complete ==> response.state is Complete && (0 <= i
            < response.snapshots@.len() ==> response.snapshots@[i].completeness
            == Completeness::Complete),
        accepted.state is Unsupported ==> response.snapshots@.len() == 0
            && response.candidate_symbols@.len() == 0,
{
    ordering::lemma_stable_sorted_in_order(response.snapshots@);
    if 0 <= i < response.snapshots@.len() {
        ordering::lemma_stable_sorted_contains(response.snapshots@, response.snapshots@[i]);
        assert(response.snapshots@.contains(response.snapshots@[i]));
        assert(from_worker(response.snapshots@[i].provenance, plan.worker));
    }
}

/// A started worker is sent the request exactly where it still is the one that
/// was discovered and still offers the capability.
pub proof fn law_changed_workers_are_not_asked(
    plan: &SemanticCapabilityPlan,
    identity: &WorkerIdentity,
    capabilities: &[SemanticQueryCapability],
    result: Result<(), SemanticCapabilityError>,
)
    requires
        call_ensures(check_handshake, (plan, identity, capabilities), result),
    ensures
        result is Ok ==> identity.backend@ == plan.worker.backend@ && identity.backend_version@
            == plan.worker.backend_version@ && exists|i: int|
            0 <= i < capabilities@.len() && (#[trigger] capabilities@[i]).name@
                == plan.capability.name@ && capabilities@[i].version == plan.capability.version
                && capabilities@[i].result == plan.capability.result,
        identity.backend@ == plan.worker.backend@ && identity.backend_version@
            == plan.worker.backend_version@ && capabilities@.contains(plan.capability)
            ==> result is Ok,
{
    if result is Ok {
        let i = choose|i: int|
            0 <= i < capabilities@.len() && same_capability(
                #[trigger] capabilities@[i],
                plan.capability,
            );
        assert(capabilities@[i].name@ == plan.capability.name@);
    }
    if capabilities@.contains(plan.capability) {
        let i = capabilities@.index_of(plan.capability);
        assert(same_capability(capabilities@[i], plan.capability));
    }
}

} // verus!
