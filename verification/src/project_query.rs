//! The textual commands of a workspace and the binding of their parameters.

use vstd::prelude::*;

use crate::canonical::{ComponentId, Language, SymbolId, SymbolKind};
use crate::names;
use crate::names::is_dotted_name;
use crate::ordered_map::OrderedMap;
use crate::ordering;
use crate::position;
use crate::position::trim_part;
use crate::semantic_query::{
    QueryComponent, QueryComponentView, QueryFrom, QueryParameters, QueryPredicate,
    QueryPredicateView, QueryProgram, QueryString, QueryStringView, QuerySymbol, QuerySymbolView,
    QueryValue, QueryValueView,
};
use crate::shown::push;
use crate::text;

verus! {

/// A command of a workspace.
#[derive(Debug, PartialEq, Eq)]
pub struct ProjectQuery {
    pub name: String,
    pub parameters: Vec<QueryParameter>,
    pub program: QueryProgram,
}

/// A declared parameter of a command.
#[derive(Debug, PartialEq, Eq)]
pub struct QueryParameter {
    pub name: String,
    pub ty: QueryParameterType,
}

/// The type of a parameter.
#[derive(Debug, Clone, Copy, PartialEq, Eq, Structural)]
pub enum QueryParameterType {
    SymbolId,
    QualifiedSymbol,
    ComponentId,
    String,
    Integer,
}

/// Why a command is refused.
#[derive(Debug, PartialEq, Eq)]
pub enum ProjectQueryError {
    Invalid(String),
    UnknownParameter(String),
    MissingParameter(String),
    InvalidParameter { name: String, expected: &'static str },
}

impl ProjectQueryError {
    /// The message that is shown for an error.
    pub open spec fn message_text(&self) -> Seq<char> {
        match self {
            ProjectQueryError::Invalid(reason) => "invalid project query: "@
                + reason@,
            ProjectQueryError::UnknownParameter(name) => "unknown query parameter `"@
                + name@,
            ProjectQueryError::MissingParameter(name) => "query parameter `"@
                + name@
                + "` is required"@,
            ProjectQueryError::InvalidParameter { name, expected } => "query parameter `"@
                + name@
                + "` must be "@
                + expected@,
        }
    }

    /// Computes `message_text`.
    pub fn message(&self) -> (result: String)
        ensures
            result@ == self.message_text(),
    {
        match self {
            ProjectQueryError::Invalid(reason) => text::join_text(
                "invalid project query: ",
                reason.as_str(),
            ),
            ProjectQueryError::UnknownParameter(name) => text::join_text(
                "unknown query parameter `",
                name.as_str(),
            ),
            ProjectQueryError::MissingParameter(name) => {
                let mut out = "query parameter `".to_owned();
                push(&mut out, name.as_str());
                push(&mut out, "` is required");
                out
            },
            ProjectQueryError::InvalidParameter { name, expected } => {
                let mut out = "query parameter `".to_owned();
                push(&mut out, name.as_str());
                push(&mut out, "` must be ");
                push(&mut out, *expected);
                out
            },
        }
    }
}

/// What a `ProjectQueryError` says.
pub enum ProjectQueryErrorView {
    Invalid(Seq<char>),
    UnknownParameter(Seq<char>),
    MissingParameter(Seq<char>),
    InvalidParameter { name: Seq<char>, expected: Seq<char> },
}

impl View for ProjectQueryError {
    type V = ProjectQueryErrorView;

    open spec fn view(&self) -> ProjectQueryErrorView {
        match self {
            ProjectQueryError::Invalid(message) => ProjectQueryErrorView::Invalid(message@),
            ProjectQueryError::UnknownParameter(name) => ProjectQueryErrorView::UnknownParameter(
                name@,
            ),
            ProjectQueryError::MissingParameter(name) => ProjectQueryErrorView::MissingParameter(
                name@,
            ),
            ProjectQueryError::InvalidParameter { name, expected } => {
                ProjectQueryErrorView::InvalidParameter { name: name@, expected: expected@ }
            },
        }
    }
}

fn invalid(message: &str) -> (result: ProjectQueryError)
    ensures
        result@ == ProjectQueryErrorView::Invalid(message@),
{
    ProjectQueryError::Invalid(message.to_owned())
}

/// Whether a trimmed line says something: it is not empty and no comment.
pub open spec fn is_statement(line: Seq<char>) -> bool {
    line.len() > 0 && line[0] != '#'
}

/// The statements among the first `n` lines of a text, without the white space
/// around them.
pub open spec fn statements_of(lines: Seq<Seq<char>>, n: int) -> Seq<Seq<char>>
    decreases n,
{
    if n <= 0 {
        Seq::empty()
    } else {
        let line = position::trimmed(lines[n - 1]);
        if is_statement(line) {
            statements_of(lines, n - 1).push(line)
        } else {
            statements_of(lines, n - 1)
        }
    }
}

/// The statements of a text.
pub open spec fn statements(value: Seq<char>) -> Seq<Seq<char>> {
    let lines = text::split_on(value, '\n');
    statements_of(lines, lines.len() as int)
}

fn trim(value: &str) -> (result: String)
    ensures
        result@ == position::trimmed(value@),
{
    let chars = text::chars_of(value);
    let len: usize = chars.len();
    assert(chars@.subrange(0, len as int) =~= value@);
    trim_part(chars.as_slice(), 0, len)
}

fn read_statements(value: &str) -> (result: Vec<String>)
    ensures
        text::texts(result@) == statements(value@),
{
    let chars = text::chars_of(value);
    let lines = text::split_chars(chars.as_slice(), '\n');
    let ghost pieces = text::split_on(value@, '\n');
    let mut result: Vec<String> = Vec::new();
    let mut i: usize = 0;
    assert(text::texts(lines@).len() == lines@.len());
    assert(text::texts(result@) =~= Seq::<Seq<char>>::empty());
    while i < lines.len()
        invariant
            text::texts(lines@) == pieces,
            pieces.len() == lines@.len(),
            i <= lines@.len(),
            text::texts(result@) == statements_of(pieces, i as int),
        decreases lines@.len() - i,
    {
        assert(text::texts(lines@)[i as int] == lines@[i as int]@);
        let line = trim(lines[i].as_str());
        let scalars = text::chars_of(line.as_str());
        let ghost before = text::texts(result@);
        if scalars.len() > 0 && scalars[0] != '#' {
            result.push(line);
            assert(text::texts(result@) =~= before.push(line@));
        }
        i = i + 1;
    }
    result
}

/// The text of a quoted literal.
pub open spec fn unquoted(value: Seq<char>) -> Option<Seq<char>> {
    text::enclosed(position::trimmed(value), "\""@, "\""@)
}

fn unquote(value: &str) -> (result: Result<String, ProjectQueryError>)
    ensures
        match unquoted(value@) {
            Some(inner) => result is Ok && result->Ok_0@ == inner,
            None => result is Err && result->Err_0@ == unquoted_error(),
        },
{
    let trimmed = trim(value);
    match text::strip_around(trimmed.as_str(), "\"", "\"") {
        Some(inner) => Ok(inner),
        None => Err(invalid("string literals must be quoted")),
    }
}

/// The problem of a literal without quotes.
pub open spec fn unquoted_error() -> ProjectQueryErrorView {
    ProjectQueryErrorView::Invalid("string literals must be quoted"@)
}

/// The symbol that is written in `applies(..)`.
pub open spec fn written_symbol(value: Seq<char>) -> Result<QuerySymbolView, ProjectQueryErrorView> {
    match text::after(value, "$"@) {
        Some(name) => Ok(QuerySymbolView::Parameter(name)),
        None => match text::enclosed(value, "symbol-id("@, ")"@) {
            Some(literal) => match unquoted(literal) {
                Some(id) => Ok(QuerySymbolView::Id(id)),
                None => Err(unquoted_error()),
            },
            None => match text::enclosed(value, "qualified-symbol("@, ")"@) {
                Some(literal) => match unquoted(literal) {
                    Some(name) => Ok(QuerySymbolView::QualifiedName(name)),
                    None => Err(unquoted_error()),
                },
                None => Err(
                    ProjectQueryErrorView::Invalid(
                        "applies accepts `$parameter`, symbol-id(\"…\"), or qualified-symbol(\"…\")"@,
                    ),
                ),
            },
        },
    }
}

fn parse_symbol(value: &str) -> (result: Result<QuerySymbol, ProjectQueryError>)
    ensures
        match written_symbol(value@) {
            Ok(symbol) => result is Ok && result->Ok_0@ == symbol,
            Err(problem) => result is Err && result->Err_0@ == problem,
        },
{
    if let Some(name) = text::strip_before(value, "$") {
        return Ok(QuerySymbol::Parameter(name));
    }
    if let Some(literal) = text::strip_around(value, "symbol-id(", ")") {
        return match unquote(literal.as_str()) {
            Ok(id) => Ok(QuerySymbol::Id(SymbolId::new(id))),
            Err(error) => Err(error),
        };
    }
    if let Some(literal) = text::strip_around(value, "qualified-symbol(", ")") {
        return match unquote(literal.as_str()) {
            Ok(name) => Ok(QuerySymbol::QualifiedName(name)),
            Err(error) => Err(error),
        };
    }
    Err(
        invalid("applies accepts `$parameter`, symbol-id(\"…\"), or qualified-symbol(\"…\")"),
    )
}

/// The filter that is written as `left == right`.
pub open spec fn written_filter(left: Seq<char>, right: Seq<char>) -> Result<
    QueryPredicateView,
    ProjectQueryErrorView,
> {
    if left == "kind"@ {
        if right == "class"@ {
            Ok(QueryPredicateView::Kind(SymbolKind::Class))
        } else if right == "interface"@ {
            Ok(QueryPredicateView::Kind(SymbolKind::Interface))
        } else if right == "method"@ {
            Ok(QueryPredicateView::Kind(SymbolKind::Method))
        } else if right == "function"@ {
            Ok(QueryPredicateView::Kind(SymbolKind::Function))
        } else {
            Err(ProjectQueryErrorView::Invalid("unsupported symbol kind"@))
        }
    } else if left == "language"@ {
        if right == "kotlin"@ {
            Ok(QueryPredicateView::Language(Language::Kotlin))
        } else if right == "java"@ {
            Ok(QueryPredicateView::Language(Language::Java))
        } else {
            Err(ProjectQueryErrorView::Invalid("unsupported language"@))
        }
    } else if left == "component"@ {
        match (text::after(right, "$"@), unquoted(right)) {
            (Some(name), _) => Ok(
                QueryPredicateView::Component(QueryComponentView::Parameter(name)),
            ),
            (None, Some(id)) => Ok(QueryPredicateView::Component(QueryComponentView::Id(id))),
            (None, None) => Err(unquoted_error()),
        }
    } else if left == "qualified-name-prefix"@ {
        match (text::after(right, "$"@), unquoted(right)) {
            (Some(name), _) => Ok(
                QueryPredicateView::QualifiedNamePrefix(QueryStringView::Parameter(name)),
            ),
            (None, Some(prefix)) => Ok(
                QueryPredicateView::QualifiedNamePrefix(QueryStringView::Literal(prefix)),
            ),
            (None, None) => Err(unquoted_error()),
        }
    } else {
        Err(ProjectQueryErrorView::Invalid("unsupported where predicate"@))
    }
}

fn parse_filter(left: &str, right: &str) -> (result: Result<QueryPredicate, ProjectQueryError>)
    ensures
        match written_filter(left@, right@) {
            Ok(predicate) => result is Ok && result->Ok_0@ == predicate,
            Err(problem) => result is Err && result->Err_0@ == problem,
        },
{
    if text::same_text(left, "kind") {
        if text::same_text(right, "class") {
            Ok(QueryPredicate::Kind(SymbolKind::Class))
        } else if text::same_text(right, "interface") {
            Ok(QueryPredicate::Kind(SymbolKind::Interface))
        } else if text::same_text(right, "method") {
            Ok(QueryPredicate::Kind(SymbolKind::Method))
        } else if text::same_text(right, "function") {
            Ok(QueryPredicate::Kind(SymbolKind::Function))
        } else {
            Err(invalid("unsupported symbol kind"))
        }
    } else if text::same_text(left, "language") {
        if text::same_text(right, "kotlin") {
            Ok(QueryPredicate::Language(Language::Kotlin))
        } else if text::same_text(right, "java") {
            Ok(QueryPredicate::Language(Language::Java))
        } else {
            Err(invalid("unsupported language"))
        }
    } else if text::same_text(left, "component") {
        if let Some(name) = text::strip_before(right, "$") {
            return Ok(QueryPredicate::Component(QueryComponent::Parameter(name)));
        }
        match unquote(right) {
            Ok(id) => Ok(QueryPredicate::Component(QueryComponent::Id(ComponentId::new(id)))),
            Err(error) => Err(error),
        }
    } else if text::same_text(left, "qualified-name-prefix") {
        if let Some(name) = text::strip_before(right, "$") {
            return Ok(QueryPredicate::QualifiedNamePrefix(QueryString::Parameter(name)));
        }
        match unquote(right) {
            Ok(prefix) => Ok(QueryPredicate::QualifiedNamePrefix(QueryString::Literal(prefix))),
            Err(error) => Err(error),
        }
    } else {
        Err(invalid("unsupported where predicate"))
    }
}

/// The filter of one term of a `where` statement.
pub open spec fn written_term(term: Seq<char>) -> Result<QueryPredicateView, ProjectQueryErrorView> {
    let p = text::part_position(term, " == "@);
    if p >= term.len() {
        Err(ProjectQueryErrorView::Invalid("where terms use `==`"@))
    } else {
        written_filter(term.take(p), term.skip(p + 4))
    }
}

fn parse_term(term: &str) -> (result: Result<QueryPredicate, ProjectQueryError>)
    ensures
        match written_term(term@) {
            Ok(predicate) => result is Ok && result->Ok_0@ == predicate,
            Err(problem) => result is Err && result->Err_0@ == problem,
        },
{
    let chars = text::chars_of(term);
    let len: usize = chars.len();
    let p: usize = text::find_part(chars.as_slice(), " == ");
    if p == len {
        return Err(invalid("where terms use `==`"));
    }
    proof {
        reveal_strlit(" == ");
    }
    let left = text::slice_text(chars.as_slice(), 0, p);
    let right = text::slice_text(chars.as_slice(), p + 4, len);
    assert(left@ =~= term@.take(p as int));
    assert(right@ =~= term@.skip(p + 4));
    parse_filter(left.as_str(), right.as_str())
}

/// The filters of the first `n` terms.
pub open spec fn written_terms(terms: Seq<Seq<char>>, n: int) -> Result<
    Seq<QueryPredicateView>,
    ProjectQueryErrorView,
>
    decreases n,
{
    if n <= 0 {
        Ok(Seq::empty())
    } else {
        match (written_terms(terms, n - 1), written_term(terms[n - 1])) {
            (Err(problem), _) => Err(problem),
            (Ok(_), Err(problem)) => Err(problem),
            (Ok(before), Ok(predicate)) => Ok(before.push(predicate)),
        }
    }
}

/// The filters of a `where` statement: its terms are joined by `and`.
pub open spec fn written_filters(value: Seq<char>) -> Result<
    Seq<QueryPredicateView>,
    ProjectQueryErrorView,
> {
    let terms = text::split_parts(value, " and "@);
    written_terms(terms, terms.len() as int)
}

proof fn lemma_terms_fail(terms: Seq<Seq<char>>, i: int, n: int)
    requires
        0 <= i < n <= terms.len(),
        written_terms(terms, i) is Ok,
        written_term(terms[i]) is Err,
    ensures
        written_terms(terms, n) == Err::<Seq<QueryPredicateView>, ProjectQueryErrorView>(
            written_term(terms[i])->Err_0,
        ),
    decreases n,
{
    if n > i + 1 {
        lemma_terms_fail(terms, i, n - 1);
    }
}

/// What filters say.
pub open spec fn predicate_views(predicates: Seq<QueryPredicate>) -> Seq<QueryPredicateView> {
    Seq::new(predicates.len(), |i: int| predicates[i]@)
}

fn parse_filters(value: &str) -> (result: Result<Vec<QueryPredicate>, ProjectQueryError>)
    ensures
        match written_filters(value@) {
            Ok(predicates) => result is Ok && predicate_views(result->Ok_0@) == predicates,
            Err(problem) => result is Err && result->Err_0@ == problem,
        },
{
    let chars = text::chars_of(value);
    proof {
        reveal_strlit(" and ");
    }
    let terms = text::split_on_part(chars.as_slice(), " and ");
    let ghost pieces = text::split_parts(value@, " and "@);
    assert(text::texts(terms@).len() == terms@.len());
    let mut result: Vec<QueryPredicate> = Vec::new();
    let mut i: usize = 0;
    assert(predicate_views(result@) =~= Seq::<QueryPredicateView>::empty());
    while i < terms.len()
        invariant
            pieces == text::split_parts(value@, " and "@),
            text::texts(terms@) == pieces,
            pieces.len() == terms@.len(),
            i <= terms@.len(),
            written_terms(pieces, i as int) == Ok::<
                Seq<QueryPredicateView>,
                ProjectQueryErrorView,
            >(predicate_views(result@)),
        decreases terms@.len() - i,
    {
        assert(text::texts(terms@)[i as int] == terms@[i as int]@);
        let ghost before = predicate_views(result@);
        match parse_term(terms[i].as_str()) {
            Ok(predicate) => {
                result.push(predicate);
                assert(predicate_views(result@) =~= before.push(predicate@));
            },
            Err(error) => {
                proof {
                    lemma_terms_fail(pieces, i as int, pieces.len() as int);
                }
                return Err(error);
            },
        }
        i = i + 1;
    }
    Ok(result)
}

/// What the body of a command has said so far.
#[verifier::ext_equal]
pub struct BodyView {
    pub from: Option<QuerySymbolView>,
    pub predicates: Seq<QueryPredicateView>,
    pub limit: Option<u32>,
}

/// What a body says after one more statement.
pub open spec fn after_statement(body: BodyView, line: Seq<char>) -> Result<
    BodyView,
    ProjectQueryErrorView,
> {
    if let Some(value) = text::enclosed(line, "from applies("@, ")"@) {
        match written_symbol(value) {
            Err(problem) => Err(problem),
            Ok(symbol) => if body.from is Some {
                Err(ProjectQueryErrorView::Invalid("only one `from` is allowed"@))
            } else {
                Ok(BodyView { from: Some(symbol), ..body })
            },
        }
    } else if let Some(value) = text::after(line, "where "@) {
        match written_filters(value) {
            Err(problem) => Err(problem),
            Ok(predicates) => Ok(BodyView { predicates: body.predicates + predicates, ..body }),
        }
    } else if line == "return symbol"@ {
        Ok(body)
    } else if let Some(value) = text::after(line, "limit "@) {
        match text::small_number(value) {
            None => Err(ProjectQueryErrorView::Invalid("limit must be a positive integer"@)),
            Some(limit) => Ok(BodyView { limit: Some(limit), ..body }),
        }
    } else {
        Err(ProjectQueryErrorView::Invalid("unsupported statement `"@ + line + "`"@))
    }
}

/// What a body says after its first `n` statements.
pub open spec fn written_body(lines: Seq<Seq<char>>, n: int) -> Result<
    BodyView,
    ProjectQueryErrorView,
>
    decreases n,
{
    if n <= 0 {
        Ok(BodyView { from: None, predicates: Seq::empty(), limit: None })
    } else {
        match written_body(lines, n - 1) {
            Err(problem) => Err(problem),
            Ok(body) => after_statement(body, lines[n - 1]),
        }
    }
}

proof fn lemma_body_fails(lines: Seq<Seq<char>>, i: int, n: int)
    requires
        0 <= i < n <= lines.len(),
        written_body(lines, i) is Ok,
        written_body(lines, i + 1) is Err,
    ensures
        written_body(lines, n) == written_body(lines, i + 1),
    decreases n,
{
    if n > i + 1 {
        lemma_body_fails(lines, i, n - 1);
    }
}

/// What the body of a command has said so far.
struct Body {
    from: Option<QuerySymbol>,
    predicates: Vec<QueryPredicate>,
    limit: Option<u32>,
}

impl View for Body {
    type V = BodyView;

    closed spec fn view(&self) -> BodyView {
        BodyView {
            from: match self.from {
                Some(symbol) => Some(symbol@),
                None => None,
            },
            predicates: predicate_views(self.predicates@),
            limit: self.limit,
        }
    }
}

fn read_statement(body: Body, line: &str) -> (result: Result<Body, ProjectQueryError>)
    ensures
        match after_statement(body@, line@) {
            Ok(next) => result is Ok && result->Ok_0@ == next,
            Err(problem) => result is Err && result->Err_0@ == problem,
        },
{
    let mut body = body;
    if let Some(value) = text::strip_around(line, "from applies(", ")") {
        return match parse_symbol(value.as_str()) {
            Err(error) => Err(error),
            Ok(symbol) => {
                if body.from.is_some() {
                    return Err(invalid("only one `from` is allowed"));
                }
                body.from = Some(symbol);
                Ok(body)
            },
        };
    }
    if let Some(value) = text::strip_before(line, "where ") {
        return match parse_filters(value.as_str()) {
            Err(error) => Err(error),
            Ok(predicates) => {
                let mut predicates = predicates;
                let ghost added = predicates@;
                let ghost before = body.predicates@;
                body.predicates.append(&mut predicates);
                assert(predicate_views(body.predicates@) =~= predicate_views(before)
                    + predicate_views(added));
                Ok(body)
            },
        };
    }
    if text::same_text(line, "return symbol") {
        return Ok(body);
    }
    if let Some(value) = text::strip_before(line, "limit ") {
        return match text::parse_small_number(value.as_str()) {
            None => Err(invalid("limit must be a positive integer")),
            Some(limit) => {
                body.limit = Some(limit);
                Ok(body)
            },
        };
    }
    let mut message = text::join_text("unsupported statement `", line);
    message.append("`");
    Err(ProjectQueryError::Invalid(message))
}

fn read_body(lines: &[String], start: usize, end: usize) -> (result: Result<Body, ProjectQueryError>)
    requires
        start <= end <= lines@.len(),
    ensures
        ({
            let body = text::texts(lines@).subrange(start as int, end as int);
            match written_body(body, end - start) {
                Ok(said) => result is Ok && result->Ok_0@ == said,
                Err(problem) => result is Err && result->Err_0@ == problem,
            }
        }),
{
    let ghost body_lines = text::texts(lines@).subrange(start as int, end as int);
    let mut body = Body { from: None, predicates: Vec::new(), limit: None };
    let mut i: usize = start;
    assert(body@ =~= written_body(body_lines, 0)->Ok_0);
    while i < end
        invariant
            start <= i <= end <= lines@.len(),
            body_lines == text::texts(lines@).subrange(start as int, end as int),
            written_body(body_lines, i - start) == Ok::<BodyView, ProjectQueryErrorView>(body@),
        decreases end - i,
    {
        assert(body_lines[i - start] == lines@[i as int]@);
        let next = read_statement(body, lines[i].as_str());
        match next {
            Ok(said) => {
                body = said;
            },
            Err(error) => {
                proof {
                    lemma_body_fails(body_lines, i - start, end - start);
                }
                return Err(error);
            },
        }
        i = i + 1;
    }
    Ok(body)
}

/// The type that a text names.
pub open spec fn written_type(value: Seq<char>) -> Option<QueryParameterType> {
    if value == "symbol-id"@ {
        Some(QueryParameterType::SymbolId)
    } else if value == "qualified-symbol"@ {
        Some(QueryParameterType::QualifiedSymbol)
    } else if value == "component-id"@ {
        Some(QueryParameterType::ComponentId)
    } else if value == "string"@ {
        Some(QueryParameterType::String)
    } else if value == "integer"@ {
        Some(QueryParameterType::Integer)
    } else {
        None
    }
}

fn parse_type(value: &str) -> (result: Option<QueryParameterType>)
    ensures
        result == written_type(value@),
{
    if text::same_text(value, "symbol-id") {
        Some(QueryParameterType::SymbolId)
    } else if text::same_text(value, "qualified-symbol") {
        Some(QueryParameterType::QualifiedSymbol)
    } else if text::same_text(value, "component-id") {
        Some(QueryParameterType::ComponentId)
    } else if text::same_text(value, "string") {
        Some(QueryParameterType::String)
    } else if text::same_text(value, "integer") {
        Some(QueryParameterType::Integer)
    } else {
        None
    }
}

/// The parameter that is written as `name: type`.
pub open spec fn written_parameter(value: Seq<char>) -> Result<
    (Seq<char>, QueryParameterType),
    ProjectQueryErrorView,
> {
    let declared = position::trimmed(value);
    let p = text::first_position(declared, ':');
    let name = declared.take(p);
    if p >= declared.len() {
        Err(ProjectQueryErrorView::Invalid("parameters use `name: type`"@))
    } else if !names::is_dotted(position::trimmed(name), false) || name.contains('.') {
        Err(ProjectQueryErrorView::Invalid("parameter name must be ASCII lower-case"@))
    } else {
        match written_type(position::trimmed(declared.skip(p + 1))) {
            Some(ty) => Ok((position::trimmed(name), ty)),
            None => Err(ProjectQueryErrorView::Invalid("unknown parameter type"@)),
        }
    }
}

fn parse_parameter(value: &str) -> (result: Result<QueryParameter, ProjectQueryError>)
    ensures
        match written_parameter(value@) {
            Ok((name, ty)) => result is Ok && result->Ok_0.name@ == name && result->Ok_0.ty == ty,
            Err(problem) => result is Err && result->Err_0@ == problem,
        },
{
    let declared = trim(value);
    let chars = text::chars_of(declared.as_str());
    let len: usize = chars.len();
    let p: usize = text::find_char(chars.as_slice(), ':');
    if p == len {
        return Err(invalid("parameters use `name: type`"));
    }
    let name = text::slice_text(chars.as_slice(), 0, p);
    let rest = text::slice_text(chars.as_slice(), p + 1, len);
    assert(name@ =~= declared@.take(p as int));
    assert(rest@ =~= declared@.skip(p + 1));
    let plain = trim(name.as_str());
    let scalars = text::chars_of(name.as_str());
    let dot: usize = text::find_char(scalars.as_slice(), '.');
    proof {
        text::lemma_first_position(name@, '.');
    }
    if !is_dotted_name(plain.as_str()) || dot < scalars.len() {
        return Err(invalid("parameter name must be ASCII lower-case"));
    }
    match parse_type(trim(rest.as_str()).as_str()) {
        Some(ty) => Ok(QueryParameter { name: plain, ty }),
        None => Err(invalid("unknown parameter type")),
    }
}

/// The parameters of the first `n` pieces of a parameter list.
pub open spec fn written_list(pieces: Seq<Seq<char>>, n: int) -> Result<
    Seq<(Seq<char>, QueryParameterType)>,
    ProjectQueryErrorView,
>
    decreases n,
{
    if n <= 0 {
        Ok(Seq::empty())
    } else {
        match (written_list(pieces, n - 1), written_parameter(pieces[n - 1])) {
            (Err(problem), _) => Err(problem),
            (Ok(_), Err(problem)) => Err(problem),
            (Ok(before), Ok(parameter)) => Ok(before.push(parameter)),
        }
    }
}

/// The parameters of a command: a list separated by commas, which may be empty.
pub open spec fn written_parameters(value: Seq<char>) -> Result<
    Seq<(Seq<char>, QueryParameterType)>,
    ProjectQueryErrorView,
> {
    if position::trimmed(value).len() == 0 {
        Ok(Seq::empty())
    } else {
        let pieces = text::split_on(value, ',');
        written_list(pieces, pieces.len() as int)
    }
}

proof fn lemma_list_fails(pieces: Seq<Seq<char>>, i: int, n: int)
    requires
        0 <= i < n <= pieces.len(),
        written_list(pieces, i) is Ok,
        written_parameter(pieces[i]) is Err,
    ensures
        written_list(pieces, n) == Err::<
            Seq<(Seq<char>, QueryParameterType)>,
            ProjectQueryErrorView,
        >(written_parameter(pieces[i])->Err_0),
    decreases n,
{
    if n > i + 1 {
        lemma_list_fails(pieces, i, n - 1);
    }
}

/// What parameters say.
pub open spec fn parameter_views(parameters: Seq<QueryParameter>) -> Seq<
    (Seq<char>, QueryParameterType),
> {
    Seq::new(parameters.len(), |i: int| (parameters[i].name@, parameters[i].ty))
}

fn parse_parameters(value: &str) -> (result: Result<Vec<QueryParameter>, ProjectQueryError>)
    ensures
        match written_parameters(value@) {
            Ok(parameters) => result is Ok && parameter_views(result->Ok_0@) == parameters,
            Err(problem) => result is Err && result->Err_0@ == problem,
        },
{
    let mut result: Vec<QueryParameter> = Vec::new();
    assert(parameter_views(result@) =~= Seq::<(Seq<char>, QueryParameterType)>::empty());
    let trimmed = trim(value);
    if text::chars_of(trimmed.as_str()).len() == 0 {
        return Ok(result);
    }
    let chars = text::chars_of(value);
    let parts = text::split_chars(chars.as_slice(), ',');
    let ghost pieces = text::split_on(value@, ',');
    assert(text::texts(parts@).len() == parts@.len());
    let mut i: usize = 0;
    while i < parts.len()
        invariant
            pieces == text::split_on(value@, ','),
            text::texts(parts@) == pieces,
            pieces.len() == parts@.len(),
            i <= parts@.len(),
            written_list(pieces, i as int) == Ok::<
                Seq<(Seq<char>, QueryParameterType)>,
                ProjectQueryErrorView,
            >(parameter_views(result@)),
            position::trimmed(value@).len() != 0,
        decreases parts@.len() - i,
    {
        assert(text::texts(parts@)[i as int] == parts@[i as int]@);
        let ghost before = parameter_views(result@);
        match parse_parameter(parts[i].as_str()) {
            Ok(parameter) => {
                result.push(parameter);
                assert(parameter_views(result@) =~= before.push((parameter.name@, parameter.ty)));
            },
            Err(error) => {
                proof {
                    lemma_list_fails(pieces, i as int, pieces.len() as int);
                }
                return Err(error);
            },
        }
        i = i + 1;
    }
    Ok(result)
}

/// What the header of a command says: its name and its parameters.
pub open spec fn written_header(header: Seq<char>) -> Result<
    (Seq<char>, Seq<(Seq<char>, QueryParameterType)>),
    ProjectQueryErrorView,
> {
    match text::enclosed(header, "command "@, " {"@) {
        None => Err(ProjectQueryErrorView::Invalid("expected `command name(parameters) {`"@)),
        Some(rest) => {
            let p = text::first_position(rest, '(');
            let name = rest.take(p);
            let list = rest.skip(p + 1);
            if p >= rest.len() {
                Err(ProjectQueryErrorView::Invalid("command name needs parameters"@))
            } else {
                match text::enclosed(list, ""@, ")"@) {
                    None => Err(ProjectQueryErrorView::Invalid("unterminated parameter list"@)),
                    Some(parameters) => if !names::is_dotted(name, false) {
                        Err(
                            ProjectQueryErrorView::Invalid(
                                "command name must be ASCII lower-case dotted"@,
                            ),
                        )
                    } else {
                        match written_parameters(parameters) {
                            Err(problem) => Err(problem),
                            Ok(parameters) => Ok((name, parameters)),
                        }
                    },
                }
            }
        },
    }
}

fn parse_header(header: &str) -> (result: Result<(String, Vec<QueryParameter>), ProjectQueryError>)
    ensures
        match written_header(header@) {
            Ok((name, parameters)) => {
                &&& result is Ok
                &&& result->Ok_0.0@ == name
                &&& parameter_views(result->Ok_0.1@) == parameters
            },
            Err(problem) => result is Err && result->Err_0@ == problem,
        },
{
    let rest = match text::strip_around(header, "command ", " {") {
        Some(rest) => rest,
        None => {
            return Err(invalid("expected `command name(parameters) {`"));
        },
    };
    let chars = text::chars_of(rest.as_str());
    let len: usize = chars.len();
    let p: usize = text::find_char(chars.as_slice(), '(');
    if p == len {
        return Err(invalid("command name needs parameters"));
    }
    let name = text::slice_text(chars.as_slice(), 0, p);
    let list = text::slice_text(chars.as_slice(), p + 1, len);
    assert(name@ =~= rest@.take(p as int));
    assert(list@ =~= rest@.skip(p + 1));
    let parameters = match text::strip_around(list.as_str(), "", ")") {
        Some(parameters) => parameters,
        None => {
            return Err(invalid("unterminated parameter list"));
        },
    };
    if !is_dotted_name(name.as_str()) {
        return Err(invalid("command name must be ASCII lower-case dotted"));
    }
    match parse_parameters(parameters.as_str()) {
        Ok(parameters) => Ok((name, parameters)),
        Err(error) => Err(error),
    }
}

/// What a `ProjectQuery` says.
#[verifier::ext_equal]
pub struct ProjectQueryView {
    pub name: Seq<char>,
    pub parameters: Seq<(Seq<char>, QueryParameterType)>,
    pub from: QuerySymbolView,
    pub predicates: Seq<QueryPredicateView>,
    pub limit: u32,
}

impl View for ProjectQuery {
    type V = ProjectQueryView;

    open spec fn view(&self) -> ProjectQueryView {
        ProjectQueryView {
            name: self.name@,
            parameters: parameter_views(self.parameters@),
            from: self.program.from->AppliedSymbol_0@,
            predicates: predicate_views(self.program.predicates@),
            limit: self.program.limit,
        }
    }
}

/// The command that a text declares: a header, a body of statements and a
/// closing brace.
pub open spec fn written_query(value: Seq<char>) -> Result<
    ProjectQueryView,
    ProjectQueryErrorView,
> {
    let lines = statements(value);
    if lines.len() == 0 {
        Err(ProjectQueryErrorView::Invalid("command is empty"@))
    } else {
        match written_header(lines[0]) {
            Err(problem) => Err(problem),
            Ok((name, parameters)) => if lines.last() != "}"@ {
                Err(ProjectQueryErrorView::Invalid("command must end with `}`"@))
            } else {
                let body = lines.subrange(1, lines.len() - 1);
                match written_body(body, body.len() as int) {
                    Err(problem) => Err(problem),
                    Ok(body) => match (body.from, body.limit) {
                        (None, _) => Err(
                            ProjectQueryErrorView::Invalid("`from applies(...)` is required"@),
                        ),
                        (Some(_), None) => Err(
                            ProjectQueryErrorView::Invalid("`limit` is required"@),
                        ),
                        (Some(from), Some(limit)) => Ok(
                            ProjectQueryView {
                                name,
                                parameters,
                                from,
                                predicates: body.predicates,
                                limit,
                            },
                        ),
                    },
                }
            },
        }
    }
}

proof fn lemma_header_does_not_close(line: Seq<char>)
    requires
        written_header(line) is Ok,
    ensures
        line != "}"@,
{
    reveal_strlit("command ");
    reveal_strlit("}");
}

/// The value of a declared parameter, where the text given for it has the
/// declared type.
pub open spec fn typed_value(ty: QueryParameterType, value: Seq<char>) -> Option<QueryValueView> {
    match ty {
        QueryParameterType::SymbolId => Some(QueryValueView::SymbolId(value)),
        QueryParameterType::QualifiedSymbol => Some(QueryValueView::QualifiedSymbol(value)),
        QueryParameterType::ComponentId => Some(QueryValueView::ComponentId(value)),
        QueryParameterType::String => Some(QueryValueView::String(value)),
        QueryParameterType::Integer => match text::small_number(value) {
            Some(number) => Some(QueryValueView::Integer(number)),
            None => None,
        },
    }
}

fn parse_value(ty: QueryParameterType, value: &String) -> (result: Option<QueryValue>)
    ensures
        match typed_value(ty, value@) {
            Some(typed) => result is Some && result->Some_0@ == typed,
            None => result is None,
        },
{
    match ty {
        QueryParameterType::SymbolId => Some(QueryValue::SymbolId(SymbolId::new(value.clone()))),
        QueryParameterType::QualifiedSymbol => Some(QueryValue::QualifiedSymbol(value.clone())),
        QueryParameterType::ComponentId => Some(
            QueryValue::ComponentId(ComponentId::new(value.clone())),
        ),
        QueryParameterType::String => Some(QueryValue::String(value.clone())),
        QueryParameterType::Integer => match text::parse_small_number(value.as_str()) {
            Some(number) => Some(QueryValue::Integer(number)),
            None => None,
        },
    }
}

/// Whether a command declares a parameter.
pub open spec fn declares(parameters: Seq<(Seq<char>, QueryParameterType)>, name: Seq<char>) -> bool {
    exists|i: int| 0 <= i < parameters.len() && (#[trigger] parameters[i]).0 == name
}

/// What is wrong with each given name, in ascending order: it is not declared.
pub open spec fn unknown_names(
    parameters: Seq<(Seq<char>, QueryParameterType)>,
    given: Seq<Seq<char>>,
) -> Seq<Option<ProjectQueryErrorView>> {
    Seq::new(
        given.len(),
        |i: int|
            if declares(parameters, given[i]) {
                None
            } else {
                Some(ProjectQueryErrorView::UnknownParameter(given[i]))
            },
    )
}

/// What is wrong with each declared parameter: no value is given for it, or one
/// of another type.
pub open spec fn unbound_parameters(
    parameters: Seq<(Seq<char>, QueryParameterType)>,
    given: Map<Seq<char>, String>,
) -> Seq<Option<ProjectQueryErrorView>> {
    Seq::new(
        parameters.len(),
        |i: int|
            {
                let (name, ty) = parameters[i];
                if !given.dom().contains(name) {
                    Some(ProjectQueryErrorView::MissingParameter(name))
                } else if typed_value(ty, given[name]@) is None {
                    Some(
                        ProjectQueryErrorView::InvalidParameter { name, expected: "integer"@ },
                    )
                } else {
                    None
                }
            },
    )
}

/// What is wrong with values given for the parameters of a command.
pub open spec fn binding_problem(
    parameters: Seq<(Seq<char>, QueryParameterType)>,
    given: Map<Seq<char>, String>,
) -> Option<ProjectQueryErrorView> {
    match ordering::first_problem(
        unknown_names(parameters, ordering::sorted_texts(given.dom())),
    ) {
        Some(problem) => Some(problem),
        None => ordering::first_problem(unbound_parameters(parameters, given)),
    }
}

/// The values of the first `n` parameters; a later declaration of a name
/// prevails.
pub open spec fn bound_values(
    parameters: Seq<(Seq<char>, QueryParameterType)>,
    given: Map<Seq<char>, String>,
    n: int,
) -> Map<Seq<char>, QueryValueView>
    decreases n,
{
    if n <= 0 {
        Map::empty()
    } else {
        let (name, ty) = parameters[n - 1];
        bound_values(parameters, given, n - 1).insert(
            name,
            typed_value(ty, given[name]@)->Some_0,
        )
    }
}

/// Whether parameters hold given values.
pub open spec fn holds_values(
    parameters: QueryParameters,
    values: Map<Seq<char>, QueryValueView>,
) -> bool {
    &&& parameters@.dom() == values.dom()
    &&& forall|name: Seq<char>| #[trigger]
        values.dom().contains(name) ==> parameters@[name]@ == values[name]
}

impl ProjectQuery {
    /// Reads a command.
    pub fn parse(text: &str) -> (result: Result<Self, ProjectQueryError>)
        ensures
            match written_query(text@) {
                Ok(query) => result is Ok && result->Ok_0@ == query,
                Err(problem) => result is Err && result->Err_0@ == problem,
            },
    {
        let lines = read_statements(text);
        let len: usize = lines.len();
        assert(text::texts(lines@).len() == lines@.len());
        if len == 0 {
            return Err(invalid("command is empty"));
        }
        assert(text::texts(lines@)[0] == lines@[0]@);
        let (name, parameters) = match parse_header(lines[0].as_str()) {
            Ok(header) => header,
            Err(error) => {
                return Err(error);
            },
        };
        assert(text::texts(lines@)[len - 1] == lines@[len - 1]@);
        if !text::same_text(lines[len - 1].as_str(), "}") {
            return Err(invalid("command must end with `}`"));
        }
        proof {
            lemma_header_does_not_close(lines@[0]@);
        }
        let body = match read_body(lines.as_slice(), 1, len - 1) {
            Ok(body) => body,
            Err(error) => {
                return Err(error);
            },
        };
        let from = match body.from {
            Some(symbol) => QueryFrom::AppliedSymbol(symbol),
            None => {
                return Err(invalid("`from applies(...)` is required"));
            },
        };
        let limit: u32 = match body.limit {
            Some(limit) => limit,
            None => {
                return Err(invalid("`limit` is required"));
            },
        };
        Ok(
            ProjectQuery {
                name,
                parameters,
                program: QueryProgram { from, predicates: body.predicates, limit },
            },
        )
    }

    fn is_declared(&self, name: &str) -> (result: bool)
        ensures
            result == declares(self@.parameters, name@),
    {
        let mut i: usize = 0;
        while i < self.parameters.len()
            invariant
                i <= self.parameters@.len(),
                forall|j: int|
                    0 <= j < i ==> (#[trigger] parameter_views(self.parameters@)[j]).0 != name@,
            decreases self.parameters@.len() - i,
        {
            if text::same_text(self.parameters[i].name.as_str(), name) {
                assert(parameter_views(self.parameters@)[i as int].0 == name@);
                return true;
            }
            i = i + 1;
        }
        false
    }

    fn check_names(&self, values: &OrderedMap<String>) -> (result: Result<(), ProjectQueryError>)
        requires
            values.wf(),
        ensures
            match ordering::first_problem(
                unknown_names(self@.parameters, ordering::sorted_texts(values@.dom())),
            ) {
                Some(problem) => result is Err && result->Err_0@ == problem,
                None => result is Ok,
            },
    {
        proof {
            values.lemma_order();
        }
        let ghost problems = unknown_names(self@.parameters, values.order());
        let mut i: usize = 0;
        while i < values.len()
            invariant
                values.wf(),
                values.order() == ordering::sorted_texts(values@.dom()),
                problems == unknown_names(self@.parameters, values.order()),
                i <= values.order().len(),
                forall|j: int| 0 <= j < i ==> (#[trigger] problems[j]) is None,
            decreases values.order().len() - i,
        {
            let name = values.key_at(i);
            if !self.is_declared(name.as_str()) {
                proof {
                    ordering::lemma_first_problem(problems, i as int);
                }
                return Err(ProjectQueryError::UnknownParameter(name.clone()));
            }
            assert(problems[i as int] is None);
            i = i + 1;
        }
        proof {
            ordering::lemma_first_problem(problems, i as int);
        }
        Ok(())
    }

    /// Binds the parameters of the command to given texts.
    pub fn bind(&self, values: &OrderedMap<String>) -> (result: Result<
        QueryParameters,
        ProjectQueryError,
    >)
        requires
            values.wf(),
        ensures
            match binding_problem(self@.parameters, values@) {
                Some(problem) => result is Err && result->Err_0@ == problem,
                None => {
                    &&& result is Ok
                    &&& result->Ok_0.wf()
                    &&& holds_values(
                        result->Ok_0,
                        bound_values(
                            self@.parameters,
                            values@,
                            self@.parameters.len() as int,
                        ),
                    )
                },
            },
    {
        match self.check_names(values) {
            Ok(_) => {},
            Err(error) => {
                return Err(error);
            },
        }
        let ghost declared = self@.parameters;
        let ghost problems = unbound_parameters(declared, values@);
        let mut result: QueryParameters = OrderedMap::new();
        let mut i: usize = 0;
        while i < self.parameters.len()
            invariant
                values.wf(),
                result.wf(),
                declared == self@.parameters,
                problems == unbound_parameters(declared, values@),
                i <= self.parameters@.len(),
                forall|j: int| 0 <= j < i ==> (#[trigger] problems[j]) is None,
                holds_values(result, bound_values(declared, values@, i as int)),
                binding_problem(declared, values@) == ordering::first_problem(problems),
            decreases self.parameters@.len() - i,
        {
            let parameter = &self.parameters[i];
            assert(declared[i as int] == (parameter.name@, parameter.ty));
            match values.get(parameter.name.as_str()) {
                None => {
                    proof {
                        ordering::lemma_first_problem(problems, i as int);
                    }
                    return Err(ProjectQueryError::MissingParameter(parameter.name.clone()));
                },
                Some(value) => match parse_value(parameter.ty, value) {
                    None => {
                        proof {
                            ordering::lemma_first_problem(problems, i as int);
                        }
                        return Err(
                            ProjectQueryError::InvalidParameter {
                                name: parameter.name.clone(),
                                expected: "integer",
                            },
                        );
                    },
                    Some(typed) => {
                        assert(problems[i as int] is None);
                        let ghost before = bound_values(declared, values@, i as int);
                        result.insert(parameter.name.clone(), typed);
                        proof {
                            let next = bound_values(declared, values@, i + 1);
                            assert(next == before.insert(parameter.name@, typed@));
                            assert(result@.dom() =~= next.dom());
                        }
                    },
                },
            }
            i = i + 1;
        }
        proof {
            ordering::lemma_first_problem(problems, i as int);
        }
        Ok(result)
    }
}

/// Comments, blank lines and the white space around a line say nothing: texts
/// with the same statements declare the same command.
pub proof fn law_layout_is_irrelevant(a: Seq<char>, b: Seq<char>)
    requires
        statements(a) == statements(b),
    ensures
        written_query(a) == written_query(b),
{
}

/// A bound command has a value for every declared parameter and for no other.
pub proof fn law_binding_is_complete(
    parameters: Seq<(Seq<char>, QueryParameterType)>,
    given: Map<Seq<char>, String>,
    n: int,
    name: Seq<char>,
)
    requires
        0 <= n <= parameters.len(),
    ensures
        bound_values(parameters, given, n).dom().contains(name) <==> declares(
            parameters.take(n),
            name,
        ),
    decreases n,
{
    if n > 0 {
        law_binding_is_complete(parameters, given, n - 1, name);
        let before = parameters.take(n - 1);
        let here = parameters.take(n);
        if declares(before, name) {
            let i = choose|i: int| 0 <= i < before.len() && (#[trigger] before[i]).0 == name;
            assert(here[i].0 == name);
        }
        if declares(here, name) {
            let i = choose|i: int| 0 <= i < here.len() && (#[trigger] here[i]).0 == name;
            if i < n - 1 {
                assert(before[i].0 == name);
            } else {
                assert(parameters[n - 1].0 == name);
            }
        }
        if parameters[n - 1].0 == name {
            assert(here[n - 1].0 == name);
        }
    }
}

proof fn lemma_term(left: Seq<char>, right: Seq<char>)
    requires
        !left.contains(' '),
        !right.contains(' '),
    ensures
        written_filters(left + " == "@ + right) == (match written_filter(left, right) {
            Ok(predicate) => Ok::<Seq<QueryPredicateView>, ProjectQueryErrorView>(seq![predicate]),
            Err(problem) => Err(problem),
        }),
{
    let s = left + " == "@ + right;
    let n = left.len() as int;
    reveal_strlit(" == ");
    reveal_strlit(" and ");
    assert forall|i: int| 0 <= i < s.len() && s[i] == ' ' implies i == n || i == n + 3 by {
        if i < n {
            assert(left[i] == ' ');
        } else if i >= n + 4 {
            assert(right[i - n - 4] == ' ');
        }
    }
    assert forall|i: int| 0 <= i < n implies !text::begins_with(#[trigger] s.skip(i), " == "@) by {
        if text::begins_with(s.skip(i), " == "@) {
            assert(s.skip(i).take(4)[0] == ' ');
            assert(s[i] == ' ');
        }
    }
    assert(s.skip(n).take(4) =~= " == "@);
    text::lemma_part_position_is(s, " == "@, n);
    assert(s.take(n) =~= left);
    assert(s.skip(n + 4) =~= right);
    assert forall|i: int| 0 <= i < s.len() implies !text::begins_with(
        #[trigger] s.skip(i),
        " and "@,
    ) by {
        if text::begins_with(s.skip(i), " and "@) {
            assert(s.skip(i).take(5)[0] == ' ');
            assert(s.skip(i).take(5)[4] == ' ');
            assert(s[i] == ' ' && s[i + 4] == ' ');
        }
    }
    text::lemma_part_position_is(s, " and "@, s.len() as int);
    let terms = text::split_parts(s, " and "@);
    assert(terms =~= seq![s]);
    reveal_with_fuel(written_terms, 2);
    assert(Seq::<QueryPredicateView>::empty().push(written_filter(left, right)->Ok_0) =~= seq![
        written_filter(left, right)->Ok_0,
    ]);
}

proof fn lemma_body_statements(
    parameter: Seq<char>,
    left: Seq<char>,
    right: Seq<char>,
    limit: u32,
    body: BodyView,
)
    requires
        !left.contains(' '),
        !right.contains(' '),
    ensures
        body.from is None ==> after_statement(body, "from applies($"@ + parameter + ")"@) == Ok::<
            BodyView,
            ProjectQueryErrorView,
        >(BodyView { from: Some(QuerySymbolView::Parameter(parameter)), ..body }),
        written_filter(left, right) is Ok ==> after_statement(
            body,
            "where "@ + left + " == "@ + right,
        ) == Ok::<BodyView, ProjectQueryErrorView>(
            BodyView {
                predicates: body.predicates.push(written_filter(left, right)->Ok_0),
                ..body
            },
        ),
        after_statement(body, "limit "@ + text::decimal_text(limit as nat)) == Ok::<
            BodyView,
            ProjectQueryErrorView,
        >(BodyView { limit: Some(limit), ..body }),
{
    reveal_strlit("from applies(");
    reveal_strlit("from applies($");
    reveal_strlit("$");
    reveal_strlit("where ");
    reveal_strlit("limit ");
    reveal_strlit("return symbol");
    let from = "from applies($"@ + parameter + ")"@;
    let symbol = "$"@ + parameter;
    assert(from =~= "from applies("@ + symbol + ")"@);
    text::lemma_enclosed(from, "from applies("@, symbol, ")"@);
    assert(symbol.take(1) =~= "$"@);
    assert(symbol.skip(1) =~= parameter);
    let filter = "where "@ + left + " == "@ + right;
    let term = left + " == "@ + right;
    assert(filter =~= "where "@ + term);
    assert(filter[0] == 'w');
    assert(!text::begins_with(filter, "from applies("@)) by {
        if filter.len() >= "from applies("@.len() {
            assert(filter.take("from applies("@.len() as int)[0] == 'w');
        }
    }
    assert(filter.take("where "@.len() as int) =~= "where "@);
    assert(filter.skip("where "@.len() as int) =~= term);
    lemma_term(left, right);
    if written_filter(left, right) is Ok {
        assert(body.predicates + seq![written_filter(left, right)->Ok_0] =~= body.predicates.push(
            written_filter(left, right)->Ok_0,
        ));
    }
    let digits = text::decimal_text(limit as nat);
    let bound = "limit "@ + digits;
    text::lemma_decimal_text(limit as nat);
    assert(text::is_digit(digits[0]));
    assert(text::number_digits(digits) == digits);
    assert(bound[0] == 'l');
    assert(!text::begins_with(bound, "from applies("@)) by {
        if bound.len() >= "from applies("@.len() {
            assert(bound.take("from applies("@.len() as int)[0] == 'l');
        }
    }
    assert(bound.take("where "@.len() as int) != "where "@) by {
        assert(bound.take("where "@.len() as int)[0] == 'l');
    }
    assert(bound != "return symbol"@);
    assert(bound.take("limit "@.len() as int) =~= "limit "@);
    assert(bound.skip("limit "@.len() as int) =~= digits);
}

/// A command with one parameterized start, one filter and a limit says exactly
/// that: the words for kinds and languages mean those kinds and languages.
pub proof fn law_command_means_what_it_says(
    text: &str,
    name: Seq<char>,
    parameter: Seq<char>,
    left: Seq<char>,
    right: Seq<char>,
    limit: u32,
    result: Result<ProjectQuery, ProjectQueryError>,
)
    requires
        names::is_dotted(name, false),
        !name.contains('('),
        !left.contains(' '),
        !right.contains(' '),
        statements(text@) == seq![
            "command "@ + name + "() {"@,
            "from applies($"@ + parameter + ")"@,
            "where "@ + left + " == "@ + right,
            "limit "@ + text::decimal_text(limit as nat),
            "}"@,
        ],
        call_ensures(ProjectQuery::parse, (text,), result),
        (left == "kind"@ && (right == "class"@ || right == "interface"@ || right == "method"@
            || right == "function"@)) || (left == "language"@ && (right == "kotlin"@ || right
            == "java"@)),
    ensures
        result is Ok,
        result->Ok_0.name@ == name,
        result->Ok_0.parameters@.len() == 0,
        result->Ok_0.program.limit == limit,
        result->Ok_0.program.from->AppliedSymbol_0 is Parameter,
        result->Ok_0.program.from->AppliedSymbol_0->Parameter_0@ == parameter,
        result->Ok_0.program.predicates@.len() == 1,
        ({
            let filter = result->Ok_0.program.predicates@[0];
            &&& left == "language"@ ==> filter is Language
            &&& left == "language"@ && right == "kotlin"@ ==> filter->Language_0
                == Language::Kotlin
            &&& left == "language"@ && right == "java"@ ==> filter->Language_0 == Language::Java
            &&& left == "kind"@ ==> filter is Kind
            &&& left == "kind"@ && right == "class"@ ==> filter->Kind_0 == SymbolKind::Class
            &&& left == "kind"@ && right == "interface"@ ==> filter->Kind_0
                == SymbolKind::Interface
            &&& left == "kind"@ && right == "method"@ ==> filter->Kind_0 == SymbolKind::Method
            &&& left == "kind"@ && right == "function"@ ==> filter->Kind_0
                == SymbolKind::Function
        }),
{
    let lines = statements(text@);
    reveal_strlit("kind");
    reveal_strlit("language");
    reveal_strlit("class");
    reveal_strlit("interface");
    reveal_strlit("method");
    reveal_strlit("function");
    reveal_strlit("kotlin");
    reveal_strlit("java");
    assert("kind"@[0] != "language"@[0]);
    assert("kotlin"@[0] != "java"@[0]);
    assert("class"@[0] == 'c' && "interface"@[0] == 'i' && "method"@[0] == 'm' && "function"@[0]
        == 'f');
    lemma_plain_header(name);
    let body = lines.subrange(1, lines.len() - 1);
    let start = BodyView { from: None, predicates: Seq::empty(), limit: None };
    lemma_body_statements(parameter, left, right, limit, start);
    let one = BodyView { from: Some(QuerySymbolView::Parameter(parameter)), ..start };
    lemma_body_statements(parameter, left, right, limit, one);
    let two = BodyView {
        predicates: one.predicates.push(written_filter(left, right)->Ok_0),
        ..one
    };
    lemma_body_statements(parameter, left, right, limit, two);
    assert(body[0] == lines[1] && body[1] == lines[2] && body[2] == lines[3]);
    assert(written_body(body, 0) == Ok::<BodyView, ProjectQueryErrorView>(start));
    assert(written_body(body, 1) == Ok::<BodyView, ProjectQueryErrorView>(one));
    assert(written_body(body, 2) == Ok::<BodyView, ProjectQueryErrorView>(two));
    assert(written_body(body, 3) is Ok);
    let query = result->Ok_0;
    assert(query@.predicates.len() == 1);
    assert(parameter_views(query.parameters@).len() == 0);
    assert(predicate_views(query.program.predicates@)[0] == query.program.predicates@[0]@);
}

proof fn lemma_plain_header(name: Seq<char>)
    requires
        names::is_dotted(name, false),
        !name.contains('('),
    ensures
        written_header("command "@ + name + "() {"@) == Ok::<
            (Seq<char>, Seq<(Seq<char>, QueryParameterType)>),
            ProjectQueryErrorView,
        >((name, Seq::empty())),
{
    let header = "command "@ + name + "() {"@;
    reveal_strlit("() {");
    reveal_strlit(" {");
    reveal_strlit(")");
    reveal_strlit("");
    let rest = name + seq!['(', ')'];
    assert(header =~= "command "@ + rest + " {"@);
    text::lemma_enclosed(header, "command "@, rest, " {"@);
    let p = name.len() as int;
    assert forall|i: int| 0 <= i < p implies rest[i] != '(' by {
        assert(rest[i] == name[i]);
    }
    text::lemma_first_position_is(rest, '(', p);
    assert(rest.take(p) =~= name);
    let list = rest.skip(p + 1);
    assert(list =~= ""@ + Seq::<char>::empty() + ")"@);
    text::lemma_enclosed(list, ""@, Seq::empty(), ")"@);
    assert(position::trimmed(Seq::<char>::empty()).len() == 0);
}

/// A command is bound exactly where every given name is declared, and every
/// declared parameter is given, an integer as a number.
pub proof fn law_binding_needs_what_is_declared(
    query: &ProjectQuery,
    values: &OrderedMap<String>,
    result: Result<QueryParameters, ProjectQueryError>,
)
    requires
        values.wf(),
        call_ensures(ProjectQuery::bind, (query, values), result),
    ensures
        result is Ok ==> {
            &&& forall|name: Seq<char>| #[trigger]
                values@.dom().contains(name) ==> exists|i: int|
                    0 <= i < query.parameters@.len() && (#[trigger] query.parameters@[i]).name@
                        == name
            &&& forall|i: int|
                0 <= i < query.parameters@.len() ==> values@.dom().contains(
                    (#[trigger] query.parameters@[i]).name@,
                )
        },
        result is Err ==> {
            ||| result->Err_0 is UnknownParameter
            ||| result->Err_0 is MissingParameter
            ||| result->Err_0 is InvalidParameter
        },
{
    let declared = parameter_views(query.parameters@);
    let order = ordering::sorted_texts(values@.dom());
    let unknown = unknown_names(declared, order);
    let unbound = unbound_parameters(declared, values@);
    values.lemma_order();
    if result is Ok {
        ordering::lemma_no_first_problem(unknown);
        ordering::lemma_no_first_problem(unbound);
        assert forall|name: Seq<char>| #[trigger] values@.dom().contains(name) implies exists|i: int|
            0 <= i < query.parameters@.len() && (#[trigger] query.parameters@[i]).name@ == name by {
            ordering::lemma_sorted_texts(values@.dom());
            assert(order.to_set().contains(name));
            let k = order.index_of(name);
            assert(unknown[k] is None);
            let i = choose|i: int| 0 <= i < declared.len() && (#[trigger] declared[i]).0 == name;
            assert(query.parameters@[i].name@ == name);
        }
        assert forall|i: int| 0 <= i < query.parameters@.len() implies values@.dom().contains(
            (#[trigger] query.parameters@[i]).name@,
        ) by {
            assert(unbound[i] is None);
            assert(declared[i].0 == query.parameters@[i].name@);
        }
    } else {
        lemma_first_is_some(unknown);
        lemma_first_is_some(unbound);
    }
}

proof fn lemma_first_is_some(findings: Seq<Option<ProjectQueryErrorView>>)
    ensures
        ordering::first_problem(findings) is Some ==> exists|i: int|
            0 <= i < findings.len() && #[trigger] findings[i] == ordering::first_problem(findings),
    decreases findings.len(),
{
    if findings.len() > 0 && findings[0] is None {
        let rest = findings.drop_first();
        lemma_first_is_some(rest);
        if ordering::first_problem(rest) is Some {
            let i = choose|i: int|
                0 <= i < rest.len() && #[trigger] rest[i] == ordering::first_problem(rest);
            assert(findings[i + 1] == rest[i]);
        }
    }
}

/// A bound parameter has the given text as a value of its declared type.
pub proof fn law_bound_values_have_the_declared_type(
    query: &ProjectQuery,
    values: &OrderedMap<String>,
    bound: QueryParameters,
    i: int,
)
    requires
        values.wf(),
        call_ensures(ProjectQuery::bind, (query, values), Ok::<QueryParameters, ProjectQueryError>(bound)),
        0 <= i < query.parameters@.len(),
        forall|j: int|
            i < j < query.parameters@.len() ==> (#[trigger] query.parameters@[j]).name@
                != query.parameters@[i].name@,
    ensures
        ({
            let name = query.parameters@[i].name@;
            let ty = query.parameters@[i].ty;
            &&& bound@.dom().contains(name)
            &&& ty is SymbolId ==> bound@[name] is SymbolId && bound@[name]->SymbolId_0@
                == values@[name]@
            &&& ty is QualifiedSymbol ==> bound@[name] is QualifiedSymbol
                && bound@[name]->QualifiedSymbol_0@ == values@[name]@
            &&& ty is ComponentId ==> bound@[name] is ComponentId && bound@[name]->ComponentId_0@
                == values@[name]@
            &&& ty is String ==> bound@[name] is String && bound@[name]->String_0@
                == values@[name]@
            &&& ty is Integer ==> bound@[name] is Integer
        }),
{
    let declared = parameter_views(query.parameters@);
    let n = declared.len() as int;
    let unbound = unbound_parameters(declared, values@);
    ordering::lemma_no_first_problem(unbound);
    assert(unbound[i] is None);
    assert(declared[i] == (query.parameters@[i].name@, query.parameters@[i].ty));
    lemma_bound_value(declared, values@, i, n);
}

proof fn lemma_bound_value(
    declared: Seq<(Seq<char>, QueryParameterType)>,
    given: Map<Seq<char>, String>,
    i: int,
    n: int,
)
    requires
        0 <= i < n <= declared.len(),
        forall|j: int| i < j < n ==> (#[trigger] declared[j]).0 != declared[i].0,
    ensures
        bound_values(declared, given, n).dom().contains(declared[i].0),
        bound_values(declared, given, n)[declared[i].0] == typed_value(
            declared[i].1,
            given[declared[i].0]@,
        )->Some_0,
    decreases n,
{
    if n > i + 1 {
        assert(declared[n - 1].0 != declared[i].0);
        lemma_bound_value(declared, given, i, n - 1);
    }
}

} // verus!
