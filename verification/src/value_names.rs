//! The texts that workers and stored artifacts use for enumerated values.

use vstd::prelude::*;

use crate::canonical::{
    Completeness, DiagnosticSeverity, Freshness, Language, LanguageValue, OccurrenceKind,
    Precision, SourceOrigin, SymbolKind,
};
use crate::protocol::WorkerErrorCode;
use crate::text;

verus! {

/// The text of a source origin.
pub open spec fn origin_text(value: SourceOrigin) -> Seq<char> {
    match value {
        SourceOrigin::Source => "source"@,
        SourceOrigin::Generated => "generated"@,
        SourceOrigin::Dependency => "dependency"@,
    }
}

/// Returns the text of a source origin.
pub fn origin_name(value: SourceOrigin) -> (result: &'static str)
    ensures
        result@ == origin_text(value),
{
    match value {
        SourceOrigin::Source => "source",
        SourceOrigin::Generated => "generated",
        SourceOrigin::Dependency => "dependency",
    }
}

/// Returns the source origin with a text, if there is one.
pub fn parse_origin(name: &str) -> (result: Option<SourceOrigin>)
    ensures
        match result {
            Some(value) => origin_text(value) == name@,
            None => forall|other: SourceOrigin| #[trigger] origin_text(other) != name@,
        },
{
    if text::same_text(name, "source") {
        Some(SourceOrigin::Source)
    } else if text::same_text(name, "generated") {
        Some(SourceOrigin::Generated)
    } else if text::same_text(name, "dependency") {
        Some(SourceOrigin::Dependency)
    } else {
        None
    }
}

/// No two values of this source origin have the same text.
pub proof fn law_origin_texts_differ(a: SourceOrigin, b: SourceOrigin)
    ensures
        origin_text(a) == origin_text(b) <==> a == b,
{
    reveal_strlit("source");
    reveal_strlit("generated");
    reveal_strlit("dependency");
    if a != b {
        let (x, y) = (origin_text(a), origin_text(b));
        assert(x.len() != y.len() || x[0] != y[0] || x[1] != y[1]);
    }
}

/// The text of a freshness.
pub open spec fn freshness_text(value: Freshness) -> Seq<char> {
    match value {
        Freshness::Fresh => "fresh"@,
        Freshness::Stale => "stale"@,
        Freshness::Unknown => "unknown"@,
        Freshness::Unsupported => "unsupported"@,
    }
}

/// Returns the text of a freshness.
pub fn freshness_name(value: Freshness) -> (result: &'static str)
    ensures
        result@ == freshness_text(value),
{
    match value {
        Freshness::Fresh => "fresh",
        Freshness::Stale => "stale",
        Freshness::Unknown => "unknown",
        Freshness::Unsupported => "unsupported",
    }
}

/// Returns the freshness with a text, if there is one.
pub fn parse_freshness(name: &str) -> (result: Option<Freshness>)
    ensures
        match result {
            Some(value) => freshness_text(value) == name@,
            None => forall|other: Freshness| #[trigger] freshness_text(other) != name@,
        },
{
    if text::same_text(name, "fresh") {
        Some(Freshness::Fresh)
    } else if text::same_text(name, "stale") {
        Some(Freshness::Stale)
    } else if text::same_text(name, "unknown") {
        Some(Freshness::Unknown)
    } else if text::same_text(name, "unsupported") {
        Some(Freshness::Unsupported)
    } else {
        None
    }
}

/// No two values of this freshness have the same text.
pub proof fn law_freshness_texts_differ(a: Freshness, b: Freshness)
    ensures
        freshness_text(a) == freshness_text(b) <==> a == b,
{
    reveal_strlit("fresh");
    reveal_strlit("stale");
    reveal_strlit("unknown");
    reveal_strlit("unsupported");
    if a != b {
        let (x, y) = (freshness_text(a), freshness_text(b));
        assert(x.len() != y.len() || x[0] != y[0] || x[1] != y[1]);
    }
}

/// The text of a completeness.
pub open spec fn completeness_text(value: Completeness) -> Seq<char> {
    match value {
        Completeness::Complete => "complete"@,
        Completeness::Partial => "partial"@,
        Completeness::Failed => "failed"@,
    }
}

/// Returns the text of a completeness.
pub fn completeness_name(value: Completeness) -> (result: &'static str)
    ensures
        result@ == completeness_text(value),
{
    match value {
        Completeness::Complete => "complete",
        Completeness::Partial => "partial",
        Completeness::Failed => "failed",
    }
}

/// Returns the completeness with a text, if there is one.
pub fn parse_completeness(name: &str) -> (result: Option<Completeness>)
    ensures
        match result {
            Some(value) => completeness_text(value) == name@,
            None => forall|other: Completeness| #[trigger] completeness_text(other) != name@,
        },
{
    if text::same_text(name, "complete") {
        Some(Completeness::Complete)
    } else if text::same_text(name, "partial") {
        Some(Completeness::Partial)
    } else if text::same_text(name, "failed") {
        Some(Completeness::Failed)
    } else {
        None
    }
}

/// No two values of this completeness have the same text.
pub proof fn law_completeness_texts_differ(a: Completeness, b: Completeness)
    ensures
        completeness_text(a) == completeness_text(b) <==> a == b,
{
    reveal_strlit("complete");
    reveal_strlit("partial");
    reveal_strlit("failed");
    if a != b {
        let (x, y) = (completeness_text(a), completeness_text(b));
        assert(x.len() != y.len() || x[0] != y[0] || x[1] != y[1]);
    }
}

/// The text of a precision.
pub open spec fn precision_text(value: Precision) -> Seq<char> {
    match value {
        Precision::Exact => "exact"@,
        Precision::Approximate => "approximate"@,
    }
}

/// Returns the text of a precision.
pub fn precision_name(value: Precision) -> (result: &'static str)
    ensures
        result@ == precision_text(value),
{
    match value {
        Precision::Exact => "exact",
        Precision::Approximate => "approximate",
    }
}

/// Returns the precision with a text, if there is one.
pub fn parse_precision(name: &str) -> (result: Option<Precision>)
    ensures
        match result {
            Some(value) => precision_text(value) == name@,
            None => forall|other: Precision| #[trigger] precision_text(other) != name@,
        },
{
    if text::same_text(name, "exact") {
        Some(Precision::Exact)
    } else if text::same_text(name, "approximate") {
        Some(Precision::Approximate)
    } else {
        None
    }
}

/// No two values of this precision have the same text.
pub proof fn law_precision_texts_differ(a: Precision, b: Precision)
    ensures
        precision_text(a) == precision_text(b) <==> a == b,
{
    reveal_strlit("exact");
    reveal_strlit("approximate");
    if a != b {
        let (x, y) = (precision_text(a), precision_text(b));
        assert(x.len() != y.len() || x[0] != y[0] || x[1] != y[1]);
    }
}

/// The text of a kind of a declaration.
pub open spec fn symbol_kind_text(value: SymbolKind) -> Seq<char> {
    match value {
        SymbolKind::Package => "package"@,
        SymbolKind::Module => "module"@,
        SymbolKind::Class => "class"@,
        SymbolKind::Interface => "interface"@,
        SymbolKind::Object => "object"@,
        SymbolKind::Enum => "enum"@,
        SymbolKind::Function => "function"@,
        SymbolKind::Method => "method"@,
        SymbolKind::Constructor => "constructor"@,
        SymbolKind::Property => "property"@,
        SymbolKind::Field => "field"@,
        SymbolKind::Parameter => "parameter"@,
        SymbolKind::TypeAlias => "type_alias"@,
        SymbolKind::Other => "other"@,
    }
}

/// Returns the text of a kind of a declaration.
pub fn symbol_kind_name(value: SymbolKind) -> (result: &'static str)
    ensures
        result@ == symbol_kind_text(value),
{
    match value {
        SymbolKind::Package => "package",
        SymbolKind::Module => "module",
        SymbolKind::Class => "class",
        SymbolKind::Interface => "interface",
        SymbolKind::Object => "object",
        SymbolKind::Enum => "enum",
        SymbolKind::Function => "function",
        SymbolKind::Method => "method",
        SymbolKind::Constructor => "constructor",
        SymbolKind::Property => "property",
        SymbolKind::Field => "field",
        SymbolKind::Parameter => "parameter",
        SymbolKind::TypeAlias => "type_alias",
        SymbolKind::Other => "other",
    }
}

/// Returns the kind of a declaration with a text, if there is one.
pub fn parse_symbol_kind(name: &str) -> (result: Option<SymbolKind>)
    ensures
        match result {
            Some(value) => symbol_kind_text(value) == name@,
            None => forall|other: SymbolKind| #[trigger] symbol_kind_text(other) != name@,
        },
{
    if text::same_text(name, "package") {
        Some(SymbolKind::Package)
    } else if text::same_text(name, "module") {
        Some(SymbolKind::Module)
    } else if text::same_text(name, "class") {
        Some(SymbolKind::Class)
    } else if text::same_text(name, "interface") {
        Some(SymbolKind::Interface)
    } else if text::same_text(name, "object") {
        Some(SymbolKind::Object)
    } else if text::same_text(name, "enum") {
        Some(SymbolKind::Enum)
    } else if text::same_text(name, "function") {
        Some(SymbolKind::Function)
    } else if text::same_text(name, "method") {
        Some(SymbolKind::Method)
    } else if text::same_text(name, "constructor") {
        Some(SymbolKind::Constructor)
    } else if text::same_text(name, "property") {
        Some(SymbolKind::Property)
    } else if text::same_text(name, "field") {
        Some(SymbolKind::Field)
    } else if text::same_text(name, "parameter") {
        Some(SymbolKind::Parameter)
    } else if text::same_text(name, "type_alias") {
        Some(SymbolKind::TypeAlias)
    } else if text::same_text(name, "other") {
        Some(SymbolKind::Other)
    } else {
        None
    }
}

/// No two values of this kind of a declaration have the same text.
pub proof fn law_symbol_kind_texts_differ(a: SymbolKind, b: SymbolKind)
    ensures
        symbol_kind_text(a) == symbol_kind_text(b) <==> a == b,
{
    reveal_strlit("package");
    reveal_strlit("module");
    reveal_strlit("class");
    reveal_strlit("interface");
    reveal_strlit("object");
    reveal_strlit("enum");
    reveal_strlit("function");
    reveal_strlit("method");
    reveal_strlit("constructor");
    reveal_strlit("property");
    reveal_strlit("field");
    reveal_strlit("parameter");
    reveal_strlit("type_alias");
    reveal_strlit("other");
    if a != b {
        let (x, y) = (symbol_kind_text(a), symbol_kind_text(b));
        assert(x.len() != y.len() || x[0] != y[0] || x[1] != y[1]);
    }
}

/// The text of a kind of an occurrence.
pub open spec fn occurrence_kind_text(value: OccurrenceKind) -> Seq<char> {
    match value {
        OccurrenceKind::Declaration => "declaration"@,
        OccurrenceKind::Reference => "reference"@,
        OccurrenceKind::Call => "call"@,
        OccurrenceKind::TypeReference => "type_reference"@,
        OccurrenceKind::Import => "import"@,
    }
}

/// Returns the text of a kind of an occurrence.
pub fn occurrence_kind_name(value: OccurrenceKind) -> (result: &'static str)
    ensures
        result@ == occurrence_kind_text(value),
{
    match value {
        OccurrenceKind::Declaration => "declaration",
        OccurrenceKind::Reference => "reference",
        OccurrenceKind::Call => "call",
        OccurrenceKind::TypeReference => "type_reference",
        OccurrenceKind::Import => "import",
    }
}

/// Returns the kind of an occurrence with a text, if there is one.
pub fn parse_occurrence_kind(name: &str) -> (result: Option<OccurrenceKind>)
    ensures
        match result {
            Some(value) => occurrence_kind_text(value) == name@,
            None => forall|other: OccurrenceKind| #[trigger] occurrence_kind_text(other) != name@,
        },
{
    if text::same_text(name, "declaration") {
        Some(OccurrenceKind::Declaration)
    } else if text::same_text(name, "reference") {
        Some(OccurrenceKind::Reference)
    } else if text::same_text(name, "call") {
        Some(OccurrenceKind::Call)
    } else if text::same_text(name, "type_reference") {
        Some(OccurrenceKind::TypeReference)
    } else if text::same_text(name, "import") {
        Some(OccurrenceKind::Import)
    } else {
        None
    }
}

/// No two values of this kind of an occurrence have the same text.
pub proof fn law_occurrence_kind_texts_differ(a: OccurrenceKind, b: OccurrenceKind)
    ensures
        occurrence_kind_text(a) == occurrence_kind_text(b) <==> a == b,
{
    reveal_strlit("declaration");
    reveal_strlit("reference");
    reveal_strlit("call");
    reveal_strlit("type_reference");
    reveal_strlit("import");
    if a != b {
        let (x, y) = (occurrence_kind_text(a), occurrence_kind_text(b));
        assert(x.len() != y.len() || x[0] != y[0] || x[1] != y[1]);
    }
}

/// The text of a severity.
pub open spec fn severity_text(value: DiagnosticSeverity) -> Seq<char> {
    match value {
        DiagnosticSeverity::Error => "error"@,
        DiagnosticSeverity::Warning => "warning"@,
        DiagnosticSeverity::Information => "information"@,
        DiagnosticSeverity::Hint => "hint"@,
    }
}

/// Returns the text of a severity.
pub fn severity_name(value: DiagnosticSeverity) -> (result: &'static str)
    ensures
        result@ == severity_text(value),
{
    match value {
        DiagnosticSeverity::Error => "error",
        DiagnosticSeverity::Warning => "warning",
        DiagnosticSeverity::Information => "information",
        DiagnosticSeverity::Hint => "hint",
    }
}

/// Returns the severity with a text, if there is one.
pub fn parse_severity(name: &str) -> (result: Option<DiagnosticSeverity>)
    ensures
        match result {
            Some(value) => severity_text(value) == name@,
            None => forall|other: DiagnosticSeverity| #[trigger] severity_text(other) != name@,
        },
{
    if text::same_text(name, "error") {
        Some(DiagnosticSeverity::Error)
    } else if text::same_text(name, "warning") {
        Some(DiagnosticSeverity::Warning)
    } else if text::same_text(name, "information") {
        Some(DiagnosticSeverity::Information)
    } else if text::same_text(name, "hint") {
        Some(DiagnosticSeverity::Hint)
    } else {
        None
    }
}

/// No two values of this severity have the same text.
pub proof fn law_severity_texts_differ(a: DiagnosticSeverity, b: DiagnosticSeverity)
    ensures
        severity_text(a) == severity_text(b) <==> a == b,
{
    reveal_strlit("error");
    reveal_strlit("warning");
    reveal_strlit("information");
    reveal_strlit("hint");
    if a != b {
        let (x, y) = (severity_text(a), severity_text(b));
        assert(x.len() != y.len() || x[0] != y[0] || x[1] != y[1]);
    }
}

/// The text of a language.
pub open spec fn language_text(value: LanguageValue) -> Seq<char> {
    match value {
        LanguageValue::Kotlin => "kotlin"@,
        LanguageValue::Java => "java"@,
        LanguageValue::Rust => "rust"@,
        LanguageValue::TypeScript => "type_script"@,
        LanguageValue::Other(name) => name,
    }
}

/// Whether a language without a variant of its own is not named like one that
/// has it.
pub open spec fn is_plain_language(value: LanguageValue) -> bool {
    value matches LanguageValue::Other(name) ==> name != "kotlin"@ && name != "java"@ && name
        != "rust"@ && name != "type_script"@
}

/// Returns the text of a language.
pub fn language_name(value: &Language) -> (result: String)
    ensures
        result@ == language_text(value@),
{
    match value {
        Language::Kotlin => "kotlin".to_owned(),
        Language::Java => "java".to_owned(),
        Language::Rust => "rust".to_owned(),
        Language::TypeScript => "type_script".to_owned(),
        Language::Other(name) => name.clone(),
    }
}

/// Returns the language with a text.
pub fn parse_language(name: &str) -> (result: Language)
    ensures
        language_text(result@) == name@,
        is_plain_language(result@),
{
    if text::same_text(name, "kotlin") {
        Language::Kotlin
    } else if text::same_text(name, "java") {
        Language::Java
    } else if text::same_text(name, "rust") {
        Language::Rust
    } else if text::same_text(name, "type_script") {
        Language::TypeScript
    } else {
        Language::Other(name.to_owned())
    }
}

/// A text belongs to one plain language.
pub proof fn law_language_texts_differ(a: LanguageValue, b: LanguageValue)
    requires
        is_plain_language(a),
        is_plain_language(b),
    ensures
        language_text(a) == language_text(b) <==> a == b,
{
    reveal_strlit("kotlin");
    reveal_strlit("java");
    reveal_strlit("rust");
    reveal_strlit("type_script");
    if language_text(a) == language_text(b) {
        assert("java"@[0] != "rust"@[0]);
        assert("kotlin"@.len() == 6 && "java"@.len() == 4 && "rust"@.len() == 4);
        assert("type_script"@.len() == 11);
        assert(a is Other <==> b is Other);
    }
}

/// The text of an error code.
pub open spec fn error_code_text(value: WorkerErrorCode) -> Seq<char> {
    match value {
        WorkerErrorCode::IncompatibleProtocolVersion => "incompatible_protocol_version"@,
        WorkerErrorCode::InvalidRequest => "invalid_request"@,
        WorkerErrorCode::UnsupportedCapability => "unsupported_capability"@,
        WorkerErrorCode::AnalysisFailed => "analysis_failed"@,
        WorkerErrorCode::Internal => "internal"@,
    }
}

/// Returns the text of an error code.
pub fn error_code_name(value: WorkerErrorCode) -> (result: &'static str)
    ensures
        result@ == error_code_text(value),
{
    match value {
        WorkerErrorCode::IncompatibleProtocolVersion => "incompatible_protocol_version",
        WorkerErrorCode::InvalidRequest => "invalid_request",
        WorkerErrorCode::UnsupportedCapability => "unsupported_capability",
        WorkerErrorCode::AnalysisFailed => "analysis_failed",
        WorkerErrorCode::Internal => "internal",
    }
}

/// Returns the error code with a text, if there is one.
pub fn parse_error_code(name: &str) -> (result: Option<WorkerErrorCode>)
    ensures
        match result {
            Some(value) => error_code_text(value) == name@,
            None => forall|other: WorkerErrorCode| #[trigger] error_code_text(other) != name@,
        },
{
    if text::same_text(name, "incompatible_protocol_version") {
        Some(WorkerErrorCode::IncompatibleProtocolVersion)
    } else if text::same_text(name, "invalid_request") {
        Some(WorkerErrorCode::InvalidRequest)
    } else if text::same_text(name, "unsupported_capability") {
        Some(WorkerErrorCode::UnsupportedCapability)
    } else if text::same_text(name, "analysis_failed") {
        Some(WorkerErrorCode::AnalysisFailed)
    } else if text::same_text(name, "internal") {
        Some(WorkerErrorCode::Internal)
    } else {
        None
    }
}

/// No two error codes have the same text.
pub proof fn law_error_code_texts_differ(a: WorkerErrorCode, b: WorkerErrorCode)
    ensures
        error_code_text(a) == error_code_text(b) <==> a == b,
{
    reveal_strlit("incompatible_protocol_version");
    reveal_strlit("invalid_request");
    reveal_strlit("unsupported_capability");
    reveal_strlit("analysis_failed");
    reveal_strlit("internal");
    if a != b {
        let (x, y) = (error_code_text(a), error_code_text(b));
        assert(x.len() != y.len() || x[0] != y[0]);
    }
}

/// A source origin has its own name and is read back from it.
pub proof fn law_origin_is_read_back(value: SourceOrigin, name: &'static str, read: Option<SourceOrigin>)
    requires
        call_ensures(origin_name, (value,), name),
        call_ensures(parse_origin, (name,), read),
    ensures
        value is Source ==> name@ == "source"@,
        value is Generated ==> name@ == "generated"@,
        value is Dependency ==> name@ == "dependency"@,
        read == Some(value),
{
    assert(origin_text(value) == name@);
    if read is Some {
        law_origin_texts_differ(value, read->0);
    }
}

/// A freshness has its own name and is read back from it.
pub proof fn law_freshness_is_read_back(value: Freshness, name: &'static str, read: Option<Freshness>)
    requires
        call_ensures(freshness_name, (value,), name),
        call_ensures(parse_freshness, (name,), read),
    ensures
        value is Fresh ==> name@ == "fresh"@,
        value is Stale ==> name@ == "stale"@,
        value is Unknown ==> name@ == "unknown"@,
        value is Unsupported ==> name@ == "unsupported"@,
        read == Some(value),
{
    assert(freshness_text(value) == name@);
    if read is Some {
        law_freshness_texts_differ(value, read->0);
    }
}

/// A completeness has its own name and is read back from it.
pub proof fn law_completeness_is_read_back(value: Completeness, name: &'static str, read: Option<Completeness>)
    requires
        call_ensures(completeness_name, (value,), name),
        call_ensures(parse_completeness, (name,), read),
    ensures
        value is Complete ==> name@ == "complete"@,
        value is Partial ==> name@ == "partial"@,
        value is Failed ==> name@ == "failed"@,
        read == Some(value),
{
    assert(completeness_text(value) == name@);
    if read is Some {
        law_completeness_texts_differ(value, read->0);
    }
}

/// A precision has its own name and is read back from it.
pub proof fn law_precision_is_read_back(value: Precision, name: &'static str, read: Option<Precision>)
    requires
        call_ensures(precision_name, (value,), name),
        call_ensures(parse_precision, (name,), read),
    ensures
        value is Exact ==> name@ == "exact"@,
        value is Approximate ==> name@ == "approximate"@,
        read == Some(value),
{
    assert(precision_text(value) == name@);
    if read is Some {
        law_precision_texts_differ(value, read->0);
    }
}

/// A symbol kind has its own name and is read back from it.
pub proof fn law_symbol_kind_is_read_back(value: SymbolKind, name: &'static str, read: Option<SymbolKind>)
    requires
        call_ensures(symbol_kind_name, (value,), name),
        call_ensures(parse_symbol_kind, (name,), read),
    ensures
        value is Package ==> name@ == "package"@,
        value is Module ==> name@ == "module"@,
        value is Class ==> name@ == "class"@,
        value is Interface ==> name@ == "interface"@,
        value is Object ==> name@ == "object"@,
        value is Enum ==> name@ == "enum"@,
        value is Function ==> name@ == "function"@,
        value is Method ==> name@ == "method"@,
        value is Constructor ==> name@ == "constructor"@,
        value is Property ==> name@ == "property"@,
        value is Field ==> name@ == "field"@,
        value is Parameter ==> name@ == "parameter"@,
        value is TypeAlias ==> name@ == "type_alias"@,
        value is Other ==> name@ == "other"@,
        read == Some(value),
{
    assert(symbol_kind_text(value) == name@);
    if read is Some {
        law_symbol_kind_texts_differ(value, read->0);
    }
}

/// An occurrence kind has its own name and is read back from it.
pub proof fn law_occurrence_kind_is_read_back(value: OccurrenceKind, name: &'static str, read: Option<OccurrenceKind>)
    requires
        call_ensures(occurrence_kind_name, (value,), name),
        call_ensures(parse_occurrence_kind, (name,), read),
    ensures
        value is Declaration ==> name@ == "declaration"@,
        value is Reference ==> name@ == "reference"@,
        value is Call ==> name@ == "call"@,
        value is TypeReference ==> name@ == "type_reference"@,
        value is Import ==> name@ == "import"@,
        read == Some(value),
{
    assert(occurrence_kind_text(value) == name@);
    if read is Some {
        law_occurrence_kind_texts_differ(value, read->0);
    }
}

/// A severity has its own name and is read back from it.
pub proof fn law_severity_is_read_back(value: DiagnosticSeverity, name: &'static str, read: Option<DiagnosticSeverity>)
    requires
        call_ensures(severity_name, (value,), name),
        call_ensures(parse_severity, (name,), read),
    ensures
        value is Error ==> name@ == "error"@,
        value is Warning ==> name@ == "warning"@,
        value is Information ==> name@ == "information"@,
        value is Hint ==> name@ == "hint"@,
        read == Some(value),
{
    assert(severity_text(value) == name@);
    if read is Some {
        law_severity_texts_differ(value, read->0);
    }
}

/// An error code has its own name and is read back from it.
pub proof fn law_error_code_is_read_back(value: WorkerErrorCode, name: &'static str, read: Option<WorkerErrorCode>)
    requires
        call_ensures(error_code_name, (value,), name),
        call_ensures(parse_error_code, (name,), read),
    ensures
        value is IncompatibleProtocolVersion ==> name@ == "incompatible_protocol_version"@,
        value is InvalidRequest ==> name@ == "invalid_request"@,
        value is UnsupportedCapability ==> name@ == "unsupported_capability"@,
        value is AnalysisFailed ==> name@ == "analysis_failed"@,
        value is Internal ==> name@ == "internal"@,
        read == Some(value),
{
    assert(error_code_text(value) == name@);
    if read is Some {
        law_error_code_texts_differ(value, read->0);
    }
}

/// A language has its own name and is read back from it, unless it is another
/// one under the name of one that has a variant.
pub proof fn law_language_is_read_back(value: &Language, name: String, given: &str, read: Language)
    requires
        call_ensures(language_name, (value,), name),
        given@ == name@,
        call_ensures(parse_language, (given,), read),
        is_plain_language(value@),
    ensures
        *value is Kotlin ==> name@ == "kotlin"@,
        *value is Java ==> name@ == "java"@,
        *value is Rust ==> name@ == "rust"@,
        *value is TypeScript ==> name@ == "type_script"@,
        *value is Other ==> name@ == value->Other_0@,
        read@ == value@,
{
    law_language_texts_differ(value@, read@);
}

} // verus!
