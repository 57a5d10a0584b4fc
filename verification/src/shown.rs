//! How values are written out in messages.
//!
//! A value in a message is written with its type and its fields by name, lists
//! in brackets and texts in quotes.

use vstd::prelude::*;

use crate::artifact_proto::ArtifactBlobSectionKind;
use crate::canonical::{
    BackendKey, BuildSystem, ByteRange, CallEdge, Completeness, Component, ComponentId,
    DependencyEdge, DependencyTarget, DiagnosticRecord, DiagnosticSeverity, Fingerprint, Freshness,
    HierarchyEdge, Language, OccurrenceKind, Precision, ProjectManifest, Provenance, ReferenceEdge,
    SourceOccurrence, SourceOrigin, SourceRange, SourceUnit, SourceUnitId, SymbolId, SymbolKind,
    SymbolRecord, TypeId, TypeRecord, WorkspaceId, WorkspacePath,
};
use crate::dependency_identity::ResolvedDependencyIdentity;
use crate::protocol::{
    AnalysisBatchResponse, AnalysisDelta, AnalysisFact, AnalyzeBatchRequest,
    ArtifactAnalysisRequest, ArtifactAnalysisResponse, ArtifactCandidate, ArtifactDescriptor,
    ArtifactDiscoveryRequest, ArtifactDiscoveryResponse, ArtifactLocator,
    ArtifactMaterializationRequest, ArtifactMaterializationResponse, FileAnalysisSnapshot,
    HandshakeRequest, HandshakeResponse, OpaqueExecutionPlan, PhaseTiming, ProjectManifestRequest,
    ProjectManifestResponse, SymbolLocator, WorkerCapabilities, WorkerCapability, WorkerError,
    WorkerErrorCode, WorkerIdentity, WorkerMessage, WorkerMetric,
};
use crate::semantic_capability::{
    SemanticQueryArgument, SemanticQueryArgumentValue, SemanticQueryBudget,
    SemanticQueryCapability, SemanticQueryParameter, SemanticQueryParameterType,
    SemanticQueryRequest, SemanticQueryResponse, SemanticQueryResponseState,
    SemanticQueryResultKind,
};
use crate::text;

verus! {

/// A text in quotes, as `{:?}` writes it.
pub uninterp spec fn quoted(value: Seq<char>) -> Seq<char>;

/// `{:?}` of the standard library on a text. What it writes depends on the text
/// alone.
#[verifier::external_body]
pub(crate) fn quote(value: &str) -> (result: String)
    ensures
        result@ == quoted(value@),
{
    format!("{value:?}")
}

/// Puts a text behind another.
pub fn push(out: &mut String, value: &str)
    ensures
        final(out)@ == old(out)@ + value@,
{
    *out = text::join_text(out.as_str(), value);
}

/// A value that is written out in messages.
pub trait Shown: Sized {
    /// How the value is written.
    spec fn shown(&self) -> Seq<char>;

    /// Writes the value.
    fn show(&self) -> (result: String)
        ensures
            result@ == self.shown(),
    ;
}

impl Shown for String {
    open spec fn shown(&self) -> Seq<char> {
        quoted(self@)
    }

    fn show(&self) -> (result: String) {
        quote(self.as_str())
    }
}

impl Shown for bool {
    open spec fn shown(&self) -> Seq<char> {
        if *self {
            "true"@
        } else {
            "false"@
        }
    }

    fn show(&self) -> (result: String) {
        if *self {
            "true".to_owned()
        } else {
            "false".to_owned()
        }
    }
}

impl Shown for u8 {
    open spec fn shown(&self) -> Seq<char> {
        text::decimal_text(*self as nat)
    }

    fn show(&self) -> (result: String) {
        text::decimal(*self as u64)
    }
}

impl Shown for u32 {
    open spec fn shown(&self) -> Seq<char> {
        text::decimal_text(*self as nat)
    }

    fn show(&self) -> (result: String) {
        text::decimal(*self as u64)
    }
}

impl Shown for u64 {
    open spec fn shown(&self) -> Seq<char> {
        text::decimal_text(*self as nat)
    }

    fn show(&self) -> (result: String) {
        text::decimal(*self as u64)
    }
}

impl Shown for i64 {
    open spec fn shown(&self) -> Seq<char> {
        if *self < 0 {
            "-"@ + text::decimal_text((-(*self as int)) as nat)
        } else {
            text::decimal_text(*self as nat)
        }
    }

    fn show(&self) -> (result: String) {
        if *self < 0 {
            let magnitude: i128 = -(*self as i128);
            let mut out = "-".to_owned();
            push(&mut out, text::decimal(magnitude as u64).as_str());
            out
        } else {
            text::decimal(*self as u64)
        }
    }
}

impl<T: Shown> Shown for Option<T> {
    open spec fn shown(&self) -> Seq<char> {
        match self {
            Some(value) => "Some("@ + value.shown() + ")"@,
            None => "None"@,
        }
    }

    fn show(&self) -> (result: String) {
        match self {
            Some(value) => {
                let mut out = "Some(".to_owned();
                push(&mut out, value.show().as_str());
                push(&mut out, ")");
                out
            },
            None => "None".to_owned(),
        }
    }
}

/// How the values of a list are written, with commas between them.
pub open spec fn shown_items<T: Shown>(values: Seq<T>) -> Seq<char>
    decreases values.len(),
{
    if values.len() == 0 {
        Seq::empty()
    } else if values.len() == 1 {
        values[0].shown()
    } else {
        shown_items(values.drop_last()) + ", "@ + values.last().shown()
    }
}

impl<T: Shown> Shown for Vec<T> {
    open spec fn shown(&self) -> Seq<char> {
        "["@ + shown_items(self@) + "]"@
    }

    fn show(&self) -> (result: String) {
        let mut items = String::new();
        let mut i: usize = 0;
        assert(items@ =~= shown_items(self@.take(0)));
        while i < self.len()
            invariant
                i <= self@.len(),
                items@ == shown_items(self@.take(i as int)),
            decreases self@.len() - i,
        {
            let ghost before = items@;
            if i > 0 {
                push(&mut items, ", ");
            }
            push(&mut items, self[i].show().as_str());
            proof {
                let now = self@.take(i + 1);
                assert(now.drop_last() =~= self@.take(i as int));
                if i == 0 {
                    assert(before =~= Seq::<char>::empty());
                    assert(items@ =~= now[0].shown());
                }
            }
            i = i + 1;
        }
        assert(self@.take(i as int) =~= self@);
        let mut out = "[".to_owned();
        push(&mut out, items.as_str());
        push(&mut out, "]");
        out
    }
}

impl Shown for WorkspaceId {
    open spec fn shown(&self) -> Seq<char> {
        "WorkspaceId("@ + quoted(self@) + ")"@
    }

    fn show(&self) -> (result: String) {
        let mut out = "WorkspaceId(".to_owned();
        push(&mut out, quote(self.as_str()).as_str());
        push(&mut out, ")");
        out
    }
}

impl Shown for ComponentId {
    open spec fn shown(&self) -> Seq<char> {
        "ComponentId("@ + quoted(self@) + ")"@
    }

    fn show(&self) -> (result: String) {
        let mut out = "ComponentId(".to_owned();
        push(&mut out, quote(self.as_str()).as_str());
        push(&mut out, ")");
        out
    }
}

impl Shown for SourceUnitId {
    open spec fn shown(&self) -> Seq<char> {
        "SourceUnitId("@ + quoted(self@) + ")"@
    }

    fn show(&self) -> (result: String) {
        let mut out = "SourceUnitId(".to_owned();
        push(&mut out, quote(self.as_str()).as_str());
        push(&mut out, ")");
        out
    }
}

impl Shown for SymbolId {
    open spec fn shown(&self) -> Seq<char> {
        "SymbolId("@ + quoted(self@) + ")"@
    }

    fn show(&self) -> (result: String) {
        let mut out = "SymbolId(".to_owned();
        push(&mut out, quote(self.as_str()).as_str());
        push(&mut out, ")");
        out
    }
}

impl Shown for TypeId {
    open spec fn shown(&self) -> Seq<char> {
        "TypeId("@ + quoted(self@) + ")"@
    }

    fn show(&self) -> (result: String) {
        let mut out = "TypeId(".to_owned();
        push(&mut out, quote(self.as_str()).as_str());
        push(&mut out, ")");
        out
    }
}

impl Shown for WorkspacePath {
    open spec fn shown(&self) -> Seq<char> {
        "WorkspacePath("@ + quoted(self@) + ")"@
    }

    fn show(&self) -> (result: String) {
        let mut out = "WorkspacePath(".to_owned();
        push(&mut out, quote(self.as_str()).as_str());
        push(&mut out, ")");
        out
    }
}

impl Shown for Fingerprint {
    open spec fn shown(&self) -> Seq<char> {
        "Fingerprint("@ + quoted(self@) + ")"@
    }

    fn show(&self) -> (result: String) {
        let mut out = "Fingerprint(".to_owned();
        push(&mut out, quote(self.as_str()).as_str());
        push(&mut out, ")");
        out
    }
}

impl Shown for Language {
    open spec fn shown(&self) -> Seq<char> {
        match self {
            Language::Kotlin => "Kotlin"@,
            Language::Java => "Java"@,
            Language::Rust => "Rust"@,
            Language::TypeScript => "TypeScript"@,
            Language::Other(value) => "Other("@ + value.shown() + ")"@,
        }
    }

    fn show(&self) -> (result: String) {
        match self {
            Language::Kotlin => "Kotlin".to_owned(),
            Language::Java => "Java".to_owned(),
            Language::Rust => "Rust".to_owned(),
            Language::TypeScript => "TypeScript".to_owned(),
            Language::Other(value) => {
                let mut out = "Other(".to_owned();
                push(&mut out, value.show().as_str());
                push(&mut out, ")");
                out
            },
        }
    }
}

impl Shown for BuildSystem {
    open spec fn shown(&self) -> Seq<char> {
        match self {
            BuildSystem::Gradle => "Gradle"@,
            BuildSystem::Maven => "Maven"@,
            BuildSystem::Cargo => "Cargo"@,
            BuildSystem::Npm => "Npm"@,
            BuildSystem::Bazel => "Bazel"@,
            BuildSystem::Filesystem => "Filesystem"@,
            BuildSystem::Other(value) => "Other("@ + value.shown() + ")"@,
        }
    }

    fn show(&self) -> (result: String) {
        match self {
            BuildSystem::Gradle => "Gradle".to_owned(),
            BuildSystem::Maven => "Maven".to_owned(),
            BuildSystem::Cargo => "Cargo".to_owned(),
            BuildSystem::Npm => "Npm".to_owned(),
            BuildSystem::Bazel => "Bazel".to_owned(),
            BuildSystem::Filesystem => "Filesystem".to_owned(),
            BuildSystem::Other(value) => {
                let mut out = "Other(".to_owned();
                push(&mut out, value.show().as_str());
                push(&mut out, ")");
                out
            },
        }
    }
}

impl Shown for SourceOrigin {
    open spec fn shown(&self) -> Seq<char> {
        match self {
            SourceOrigin::Source => "Source"@,
            SourceOrigin::Generated => "Generated"@,
            SourceOrigin::Dependency => "Dependency"@,
        }
    }

    fn show(&self) -> (result: String) {
        match self {
            SourceOrigin::Source => "Source".to_owned(),
            SourceOrigin::Generated => "Generated".to_owned(),
            SourceOrigin::Dependency => "Dependency".to_owned(),
        }
    }
}

impl Shown for Freshness {
    open spec fn shown(&self) -> Seq<char> {
        match self {
            Freshness::Fresh => "Fresh"@,
            Freshness::Stale => "Stale"@,
            Freshness::Unknown => "Unknown"@,
            Freshness::Unsupported => "Unsupported"@,
        }
    }

    fn show(&self) -> (result: String) {
        match self {
            Freshness::Fresh => "Fresh".to_owned(),
            Freshness::Stale => "Stale".to_owned(),
            Freshness::Unknown => "Unknown".to_owned(),
            Freshness::Unsupported => "Unsupported".to_owned(),
        }
    }
}

impl Shown for Completeness {
    open spec fn shown(&self) -> Seq<char> {
        match self {
            Completeness::Complete => "Complete"@,
            Completeness::Partial => "Partial"@,
            Completeness::Failed => "Failed"@,
        }
    }

    fn show(&self) -> (result: String) {
        match self {
            Completeness::Complete => "Complete".to_owned(),
            Completeness::Partial => "Partial".to_owned(),
            Completeness::Failed => "Failed".to_owned(),
        }
    }
}

impl Shown for Precision {
    open spec fn shown(&self) -> Seq<char> {
        match self {
            Precision::Exact => "Exact"@,
            Precision::Approximate => "Approximate"@,
        }
    }

    fn show(&self) -> (result: String) {
        match self {
            Precision::Exact => "Exact".to_owned(),
            Precision::Approximate => "Approximate".to_owned(),
        }
    }
}

impl Shown for SymbolKind {
    open spec fn shown(&self) -> Seq<char> {
        match self {
            SymbolKind::Package => "Package"@,
            SymbolKind::Module => "Module"@,
            SymbolKind::Class => "Class"@,
            SymbolKind::Interface => "Interface"@,
            SymbolKind::Object => "Object"@,
            SymbolKind::Enum => "Enum"@,
            SymbolKind::Function => "Function"@,
            SymbolKind::Method => "Method"@,
            SymbolKind::Constructor => "Constructor"@,
            SymbolKind::Property => "Property"@,
            SymbolKind::Field => "Field"@,
            SymbolKind::Parameter => "Parameter"@,
            SymbolKind::TypeAlias => "TypeAlias"@,
            SymbolKind::Other => "Other"@,
        }
    }

    fn show(&self) -> (result: String) {
        match self {
            SymbolKind::Package => "Package".to_owned(),
            SymbolKind::Module => "Module".to_owned(),
            SymbolKind::Class => "Class".to_owned(),
            SymbolKind::Interface => "Interface".to_owned(),
            SymbolKind::Object => "Object".to_owned(),
            SymbolKind::Enum => "Enum".to_owned(),
            SymbolKind::Function => "Function".to_owned(),
            SymbolKind::Method => "Method".to_owned(),
            SymbolKind::Constructor => "Constructor".to_owned(),
            SymbolKind::Property => "Property".to_owned(),
            SymbolKind::Field => "Field".to_owned(),
            SymbolKind::Parameter => "Parameter".to_owned(),
            SymbolKind::TypeAlias => "TypeAlias".to_owned(),
            SymbolKind::Other => "Other".to_owned(),
        }
    }
}

impl Shown for OccurrenceKind {
    open spec fn shown(&self) -> Seq<char> {
        match self {
            OccurrenceKind::Declaration => "Declaration"@,
            OccurrenceKind::Reference => "Reference"@,
            OccurrenceKind::Call => "Call"@,
            OccurrenceKind::TypeReference => "TypeReference"@,
            OccurrenceKind::Import => "Import"@,
        }
    }

    fn show(&self) -> (result: String) {
        match self {
            OccurrenceKind::Declaration => "Declaration".to_owned(),
            OccurrenceKind::Reference => "Reference".to_owned(),
            OccurrenceKind::Call => "Call".to_owned(),
            OccurrenceKind::TypeReference => "TypeReference".to_owned(),
            OccurrenceKind::Import => "Import".to_owned(),
        }
    }
}

impl Shown for DiagnosticSeverity {
    open spec fn shown(&self) -> Seq<char> {
        match self {
            DiagnosticSeverity::Error => "Error"@,
            DiagnosticSeverity::Warning => "Warning"@,
            DiagnosticSeverity::Information => "Information"@,
            DiagnosticSeverity::Hint => "Hint"@,
        }
    }

    fn show(&self) -> (result: String) {
        match self {
            DiagnosticSeverity::Error => "Error".to_owned(),
            DiagnosticSeverity::Warning => "Warning".to_owned(),
            DiagnosticSeverity::Information => "Information".to_owned(),
            DiagnosticSeverity::Hint => "Hint".to_owned(),
        }
    }
}

impl Shown for Provenance {
    open spec fn shown(&self) -> Seq<char> {
        "Provenance { backend: "@
            + self.backend.shown()
            + ", backend_version: "@
            + self.backend_version.shown()
            + ", protocol_version: "@
            + self.protocol_version.shown()
            + ", analysis_options: "@
            + self.analysis_options.shown()
            + " }"@
    }

    fn show(&self) -> (result: String) {
        let mut out = "Provenance { backend: ".to_owned();
        push(&mut out, self.backend.show().as_str());
        push(&mut out, ", backend_version: ");
        push(&mut out, self.backend_version.show().as_str());
        push(&mut out, ", protocol_version: ");
        push(&mut out, self.protocol_version.show().as_str());
        push(&mut out, ", analysis_options: ");
        push(&mut out, self.analysis_options.show().as_str());
        push(&mut out, " }");
        out
    }
}

impl Shown for ByteRange {
    open spec fn shown(&self) -> Seq<char> {
        "ByteRange { start: "@
            + self.start.shown()
            + ", end: "@
            + self.end.shown()
            + " }"@
    }

    fn show(&self) -> (result: String) {
        let mut out = "ByteRange { start: ".to_owned();
        push(&mut out, self.start.show().as_str());
        push(&mut out, ", end: ");
        push(&mut out, self.end.show().as_str());
        push(&mut out, " }");
        out
    }
}

impl Shown for SourceRange {
    open spec fn shown(&self) -> Seq<char> {
        "SourceRange { source_unit: "@
            + self.source_unit.shown()
            + ", bytes: "@
            + self.bytes.shown()
            + " }"@
    }

    fn show(&self) -> (result: String) {
        let mut out = "SourceRange { source_unit: ".to_owned();
        push(&mut out, self.source_unit.show().as_str());
        push(&mut out, ", bytes: ");
        push(&mut out, self.bytes.show().as_str());
        push(&mut out, " }");
        out
    }
}

impl Shown for Component {
    open spec fn shown(&self) -> Seq<char> {
        "Component { id: "@
            + self.id.shown()
            + ", name: "@
            + self.name.shown()
            + ", build_system: "@
            + self.build_system.shown()
            + ", root: "@
            + self.root.shown()
            + ", languages: "@
            + self.languages.shown()
            + ", configuration: "@
            + self.configuration.shown()
            + " }"@
    }

    fn show(&self) -> (result: String) {
        let mut out = "Component { id: ".to_owned();
        push(&mut out, self.id.show().as_str());
        push(&mut out, ", name: ");
        push(&mut out, self.name.show().as_str());
        push(&mut out, ", build_system: ");
        push(&mut out, self.build_system.show().as_str());
        push(&mut out, ", root: ");
        push(&mut out, self.root.show().as_str());
        push(&mut out, ", languages: ");
        push(&mut out, self.languages.show().as_str());
        push(&mut out, ", configuration: ");
        push(&mut out, self.configuration.show().as_str());
        push(&mut out, " }");
        out
    }
}

impl Shown for DependencyTarget {
    open spec fn shown(&self) -> Seq<char> {
        match self {
            DependencyTarget::Component { component } => "Component { component: "@ + component.shown() + " }"@,
            DependencyTarget::Artifact { content } => "Artifact { content: "@ + content.shown() + " }"@,
        }
    }

    fn show(&self) -> (result: String) {
        match self {
            DependencyTarget::Component { component } => {
                let mut out = "Component { component: ".to_owned();
                push(&mut out, component.show().as_str());
                push(&mut out, " }");
                out
            },
            DependencyTarget::Artifact { content } => {
                let mut out = "Artifact { content: ".to_owned();
                push(&mut out, content.show().as_str());
                push(&mut out, " }");
                out
            },
        }
    }
}

impl Shown for DependencyEdge {
    open spec fn shown(&self) -> Seq<char> {
        "DependencyEdge { from: "@
            + self.from.shown()
            + ", target: "@
            + self.target.shown()
            + ", scope: "@
            + self.scope.shown()
            + " }"@
    }

    fn show(&self) -> (result: String) {
        let mut out = "DependencyEdge { from: ".to_owned();
        push(&mut out, self.from.show().as_str());
        push(&mut out, ", target: ");
        push(&mut out, self.target.show().as_str());
        push(&mut out, ", scope: ");
        push(&mut out, self.scope.show().as_str());
        push(&mut out, " }");
        out
    }
}

impl Shown for ProjectManifest {
    open spec fn shown(&self) -> Seq<char> {
        "ProjectManifest { workspace: "@
            + self.workspace.shown()
            + ", root: "@
            + self.root.shown()
            + ", components: "@
            + self.components.shown()
            + ", dependencies: "@
            + self.dependencies.shown()
            + ", fingerprint: "@
            + self.fingerprint.shown()
            + ", provenance: "@
            + self.provenance.shown()
            + " }"@
    }

    fn show(&self) -> (result: String) {
        let mut out = "ProjectManifest { workspace: ".to_owned();
        push(&mut out, self.workspace.show().as_str());
        push(&mut out, ", root: ");
        push(&mut out, self.root.show().as_str());
        push(&mut out, ", components: ");
        push(&mut out, self.components.show().as_str());
        push(&mut out, ", dependencies: ");
        push(&mut out, self.dependencies.show().as_str());
        push(&mut out, ", fingerprint: ");
        push(&mut out, self.fingerprint.show().as_str());
        push(&mut out, ", provenance: ");
        push(&mut out, self.provenance.show().as_str());
        push(&mut out, " }");
        out
    }
}

impl Shown for SourceUnit {
    open spec fn shown(&self) -> Seq<char> {
        "SourceUnit { id: "@
            + self.id.shown()
            + ", component: "@
            + self.component.shown()
            + ", path: "@
            + self.path.shown()
            + ", language: "@
            + self.language.shown()
            + ", origin: "@
            + self.origin.shown()
            + ", content: "@
            + self.content.shown()
            + ", context: "@
            + self.context.shown()
            + " }"@
    }

    fn show(&self) -> (result: String) {
        let mut out = "SourceUnit { id: ".to_owned();
        push(&mut out, self.id.show().as_str());
        push(&mut out, ", component: ");
        push(&mut out, self.component.show().as_str());
        push(&mut out, ", path: ");
        push(&mut out, self.path.show().as_str());
        push(&mut out, ", language: ");
        push(&mut out, self.language.show().as_str());
        push(&mut out, ", origin: ");
        push(&mut out, self.origin.show().as_str());
        push(&mut out, ", content: ");
        push(&mut out, self.content.show().as_str());
        push(&mut out, ", context: ");
        push(&mut out, self.context.show().as_str());
        push(&mut out, " }");
        out
    }
}

impl Shown for BackendKey {
    open spec fn shown(&self) -> Seq<char> {
        "BackendKey { backend: "@
            + self.backend.shown()
            + ", schema_version: "@
            + self.schema_version.shown()
            + ", value: "@
            + self.value.shown()
            + " }"@
    }

    fn show(&self) -> (result: String) {
        let mut out = "BackendKey { backend: ".to_owned();
        push(&mut out, self.backend.show().as_str());
        push(&mut out, ", schema_version: ");
        push(&mut out, self.schema_version.show().as_str());
        push(&mut out, ", value: ");
        push(&mut out, self.value.show().as_str());
        push(&mut out, " }");
        out
    }
}

impl Shown for SymbolRecord {
    open spec fn shown(&self) -> Seq<char> {
        "SymbolRecord { id: "@
            + self.id.shown()
            + ", backend_key: "@
            + self.backend_key.shown()
            + ", language: "@
            + self.language.shown()
            + ", kind: "@
            + self.kind.shown()
            + ", name: "@
            + self.name.shown()
            + ", qualified_name: "@
            + self.qualified_name.shown()
            + ", signature: "@
            + self.signature.shown()
            + ", component: "@
            + self.component.shown()
            + ", declaration: "@
            + self.declaration.shown()
            + ", name_range: "@
            + self.name_range.shown()
            + ", owner: "@
            + self.owner.shown()
            + ", modifiers: "@
            + self.modifiers.shown()
            + ", applied_symbols: "@
            + self.applied_symbols.shown()
            + ", freshness: "@
            + self.freshness.shown()
            + ", completeness: "@
            + self.completeness.shown()
            + ", provenance: "@
            + self.provenance.shown()
            + " }"@
    }

    fn show(&self) -> (result: String) {
        let mut out = "SymbolRecord { id: ".to_owned();
        push(&mut out, self.id.show().as_str());
        push(&mut out, ", backend_key: ");
        push(&mut out, self.backend_key.show().as_str());
        push(&mut out, ", language: ");
        push(&mut out, self.language.show().as_str());
        push(&mut out, ", kind: ");
        push(&mut out, self.kind.show().as_str());
        push(&mut out, ", name: ");
        push(&mut out, self.name.show().as_str());
        push(&mut out, ", qualified_name: ");
        push(&mut out, self.qualified_name.show().as_str());
        push(&mut out, ", signature: ");
        push(&mut out, self.signature.show().as_str());
        push(&mut out, ", component: ");
        push(&mut out, self.component.show().as_str());
        push(&mut out, ", declaration: ");
        push(&mut out, self.declaration.show().as_str());
        push(&mut out, ", name_range: ");
        push(&mut out, self.name_range.show().as_str());
        push(&mut out, ", owner: ");
        push(&mut out, self.owner.show().as_str());
        push(&mut out, ", modifiers: ");
        push(&mut out, self.modifiers.show().as_str());
        push(&mut out, ", applied_symbols: ");
        push(&mut out, self.applied_symbols.show().as_str());
        push(&mut out, ", freshness: ");
        push(&mut out, self.freshness.show().as_str());
        push(&mut out, ", completeness: ");
        push(&mut out, self.completeness.show().as_str());
        push(&mut out, ", provenance: ");
        push(&mut out, self.provenance.show().as_str());
        push(&mut out, " }");
        out
    }
}

impl Shown for SourceOccurrence {
    open spec fn shown(&self) -> Seq<char> {
        "SourceOccurrence { range: "@
            + self.range.shown()
            + ", kind: "@
            + self.kind.shown()
            + ", enclosing_symbol: "@
            + self.enclosing_symbol.shown()
            + ", target: "@
            + self.target.shown()
            + ", type_id: "@
            + self.type_id.shown()
            + ", precision: "@
            + self.precision.shown()
            + ", freshness: "@
            + self.freshness.shown()
            + ", completeness: "@
            + self.completeness.shown()
            + ", provenance: "@
            + self.provenance.shown()
            + " }"@
    }

    fn show(&self) -> (result: String) {
        let mut out = "SourceOccurrence { range: ".to_owned();
        push(&mut out, self.range.show().as_str());
        push(&mut out, ", kind: ");
        push(&mut out, self.kind.show().as_str());
        push(&mut out, ", enclosing_symbol: ");
        push(&mut out, self.enclosing_symbol.show().as_str());
        push(&mut out, ", target: ");
        push(&mut out, self.target.show().as_str());
        push(&mut out, ", type_id: ");
        push(&mut out, self.type_id.show().as_str());
        push(&mut out, ", precision: ");
        push(&mut out, self.precision.show().as_str());
        push(&mut out, ", freshness: ");
        push(&mut out, self.freshness.show().as_str());
        push(&mut out, ", completeness: ");
        push(&mut out, self.completeness.show().as_str());
        push(&mut out, ", provenance: ");
        push(&mut out, self.provenance.show().as_str());
        push(&mut out, " }");
        out
    }
}

impl Shown for ReferenceEdge {
    open spec fn shown(&self) -> Seq<char> {
        "ReferenceEdge { source: "@
            + self.source.shown()
            + ", target: "@
            + self.target.shown()
            + ", precision: "@
            + self.precision.shown()
            + " }"@
    }

    fn show(&self) -> (result: String) {
        let mut out = "ReferenceEdge { source: ".to_owned();
        push(&mut out, self.source.show().as_str());
        push(&mut out, ", target: ");
        push(&mut out, self.target.show().as_str());
        push(&mut out, ", precision: ");
        push(&mut out, self.precision.show().as_str());
        push(&mut out, " }");
        out
    }
}

impl Shown for CallEdge {
    open spec fn shown(&self) -> Seq<char> {
        "CallEdge { source: "@
            + self.source.shown()
            + ", target: "@
            + self.target.shown()
            + ", caller: "@
            + self.caller.shown()
            + ", precision: "@
            + self.precision.shown()
            + " }"@
    }

    fn show(&self) -> (result: String) {
        let mut out = "CallEdge { source: ".to_owned();
        push(&mut out, self.source.show().as_str());
        push(&mut out, ", target: ");
        push(&mut out, self.target.show().as_str());
        push(&mut out, ", caller: ");
        push(&mut out, self.caller.show().as_str());
        push(&mut out, ", precision: ");
        push(&mut out, self.precision.show().as_str());
        push(&mut out, " }");
        out
    }
}

impl Shown for HierarchyEdge {
    open spec fn shown(&self) -> Seq<char> {
        "HierarchyEdge { subtype: "@
            + self.subtype.shown()
            + ", supertype: "@
            + self.supertype.shown()
            + ", precision: "@
            + self.precision.shown()
            + ", provenance: "@
            + self.provenance.shown()
            + " }"@
    }

    fn show(&self) -> (result: String) {
        let mut out = "HierarchyEdge { subtype: ".to_owned();
        push(&mut out, self.subtype.show().as_str());
        push(&mut out, ", supertype: ");
        push(&mut out, self.supertype.show().as_str());
        push(&mut out, ", precision: ");
        push(&mut out, self.precision.show().as_str());
        push(&mut out, ", provenance: ");
        push(&mut out, self.provenance.show().as_str());
        push(&mut out, " }");
        out
    }
}

impl Shown for TypeRecord {
    open spec fn shown(&self) -> Seq<char> {
        "TypeRecord { id: "@
            + self.id.shown()
            + ", language: "@
            + self.language.shown()
            + ", display: "@
            + self.display.shown()
            + ", backend_key: "@
            + self.backend_key.shown()
            + ", freshness: "@
            + self.freshness.shown()
            + ", completeness: "@
            + self.completeness.shown()
            + ", provenance: "@
            + self.provenance.shown()
            + " }"@
    }

    fn show(&self) -> (result: String) {
        let mut out = "TypeRecord { id: ".to_owned();
        push(&mut out, self.id.show().as_str());
        push(&mut out, ", language: ");
        push(&mut out, self.language.show().as_str());
        push(&mut out, ", display: ");
        push(&mut out, self.display.show().as_str());
        push(&mut out, ", backend_key: ");
        push(&mut out, self.backend_key.show().as_str());
        push(&mut out, ", freshness: ");
        push(&mut out, self.freshness.show().as_str());
        push(&mut out, ", completeness: ");
        push(&mut out, self.completeness.show().as_str());
        push(&mut out, ", provenance: ");
        push(&mut out, self.provenance.show().as_str());
        push(&mut out, " }");
        out
    }
}

impl Shown for DiagnosticRecord {
    open spec fn shown(&self) -> Seq<char> {
        "DiagnosticRecord { source_unit: "@
            + self.source_unit.shown()
            + ", range: "@
            + self.range.shown()
            + ", severity: "@
            + self.severity.shown()
            + ", code: "@
            + self.code.shown()
            + ", message: "@
            + self.message.shown()
            + ", freshness: "@
            + self.freshness.shown()
            + ", completeness: "@
            + self.completeness.shown()
            + ", provenance: "@
            + self.provenance.shown()
            + " }"@
    }

    fn show(&self) -> (result: String) {
        let mut out = "DiagnosticRecord { source_unit: ".to_owned();
        push(&mut out, self.source_unit.show().as_str());
        push(&mut out, ", range: ");
        push(&mut out, self.range.show().as_str());
        push(&mut out, ", severity: ");
        push(&mut out, self.severity.show().as_str());
        push(&mut out, ", code: ");
        push(&mut out, self.code.show().as_str());
        push(&mut out, ", message: ");
        push(&mut out, self.message.show().as_str());
        push(&mut out, ", freshness: ");
        push(&mut out, self.freshness.show().as_str());
        push(&mut out, ", completeness: ");
        push(&mut out, self.completeness.show().as_str());
        push(&mut out, ", provenance: ");
        push(&mut out, self.provenance.show().as_str());
        push(&mut out, " }");
        out
    }
}

impl Shown for WorkerCapability {
    open spec fn shown(&self) -> Seq<char> {
        match self {
            WorkerCapability::Handshake => "Handshake"@,
            WorkerCapability::ProjectManifest => "ProjectManifest"@,
            WorkerCapability::FileAnalysisSnapshot => "FileAnalysisSnapshot"@,
            WorkerCapability::AnalysisDelta => "AnalysisDelta"@,
        }
    }

    fn show(&self) -> (result: String) {
        match self {
            WorkerCapability::Handshake => "Handshake".to_owned(),
            WorkerCapability::ProjectManifest => "ProjectManifest".to_owned(),
            WorkerCapability::FileAnalysisSnapshot => "FileAnalysisSnapshot".to_owned(),
            WorkerCapability::AnalysisDelta => "AnalysisDelta".to_owned(),
        }
    }
}

impl Shown for WorkerIdentity {
    open spec fn shown(&self) -> Seq<char> {
        "WorkerIdentity { backend: "@
            + self.backend.shown()
            + ", backend_version: "@
            + self.backend_version.shown()
            + " }"@
    }

    fn show(&self) -> (result: String) {
        let mut out = "WorkerIdentity { backend: ".to_owned();
        push(&mut out, self.backend.show().as_str());
        push(&mut out, ", backend_version: ");
        push(&mut out, self.backend_version.show().as_str());
        push(&mut out, " }");
        out
    }
}

impl Shown for WorkerCapabilities {
    open spec fn shown(&self) -> Seq<char> {
        "WorkerCapabilities { identity: "@
            + self.identity.shown()
            + ", protocol_version: "@
            + self.protocol_version.shown()
            + ", languages: "@
            + self.languages.shown()
            + ", capabilities: "@
            + self.capabilities.shown()
            + ", semantic_query_capabilities: "@
            + self.semantic_query_capabilities.shown()
            + " }"@
    }

    fn show(&self) -> (result: String) {
        let mut out = "WorkerCapabilities { identity: ".to_owned();
        push(&mut out, self.identity.show().as_str());
        push(&mut out, ", protocol_version: ");
        push(&mut out, self.protocol_version.show().as_str());
        push(&mut out, ", languages: ");
        push(&mut out, self.languages.show().as_str());
        push(&mut out, ", capabilities: ");
        push(&mut out, self.capabilities.show().as_str());
        push(&mut out, ", semantic_query_capabilities: ");
        push(&mut out, self.semantic_query_capabilities.show().as_str());
        push(&mut out, " }");
        out
    }
}

impl Shown for HandshakeRequest {
    open spec fn shown(&self) -> Seq<char> {
        "HandshakeRequest { core_version: "@
            + self.core_version.shown()
            + " }"@
    }

    fn show(&self) -> (result: String) {
        let mut out = "HandshakeRequest { core_version: ".to_owned();
        push(&mut out, self.core_version.show().as_str());
        push(&mut out, " }");
        out
    }
}

impl Shown for HandshakeResponse {
    open spec fn shown(&self) -> Seq<char> {
        "HandshakeResponse { capabilities: "@
            + self.capabilities.shown()
            + " }"@
    }

    fn show(&self) -> (result: String) {
        let mut out = "HandshakeResponse { capabilities: ".to_owned();
        push(&mut out, self.capabilities.show().as_str());
        push(&mut out, " }");
        out
    }
}

impl Shown for ProjectManifestRequest {
    open spec fn shown(&self) -> Seq<char> {
        "ProjectManifestRequest { workspace_root: "@
            + self.workspace_root.shown()
            + " }"@
    }

    fn show(&self) -> (result: String) {
        let mut out = "ProjectManifestRequest { workspace_root: ".to_owned();
        push(&mut out, self.workspace_root.show().as_str());
        push(&mut out, " }");
        out
    }
}

impl Shown for ProjectManifestResponse {
    open spec fn shown(&self) -> Seq<char> {
        "ProjectManifestResponse { manifest: "@
            + self.manifest.shown()
            + ", execution_plan: "@
            + self.execution_plan.shown()
            + " }"@
    }

    fn show(&self) -> (result: String) {
        let mut out = "ProjectManifestResponse { manifest: ".to_owned();
        push(&mut out, self.manifest.show().as_str());
        push(&mut out, ", execution_plan: ");
        push(&mut out, self.execution_plan.show().as_str());
        push(&mut out, " }");
        out
    }
}

impl Shown for AnalysisFact {
    open spec fn shown(&self) -> Seq<char> {
        match self {
            AnalysisFact::Symbols => "Symbols"@,
            AnalysisFact::Occurrences => "Occurrences"@,
            AnalysisFact::References => "References"@,
            AnalysisFact::Calls => "Calls"@,
            AnalysisFact::Hierarchy => "Hierarchy"@,
            AnalysisFact::Types => "Types"@,
        }
    }

    fn show(&self) -> (result: String) {
        match self {
            AnalysisFact::Symbols => "Symbols".to_owned(),
            AnalysisFact::Occurrences => "Occurrences".to_owned(),
            AnalysisFact::References => "References".to_owned(),
            AnalysisFact::Calls => "Calls".to_owned(),
            AnalysisFact::Hierarchy => "Hierarchy".to_owned(),
            AnalysisFact::Types => "Types".to_owned(),
        }
    }
}

impl Shown for OpaqueExecutionPlan {
    open spec fn shown(&self) -> Seq<char> {
        "OpaqueExecutionPlan { backend: "@
            + self.backend.shown()
            + ", resolved_fingerprint: "@
            + self.resolved_fingerprint.shown()
            + ", payload: "@
            + self.payload.shown()
            + " }"@
    }

    fn show(&self) -> (result: String) {
        let mut out = "OpaqueExecutionPlan { backend: ".to_owned();
        push(&mut out, self.backend.show().as_str());
        push(&mut out, ", resolved_fingerprint: ");
        push(&mut out, self.resolved_fingerprint.show().as_str());
        push(&mut out, ", payload: ");
        push(&mut out, self.payload.show().as_str());
        push(&mut out, " }");
        out
    }
}

impl Shown for AnalyzeBatchRequest {
    open spec fn shown(&self) -> Seq<char> {
        "AnalyzeBatchRequest { workspace: "@
            + self.workspace.shown()
            + ", project_fingerprint: "@
            + self.project_fingerprint.shown()
            + ", requested_facts: "@
            + self.requested_facts.shown()
            + ", source_units: "@
            + self.source_units.shown()
            + ", execution_plan: "@
            + self.execution_plan.shown()
            + " }"@
    }

    fn show(&self) -> (result: String) {
        let mut out = "AnalyzeBatchRequest { workspace: ".to_owned();
        push(&mut out, self.workspace.show().as_str());
        push(&mut out, ", project_fingerprint: ");
        push(&mut out, self.project_fingerprint.show().as_str());
        push(&mut out, ", requested_facts: ");
        push(&mut out, self.requested_facts.show().as_str());
        push(&mut out, ", source_units: ");
        push(&mut out, self.source_units.show().as_str());
        push(&mut out, ", execution_plan: ");
        push(&mut out, self.execution_plan.show().as_str());
        push(&mut out, " }");
        out
    }
}

impl Shown for FileAnalysisSnapshot {
    open spec fn shown(&self) -> Seq<char> {
        "FileAnalysisSnapshot { source_unit: "@
            + self.source_unit.shown()
            + ", structural_fingerprint: "@
            + self.structural_fingerprint.shown()
            + ", public_api_fingerprint: "@
            + self.public_api_fingerprint.shown()
            + ", symbols: "@
            + self.symbols.shown()
            + ", occurrences: "@
            + self.occurrences.shown()
            + ", references: "@
            + self.references.shown()
            + ", calls: "@
            + self.calls.shown()
            + ", hierarchy: "@
            + self.hierarchy.shown()
            + ", types: "@
            + self.types.shown()
            + ", diagnostics: "@
            + self.diagnostics.shown()
            + ", completeness: "@
            + self.completeness.shown()
            + ", provenance: "@
            + self.provenance.shown()
            + " }"@
    }

    fn show(&self) -> (result: String) {
        let mut out = "FileAnalysisSnapshot { source_unit: ".to_owned();
        push(&mut out, self.source_unit.show().as_str());
        push(&mut out, ", structural_fingerprint: ");
        push(&mut out, self.structural_fingerprint.show().as_str());
        push(&mut out, ", public_api_fingerprint: ");
        push(&mut out, self.public_api_fingerprint.show().as_str());
        push(&mut out, ", symbols: ");
        push(&mut out, self.symbols.show().as_str());
        push(&mut out, ", occurrences: ");
        push(&mut out, self.occurrences.show().as_str());
        push(&mut out, ", references: ");
        push(&mut out, self.references.show().as_str());
        push(&mut out, ", calls: ");
        push(&mut out, self.calls.show().as_str());
        push(&mut out, ", hierarchy: ");
        push(&mut out, self.hierarchy.show().as_str());
        push(&mut out, ", types: ");
        push(&mut out, self.types.show().as_str());
        push(&mut out, ", diagnostics: ");
        push(&mut out, self.diagnostics.show().as_str());
        push(&mut out, ", completeness: ");
        push(&mut out, self.completeness.show().as_str());
        push(&mut out, ", provenance: ");
        push(&mut out, self.provenance.show().as_str());
        push(&mut out, " }");
        out
    }
}

impl Shown for AnalysisBatchResponse {
    open spec fn shown(&self) -> Seq<char> {
        "AnalysisBatchResponse { snapshots: "@
            + self.snapshots.shown()
            + ", timings: "@
            + self.timings.shown()
            + ", artifact_candidates: "@
            + self.artifact_candidates.shown()
            + ", metrics: "@
            + self.metrics.shown()
            + " }"@
    }

    fn show(&self) -> (result: String) {
        let mut out = "AnalysisBatchResponse { snapshots: ".to_owned();
        push(&mut out, self.snapshots.show().as_str());
        push(&mut out, ", timings: ");
        push(&mut out, self.timings.show().as_str());
        push(&mut out, ", artifact_candidates: ");
        push(&mut out, self.artifact_candidates.show().as_str());
        push(&mut out, ", metrics: ");
        push(&mut out, self.metrics.show().as_str());
        push(&mut out, " }");
        out
    }
}

impl Shown for AnalysisDelta {
    open spec fn shown(&self) -> Seq<char> {
        "AnalysisDelta { source_unit: "@
            + self.source_unit.shown()
            + ", previous_content: "@
            + self.previous_content.shown()
            + ", snapshot: "@
            + self.snapshot.shown()
            + " }"@
    }

    fn show(&self) -> (result: String) {
        let mut out = "AnalysisDelta { source_unit: ".to_owned();
        push(&mut out, self.source_unit.show().as_str());
        push(&mut out, ", previous_content: ");
        push(&mut out, self.previous_content.show().as_str());
        push(&mut out, ", snapshot: ");
        push(&mut out, self.snapshot.show().as_str());
        push(&mut out, " }");
        out
    }
}

impl Shown for SymbolLocator {
    open spec fn shown(&self) -> Seq<char> {
        "SymbolLocator { qualified_name: "@
            + self.qualified_name.shown()
            + ", symbol: "@
            + self.symbol.shown()
            + " }"@
    }

    fn show(&self) -> (result: String) {
        let mut out = "SymbolLocator { qualified_name: ".to_owned();
        push(&mut out, self.qualified_name.show().as_str());
        push(&mut out, ", symbol: ");
        push(&mut out, self.symbol.show().as_str());
        push(&mut out, " }");
        out
    }
}

impl Shown for ResolvedDependencyIdentity {
    open spec fn shown(&self) -> Seq<char> {
        "ResolvedDependencyIdentity { identity_version: "@
            + self.identity_version.shown()
            + ", ecosystem: "@
            + self.ecosystem.shown()
            + ", canonical_coordinate: "@
            + self.canonical_coordinate.shown()
            + ", resolved_version: "@
            + self.resolved_version.shown()
            + ", content: "@
            + self.content.shown()
            + ", context: "@
            + self.context.shown()
            + ", provenance: "@
            + self.provenance.shown()
            + ", canonical_schema_version: "@
            + self.canonical_schema_version.shown()
            + ", blob_format_version: "@
            + self.blob_format_version.shown()
            + " }"@
    }

    fn show(&self) -> (result: String) {
        let mut out = "ResolvedDependencyIdentity { identity_version: ".to_owned();
        push(&mut out, self.identity_version.show().as_str());
        push(&mut out, ", ecosystem: ");
        push(&mut out, self.ecosystem.show().as_str());
        push(&mut out, ", canonical_coordinate: ");
        push(&mut out, self.canonical_coordinate.show().as_str());
        push(&mut out, ", resolved_version: ");
        push(&mut out, self.resolved_version.show().as_str());
        push(&mut out, ", content: ");
        push(&mut out, self.content.show().as_str());
        push(&mut out, ", context: ");
        push(&mut out, self.context.show().as_str());
        push(&mut out, ", provenance: ");
        push(&mut out, self.provenance.show().as_str());
        push(&mut out, ", canonical_schema_version: ");
        push(&mut out, self.canonical_schema_version.show().as_str());
        push(&mut out, ", blob_format_version: ");
        push(&mut out, self.blob_format_version.show().as_str());
        push(&mut out, " }");
        out
    }
}

impl Shown for ArtifactDescriptor {
    open spec fn shown(&self) -> Seq<char> {
        "ArtifactDescriptor { source_unit: "@
            + self.source_unit.shown()
            + ", provenance: "@
            + self.provenance.shown()
            + ", resolved_identity: "@
            + self.resolved_identity.shown()
            + ", symbol_locators: "@
            + self.symbol_locators.shown()
            + " }"@
    }

    fn show(&self) -> (result: String) {
        let mut out = "ArtifactDescriptor { source_unit: ".to_owned();
        push(&mut out, self.source_unit.show().as_str());
        push(&mut out, ", provenance: ");
        push(&mut out, self.provenance.show().as_str());
        push(&mut out, ", resolved_identity: ");
        push(&mut out, self.resolved_identity.show().as_str());
        push(&mut out, ", symbol_locators: ");
        push(&mut out, self.symbol_locators.show().as_str());
        push(&mut out, " }");
        out
    }
}

impl Shown for ArtifactLocator {
    open spec fn shown(&self) -> Seq<char> {
        "ArtifactLocator { source_unit: "@
            + self.source_unit.shown()
            + ", locator: "@
            + self.locator.shown()
            + " }"@
    }

    fn show(&self) -> (result: String) {
        let mut out = "ArtifactLocator { source_unit: ".to_owned();
        push(&mut out, self.source_unit.show().as_str());
        push(&mut out, ", locator: ");
        push(&mut out, self.locator.show().as_str());
        push(&mut out, " }");
        out
    }
}

impl Shown for PhaseTiming {
    open spec fn shown(&self) -> Seq<char> {
        "PhaseTiming { phase: "@
            + self.phase.shown()
            + ", elapsed_millis: "@
            + self.elapsed_millis.shown()
            + " }"@
    }

    fn show(&self) -> (result: String) {
        let mut out = "PhaseTiming { phase: ".to_owned();
        push(&mut out, self.phase.show().as_str());
        push(&mut out, ", elapsed_millis: ");
        push(&mut out, self.elapsed_millis.show().as_str());
        push(&mut out, " }");
        out
    }
}

impl Shown for WorkerMetric {
    open spec fn shown(&self) -> Seq<char> {
        "WorkerMetric { name: "@
            + self.name.shown()
            + ", value: "@
            + self.value.shown()
            + " }"@
    }

    fn show(&self) -> (result: String) {
        let mut out = "WorkerMetric { name: ".to_owned();
        push(&mut out, self.name.show().as_str());
        push(&mut out, ", value: ");
        push(&mut out, self.value.show().as_str());
        push(&mut out, " }");
        out
    }
}

impl Shown for ArtifactCandidate {
    open spec fn shown(&self) -> Seq<char> {
        "ArtifactCandidate { locator: "@
            + self.locator.shown()
            + ", component: "@
            + self.component.shown()
            + ", context: "@
            + self.context.shown()
            + " }"@
    }

    fn show(&self) -> (result: String) {
        let mut out = "ArtifactCandidate { locator: ".to_owned();
        push(&mut out, self.locator.show().as_str());
        push(&mut out, ", component: ");
        push(&mut out, self.component.show().as_str());
        push(&mut out, ", context: ");
        push(&mut out, self.context.show().as_str());
        push(&mut out, " }");
        out
    }
}

impl Shown for ArtifactAnalysisRequest {
    open spec fn shown(&self) -> Seq<char> {
        "ArtifactAnalysisRequest { workspace_root: "@
            + self.workspace_root.shown()
            + ", max_artifacts: "@
            + self.max_artifacts.shown()
            + ", cursor: "@
            + self.cursor.shown()
            + " }"@
    }

    fn show(&self) -> (result: String) {
        let mut out = "ArtifactAnalysisRequest { workspace_root: ".to_owned();
        push(&mut out, self.workspace_root.show().as_str());
        push(&mut out, ", max_artifacts: ");
        push(&mut out, self.max_artifacts.show().as_str());
        push(&mut out, ", cursor: ");
        push(&mut out, self.cursor.show().as_str());
        push(&mut out, " }");
        out
    }
}

impl Shown for ArtifactAnalysisResponse {
    open spec fn shown(&self) -> Seq<char> {
        "ArtifactAnalysisResponse { snapshots: "@
            + self.snapshots.shown()
            + ", next_cursor: "@
            + self.next_cursor.shown()
            + " }"@
    }

    fn show(&self) -> (result: String) {
        let mut out = "ArtifactAnalysisResponse { snapshots: ".to_owned();
        push(&mut out, self.snapshots.show().as_str());
        push(&mut out, ", next_cursor: ");
        push(&mut out, self.next_cursor.show().as_str());
        push(&mut out, " }");
        out
    }
}

impl Shown for ArtifactDiscoveryRequest {
    open spec fn shown(&self) -> Seq<char> {
        "ArtifactDiscoveryRequest { workspace_root: "@
            + self.workspace_root.shown()
            + ", max_artifacts: "@
            + self.max_artifacts.shown()
            + ", cursor: "@
            + self.cursor.shown()
            + ", execution_plan: "@
            + self.execution_plan.shown()
            + " }"@
    }

    fn show(&self) -> (result: String) {
        let mut out = "ArtifactDiscoveryRequest { workspace_root: ".to_owned();
        push(&mut out, self.workspace_root.show().as_str());
        push(&mut out, ", max_artifacts: ");
        push(&mut out, self.max_artifacts.show().as_str());
        push(&mut out, ", cursor: ");
        push(&mut out, self.cursor.show().as_str());
        push(&mut out, ", execution_plan: ");
        push(&mut out, self.execution_plan.show().as_str());
        push(&mut out, " }");
        out
    }
}

impl Shown for ArtifactDiscoveryResponse {
    open spec fn shown(&self) -> Seq<char> {
        "ArtifactDiscoveryResponse { artifacts: "@
            + self.artifacts.shown()
            + ", artifact_locators: "@
            + self.artifact_locators.shown()
            + ", next_cursor: "@
            + self.next_cursor.shown()
            + " }"@
    }

    fn show(&self) -> (result: String) {
        let mut out = "ArtifactDiscoveryResponse { artifacts: ".to_owned();
        push(&mut out, self.artifacts.show().as_str());
        push(&mut out, ", artifact_locators: ");
        push(&mut out, self.artifact_locators.show().as_str());
        push(&mut out, ", next_cursor: ");
        push(&mut out, self.next_cursor.show().as_str());
        push(&mut out, " }");
        out
    }
}

impl Shown for ArtifactMaterializationRequest {
    open spec fn shown(&self) -> Seq<char> {
        "ArtifactMaterializationRequest { workspace_root: "@
            + self.workspace_root.shown()
            + ", artifact: "@
            + self.artifact.shown()
            + ", staging_directory: "@
            + self.staging_directory.shown()
            + ", blob_format_version: "@
            + self.blob_format_version.shown()
            + ", artifact_locator: "@
            + self.artifact_locator.shown()
            + " }"@
    }

    fn show(&self) -> (result: String) {
        let mut out = "ArtifactMaterializationRequest { workspace_root: ".to_owned();
        push(&mut out, self.workspace_root.show().as_str());
        push(&mut out, ", artifact: ");
        push(&mut out, self.artifact.show().as_str());
        push(&mut out, ", staging_directory: ");
        push(&mut out, self.staging_directory.show().as_str());
        push(&mut out, ", blob_format_version: ");
        push(&mut out, self.blob_format_version.show().as_str());
        push(&mut out, ", artifact_locator: ");
        push(&mut out, self.artifact_locator.show().as_str());
        push(&mut out, " }");
        out
    }
}

impl Shown for ArtifactMaterializationResponse {
    open spec fn shown(&self) -> Seq<char> {
        "ArtifactMaterializationResponse { staged_filename: "@
            + self.staged_filename.shown()
            + ", byte_length: "@
            + self.byte_length.shown()
            + ", sha256: "@
            + self.sha256.shown()
            + ", blob_format_version: "@
            + self.blob_format_version.shown()
            + ", timings: "@
            + self.timings.shown()
            + ", metrics: "@
            + self.metrics.shown()
            + " }"@
    }

    fn show(&self) -> (result: String) {
        let mut out = "ArtifactMaterializationResponse { staged_filename: ".to_owned();
        push(&mut out, self.staged_filename.show().as_str());
        push(&mut out, ", byte_length: ");
        push(&mut out, self.byte_length.show().as_str());
        push(&mut out, ", sha256: ");
        push(&mut out, self.sha256.show().as_str());
        push(&mut out, ", blob_format_version: ");
        push(&mut out, self.blob_format_version.show().as_str());
        push(&mut out, ", timings: ");
        push(&mut out, self.timings.show().as_str());
        push(&mut out, ", metrics: ");
        push(&mut out, self.metrics.show().as_str());
        push(&mut out, " }");
        out
    }
}

impl Shown for SemanticQueryParameterType {
    open spec fn shown(&self) -> Seq<char> {
        match self {
            SemanticQueryParameterType::SymbolId => "SymbolId"@,
            SemanticQueryParameterType::ComponentId => "ComponentId"@,
            SemanticQueryParameterType::String => "String"@,
            SemanticQueryParameterType::Integer => "Integer"@,
        }
    }

    fn show(&self) -> (result: String) {
        match self {
            SemanticQueryParameterType::SymbolId => "SymbolId".to_owned(),
            SemanticQueryParameterType::ComponentId => "ComponentId".to_owned(),
            SemanticQueryParameterType::String => "String".to_owned(),
            SemanticQueryParameterType::Integer => "Integer".to_owned(),
        }
    }
}

impl Shown for SemanticQueryParameter {
    open spec fn shown(&self) -> Seq<char> {
        "SemanticQueryParameter { name: "@
            + self.name.shown()
            + ", ty: "@
            + self.ty.shown()
            + ", required: "@
            + self.required.shown()
            + " }"@
    }

    fn show(&self) -> (result: String) {
        let mut out = "SemanticQueryParameter { name: ".to_owned();
        push(&mut out, self.name.show().as_str());
        push(&mut out, ", ty: ");
        push(&mut out, self.ty.show().as_str());
        push(&mut out, ", required: ");
        push(&mut out, self.required.show().as_str());
        push(&mut out, " }");
        out
    }
}

impl Shown for SemanticQueryResultKind {
    open spec fn shown(&self) -> Seq<char> {
        match self {
            SemanticQueryResultKind::CandidateSymbols => "CandidateSymbols"@,
            SemanticQueryResultKind::NormalizedFacts => "NormalizedFacts"@,
        }
    }

    fn show(&self) -> (result: String) {
        match self {
            SemanticQueryResultKind::CandidateSymbols => "CandidateSymbols".to_owned(),
            SemanticQueryResultKind::NormalizedFacts => "NormalizedFacts".to_owned(),
        }
    }
}

impl Shown for SemanticQueryCapability {
    open spec fn shown(&self) -> Seq<char> {
        "SemanticQueryCapability { name: "@
            + self.name.shown()
            + ", version: "@
            + self.version.shown()
            + ", parameters: "@
            + self.parameters.shown()
            + ", result: "@
            + self.result.shown()
            + " }"@
    }

    fn show(&self) -> (result: String) {
        let mut out = "SemanticQueryCapability { name: ".to_owned();
        push(&mut out, self.name.show().as_str());
        push(&mut out, ", version: ");
        push(&mut out, self.version.show().as_str());
        push(&mut out, ", parameters: ");
        push(&mut out, self.parameters.show().as_str());
        push(&mut out, ", result: ");
        push(&mut out, self.result.show().as_str());
        push(&mut out, " }");
        out
    }
}

impl Shown for SemanticQueryArgumentValue {
    open spec fn shown(&self) -> Seq<char> {
        match self {
            SemanticQueryArgumentValue::SymbolId(value) => "SymbolId("@ + value.shown() + ")"@,
            SemanticQueryArgumentValue::ComponentId(value) => "ComponentId("@ + value.shown() + ")"@,
            SemanticQueryArgumentValue::String(value) => "String("@ + value.shown() + ")"@,
            SemanticQueryArgumentValue::Integer(value) => "Integer("@ + value.shown() + ")"@,
        }
    }

    fn show(&self) -> (result: String) {
        match self {
            SemanticQueryArgumentValue::SymbolId(value) => {
                let mut out = "SymbolId(".to_owned();
                push(&mut out, value.show().as_str());
                push(&mut out, ")");
                out
            },
            SemanticQueryArgumentValue::ComponentId(value) => {
                let mut out = "ComponentId(".to_owned();
                push(&mut out, value.show().as_str());
                push(&mut out, ")");
                out
            },
            SemanticQueryArgumentValue::String(value) => {
                let mut out = "String(".to_owned();
                push(&mut out, value.show().as_str());
                push(&mut out, ")");
                out
            },
            SemanticQueryArgumentValue::Integer(value) => {
                let mut out = "Integer(".to_owned();
                push(&mut out, value.show().as_str());
                push(&mut out, ")");
                out
            },
        }
    }
}

impl Shown for SemanticQueryArgument {
    open spec fn shown(&self) -> Seq<char> {
        "SemanticQueryArgument { name: "@
            + self.name.shown()
            + ", value: "@
            + self.value.shown()
            + " }"@
    }

    fn show(&self) -> (result: String) {
        let mut out = "SemanticQueryArgument { name: ".to_owned();
        push(&mut out, self.name.show().as_str());
        push(&mut out, ", value: ");
        push(&mut out, self.value.show().as_str());
        push(&mut out, " }");
        out
    }
}

impl Shown for SemanticQueryBudget {
    open spec fn shown(&self) -> Seq<char> {
        "SemanticQueryBudget { max_candidates: "@
            + self.max_candidates.shown()
            + ", max_nodes: "@
            + self.max_nodes.shown()
            + ", max_bytes: "@
            + self.max_bytes.shown()
            + ", deadline_millis: "@
            + self.deadline_millis.shown()
            + " }"@
    }

    fn show(&self) -> (result: String) {
        let mut out = "SemanticQueryBudget { max_candidates: ".to_owned();
        push(&mut out, self.max_candidates.show().as_str());
        push(&mut out, ", max_nodes: ");
        push(&mut out, self.max_nodes.show().as_str());
        push(&mut out, ", max_bytes: ");
        push(&mut out, self.max_bytes.show().as_str());
        push(&mut out, ", deadline_millis: ");
        push(&mut out, self.deadline_millis.show().as_str());
        push(&mut out, " }");
        out
    }
}

impl Shown for SemanticQueryRequest {
    open spec fn shown(&self) -> Seq<char> {
        "SemanticQueryRequest { capability_name: "@
            + self.capability_name.shown()
            + ", capability_version: "@
            + self.capability_version.shown()
            + ", arguments: "@
            + self.arguments.shown()
            + ", candidate_symbols: "@
            + self.candidate_symbols.shown()
            + ", candidate_source_units: "@
            + self.candidate_source_units.shown()
            + ", budget: "@
            + self.budget.shown()
            + " }"@
    }

    fn show(&self) -> (result: String) {
        let mut out = "SemanticQueryRequest { capability_name: ".to_owned();
        push(&mut out, self.capability_name.show().as_str());
        push(&mut out, ", capability_version: ");
        push(&mut out, self.capability_version.show().as_str());
        push(&mut out, ", arguments: ");
        push(&mut out, self.arguments.show().as_str());
        push(&mut out, ", candidate_symbols: ");
        push(&mut out, self.candidate_symbols.show().as_str());
        push(&mut out, ", candidate_source_units: ");
        push(&mut out, self.candidate_source_units.show().as_str());
        push(&mut out, ", budget: ");
        push(&mut out, self.budget.show().as_str());
        push(&mut out, " }");
        out
    }
}

impl Shown for SemanticQueryResponseState {
    open spec fn shown(&self) -> Seq<char> {
        match self {
            SemanticQueryResponseState::Complete => "Complete"@,
            SemanticQueryResponseState::Partial => "Partial"@,
            SemanticQueryResponseState::Unsupported => "Unsupported"@,
        }
    }

    fn show(&self) -> (result: String) {
        match self {
            SemanticQueryResponseState::Complete => "Complete".to_owned(),
            SemanticQueryResponseState::Partial => "Partial".to_owned(),
            SemanticQueryResponseState::Unsupported => "Unsupported".to_owned(),
        }
    }
}

impl Shown for SemanticQueryResponse {
    open spec fn shown(&self) -> Seq<char> {
        "SemanticQueryResponse { capability_name: "@
            + self.capability_name.shown()
            + ", capability_version: "@
            + self.capability_version.shown()
            + ", state: "@
            + self.state.shown()
            + ", candidate_symbols: "@
            + self.candidate_symbols.shown()
            + ", snapshots: "@
            + self.snapshots.shown()
            + ", provenance: "@
            + self.provenance.shown()
            + ", visited_nodes: "@
            + self.visited_nodes.shown()
            + ", produced_bytes: "@
            + self.produced_bytes.shown()
            + " }"@
    }

    fn show(&self) -> (result: String) {
        let mut out = "SemanticQueryResponse { capability_name: ".to_owned();
        push(&mut out, self.capability_name.show().as_str());
        push(&mut out, ", capability_version: ");
        push(&mut out, self.capability_version.show().as_str());
        push(&mut out, ", state: ");
        push(&mut out, self.state.show().as_str());
        push(&mut out, ", candidate_symbols: ");
        push(&mut out, self.candidate_symbols.show().as_str());
        push(&mut out, ", snapshots: ");
        push(&mut out, self.snapshots.show().as_str());
        push(&mut out, ", provenance: ");
        push(&mut out, self.provenance.show().as_str());
        push(&mut out, ", visited_nodes: ");
        push(&mut out, self.visited_nodes.show().as_str());
        push(&mut out, ", produced_bytes: ");
        push(&mut out, self.produced_bytes.show().as_str());
        push(&mut out, " }");
        out
    }
}

impl Shown for ArtifactBlobSectionKind {
    open spec fn shown(&self) -> Seq<char> {
        match self {
            ArtifactBlobSectionKind::SymbolDictionary => "SymbolDictionary"@,
            ArtifactBlobSectionKind::SymbolPostings => "SymbolPostings"@,
            ArtifactBlobSectionKind::HierarchyPostings => "HierarchyPostings"@,
            ArtifactBlobSectionKind::QualifiedSymbolDirectory => "QualifiedSymbolDirectory"@,
            ArtifactBlobSectionKind::GraphFacts => "GraphFacts"@,
            ArtifactBlobSectionKind::SymbolDetailBlock => "SymbolDetailBlock"@,
        }
    }

    fn show(&self) -> (result: String) {
        match self {
            ArtifactBlobSectionKind::SymbolDictionary => "SymbolDictionary".to_owned(),
            ArtifactBlobSectionKind::SymbolPostings => "SymbolPostings".to_owned(),
            ArtifactBlobSectionKind::HierarchyPostings => "HierarchyPostings".to_owned(),
            ArtifactBlobSectionKind::QualifiedSymbolDirectory => "QualifiedSymbolDirectory".to_owned(),
            ArtifactBlobSectionKind::GraphFacts => "GraphFacts".to_owned(),
            ArtifactBlobSectionKind::SymbolDetailBlock => "SymbolDetailBlock".to_owned(),
        }
    }
}

impl Shown for WorkerErrorCode {
    open spec fn shown(&self) -> Seq<char> {
        match self {
            WorkerErrorCode::IncompatibleProtocolVersion => "IncompatibleProtocolVersion"@,
            WorkerErrorCode::InvalidRequest => "InvalidRequest"@,
            WorkerErrorCode::UnsupportedCapability => "UnsupportedCapability"@,
            WorkerErrorCode::AnalysisFailed => "AnalysisFailed"@,
            WorkerErrorCode::Internal => "Internal"@,
        }
    }

    fn show(&self) -> (result: String) {
        match self {
            WorkerErrorCode::IncompatibleProtocolVersion => "IncompatibleProtocolVersion".to_owned(),
            WorkerErrorCode::InvalidRequest => "InvalidRequest".to_owned(),
            WorkerErrorCode::UnsupportedCapability => "UnsupportedCapability".to_owned(),
            WorkerErrorCode::AnalysisFailed => "AnalysisFailed".to_owned(),
            WorkerErrorCode::Internal => "Internal".to_owned(),
        }
    }
}

impl Shown for WorkerError {
    open spec fn shown(&self) -> Seq<char> {
        "WorkerError { code: "@
            + self.code.shown()
            + ", message: "@
            + self.message.shown()
            + ", retryable: "@
            + self.retryable.shown()
            + ", supported_protocol_version: "@
            + self.supported_protocol_version.shown()
            + ", received_protocol_version: "@
            + self.received_protocol_version.shown()
            + " }"@
    }

    fn show(&self) -> (result: String) {
        let mut out = "WorkerError { code: ".to_owned();
        push(&mut out, self.code.show().as_str());
        push(&mut out, ", message: ");
        push(&mut out, self.message.show().as_str());
        push(&mut out, ", retryable: ");
        push(&mut out, self.retryable.show().as_str());
        push(&mut out, ", supported_protocol_version: ");
        push(&mut out, self.supported_protocol_version.show().as_str());
        push(&mut out, ", received_protocol_version: ");
        push(&mut out, self.received_protocol_version.show().as_str());
        push(&mut out, " }");
        out
    }
}

impl Shown for WorkerMessage {
    open spec fn shown(&self) -> Seq<char> {
        match self {
            WorkerMessage::HandshakeRequest(value) => "HandshakeRequest("@ + value.shown() + ")"@,
            WorkerMessage::HandshakeResponse(value) => "HandshakeResponse("@ + value.shown() + ")"@,
            WorkerMessage::ProjectManifestRequest(value) => "ProjectManifestRequest("@ + value.shown() + ")"@,
            WorkerMessage::ProjectManifestResponse(value) => "ProjectManifestResponse("@ + value.shown() + ")"@,
            WorkerMessage::AnalyzeBatchRequest(value) => "AnalyzeBatchRequest("@ + value.shown() + ")"@,
            WorkerMessage::AnalysisBatchResponse(value) => "AnalysisBatchResponse("@ + value.shown() + ")"@,
            WorkerMessage::AnalysisDelta(value) => "AnalysisDelta("@ + value.shown() + ")"@,
            WorkerMessage::ArtifactAnalysisRequest(value) => "ArtifactAnalysisRequest("@ + value.shown() + ")"@,
            WorkerMessage::ArtifactAnalysisResponse(value) => "ArtifactAnalysisResponse("@ + value.shown() + ")"@,
            WorkerMessage::ArtifactDiscoveryRequest(value) => "ArtifactDiscoveryRequest("@ + value.shown() + ")"@,
            WorkerMessage::ArtifactDiscoveryResponse(value) => "ArtifactDiscoveryResponse("@ + value.shown() + ")"@,
            WorkerMessage::ArtifactMaterializationRequest(value) => "ArtifactMaterializationRequest("@ + value.shown() + ")"@,
            WorkerMessage::ArtifactMaterializationResponse(value) => "ArtifactMaterializationResponse("@ + value.shown() + ")"@,
            WorkerMessage::SemanticQueryRequest(value) => "SemanticQueryRequest("@ + value.shown() + ")"@,
            WorkerMessage::SemanticQueryResponse(value) => "SemanticQueryResponse("@ + value.shown() + ")"@,
            WorkerMessage::Error(value) => "Error("@ + value.shown() + ")"@,
        }
    }

    fn show(&self) -> (result: String) {
        match self {
            WorkerMessage::HandshakeRequest(value) => {
                let mut out = "HandshakeRequest(".to_owned();
                push(&mut out, value.show().as_str());
                push(&mut out, ")");
                out
            },
            WorkerMessage::HandshakeResponse(value) => {
                let mut out = "HandshakeResponse(".to_owned();
                push(&mut out, value.show().as_str());
                push(&mut out, ")");
                out
            },
            WorkerMessage::ProjectManifestRequest(value) => {
                let mut out = "ProjectManifestRequest(".to_owned();
                push(&mut out, value.show().as_str());
                push(&mut out, ")");
                out
            },
            WorkerMessage::ProjectManifestResponse(value) => {
                let mut out = "ProjectManifestResponse(".to_owned();
                push(&mut out, value.show().as_str());
                push(&mut out, ")");
                out
            },
            WorkerMessage::AnalyzeBatchRequest(value) => {
                let mut out = "AnalyzeBatchRequest(".to_owned();
                push(&mut out, value.show().as_str());
                push(&mut out, ")");
                out
            },
            WorkerMessage::AnalysisBatchResponse(value) => {
                let mut out = "AnalysisBatchResponse(".to_owned();
                push(&mut out, value.show().as_str());
                push(&mut out, ")");
                out
            },
            WorkerMessage::AnalysisDelta(value) => {
                let mut out = "AnalysisDelta(".to_owned();
                push(&mut out, value.show().as_str());
                push(&mut out, ")");
                out
            },
            WorkerMessage::ArtifactAnalysisRequest(value) => {
                let mut out = "ArtifactAnalysisRequest(".to_owned();
                push(&mut out, value.show().as_str());
                push(&mut out, ")");
                out
            },
            WorkerMessage::ArtifactAnalysisResponse(value) => {
                let mut out = "ArtifactAnalysisResponse(".to_owned();
                push(&mut out, value.show().as_str());
                push(&mut out, ")");
                out
            },
            WorkerMessage::ArtifactDiscoveryRequest(value) => {
                let mut out = "ArtifactDiscoveryRequest(".to_owned();
                push(&mut out, value.show().as_str());
                push(&mut out, ")");
                out
            },
            WorkerMessage::ArtifactDiscoveryResponse(value) => {
                let mut out = "ArtifactDiscoveryResponse(".to_owned();
                push(&mut out, value.show().as_str());
                push(&mut out, ")");
                out
            },
            WorkerMessage::ArtifactMaterializationRequest(value) => {
                let mut out = "ArtifactMaterializationRequest(".to_owned();
                push(&mut out, value.show().as_str());
                push(&mut out, ")");
                out
            },
            WorkerMessage::ArtifactMaterializationResponse(value) => {
                let mut out = "ArtifactMaterializationResponse(".to_owned();
                push(&mut out, value.show().as_str());
                push(&mut out, ")");
                out
            },
            WorkerMessage::SemanticQueryRequest(value) => {
                let mut out = "SemanticQueryRequest(".to_owned();
                push(&mut out, value.show().as_str());
                push(&mut out, ")");
                out
            },
            WorkerMessage::SemanticQueryResponse(value) => {
                let mut out = "SemanticQueryResponse(".to_owned();
                push(&mut out, value.show().as_str());
                push(&mut out, ")");
                out
            },
            WorkerMessage::Error(value) => {
                let mut out = "Error(".to_owned();
                push(&mut out, value.show().as_str());
                push(&mut out, ")");
                out
            },
        }
    }
}

} // verus!
