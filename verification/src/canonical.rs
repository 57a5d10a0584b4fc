//! The canonical fact model: identities, source units and the graph records
//! that language workers report.

use vstd::prelude::*;

use crate::text::IntoText;

verus! {

/// The schema version of every canonical record.
pub const CANONICAL_SCHEMA_VERSION: u32 = 1;

/// The on-disk format version of the persistent index.
pub const INDEX_FORMAT_VERSION: u32 = 4;

/// An opaque, backend-independent identity for a workspace.
#[derive(Debug, PartialEq, Eq, PartialOrd, Ord, Hash)]
pub struct WorkspaceId(String);

impl View for WorkspaceId {
    type V = Seq<char>;

    closed spec fn view(&self) -> Seq<char> {
        self.0@
    }
}

impl Clone for WorkspaceId {
    fn clone(&self) -> (result: Self)
        ensures
            result == *self,
    {
        WorkspaceId(self.0.clone())
    }
}

impl WorkspaceId {
    /// Takes the value as it is.
    pub fn new<T: IntoText>(value: T) -> (result: Self)
        ensures
            result@ == value.text(),
    {
        WorkspaceId(value.into_text())
    }

    /// The value as it was given.
    pub fn as_str(&self) -> (result: &str)
        ensures
            result@ == self@,
    {
        self.0.as_str()
    }

    /// Whether both hold the same value.
    pub fn same(&self, other: &Self) -> (result: bool)
        ensures
            result == (self@ == other@),
    {
        self.0 == other.0
    }
}

/// An opaque identity for a build component, such as a Gradle source set or a
/// Cargo package. It never encodes the semantics of one build system.
#[derive(Debug, PartialEq, Eq, PartialOrd, Ord, Hash)]
pub struct ComponentId(String);

impl View for ComponentId {
    type V = Seq<char>;

    closed spec fn view(&self) -> Seq<char> {
        self.0@
    }
}

impl Clone for ComponentId {
    fn clone(&self) -> (result: Self)
        ensures
            result == *self,
    {
        ComponentId(self.0.clone())
    }
}

impl ComponentId {
    /// Takes the value as it is.
    pub fn new<T: IntoText>(value: T) -> (result: Self)
        ensures
            result@ == value.text(),
    {
        ComponentId(value.into_text())
    }

    /// The value as it was given.
    pub fn as_str(&self) -> (result: &str)
        ensures
            result@ == self@,
    {
        self.0.as_str()
    }

    /// Whether both hold the same value.
    pub fn same(&self, other: &Self) -> (result: bool)
        ensures
            result == (self@ == other@),
    {
        self.0 == other.0
    }
}

/// An opaque identity for one indexed source unit.
#[derive(Debug, PartialEq, Eq, PartialOrd, Ord, Hash)]
pub struct SourceUnitId(String);

impl View for SourceUnitId {
    type V = Seq<char>;

    closed spec fn view(&self) -> Seq<char> {
        self.0@
    }
}

impl Clone for SourceUnitId {
    fn clone(&self) -> (result: Self)
        ensures
            result == *self,
    {
        SourceUnitId(self.0.clone())
    }
}

impl SourceUnitId {
    /// Takes the value as it is.
    pub fn new<T: IntoText>(value: T) -> (result: Self)
        ensures
            result@ == value.text(),
    {
        SourceUnitId(value.into_text())
    }

    /// The value as it was given.
    pub fn as_str(&self) -> (result: &str)
        ensures
            result@ == self@,
    {
        self.0.as_str()
    }

    /// Whether both hold the same value.
    pub fn same(&self, other: &Self) -> (result: bool)
        ensures
            result == (self@ == other@),
    {
        self.0 == other.0
    }
}

/// An opaque identity for a semantic symbol.
#[derive(Debug, PartialEq, Eq, PartialOrd, Ord, Hash)]
pub struct SymbolId(String);

impl View for SymbolId {
    type V = Seq<char>;

    closed spec fn view(&self) -> Seq<char> {
        self.0@
    }
}

impl Clone for SymbolId {
    fn clone(&self) -> (result: Self)
        ensures
            result == *self,
    {
        SymbolId(self.0.clone())
    }
}

impl SymbolId {
    /// Takes the value as it is.
    pub fn new<T: IntoText>(value: T) -> (result: Self)
        ensures
            result@ == value.text(),
    {
        SymbolId(value.into_text())
    }

    /// The value as it was given.
    pub fn as_str(&self) -> (result: &str)
        ensures
            result@ == self@,
    {
        self.0.as_str()
    }

    /// Whether both hold the same value.
    pub fn same(&self, other: &Self) -> (result: bool)
        ensures
            result == (self@ == other@),
    {
        self.0 == other.0
    }
}

/// An opaque identity for a normalized type record.
#[derive(Debug, PartialEq, Eq, PartialOrd, Ord, Hash)]
pub struct TypeId(String);

impl View for TypeId {
    type V = Seq<char>;

    closed spec fn view(&self) -> Seq<char> {
        self.0@
    }
}

impl Clone for TypeId {
    fn clone(&self) -> (result: Self)
        ensures
            result == *self,
    {
        TypeId(self.0.clone())
    }
}

impl TypeId {
    /// Takes the value as it is.
    pub fn new<T: IntoText>(value: T) -> (result: Self)
        ensures
            result@ == value.text(),
    {
        TypeId(value.into_text())
    }

    /// The value as it was given.
    pub fn as_str(&self) -> (result: &str)
        ensures
            result@ == self@,
    {
        self.0.as_str()
    }

    /// Whether both hold the same value.
    pub fn same(&self, other: &Self) -> (result: bool)
        ensures
            result == (self@ == other@),
    {
        self.0 == other.0
    }
}

/// A slash-separated path relative to the workspace root.
///
/// Absolute paths, `.` segments, and paths escaping through `..` are rejected
/// before a value is made; this type records the normalized result.
#[derive(Debug, PartialEq, Eq, PartialOrd, Ord, Hash)]
pub struct WorkspacePath(String);

impl View for WorkspacePath {
    type V = Seq<char>;

    closed spec fn view(&self) -> Seq<char> {
        self.0@
    }
}

impl Clone for WorkspacePath {
    fn clone(&self) -> (result: Self)
        ensures
            result == *self,
    {
        WorkspacePath(self.0.clone())
    }
}

impl WorkspacePath {
    /// Takes the value as it is.
    pub fn new<T: IntoText>(value: T) -> (result: Self)
        ensures
            result@ == value.text(),
    {
        WorkspacePath(value.into_text())
    }

    /// The value as it was given.
    pub fn as_str(&self) -> (result: &str)
        ensures
            result@ == self@,
    {
        self.0.as_str()
    }

    /// Whether both hold the same value.
    pub fn same(&self, other: &Self) -> (result: bool)
        ensures
            result == (self@ == other@),
    {
        self.0 == other.0
    }
}

/// A hash encoded as `<algorithm>:<lowercase-hex>`.
#[derive(Debug, PartialEq, Eq, PartialOrd, Ord, Hash)]
pub struct Fingerprint(String);

impl View for Fingerprint {
    type V = Seq<char>;

    closed spec fn view(&self) -> Seq<char> {
        self.0@
    }
}

impl Clone for Fingerprint {
    fn clone(&self) -> (result: Self)
        ensures
            result == *self,
    {
        Fingerprint(self.0.clone())
    }
}

impl Fingerprint {
    /// Takes the value as it is.
    pub fn new<T: IntoText>(value: T) -> (result: Self)
        ensures
            result@ == value.text(),
    {
        Fingerprint(value.into_text())
    }

    /// The value as it was given.
    pub fn as_str(&self) -> (result: &str)
        ensures
            result@ == self@,
    {
        self.0.as_str()
    }

    /// Whether both hold the same value.
    pub fn same(&self, other: &Self) -> (result: bool)
        ensures
            result == (self@ == other@),
    {
        self.0 == other.0
    }
}

/// Language selected for a source unit or fact set.
#[derive(Debug, PartialEq, Eq, Hash)]
pub enum Language {
    Kotlin,
    Java,
    Rust,
    TypeScript,
    Other(String),
}

/// What a `Language` says.
pub enum LanguageValue {
    Kotlin,
    Java,
    Rust,
    TypeScript,
    Other(Seq<char>),
}

impl View for Language {
    type V = LanguageValue;

    open spec fn view(&self) -> LanguageValue {
        match self {
            Language::Kotlin => LanguageValue::Kotlin,
            Language::Java => LanguageValue::Java,
            Language::Rust => LanguageValue::Rust,
            Language::TypeScript => LanguageValue::TypeScript,
            Language::Other(value) => LanguageValue::Other(value@),
        }
    }
}

impl Clone for Language {
    fn clone(&self) -> (result: Self)
        ensures
            result == *self,
    {
        match self {
            Language::Kotlin => Language::Kotlin,
            Language::Java => Language::Java,
            Language::Rust => Language::Rust,
            Language::TypeScript => Language::TypeScript,
            Language::Other(value) => Language::Other(value.clone()),
        }
    }
}

impl Language {
    /// Whether both say the same.
    pub fn same(&self, other: &Self) -> (result: bool)
        ensures
            result == (self@ == other@),
    {
        match (self, other) {
            (Language::Kotlin, Language::Kotlin) => true,
            (Language::Java, Language::Java) => true,
            (Language::Rust, Language::Rust) => true,
            (Language::TypeScript, Language::TypeScript) => true,
            (Language::Other(a), Language::Other(b)) => *a == *b,
            _ => false,
        }
    }
}

/// Input system that produced a component graph.
#[derive(Debug, PartialEq, Eq, Hash)]
pub enum BuildSystem {
    Gradle,
    Maven,
    Cargo,
    Npm,
    Bazel,
    Filesystem,
    Other(String),
}

/// What a `BuildSystem` says.
pub enum BuildSystemView {
    Gradle,
    Maven,
    Cargo,
    Npm,
    Bazel,
    Filesystem,
    Other(Seq<char>),
}

impl View for BuildSystem {
    type V = BuildSystemView;

    open spec fn view(&self) -> BuildSystemView {
        match self {
            BuildSystem::Gradle => BuildSystemView::Gradle,
            BuildSystem::Maven => BuildSystemView::Maven,
            BuildSystem::Cargo => BuildSystemView::Cargo,
            BuildSystem::Npm => BuildSystemView::Npm,
            BuildSystem::Bazel => BuildSystemView::Bazel,
            BuildSystem::Filesystem => BuildSystemView::Filesystem,
            BuildSystem::Other(value) => BuildSystemView::Other(value@),
        }
    }
}

impl Clone for BuildSystem {
    fn clone(&self) -> (result: Self)
        ensures
            result == *self,
    {
        match self {
            BuildSystem::Gradle => BuildSystem::Gradle,
            BuildSystem::Maven => BuildSystem::Maven,
            BuildSystem::Cargo => BuildSystem::Cargo,
            BuildSystem::Npm => BuildSystem::Npm,
            BuildSystem::Bazel => BuildSystem::Bazel,
            BuildSystem::Filesystem => BuildSystem::Filesystem,
            BuildSystem::Other(value) => BuildSystem::Other(value.clone()),
        }
    }
}

impl BuildSystem {
    /// Whether both say the same.
    pub fn same(&self, other: &Self) -> (result: bool)
        ensures
            result == (self@ == other@),
    {
        match (self, other) {
            (BuildSystem::Gradle, BuildSystem::Gradle) => true,
            (BuildSystem::Maven, BuildSystem::Maven) => true,
            (BuildSystem::Cargo, BuildSystem::Cargo) => true,
            (BuildSystem::Npm, BuildSystem::Npm) => true,
            (BuildSystem::Bazel, BuildSystem::Bazel) => true,
            (BuildSystem::Filesystem, BuildSystem::Filesystem) => true,
            (BuildSystem::Other(a), BuildSystem::Other(b)) => *a == *b,
            _ => false,
        }
    }
}

/// Whether a source unit is user-maintained, generated, or binary-derived.
#[derive(Debug, Clone, Copy, PartialEq, Eq, Hash, Structural)]
pub enum SourceOrigin {
    Source,
    Generated,
    Dependency,
}

/// The lifecycle state of a persisted fact set relative to current inputs.
#[derive(Debug, Clone, Copy, PartialEq, Eq, Hash, Structural)]
pub enum Freshness {
    Fresh,
    Stale,
    Unknown,
    Unsupported,
}

/// Whether a backend produced all facts requested for a source unit.
#[derive(Debug, Clone, Copy, PartialEq, Eq, Hash, Structural)]
pub enum Completeness {
    Complete,
    Partial,
    Failed,
}

/// How trustworthy a returned relation is.
#[derive(Debug, Clone, Copy, PartialEq, Eq, Hash, Structural)]
pub enum Precision {
    Exact,
    Approximate,
}

/// The kind of a declaration.
#[derive(Debug, Clone, Copy, PartialEq, Eq, Hash, Structural)]
pub enum SymbolKind {
    Package,
    Module,
    Class,
    Interface,
    Object,
    Enum,
    Function,
    Method,
    Constructor,
    Property,
    Field,
    Parameter,
    TypeAlias,
    Other,
}

/// What a source interval does.
#[derive(Debug, Clone, Copy, PartialEq, Eq, Hash, Structural)]
pub enum OccurrenceKind {
    Declaration,
    Reference,
    Call,
    TypeReference,
    Import,
}

/// How severe a diagnostic is.
#[derive(Debug, Clone, Copy, PartialEq, Eq, Hash, Structural)]
pub enum DiagnosticSeverity {
    Error,
    Warning,
    Information,
    Hint,
}

/// Identifies the worker implementation that supplied a fact.
#[derive(Debug, PartialEq, Eq)]
pub struct Provenance {
    pub backend: String,
    pub backend_version: String,
    pub protocol_version: u32,
    pub analysis_options: Fingerprint,
}

impl Clone for Provenance {
    fn clone(&self) -> (result: Self)
        ensures
            result == *self,
    {
        Provenance {
            backend: self.backend.clone(),
            backend_version: self.backend_version.clone(),
            protocol_version: self.protocol_version,
            analysis_options: self.analysis_options.clone(),
        }
    }
}

/// What a `Provenance` says.
#[verifier::ext_equal]
pub struct ProvenanceView {
    pub backend: Seq<char>,
    pub backend_version: Seq<char>,
    pub protocol_version: u32,
    pub analysis_options: Seq<char>,
}

impl View for Provenance {
    type V = ProvenanceView;

    open spec fn view(&self) -> ProvenanceView {
        ProvenanceView {
            backend: self.backend@,
            backend_version: self.backend_version@,
            protocol_version: self.protocol_version,
            analysis_options: self.analysis_options@,
        }
    }
}

impl Provenance {
    /// Whether both say the same.
    pub fn same(&self, other: &Self) -> (result: bool)
        ensures
            result == (self@ == other@),
    {
        self.backend == other.backend && self.backend_version == other.backend_version
            && self.protocol_version == other.protocol_version && self.analysis_options.same(
            &other.analysis_options,
        )
    }
}

/// Position supplied by a caller. Lines and columns are one-based Unicode
/// scalar-value counts. A position is a cursor location, not a byte offset.
#[derive(Debug, Clone, Copy, PartialEq, Eq, Hash, Structural)]
pub struct TextPosition {
    pub line: u32,
    pub column: u32,
}

/// Half-open UTF-8 byte range in the exact content snapshot of a source unit.
#[derive(Debug, Clone, Copy, PartialEq, Eq, Hash, Structural)]
pub struct ByteRange {
    pub start: u64,
    pub end: u64,
}

/// A user-facing position together with a workspace-relative source path.
#[derive(Debug, PartialEq, Eq)]
pub struct Location {
    pub path: WorkspacePath,
    pub position: TextPosition,
}

impl Clone for Location {
    fn clone(&self) -> (result: Self)
        ensures
            result == *self,
    {
        Location {
            path: self.path.clone(),
            position: self.position,
        }
    }
}

/// A source range attributable to one unit and snapshot.
#[derive(Debug, PartialEq, Eq)]
pub struct SourceRange {
    pub source_unit: SourceUnitId,
    pub bytes: ByteRange,
}

impl Clone for SourceRange {
    fn clone(&self) -> (result: Self)
        ensures
            result == *self,
    {
        SourceRange {
            source_unit: self.source_unit.clone(),
            bytes: self.bytes,
        }
    }
}

/// A component discovered from a project model.
#[derive(Debug, PartialEq, Eq)]
pub struct Component {
    pub id: ComponentId,
    pub name: String,
    pub build_system: BuildSystem,
    pub root: WorkspacePath,
    pub languages: Vec<Language>,
    pub configuration: Fingerprint,
}

/// What a `Component` holds.
#[verifier::ext_equal]
pub struct ComponentView {
    pub id: ComponentId,
    pub name: String,
    pub build_system: BuildSystem,
    pub root: WorkspacePath,
    pub languages: Seq<Language>,
    pub configuration: Fingerprint,
}

impl View for Component {
    type V = ComponentView;

    open spec fn view(&self) -> ComponentView {
        ComponentView {
            id: self.id,
            name: self.name,
            build_system: self.build_system,
            root: self.root,
            languages: self.languages@,
            configuration: self.configuration,
        }
    }
}

impl Clone for Component {
    fn clone(&self) -> (result: Self)
        ensures
            result@ == self@,
    {
        let result = Component {
            id: self.id.clone(),
            name: self.name.clone(),
            build_system: self.build_system.clone(),
            root: self.root.clone(),
            languages: self.languages.clone(),
            configuration: self.configuration.clone(),
        };
        assert(result.languages@ =~= self.languages@);
        result
    }
}

/// A relation from one component to another component or immutable artifact.
#[derive(Debug, PartialEq, Eq)]
pub enum DependencyTarget {
    Component { component: ComponentId },
    Artifact { content: Fingerprint },
}

impl Clone for DependencyTarget {
    fn clone(&self) -> (result: Self)
        ensures
            result == *self,
    {
        match self {
            DependencyTarget::Component { component } => DependencyTarget::Component {
                component: component.clone(),
            },
            DependencyTarget::Artifact { content } => DependencyTarget::Artifact {
                content: content.clone(),
            },
        }
    }
}

/// One dependency of a component.
#[derive(Debug, PartialEq, Eq)]
pub struct DependencyEdge {
    pub from: ComponentId,
    pub target: DependencyTarget,
    pub scope: String,
}

impl Clone for DependencyEdge {
    fn clone(&self) -> (result: Self)
        ensures
            result == *self,
    {
        DependencyEdge {
            from: self.from.clone(),
            target: self.target.clone(),
            scope: self.scope.clone(),
        }
    }
}

/// A canonical project model produced by a disposable build-system worker.
#[derive(Debug, PartialEq, Eq)]
pub struct ProjectManifest {
    pub workspace: WorkspaceId,
    pub root: WorkspacePath,
    pub components: Vec<Component>,
    pub dependencies: Vec<DependencyEdge>,
    pub fingerprint: Fingerprint,
    pub provenance: Provenance,
}

/// A single file or binary-derived source unit in one component context.
#[derive(Debug, PartialEq, Eq)]
pub struct SourceUnit {
    pub id: SourceUnitId,
    pub component: ComponentId,
    pub path: WorkspacePath,
    pub language: Language,
    pub origin: SourceOrigin,
    pub content: Fingerprint,
    pub context: Fingerprint,
}

impl Clone for SourceUnit {
    fn clone(&self) -> (result: Self)
        ensures
            result == *self,
    {
        SourceUnit {
            id: self.id.clone(),
            component: self.component.clone(),
            path: self.path.clone(),
            language: self.language.clone(),
            origin: self.origin,
            content: self.content.clone(),
            context: self.context.clone(),
        }
    }
}

/// A language backend's stable key. `value` is opaque and only compared under
/// the same backend and key-schema version.
#[derive(Debug, PartialEq, Eq)]
pub struct BackendKey {
    pub backend: String,
    pub schema_version: u32,
    pub value: String,
}

impl Clone for BackendKey {
    fn clone(&self) -> (result: Self)
        ensures
            result == *self,
    {
        BackendKey {
            backend: self.backend.clone(),
            schema_version: self.schema_version,
            value: self.value.clone(),
        }
    }
}

/// The canonical declaration record.
#[derive(Debug, PartialEq, Eq)]
pub struct SymbolRecord {
    pub id: SymbolId,
    pub backend_key: BackendKey,
    pub language: Language,
    pub kind: SymbolKind,
    pub name: String,
    pub qualified_name: Option<String>,
    pub signature: Option<String>,
    pub component: ComponentId,
    pub declaration: SourceRange,
    pub name_range: SourceRange,
    pub owner: Option<SymbolId>,
    pub modifiers: Vec<String>,
    pub applied_symbols: Vec<SymbolId>,
    pub freshness: Freshness,
    pub completeness: Completeness,
    pub provenance: Provenance,
}

/// What a `SymbolRecord` holds.
#[verifier::ext_equal]
pub struct SymbolRecordView {
    pub id: SymbolId,
    pub backend_key: BackendKey,
    pub language: Language,
    pub kind: SymbolKind,
    pub name: String,
    pub qualified_name: Option<String>,
    pub signature: Option<String>,
    pub component: ComponentId,
    pub declaration: SourceRange,
    pub name_range: SourceRange,
    pub owner: Option<SymbolId>,
    pub modifiers: Seq<String>,
    pub applied_symbols: Seq<SymbolId>,
    pub freshness: Freshness,
    pub completeness: Completeness,
    pub provenance: Provenance,
}

impl View for SymbolRecord {
    type V = SymbolRecordView;

    open spec fn view(&self) -> SymbolRecordView {
        SymbolRecordView {
            id: self.id,
            backend_key: self.backend_key,
            language: self.language,
            kind: self.kind,
            name: self.name,
            qualified_name: self.qualified_name,
            signature: self.signature,
            component: self.component,
            declaration: self.declaration,
            name_range: self.name_range,
            owner: self.owner,
            modifiers: self.modifiers@,
            applied_symbols: self.applied_symbols@,
            freshness: self.freshness,
            completeness: self.completeness,
            provenance: self.provenance,
        }
    }
}

impl Clone for SymbolRecord {
    fn clone(&self) -> (result: Self)
        ensures
            result@ == self@,
    {
        let result = SymbolRecord {
            id: self.id.clone(),
            backend_key: self.backend_key.clone(),
            language: self.language.clone(),
            kind: self.kind,
            name: self.name.clone(),
            qualified_name: self.qualified_name.clone(),
            signature: self.signature.clone(),
            component: self.component.clone(),
            declaration: self.declaration.clone(),
            name_range: self.name_range.clone(),
            owner: self.owner.clone(),
            modifiers: self.modifiers.clone(),
            applied_symbols: self.applied_symbols.clone(),
            freshness: self.freshness,
            completeness: self.completeness,
            provenance: self.provenance.clone(),
        };
        assert(result.modifiers@ =~= self.modifiers@);
        assert(result.applied_symbols@ =~= self.applied_symbols@);
        result
    }
}

/// An interval entry for resolving a user location to a symbol or relation.
#[derive(Debug, PartialEq, Eq)]
pub struct SourceOccurrence {
    pub range: SourceRange,
    pub kind: OccurrenceKind,
    pub enclosing_symbol: Option<SymbolId>,
    pub target: Option<SymbolId>,
    pub type_id: Option<TypeId>,
    pub precision: Precision,
    pub freshness: Freshness,
    pub completeness: Completeness,
    pub provenance: Provenance,
}

impl Clone for SourceOccurrence {
    fn clone(&self) -> (result: Self)
        ensures
            result == *self,
    {
        SourceOccurrence {
            range: self.range.clone(),
            kind: self.kind,
            enclosing_symbol: self.enclosing_symbol.clone(),
            target: self.target.clone(),
            type_id: self.type_id.clone(),
            precision: self.precision,
            freshness: self.freshness,
            completeness: self.completeness,
            provenance: self.provenance.clone(),
        }
    }
}

/// A semantic use of a resolved declaration.
#[derive(Debug, PartialEq, Eq)]
pub struct ReferenceEdge {
    pub source: SourceOccurrence,
    pub target: SymbolId,
    pub precision: Precision,
}

impl Clone for ReferenceEdge {
    fn clone(&self) -> (result: Self)
        ensures
            result == *self,
    {
        ReferenceEdge {
            source: self.source.clone(),
            target: self.target.clone(),
            precision: self.precision,
        }
    }
}

/// A call site and the exact callable selected in its component context.
#[derive(Debug, PartialEq, Eq)]
pub struct CallEdge {
    pub source: SourceOccurrence,
    pub target: SymbolId,
    pub caller: Option<SymbolId>,
    pub precision: Precision,
}

impl Clone for CallEdge {
    fn clone(&self) -> (result: Self)
        ensures
            result == *self,
    {
        CallEdge {
            source: self.source.clone(),
            target: self.target.clone(),
            caller: self.caller.clone(),
            precision: self.precision,
        }
    }
}

/// An exact subtype/supertype or implementation relation.
#[derive(Debug, PartialEq, Eq)]
pub struct HierarchyEdge {
    pub subtype: SymbolId,
    pub supertype: SymbolId,
    pub precision: Precision,
    pub provenance: Provenance,
}

impl Clone for HierarchyEdge {
    fn clone(&self) -> (result: Self)
        ensures
            result == *self,
    {
        HierarchyEdge {
            subtype: self.subtype.clone(),
            supertype: self.supertype.clone(),
            precision: self.precision,
            provenance: self.provenance.clone(),
        }
    }
}

/// A backend-normalized type fact. The display form is language specific; the
/// ID and provenance identify its semantic source.
#[derive(Debug, PartialEq, Eq)]
pub struct TypeRecord {
    pub id: TypeId,
    pub language: Language,
    pub display: String,
    pub backend_key: Option<BackendKey>,
    pub freshness: Freshness,
    pub completeness: Completeness,
    pub provenance: Provenance,
}

impl Clone for TypeRecord {
    fn clone(&self) -> (result: Self)
        ensures
            result == *self,
    {
        TypeRecord {
            id: self.id.clone(),
            language: self.language.clone(),
            display: self.display.clone(),
            backend_key: self.backend_key.clone(),
            freshness: self.freshness,
            completeness: self.completeness,
            provenance: self.provenance.clone(),
        }
    }
}

/// A message that a worker attached to a source unit.
#[derive(Debug, PartialEq, Eq)]
pub struct DiagnosticRecord {
    pub source_unit: SourceUnitId,
    pub range: Option<ByteRange>,
    pub severity: DiagnosticSeverity,
    pub code: Option<String>,
    pub message: String,
    pub freshness: Freshness,
    pub completeness: Completeness,
    pub provenance: Provenance,
}

impl Clone for DiagnosticRecord {
    fn clone(&self) -> (result: Self)
        ensures
            result == *self,
    {
        DiagnosticRecord {
            source_unit: self.source_unit.clone(),
            range: self.range,
            severity: self.severity,
            code: self.code.clone(),
            message: self.message.clone(),
            freshness: self.freshness,
            completeness: self.completeness,
            provenance: self.provenance.clone(),
        }
    }
}

} // verus!
