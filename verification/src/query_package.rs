//! The registry of declarative query packages.
//!
//! A package is data, never an executable extension point.

use vstd::prelude::*;

use crate::canonical::Fingerprint;
use crate::digest;
use crate::digest::fingerprint_bytes;
use crate::names;
use crate::names::{is_capability_name, is_dotted_name, is_semver};
use crate::ordered_map::OrderedMap;
use crate::ordering;
use crate::ordering::{reversed, stable_sort, Ranked};
use crate::shown::push;
use crate::text;

verus! {

/// The only manifest format that is understood.
pub const PACKAGE_MANIFEST_FORMAT: u32 = 1;

/// The version of the package interface that is supported.
pub const PACKAGE_CORE_API_VERSION: &'static str = "^1";

/// The identity and the exports of a query package.
#[derive(Debug, PartialEq, Eq)]
pub struct PackageManifest {
    pub format: u32,
    pub id: String,
    pub version: String,
    pub requires_core: String,
    pub exports: PackageExports,
    pub capabilities: Vec<PackageCapability>,
}

/// The names of the macros and commands of a package.
#[derive(Debug, PartialEq, Eq)]
pub struct PackageExports {
    pub macros: Vec<String>,
    pub commands: Vec<String>,
}

impl Default for PackageExports {
    fn default() -> (result: Self)
        ensures
            result.macros@.len() == 0,
            result.commands@.len() == 0,
    {
        PackageExports { macros: Vec::new(), commands: Vec::new() }
    }
}

/// A capability that a package declares. It loads no code and makes no call by
/// itself.
#[derive(Debug, PartialEq, Eq)]
pub struct PackageCapability {
    pub name: String,
    pub required: bool,
}

/// A manifest with its canonical text, from which comments, white space and the
/// order of tables in the source file are gone.
#[derive(Debug, PartialEq, Eq)]
pub struct PackageDocument {
    pub manifest: PackageManifest,
    pub canonical: String,
}

/// Where a package comes from.
#[derive(Debug, PartialEq, Eq)]
pub enum PackageSource {
    BuiltIn,
    Workspace { manifest_path: String },
}

/// A validated package.
#[derive(Debug, PartialEq, Eq)]
pub struct RegisteredPackage {
    pub manifest: PackageManifest,
    pub manifest_digest: Fingerprint,
    pub source: PackageSource,
}

/// A macro or command with the package that exports it.
#[derive(Debug, PartialEq, Eq)]
pub struct ResolvedPackageExport<'a> {
    pub package: &'a RegisteredPackage,
    pub export_name: String,
}

/// The manifest file of a package directory, as it was found.
#[derive(Debug, PartialEq, Eq)]
pub enum ManifestFile {
    Missing,
    Unreadable(String),
    Unparsable(String),
    Parsed(PackageDocument),
}

/// A directory that should hold a package.
#[derive(Debug, PartialEq, Eq)]
pub struct PackageDirectory {
    pub path: String,
    /// The name of the directory, where it is UTF-8.
    pub name: Option<String>,
    pub manifest_path: String,
    pub manifest: ManifestFile,
}

/// Why a package or an export is refused.
#[derive(Debug, PartialEq, Eq)]
pub enum PackageRegistryError {
    ReadDirectory { path: String, source: String },
    ReadManifest { path: String, source: String },
    MissingManifest { path: String },
    ParseManifest { path: String, source: String },
    InvalidManifest { path: String, reason: String },
    DirectoryIdMismatch { directory: String, id: String },
    DuplicatePackage(String),
    UnknownExport(String),
}

impl PackageRegistryError {
    /// The message that is shown for an error.
    pub open spec fn message_text(&self) -> Seq<char> {
        match self {
            PackageRegistryError::ReadDirectory { path, source } => {
                "failed to read query package directory `"@
                + path@
                + "`: "@
                + source@
            },
            PackageRegistryError::ReadManifest { path, source } => {
                "failed to read query package manifest `"@
                + path@
                + "`: "@
                + source@
            },
            PackageRegistryError::MissingManifest { path } => "query package directory `"@
                + path@
                + "` is missing package.toml"@,
            PackageRegistryError::ParseManifest { path, source } => {
                "failed to parse query package manifest `"@
                + path@
                + "`: "@
                + source@
            },
            PackageRegistryError::InvalidManifest { path, reason } => "query package manifest `"@
                + path@
                + "` is invalid: "@
                + reason@,
            PackageRegistryError::DirectoryIdMismatch { directory, id } => {
                "query package directory `"@
                + directory@
                + "` must match manifest id `"@
                + id@
            },
            PackageRegistryError::DuplicatePackage(id) => "query package `"@
                + id@
                + "` is already registered"@,
            PackageRegistryError::UnknownExport(name) => "unknown query package export `"@
                + name@
                + "`"@,
        }
    }

    /// Computes `message_text`.
    pub fn message(&self) -> (result: String)
        ensures
            result@ == self.message_text(),
    {
        match self {
            PackageRegistryError::ReadDirectory { path, source } => {
                let mut out = "failed to read query package directory `".to_owned();
                push(&mut out, path.as_str());
                push(&mut out, "`: ");
                push(&mut out, source.as_str());
                out
            },
            PackageRegistryError::ReadManifest { path, source } => {
                let mut out = "failed to read query package manifest `".to_owned();
                push(&mut out, path.as_str());
                push(&mut out, "`: ");
                push(&mut out, source.as_str());
                out
            },
            PackageRegistryError::MissingManifest { path } => {
                let mut out = "query package directory `".to_owned();
                push(&mut out, path.as_str());
                push(&mut out, "` is missing package.toml");
                out
            },
            PackageRegistryError::ParseManifest { path, source } => {
                let mut out = "failed to parse query package manifest `".to_owned();
                push(&mut out, path.as_str());
                push(&mut out, "`: ");
                push(&mut out, source.as_str());
                out
            },
            PackageRegistryError::InvalidManifest { path, reason } => {
                let mut out = "query package manifest `".to_owned();
                push(&mut out, path.as_str());
                push(&mut out, "` is invalid: ");
                push(&mut out, reason.as_str());
                out
            },
            PackageRegistryError::DirectoryIdMismatch { directory, id } => {
                let mut out = "query package directory `".to_owned();
                push(&mut out, directory.as_str());
                push(&mut out, "` must match manifest id `");
                push(&mut out, id.as_str());
                out
            },
            PackageRegistryError::DuplicatePackage(id) => {
                let mut out = "query package `".to_owned();
                push(&mut out, id.as_str());
                push(&mut out, "` is already registered");
                out
            },
            PackageRegistryError::UnknownExport(name) => {
                let mut out = "unknown query package export `".to_owned();
                push(&mut out, name.as_str());
                push(&mut out, "`");
                out
            },
        }
    }
}

/// What a `PackageRegistryError` says.
pub enum PackageRegistryErrorView {
    ReadDirectory { path: Seq<char>, source: Seq<char> },
    ReadManifest { path: Seq<char>, source: Seq<char> },
    MissingManifest { path: Seq<char> },
    ParseManifest { path: Seq<char>, source: Seq<char> },
    InvalidManifest { path: Seq<char>, reason: Seq<char> },
    DirectoryIdMismatch { directory: Seq<char>, id: Seq<char> },
    DuplicatePackage(Seq<char>),
    UnknownExport(Seq<char>),
}

impl View for PackageRegistryError {
    type V = PackageRegistryErrorView;

    open spec fn view(&self) -> PackageRegistryErrorView {
        match self {
            PackageRegistryError::ReadDirectory { path, source } => {
                PackageRegistryErrorView::ReadDirectory { path: path@, source: source@ }
            },
            PackageRegistryError::ReadManifest { path, source } => {
                PackageRegistryErrorView::ReadManifest { path: path@, source: source@ }
            },
            PackageRegistryError::MissingManifest { path } => {
                PackageRegistryErrorView::MissingManifest { path: path@ }
            },
            PackageRegistryError::ParseManifest { path, source } => {
                PackageRegistryErrorView::ParseManifest { path: path@, source: source@ }
            },
            PackageRegistryError::InvalidManifest { path, reason } => {
                PackageRegistryErrorView::InvalidManifest { path: path@, reason: reason@ }
            },
            PackageRegistryError::DirectoryIdMismatch { directory, id } => {
                PackageRegistryErrorView::DirectoryIdMismatch { directory: directory@, id: id@ }
            },
            PackageRegistryError::DuplicatePackage(id) => {
                PackageRegistryErrorView::DuplicatePackage(id@)
            },
            PackageRegistryError::UnknownExport(name) => PackageRegistryErrorView::UnknownExport(
                name@,
            ),
        }
    }
}

/// What is wrong with each name of a list: it is no dotted name, or it stands
/// in the list before.
pub open spec fn name_problems(
    subject: Seq<char>,
    list: Seq<Seq<char>>,
    underscore: bool,
) -> Seq<Option<Seq<char>>> {
    Seq::new(
        list.len(),
        |i: int|
            if !names::is_dotted(list[i], underscore) {
                Some(subject + list[i] + "` must be an ASCII lower-case dotted name"@)
            } else if list.take(i).contains(list[i]) {
                Some(subject + list[i] + "` is declared more than once"@)
            } else {
                None
            },
    )
}

fn check_names(subject: &str, list: &[String], underscore: bool) -> (result: Result<(), String>)
    ensures
        match ordering::first_problem(
            name_problems(subject@, text::texts(list@), underscore),
        ) {
            Some(problem) => result is Err && result->Err_0@ == problem,
            None => result is Ok,
        },
{
    let ghost all = text::texts(list@);
    let ghost problems = name_problems(subject@, all, underscore);
    let mut i: usize = 0;
    while i < list.len()
        invariant
            all == text::texts(list@),
            problems == name_problems(subject@, all, underscore),
            i <= list@.len(),
            forall|j: int| 0 <= j < i ==> (#[trigger] problems[j]) is None,
        decreases list@.len() - i,
    {
        let name = &list[i];
        assert(all[i as int] == name@);
        let plain: bool = if underscore {
            is_capability_name(name.as_str())
        } else {
            is_dotted_name(name.as_str())
        };
        let before = &list[0..i];
        assert(text::texts(before@) =~= all.take(i as int));
        if !plain {
            proof {
                ordering::lemma_first_problem(problems, i as int);
            }
            let mut problem = text::join_text(subject, name.as_str());
            problem.append("` must be an ASCII lower-case dotted name");
            return Err(problem);
        }
        if text::contains_text(before, name.as_str()) {
            proof {
                ordering::lemma_first_problem(problems, i as int);
            }
            let mut problem = text::join_text(subject, name.as_str());
            problem.append("` is declared more than once");
            return Err(problem);
        }
        assert(problems[i as int] is None);
        i = i + 1;
    }
    proof {
        ordering::lemma_first_problem(problems, i as int);
    }
    Ok(())
}

/// The names of capabilities.
pub open spec fn capability_names(capabilities: Seq<PackageCapability>) -> Seq<Seq<char>> {
    Seq::new(capabilities.len(), |i: int| capabilities[i].name@)
}

fn list_capabilities(capabilities: &[PackageCapability]) -> (result: Vec<String>)
    ensures
        text::texts(result@) == capability_names(capabilities@),
{
    let mut result: Vec<String> = Vec::new();
    let mut i: usize = 0;
    while i < capabilities.len()
        invariant
            i <= capabilities@.len(),
            result@.len() == i,
            forall|j: int| 0 <= j < i ==> (#[trigger] result@[j])@ == capabilities@[j].name@,
        decreases capabilities@.len() - i,
    {
        result.push(capabilities[i].name.clone());
        i = i + 1;
    }
    assert(text::texts(result@) =~= capability_names(capabilities@));
    result
}

/// What is wrong with a manifest.
pub open spec fn manifest_problem(manifest: PackageManifest) -> Option<Seq<char>> {
    if manifest.format != PACKAGE_MANIFEST_FORMAT {
        Some("format must be 1"@)
    } else if manifest.requires_core@ != PACKAGE_CORE_API_VERSION@ {
        Some("requires_core must be `^1`"@)
    } else if !names::is_dotted(manifest.id@, false) {
        Some("id must be an ASCII lower-case dotted name"@)
    } else if !names::is_version(manifest.version@) {
        Some("version must be a semantic version such as `1.0.0`"@)
    } else {
        match ordering::first_problem(
            name_problems(
                "exports.macros name `"@,
                text::texts(manifest.exports.macros@),
                false,
            ),
        ) {
            Some(problem) => Some(problem),
            None => match ordering::first_problem(
                name_problems(
                    "exports.commands name `"@,
                    text::texts(manifest.exports.commands@),
                    false,
                ),
            ) {
                Some(problem) => Some(problem),
                None => ordering::first_problem(
                    name_problems(
                        "capability `"@,
                        capability_names(manifest.capabilities@),
                        true,
                    ),
                ),
            },
        }
    }
}

/// Checks a manifest.
pub fn validate_manifest(manifest: &PackageManifest) -> (result: Result<(), String>)
    ensures
        match manifest_problem(*manifest) {
            Some(problem) => result is Err && result->Err_0@ == problem,
            None => result is Ok,
        },
{
    if manifest.format != PACKAGE_MANIFEST_FORMAT {
        return Err("format must be 1".to_owned());
    }
    if !text::same_text(manifest.requires_core.as_str(), PACKAGE_CORE_API_VERSION) {
        return Err("requires_core must be `^1`".to_owned());
    }
    if !is_dotted_name(manifest.id.as_str()) {
        return Err("id must be an ASCII lower-case dotted name".to_owned());
    }
    if !is_semver(manifest.version.as_str()) {
        return Err("version must be a semantic version such as `1.0.0`".to_owned());
    }
    match check_names("exports.macros name `", manifest.exports.macros.as_slice(), false) {
        Ok(_) => {},
        Err(problem) => {
            return Err(problem);
        },
    }
    match check_names("exports.commands name `", manifest.exports.commands.as_slice(), false) {
        Ok(_) => {},
        Err(problem) => {
            return Err(problem);
        },
    }
    let capabilities = list_capabilities(manifest.capabilities.as_slice());
    check_names("capability `", capabilities.as_slice(), true)
}

/// The digest of a manifest's canonical text.
pub fn canonical_manifest_digest(canonical: &str) -> (result: Fingerprint)
    ensures
        result@ == digest::fingerprint_text(vstd::utf8::encode_utf8(canonical@)),
{
    let bytes = digest::bytes_of(canonical);
    fingerprint_bytes(bytes.as_slice())
}

/// Whether a package is what a document registers.
pub open spec fn is_registration(
    package: RegisteredPackage,
    document: PackageDocument,
    source: PackageSource,
) -> bool {
    &&& package.manifest == document.manifest
    &&& package.manifest_digest@ == digest::fingerprint_text(
        vstd::utf8::encode_utf8(document.canonical@),
    )
    &&& package.source == source
}

/// What is wrong with a package directory by itself.
pub open spec fn directory_problem(directory: PackageDirectory) -> Option<
    PackageRegistryErrorView,
> {
    match directory.manifest {
        ManifestFile::Missing => Some(
            PackageRegistryErrorView::MissingManifest { path: directory.path@ },
        ),
        ManifestFile::Unreadable(source) => Some(
            PackageRegistryErrorView::ReadManifest {
                path: directory.manifest_path@,
                source: source@,
            },
        ),
        ManifestFile::Unparsable(source) => Some(
            PackageRegistryErrorView::ParseManifest {
                path: directory.manifest_path@,
                source: source@,
            },
        ),
        ManifestFile::Parsed(document) => match manifest_problem(document.manifest) {
            Some(reason) => Some(
                PackageRegistryErrorView::InvalidManifest {
                    path: directory.manifest_path@,
                    reason,
                },
            ),
            None => if directory.name is Some && directory.name->Some_0@
                == document.manifest.id@ {
                None
            } else {
                Some(
                    PackageRegistryErrorView::DirectoryIdMismatch {
                        directory: directory.path@,
                        id: document.manifest.id@,
                    },
                )
            },
        },
    }
}

/// The id of the package in a directory without a problem.
pub open spec fn directory_id(directory: PackageDirectory) -> Seq<char> {
    directory.manifest->Parsed_0.manifest.id@
}

/// The ids that are registered after the first `n` directories, or the first
/// problem.
pub open spec fn loaded_ids(
    registered: Set<Seq<char>>,
    directories: Seq<PackageDirectory>,
    n: int,
) -> Result<Set<Seq<char>>, PackageRegistryErrorView>
    decreases n,
{
    if n <= 0 {
        Ok(registered)
    } else {
        match loaded_ids(registered, directories, n - 1) {
            Err(problem) => Err(problem),
            Ok(ids) => match directory_problem(directories[n - 1]) {
                Some(problem) => Err(problem),
                None => if ids.contains(directory_id(directories[n - 1])) {
                    Err(
                        PackageRegistryErrorView::DuplicatePackage(
                            directory_id(directories[n - 1]),
                        ),
                    )
                } else {
                    Ok(ids.insert(directory_id(directories[n - 1])))
                },
            },
        }
    }
}

/// The ids that are registered after the first `n` built-in packages, or the
/// first problem.
pub open spec fn builtin_ids(documents: Seq<PackageDocument>, n: int) -> Result<
    Set<Seq<char>>,
    PackageRegistryErrorView,
>
    decreases n,
{
    if n <= 0 {
        Ok(Set::empty())
    } else {
        let id = documents[n - 1].manifest.id@;
        match builtin_ids(documents, n - 1) {
            Err(problem) => Err(problem),
            Ok(ids) => match builtin_problem(documents[n - 1], ids) {
                Some(problem) => Err(problem),
                None => Ok(ids.insert(id)),
            },
        }
    }
}

/// What is wrong with a built-in package beside registered ones.
pub open spec fn builtin_problem(document: PackageDocument, registered: Set<Seq<char>>) -> Option<
    PackageRegistryErrorView,
> {
    match manifest_problem(document.manifest) {
        Some(reason) => Some(
            PackageRegistryErrorView::InvalidManifest { path: "<builtin>"@, reason },
        ),
        None => if registered.contains(document.manifest.id@) {
            Some(PackageRegistryErrorView::DuplicatePackage(document.manifest.id@))
        } else {
            None
        },
    }
}

impl Ranked for PackageDirectory {
    open spec fn ranks_before(&self, other: &Self) -> bool {
        text::text_lt(self.path@, other.path@)
    }

    proof fn lemma_rank_asymmetric(a: &Self, b: &Self) {
        text::lemma_text_lt_asymmetric(a.path@, b.path@);
    }

    proof fn lemma_rank_negatively_transitive(a: &Self, b: &Self, c: &Self) {
        text::lemma_text_lt_negatively_transitive(a.path@, b.path@, c.path@);
    }

    fn is_before(&self, other: &Self) -> (result: bool) {
        text::text_before(self.path.as_str(), other.path.as_str())
    }
}

/// Packages by their ids.
pub struct PackageRegistry {
    packages: OrderedMap<RegisteredPackage>,
}

impl View for PackageRegistry {
    type V = Map<Seq<char>, RegisteredPackage>;

    closed spec fn view(&self) -> Map<Seq<char>, RegisteredPackage> {
        self.packages@
    }
}

/// Which exports of a package are meant.
#[derive(Debug, Clone, Copy, PartialEq, Eq, Structural)]
pub enum ExportKind {
    Macro,
    Command,
}

/// The exports of a kind.
pub open spec fn exports_of(exports: PackageExports, kind: ExportKind) -> Seq<Seq<char>> {
    match kind {
        ExportKind::Macro => text::texts(exports.macros@),
        ExportKind::Command => text::texts(exports.commands@),
    }
}

/// Whether a qualified name is an export of the package with an id: the id, a
/// dot and the name of the export.
pub open spec fn is_export_of(
    name: Seq<char>,
    id: Seq<char>,
    package: RegisteredPackage,
    kind: ExportKind,
) -> bool {
    &&& name.len() > id.len() + 1
    &&& name.take(id.len() as int) == id
    &&& name[id.len() as int] == '.'
    &&& exports_of(package.manifest.exports, kind).contains(name.skip(id.len() + 1int))
}

fn exported_name(name: &[char], id: &str, package: &RegisteredPackage, kind: ExportKind) -> (result:
    Option<String>)
    ensures
        match result {
            Some(suffix) => is_export_of(name@, id@, *package, kind) && suffix@ == name@.skip(
                id@.len() + 1int,
            ),
            None => !is_export_of(name@, id@, *package, kind),
        },
{
    let width: usize = text::chars_of(id).len();
    let len: usize = name.len();
    if len <= width || len - width <= 1 || !text::has_prefix(name, id) || name[width] != '.' {
        return None;
    }
    let suffix = text::slice_text(name, width + 1, len);
    assert(suffix@ =~= name@.skip(id@.len() + 1int));
    let exported: bool = match kind {
        ExportKind::Macro => text::contains_text(
            package.manifest.exports.macros.as_slice(),
            suffix.as_str(),
        ),
        ExportKind::Command => text::contains_text(
            package.manifest.exports.commands.as_slice(),
            suffix.as_str(),
        ),
    };
    if exported {
        Some(suffix)
    } else {
        None
    }
}

impl PackageRegistry {
    /// Every package stands under its own id and is valid.
    pub closed spec fn wf(&self) -> bool {
        &&& self.packages.wf()
        &&& forall|id: Seq<char>| #[trigger]
            self.packages@.dom().contains(id) ==> self.packages@[id].manifest.id@ == id
                && manifest_problem(self.packages@[id].manifest) is None
    }

    /// The registry without packages.
    pub fn new() -> (result: Self)
        ensures
            result.wf(),
            result@ == Map::<Seq<char>, RegisteredPackage>::empty(),
    {
        PackageRegistry { packages: OrderedMap::new() }
    }

    fn insert(&mut self, package: RegisteredPackage) -> (result: Result<(), PackageRegistryError>)
        requires
            old(self).wf(),
            manifest_problem(package.manifest) is None,
        ensures
            final(self).wf(),
            final(self)@ == old(self)@.insert(package.manifest.id@, package),
            if old(self)@.dom().contains(package.manifest.id@) {
                &&& result is Err
                &&& result->Err_0@ == PackageRegistryErrorView::DuplicatePackage(
                    package.manifest.id@,
                )
            } else {
                result is Ok
            },
    {
        let id = package.manifest.id.clone();
        let taken: bool = self.packages.contains_key(id.as_str());
        self.packages.insert(id.clone(), package);
        if taken {
            Err(PackageRegistryError::DuplicatePackage(id))
        } else {
            Ok(())
        }
    }

    /// Registers a package that comes with the program, after the validation
    /// that a package of a workspace gets.
    pub fn register_builtin(&mut self, document: PackageDocument) -> (result: Result<
        (),
        PackageRegistryError,
    >)
        requires
            old(self).wf(),
        ensures
            final(self).wf(),
            match builtin_problem(document, old(self)@.dom()) {
                Some(problem) => result is Err && result->Err_0@ == problem,
                None => result is Ok,
            },
            manifest_problem(document.manifest) is Some ==> final(self)@ == old(self)@,
            manifest_problem(document.manifest) is None ==> {
                let id = document.manifest.id@;
                &&& final(self)@ == old(self)@.insert(id, final(self)@[id])
                &&& is_registration(final(self)@[id], document, PackageSource::BuiltIn)
            },
    {
        match validate_manifest(&document.manifest) {
            Ok(_) => {},
            Err(reason) => {
                return Err(
                    PackageRegistryError::InvalidManifest { path: "<builtin>".to_owned(), reason },
                );
            },
        }
        let manifest_digest = canonical_manifest_digest(document.canonical.as_str());
        self.insert(
            RegisteredPackage {
                manifest: document.manifest,
                manifest_digest,
                source: PackageSource::BuiltIn,
            },
        )
    }

    fn register_directory(&mut self, directory: PackageDirectory) -> (result: Result<
        (),
        PackageRegistryError,
    >)
        requires
            old(self).wf(),
        ensures
            final(self).wf(),
            match directory_problem(directory) {
                Some(problem) => result is Err && result->Err_0@ == problem,
                None => {
                    let id = directory_id(directory);
                    &&& final(self)@ == old(self)@.insert(id, final(self)@[id])
                    &&& is_registration(
                        final(self)@[id],
                        directory.manifest->Parsed_0,
                        PackageSource::Workspace { manifest_path: directory.manifest_path },
                    )
                    &&& if old(self)@.dom().contains(id) {
                        result is Err && result->Err_0@
                            == PackageRegistryErrorView::DuplicatePackage(id)
                    } else {
                        result is Ok
                    }
                },
            },
    {
        let document = match directory.manifest {
            ManifestFile::Missing => {
                return Err(PackageRegistryError::MissingManifest { path: directory.path });
            },
            ManifestFile::Unreadable(source) => {
                return Err(
                    PackageRegistryError::ReadManifest { path: directory.manifest_path, source },
                );
            },
            ManifestFile::Unparsable(source) => {
                return Err(
                    PackageRegistryError::ParseManifest { path: directory.manifest_path, source },
                );
            },
            ManifestFile::Parsed(document) => document,
        };
        match validate_manifest(&document.manifest) {
            Ok(_) => {},
            Err(reason) => {
                return Err(
                    PackageRegistryError::InvalidManifest {
                        path: directory.manifest_path,
                        reason,
                    },
                );
            },
        }
        let named: bool = match &directory.name {
            Some(name) => *name == document.manifest.id,
            None => false,
        };
        if !named {
            return Err(
                PackageRegistryError::DirectoryIdMismatch {
                    directory: directory.path,
                    id: document.manifest.id,
                },
            );
        }
        let manifest_digest = canonical_manifest_digest(document.canonical.as_str());
        self.insert(
            RegisteredPackage {
                manifest: document.manifest,
                manifest_digest,
                source: PackageSource::Workspace { manifest_path: directory.manifest_path },
            },
        )
    }

    fn register_builtins(documents: Vec<PackageDocument>) -> (result: Result<
        Self,
        PackageRegistryError,
    >)
        ensures
            match builtin_ids(documents@, documents@.len() as int) {
                Err(problem) => result is Err && result->Err_0@ == problem,
                Ok(ids) => {
                    &&& result is Ok
                    &&& result->Ok_0.wf()
                    &&& result->Ok_0@.dom() == ids
                    &&& forall|i: int|
                        0 <= i < documents@.len() ==> is_registration(
                            result->Ok_0@[(#[trigger] documents@[i]).manifest.id@],
                            documents@[i],
                            PackageSource::BuiltIn,
                        )
                },
            },
    {
        let ghost all = documents@;
        let mut rest = reversed(documents);
        let mut registry = PackageRegistry::new();
        assert(registry@.dom() =~= Set::<Seq<char>>::empty());
        while rest.len() > 0
            invariant
                all == documents@,
                registry.wf(),
                rest@.len() <= all.len(),
                forall|i: int|
                    0 <= i < rest@.len() ==> #[trigger] rest@[i] == all[all.len() - 1 - i],
                builtin_ids(all, all.len() - rest@.len()) == Ok::<
                    Set<Seq<char>>,
                    PackageRegistryErrorView,
                >(registry@.dom()),
                forall|i: int|
                    0 <= i < all.len() - rest@.len() ==> registry@.dom().contains(
                        (#[trigger] all[i]).manifest.id@,
                    ) && is_registration(
                        registry@[all[i].manifest.id@],
                        all[i],
                        PackageSource::BuiltIn,
                    ),
            decreases rest@.len(),
        {
            let ghost done = all.len() - rest@.len();
            let ghost before = registry@;
            let document = rest.pop().unwrap();
            assert(document == all[done]);
            match registry.register_builtin(document) {
                Ok(_) => {
                    assert(registry@.dom() =~= before.dom().insert(document.manifest.id@));
                },
                Err(error) => {
                    proof {
                        lemma_builtins_fail(all, done, all.len() as int);
                    }
                    return Err(error);
                },
            }
        }
        Ok(registry)
    }

    fn register_directories(
        registry: PackageRegistry,
        directories: Vec<PackageDirectory>,
    ) -> (result: Result<Self, PackageRegistryError>)
        requires
            registry.wf(),
        ensures
            match loaded_ids(registry@.dom(), directories@, directories@.len() as int) {
                Err(problem) => result is Err && result->Err_0@ == problem,
                Ok(ids) => {
                    &&& result is Ok
                    &&& result->Ok_0.wf()
                    &&& result->Ok_0@.dom() == ids
                    &&& forall|id: Seq<char>| #[trigger]
                        registry@.dom().contains(id) ==> result->Ok_0@[id] == registry@[id]
                    &&& forall|i: int|
                        0 <= i < directories@.len() ==> is_registration(
                            result->Ok_0@[directory_id(#[trigger] directories@[i])],
                            directories@[i].manifest->Parsed_0,
                            PackageSource::Workspace {
                                manifest_path: directories@[i].manifest_path,
                            },
                        )
                },
            },
    {
        let ghost all = directories@;
        let ghost start = registry@;
        let mut current = registry;
        let mut rest = reversed(directories);
        while rest.len() > 0
            invariant
                all == directories@,
                start == registry@,
                current.wf(),
                rest@.len() <= all.len(),
                forall|i: int|
                    0 <= i < rest@.len() ==> #[trigger] rest@[i] == all[all.len() - 1 - i],
                loaded_ids(start.dom(), all, all.len() - rest@.len()) == Ok::<
                    Set<Seq<char>>,
                    PackageRegistryErrorView,
                >(current@.dom()),
                forall|id: Seq<char>| #[trigger]
                    start.dom().contains(id) ==> current@.dom().contains(id) && current@[id]
                        == start[id],
                forall|i: int|
                    0 <= i < all.len() - rest@.len() ==> current@.dom().contains(
                        directory_id(#[trigger] all[i]),
                    ) && is_registration(
                        current@[directory_id(all[i])],
                        all[i].manifest->Parsed_0,
                        PackageSource::Workspace { manifest_path: all[i].manifest_path },
                    ),
            decreases rest@.len(),
        {
            let ghost done = all.len() - rest@.len();
            let ghost before = current@;
            let directory = rest.pop().unwrap();
            assert(directory == all[done]);
            match current.register_directory(directory) {
                Ok(_) => {
                    assert(current@.dom() =~= before.dom().insert(directory_id(directory)));
                },
                Err(error) => {
                    proof {
                        lemma_directories_fail(start.dom(), all, done, all.len() as int);
                    }
                    return Err(error);
                },
            }
        }
        Ok(current)
    }

    /// Loads the packages of a workspace, in the order of their paths.
    pub fn load_workspace(directories: Vec<PackageDirectory>) -> (result: Result<
        Self,
        PackageRegistryError,
    >)
        ensures
            ({
                let ordered = ordering::stable_sorted(directories@);
                match loaded_ids(Set::empty(), ordered, ordered.len() as int) {
                    Err(problem) => result is Err && result->Err_0@ == problem,
                    Ok(ids) => {
                        &&& result is Ok
                        &&& result->Ok_0.wf()
                        &&& result->Ok_0@.dom() == ids
                        &&& forall|i: int|
                            0 <= i < ordered.len() ==> is_registration(
                                result->Ok_0@[directory_id(#[trigger] ordered[i])],
                                ordered[i].manifest->Parsed_0,
                                PackageSource::Workspace {
                                    manifest_path: ordered[i].manifest_path,
                                },
                            )
                    },
                }
            }),
    {
        let registry = PackageRegistry::new();
        assert(registry@.dom() =~= Set::<Seq<char>>::empty());
        Self::register_directories(registry, stable_sort(directories))
    }

    /// Loads the packages of a workspace after the built-in ones. A package of
    /// the workspace cannot replace a built-in one.
    pub fn load_workspace_with_builtins(
        directories: Vec<PackageDirectory>,
        builtins: Vec<PackageDocument>,
    ) -> (result: Result<Self, PackageRegistryError>)
        ensures
            ({
                let ordered = ordering::stable_sorted(directories@);
                match builtin_ids(builtins@, builtins@.len() as int) {
                    Err(problem) => result is Err && result->Err_0@ == problem,
                    Ok(registered) => match loaded_ids(
                        registered,
                        ordered,
                        ordered.len() as int,
                    ) {
                        Err(problem) => result is Err && result->Err_0@ == problem,
                        Ok(ids) => {
                            &&& result is Ok
                            &&& result->Ok_0.wf()
                            &&& result->Ok_0@.dom() == ids
                            &&& forall|i: int|
                                0 <= i < builtins@.len() ==> is_registration(
                                    result->Ok_0@[(#[trigger] builtins@[i]).manifest.id@],
                                    builtins@[i],
                                    PackageSource::BuiltIn,
                                )
                            &&& forall|i: int|
                                0 <= i < ordered.len() ==> is_registration(
                                    result->Ok_0@[directory_id(#[trigger] ordered[i])],
                                    ordered[i].manifest->Parsed_0,
                                    PackageSource::Workspace {
                                        manifest_path: ordered[i].manifest_path,
                                    },
                                )
                        },
                    },
                }
            }),
    {
        let ghost documents = builtins@;
        match Self::register_builtins(builtins) {
            Ok(registry) => {
                proof {
                    assert forall|i: int| 0 <= i < documents.len() implies registry@.dom().contains(
                        (#[trigger] documents[i]).manifest.id@,
                    ) by {
                        lemma_builtin_is_registered(documents, i, documents.len() as int);
                    }
                }
                Self::register_directories(registry, stable_sort(directories))
            },
            Err(error) => Err(error),
        }
    }

    /// The package with an id.
    pub fn package(&self, id: &str) -> (result: Option<&RegisteredPackage>)
        requires
            self.wf(),
        ensures
            match result {
                Some(package) => self@.dom().contains(id@) && *package == self@[id@],
                None => !self@.dom().contains(id@),
            },
    {
        self.packages.get(id)
    }

    /// The packages in ascending order of their ids.
    pub fn packages(&self) -> (result: Vec<(&str, &RegisteredPackage)>)
        requires
            self.wf(),
        ensures
            ({
                let ids = ordering::sorted_texts(self@.dom());
                &&& result@.len() == ids.len()
                &&& forall|i: int|
                    0 <= i < ids.len() ==> (#[trigger] result@[i]).0@ == ids[i] && *result@[i].1
                        == self@[ids[i]]
            }),
    {
        proof {
            self.packages.lemma_order();
        }
        let mut result: Vec<(&str, &RegisteredPackage)> = Vec::new();
        let mut i: usize = 0;
        while i < self.packages.len()
            invariant
                self.packages.wf(),
                i <= self.packages.order().len(),
                result@.len() == i,
                forall|j: int|
                    0 <= j < i ==> (#[trigger] result@[j]).0@ == self.packages.order()[j]
                        && *result@[j].1 == self@[self.packages.order()[j]],
            decreases self.packages.order().len() - i,
        {
            result.push((self.packages.key_at(i).as_str(), self.packages.value_at(i)));
            i = i + 1;
        }
        result
    }

    fn resolve_export(&self, name: &str, kind: ExportKind) -> (result: Result<
        ResolvedPackageExport<'_>,
        PackageRegistryError,
    >)
        requires
            self.wf(),
        ensures
            resolves(self@, name@, kind, result),
    {
        proof {
            self.packages.lemma_order();
        }
        let chars = text::chars_of(name);
        let mut found: Option<ResolvedPackageExport<'_>> = None;
        let mut width: usize = 0;
        let mut i: usize = 0;
        while i < self.packages.len()
            invariant
                self.wf(),
                self.packages.wf(),
                self@ == self.packages@,
                self@.dom() == self.packages.order().to_set(),
                chars@ == name@,
                i <= self.packages.order().len(),
                match found {
                    Some(export) => {
                        let id = export.package.manifest.id@;
                        &&& width == id.len()
                        &&& self@.dom().contains(id)
                        &&& *export.package == self@[id]
                        &&& is_export_of(name@, id, *export.package, kind)
                        &&& export.export_name@ == name@.skip(id.len() + 1int)
                        &&& forall|j: int|
                            0 <= j < i && is_export_of(
                                name@,
                                #[trigger] self.packages.order()[j],
                                self@[self.packages.order()[j]],
                                kind,
                            ) ==> self.packages.order()[j].len() <= width
                    },
                    None => forall|j: int|
                        0 <= j < i ==> !is_export_of(
                            name@,
                            #[trigger] self.packages.order()[j],
                            self@[self.packages.order()[j]],
                            kind,
                        ),
                },
            decreases self.packages.order().len() - i,
        {
            let id = self.packages.key_at(i);
            let package = self.packages.value_at(i);
            let id_width: usize = text::chars_of(id.as_str()).len();
            if let Some(export_name) = exported_name(
                chars.as_slice(),
                id.as_str(),
                package,
                kind,
            ) {
                let longer: bool = match &found {
                    Some(_) => id_width > width,
                    None => true,
                };
                if longer {
                    found = Some(ResolvedPackageExport { package, export_name });
                    width = id_width;
                }
            }
            i = i + 1;
        }
        proof {
            assert forall|id: Seq<char>| #[trigger] self@.dom().contains(id) implies exists|j: int|
                0 <= j < self.packages.order().len() && #[trigger] self.packages.order()[j]
                    == id by {
                assert(self.packages.order().to_set().contains(id));
                let j = choose|j: int|
                    0 <= j < self.packages.order().len() && self.packages.order()[j] == id;
                assert(self.packages.order()[j] == id);
            }
        }
        match found {
            Some(export) => {
                proof {
                    lemma_resolves(self@, name@, kind, export);
                }
                Ok(export)
            },
            None => Err(PackageRegistryError::UnknownExport(name.to_owned())),
        }
    }

    /// Finds the package that exports a macro under its qualified name; the one
    /// with the longest id, where several do.
    pub fn resolve_macro(&self, name: &str) -> (result: Result<
        ResolvedPackageExport<'_>,
        PackageRegistryError,
    >)
        requires
            self.wf(),
        ensures
            resolves(self@, name@, ExportKind::Macro, result),
    {
        self.resolve_export(name, ExportKind::Macro)
    }

    /// Finds the package that exports a command under its qualified name; the
    /// one with the longest id, where several do.
    pub fn resolve_command(&self, name: &str) -> (result: Result<
        ResolvedPackageExport<'_>,
        PackageRegistryError,
    >)
        requires
            self.wf(),
        ensures
            resolves(self@, name@, ExportKind::Command, result),
    {
        self.resolve_export(name, ExportKind::Command)
    }
}

/// Whether an export is the one that a qualified name means.
pub open spec fn is_resolved(
    packages: Map<Seq<char>, RegisteredPackage>,
    name: Seq<char>,
    kind: ExportKind,
    export: ResolvedPackageExport<'_>,
) -> bool {
    let id = export.package.manifest.id@;
    &&& packages.dom().contains(id)
    &&& *export.package == packages[id]
    &&& is_export_of(name, id, packages[id], kind)
    &&& export.export_name@ == name.skip(id.len() + 1int)
    &&& forall|other: Seq<char>| #[trigger]
        packages.dom().contains(other) && is_export_of(name, other, packages[other], kind)
            ==> other.len() <= id.len()
}

/// Whether a result is the resolution of a qualified name.
pub open spec fn resolves(
    packages: Map<Seq<char>, RegisteredPackage>,
    name: Seq<char>,
    kind: ExportKind,
    result: Result<ResolvedPackageExport<'_>, PackageRegistryError>,
) -> bool {
    match result {
        Ok(export) => is_resolved(packages, name, kind, export),
        Err(error) => {
            &&& error@ == PackageRegistryErrorView::UnknownExport(name)
            &&& forall|id: Seq<char>| #[trigger]
                packages.dom().contains(id) ==> !is_export_of(name, id, packages[id], kind)
        },
    }
}

proof fn lemma_resolves(
    packages: Map<Seq<char>, RegisteredPackage>,
    name: Seq<char>,
    kind: ExportKind,
    export: ResolvedPackageExport<'_>,
)
    requires
        is_resolved(packages, name, kind, export),
    ensures
        resolves(packages, name, kind, Ok(export)),
{
}

proof fn lemma_builtins_fail(documents: Seq<PackageDocument>, i: int, n: int)
    requires
        0 <= i < n <= documents.len(),
        builtin_ids(documents, i) is Ok,
        builtin_ids(documents, i + 1) is Err,
    ensures
        builtin_ids(documents, n) == builtin_ids(documents, i + 1),
    decreases n,
{
    if n > i + 1 {
        lemma_builtins_fail(documents, i, n - 1);
    }
}

proof fn lemma_builtin_is_registered(documents: Seq<PackageDocument>, i: int, n: int)
    requires
        0 <= i < n <= documents.len(),
        builtin_ids(documents, n) is Ok,
    ensures
        builtin_ids(documents, n)->Ok_0.contains(documents[i].manifest.id@),
    decreases n,
{
    if i < n - 1 {
        lemma_builtin_is_registered(documents, i, n - 1);
    }
}

proof fn lemma_directories_fail(
    registered: Set<Seq<char>>,
    directories: Seq<PackageDirectory>,
    i: int,
    n: int,
)
    requires
        0 <= i < n <= directories.len(),
        loaded_ids(registered, directories, i) is Ok,
        loaded_ids(registered, directories, i + 1) is Err,
    ensures
        loaded_ids(registered, directories, n) == loaded_ids(registered, directories, i + 1),
    decreases n,
{
    if n > i + 1 {
        lemma_directories_fail(registered, directories, i, n - 1);
    }
}

proof fn lemma_loaded_ids_grow(
    registered: Set<Seq<char>>,
    directories: Seq<PackageDirectory>,
    n: int,
    id: Seq<char>,
)
    requires
        0 <= n <= directories.len(),
        loaded_ids(registered, directories, n) is Ok,
        registered.contains(id),
    ensures
        loaded_ids(registered, directories, n)->Ok_0.contains(id),
    decreases n,
{
    if n > 0 {
        lemma_loaded_ids_grow(registered, directories, n - 1, id);
    }
}

/// A workspace whose packages hold the id of a registered one is refused: a
/// built-in package is never replaced.
pub proof fn law_registered_packages_are_not_replaced(
    registered: Set<Seq<char>>,
    directories: Seq<PackageDirectory>,
    i: int,
    n: int,
)
    requires
        0 <= i < n <= directories.len(),
        directory_problem(directories[i]) is None,
        registered.contains(directory_id(directories[i])),
    ensures
        loaded_ids(registered, directories, n) is Err,
    decreases n,
{
    if loaded_ids(registered, directories, n) is Ok {
        if i < n - 1 {
            law_registered_packages_are_not_replaced(registered, directories, i, n - 1);
        } else {
            lemma_loaded_ids_grow(
                registered,
                directories,
                n - 1,
                directory_id(directories[i]),
            );
        }
    }
}

/// The order in which directories are found does not matter: the same
/// directories, each with a path of its own, are loaded in the same order.
pub proof fn law_discovery_order_is_irrelevant(
    a: Seq<PackageDirectory>,
    b: Seq<PackageDirectory>,
)
    requires
        a.to_multiset() == b.to_multiset(),
        a.no_duplicates(),
        forall|x: PackageDirectory, y: PackageDirectory|
            #![trigger a.contains(x), a.contains(y)]
            a.contains(x) && a.contains(y) && x.path@ == y.path@ ==> x == y,
    ensures
        ordering::stable_sorted(a) == ordering::stable_sorted(b),
{
    let x = ordering::stable_sorted(a);
    let y = ordering::stable_sorted(b);
    ordering::lemma_stable_sorted_in_order(a);
    ordering::lemma_stable_sorted_in_order(b);
    ordering::lemma_stable_sorted_permutes(a);
    ordering::lemma_stable_sorted_permutes(b);
    a.lemma_multiset_has_no_duplicates();
    x.lemma_multiset_has_no_duplicates_conv();
    assert forall|i: int, j: int|
        #![trigger x[i], x[j]]
        0 <= i < j < x.len() implies x[i].ranks_before(&x[j]) by {
        assert(x.contains(x[i]) && x.contains(x[j]));
        ordering::lemma_stable_sorted_contains(a, x[i]);
        ordering::lemma_stable_sorted_contains(a, x[j]);
        assert(a.contains(x[i]) && a.contains(x[j]));
        assert(x[i] != x[j]);
        text::lemma_text_lt_total(x[i].path@, x[j].path@);
    }
    ordering::lemma_in_order_unique(x, y);
}

/// The packages of a qualified name are told apart by the length of their ids:
/// no two packages of a registry are both meant.
pub proof fn law_resolution_is_unique(
    packages: Map<Seq<char>, RegisteredPackage>,
    name: Seq<char>,
    kind: ExportKind,
    a: ResolvedPackageExport<'_>,
    b: ResolvedPackageExport<'_>,
)
    requires
        is_resolved(packages, name, kind, a),
        is_resolved(packages, name, kind, b),
    ensures
        *a.package == *b.package,
        a.export_name@ == b.export_name@,
{
    let x = a.package.manifest.id@;
    let y = b.package.manifest.id@;
    assert(packages.dom().contains(x) && packages.dom().contains(y));
    assert(x.len() == y.len());
    assert(x =~= y);
}

/// A qualified name means an export of a package: the name is the package's id,
/// a dot and a macro that the package exports, and no package with a longer id
/// exports one under that name.
pub proof fn law_macros_resolve_to_the_longest_package(
    registry: &PackageRegistry,
    name: &str,
    id: Seq<char>,
    export: Seq<char>,
    result: Result<ResolvedPackageExport<'_>, PackageRegistryError>,
)
    requires
        registry.wf(),
        call_ensures(PackageRegistry::resolve_macro, (registry, name), result),
        registry@.dom().contains(id),
        export.len() > 0,
        name@ == id + seq!['.'] + export,
        text::texts(registry@[id].manifest.exports.macros@).contains(export),
    ensures
        result is Ok,
        result->Ok_0.package.manifest.id@.len() >= id.len(),
        result->Ok_0.package.manifest.id@ + seq!['.'] + result->Ok_0.export_name@ == name@,
        text::texts(result->Ok_0.package.manifest.exports.macros@).contains(
            result->Ok_0.export_name@,
        ),
        result->Ok_0.package.manifest.id@.len() == id.len() ==> result->Ok_0.export_name@
            == export,
{
    assert(name@.take(id.len() as int) =~= id);
    assert(name@.skip(id.len() + 1int) =~= export);
    assert(is_export_of(name@, id, registry@[id], ExportKind::Macro));
    let found = result->Ok_0.package.manifest.id@;
    assert(name@ =~= name@.take(found.len() as int) + seq!['.'] + name@.skip(found.len() + 1int));
}

/// The same holds of commands, which are told apart from macros: a name that is
/// only exported as a macro is no command.
pub proof fn law_commands_resolve_to_the_longest_package(
    registry: &PackageRegistry,
    name: &str,
    id: Seq<char>,
    export: Seq<char>,
    result: Result<ResolvedPackageExport<'_>, PackageRegistryError>,
)
    requires
        registry.wf(),
        call_ensures(PackageRegistry::resolve_command, (registry, name), result),
        registry@.dom().contains(id),
        export.len() > 0,
        name@ == id + seq!['.'] + export,
    ensures
        text::texts(registry@[id].manifest.exports.commands@).contains(export) ==> result is Ok
            && result->Ok_0.package.manifest.id@.len() >= id.len(),
        result is Ok ==> text::texts(result->Ok_0.package.manifest.exports.commands@).contains(
            result->Ok_0.export_name@,
        ) && result->Ok_0.package.manifest.id@ + seq!['.'] + result->Ok_0.export_name@ == name@,
{
    assert(name@.take(id.len() as int) =~= id);
    assert(name@.skip(id.len() + 1int) =~= export);
    if text::texts(registry@[id].manifest.exports.commands@).contains(export) {
        assert(is_export_of(name@, id, registry@[id], ExportKind::Command));
    }
    if result is Ok {
        let found = result->Ok_0.package.manifest.id@;
        assert(name@ =~= name@.take(found.len() as int) + seq!['.'] + name@.skip(
            found.len() + 1int,
        ));
    }
}

/// An accepted manifest has the supported format and core version, a dotted id,
/// a version of three numbers, and lists every export and capability once.
pub proof fn law_accepted_manifests_are_well_formed(manifest: &PackageManifest, i: int, j: int)
    requires
        call_ensures(validate_manifest, (manifest,), Ok::<(), String>(())),
        0 <= i < j,
    ensures
        manifest.format == 1,
        manifest.requires_core@ == "^1"@,
        names::is_dotted(manifest.id@, false),
        names::is_version(manifest.version@),
        j < manifest.exports.macros@.len() ==> manifest.exports.macros@[i]@
            != manifest.exports.macros@[j]@ && names::is_dotted(
            manifest.exports.macros@[j]@,
            false,
        ),
        j < manifest.exports.commands@.len() ==> manifest.exports.commands@[i]@
            != manifest.exports.commands@[j]@ && names::is_dotted(
            manifest.exports.commands@[j]@,
            false,
        ),
        j < manifest.capabilities@.len() ==> manifest.capabilities@[i].name@
            != manifest.capabilities@[j].name@ && names::is_dotted(
            manifest.capabilities@[j].name@,
            true,
        ),
{
    let macros = text::texts(manifest.exports.macros@);
    let commands = text::texts(manifest.exports.commands@);
    let capabilities = capability_names(manifest.capabilities@);
    lemma_listed_once("exports.macros name `"@, macros, false, i, j);
    lemma_listed_once("exports.commands name `"@, commands, false, i, j);
    lemma_listed_once("capability `"@, capabilities, true, i, j);
}

proof fn lemma_listed_once(
    subject: Seq<char>,
    list: Seq<Seq<char>>,
    underscore: bool,
    i: int,
    j: int,
)
    requires
        ordering::first_problem(name_problems(subject, list, underscore)) is None,
        0 <= i < j,
    ensures
        j < list.len() ==> list[i] != list[j] && names::is_dotted(list[j], underscore),
{
    let problems = name_problems(subject, list, underscore);
    ordering::lemma_no_first_problem(problems);
    if j < list.len() {
        assert(problems[j] is None);
        assert(list.take(j)[i] == list[i]);
    }
}

proof fn lemma_loaded(
    registered: Set<Seq<char>>,
    directories: Seq<PackageDirectory>,
    n: int,
    i: int,
)
    requires
        0 <= i < n <= directories.len(),
        loaded_ids(registered, directories, n) is Ok,
    ensures
        directory_problem(directories[i]) is None,
        loaded_ids(registered, directories, n)->Ok_0.contains(directory_id(directories[i])),
    decreases n,
{
    if i < n - 1 {
        lemma_loaded(registered, directories, n - 1, i);
    }
}

/// A workspace is loaded only where the manifest of each of its packages is
/// there and valid, and every one of them is registered under its id.
pub proof fn law_every_package_is_registered(
    directories: Vec<PackageDirectory>,
    registry: PackageRegistry,
    i: int,
)
    requires
        call_ensures(
            PackageRegistry::load_workspace,
            (directories,),
            Ok::<PackageRegistry, PackageRegistryError>(registry),
        ),
        0 <= i < directories@.len(),
    ensures
        directories@[i].manifest is Parsed,
        ({
            let document = directories@[i].manifest->Parsed_0;
            &&& manifest_problem(document.manifest) is None
            &&& registry@.dom().contains(document.manifest.id@)
            &&& registry@[document.manifest.id@].manifest == document.manifest
            &&& registry@[document.manifest.id@].source is Workspace
        }),
{
    let ordered = ordering::stable_sorted(directories@);
    let directory = directories@[i];
    assert(directories@.contains(directory));
    ordering::lemma_stable_sorted_contains(directories@, directory);
    let k = ordered.index_of(directory);
    lemma_loaded(Set::empty(), ordered, ordered.len() as int, k);
    assert(ordered[k] == directory);
}

} // verus!
