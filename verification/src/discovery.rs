//! Deterministic fallback for project and source-unit discovery.
//!
//! Build-specific workers may refine the manifest later, but Kotlin and Java
//! files can always be inventoried from a file listing alone.

use vstd::prelude::*;

use crate::canonical::{
    BuildSystem, Component, ComponentId, DependencyEdge, Fingerprint, Language, ProjectManifest,
    Provenance, SourceOrigin, SourceUnit, SourceUnitId, WorkspaceId, WorkspacePath,
};
use crate::digest;
use crate::input_inventory;
use crate::input_inventory::{
    component_context_fingerprint, component_scope, file_name_of, is_configuration_input,
    is_path_within, parent_path_of, ConfigurationInput,
};
use crate::ordered_map::OrderedMap;
use crate::ordering;
use crate::ordering::{reversed, stable_sort, Ranked};
use crate::protocol::WORKER_PROTOCOL_VERSION;
use crate::shown::push;
use crate::text;

verus! {

/// A regular file of a workspace, with its contents where they matter.
#[derive(Debug, PartialEq, Eq)]
pub struct WorkspaceFile {
    pub path: WorkspacePath,
    pub content: Vec<u8>,
}

/// Why a workspace cannot be discovered.
#[derive(Debug, PartialEq, Eq)]
pub enum DiscoveryError {
    Io { path: String, source: String },
    OutsideWorkspace { path: String, root: String },
}

impl DiscoveryError {
    /// What is said about the failure.
    pub open spec fn message_text(&self) -> Seq<char> {
        match self {
            DiscoveryError::Io { path, source } => "cannot inspect "@ + path@ + ": "@ + source@,
            DiscoveryError::OutsideWorkspace { path, root } => path@
                + " is outside the workspace "@ + root@,
        }
    }

    /// Says why the workspace cannot be discovered.
    pub fn message(&self) -> (result: String)
        ensures
            result@ == self.message_text(),
    {
        match self {
            DiscoveryError::Io { path, source } => {
                let mut out = "cannot inspect ".to_owned();
                push(&mut out, path.as_str());
                push(&mut out, ": ");
                push(&mut out, source.as_str());
                out
            },
            DiscoveryError::OutsideWorkspace { path, root } => {
                let mut out = path.clone();
                push(&mut out, " is outside the workspace ");
                push(&mut out, root.as_str());
                out
            },
        }
    }
}

/// A regular file that was found below a workspace root, and its contents or
/// why they could not be read.
#[derive(Debug, PartialEq, Eq)]
pub struct ObservedFile {
    pub path: String,
    pub content: Result<Vec<u8>, String>,
}

/// The path of a file below a root, relative to it.
pub open spec fn path_below(root: Seq<char>, path: Seq<char>) -> Option<Seq<char>> {
    text::after(path, root + "/"@)
}

/// Finds the path of a file in its workspace.
pub fn workspace_path(root: &str, path: &str) -> (result: Result<WorkspacePath, DiscoveryError>)
    ensures
        match path_below(root@, path@) {
            Some(relative) => result is Ok && result->Ok_0@ == relative,
            None => result is Err && result->Err_0 is OutsideWorkspace
                && result->Err_0->OutsideWorkspace_path@ == path@
                && result->Err_0->root@ == root@,
        },
{
    let prefix = text::join_text(root, "/");
    match text::strip_before(path, prefix.as_str()) {
        Some(relative) => Ok(WorkspacePath::new(relative)),
        None => Err(
            DiscoveryError::OutsideWorkspace { path: path.to_owned(), root: root.to_owned() },
        ),
    }
}

/// Whether an observed file stops a discovery, and how: it lies outside the
/// workspace, or it could not be read.
pub open spec fn stops_discovery(
    error: DiscoveryError,
    root: Seq<char>,
    observed: ObservedFile,
) -> bool {
    match (path_below(root, observed.path@), observed.content) {
        (None, _) => error is OutsideWorkspace && error->OutsideWorkspace_path@ == observed.path@
            && error->root@ == root,
        (Some(_), Err(cause)) => error is Io && error->Io_path@ == observed.path@
            && error->source@ == cause@,
        (Some(_), Ok(_)) => false,
    }
}

/// Whether an observed file is a file of the workspace.
pub open spec fn is_observed(file: WorkspaceFile, root: Seq<char>, observed: ObservedFile) -> bool {
    &&& path_below(root, observed.path@) == Some(file.path@)
    &&& observed.content matches Ok(content) && content == file.content
}

/// Takes the files that were found below a workspace root, in their order. The
/// first that lies outside or could not be read stops the discovery.
pub fn workspace_files(root: &str, observed: Vec<ObservedFile>) -> (result: Result<
    Vec<WorkspaceFile>,
    DiscoveryError,
>)
    ensures
        match result {
            Ok(files) => files@.len() == observed@.len() && forall|i: int|
                0 <= i < files@.len() ==> is_observed(#[trigger] files@[i], root@, observed@[i]),
            Err(error) => exists|i: int|
                0 <= i < observed@.len() && stops_discovery(error, root@, #[trigger] observed@[i])
                    && forall|j: int|
                    0 <= j < i ==> path_below(root@, (#[trigger] observed@[j]).path@) is Some
                        && observed@[j].content is Ok,
        },
{
    let ghost all = observed@;
    let mut backward = reversed(observed);
    let mut files: Vec<WorkspaceFile> = Vec::new();
    while backward.len() > 0
        invariant
            all == observed@,
            files@.len() + backward@.len() == all.len(),
            forall|i: int|
                0 <= i < backward@.len() ==> #[trigger] backward@[i] == all[all.len() - 1 - i],
            forall|i: int|
                0 <= i < files@.len() ==> is_observed(#[trigger] files@[i], root@, all[i]),
        decreases backward@.len(),
    {
        let ghost n = files@.len() as int;
        proof {
            assert(backward@[backward@.len() - 1] == all[n]);
            assert forall|j: int| 0 <= j < n implies path_below(
                root@,
                (#[trigger] all[j]).path@,
            ) is Some && all[j].content is Ok by {
                assert(is_observed(files@[j], root@, all[j]));
            }
        }
        match backward.pop() {
            None => {},
            Some(found) => {
                assert(found == all[n]);
                let path = match workspace_path(root, found.path.as_str()) {
                    Ok(path) => path,
                    Err(error) => {
                        assert(stops_discovery(error, root@, all[n]));
                        return Err(error);
                    },
                };
                match found.content {
                    Ok(content) => {
                        files.push(WorkspaceFile { path, content });
                    },
                    Err(source) => {
                        let error = DiscoveryError::Io { path: found.path, source };
                        assert(stops_discovery(error, root@, all[n]));
                        return Err(error);
                    },
                }
            },
        }
    }
    Ok(files)
}

/// Results of one discovery pass. All paths are slash-separated and relative
/// to the workspace root.
#[derive(Debug, PartialEq, Eq)]
pub struct WorkspaceDiscovery {
    pub manifest: ProjectManifest,
    pub source_units: Vec<SourceUnit>,
    pub configuration_inputs: Vec<WorkspacePath>,
    /// Individually fingerprinted inputs and the component contexts they can
    /// invalidate.
    pub configuration_input_records: Vec<ConfigurationInput>,
    /// Symlinks that the file listing skipped.
    pub skipped_symlinks: Vec<WorkspacePath>,
}

/// The key by which paths are ordered segment by segment: the separator comes
/// before every other scalar value.
pub open spec fn path_key(path: Seq<char>) -> Seq<char> {
    Seq::new(
        path.len(),
        |i: int|
            if path[i] == '/' {
                '\0'
            } else {
                path[i]
            },
    )
}

/// The path of a key.
pub open spec fn key_path(key: Seq<char>) -> Seq<char> {
    Seq::new(
        key.len(),
        |i: int|
            if key[i] == '\0' {
                '/'
            } else {
                key[i]
            },
    )
}

fn replaced(value: &str, from: char, to: char) -> (result: String)
    ensures
        result@ == Seq::new(
            value@.len(),
            |i: int|
                if value@[i] == from {
                    to
                } else {
                    value@[i]
                },
        ),
{
    let chars = text::chars_of(value);
    let mut result = String::new();
    let mut i: usize = 0;
    while i < chars.len()
        invariant
            chars@ == value@,
            i <= chars@.len(),
            result@.len() == i,
            forall|j: int|
                0 <= j < i ==> #[trigger] result@[j] == (if value@[j] == from {
                    to
                } else {
                    value@[j]
                }),
        decreases chars@.len() - i,
    {
        result.push(
            if chars[i] == from {
                to
            } else {
                chars[i]
            },
        );
        i = i + 1;
    }
    assert(result@ =~= Seq::new(
        value@.len(),
        |i: int|
            if value@[i] == from {
                to
            } else {
                value@[i]
            },
    ));
    result
}

impl Ranked for WorkspacePath {
    open spec fn ranks_before(&self, other: &Self) -> bool {
        text::text_lt(path_key(self@), path_key(other@))
    }

    proof fn lemma_rank_asymmetric(a: &Self, b: &Self) {
        text::lemma_text_lt_asymmetric(path_key(a@), path_key(b@));
    }

    proof fn lemma_rank_negatively_transitive(a: &Self, b: &Self, c: &Self) {
        text::lemma_text_lt_negatively_transitive(path_key(a@), path_key(b@), path_key(c@));
    }

    fn is_before(&self, other: &Self) -> (result: bool) {
        text::text_before(
            replaced(self.as_str(), '/', '\0').as_str(),
            replaced(other.as_str(), '/', '\0').as_str(),
        )
    }
}

impl Ranked for WorkspaceFile {
    open spec fn ranks_before(&self, other: &Self) -> bool {
        self.path.ranks_before(&other.path)
    }

    proof fn lemma_rank_asymmetric(a: &Self, b: &Self) {
        WorkspacePath::lemma_rank_asymmetric(&a.path, &b.path);
    }

    proof fn lemma_rank_negatively_transitive(a: &Self, b: &Self, c: &Self) {
        WorkspacePath::lemma_rank_negatively_transitive(&a.path, &b.path, &c.path);
    }

    fn is_before(&self, other: &Self) -> (result: bool) {
        self.path.is_before(&other.path)
    }
}

impl Ranked for SourceUnit {
    open spec fn ranks_before(&self, other: &Self) -> bool {
        text::text_lt(self.path@, other.path@)
    }

    proof fn lemma_rank_asymmetric(a: &Self, b: &Self) {
        text::lemma_text_lt_asymmetric(a.path@, b.path@);
    }

    proof fn lemma_rank_negatively_transitive(a: &Self, b: &Self, c: &Self) {
        text::lemma_text_lt_negatively_transitive(a.path@, b.path@, c.path@);
    }

    fn is_before(&self, other: &Self) -> (result: bool) {
        text::text_before(self.path.as_str(), other.path.as_str())
    }
}

/// Directories that a file listing leaves out.
pub open spec fn excluded_directory(name: Seq<char>) -> bool {
    ||| name == ".git"@
    ||| name == ".gradle"@
    ||| name == ".idea"@
    ||| name == ".kide"@
    ||| name == "build"@
    ||| name == "node_modules"@
    ||| name == "out"@
    ||| name == "target"@
}

/// Computes `excluded_directory`.
pub fn is_excluded_directory(name: &str) -> (result: bool)
    ensures
        result == excluded_directory(name@),
{
    text::same_text(name, ".git") || text::same_text(name, ".gradle") || text::same_text(
        name,
        ".idea",
    ) || text::same_text(name, ".kide") || text::same_text(name, "build") || text::same_text(
        name,
        "node_modules",
    ) || text::same_text(name, "out") || text::same_text(name, "target")
}

/// Whether a file of this name makes its directory a component.
pub open spec fn component_file(name: Seq<char>) -> bool {
    ||| name == "build.gradle"@
    ||| name == "build.gradle.kts"@
    ||| name == "pom.xml"@
    ||| name == "Cargo.toml"@
    ||| name == "package.json"@
}

/// The extension of a file name: what follows its last dot, unless the name
/// has no dot or only a leading one.
pub open spec fn extension(path: Seq<char>) -> Option<Seq<char>> {
    let name = input_inventory::file_name(path);
    let dot = text::last_position(name, '.');
    if dot <= 0 {
        None
    } else {
        Some(name.skip(dot + 1))
    }
}

/// The language of a source path.
pub open spec fn source_language(path: Seq<char>) -> Option<Language> {
    if extension(path) == Some("kt"@) || extension(path) == Some("kts"@) {
        Some(Language::Kotlin)
    } else if extension(path) == Some("java"@) {
        Some(Language::Java)
    } else {
        None
    }
}

/// Computes `source_language`.
pub fn language_for(path: &str) -> (result: Option<Language>)
    ensures
        result == source_language(path@),
{
    let name = text::chars_of(file_name_of(path).as_str());
    let length: usize = name.len();
    match text::find_last_char(name.as_slice(), '.') {
        Some(dot) => {
            if dot == 0 {
                return None;
            }
            let suffix = text::slice_text(name.as_slice(), dot + 1, length);
            assert(suffix@ =~= name@.skip(dot + 1));
            if text::same_text(suffix.as_str(), "kt") || text::same_text(suffix.as_str(), "kts") {
                Some(Language::Kotlin)
            } else if text::same_text(suffix.as_str(), "java") {
                Some(Language::Java)
            } else {
                None
            }
        },
        None => None,
    }
}

/// Whether a source lies below a directory for generated sources.
pub open spec fn generated(path: Seq<char>) -> bool {
    text::split_on(path, '/').contains("generated"@)
}

/// Computes `generated`.
pub fn is_generated_source(path: &WorkspacePath) -> (result: bool)
    ensures
        result == generated(path@),
{
    let segments = text::split_chars(text::chars_of(path.as_str()).as_slice(), '/');
    text::contains_text(segments.as_slice(), "generated")
}

/// The configuration inputs among the files, in order.
pub open spec fn configuration_files(files: Seq<WorkspaceFile>) -> Seq<WorkspaceFile>
    decreases files.len(),
{
    if files.len() == 0 {
        Seq::empty()
    } else if input_inventory::configuration_input(files.last().path@) {
        configuration_files(files.drop_last()).push(files.last())
    } else {
        configuration_files(files.drop_last())
    }
}

/// What the workspace fingerprint is computed from: for each configuration
/// input its path, a zero byte, its length in big-endian order, its content.
pub open spec fn workspace_bytes(files: Seq<WorkspaceFile>) -> Seq<u8>
    decreases files.len(),
{
    if files.len() == 0 {
        Seq::empty()
    } else {
        let rest = workspace_bytes(files.drop_last());
        let file = files.last();
        if input_inventory::configuration_input(file.path@) {
            rest + vstd::utf8::encode_utf8(file.path@) + seq![0u8]
                + vstd::bytes::spec_u64_to_le_bytes(file.content@.len() as u64).reverse()
                + file.content@
        } else {
            rest
        }
    }
}

/// Appends the big-endian bytes of a number.
fn append_big_endian(bytes: &mut Vec<u8>, value: u64)
    ensures
        final(bytes)@ == old(bytes)@ + vstd::bytes::spec_u64_to_le_bytes(value).reverse(),
{
    let ghost start = bytes@;
    let little = vstd::bytes::u64_to_le_bytes(value);
    let ghost big = little@.reverse();
    let mut i: usize = little.len();
    while i > 0
        invariant
            i <= little@.len(),
            big == little@.reverse(),
            bytes@ == start + big.take(little@.len() - i),
        decreases i,
    {
        i = i - 1;
        bytes.push(little[i]);
        assert(start + big.take(little@.len() - i) =~= (start + big.take(
            little@.len() - i - 1,
        )).push(little@[i as int]));
    }
    assert(big.take(little@.len() as int) =~= big);
}

/// The fingerprint of all configuration inputs of the workspace.
fn fingerprint_files(files: &[WorkspaceFile]) -> (result: Fingerprint)
    ensures
        result@ == digest::fingerprint_text(workspace_bytes(files@)),
{
    let mut bytes: Vec<u8> = Vec::new();
    let mut i: usize = 0;
    while i < files.len()
        invariant
            i <= files@.len(),
            bytes@ == workspace_bytes(files@.take(i as int)),
        decreases files@.len() - i,
    {
        assert(files@.take(i + 1).drop_last() =~= files@.take(i as int));
        if is_configuration_input(files[i].path.as_str()) {
            digest::append_bytes(&mut bytes, digest::bytes_of(files[i].path.as_str()).as_slice());
            let ghost partial = bytes@;
            bytes.push(0);
            assert(bytes@ =~= partial + seq![0u8]);
            append_big_endian(&mut bytes, files[i].content.len() as u64);
            digest::append_bytes(&mut bytes, files[i].content.as_slice());
        }
        i = i + 1;
    }
    assert(files@.take(i as int) =~= files@);
    digest::fingerprint_bytes(bytes.as_slice())
}

/// The keys of the component roots: the directories of component files, and
/// the workspace root, whose path is empty.
pub open spec fn root_keys(files: Seq<WorkspaceFile>) -> Set<Seq<char>>
    decreases files.len(),
{
    if files.len() == 0 {
        Set::empty().insert(Seq::empty())
    } else {
        let rest = root_keys(files.drop_last());
        let path = files.last().path@;
        if component_file(input_inventory::file_name(path)) {
            rest.insert(path_key(input_inventory::parent_path(path)))
        } else {
            rest
        }
    }
}

/// The component roots, ordered segment by segment, each once.
pub open spec fn component_roots(files: Seq<WorkspaceFile>) -> Seq<Seq<char>> {
    let keys = ordering::sorted_texts(root_keys(files));
    Seq::new(keys.len(), |i: int| key_path(keys[i]))
}

/// Computes `component_roots`.
fn find_component_roots(files: &[WorkspaceFile]) -> (result: Vec<String>)
    ensures
        text::texts(result@) == component_roots(files@),
{
    let mut keys: OrderedMap<()> = OrderedMap::new();
    keys.insert(String::new(), ());
    assert(keys@.dom() =~= root_keys(files@.take(0)));
    let mut i: usize = 0;
    while i < files.len()
        invariant
            i <= files@.len(),
            keys.wf(),
            keys@.dom() == root_keys(files@.take(i as int)),
        decreases files@.len() - i,
    {
        assert(files@.take(i + 1).drop_last() =~= files@.take(i as int));
        let path = files[i].path.as_str();
        let name = file_name_of(path);
        let name = name.as_str();
        if text::same_text(name, "build.gradle") || text::same_text(name, "build.gradle.kts")
            || text::same_text(name, "pom.xml") || text::same_text(name, "Cargo.toml")
            || text::same_text(name, "package.json") {
            let parent = parent_path_of(path);
            let key = replaced(parent.as_str(), '/', '\0');
            assert(key@ =~= path_key(parent@));
            keys.insert(key, ());
        }
        i = i + 1;
    }
    assert(files@.take(i as int) =~= files@);
    proof {
        keys.lemma_order();
    }
    let mut result: Vec<String> = Vec::new();
    let mut j: usize = 0;
    while j < keys.len()
        invariant
            keys.wf(),
            j <= keys.order().len(),
            result@.len() == j,
            forall|k: int| 0 <= k < j ==> (#[trigger] result@[k])@ == key_path(keys.order()[k]),
        decreases keys.order().len() - j,
    {
        let key = keys.key_at(j);
        let root = replaced(key.as_str(), '\0', '/');
        assert(root@ =~= key_path(key@));
        result.push(root);
        j = j + 1;
    }
    assert(text::texts(result@) =~= component_roots(files@));
    result
}

/// Whether the listing has a file at this path.
pub open spec fn has_file(files: Seq<WorkspaceFile>, path: Seq<char>) -> bool {
    exists|i: int| 0 <= i < files.len() && (#[trigger] files[i]).path@ == path
}

/// The path of a file in a directory.
pub open spec fn path_in(root: Seq<char>, name: Seq<char>) -> Seq<char> {
    if root.len() == 0 {
        name
    } else {
        root + "/"@ + name
    }
}

fn has_regular_file(files: &[WorkspaceFile], root: &str, name: &str) -> (result: bool)
    ensures
        result == has_file(files@, path_in(root@, name@)),
{
    let path = if root.is_empty() {
        name.to_owned()
    } else {
        text::join_text(text::join_text(root, "/").as_str(), name)
    };
    let mut i: usize = 0;
    while i < files.len()
        invariant
            i <= files@.len(),
            path@ == path_in(root@, name@),
            forall|j: int| 0 <= j < i ==> (#[trigger] files@[j]).path@ != path@,
        decreases files@.len() - i,
    {
        if text::same_text(files[i].path.as_str(), path.as_str()) {
            assert(files@[i as int].path@ == path@);
            return true;
        }
        i = i + 1;
    }
    false
}

/// The build system of a directory, by the first of its build files.
pub open spec fn build_system(files: Seq<WorkspaceFile>, root: Seq<char>) -> BuildSystem {
    if has_file(files, path_in(root, "build.gradle"@)) || has_file(
        files,
        path_in(root, "build.gradle.kts"@),
    ) {
        BuildSystem::Gradle
    } else if has_file(files, path_in(root, "pom.xml"@)) {
        BuildSystem::Maven
    } else if has_file(files, path_in(root, "Cargo.toml"@)) {
        BuildSystem::Cargo
    } else if has_file(files, path_in(root, "package.json"@)) {
        BuildSystem::Npm
    } else {
        BuildSystem::Filesystem
    }
}

/// Computes `build_system`.
fn build_system_for(files: &[WorkspaceFile], root: &str) -> (result: BuildSystem)
    ensures
        result == build_system(files@, root@),
{
    if has_regular_file(files, root, "build.gradle") || has_regular_file(
        files,
        root,
        "build.gradle.kts",
    ) {
        BuildSystem::Gradle
    } else if has_regular_file(files, root, "pom.xml") {
        BuildSystem::Maven
    } else if has_regular_file(files, root, "Cargo.toml") {
        BuildSystem::Cargo
    } else if has_regular_file(files, root, "package.json") {
        BuildSystem::Npm
    } else {
        BuildSystem::Filesystem
    }
}

/// The prefix that a build system gives its component ids.
pub open spec fn id_prefix(system: BuildSystem) -> Seq<char> {
    match system {
        BuildSystem::Gradle => "gradle"@,
        BuildSystem::Maven => "maven"@,
        BuildSystem::Cargo => "cargo"@,
        BuildSystem::Npm => "npm"@,
        BuildSystem::Bazel => "bazel"@,
        BuildSystem::Filesystem | BuildSystem::Other(_) => "filesystem"@,
    }
}

/// How a component root is named.
pub open spec fn root_name(root: Seq<char>) -> Seq<char> {
    if root.len() == 0 {
        "root"@
    } else {
        root
    }
}

/// The name of a component: its root with dashes for separators.
pub open spec fn component_name(root: Seq<char>) -> Seq<char> {
    Seq::new(
        root_name(root).len(),
        |i: int|
            if root_name(root)[i] == '/' {
                '-'
            } else {
                root_name(root)[i]
            },
    )
}

/// Whether a component is the one at a root, but for its configuration.
pub open spec fn is_component_at(
    component: Component,
    files: Seq<WorkspaceFile>,
    root: Seq<char>,
) -> bool {
    &&& component.id@ == id_prefix(build_system(files, root)) + ":"@ + root_name(root) + ":main"@
    &&& component.name@ == component_name(root)
    &&& component.build_system == build_system(files, root)
    &&& component.root@ == (if root.len() == 0 {
        "."@
    } else {
        root
    })
    &&& component.languages@ == seq![Language::Kotlin, Language::Java]
}

fn make_component(files: &[WorkspaceFile], root: &str, configuration: &Fingerprint) -> (result:
    Component)
    ensures
        is_component_at(result, files@, root@),
        result.configuration == *configuration,
{
    let system = build_system_for(files, root);
    let prefix = match &system {
        BuildSystem::Gradle => "gradle",
        BuildSystem::Maven => "maven",
        BuildSystem::Cargo => "cargo",
        BuildSystem::Npm => "npm",
        BuildSystem::Bazel => "bazel",
        _ => "filesystem",
    };
    let root_key = if root.is_empty() {
        "root"
    } else {
        root
    };
    let mut id = text::join_text(prefix, ":");
    id.append(root_key);
    id.append(":main");
    let name = replaced(root_key, '/', '-');
    assert(name@ =~= component_name(root@));
    let languages: Vec<Language> = vec![Language::Kotlin, Language::Java];
    assert(languages@ =~= seq![Language::Kotlin, Language::Java]);
    Component {
        id: ComponentId::new(id),
        name,
        build_system: system,
        root: WorkspacePath::new(
            if root.is_empty() {
                "."
            } else {
                root
            },
        ),
        languages,
        configuration: configuration.clone(),
    }
}

/// Whether a record describes a configuration input.
pub open spec fn is_record_of(
    record: ConfigurationInput,
    file: WorkspaceFile,
    components: Seq<Component>,
) -> bool {
    &&& record.path@ == file.path@
    &&& record.fingerprint@ == digest::fingerprint_text(file.content@)
    &&& record.components@ == input_inventory::scope_of(
        file.path@,
        components,
        components.len() as int,
    )
}

fn input_records(files: &[WorkspaceFile], components: &[Component]) -> (result: Vec<
    ConfigurationInput,
>)
    ensures
        result@.len() == configuration_files(files@).len(),
        forall|i: int|
            0 <= i < result@.len() ==> is_record_of(
                #[trigger] result@[i],
                configuration_files(files@)[i],
                components@,
            ),
{
    let mut result: Vec<ConfigurationInput> = Vec::new();
    let mut i: usize = 0;
    while i < files.len()
        invariant
            i <= files@.len(),
            result@.len() == configuration_files(files@.take(i as int)).len(),
            forall|j: int|
                0 <= j < result@.len() ==> is_record_of(
                    #[trigger] result@[j],
                    configuration_files(files@.take(i as int))[j],
                    components@,
                ),
        decreases files@.len() - i,
    {
        assert(files@.take(i + 1).drop_last() =~= files@.take(i as int));
        if is_configuration_input(files[i].path.as_str()) {
            let scope = component_scope(files[i].path.as_str(), components);
            result.push(
                ConfigurationInput {
                    path: files[i].path.clone(),
                    fingerprint: digest::fingerprint_bytes(files[i].content.as_slice()),
                    components: scope,
                },
            );
        }
        i = i + 1;
    }
    assert(files@.take(i as int) =~= files@);
    result
}

/// How deep a component root lies.
pub open spec fn root_depth(root: Seq<char>) -> nat {
    if root == "."@ {
        0
    } else {
        text::split_on(root, '/').len()
    }
}

fn depth_of(root: &str) -> (result: usize)
    ensures
        result == root_depth(root@),
{
    if text::same_text(root, ".") {
        0
    } else {
        let segments = text::split_chars(text::chars_of(root).as_slice(), '/');
        assert(text::texts(segments@).len() == segments@.len());
        segments.len()
    }
}

/// The first of the deepest among the first `n` components that hold a path;
/// -1 where none does.
pub open spec fn owner_index(path: Seq<char>, components: Seq<Component>, n: int) -> int
    decreases n,
{
    if n <= 0 {
        -1
    } else {
        let before = owner_index(path, components, n - 1);
        let root = components[n - 1].root@;
        if input_inventory::path_within(path, root) && (before < 0 || root_depth(
            components[before].root@,
        ) < root_depth(root)) {
            n - 1
        } else {
            before
        }
    }
}

/// Computes `owner_index`.
fn owner_of(path: &str, components: &[Component]) -> (result: Option<usize>)
    ensures
        match result {
            Some(index) => index == owner_index(path@, components@, components@.len() as int)
                && index < components@.len(),
            None => owner_index(path@, components@, components@.len() as int) < 0,
        },
{
    let mut found: Option<usize> = None;
    let mut i: usize = 0;
    while i < components.len()
        invariant
            i <= components@.len(),
            match found {
                Some(index) => index == owner_index(path@, components@, i as int) && index < i,
                None => owner_index(path@, components@, i as int) < 0,
            },
        decreases components@.len() - i,
    {
        let root = components[i].root.as_str();
        if is_path_within(path, root) {
            let deeper: bool = match found {
                Some(index) => depth_of(components[index].root.as_str()) < depth_of(root),
                None => true,
            };
            if deeper {
                found = Some(i);
            }
        }
        i = i + 1;
    }
    found
}

/// Whether a file is a source that discovery reports.
pub open spec fn is_source(path: Seq<char>) -> bool {
    !input_inventory::configuration_input(path) && source_language(path) is Some
}

/// The sources among the files that some component holds, in order.
pub open spec fn source_files(files: Seq<WorkspaceFile>, components: Seq<Component>) -> Seq<
    WorkspaceFile,
>
    decreases files.len(),
{
    if files.len() == 0 {
        Seq::empty()
    } else {
        let path = files.last().path@;
        if is_source(path) && owner_index(path, components, components.len() as int) >= 0 {
            source_files(files.drop_last(), components).push(files.last())
        } else {
            source_files(files.drop_last(), components)
        }
    }
}

/// Whether a source unit is the one of a file.
pub open spec fn is_unit_of(
    unit: SourceUnit,
    file: WorkspaceFile,
    components: Seq<Component>,
) -> bool {
    let owner = components[owner_index(file.path@, components, components.len() as int)];
    &&& unit.id@ == owner.id@ + ":"@ + file.path@
    &&& unit.component == owner.id
    &&& unit.path == file.path
    &&& Some(unit.language) == source_language(file.path@)
    &&& unit.origin == (if generated(file.path@) {
        SourceOrigin::Generated
    } else {
        SourceOrigin::Source
    })
    &&& unit.content@ == digest::fingerprint_text(file.content@)
    &&& unit.context == owner.configuration
}

/// Whether units are the ones of the sources, in order.
pub open spec fn are_units_of(
    units: Seq<SourceUnit>,
    files: Seq<WorkspaceFile>,
    components: Seq<Component>,
) -> bool {
    &&& units.len() == source_files(files, components).len()
    &&& forall|i: int|
        0 <= i < units.len() ==> is_unit_of(
            #[trigger] units[i],
            source_files(files, components)[i],
            components,
        )
}

fn source_units(files: &[WorkspaceFile], components: &[Component]) -> (result: Vec<SourceUnit>)
    ensures
        exists|units: Seq<SourceUnit>| #[trigger]
            are_units_of(units, files@, components@) && result@ == ordering::stable_sorted(units),
{
    let mut units: Vec<SourceUnit> = Vec::new();
    let mut i: usize = 0;
    while i < files.len()
        invariant
            i <= files@.len(),
            are_units_of(units@, files@.take(i as int), components@),
        decreases files@.len() - i,
    {
        assert(files@.take(i + 1).drop_last() =~= files@.take(i as int));
        let path = files[i].path.as_str();
        if !is_configuration_input(path) {
            if let Some(language) = language_for(path) {
                if let Some(owner) = owner_of(path, components) {
                    let component = &components[owner];
                    let origin = if is_generated_source(&files[i].path) {
                        SourceOrigin::Generated
                    } else {
                        SourceOrigin::Source
                    };
                    let mut id = text::join_text(component.id.as_str(), ":");
                    id.append(path);
                    units.push(
                        SourceUnit {
                            id: SourceUnitId::new(id),
                            component: component.id.clone(),
                            path: files[i].path.clone(),
                            language,
                            origin,
                            content: digest::fingerprint_bytes(files[i].content.as_slice()),
                            context: component.configuration.clone(),
                        },
                    );
                }
            }
        }
        i = i + 1;
    }
    assert(files@.take(i as int) =~= files@);
    assert(are_units_of(units@, files@, components@));
    stable_sort(units)
}

/// Whether components are the ones of a sorted listing, configured by their
/// records.
pub open spec fn are_components_of(
    components: Seq<Component>,
    files: Seq<WorkspaceFile>,
    records: Seq<ConfigurationInput>,
) -> bool {
    let roots = component_roots(files);
    &&& components.len() == roots.len()
    &&& forall|i: int|
        0 <= i < components.len() ==> {
            &&& is_component_at(#[trigger] components[i], files, roots[i])
            &&& components[i].configuration@ == digest::fingerprint_text(
                input_inventory::context_bytes(components[i].id@, records),
            )
        }
}

/// Whether records are the ones of a sorted listing.
pub open spec fn are_records_of(
    records: Seq<ConfigurationInput>,
    files: Seq<WorkspaceFile>,
    components: Seq<Component>,
) -> bool {
    &&& records.len() == configuration_files(files).len()
    &&& forall|i: int|
        0 <= i < records.len() ==> is_record_of(
            #[trigger] records[i],
            configuration_files(files)[i],
            components,
        )
}

/// The scope of an input depends on the ids and roots of the components alone.
proof fn lemma_scope_depends_on_roots(
    path: Seq<char>,
    before: Seq<Component>,
    after: Seq<Component>,
    n: int,
)
    requires
        before.len() == after.len(),
        0 <= n <= before.len(),
        forall|i: int|
            0 <= i < before.len() ==> (#[trigger] before[i]).id == after[i].id && before[i].root
                == after[i].root,
    ensures
        input_inventory::deepest_root(path, before, n) == input_inventory::deepest_root(
            path,
            after,
            n,
        ),
        input_inventory::deepest_root(path, before, before.len() as int)
            == input_inventory::deepest_root(path, after, after.len() as int)
            ==> input_inventory::scope_of(path, before, n) == input_inventory::scope_of(
            path,
            after,
            n,
        ),
    decreases n,
{
    if n > 0 {
        lemma_scope_depends_on_roots(path, before, after, n - 1);
        assert(before[n - 1].id == after[n - 1].id);
    }
}

/// Whether a manifest is the one of a sorted listing.
pub open spec fn is_discovered_manifest(
    manifest: ProjectManifest,
    files: Seq<WorkspaceFile>,
    records: Seq<ConfigurationInput>,
    backend_version: Seq<char>,
) -> bool {
    &&& manifest.root@ == "."@
    &&& manifest.dependencies@ == Seq::<DependencyEdge>::empty()
    &&& manifest.fingerprint@ == digest::fingerprint_text(workspace_bytes(files))
    &&& manifest.provenance.backend@ == "kide-filesystem-discovery"@
    &&& manifest.provenance.backend_version@ == backend_version
    &&& manifest.provenance.protocol_version == WORKER_PROTOCOL_VERSION
    &&& manifest.provenance.analysis_options == manifest.fingerprint
    &&& are_components_of(manifest.components@, files, records)
}

/// Whether paths are the ones of the configuration inputs of a sorted listing.
pub open spec fn are_input_paths_of(
    paths: Seq<WorkspacePath>,
    files: Seq<WorkspaceFile>,
) -> bool {
    &&& paths.len() == configuration_files(files).len()
    &&& forall|i: int|
        0 <= i < paths.len() ==> #[trigger] paths[i] == configuration_files(files)[i].path
}

/// Builds the generic manifest and inventory from the regular files of a
/// workspace. No compiler or build tool takes part.
pub fn discover_workspace(
    files: Vec<WorkspaceFile>,
    skipped_symlinks: Vec<WorkspacePath>,
    workspace: WorkspaceId,
    backend_version: &str,
) -> (result: WorkspaceDiscovery)
    ensures
        result.manifest.workspace == workspace,
        is_discovered_manifest(
            result.manifest,
            ordering::stable_sorted(files@),
            result.configuration_input_records@,
            backend_version@,
        ),
        are_records_of(
            result.configuration_input_records@,
            ordering::stable_sorted(files@),
            result.manifest.components@,
        ),
        are_input_paths_of(result.configuration_inputs@, ordering::stable_sorted(files@)),
        exists|units: Seq<SourceUnit>| #[trigger]
            are_units_of(units, ordering::stable_sorted(files@), result.manifest.components@)
                && result.source_units@ == ordering::stable_sorted(units),
        result.skipped_symlinks@ == ordering::stable_sorted(skipped_symlinks@),
{
    let files = stable_sort(files);
    let ghost sorted = files@;
    let skipped_symlinks = stable_sort(skipped_symlinks);
    let fingerprint = fingerprint_files(files.as_slice());
    let roots = find_component_roots(files.as_slice());
    let ghost root_texts = component_roots(sorted);

    let mut components: Vec<Component> = Vec::new();
    let mut i: usize = 0;
    while i < roots.len()
        invariant
            i <= roots@.len(),
            files@ == sorted,
            text::texts(roots@) == root_texts,
            components@.len() == i,
            forall|j: int|
                0 <= j < i ==> is_component_at(#[trigger] components@[j], sorted, root_texts[j]),
        decreases roots@.len() - i,
    {
        assert(root_texts[i as int] == roots@[i as int]@);
        components.push(make_component(files.as_slice(), roots[i].as_str(), &fingerprint));
        i = i + 1;
    }
    let records = input_records(files.as_slice(), components.as_slice());

    let ghost plain = components@;
    let mut configured: Vec<Component> = Vec::new();
    let mut j: usize = 0;
    while j < components.len()
        invariant
            j <= components@.len(),
            components@ == plain,
            plain.len() == root_texts.len(),
            forall|k: int|
                0 <= k < plain.len() ==> is_component_at(#[trigger] plain[k], sorted, root_texts[k]),
            configured@.len() == j,
            forall|k: int|
                0 <= k < j ==> (#[trigger] configured@[k]).id == plain[k].id && configured@[k].root
                    == plain[k].root && is_component_at(configured@[k], sorted, root_texts[k])
                    && configured@[k].configuration@ == digest::fingerprint_text(
                    input_inventory::context_bytes(configured@[k].id@, records@),
                ),
        decreases components@.len() - j,
    {
        let mut component = components[j].clone();
        assert(is_component_at(plain[j as int], sorted, root_texts[j as int]));
        component.configuration = component_context_fingerprint(&component.id, records.as_slice());
        configured.push(component);
        j = j + 1;
    }
    proof {
        assert forall|k: int| 0 <= k < records@.len() implies is_record_of(
            #[trigger] records@[k],
            configuration_files(sorted)[k],
            configured@,
        ) by {
            let path = configuration_files(sorted)[k].path@;
            assert forall|m: int| 0 <= m < plain.len() implies (#[trigger] plain[m]).id
                == configured@[m].id && plain[m].root == configured@[m].root by {
                assert(configured@[m].id == plain[m].id);
            }
            lemma_scope_depends_on_roots(path, plain, configured@, plain.len() as int);
            assert(is_record_of(records@[k], configuration_files(sorted)[k], plain));
        }
    }
    let units = source_units(files.as_slice(), configured.as_slice());
    let ghost unsorted = choose|unsorted: Seq<SourceUnit>| #[trigger]
        are_units_of(unsorted, sorted, configured@) && units@ == ordering::stable_sorted(unsorted);
    assert(are_units_of(unsorted, sorted, configured@));

    let mut inputs: Vec<WorkspacePath> = Vec::new();
    let mut m: usize = 0;
    while m < files.len()
        invariant
            m <= files@.len(),
            files@ == sorted,
            inputs@.len() == configuration_files(sorted.take(m as int)).len(),
            forall|k: int|
                0 <= k < inputs@.len() ==> (#[trigger] inputs@[k]) == configuration_files(
                    sorted.take(m as int),
                )[k].path,
        decreases files@.len() - m,
    {
        assert(sorted.take(m + 1).drop_last() =~= sorted.take(m as int));
        if is_configuration_input(files[m].path.as_str()) {
            inputs.push(files[m].path.clone());
        }
        m = m + 1;
    }
    assert(sorted.take(m as int) =~= sorted);
    let analysis_options = fingerprint.clone();
    WorkspaceDiscovery {
        manifest: ProjectManifest {
            workspace,
            root: WorkspacePath::new("."),
            components: configured,
            dependencies: Vec::new(),
            fingerprint,
            provenance: Provenance {
                backend: "kide-filesystem-discovery".to_owned(),
                backend_version: backend_version.to_owned(),
                protocol_version: WORKER_PROTOCOL_VERSION,
                analysis_options,
            },
        },
        source_units: units,
        configuration_inputs: inputs,
        configuration_input_records: records,
        skipped_symlinks,
    }
}

/// Whether a listing has every path once.
pub open spec fn distinct_paths(files: Seq<WorkspaceFile>) -> bool {
    forall|i: int, j: int|
        #![trigger files[i], files[j]]
        0 <= i < j < files.len() ==> files[i].path@ != files[j].path@
}

proof fn lemma_sorted_paths(files: Seq<WorkspaceFile>)
    requires
        distinct_paths(files),
    ensures
        distinct_paths(ordering::stable_sorted(files)),
{
    let path = |file: WorkspaceFile| file.path@;
    ordering::lemma_stable_sorted_distinct(files, path);
    let sorted = ordering::stable_sorted(files);
    assert forall|i: int, j: int|
        #![trigger sorted[i], sorted[j]]
        0 <= i < j < sorted.len() implies sorted[i].path@ != sorted[j].path@ by {
        assert(path(sorted[i]) != path(sorted[j]));
    }
}

proof fn lemma_configuration_paths(files: Seq<WorkspaceFile>)
    requires
        distinct_paths(files),
    ensures
        distinct_paths(configuration_files(files)),
        forall|i: int|
            0 <= i < configuration_files(files).len() ==> files.contains(
                #[trigger] configuration_files(files)[i],
            ),
    decreases files.len(),
{
    if files.len() > 0 {
        let rest = files.drop_last();
        assert forall|i: int, j: int|
            #![trigger rest[i], rest[j]]
            0 <= i < j < rest.len() implies rest[i].path@ != rest[j].path@ by {
            assert(rest[i] == files[i] && rest[j] == files[j]);
        }
        lemma_configuration_paths(rest);
        lemma_extended_paths(files, configuration_files(rest), configuration_files(files));
    }
}

proof fn lemma_source_paths(files: Seq<WorkspaceFile>, components: Seq<Component>)
    requires
        distinct_paths(files),
    ensures
        distinct_paths(source_files(files, components)),
        forall|i: int|
            0 <= i < source_files(files, components).len() ==> files.contains(
                #[trigger] source_files(files, components)[i],
            ),
    decreases files.len(),
{
    if files.len() > 0 {
        let rest = files.drop_last();
        assert forall|i: int, j: int|
            #![trigger rest[i], rest[j]]
            0 <= i < j < rest.len() implies rest[i].path@ != rest[j].path@ by {
            assert(rest[i] == files[i] && rest[j] == files[j]);
        }
        lemma_source_paths(rest, components);
        lemma_extended_paths(
            files,
            source_files(rest, components),
            source_files(files, components),
        );
    }
}

proof fn lemma_extended_paths(
    files: Seq<WorkspaceFile>,
    before: Seq<WorkspaceFile>,
    after: Seq<WorkspaceFile>,
)
    requires
        files.len() > 0,
        distinct_paths(files),
        distinct_paths(before),
        forall|i: int|
            0 <= i < before.len() ==> files.drop_last().contains(#[trigger] before[i]),
        after == before || after == before.push(files.last()),
    ensures
        distinct_paths(after),
        forall|i: int| 0 <= i < after.len() ==> files.contains(#[trigger] after[i]),
{
    let rest = files.drop_last();
    let n = rest.len() as int;
    assert(files[n] == files.last());
    assert forall|i: int| 0 <= i < before.len() implies files.contains(#[trigger] before[i])
        && before[i].path@ != files[n].path@ by {
        let k = rest.index_of(before[i]);
        assert(files[k] == before[i]);
    }
    assert forall|i: int| 0 <= i < after.len() implies files.contains(#[trigger] after[i]) by {
        if i < before.len() {
            assert(after[i] == before[i]);
        }
    }
    assert forall|i: int, j: int|
        #![trigger after[i], after[j]]
        0 <= i < j < after.len() implies after[i].path@ != after[j].path@ by {
        assert(after[i] == before[i]);
        if j < before.len() {
            assert(after[j] == before[j]);
        }
    }
}

/// The source units of a workspace ascend strictly by path: none is listed
/// twice.
pub proof fn law_source_units_ascend(
    files: Seq<WorkspaceFile>,
    components: Seq<Component>,
    units: Seq<SourceUnit>,
)
    requires
        distinct_paths(files),
        are_units_of(units, ordering::stable_sorted(files), components),
    ensures
        forall|i: int, j: int|
            #![trigger ordering::stable_sorted(units)[i], ordering::stable_sorted(units)[j]]
            0 <= i < j < ordering::stable_sorted(units).len() ==> text::text_lt(
                ordering::stable_sorted(units)[i].path@,
                ordering::stable_sorted(units)[j].path@,
            ),
{
    let listed = ordering::stable_sorted(files);
    lemma_sorted_paths(files);
    lemma_source_paths(listed, components);
    let sources = source_files(listed, components);
    let path = |unit: SourceUnit| unit.path@;
    assert forall|i: int, j: int|
        #![trigger units[i], units[j]]
        0 <= i < j < units.len() implies path(units[i]) != path(units[j]) by {
        assert(is_unit_of(units[i], sources[i], components));
        assert(is_unit_of(units[j], sources[j], components));
    }
    ordering::lemma_stable_sorted_distinct(units, path);
    ordering::lemma_stable_sorted_in_order(units);
    let sorted = ordering::stable_sorted(units);
    assert forall|i: int, j: int|
        #![trigger sorted[i], sorted[j]]
        0 <= i < j < sorted.len() implies text::text_lt(sorted[i].path@, sorted[j].path@) by {
        assert(path(sorted[i]) != path(sorted[j]));
        assert(!sorted[j].ranks_before(&sorted[i]));
        text::lemma_text_lt_total(sorted[i].path@, sorted[j].path@);
    }
}

/// No configuration input of a workspace is listed or recorded twice.
pub proof fn law_configuration_inputs_are_distinct(
    files: Seq<WorkspaceFile>,
    components: Seq<Component>,
    paths: Seq<WorkspacePath>,
    records: Seq<ConfigurationInput>,
)
    requires
        distinct_paths(files),
        are_input_paths_of(paths, ordering::stable_sorted(files)),
        are_records_of(records, ordering::stable_sorted(files), components),
    ensures
        forall|i: int, j: int|
            #![trigger paths[i], paths[j]]
            0 <= i < j < paths.len() ==> paths[i]@ != paths[j]@,
        forall|i: int, j: int|
            #![trigger records[i], records[j]]
            0 <= i < j < records.len() ==> records[i].path@ != records[j].path@,
{
    let listed = ordering::stable_sorted(files);
    lemma_sorted_paths(files);
    lemma_configuration_paths(listed);
    let inputs = configuration_files(listed);
    assert forall|i: int, j: int|
        #![trigger records[i], records[j]]
        0 <= i < j < records.len() implies records[i].path@ != records[j].path@ by {
        assert(is_record_of(records[i], inputs[i], components));
        assert(is_record_of(records[j], inputs[j], components));
    }
    assert forall|i: int, j: int|
        #![trigger paths[i], paths[j]]
        0 <= i < j < paths.len() implies paths[i]@ != paths[j]@ by {
        assert(paths[i] == inputs[i].path && paths[j] == inputs[j].path);
    }
}

proof fn lemma_root_keys(files: Seq<WorkspaceFile>)
    ensures
        root_keys(files).finite(),
        root_keys(files).contains(Seq::<char>::empty()),
        forall|key: Seq<char>| #[trigger]
            root_keys(files).contains(key) ==> key.len() == 0 || exists|i: int|
                0 <= i < files.len() && key == path_key(
                    input_inventory::parent_path((#[trigger] files[i]).path@),
                ),
    decreases files.len(),
{
    if files.len() > 0 {
        let rest = files.drop_last();
        lemma_root_keys(rest);
        assert forall|key: Seq<char>| #[trigger] root_keys(files).contains(key) implies key.len()
            == 0 || exists|i: int|
            0 <= i < files.len() && key == path_key(
                input_inventory::parent_path((#[trigger] files[i]).path@),
            ) by {
            if root_keys(rest).contains(key) && key.len() > 0 {
                let i = choose|i: int|
                    0 <= i < rest.len() && key == path_key(
                        input_inventory::parent_path((#[trigger] rest[i]).path@),
                    );
                assert(files[i] == rest[i]);
            } else if key.len() > 0 {
                assert(files[files.len() - 1] == files.last());
            }
        }
    }
}

/// A workspace has one component for each of its roots, and exactly one of them
/// is at the root of the workspace. No listed path may name the current
/// directory as the directory of its file.
pub proof fn law_one_component_per_root(
    files: Seq<WorkspaceFile>,
    components: Seq<Component>,
    records: Seq<ConfigurationInput>,
)
    requires
        forall|i: int|
            0 <= i < files.len() ==> input_inventory::parent_path((#[trigger] files[i]).path@)
                != "."@,
        are_components_of(components, ordering::stable_sorted(files), records),
    ensures
        exists|i: int| 0 <= i < components.len() && (#[trigger] components[i]).root@ == "."@,
        forall|i: int, j: int|
            #![trigger components[i], components[j]]
            0 <= i < j < components.len() ==> components[i].root@ != components[j].root@,
{
    let listed = ordering::stable_sorted(files);
    let keys = ordering::sorted_texts(root_keys(listed));
    let roots = component_roots(listed);
    lemma_root_keys(listed);
    ordering::lemma_sorted_texts(root_keys(listed));
    reveal_strlit(".");
    assert("."@ =~= seq!['.']);
    assert(roots.len() == keys.len());
    assert forall|i: int| 0 <= i < keys.len() implies roots[i] != "."@ && !(
    #[trigger] keys[i]).contains('/') by {
        assert(keys.to_set().contains(keys[i]));
        assert(root_keys(listed).contains(keys[i]));
        if keys[i].len() > 0 {
            let k = choose|k: int|
                0 <= k < listed.len() && keys[i] == path_key(
                    input_inventory::parent_path((#[trigger] listed[k]).path@),
                );
            let parent = input_inventory::parent_path(listed[k].path@);
            ordering::lemma_stable_sorted_contains(files, listed[k]);
            assert(listed.contains(listed[k]));
            let m = files.index_of(listed[k]);
            assert(files[m] == listed[k]);
            if roots[i] == "."@ {
                assert(roots[i].len() == 1);
                assert(roots[i] == key_path(keys[i]));
                assert(parent.len() == 1);
                assert(roots[i][0] == '.');
                assert(keys[i][0] == roots[i][0]);
                assert(parent[0] == keys[i][0]);
                assert(parent =~= "."@);
            }
            if keys[i].contains('/') {
                let p = keys[i].index_of('/');
                assert(keys[i][p] == '/');
            }
        }
    }
    assert(keys.to_set().contains(Seq::<char>::empty()));
    let first = keys.index_of(Seq::<char>::empty());
    assert(keys.contains(Seq::<char>::empty()));
    assert(is_component_at(components[first], listed, roots[first]));
    assert(components[first].root@ == "."@);
    assert forall|i: int, j: int|
        #![trigger components[i], components[j]]
        0 <= i < j < components.len() implies components[i].root@ != components[j].root@ by {
        assert(is_component_at(components[i], listed, roots[i]));
        assert(is_component_at(components[j], listed, roots[j]));
        assert(text::text_lt(keys[i], keys[j]));
        text::lemma_text_lt_irreflexive(keys[i]);
        if roots[i] == roots[j] {
            assert forall|k: int| 0 <= k < keys[i].len() implies keys[i][k] == keys[j][k] by {
                assert(roots[i][k] == roots[j][k]);
                assert(keys[i].contains(keys[i][k]));
                assert(keys[j].contains(keys[j][k]));
            }
            assert(keys[i] =~= keys[j]);
        }
        assert(roots[i] != "."@ && roots[j] != "."@) by {
            assert(!keys[i].contains('/') && !keys[j].contains('/'));
        }
    }
}

proof fn lemma_extension(dir: Seq<char>, stem: Seq<char>, suffix: Seq<char>)
    requires
        dir.len() == 0 || dir.last() == '/',
        stem.len() > 0,
        !stem.contains('/'),
        !suffix.contains('/'),
        !suffix.contains('.'),
    ensures
        extension(dir + stem + seq!['.'] + suffix) == Some(suffix),
        input_inventory::file_name(dir + stem + seq!['.'] + suffix) == stem + seq!['.'] + suffix,
{
    let path = dir + stem + seq!['.'] + suffix;
    let name = stem + seq!['.'] + suffix;
    let slash = dir.len() - 1;
    assert forall|i: int| slash < i < path.len() implies path[i] != '/' by {
        let k = i - dir.len();
        if k < stem.len() {
            assert(path[i] == stem[k]);
            assert(stem.contains(stem[k]));
        } else if k > stem.len() {
            assert(path[i] == suffix[k - stem.len() - 1]);
            assert(suffix.contains(suffix[k - stem.len() - 1]));
        }
    }
    text::lemma_last_position_is(path, '/', slash);
    assert(input_inventory::file_name(path) =~= name);
    assert forall|i: int| stem.len() < i < name.len() implies name[i] != '.' by {
        assert(name[i] == suffix[i - stem.len() - 1]);
        assert(suffix.contains(suffix[i - stem.len() - 1]));
    }
    text::lemma_last_position_is(name, '.', stem.len() as int);
    assert(name.skip(stem.len() as int + 1) =~= suffix);
}

/// A file whose name ends in `.kt` or `.kts` is Kotlin and one whose name ends
/// in `.java` is Java, in every directory and whatever stands before the dot.
pub proof fn law_language_is_told_by_the_extension(
    path: &str,
    dir: Seq<char>,
    stem: Seq<char>,
    language: Option<Language>,
)
    requires
        call_ensures(language_for, (path,), language),
        dir.len() == 0 || dir.last() == '/',
        stem.len() > 0,
        !stem.contains('/'),
    ensures
        path@ == dir + stem + ".kt"@ ==> language is Some && language->0 is Kotlin,
        path@ == dir + stem + ".kts"@ ==> language is Some && language->0 is Kotlin,
        path@ == dir + stem + ".java"@ ==> language is Some && language->0 is Java,
{
    lemma_source_suffixes(dir, stem);
}

proof fn lemma_source_suffixes(dir: Seq<char>, stem: Seq<char>)
    requires
        dir.len() == 0 || dir.last() == '/',
        stem.len() > 0,
        !stem.contains('/'),
    ensures
        source_language(dir + stem + ".kt"@) == Some(Language::Kotlin),
        source_language(dir + stem + ".kts"@) == Some(Language::Kotlin),
        source_language(dir + stem + ".java"@) == Some(Language::Java),
{
    reveal_strlit(".kt");
    reveal_strlit(".kts");
    reveal_strlit(".java");
    reveal_strlit("kt");
    reveal_strlit("kts");
    reveal_strlit("java");
    assert("kt"@ =~= seq!['k', 't']);
    assert("kts"@ =~= seq!['k', 't', 's']);
    assert("java"@ =~= seq!['j', 'a', 'v', 'a']);
    lemma_extension(dir, stem, "kt"@);
    lemma_extension(dir, stem, "kts"@);
    lemma_extension(dir, stem, "java"@);
    assert(dir + stem + ".kt"@ =~= dir + stem + seq!['.'] + "kt"@);
    assert(dir + stem + ".kts"@ =~= dir + stem + seq!['.'] + "kts"@);
    assert(dir + stem + ".java"@ =~= dir + stem + seq!['.'] + "java"@);
    assert("java"@.len() == 4 && "kt"@.len() == 2 && "kts"@.len() == 3);
}

/// Only such names have a language, and no other language is told.
pub proof fn law_other_files_have_no_language(path: &str, language: Option<Language>)
    requires
        call_ensures(language_for, (path,), language),
        language is Some,
    ensures
        language->0 is Kotlin || language->0 is Java,
        language->0 is Kotlin ==> ".kt"@.is_suffix_of(path@) || ".kts"@.is_suffix_of(path@),
        language->0 is Java ==> ".java"@.is_suffix_of(path@),
{
    reveal_strlit(".kt");
    reveal_strlit(".kts");
    reveal_strlit(".java");
    reveal_strlit("kt");
    reveal_strlit("kts");
    reveal_strlit("java");
    let name = input_inventory::file_name(path@);
    text::lemma_last_position(path@, '/');
    text::lemma_last_position(name, '.');
    let dot = text::last_position(name, '.');
    let suffix = name.skip(dot + 1);
    let start = path@.len() - name.len() + dot;
    assert(path@.skip(start) =~= seq!['.'] + suffix);
    assert(seq!['.'] + "kt"@ =~= ".kt"@);
    assert(seq!['.'] + "kts"@ =~= ".kts"@);
    assert(seq!['.'] + "java"@ =~= ".java"@);
    assert(path@.subrange(start, path@.len() as int) =~= path@.skip(start));
}

/// A source is a generated one exactly where a segment of its path is
/// `generated`.
pub proof fn law_generated_sources_lie_in_generated_directories(
    path: &WorkspacePath,
    result: bool,
    before: Seq<char>,
    behind: Seq<char>,
)
    requires
        call_ensures(is_generated_source, (path,), result),
    ensures
        path@ == before + "/generated/"@ + behind ==> result,
        path@ == "generated/"@ + behind ==> result,
        result ==> exists|start: int|
            0 <= start && start + 9 <= path@.len() && #[trigger] path@.subrange(start, start + 9)
                == "generated"@ && (start == 0 || path@[start - 1] == '/') && (start + 9
                == path@.len() || path@[start + 9] == '/'),
{
    reveal_strlit("/generated/");
    reveal_strlit("generated/");
    reveal_strlit("generated");
    let word = "generated"@;
    assert(!word.contains('/'));
    text::lemma_split_pieces(word, '/');
    assert("generated/"@ =~= word + seq!['/']);
    assert("/generated/"@ =~= seq!['/'] + word + seq!['/']);
    text::lemma_split_sum(word, behind, '/');
    text::lemma_split_sum(before, word + seq!['/'] + behind, '/');
    let inner = text::split_on(word, '/') + text::split_on(behind, '/');
    assert(inner[0] == word);
    if path@ == "generated/"@ + behind {
        assert(path@ =~= word + seq!['/'] + behind);
        assert(text::split_on(path@, '/')[0] == word);
    }
    if path@ == before + "/generated/"@ + behind {
        assert(path@ =~= before + seq!['/'] + (word + seq!['/'] + behind));
        let outer = text::split_on(before, '/');
        assert(text::split_on(path@, '/')[outer.len() as int] == word);
    }
    if result {
        let i = text::split_on(path@, '/').index_of(word);
        let start = lemma_piece_position(path@, i);
        assert(path@.subrange(start, start + 9) == word);
    }
}

proof fn lemma_piece_position(s: Seq<char>, i: int) -> (start: int)
    requires
        0 <= i < text::split_on(s, '/').len(),
    ensures
        ({
            let piece = text::split_on(s, '/')[i];
            &&& 0 <= start
            &&& start + piece.len() <= s.len()
            &&& s.subrange(start, start + piece.len()) == piece
            &&& start == 0 || s[start - 1] == '/'
            &&& start + piece.len() == s.len() || s[start + piece.len()] == '/'
        }),
    decreases s.len(),
{
    text::lemma_first_position(s, '/');
    let p = text::first_position(s, '/');
    if p >= s.len() {
        assert(s.subrange(0, s.len() as int) =~= s);
        0
    } else if i == 0 {
        assert(s.subrange(0, p) =~= s.take(p));
        assert(s.take(p).len() == p);
        0
    } else {
        let rest = s.skip(p + 1);
        let at = lemma_piece_position(rest, i - 1);
        let piece = text::split_on(s, '/')[i];
        assert(piece == text::split_on(rest, '/')[i - 1]);
        assert(s.subrange(p + 1 + at, p + 1 + at + piece.len()) =~= rest.subrange(
            at,
            at + piece.len(),
        ));
        p + 1 + at
    }
}

proof fn lemma_depth_grows(path: Seq<char>, a: Seq<char>, b: Seq<char>)
    requires
        text::begins_with(path, a + "/"@),
        text::begins_with(path, b + "/"@),
        a.len() < b.len(),
    ensures
        text::split_on(a, '/').len() < text::split_on(b, '/').len(),
{
    reveal_strlit("/");
    let x = a + "/"@;
    let y = b + "/"@;
    assert(path.take(x.len() as int)[a.len() as int] == '/');
    assert(path.take(y.len() as int)[a.len() as int] == b[a.len() as int]);
    assert(b.take(a.len() as int) =~= a) by {
        assert forall|i: int| 0 <= i < a.len() implies b[i] == a[i] by {
            assert(path.take(x.len() as int)[i] == x[i]);
            assert(path.take(y.len() as int)[i] == y[i]);
        }
    }
    let rest = b.skip(a.len() as int + 1);
    assert(b =~= a + seq!['/'] + rest);
    text::lemma_split_sum(a, rest, '/');
    text::lemma_split_pieces(rest, '/');
}

proof fn lemma_owner(path: Seq<char>, components: Seq<Component>, n: int)
    requires
        0 <= n <= components.len(),
    ensures
        -1 <= owner_index(path, components, n) < n || n == 0,
        owner_index(path, components, n) >= 0 ==> input_inventory::path_within(
            path,
            components[owner_index(path, components, n)].root@,
        ),
        forall|c: int|
            0 <= c < n && input_inventory::path_within(path, (#[trigger] components[c]).root@)
                ==> owner_index(path, components, n) >= 0 && root_depth(components[c].root@)
                <= root_depth(components[owner_index(path, components, n)].root@),
    decreases n,
{
    if n > 0 {
        lemma_owner(path, components, n - 1);
    }
}

/// A source unit belongs to a component whose root holds its path, and to the
/// one with the longest root of those that do. Only where no root below the
/// workspace holds it, it belongs to the component of the workspace root.
pub proof fn law_units_belong_to_the_nearest_component(
    files: Vec<WorkspaceFile>,
    links: Vec<WorkspacePath>,
    workspace: WorkspaceId,
    version: &str,
    found: WorkspaceDiscovery,
    u: int,
) -> (c: int)
    requires
        call_ensures(discover_workspace, (files, links, workspace, version), found),
        0 <= u < found.source_units@.len(),
    ensures
        0 <= c < found.manifest.components@.len(),
        ({
            let path = found.source_units@[u].path@;
            let owner = found.manifest.components@[c];
            &&& found.source_units@[u].component == owner.id
            &&& found.source_units@[u].context == owner.configuration
            &&& found.source_units@[u].id@ == owner.id@ + ":"@ + path
            &&& owner.root@ == "."@ || owner.root@ == path || (owner.root@ + "/"@).is_prefix_of(path)
            &&& forall|d: int|
                0 <= d < found.manifest.components@.len() && (found.manifest.components@[d].root@
                    + "/"@).is_prefix_of(path) && (#[trigger] found.manifest.components@[d]).root@
                    != "."@ && owner.root@ != path ==> owner.root@ != "."@
                    && found.manifest.components@[d].root@.len() <= owner.root@.len()
        }),
{
    let listed = ordering::stable_sorted(files@);
    let components = found.manifest.components@;
    let units = choose|units: Seq<SourceUnit>| #[trigger]
        are_units_of(units, listed, components) && found.source_units@
            == ordering::stable_sorted(units);
    let unit = found.source_units@[u];
    ordering::lemma_stable_sorted_contains(units, unit);
    assert(found.source_units@.contains(unit));
    let i = units.index_of(unit);
    let sources = source_files(listed, components);
    assert(is_unit_of(units[i], sources[i], components));
    lemma_source_files(listed, components);
    let path = unit.path@;
    let n = components.len() as int;
    lemma_owner(path, components, n);
    let c = owner_index(path, components, n);
    assert(c >= 0);
    let owner = components[c];
    reveal_strlit("/");
    reveal_strlit(".");
    assert forall|d: int|
        0 <= d < n && (components[d].root@ + "/"@).is_prefix_of(path) && (
        #[trigger] components[d]).root@ != "."@ && owner.root@ != path implies owner.root@ != "."@
        && components[d].root@.len() <= owner.root@.len() by {
        let root = components[d].root@;
        assert(path.take((root + "/"@).len() as int) =~= root + "/"@);
        assert(text::begins_with(path, root + "/"@));
        assert(input_inventory::path_within(path, root));
        text::lemma_split_pieces(root, '/');
        if owner.root@ != "."@ {
            lemma_roots_are_not_empty(listed, components, found.configuration_input_records@, c);
            assert(text::begins_with(path, owner.root@ + "/"@));
            if owner.root@.len() < root.len() {
                lemma_depth_grows(path, owner.root@, root);
            }
        }
    }
    if owner.root@ != "."@ && owner.root@ != path {
        lemma_roots_are_not_empty(listed, components, found.configuration_input_records@, c);
        assert(text::begins_with(path, owner.root@ + "/"@));
        assert((owner.root@ + "/"@).is_prefix_of(path));
    }
    c
}

proof fn lemma_roots_are_not_empty(
    files: Seq<WorkspaceFile>,
    components: Seq<Component>,
    records: Seq<ConfigurationInput>,
    c: int,
)
    requires
        are_components_of(components, files, records),
        0 <= c < components.len(),
    ensures
        components[c].root@.len() > 0,
{
    reveal_strlit(".");
    assert(is_component_at(components[c], files, component_roots(files)[c]));
}

proof fn lemma_source_files(files: Seq<WorkspaceFile>, components: Seq<Component>)
    ensures
        forall|i: int|
            0 <= i < source_files(files, components).len() ==> {
                let file = #[trigger] source_files(files, components)[i];
                &&& files.contains(file)
                &&& is_source(file.path@)
                &&& owner_index(file.path@, components, components.len() as int) >= 0
            },
        forall|k: int|
            0 <= k < files.len() && is_source((#[trigger] files[k]).path@) && owner_index(
                files[k].path@,
                components,
                components.len() as int,
            ) >= 0 ==> source_files(files, components).contains(files[k]),
    decreases files.len(),
{
    if files.len() > 0 {
        let rest = files.drop_last();
        let n = rest.len() as int;
        lemma_source_files(rest, components);
        let before = source_files(rest, components);
        let now = source_files(files, components);
        assert(files[n] == files.last());
        assert forall|i: int| 0 <= i < now.len() implies {
            let file = #[trigger] now[i];
            &&& files.contains(file)
            &&& is_source(file.path@)
            &&& owner_index(file.path@, components, components.len() as int) >= 0
        } by {
            if i < before.len() {
                assert(now[i] == before[i]);
                assert(files[rest.index_of(before[i])] == before[i]);
            }
        }
        assert forall|k: int|
            0 <= k < files.len() && is_source((#[trigger] files[k]).path@) && owner_index(
                files[k].path@,
                components,
                components.len() as int,
            ) >= 0 implies now.contains(files[k]) by {
            if k < n {
                assert(rest[k] == files[k]);
                assert(now[before.index_of(files[k])] == files[k]);
            } else {
                assert(now[before.len() as int] == files[n]);
            }
        }
    }
}

proof fn lemma_root_component(
    files: Seq<WorkspaceFile>,
    components: Seq<Component>,
    records: Seq<ConfigurationInput>,
) -> (c: int)
    requires
        are_components_of(components, files, records),
    ensures
        0 <= c < components.len(),
        components[c].root@ == "."@,
{
    let keys = ordering::sorted_texts(root_keys(files));
    lemma_root_keys(files);
    ordering::lemma_sorted_texts(root_keys(files));
    assert(keys.to_set().contains(Seq::<char>::empty()));
    let c = keys.index_of(Seq::<char>::empty());
    assert(is_component_at(components[c], files, component_roots(files)[c]));
    c
}

/// Every Kotlin and Java file of a workspace becomes a source unit with its
/// language and the fingerprint of its content, unless its name makes it a
/// configuration input.
pub proof fn law_every_source_file_becomes_a_unit(
    files: Vec<WorkspaceFile>,
    links: Vec<WorkspacePath>,
    workspace: WorkspaceId,
    version: &str,
    found: WorkspaceDiscovery,
    k: int,
    dir: Seq<char>,
    stem: Seq<char>,
) -> (u: int)
    requires
        call_ensures(discover_workspace, (files, links, workspace, version), found),
        0 <= k < files@.len(),
        dir.len() == 0 || dir.last() == '/',
        stem.len() > 0,
        !stem.contains('/'),
        files@[k].path@ == dir + stem + ".kt"@ || files@[k].path@ == dir + stem + ".java"@,
    ensures
        0 <= u < found.source_units@.len(),
        found.source_units@[u].path == files@[k].path,
        found.source_units@[u].content@ == digest::fingerprint_text(files@[k].content@),
        files@[k].path@ == dir + stem + ".kt"@ ==> found.source_units@[u].language is Kotlin,
        files@[k].path@ == dir + stem + ".java"@ ==> found.source_units@[u].language is Java,
{
    let listed = ordering::stable_sorted(files@);
    let components = found.manifest.components@;
    let units = choose|units: Seq<SourceUnit>| #[trigger]
        are_units_of(units, listed, components) && found.source_units@
            == ordering::stable_sorted(units);
    let file = files@[k];
    let path = file.path@;
    let n = components.len() as int;
    lemma_source_suffixes(dir, stem);
    lemma_source_is_no_input(dir, stem);
    let c = lemma_root_component(listed, components, found.configuration_input_records@);
    assert(input_inventory::path_within(path, components[c].root@));
    lemma_owner(path, components, n);
    ordering::lemma_stable_sorted_contains(files@, file);
    assert(files@.contains(file));
    let m = listed.index_of(file);
    lemma_source_files(listed, components);
    assert(is_source(listed[m].path@));
    let sources = source_files(listed, components);
    let i = sources.index_of(file);
    assert(is_unit_of(units[i], sources[i], components));
    ordering::lemma_stable_sorted_contains(units, units[i]);
    assert(units.contains(units[i]));
    found.source_units@.index_of(units[i])
}

proof fn lemma_source_is_no_input(dir: Seq<char>, stem: Seq<char>)
    requires
        dir.len() == 0 || dir.last() == '/',
        stem.len() > 0,
        !stem.contains('/'),
    ensures
        !input_inventory::configuration_input(dir + stem + ".kt"@),
        !input_inventory::configuration_input(dir + stem + ".java"@),
{
    reveal_strlit(".kt");
    reveal_strlit(".java");
    let kt = seq!['k', 't'];
    let java = seq!['j', 'a', 'v', 'a'];
    lemma_extension(dir, stem, kt);
    lemma_extension(dir, stem, java);
    assert(dir + stem + ".kt"@ =~= dir + stem + seq!['.'] + kt);
    assert(dir + stem + ".java"@ =~= dir + stem + seq!['.'] + java);
    reveal_strlit("settings.gradle");
    reveal_strlit("settings.gradle.kts");
    reveal_strlit("build.gradle");
    reveal_strlit("build.gradle.kts");
    reveal_strlit("gradle.properties");
    reveal_strlit("pom.xml");
    reveal_strlit("Cargo.toml");
    reveal_strlit("package.json");
    reveal_strlit("package-lock.json");
    reveal_strlit("npm-shrinkwrap.json");
    reveal_strlit("pnpm-lock.yaml");
    reveal_strlit("pnpm-workspace.yaml");
    reveal_strlit("yarn.lock");
    reveal_strlit(".yarnrc.yml");
    reveal_strlit("bun.lock");
    reveal_strlit("bun.lockb");
    reveal_strlit(".npmrc");
    reveal_strlit("gradle/wrapper/gradle-wrapper.properties");
    reveal_strlit(".kide/config.toml");
    let names = input_inventory::configuration_file_names();
    assert forall|i: int| 0 <= i < names.len() implies (#[trigger] names[i]).last() != 't'
        || names[i][names[i].len() - 2] != 'k' by {}
    assert forall|i: int| 0 <= i < names.len() implies (#[trigger] names[i]).last() != 'a' by {}
    let a = dir + stem + ".kt"@;
    let b = dir + stem + ".java"@;
    assert(a.last() == 't' && a[a.len() - 2] == 'k');
    assert(b.last() == 'a');
    if names.contains(input_inventory::file_name(a)) {
        let name = input_inventory::file_name(a);
        assert(name.last() == 't' && name[name.len() - 2] == 'k');
        let i = names.index_of(name);
        assert(names[i].last() != 't' || names[i][names[i].len() - 2] != 'k');
    }
    if names.contains(input_inventory::file_name(b)) {
        let name = input_inventory::file_name(b);
        assert(name.last() == 'a');
        let i = names.index_of(name);
        assert(names[i].last() != 'a');
    }
}

/// Every source unit is of a listed file: the one at its path, with the
/// fingerprint of its content, and generated exactly where a segment of its
/// path says so.
pub proof fn law_every_unit_is_a_source_file(
    files: Vec<WorkspaceFile>,
    links: Vec<WorkspacePath>,
    workspace: WorkspaceId,
    version: &str,
    found: WorkspaceDiscovery,
    u: int,
) -> (k: int)
    requires
        call_ensures(discover_workspace, (files, links, workspace, version), found),
        0 <= u < found.source_units@.len(),
    ensures
        0 <= k < files@.len(),
        found.source_units@[u].path == files@[k].path,
        found.source_units@[u].content@ == digest::fingerprint_text(files@[k].content@),
        found.source_units@[u].origin == SourceOrigin::Generated <==> text::split_on(
            files@[k].path@,
            '/',
        ).contains("generated"@),
        found.source_units@[u].origin != SourceOrigin::Dependency,
        found.manifest.workspace == workspace,
{
    let listed = ordering::stable_sorted(files@);
    let components = found.manifest.components@;
    let units = choose|units: Seq<SourceUnit>| #[trigger]
        are_units_of(units, listed, components) && found.source_units@
            == ordering::stable_sorted(units);
    let unit = found.source_units@[u];
    ordering::lemma_stable_sorted_contains(units, unit);
    assert(found.source_units@.contains(unit));
    let i = units.index_of(unit);
    let sources = source_files(listed, components);
    assert(is_unit_of(units[i], sources[i], components));
    lemma_source_files(listed, components);
    let file = sources[i];
    assert(listed.contains(file));
    ordering::lemma_stable_sorted_contains(files@, file);
    files@.index_of(file)
}

proof fn lemma_configuration_files(files: Seq<WorkspaceFile>, path: Seq<char>)
    ensures
        forall|i: int|
            0 <= i < configuration_files(files).len() ==> files.contains(
                #[trigger] configuration_files(files)[i],
            ) && input_inventory::configuration_input(configuration_files(files)[i].path@),
        forall|k: int|
            0 <= k < files.len() && input_inventory::configuration_input(
                (#[trigger] files[k]).path@,
            ) ==> configuration_files(files).contains(files[k]),
    decreases files.len(),
{
    if files.len() > 0 {
        let rest = files.drop_last();
        let n = rest.len() as int;
        lemma_configuration_files(rest, path);
        let before = configuration_files(rest);
        let now = configuration_files(files);
        assert(files[n] == files.last());
        assert forall|i: int| 0 <= i < now.len() implies files.contains(#[trigger] now[i])
            && input_inventory::configuration_input(now[i].path@) by {
            if i < before.len() {
                assert(now[i] == before[i]);
                assert(files[rest.index_of(before[i])] == before[i]);
            }
        }
        assert forall|k: int|
            0 <= k < files.len() && input_inventory::configuration_input(
                (#[trigger] files[k]).path@,
            ) implies now.contains(files[k]) by {
            if k < n {
                assert(rest[k] == files[k]);
                assert(now[before.index_of(files[k])] == files[k]);
            } else {
                assert(now[before.len() as int] == files[n]);
            }
        }
    }
}

/// A listed file that is a configuration input is listed and recorded as one,
/// with the fingerprint of its content, and no other path is.
pub proof fn law_configuration_inputs_are_recorded(
    files: Vec<WorkspaceFile>,
    links: Vec<WorkspacePath>,
    workspace: WorkspaceId,
    version: &str,
    found: WorkspaceDiscovery,
    path: &str,
    configures: bool,
)
    requires
        call_ensures(discover_workspace, (files, links, workspace, version), found),
        call_ensures(input_inventory::is_configuration_input, (path,), configures),
    ensures
        (exists|i: int|
            0 <= i < found.configuration_inputs@.len() && (
            #[trigger] found.configuration_inputs@[i])@ == path@) <==> configures && exists|k: int|
            0 <= k < files@.len() && (#[trigger] files@[k]).path@ == path@,
        forall|i: int|
            0 <= i < found.configuration_input_records@.len() ==> exists|k: int|
                0 <= k < files@.len() && (#[trigger] files@[k]).path@ == (
                #[trigger] found.configuration_input_records@[i]).path@
                    && found.configuration_input_records@[i].fingerprint@
                    == digest::fingerprint_text(files@[k].content@),
        found.configuration_input_records@.len() == found.configuration_inputs@.len(),
        forall|i: int|
            0 <= i < found.configuration_inputs@.len() ==> (
            #[trigger] found.configuration_inputs@[i])@
                == found.configuration_input_records@[i].path@,
{
    let listed = ordering::stable_sorted(files@);
    let inputs = configuration_files(listed);
    lemma_configuration_files(listed, path@);
    let paths = found.configuration_inputs@;
    let records = found.configuration_input_records@;
    let components = found.manifest.components@;
    assert forall|i: int| 0 <= i < paths.len() implies (#[trigger] paths[i])@
        == records[i].path@ by {
        assert(paths[i] == inputs[i].path);
        assert(is_record_of(records[i], inputs[i], components));
    }
    assert forall|i: int| 0 <= i < records.len() implies exists|k: int|
        0 <= k < files@.len() && (#[trigger] files@[k]).path@ == (#[trigger] records[i]).path@
            && records[i].fingerprint@ == digest::fingerprint_text(files@[k].content@) by {
        assert(is_record_of(records[i], inputs[i], components));
        assert(listed.contains(inputs[i]));
        ordering::lemma_stable_sorted_contains(files@, inputs[i]);
        let k = files@.index_of(inputs[i]);
        assert(files@[k].path@ == records[i].path@);
    }
    if exists|i: int| 0 <= i < paths.len() && (#[trigger] paths[i])@ == path@ {
        let i = choose|i: int| 0 <= i < paths.len() && (#[trigger] paths[i])@ == path@;
        assert(paths[i] == inputs[i].path);
        assert(listed.contains(inputs[i]));
        ordering::lemma_stable_sorted_contains(files@, inputs[i]);
        let k = files@.index_of(inputs[i]);
        assert(files@[k].path@ == path@);
    }
    if configures && exists|k: int| 0 <= k < files@.len() && (#[trigger] files@[k]).path@ == path@ {
        let k = choose|k: int| 0 <= k < files@.len() && (#[trigger] files@[k]).path@ == path@;
        ordering::lemma_stable_sorted_contains(files@, files@[k]);
        assert(files@.contains(files@[k]));
        let m = listed.index_of(files@[k]);
        assert(listed[m] == files@[k]);
        let i = inputs.index_of(files@[k]);
        assert(paths[i] == inputs[i].path);
    }
}

proof fn lemma_root_key_of(files: Seq<WorkspaceFile>, k: int)
    requires
        0 <= k < files.len(),
        component_file(input_inventory::file_name(files[k].path@)),
    ensures
        root_keys(files).contains(path_key(input_inventory::parent_path(files[k].path@))),
    decreases files.len(),
{
    if k < files.len() - 1 {
        assert(files.drop_last()[k] == files[k]);
        lemma_root_key_of(files.drop_last(), k);
    } else {
        assert(files.last() == files[k]);
    }
}

/// A directory that holds a build file of Gradle, Maven, Cargo or npm is the
/// root of a component.
pub proof fn law_build_file_makes_a_component(
    files: Vec<WorkspaceFile>,
    links: Vec<WorkspacePath>,
    workspace: WorkspaceId,
    version: &str,
    found: WorkspaceDiscovery,
    k: int,
    dir: Seq<char>,
) -> (c: int)
    requires
        call_ensures(discover_workspace, (files, links, workspace, version), found),
        0 <= k < files@.len(),
        !dir.contains('\0'),
        ({
            let base = if dir.len() == 0 {
                dir
            } else {
                dir + "/"@
            };
            ||| files@[k].path@ == base + "build.gradle"@
            ||| files@[k].path@ == base + "build.gradle.kts"@
            ||| files@[k].path@ == base + "pom.xml"@
            ||| files@[k].path@ == base + "Cargo.toml"@
            ||| files@[k].path@ == base + "package.json"@
        }),
    ensures
        0 <= c < found.manifest.components@.len(),
        found.manifest.components@[c].root@ == (if dir.len() == 0 {
            "."@
        } else {
            dir
        }),
{
    let listed = ordering::stable_sorted(files@);
    let components = found.manifest.components@;
    let base = if dir.len() == 0 {
        dir
    } else {
        dir + "/"@
    };
    reveal_strlit("/");
    reveal_strlit("build.gradle");
    reveal_strlit("build.gradle.kts");
    reveal_strlit("pom.xml");
    reveal_strlit("Cargo.toml");
    reveal_strlit("package.json");
    input_inventory::lemma_file_name(base, "build.gradle"@);
    input_inventory::lemma_file_name(base, "build.gradle.kts"@);
    input_inventory::lemma_file_name(base, "pom.xml"@);
    input_inventory::lemma_file_name(base, "Cargo.toml"@);
    input_inventory::lemma_file_name(base, "package.json"@);
    let file = files@[k];
    assert(input_inventory::parent_path(file.path@) =~= dir);
    ordering::lemma_stable_sorted_contains(files@, file);
    assert(files@.contains(file));
    let m = listed.index_of(file);
    lemma_root_key_of(listed, m);
    lemma_root_keys(listed);
    let keys = ordering::sorted_texts(root_keys(listed));
    ordering::lemma_sorted_texts(root_keys(listed));
    assert(keys.to_set().contains(path_key(dir)));
    let c = keys.index_of(path_key(dir));
    assert(key_path(path_key(dir)) =~= dir) by {
        assert forall|i: int| 0 <= i < dir.len() implies key_path(path_key(dir))[i] == dir[i] by {
            assert(dir.contains(dir[i]));
        }
    }
    assert(component_roots(listed)[c] == dir);
    assert(is_component_at(components[c], listed, component_roots(listed)[c]));
    c
}

/// The build system of a component is told by the build files in its root: a
/// Gradle file counts before a Maven file, that before a Cargo file, and that
/// before an npm file. Its id begins with the build system and names its root.
pub proof fn law_build_system_is_told_by_the_build_files(
    files: Vec<WorkspaceFile>,
    links: Vec<WorkspacePath>,
    workspace: WorkspaceId,
    version: &str,
    found: WorkspaceDiscovery,
    c: int,
)
    requires
        call_ensures(discover_workspace, (files, links, workspace, version), found),
        forall|i: int|
            0 <= i < files@.len() ==> input_inventory::parent_path((#[trigger] files@[i]).path@)
                != "."@,
        0 <= c < found.manifest.components@.len(),
    ensures
        ({
            let component = found.manifest.components@[c];
            let base = if component.root@ == "."@ {
                Seq::empty()
            } else {
                component.root@ + "/"@
            };
            let gradle = exists|i: int|
                0 <= i < files@.len() && ((#[trigger] files@[i]).path@ == base + "build.gradle"@
                    || files@[i].path@ == base + "build.gradle.kts"@);
            let maven = exists|i: int|
                0 <= i < files@.len() && (#[trigger] files@[i]).path@ == base + "pom.xml"@;
            let cargo = exists|i: int|
                0 <= i < files@.len() && (#[trigger] files@[i]).path@ == base + "Cargo.toml"@;
            let npm = exists|i: int|
                0 <= i < files@.len() && (#[trigger] files@[i]).path@ == base + "package.json"@;
            &&& component.build_system is Gradle <==> gradle
            &&& component.build_system is Maven <==> maven && !gradle
            &&& component.build_system is Cargo <==> cargo && !gradle && !maven
            &&& component.build_system is Npm <==> npm && !gradle && !maven && !cargo
            &&& component.build_system is Filesystem <==> !gradle && !maven && !cargo && !npm
            &&& component.build_system is Gradle ==> "gradle:"@.is_prefix_of(component.id@)
            &&& component.build_system is Maven ==> "maven:"@.is_prefix_of(component.id@)
            &&& component.build_system is Cargo ==> "cargo:"@.is_prefix_of(component.id@)
            &&& component.build_system is Npm ==> "npm:"@.is_prefix_of(component.id@)
            &&& component.root@ != "."@ ==> (component.root@ + ":main"@).is_suffix_of(
                component.id@,
            )
        }),
{
    let listed = ordering::stable_sorted(files@);
    let components = found.manifest.components@;
    let component = components[c];
    let root = component_roots(listed)[c];
    assert(is_component_at(component, listed, root));
    lemma_roots_are_plain(files@, c);
    let base = if component.root@ == "."@ {
        Seq::empty()
    } else {
        component.root@ + "/"@
    };
    lemma_listed_in(files@, root, base, "build.gradle"@);
    lemma_listed_in(files@, root, base, "build.gradle.kts"@);
    lemma_listed_in(files@, root, base, "pom.xml"@);
    lemma_listed_in(files@, root, base, "Cargo.toml"@);
    lemma_listed_in(files@, root, base, "package.json"@);
    let a = has_file(listed, path_in(root, "build.gradle"@));
    let b = has_file(listed, path_in(root, "build.gradle.kts"@));
    let gradle = exists|i: int|
        0 <= i < files@.len() && ((#[trigger] files@[i]).path@ == base + "build.gradle"@
            || files@[i].path@ == base + "build.gradle.kts"@);
    if a {
        let i = choose|i: int|
            0 <= i < files@.len() && (#[trigger] files@[i]).path@ == base + "build.gradle"@;
        assert(files@[i].path@ == base + "build.gradle"@);
    }
    if b {
        let i = choose|i: int|
            0 <= i < files@.len() && (#[trigger] files@[i]).path@ == base + "build.gradle.kts"@;
        assert(files@[i].path@ == base + "build.gradle.kts"@);
    }
    if gradle {
        let i = choose|i: int|
            0 <= i < files@.len() && ((#[trigger] files@[i]).path@ == base + "build.gradle"@
                || files@[i].path@ == base + "build.gradle.kts"@);
        assert(a || b);
    }
    assert(gradle == (a || b));
    reveal_strlit("gradle");
    reveal_strlit("gradle:");
    reveal_strlit("maven");
    reveal_strlit("maven:");
    reveal_strlit("cargo");
    reveal_strlit("cargo:");
    reveal_strlit("npm");
    reveal_strlit("npm:");
    reveal_strlit(":");
    assert("gradle:"@ =~= "gradle"@ + ":"@);
    assert("maven:"@ =~= "maven"@ + ":"@);
    assert("cargo:"@ =~= "cargo"@ + ":"@);
    assert("npm:"@ =~= "npm"@ + ":"@);
    let head = id_prefix(component.build_system) + ":"@;
    let tail = root_name(root) + ":main"@;
    assert(component.id@ =~= head + tail);
    assert(component.id@.subrange(0, head.len() as int) =~= head);
    assert(component.id@.subrange(head.len() as int, component.id@.len() as int) =~= tail);
}

proof fn lemma_listed_in(
    files: Seq<WorkspaceFile>,
    root: Seq<char>,
    base: Seq<char>,
    name: Seq<char>,
)
    requires
        root.len() == 0 ==> base.len() == 0,
        root.len() > 0 ==> base == root + "/"@,
    ensures
        has_file(ordering::stable_sorted(files), path_in(root, name)) <==> exists|i: int|
            0 <= i < files.len() && (#[trigger] files[i]).path@ == base + name,
{
    let listed = ordering::stable_sorted(files);
    let path = path_in(root, name);
    assert(path =~= base + name);
    if has_file(listed, path) {
        let i = choose|i: int| 0 <= i < listed.len() && (#[trigger] listed[i]).path@ == path;
        ordering::lemma_stable_sorted_contains(files, listed[i]);
        assert(listed.contains(listed[i]));
        assert(files[files.index_of(listed[i])].path@ == base + name);
    }
    if exists|i: int| 0 <= i < files.len() && (#[trigger] files[i]).path@ == base + name {
        let i = choose|i: int| 0 <= i < files.len() && (#[trigger] files[i]).path@ == base + name;
        ordering::lemma_stable_sorted_contains(files, files[i]);
        assert(files.contains(files[i]));
        assert(listed[listed.index_of(files[i])].path@ == path);
    }
}

proof fn lemma_roots_are_plain(files: Seq<WorkspaceFile>, c: int)
    requires
        forall|i: int|
            0 <= i < files.len() ==> input_inventory::parent_path((#[trigger] files[i]).path@)
                != "."@,
        0 <= c < component_roots(ordering::stable_sorted(files)).len(),
    ensures
        component_roots(ordering::stable_sorted(files))[c] != "."@,
{
    let listed = ordering::stable_sorted(files);
    let keys = ordering::sorted_texts(root_keys(listed));
    let root = component_roots(listed)[c];
    lemma_root_keys(listed);
    ordering::lemma_sorted_texts(root_keys(listed));
    reveal_strlit(".");
    assert("."@ =~= seq!['.']);
    assert(keys.to_set().contains(keys[c]));
    if root == "."@ {
        let k = choose|k: int|
            0 <= k < listed.len() && keys[c] == path_key(
                input_inventory::parent_path((#[trigger] listed[k]).path@),
            );
        let parent = input_inventory::parent_path(listed[k].path@);
        ordering::lemma_stable_sorted_contains(files, listed[k]);
        assert(listed.contains(listed[k]));
        assert(files[files.index_of(listed[k])] == listed[k]);
        assert(root.len() == 1);
        assert(parent.len() == 1);
        assert(root[0] == '.');
        assert(keys[c][0] == root[0]);
        assert(parent[0] == keys[c][0]);
        assert(parent =~= "."@);
    }
}

/// A file outside the workspace root is refused, and a path below it is taken
/// without the root.
pub proof fn law_paths_are_relative_to_the_root(
    root: &str,
    path: &str,
    below: Seq<char>,
    result: Result<WorkspacePath, DiscoveryError>,
)
    requires
        call_ensures(workspace_path, (root, path), result),
    ensures
        path@ == root@ + "/"@ + below ==> result is Ok && result->Ok_0@ == below,
        result is Ok ==> path@ == root@ + "/"@ + result->Ok_0@,
{
    let prefix = root@ + "/"@;
    if path@ == prefix + below {
        assert(path@.take(prefix.len() as int) =~= prefix);
        assert(path@.skip(prefix.len() as int) =~= below);
    }
    if result is Ok {
        assert(path@ =~= path@.take(prefix.len() as int) + path@.skip(prefix.len() as int));
    }
}

/// A listing leaves out what version control, build tools and editors keep in
/// their own directories, and no directory that a source root is named after.
pub proof fn law_excluded_directories(name: &str, result: bool)
    requires
        call_ensures(is_excluded_directory, (name,), result),
    ensures
        name@ == ".git"@ || name@ == ".gradle"@ || name@ == ".idea"@ || name@ == ".kide"@
            || name@ == "build"@ || name@ == "node_modules"@ || name@ == "out"@ || name@
            == "target"@ ==> result,
        name@ == "src"@ || name@ == "main"@ || name@ == "test"@ || name@ == "app"@ || name@
            == "lib"@ || name@ == "generated"@ || name@.len() > 12 || name@.len() < 3 ==> !result,
{
    reveal_strlit(".git");
    reveal_strlit(".gradle");
    reveal_strlit(".idea");
    reveal_strlit(".kide");
    reveal_strlit("build");
    reveal_strlit("node_modules");
    reveal_strlit("out");
    reveal_strlit("target");
    reveal_strlit("src");
    reveal_strlit("main");
    reveal_strlit("test");
    reveal_strlit("app");
    reveal_strlit("lib");
    reveal_strlit("generated");
    assert(".git"@[0] == '.' && ".gradle"@[0] == '.' && ".idea"@[0] == '.' && ".kide"@[0] == '.');
    assert("build"@[0] == 'b' && "node_modules"@[0] == 'n' && "out"@[0] == 'o');
    assert("target"@.len() == 6);
    assert("src"@[0] == 's' && "main"@[0] == 'm' && "app"@[0] == 'a' && "lib"@[0] == 'l');
    assert("test"@.len() == 4 && "test"@[0] == 't' && "generated"@[0] == 'g');
}

} // verus!
