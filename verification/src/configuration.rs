//! Versioned, layered workspace configuration.
//!
//! Configuration is an input to semantic freshness, not a display preference.
//! The effective value is the built-in defaults overlaid by an optional global
//! file and then `.kide/config.toml` in the workspace. A missing file is
//! normal; an existing invalid file is an error and is never ignored.

use vstd::prelude::*;

use crate::shown::push;
use crate::text;

verus! {

/// The configuration schema that is understood.
pub const CONFIGURATION_SCHEMA_VERSION: u32 = 1;

/// How semantic queries handle facts whose owners no longer match their
/// indexed input fingerprint.
#[derive(Debug, Clone, Copy, Default, PartialEq, Eq, Structural)]
pub enum FreshnessStrategy {
    /// Return no semantic payload when an owning input is not verified.
    #[default]
    FreshOnly,
    /// Return the payload, but make the stale status and metadata explicit.
    AllowStale,
}

/// How Maven projects are resolved.
#[derive(Debug, Clone, Copy, PartialEq, Eq, Structural)]
pub struct MavenConfiguration {
    /// Keep indexing sources where dependencies are unavailable, and record
    /// those as unresolved.
    pub best_effort_dependencies: bool,
}

/// The configuration that is in force.
#[derive(Debug, Clone, Copy, PartialEq, Eq, Structural)]
pub struct EffectiveConfiguration {
    pub schema_version: u32,
    pub freshness_strategy: FreshnessStrategy,
    pub maven: MavenConfiguration,
}

impl Default for EffectiveConfiguration {
    fn default() -> (result: Self)
        ensures
            result == default_configuration(),
    {
        EffectiveConfiguration {
            schema_version: CONFIGURATION_SCHEMA_VERSION,
            freshness_strategy: FreshnessStrategy::FreshOnly,
            maven: MavenConfiguration { best_effort_dependencies: true },
        }
    }
}

/// The built-in configuration.
pub open spec fn default_configuration() -> EffectiveConfiguration {
    EffectiveConfiguration {
        schema_version: CONFIGURATION_SCHEMA_VERSION,
        freshness_strategy: FreshnessStrategy::FreshOnly,
        maven: MavenConfiguration { best_effort_dependencies: true },
    }
}

/// The files that contributed to an effective configuration.
#[derive(Debug, Clone, PartialEq, Eq)]
pub struct ConfigurationSources {
    pub global: Option<String>,
    pub workspace: Option<String>,
}

impl Default for ConfigurationSources {
    fn default() -> (result: Self)
        ensures
            result.global is None,
            result.workspace is None,
    {
        ConfigurationSources { global: None, workspace: None }
    }
}

/// An effective configuration and where it came from.
#[derive(Debug, Clone, PartialEq, Eq)]
pub struct LoadedConfiguration {
    pub effective: EffectiveConfiguration,
    pub sources: ConfigurationSources,
}

/// What the `maven` table of a configuration file states.
#[derive(Debug, Clone, Copy, PartialEq, Eq)]
pub struct MavenLayer {
    pub best_effort_dependencies: Option<bool>,
}

/// What one configuration file states.
#[derive(Debug, Clone, Copy, PartialEq, Eq)]
pub struct ConfigurationLayer {
    pub schema_version: Option<u32>,
    pub freshness_strategy: Option<FreshnessStrategy>,
    pub maven: Option<MavenLayer>,
}

/// What reading a configuration file gave.
#[derive(Debug, Clone, PartialEq, Eq)]
pub enum LayerContent {
    Layer(ConfigurationLayer),
    Unreadable(String),
    Malformed(String),
}

/// A configuration file that exists, and what reading it gave.
#[derive(Debug, Clone, PartialEq, Eq)]
pub struct ConfigurationFile {
    pub path: String,
    pub content: LayerContent,
}

/// Why a configuration cannot be used.
#[derive(Debug, Clone, PartialEq, Eq)]
pub enum ConfigurationError {
    Read { path: String, source: String },
    Parse { path: String, source: String },
    UnsupportedSchema { path: String, found: u32, supported: u32 },
    AlreadyInitialized(String),
}

impl ConfigurationError {
    /// The message that is shown for an error.
    pub open spec fn message_text(&self) -> Seq<char> {
        match self {
            ConfigurationError::Read { path, source } => "failed to read KIDE configuration `"@
                + path@
                + "`: "@
                + source@,
            ConfigurationError::Parse { path, source } => "failed to parse KIDE configuration `"@
                + path@
                + "`: "@
                + source@,
            ConfigurationError::UnsupportedSchema { path, found, supported } => {
                "KIDE configuration `"@
                + path@
                + "` uses unsupported schema version "@
                + text::decimal_text(*found as nat)
                + "; supported version is "@
                + text::decimal_text(*supported as nat)
            },
            ConfigurationError::AlreadyInitialized(path) => {
                "KIDE configuration already exists at `"@
                + path@
                + "`"@
            },
        }
    }

    /// Computes `message_text`.
    pub fn message(&self) -> (result: String)
        ensures
            result@ == self.message_text(),
    {
        match self {
            ConfigurationError::Read { path, source } => {
                let mut out = "failed to read KIDE configuration `".to_owned();
                push(&mut out, path.as_str());
                push(&mut out, "`: ");
                push(&mut out, source.as_str());
                out
            },
            ConfigurationError::Parse { path, source } => {
                let mut out = "failed to parse KIDE configuration `".to_owned();
                push(&mut out, path.as_str());
                push(&mut out, "`: ");
                push(&mut out, source.as_str());
                out
            },
            ConfigurationError::UnsupportedSchema { path, found, supported } => {
                let mut out = "KIDE configuration `".to_owned();
                push(&mut out, path.as_str());
                push(&mut out, "` uses unsupported schema version ");
                push(&mut out, text::decimal(*found as u64).as_str());
                push(&mut out, "; supported version is ");
                push(&mut out, text::decimal(*supported as u64).as_str());
                out
            },
            ConfigurationError::AlreadyInitialized(path) => {
                let mut out = "KIDE configuration already exists at `".to_owned();
                push(&mut out, path.as_str());
                push(&mut out, "`");
                out
            },
        }
    }
}

/// The deterministic starter file of a workspace.
pub const WORKSPACE_CONFIGURATION_TEMPLATE: &'static str =
    "# KIDE workspace configuration schema.\n# Workspace values override the optional global file selected by KIDE_GLOBAL_CONFIG.\nschema_version = 1\n\n# Do not serve semantic answers whose source owners changed after indexing.\n# Set to \"allow_stale\" only when callers explicitly handle `status: stale`.\nfreshness_strategy = \"fresh_only\"\n";

/// The local ignore policy installed beside the checked-in configuration.
pub const WORKSPACE_GITIGNORE_TEMPLATE: &'static str =
    "# Persistent KIDE state is local and reproducible.\n*\n!.gitignore\n!config.toml\n";

/// The problem of a file, where it has one.
pub open spec fn layer_problem(file: ConfigurationFile) -> Option<ConfigurationError> {
    match file.content {
        LayerContent::Unreadable(source) => Some(
            ConfigurationError::Read { path: file.path, source },
        ),
        LayerContent::Malformed(source) => Some(
            ConfigurationError::Parse { path: file.path, source },
        ),
        LayerContent::Layer(layer) => match layer.schema_version {
            Some(found) => if found != CONFIGURATION_SCHEMA_VERSION {
                Some(
                    ConfigurationError::UnsupportedSchema {
                        path: file.path,
                        found,
                        supported: CONFIGURATION_SCHEMA_VERSION,
                    },
                )
            } else {
                None
            },
            None => None,
        },
    }
}

/// A configuration with a file laid over it: a file overrides only what it
/// states.
pub open spec fn overlaid(
    effective: EffectiveConfiguration,
    file: ConfigurationFile,
) -> EffectiveConfiguration {
    match file.content {
        LayerContent::Layer(layer) => EffectiveConfiguration {
            schema_version: effective.schema_version,
            freshness_strategy: match layer.freshness_strategy {
                Some(strategy) => strategy,
                None => effective.freshness_strategy,
            },
            maven: MavenConfiguration {
                best_effort_dependencies: match stated_best_effort(layer) {
                    Some(stated) => stated,
                    None => effective.maven.best_effort_dependencies,
                },
            },
        },
        _ => effective,
    }
}

/// What a file states about unavailable Maven dependencies.
pub open spec fn stated_best_effort(layer: ConfigurationLayer) -> Option<bool> {
    match layer.maven {
        Some(maven) => maven.best_effort_dependencies,
        None => None,
    }
}

/// Lays a file over a configuration.
pub fn apply_layer(effective: &mut EffectiveConfiguration, file: &ConfigurationFile) -> (result:
    Result<(), ConfigurationError>)
    ensures
        match layer_problem(*file) {
            Some(problem) => result == Err::<(), ConfigurationError>(problem) && *final(effective)
                == *old(effective),
            None => result is Ok && *final(effective) == overlaid(*old(effective), *file),
        },
{
    let layer = match &file.content {
        LayerContent::Unreadable(source) => {
            return Err(
                ConfigurationError::Read { path: file.path.clone(), source: source.clone() },
            );
        },
        LayerContent::Malformed(source) => {
            return Err(
                ConfigurationError::Parse { path: file.path.clone(), source: source.clone() },
            );
        },
        LayerContent::Layer(layer) => layer,
    };
    if let Some(found) = layer.schema_version {
        if found != CONFIGURATION_SCHEMA_VERSION {
            return Err(
                ConfigurationError::UnsupportedSchema {
                    path: file.path.clone(),
                    found,
                    supported: CONFIGURATION_SCHEMA_VERSION,
                },
            );
        }
    }
    if let Some(strategy) = layer.freshness_strategy {
        effective.freshness_strategy = strategy;
    }
    if let Some(maven) = layer.maven {
        if let Some(stated) = maven.best_effort_dependencies {
            effective.maven = MavenConfiguration { best_effort_dependencies: stated };
        }
    }
    Ok(())
}

/// The problem of the first of two optional files that has one.
pub open spec fn files_problem(
    global: Option<ConfigurationFile>,
    workspace: Option<ConfigurationFile>,
) -> Option<ConfigurationError> {
    match (global, workspace) {
        (Some(global), Some(workspace)) => if layer_problem(global) is Some {
            layer_problem(global)
        } else {
            layer_problem(workspace)
        },
        (Some(global), None) => layer_problem(global),
        (None, Some(workspace)) => layer_problem(workspace),
        (None, None) => None,
    }
}

/// The defaults with the global file laid over them, then the workspace file.
pub open spec fn effective_configuration(
    global: Option<ConfigurationFile>,
    workspace: Option<ConfigurationFile>,
) -> EffectiveConfiguration {
    let base = match global {
        Some(global) => overlaid(default_configuration(), global),
        None => default_configuration(),
    };
    match workspace {
        Some(workspace) => overlaid(base, workspace),
        None => base,
    }
}

/// The path of a file that is there.
pub open spec fn file_path(file: Option<ConfigurationFile>) -> Option<String> {
    match file {
        Some(file) => Some(file.path),
        None => None,
    }
}

/// Loads the defaults, then the global file, then the workspace override.
/// Later files override only what they state.
pub fn load_configuration(
    global: &Option<ConfigurationFile>,
    workspace: &Option<ConfigurationFile>,
) -> (result: Result<LoadedConfiguration, ConfigurationError>)
    ensures
        match files_problem(*global, *workspace) {
            Some(problem) => result == Err::<LoadedConfiguration, ConfigurationError>(problem),
            None => result == Ok::<LoadedConfiguration, ConfigurationError>(
                LoadedConfiguration {
                    effective: effective_configuration(*global, *workspace),
                    sources: ConfigurationSources {
                        global: file_path(*global),
                        workspace: file_path(*workspace),
                    },
                },
            ),
        },
{
    let mut effective = EffectiveConfiguration::default();
    let mut sources = ConfigurationSources::default();
    if let Some(file) = global {
        match apply_layer(&mut effective, file) {
            Ok(()) => {},
            Err(error) => {
                return Err(error);
            },
        }
        sources.global = Some(file.path.clone());
    }
    if let Some(file) = workspace {
        match apply_layer(&mut effective, file) {
            Ok(()) => {},
            Err(error) => {
                return Err(error);
            },
        }
        sources.workspace = Some(file.path.clone());
    }
    Ok(LoadedConfiguration { effective, sources })
}

/// A file to be written, by its path in the workspace.
#[derive(Debug, Clone, PartialEq, Eq)]
pub struct PlannedFile {
    pub path: String,
    pub content: String,
}

/// Plans the files of a new workspace configuration. An existing configuration
/// is never overwritten.
pub fn initialize_workspace_configuration(exists: bool) -> (result: Result<
    Vec<PlannedFile>,
    ConfigurationError,
>)
    ensures
        exists ==> result is Err && result->Err_0 is AlreadyInitialized
            && result->Err_0->AlreadyInitialized_0@ == ".kide/config.toml"@,
        !exists ==> {
            &&& result is Ok
            &&& result->Ok_0@.len() == 2
            &&& result->Ok_0@[0].path@ == ".kide/config.toml"@
            &&& result->Ok_0@[0].content@ == WORKSPACE_CONFIGURATION_TEMPLATE@
            &&& result->Ok_0@[1].path@ == ".kide/.gitignore"@
            &&& result->Ok_0@[1].content@ == WORKSPACE_GITIGNORE_TEMPLATE@
        },
{
    if exists {
        return Err(ConfigurationError::AlreadyInitialized(".kide/config.toml".to_owned()));
    }
    let mut files: Vec<PlannedFile> = Vec::new();
    files.push(
        PlannedFile {
            path: ".kide/config.toml".to_owned(),
            content: WORKSPACE_CONFIGURATION_TEMPLATE.to_owned(),
        },
    );
    files.push(
        PlannedFile {
            path: ".kide/.gitignore".to_owned(),
            content: WORKSPACE_GITIGNORE_TEMPLATE.to_owned(),
        },
    );
    Ok(files)
}

/// What the workspace file states wins, what it leaves open comes from the
/// global file, and what both leave open is the default.
pub proof fn law_later_files_override(
    global: ConfigurationLayer,
    workspace: ConfigurationLayer,
    global_path: String,
    workspace_path: String,
)
    ensures
        ({
            let effective = effective_configuration(
                Some(ConfigurationFile { path: global_path, content: LayerContent::Layer(global) }),
                Some(
                    ConfigurationFile {
                        path: workspace_path,
                        content: LayerContent::Layer(workspace),
                    },
                ),
            );
            &&& effective.schema_version == CONFIGURATION_SCHEMA_VERSION
            &&& effective.freshness_strategy == (match (
                workspace.freshness_strategy,
                global.freshness_strategy,
            ) {
                (Some(strategy), _) => strategy,
                (None, Some(strategy)) => strategy,
                (None, None) => FreshnessStrategy::FreshOnly,
            })
            &&& effective.maven.best_effort_dependencies == (match (
                stated_best_effort(workspace),
                stated_best_effort(global),
            ) {
                (Some(stated), _) => stated,
                (None, Some(stated)) => stated,
                (None, None) => true,
            })
        }),
{
}

/// A configuration is loaded exactly where every file that is there can be read
/// and parsed and states no other schema version than the supported one. An
/// invalid file is never passed over, and the global file is looked at first.
pub proof fn law_invalid_files_are_refused(
    global: &Option<ConfigurationFile>,
    workspace: &Option<ConfigurationFile>,
    result: Result<LoadedConfiguration, ConfigurationError>,
)
    requires
        call_ensures(load_configuration, (global, workspace), result),
    ensures
        result is Ok <==> (global is Some ==> global->0.content is Layer && (
        global->0.content->Layer_0.schema_version is Some
            ==> global->0.content->Layer_0.schema_version->0 == 1)) && (workspace is Some
            ==> workspace->0.content is Layer && (
        workspace->0.content->Layer_0.schema_version is Some
            ==> workspace->0.content->Layer_0.schema_version->0 == 1)),
        global is Some && global->0.content is Unreadable ==> result is Err && result->Err_0 is Read
            && result->Err_0->Read_path == global->0.path,
        global is Some && global->0.content is Malformed ==> result is Err && result->Err_0
            is Parse && result->Err_0->Parse_path == global->0.path,
        global is None && workspace is Some && workspace->0.content is Unreadable ==> result is Err
            && result->Err_0 is Read && result->Err_0->Read_path == workspace->0.path,
        global is None && workspace is Some && workspace->0.content is Malformed ==> result is Err
            && result->Err_0 is Parse && result->Err_0->Parse_path == workspace->0.path,
{
}

/// Each setting of a loaded configuration is what the workspace file states,
/// else what the global file states, else the default: answers are served only
/// fresh, and Maven dependencies are resolved as far as they go.
pub proof fn law_settings_come_from_the_nearest_file(
    global: &Option<ConfigurationFile>,
    workspace: &Option<ConfigurationFile>,
    loaded: LoadedConfiguration,
)
    requires
        call_ensures(
            load_configuration,
            (global, workspace),
            Ok::<LoadedConfiguration, ConfigurationError>(loaded),
        ),
    ensures
        ({
            let near = if workspace is Some {
                workspace->0.content->Layer_0.freshness_strategy
            } else {
                None
            };
            let far = if global is Some {
                global->0.content->Layer_0.freshness_strategy
            } else {
                None
            };
            &&& near is Some ==> loaded.effective.freshness_strategy == near->0
            &&& near is None && far is Some ==> loaded.effective.freshness_strategy == far->0
            &&& near is None && far is None ==> loaded.effective.freshness_strategy
                == FreshnessStrategy::FreshOnly
        }),
        ({
            let near = if workspace is Some && workspace->0.content->Layer_0.maven is Some {
                workspace->0.content->Layer_0.maven->0.best_effort_dependencies
            } else {
                None
            };
            let far = if global is Some && global->0.content->Layer_0.maven is Some {
                global->0.content->Layer_0.maven->0.best_effort_dependencies
            } else {
                None
            };
            &&& near is Some ==> loaded.effective.maven.best_effort_dependencies == near->0
            &&& near is None && far is Some ==> loaded.effective.maven.best_effort_dependencies
                == far->0
            &&& near is None && far is None ==> loaded.effective.maven.best_effort_dependencies
        }),
        loaded.effective.schema_version == 1,
        loaded.sources.global is Some <==> global is Some,
        loaded.sources.workspace is Some <==> workspace is Some,
        global is Some ==> loaded.sources.global->0 == global->0.path,
        workspace is Some ==> loaded.sources.workspace->0 == workspace->0.path,
{
}

/// A workspace is configured once: an existing configuration is left alone, and
/// what is written otherwise lies in the state directory.
pub proof fn law_existing_configuration_is_kept(
    exists: bool,
    result: Result<Vec<PlannedFile>, ConfigurationError>,
)
    requires
        call_ensures(initialize_workspace_configuration, (exists,), result),
    ensures
        result is Err <==> exists,
        result is Ok ==> result->Ok_0@.len() == 2 && result->Ok_0@[0].path@ == ".kide/config.toml"@
            && result->Ok_0@[1].path@ == ".kide/.gitignore"@,
{
}

} // verus!
