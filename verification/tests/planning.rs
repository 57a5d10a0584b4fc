use kide_core::canonical::{
    ComponentId, Fingerprint, Language, Provenance, SourceOrigin, SourceUnit, SourceUnitId,
    SymbolId, WorkspaceId, WorkspacePath,
};
use kide_core::discovery::{discover_workspace, is_excluded_directory, WorkspaceDiscovery, WorkspaceFile};
use kide_core::freshness::{
    plan_analysis_invalidation, plan_invalidation, AnalysisInput, IndexAction, InvalidationReason,
};
use kide_core::incremental_plan::{
    plan_incremental_analysis_index, plan_incremental_index, DependencyAction, ManifestAction,
};
use kide_core::input_inventory::{
    component_context_fingerprint, is_configuration_input, reconcile_configuration_inputs,
    ConfigurationInput, ConfigurationInputState,
};
use kide_core::protocol::ArtifactDescriptor;

fn unit(id: &str, content: &str, context: &str) -> SourceUnit {
    SourceUnit {
        id: SourceUnitId::new(id),
        component: ComponentId::new("fixture:main"),
        path: WorkspacePath::new(format!("src/{id}.kt")),
        language: Language::Kotlin,
        origin: SourceOrigin::Source,
        content: Fingerprint::new(content),
        context: Fingerprint::new(context),
    }
}

fn provenance(version: &str, options: &str) -> Provenance {
    Provenance {
        backend: "fixture-worker".to_owned(),
        backend_version: version.to_owned(),
        protocol_version: 2,
        analysis_options: Fingerprint::new(options),
    }
}

#[test]
fn symbol_id_preserves_its_opaque_value() {
    let id = SymbolId::new("kotlin:example.Service#run()V");

    assert_eq!(id.as_str(), "kotlin:example.Service#run()V");
}

#[test]
fn a_non_jvm_language_fits_the_canonical_source_unit() {
    let source = SourceUnit {
        id: SourceUnitId::new("typescript:ui:src/main.ts"),
        component: ComponentId::new("npm:ui"),
        path: WorkspacePath::new("ui/src/main.ts"),
        language: Language::TypeScript,
        origin: SourceOrigin::Source,
        content: Fingerprint::new("sha256:abc"),
        context: Fingerprint::new("sha256:def"),
    };

    assert_eq!(source.language, Language::TypeScript);
    assert_eq!(source.component.as_str(), "npm:ui");
}

#[test]
fn reuses_only_identical_inputs_and_removes_deleted_units() {
    let unchanged = unit("unchanged", "sha256:a", "sha256:context");
    let body_edit = unit("body", "sha256:new", "sha256:context");
    let config_edit = unit("config", "sha256:a", "sha256:new-context");
    assert_eq!(
        plan_invalidation(
            &[unchanged.clone(), body_edit.clone(), config_edit.clone()],
            &[
                unchanged.clone(),
                unit("body", "sha256:old", "sha256:context"),
                unit("config", "sha256:a", "sha256:old-context"),
                unit("deleted", "sha256:a", "sha256:context"),
            ],
        ),
        vec![
            IndexAction::Reanalyze {
                source_unit: body_edit,
                reason: InvalidationReason::ContentChanged
            },
            IndexAction::Reanalyze {
                source_unit: config_edit,
                reason: InvalidationReason::ContextChanged
            },
            IndexAction::Reuse(unchanged),
            IndexAction::Remove { source_unit: SourceUnitId::new("deleted") },
        ],
    );
}

#[test]
fn invalidates_when_backend_or_analysis_options_change() {
    let source = unit("source", "sha256:a", "sha256:context");
    let current = AnalysisInput {
        source_unit: source.clone(),
        provenance: provenance("1", "sha256:options"),
    };
    let old_backend = AnalysisInput {
        source_unit: source.clone(),
        provenance: provenance("0", "sha256:options"),
    };
    let old_options = AnalysisInput {
        source_unit: source.clone(),
        provenance: provenance("1", "sha256:old-options"),
    };
    assert!(matches!(
        plan_analysis_invalidation(std::slice::from_ref(&current), &[old_backend])[..],
        [IndexAction::Reanalyze { reason: InvalidationReason::BackendChanged, .. }]
    ));
    assert!(matches!(
        plan_analysis_invalidation(&[current], &[old_options])[..],
        [IndexAction::Reanalyze { reason: InvalidationReason::AnalysisOptionsChanged, .. }]
    ));
}

#[test]
fn unchanged_inputs_are_all_reused() {
    let units = vec![unit("b", "sha256:b", "sha256:c"), unit("a", "sha256:a", "sha256:c")];
    let plan = plan_invalidation(&units, &units);
    assert_eq!(
        plan,
        vec![IndexAction::Reuse(units[1].clone()), IndexAction::Reuse(units[0].clone())]
    );
    let inputs: Vec<AnalysisInput> = units
        .iter()
        .map(|unit| AnalysisInput {
            source_unit: unit.clone(),
            provenance: provenance("1", "sha256:options"),
        })
        .collect();
    assert!(plan_analysis_invalidation(&inputs, &inputs)
        .iter()
        .all(|action| matches!(action, IndexAction::Reuse(_))));
}

#[test]
fn the_last_of_two_units_with_one_id_counts() {
    let first = unit("a", "sha256:old", "sha256:c");
    let second = unit("a", "sha256:new", "sha256:c");
    assert_eq!(
        plan_invalidation(&[first.clone(), second.clone()], &[first, second.clone()]),
        vec![IndexAction::Reuse(second)]
    );
}

fn source(id: &str, content: &str) -> SourceUnit {
    SourceUnit {
        id: SourceUnitId::new(id),
        component: ComponentId::new("fixture:main"),
        path: WorkspacePath::new(format!("src/{id}.java")),
        language: Language::Java,
        origin: SourceOrigin::Source,
        content: Fingerprint::new(content),
        context: Fingerprint::new("sha256:context"),
    }
}

fn dependency(content: &str) -> ArtifactDescriptor {
    ArtifactDescriptor {
        source_unit: SourceUnit {
            id: SourceUnitId::new("jvm:fixture"),
            component: ComponentId::new("fixture:main"),
            path: WorkspacePath::new("fixture.jar"),
            language: Language::Java,
            origin: SourceOrigin::Dependency,
            content: Fingerprint::new(content),
            context: Fingerprint::new("sha256:context"),
        },
        provenance: Provenance {
            backend: "fixture".into(),
            backend_version: "1".into(),
            protocol_version: 3,
            analysis_options: Fingerprint::new("sha256:options"),
        },
        resolved_identity: None,
        symbol_locators: Vec::new(),
    }
}

#[test]
fn warm_plan_reuses_sources_and_exact_dependency_blob() {
    let source = source("A", "sha256:a");
    let dependency = dependency("sha256:jar");
    let plan = plan_incremental_index(
        ManifestAction::Reuse,
        std::slice::from_ref(&source),
        std::slice::from_ref(&source),
        std::slice::from_ref(&dependency),
        std::slice::from_ref(&dependency),
        |_| true,
    );
    assert!(!plan.requires_source_worker());
    assert!(matches!(plan.dependencies.as_slice(), [DependencyAction::CacheHit(_)]));
}

#[test]
fn source_or_dependency_identity_change_is_narrow() {
    let old_source = source("A", "sha256:old");
    let new_source = source("A", "sha256:new");
    let plan = plan_incremental_index(
        ManifestAction::Resolve,
        &[new_source],
        &[old_source],
        &[dependency("sha256:new")],
        &[dependency("sha256:old")],
        |_| true,
    );
    assert!(plan.requires_source_worker());
    assert!(matches!(plan.dependencies.as_slice(), [DependencyAction::CacheMiss(_)]));
}

#[test]
fn missing_blob_is_a_miss_even_when_identity_matches() {
    let dependency = dependency("sha256:jar");
    let plan = plan_incremental_index(
        ManifestAction::Reuse,
        &[],
        &[],
        std::slice::from_ref(&dependency),
        std::slice::from_ref(&dependency),
        |_| false,
    );
    assert_eq!(plan.dependency_misses().len(), 1);
}

#[test]
fn worker_provenance_drift_is_a_dependency_miss() {
    let previous = dependency("sha256:jar");
    let mut current = previous.clone();
    current.provenance.backend_version = "2".into();
    let plan = plan_incremental_index(
        ManifestAction::Resolve,
        &[],
        &[],
        std::slice::from_ref(&current),
        std::slice::from_ref(&previous),
        |_| true,
    );
    assert_eq!(plan.dependency_misses().len(), 1);
}

#[test]
fn dependencies_that_are_gone_are_removed() {
    let previous = dependency("sha256:jar");
    let plan = plan_incremental_analysis_index(
        ManifestAction::Reuse,
        &[],
        &[],
        &[],
        std::slice::from_ref(&previous),
        |_| true,
    );
    assert_eq!(plan.manifest, ManifestAction::Reuse);
    assert_eq!(plan.dependencies, vec![DependencyAction::Removed(previous)]);
    assert!(plan.dependency_misses().is_empty());
}

fn input(path: &str, digest: &str, component: &str) -> ConfigurationInput {
    ConfigurationInput {
        path: WorkspacePath::new(path),
        fingerprint: Fingerprint::new(digest),
        components: vec![ComponentId::new(component)],
    }
}

#[test]
fn reconciliation_is_sorted_and_reports_affected_components() {
    let result = reconcile_configuration_inputs(
        &[input("deleted", "old", "b"), input("same", "same", "a")],
        &[input("added", "new", "c"), input("same", "same", "a")],
    );
    assert_eq!(
        result.inputs.iter().map(|input| (input.path.as_str(), input.state)).collect::<Vec<_>>(),
        vec![
            ("added", ConfigurationInputState::Added),
            ("deleted", ConfigurationInputState::Missing),
            ("same", ConfigurationInputState::Current),
        ]
    );
    assert_eq!(result.affected_components, vec![ComponentId::new("b"), ComponentId::new("c")]);
}

#[test]
fn unchanged_configuration_affects_no_component() {
    let inputs = vec![input("pom.xml", "x", "a"), input("build.gradle", "y", "b")];
    let result = reconcile_configuration_inputs(&inputs, &inputs);
    assert!(result.inputs.iter().all(|input| input.state == ConfigurationInputState::Current));
    assert!(result.affected_components.is_empty());
    let changed = reconcile_configuration_inputs(&inputs, &[input("pom.xml", "z", "a")]);
    assert_eq!(changed.inputs[1].state, ConfigurationInputState::Changed);
    assert_eq!(changed.affected_components, vec![ComponentId::new("a"), ComponentId::new("b")]);
}

#[test]
fn context_fingerprints_cover_the_inputs_of_the_component_alone() {
    let inputs = vec![input("a.toml", "sha256:1", "a"), input("b.toml", "sha256:2", "b")];
    let nothing = component_context_fingerprint(&ComponentId::new("c"), &inputs);
    assert_eq!(
        nothing.as_str(),
        "sha256:e3b0c44298fc1c149afbf4c8996fb92427ae41e4649b934ca495991b7852b855"
    );
    let a = component_context_fingerprint(&ComponentId::new("a"), &inputs);
    let alone = component_context_fingerprint(
        &ComponentId::new("a"),
        &[input("a.toml", "sha256:1", "a")],
    );
    assert_eq!(a, alone);
    assert_ne!(a, component_context_fingerprint(&ComponentId::new("b"), &inputs));
}

fn file(path: &str, content: &str) -> WorkspaceFile {
    WorkspaceFile { path: WorkspacePath::new(path), content: content.as_bytes().to_vec() }
}

fn fixture_files() -> Vec<WorkspaceFile> {
    vec![
        file("settings.gradle.kts", "include(\":app\", \":lib\")\n"),
        file("gradle.properties", "kotlin.code.style=official\n"),
        file("app/build.gradle.kts", "plugins { kotlin(\"jvm\") }\n"),
        file("app/src/main/kotlin/App.kt", "class App\n"),
        file("lib/build.gradle.kts", "plugins { java }\n"),
        file("lib/src/main/java/Library.java", "class Library {}\n"),
        file("src/generated/kotlin/Generated.kt", "class Generated\n"),
    ]
}

fn discover(files: Vec<WorkspaceFile>) -> WorkspaceDiscovery {
    discover_workspace(files, Vec::new(), WorkspaceId::new("workspace:fixture"), "0.1.0")
}

fn source_paths(discovery: &WorkspaceDiscovery) -> Vec<&str> {
    discovery.source_units.iter().map(|source| source.path.as_str()).collect()
}

#[test]
fn discovers_a_multi_module_workspace_from_a_nested_path_deterministically() {
    let mut reversed = fixture_files();
    reversed.reverse();
    let from_root = discover(fixture_files());
    let from_nested = discover(reversed);

    assert_eq!(from_root, from_nested);
    assert_eq!(from_root.manifest.components.len(), 3);
    assert_eq!(
        source_paths(&from_root),
        vec![
            "app/src/main/kotlin/App.kt",
            "lib/src/main/java/Library.java",
            "src/generated/kotlin/Generated.kt",
        ]
    );
    assert!(from_root.source_units.iter().any(|source| source.language == Language::Kotlin));
    assert!(from_root.source_units.iter().any(|source| source.language == Language::Java));
    assert!(from_root.source_units.iter().any(|source| source.origin == SourceOrigin::Generated));
    assert!(from_root
        .configuration_inputs
        .windows(2)
        .all(|pair| pair[0].as_str() < pair[1].as_str()));
}

#[test]
fn source_identity_and_fingerprints_are_stable_and_content_sensitive() {
    let before = discover(fixture_files());
    let before_app = before
        .source_units
        .iter()
        .find(|source| source.path.as_str() == "app/src/main/kotlin/App.kt")
        .expect("app source");
    let mut files = fixture_files();
    files[3] = file("app/src/main/kotlin/App.kt", "class App { fun changed() = Unit }\n");
    let after = discover(files);
    let after_app = after
        .source_units
        .iter()
        .find(|source| source.path.as_str() == "app/src/main/kotlin/App.kt")
        .expect("app source");

    assert_eq!(before_app.id, after_app.id);
    assert_ne!(before_app.content, after_app.content);
    assert_eq!(before_app.context, after_app.context);
    assert_eq!(before.manifest.fingerprint, after.manifest.fingerprint);
}

#[test]
fn javascript_lockfiles_are_configuration_inputs_that_change_context() {
    let files = |lock: &str| {
        vec![
            file("package.json", "{\"name\":\"app\"}\n"),
            file("pnpm-lock.yaml", lock),
            file("src/Main.java", "class Main {}\n"),
        ]
    };
    let before = discover(files("lockfileVersion: '9.0'\n"));
    assert!(before.configuration_inputs.contains(&WorkspacePath::new("pnpm-lock.yaml")));
    let after = discover(files("lockfileVersion: '9.0'\npackages: {}\n"));
    assert_ne!(before.source_units[0].context, after.source_units[0].context);
    assert_ne!(before.manifest.fingerprint, after.manifest.fingerprint);
}

#[test]
fn module_configuration_changes_only_that_component_context() {
    let context = |discovery: &WorkspaceDiscovery, path: &str| {
        discovery
            .source_units
            .iter()
            .find(|source| source.path.as_str() == path)
            .expect("source")
            .context
            .clone()
    };
    let before = discover(fixture_files());
    let mut files = fixture_files();
    files[2] = file("app/build.gradle.kts", "plugins { kotlin(\"jvm\") }\ndependencies {}\n");
    let after = discover(files);
    assert_ne!(
        context(&before, "app/src/main/kotlin/App.kt"),
        context(&after, "app/src/main/kotlin/App.kt")
    );
    assert_eq!(
        context(&before, "lib/src/main/java/Library.java"),
        context(&after, "lib/src/main/java/Library.java")
    );
}

#[test]
fn kide_configuration_is_workspace_wide_even_though_state_directory_is_excluded() {
    let mut files = fixture_files();
    files.push(file(
        ".kide/config.toml",
        "schema_version = 1\nfreshness_strategy = \"fresh_only\"\n",
    ));
    let discovery = discover(files);
    let input = discovery
        .configuration_input_records
        .iter()
        .find(|input| input.path.as_str() == ".kide/config.toml")
        .expect("the configuration is inventoried");
    assert_eq!(input.components.len(), discovery.manifest.components.len());
    assert!(is_excluded_directory(".kide"));
}

#[test]
fn a_workspace_lists_units_components_and_inputs_once() {
    let mut files = fixture_files();
    files.push(file("app-core/src/Core.kt", "class Core\n"));
    files.push(file("pom.xml", "<project/>\n"));
    files.push(file("lib/pom.xml", "<project/>\n"));
    let discovery = discover(files);
    let units = source_paths(&discovery);
    assert_eq!(units.len(), 4);
    assert!(units.windows(2).all(|pair| pair[0] < pair[1]));
    assert_eq!(units[0], "app-core/src/Core.kt");
    let roots = discovery
        .manifest
        .components
        .iter()
        .map(|component| component.root.as_str())
        .collect::<Vec<_>>();
    assert_eq!(roots, vec![".", "app", "lib"]);
    let inputs = discovery
        .configuration_inputs
        .iter()
        .map(|path| path.as_str())
        .collect::<Vec<_>>();
    assert_eq!(
        inputs,
        vec![
            "app/build.gradle.kts",
            "gradle.properties",
            "lib/build.gradle.kts",
            "lib/pom.xml",
            "pom.xml",
            "settings.gradle.kts",
        ]
    );
    assert_eq!(discovery.configuration_input_records.len(), 6);
}

#[test]
fn skipped_symlinks_are_listed_in_order() {
    let discovery = discover_workspace(
        fixture_files(),
        vec![WorkspacePath::new("z"), WorkspacePath::new("linked-src")],
        WorkspaceId::new("workspace:fixture"),
        "0.1.0",
    );
    assert_eq!(
        discovery.skipped_symlinks,
        vec![WorkspacePath::new("linked-src"), WorkspacePath::new("z")]
    );
    assert_eq!(discovery.manifest.workspace, WorkspaceId::new("workspace:fixture"));
    assert_eq!(discovery.manifest.provenance.backend_version, "0.1.0");
}

#[test]
fn configuration_files_are_told_by_their_names() {
    assert!(is_configuration_input("app/build.gradle.kts"));
    assert!(is_configuration_input("pom.xml"));
    assert!(!is_configuration_input("src/Main.kt"));
    assert!(is_excluded_directory("build"));
    assert!(!is_excluded_directory("src"));
}
