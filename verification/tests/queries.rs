use kide_core::canonical::{
    BackendKey, ByteRange, Completeness, ComponentId, Fingerprint, Freshness, Language,
    Precision, Provenance, SourceRange, SourceUnitId, SymbolId, SymbolKind, SymbolRecord,
};
use kide_core::names::{is_capability_name, is_dotted_name, is_semver};
use kide_core::ordered_map::OrderedMap;
use kide_core::project_query::{ProjectQuery, ProjectQueryError, QueryParameterType};
use kide_core::query::QueryStatus;
use kide_core::query_command::{
    describe_parameters, expand_macros, find_command, list_commands, macro_body_path, macro_calls,
    query_action, QueryAction, QueryFile,
};
use kide_core::query_package::{
    canonical_manifest_digest, validate_manifest, ManifestFile, PackageCapability,
    PackageDirectory, PackageDocument, PackageExports, PackageManifest, PackageRegistry,
    PackageRegistryError, PackageSource,
};
use kide_core::selector::{
    applied_symbol, command_selector, normalized_predicates, plan_selection, records, select,
    select_nested_application_argument, selection_status, ApplicationValue, LanguageView,
    NestedApplicationArgumentPattern, Selector, SelectorError, SelectorPlan, SelectorPredicate,
    SelectorState,
};
use kide_core::semantic_query::{
    compile, execute, resolve_component, resolve_string, starting_reference, QueryCompileError,
    QueryComponent, QueryFrom, QueryParameters, QueryPredicate, QueryProgram, QueryString,
    QuerySymbol, QueryValue, SymbolReference, MAX_RESULT_LIMIT,
};

fn range(start: u64, end: u64) -> SourceRange {
    SourceRange { source_unit: SourceUnitId::new("test"), bytes: ByteRange { start, end } }
}

fn symbol(id: &str, applied: &[&str]) -> SymbolRecord {
    SymbolRecord {
        id: SymbolId::new(id),
        backend_key: BackendKey { backend: "test".into(), schema_version: 1, value: id.into() },
        language: Language::Kotlin,
        kind: SymbolKind::Class,
        name: id.into(),
        qualified_name: Some(format!("demo.{id}")),
        signature: None,
        component: ComponentId::new("app"),
        declaration: range(0, 1),
        name_range: range(0, 1),
        owner: None,
        modifiers: vec![],
        applied_symbols: applied.iter().map(|id| SymbolId::new(*id)).collect(),
        freshness: Freshness::Fresh,
        completeness: Completeness::Complete,
        provenance: Provenance {
            backend: "test".into(),
            backend_version: "1".into(),
            protocol_version: 1,
            analysis_options: Fingerprint::new("test"),
        },
    }
}

#[test]
fn kotlin_class_is_only_a_canonical_predicate_bundle() {
    assert_eq!(
        normalized_predicates(&Selector {
            views: vec![LanguageView::KotlinClass],
            predicates: vec![],
        }),
        vec![
            SelectorPredicate::Language(Language::Kotlin),
            SelectorPredicate::Kind(SymbolKind::Class),
        ]
    );
}

#[test]
fn selections_start_from_an_applied_symbol() {
    let unbounded = Selector { views: vec![LanguageView::JavaClass], predicates: vec![] };
    assert_eq!(plan_selection(&unbounded), Err(SelectorError::Unbounded));
    assert!(select(&Selector::default(), vec![symbol("A", &["x"])]).is_err());
    let bounded = Selector {
        views: vec![],
        predicates: vec![
            SelectorPredicate::AppliedSymbol(SymbolId::new("y")),
            SelectorPredicate::AppliedSymbol(SymbolId::new("x")),
        ],
    };
    assert_eq!(
        plan_selection(&bounded),
        Ok(SelectorPlan::AppliedSymbolPosting { applied_symbol: SymbolId::new("x") })
    );
    let result =
        select(&bounded, vec![symbol("A", &["x"]), symbol("B", &["x", "y"])]).expect("selects");
    assert_eq!(result.symbols, vec![symbol("B", &["x", "y"])]);
    assert_eq!(result.state, SelectorState::Complete);
}

#[test]
fn every_predicate_is_applied() {
    let keeps = |predicate: SelectorPredicate| {
        let selector = Selector {
            views: vec![],
            predicates: vec![SelectorPredicate::AppliedSymbol(SymbolId::new("x")), predicate],
        };
        !select(&selector, vec![symbol("A", &["x"])]).expect("selects").symbols.is_empty()
    };
    assert!(keeps(SelectorPredicate::Kind(SymbolKind::Class)));
    assert!(!keeps(SelectorPredicate::Kind(SymbolKind::Method)));
    assert!(keeps(SelectorPredicate::QualifiedNamePrefix("demo.".into())));
    assert!(!keeps(SelectorPredicate::QualifiedNamePrefix("other.".into())));
    assert!(keeps(SelectorPredicate::Language(Language::Kotlin)));
    assert!(!keeps(SelectorPredicate::Language(Language::Java)));
    assert!(keeps(SelectorPredicate::Component(ComponentId::new("app"))));
    assert!(!keeps(SelectorPredicate::Component(ComponentId::new("lib"))));
    assert!(keeps(SelectorPredicate::Backend("test".into())));
    assert!(!keeps(SelectorPredicate::Backend("other".into())));
}

#[test]
fn partial_answers_are_not_complete() {
    let mut stale = symbol("A", &["x"]);
    stale.freshness = Freshness::Stale;
    let pattern = NestedApplicationArgumentPattern {
        nested_target: SymbolId::new("x"),
        outer_target: SymbolId::new("y"),
        argument_name: "value".into(),
        argument_value: ApplicationValue::Text("v".into()),
    };
    let result =
        select_nested_application_argument(&pattern, vec![symbol("B", &["x"]), stale.clone()]);
    assert_eq!(result.state, SelectorState::Partial);
    assert_eq!(selection_status(result.state), QueryStatus::Stale);
    let listed = records(&result);
    assert_eq!(listed[1].symbol, stale);
    assert_eq!(listed[1].metadata.freshness, Freshness::Stale);
    assert_eq!(listed[1].metadata.precision, Precision::Exact);
    assert_eq!(listed[1].metadata.provenance, vec![stale.provenance.clone()]);
    let nothing = select_nested_application_argument(&pattern, Vec::new());
    assert_eq!(nothing.state, SelectorState::NoResult);
    assert_eq!(selection_status(nothing.state), QueryStatus::NoResult);
    assert_eq!(selection_status(SelectorState::Complete), QueryStatus::Success);
}

#[test]
fn selection_commands_name_what_they_want() {
    assert_eq!(applied_symbol("demo.A", &[]), Ok(SymbolId::new("demo.A")));
    assert_eq!(applied_symbol("demo.A", &[SymbolId::new("x")]), Ok(SymbolId::new("x")));
    assert_eq!(applied_symbol("demo.A", &[SymbolId::new("x"), SymbolId::new("y")]), Err(2));
    let selector = command_selector(
        SymbolId::new("x"),
        Some(LanguageView::KotlinClass),
        Some("app".into()),
        Some("demo".into()),
    );
    assert_eq!(selector.views, vec![LanguageView::KotlinClass]);
    assert_eq!(
        selector.predicates,
        vec![
            SelectorPredicate::AppliedSymbol(SymbolId::new("x")),
            SelectorPredicate::Component(ComponentId::new("app")),
            SelectorPredicate::QualifiedNamePrefix("demo".into()),
        ]
    );
}

fn parameters(values: Vec<(&str, QueryValue)>) -> QueryParameters {
    let mut map = OrderedMap::new();
    for (name, value) in values {
        map.insert(name.to_owned(), value);
    }
    map
}

#[test]
fn parameter_type_errors_are_explicit() {
    let values = parameters(vec![("component", QueryValue::String("app".to_owned()))]);
    assert!(matches!(
        resolve_component(&QueryComponent::Parameter("component".to_owned()), &values),
        Err(QueryCompileError::InvalidParameterType { .. })
    ));
}

fn program(limit: u32) -> QueryProgram {
    QueryProgram {
        from: QueryFrom::AppliedSymbol(QuerySymbol::Id(SymbolId::new("annotation"))),
        predicates: Vec::new(),
        limit,
    }
}

#[test]
fn result_limit_is_bounded_by_core_policy() {
    let program = program(MAX_RESULT_LIMIT + 1);
    assert_eq!(program.limit, 1_001);
    assert_eq!(
        compile(&program, &parameters(Vec::new()), &[]),
        Err(QueryCompileError::InvalidLimit)
    );
}

#[test]
fn names_resolve_uniquely_or_to_a_dependency_type() {
    let named = |name: &str| QueryProgram {
        from: QueryFrom::AppliedSymbol(QuerySymbol::QualifiedName(name.to_owned())),
        predicates: Vec::new(),
        limit: 5,
    };
    let none = parameters(Vec::new());
    assert_eq!(
        starting_reference(&named("demo.A"), &none),
        Ok(SymbolReference::Name("demo.A".into()))
    );
    assert_eq!(
        compile(&named("demo.A"), &none, &[]).expect("compiles").starting_symbol.as_str(),
        "jvm:type:demo.A"
    );
    assert_eq!(
        compile(&named("A"), &none, &[]),
        Err(QueryCompileError::UnknownQualifiedSymbol("A".into()))
    );
    assert_eq!(
        compile(&named("A"), &none, &[SymbolId::new("x"), SymbolId::new("y")]),
        Err(QueryCompileError::AmbiguousQualifiedSymbol { name: "A".into(), count: 2 })
    );
    assert_eq!(
        compile(&named("A"), &none, &[SymbolId::new("x")]).expect("compiles").starting_symbol,
        SymbolId::new("x")
    );
}

#[test]
fn parameters_are_bound_by_their_types() {
    let values = parameters(vec![
        ("annotation", QueryValue::SymbolId(SymbolId::new("x"))),
        ("component", QueryValue::ComponentId(ComponentId::new("app"))),
        ("prefix", QueryValue::String("demo.".into())),
    ]);
    let program = QueryProgram {
        from: QueryFrom::AppliedSymbol(QuerySymbol::Parameter("annotation".into())),
        predicates: vec![
            QueryPredicate::Kind(SymbolKind::Class),
            QueryPredicate::Component(QueryComponent::Parameter("component".into())),
            QueryPredicate::QualifiedNamePrefix(QueryString::Parameter("prefix".into())),
        ],
        limit: 1,
    };
    let compiled = compile(&program, &values, &[]).expect("compiles");
    assert_eq!(
        compiled.selector.predicates,
        vec![
            SelectorPredicate::AppliedSymbol(SymbolId::new("x")),
            SelectorPredicate::Kind(SymbolKind::Class),
            SelectorPredicate::Component(ComponentId::new("app")),
            SelectorPredicate::QualifiedNamePrefix("demo.".into()),
        ]
    );
    assert_eq!(
        compile(&program, &parameters(Vec::new()), &[]),
        Err(QueryCompileError::MissingParameter("annotation".into()))
    );
    assert_eq!(
        resolve_string(&QueryString::Parameter("component".into()), &values),
        Err(QueryCompileError::InvalidParameterType {
            name: "component".into(),
            expected: "string"
        })
    );
    let result = execute(compiled, vec![symbol("A", &["x"]), symbol("B", &["x"])]).expect("runs");
    assert_eq!(result.state, SelectorState::Partial);
    assert_eq!(result.symbols, vec![symbol("A", &["x"])]);
    let selection = result.into_selection();
    assert_eq!(
        selection.plan,
        SelectorPlan::AppliedSymbolPosting { applied_symbol: SymbolId::new("x") }
    );
}

const CONTROLLERS: &str = "# every controller\n\
command spring.controllers(annotation: qualified-symbol, module: component-id) {\n\
  from applies($annotation)\n\
  where kind == class and language == kotlin and component == $module\n\
  where qualified-name-prefix == \"demo.\"\n\
  return symbol\n\
  limit 50\n\
}\n";

#[test]
fn commands_are_read_statement_by_statement() {
    let query = ProjectQuery::parse(CONTROLLERS).expect("parses");
    assert_eq!(query.name, "spring.controllers");
    assert_eq!(query.parameters[0].name, "annotation");
    assert_eq!(query.parameters[0].ty, QueryParameterType::QualifiedSymbol);
    assert_eq!(query.parameters[1].ty, QueryParameterType::ComponentId);
    assert_eq!(
        query.program,
        QueryProgram {
            from: QueryFrom::AppliedSymbol(QuerySymbol::Parameter("annotation".into())),
            predicates: vec![
                QueryPredicate::Kind(SymbolKind::Class),
                QueryPredicate::Language(Language::Kotlin),
                QueryPredicate::Component(QueryComponent::Parameter("module".into())),
                QueryPredicate::QualifiedNamePrefix(QueryString::Literal("demo.".into())),
            ],
            limit: 50,
        }
    );
    let spaced = CONTROLLERS.replace('\n', "\r\n\n  # comment\n");
    assert_eq!(ProjectQuery::parse(&spaced), Ok(query));
    let literal = ProjectQuery::parse(
        "command a() {\nfrom applies(symbol-id(\"x\"))\nlimit 1\n}",
    )
    .expect("parses");
    assert_eq!(
        literal.program.from,
        QueryFrom::AppliedSymbol(QuerySymbol::Id(SymbolId::new("x")))
    );
}

#[test]
fn malformed_commands_say_what_is_wrong() {
    let message = |text: &str| match ProjectQuery::parse(text) {
        Err(ProjectQueryError::Invalid(message)) => message,
        other => panic!("{other:?}"),
    };
    assert_eq!(message(""), "command is empty");
    assert_eq!(message("query a() {"), "expected `command name(parameters) {`");
    assert_eq!(message("command a {"), "command name needs parameters");
    assert_eq!(message("command a(b {"), "unterminated parameter list");
    assert_eq!(message("command A() {\n}"), "command name must be ASCII lower-case dotted");
    assert_eq!(message("command a(b) {\n}"), "parameters use `name: type`");
    assert_eq!(message("command a(B: string) {\n}"), "parameter name must be ASCII lower-case");
    assert_eq!(message("command a(b.c: string) {\n}"), "parameter name must be ASCII lower-case");
    assert_eq!(message("command a(b: text) {\n}"), "unknown parameter type");
    assert_eq!(message("command a() {\nlimit 1"), "command must end with `}`");
    assert_eq!(message("command a() {\nlimit 1\n}"), "`from applies(...)` is required");
    assert_eq!(message("command a() {\nfrom applies($x)\n}"), "`limit` is required");
    assert_eq!(
        message("command a() {\nfrom applies($x)\nfrom applies($y)\n}"),
        "only one `from` is allowed"
    );
    assert_eq!(message("command a() {\nlimit x\n}"), "limit must be a positive integer");
    assert_eq!(message("command a() {\nselect *\n}"), "unsupported statement `select *`");
    assert_eq!(message("command a() {\nwhere kind\n}"), "where terms use `==`");
    assert_eq!(message("command a() {\nwhere kind == enum\n}"), "unsupported symbol kind");
    assert_eq!(message("command a() {\nwhere language == rust\n}"), "unsupported language");
    assert_eq!(message("command a() {\nwhere name == x\n}"), "unsupported where predicate");
    assert_eq!(
        message("command a() {\nwhere component == x\n}"),
        "string literals must be quoted"
    );
    assert_eq!(
        message("command a() {\nfrom applies(x)\n}"),
        "applies accepts `$parameter`, symbol-id(\"…\"), or qualified-symbol(\"…\")"
    );
}

fn texts(values: Vec<(&str, &str)>) -> OrderedMap<String> {
    let mut map = OrderedMap::new();
    for (name, value) in values {
        map.insert(name.to_owned(), value.to_owned());
    }
    map
}

#[test]
fn commands_bind_exactly_their_parameters() {
    let query = ProjectQuery::parse(
        "command a(n: integer, s: string) {\nfrom applies(symbol-id(\"x\"))\nlimit 1\n}",
    )
    .expect("parses");
    let bound = query.bind(&texts(vec![("n", "7"), ("s", "t")])).expect("binds");
    assert_eq!(bound.get("n"), Some(&QueryValue::Integer(7)));
    assert_eq!(bound.get("s"), Some(&QueryValue::String("t".into())));
    assert_eq!(bound.len(), 2);
    assert_eq!(
        query.bind(&texts(vec![("n", "7"), ("z", "t")])).err(),
        Some(ProjectQueryError::UnknownParameter("z".into()))
    );
    assert_eq!(
        query.bind(&texts(vec![("n", "7")])).err(),
        Some(ProjectQueryError::MissingParameter("s".into()))
    );
    assert_eq!(
        query.bind(&texts(vec![("n", "x"), ("s", "t")])).err(),
        Some(ProjectQueryError::InvalidParameter { name: "n".into(), expected: "integer" })
    );
    assert_eq!(describe_parameters(&query, ": "), vec!["n: Integer", "s: String"]);
}

#[test]
fn macros_are_replaced_by_their_bodies() {
    let text = "command a() {\n  from spring.web.controller()\r\n  limit 1\n}";
    assert_eq!(macro_calls(text), vec!["spring.web.controller"]);
    assert_eq!(
        expand_macros(text, &["from applies(symbol-id(\"x\"))".to_owned()]),
        "command a() {\nfrom applies(symbol-id(\"x\"))\n  limit 1\n}\n"
    );
    assert_eq!(expand_macros("a", &[]), "a\n");
    assert_eq!(macro_body_path("web.controller"), "queries/web/controller.kql");
}

#[test]
fn query_arguments_choose_an_action() {
    let args = |values: &[&str]| values.iter().map(|value| value.to_string()).collect::<Vec<_>>();
    assert_eq!(query_action(&args(&["list"])), QueryAction::List);
    assert_eq!(query_action(&args(&["describe", "a"])), QueryAction::Describe("a".into()));
    assert_eq!(query_action(&args(&["a"])), QueryAction::Run("a".into()));
    assert_eq!(query_action(&args(&["a", "b"])), QueryAction::Misused);
    assert_eq!(query_action(&[]), QueryAction::Misused);
    let file = |name: &str| QueryFile { name: name.into(), path: format!("{name}.kql") };
    let commands = list_commands(vec![file("b"), file("a")]);
    assert_eq!(commands, vec![file("a"), file("b")]);
    assert_eq!(find_command(&commands, "b"), Some(1));
    assert_eq!(find_command(&commands, "c"), None);
}

fn manifest() -> PackageManifest {
    PackageManifest {
        format: 1,
        id: "spring.web".into(),
        version: "1.0.0".into(),
        requires_core: "^1".into(),
        exports: PackageExports {
            macros: vec!["controller".into()],
            commands: vec!["controllers".into()],
        },
        capabilities: vec![PackageCapability {
            name: "applications.resolved_target".into(),
            required: true,
        }],
    }
}

fn document(manifest: PackageManifest) -> PackageDocument {
    PackageDocument { manifest, canonical: "format = 1\n".into() }
}

fn directory(name: &str, manifest: ManifestFile) -> PackageDirectory {
    PackageDirectory {
        path: format!(".kide/query-packages/{name}"),
        name: Some(name.into()),
        manifest_path: format!(".kide/query-packages/{name}/package.toml"),
        manifest,
    }
}

#[test]
fn loads_workspace_packages_and_resolves_qualified_exports() {
    let registry = PackageRegistry::load_workspace(vec![directory(
        "spring.web",
        ManifestFile::Parsed(document(manifest())),
    )])
    .expect("loads registry");
    let resolved =
        registry.resolve_macro("spring.web.controller").expect("resolves exported macro");

    assert_eq!(resolved.package.manifest.version, "1.0.0");
    assert_eq!(resolved.export_name, "controller");
    assert!(resolved.package.manifest_digest.as_str().starts_with("sha256:"));
    assert!(matches!(resolved.package.source, PackageSource::Workspace { .. }));
    assert!(registry.resolve_command("spring.web.controllers").is_ok());
    assert_eq!(
        registry.resolve_macro("spring.web.controllers"),
        Err(PackageRegistryError::UnknownExport("spring.web.controllers".into()))
    );
    assert!(registry.package("spring.web").is_some());
    assert_eq!(registry.packages().len(), 1);
}

const SPRING_WEB: &str = r#"
format = 1
id = "spring.web"
version = "1.0.0"
requires_core = "^1"

[exports]
macros = ["controller"]
commands = ["controllers"]

[[capabilities]]
name = "applications.resolved_target"
required = true
"#;

fn canonical_text(source: &str) -> String {
    let table: toml::Table = toml::from_str(source).expect("manifest");
    toml::to_string(&table).expect("canonical manifest")
}

#[test]
fn manifest_digest_ignores_toml_whitespace() {
    let spaced = SPRING_WEB.replace("\n", "\n\n");
    assert_ne!(
        canonical_manifest_digest(SPRING_WEB),
        canonical_manifest_digest(&spaced)
    );
    assert_eq!(
        canonical_manifest_digest(&canonical_text(SPRING_WEB)),
        canonical_manifest_digest(&canonical_text(&spaced))
    );
    assert_eq!(
        canonical_manifest_digest("abc").as_str(),
        "sha256:ba7816bf8f01cfea414140de5dae2223b00361a396177a9cb410ff61f20015ad"
    );
}

#[test]
fn rejects_incompatible_or_invalid_workspace_manifests() {
    let mut incompatible = manifest();
    incompatible.requires_core = "^2".into();
    let error = PackageRegistry::load_workspace(vec![directory(
        "spring.web",
        ManifestFile::Parsed(document(incompatible)),
    )])
    .err()
    .expect("rejects incompatible manifest");
    assert!(matches!(
        &error,
        PackageRegistryError::InvalidManifest { reason, .. }
            if reason.contains("requires_core must be `^1`")
    ));
}

#[test]
fn rejects_package_directory_without_manifest() {
    assert!(matches!(
        PackageRegistry::load_workspace(vec![directory("empty", ManifestFile::Missing)]).err(),
        Some(PackageRegistryError::MissingManifest { .. })
    ));
    assert!(matches!(
        PackageRegistry::load_workspace(vec![directory(
            "a",
            ManifestFile::Unreadable("denied".into())
        )])
        .err(),
        Some(PackageRegistryError::ReadManifest { .. })
    ));
    assert!(matches!(
        PackageRegistry::load_workspace(vec![directory(
            "a",
            ManifestFile::Unparsable("bad".into())
        )])
        .err(),
        Some(PackageRegistryError::ParseManifest { .. })
    ));
    assert!(matches!(
        PackageRegistry::load_workspace(vec![directory(
            "other",
            ManifestFile::Parsed(document(manifest()))
        )])
        .err(),
        Some(PackageRegistryError::DirectoryIdMismatch { .. })
    ));
}

#[test]
fn workspace_cannot_replace_a_builtin_package() {
    assert!(matches!(
        PackageRegistry::load_workspace_with_builtins(
            vec![directory("spring.web", ManifestFile::Parsed(document(manifest())))],
            vec![document(manifest())],
        )
        .err(),
        Some(PackageRegistryError::DuplicatePackage(id)) if id == "spring.web"
    ));
}

#[test]
fn the_longest_package_id_prevails() {
    let mut outer = manifest();
    outer.id = "spring".into();
    outer.exports.macros = vec!["web.controller".into()];
    let mut registry = PackageRegistry::new();
    registry.register_builtin(document(outer)).expect("registers");
    registry.register_builtin(document(manifest())).expect("registers");
    let resolved = registry.resolve_macro("spring.web.controller").expect("resolves");
    assert_eq!(resolved.package.manifest.id, "spring.web");
    assert_eq!(resolved.package.source, PackageSource::BuiltIn);
    assert_eq!(
        registry.register_builtin(document(manifest())),
        Err(PackageRegistryError::DuplicatePackage("spring.web".into()))
    );
}

#[test]
fn manifests_are_refused_with_their_first_problem() {
    let problem = |change: &dyn Fn(&mut PackageManifest)| {
        let mut changed = manifest();
        change(&mut changed);
        validate_manifest(&changed).err().expect("problem")
    };
    assert!(validate_manifest(&manifest()).is_ok());
    assert_eq!(problem(&|m| m.format = 2), "format must be 1");
    assert_eq!(
        problem(&|m| m.id = "Spring".into()),
        "id must be an ASCII lower-case dotted name"
    );
    assert_eq!(
        problem(&|m| m.version = "1.0".into()),
        "version must be a semantic version such as `1.0.0`"
    );
    assert_eq!(
        problem(&|m| m.exports.macros.push("a_b".into())),
        "exports.macros name `a_b` must be an ASCII lower-case dotted name"
    );
    assert_eq!(
        problem(&|m| m.exports.commands.push("controllers".into())),
        "exports.commands name `controllers` is declared more than once"
    );
    assert_eq!(
        problem(&|m| m.capabilities[0].name = "A".into()),
        "capability `A` must be an ASCII lower-case dotted name"
    );
    assert!(is_dotted_name("a.b-1") && !is_dotted_name("a..b") && !is_dotted_name(""));
    assert!(is_capability_name("a_b") && !is_dotted_name("a_b"));
    assert!(is_semver("1.20.3") && !is_semver("1.2.3.4") && !is_semver("1..3"));
}

#[test]
fn refused_queries_say_why() {
    let name = || "api".to_owned();
    let query = |error: ProjectQueryError| error.message();
    assert_eq!(
        query(ProjectQueryError::Invalid("no select".to_owned())),
        "invalid project query: no select"
    );
    assert_eq!(query(ProjectQueryError::UnknownParameter(name())), "unknown query parameter `api");
    assert_eq!(
        query(ProjectQueryError::MissingParameter(name())),
        "query parameter `api` is required"
    );
    assert_eq!(
        query(ProjectQueryError::InvalidParameter { name: name(), expected: "a symbol" }),
        "query parameter `api` must be a symbol"
    );
    let compiled = |error: QueryCompileError| error.message();
    assert_eq!(
        compiled(QueryCompileError::InvalidLimit),
        format!("query limit must be between 1 and {MAX_RESULT_LIMIT}")
    );
    assert_eq!(
        compiled(QueryCompileError::MissingParameter(name())),
        "query parameter `api` is required"
    );
    assert_eq!(
        compiled(QueryCompileError::InvalidParameterType { name: name(), expected: "string" }),
        "query parameter `api` must be string"
    );
    assert_eq!(
        compiled(QueryCompileError::UnknownQualifiedSymbol(name())),
        "qualified symbol `api` did not resolve"
    );
    assert_eq!(
        compiled(QueryCompileError::AmbiguousQualifiedSymbol { name: name(), count: 3 }),
        "qualified symbol `api` is ambiguous: 3 candidates"
    );
    assert_eq!(
        compiled(QueryCompileError::Selector(SelectorError::Unbounded)),
        "selector execution failed: selector requires a resolved annotation predicate to bound its indexed starting set"
    );
}

#[test]
fn refused_packages_say_why() {
    let path = || "queries/spring".to_owned();
    let source = || "denied".to_owned();
    let package = |error: PackageRegistryError| error.message();
    assert_eq!(
        package(PackageRegistryError::ReadDirectory { path: path(), source: source() }),
        "failed to read query package directory `queries/spring`: denied"
    );
    assert_eq!(
        package(PackageRegistryError::ReadManifest { path: path(), source: source() }),
        "failed to read query package manifest `queries/spring`: denied"
    );
    assert_eq!(
        package(PackageRegistryError::MissingManifest { path: path() }),
        "query package directory `queries/spring` is missing package.toml"
    );
    assert_eq!(
        package(PackageRegistryError::ParseManifest { path: path(), source: source() }),
        "failed to parse query package manifest `queries/spring`: denied"
    );
    assert_eq!(
        package(PackageRegistryError::InvalidManifest { path: path(), reason: source() }),
        "query package manifest `queries/spring` is invalid: denied"
    );
    assert_eq!(
        package(PackageRegistryError::DirectoryIdMismatch {
            directory: path(),
            id: "spring".to_owned(),
        }),
        "query package directory `queries/spring` must match manifest id `spring"
    );
    assert_eq!(
        package(PackageRegistryError::DuplicatePackage("spring".to_owned())),
        "query package `spring` is already registered"
    );
    assert_eq!(
        package(PackageRegistryError::UnknownExport("spring.beans".to_owned())),
        "unknown query package export `spring.beans`"
    );
}
