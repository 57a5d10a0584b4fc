//! Recognition rules for workspace configuration and dependency-resolution
//! inputs, and the reconciliation of their persisted and current state.

use vstd::prelude::*;

use crate::canonical::{Component, ComponentId, Fingerprint, WorkspacePath};
use crate::digest;
use crate::ordered_map;
use crate::ordered_map::{add_keys, index_by_key, Keyed, OrderedMap};
use crate::ordering;
use crate::text;

verus! {

/// One individually verifiable configuration or dependency-resolution input.
#[derive(Debug, Clone, PartialEq, Eq)]
pub struct ConfigurationInput {
    pub path: WorkspacePath,
    pub fingerprint: Fingerprint,
    pub components: Vec<ComponentId>,
}

impl Keyed for ConfigurationInput {
    open spec fn key(&self) -> Seq<char> {
        self.path@
    }

    fn key_text(&self) -> (result: &str) {
        self.path.as_str()
    }
}

/// How an input relates to what was persisted.
#[derive(Debug, Clone, Copy, PartialEq, Eq, Structural)]
pub enum ConfigurationInputState {
    Current,
    Added,
    Changed,
    Missing,
}

/// The reconciled state of one input path.
#[derive(Debug, Clone, PartialEq, Eq)]
pub struct ConfigurationInputStatus {
    pub path: WorkspacePath,
    pub state: ConfigurationInputState,
    pub persisted_fingerprint: Option<Fingerprint>,
    pub current_fingerprint: Option<Fingerprint>,
    pub components: Vec<ComponentId>,
}

/// The reconciled state of every input path and the components it touches.
#[derive(Debug, Clone, PartialEq, Eq)]
pub struct ConfigurationInputReconciliation {
    pub inputs: Vec<ConfigurationInputStatus>,
    pub affected_components: Vec<ComponentId>,
}

/// The texts of a list of component ids.
pub open spec fn component_texts(components: Seq<ComponentId>) -> Seq<Seq<char>> {
    Seq::new(components.len(), |i: int| components[i]@)
}

/// The last segment of a path.
pub open spec fn file_name(path: Seq<char>) -> Seq<char> {
    path.skip(text::last_position(path, '/') + 1)
}

/// The path without its last segment; empty where there is only one.
pub open spec fn parent_path(path: Seq<char>) -> Seq<char> {
    if text::last_position(path, '/') < 0 {
        Seq::empty()
    } else {
        path.take(text::last_position(path, '/'))
    }
}

/// Computes `file_name`.
pub fn file_name_of(path: &str) -> (result: String)
    ensures
        result@ == file_name(path@),
{
    let chars = text::chars_of(path);
    proof {
        text::lemma_last_position(chars@, '/');
    }
    match text::find_last_char(chars.as_slice(), '/') {
        Some(position) => {
            let length: usize = chars.len();
            let result = text::slice_text(chars.as_slice(), position + 1, length);
            assert(result@ =~= file_name(path@));
            result
        },
        None => {
            assert(path@.skip(0) =~= path@);
            path.to_owned()
        },
    }
}

/// Computes `parent_path`.
pub fn parent_path_of(path: &str) -> (result: String)
    ensures
        result@ == parent_path(path@),
{
    let chars = text::chars_of(path);
    match text::find_last_char(chars.as_slice(), '/') {
        Some(position) => {
            let result = text::slice_text(chars.as_slice(), 0, position);
            assert(result@ =~= parent_path(path@));
            result
        },
        None => {
            let result = String::new();
            assert(result@ =~= parent_path(path@));
            result
        },
    }
}

/// File names that configure a build or resolve its dependencies.
pub open spec fn configuration_file_names() -> Seq<Seq<char>> {
    seq![
        "settings.gradle"@,
        "settings.gradle.kts"@,
        "build.gradle"@,
        "build.gradle.kts"@,
        "gradle.properties"@,
        "pom.xml"@,
        "Cargo.toml"@,
        "package.json"@,
        "package-lock.json"@,
        "npm-shrinkwrap.json"@,
        "pnpm-lock.yaml"@,
        "pnpm-workspace.yaml"@,
        "yarn.lock"@,
        ".yarnrc.yml"@,
        "bun.lock"@,
        "bun.lockb"@,
        ".npmrc"@,
    ]
}

/// Whether the file at a workspace-relative path is a configuration input: by
/// its name, or as the Gradle wrapper's properties or the workspace's own
/// configuration.
pub open spec fn configuration_input(path: Seq<char>) -> bool {
    ||| configuration_file_names().contains(file_name(path))
    ||| path == "gradle/wrapper/gradle-wrapper.properties"@
    ||| path == ".kide/config.toml"@
}

/// Computes `configuration_input`.
pub fn is_configuration_input(path: &str) -> (result: bool)
    ensures
        result == configuration_input(path@),
{
    let name = file_name_of(path);
    let names: [&str; 17] = [
        "settings.gradle",
        "settings.gradle.kts",
        "build.gradle",
        "build.gradle.kts",
        "gradle.properties",
        "pom.xml",
        "Cargo.toml",
        "package.json",
        "package-lock.json",
        "npm-shrinkwrap.json",
        "pnpm-lock.yaml",
        "pnpm-workspace.yaml",
        "yarn.lock",
        ".yarnrc.yml",
        "bun.lock",
        "bun.lockb",
        ".npmrc",
    ];
    let ghost listed = configuration_file_names();
    let mut i: usize = 0;
    while i < 17
        invariant
            i <= 17,
            name@ == file_name(path@),
            listed == configuration_file_names(),
            listed.len() == 17,
            forall|j: int| 0 <= j < 17 ==> (#[trigger] names@[j])@ == listed[j],
            forall|j: int| 0 <= j < i ==> #[trigger] listed[j] != name@,
        decreases 17 - i,
    {
        if text::same_text(names[i], name.as_str()) {
            assert(listed[i as int] == name@);
            return true;
        }
        i = i + 1;
    }
    text::same_text(path, "gradle/wrapper/gradle-wrapper.properties") || text::same_text(
        path,
        ".kide/config.toml",
    )
}

/// Whether a workspace-relative path lies at or below a component root.
pub open spec fn path_within(path: Seq<char>, root: Seq<char>) -> bool {
    ||| root.len() == 0
    ||| root == "."@
    ||| path == root
    ||| text::begins_with(path, root + "/"@)
}

/// Computes `path_within`.
pub fn is_path_within(path: &str, root: &str) -> (result: bool)
    ensures
        result == path_within(path@, root@),
{
    root.is_empty() || text::same_text(root, ".") || text::same_text(path, root)
        || text::has_prefix(text::chars_of(path).as_slice(), text::join_text(root, "/").as_str())
}

/// Whether an input of this path concerns every component: it lies directly in
/// the workspace root, or it is the workspace's own configuration.
pub open spec fn workspace_wide(path: Seq<char>) -> bool {
    !path.contains('/') || path == ".kide/config.toml"@
}

/// The longest root, in bytes, among the first `n` components that hold the path.
pub open spec fn deepest_root(path: Seq<char>, components: Seq<Component>, n: int) -> nat
    decreases n,
{
    if n <= 0 {
        0
    } else {
        let before = deepest_root(path, components, n - 1);
        let root = components[n - 1].root@;
        if path_within(path, root) && text::byte_len(root) > before {
            text::byte_len(root)
        } else {
            before
        }
    }
}

/// Whether an input of this path concerns a component.
pub open spec fn in_scope(path: Seq<char>, components: Seq<Component>, component: Component) -> bool {
    workspace_wide(path) || path_within(path, component.root@) && text::byte_len(component.root@)
        == deepest_root(path, components, components.len() as int)
}

/// The ids of the first `n` components that an input of this path concerns.
pub open spec fn scope_of(path: Seq<char>, components: Seq<Component>, n: int) -> Seq<ComponentId>
    decreases n,
{
    if n <= 0 {
        Seq::empty()
    } else if in_scope(path, components, components[n - 1]) {
        scope_of(path, components, n - 1).push(components[n - 1].id)
    } else {
        scope_of(path, components, n - 1)
    }
}

fn root_length(root: &str) -> (result: usize)
    ensures
        result == text::byte_len(root@),
{
    digest::bytes_of(root).len()
}

/// The components that an input of this path can invalidate, in their order.
pub fn component_scope(path: &str, components: &[Component]) -> (result: Vec<ComponentId>)
    ensures
        result@ == scope_of(path@, components@, components@.len() as int),
{
    let chars = text::chars_of(path);
    let slash = text::find_last_char(chars.as_slice(), '/');
    proof {
        text::lemma_last_position(path@, '/');
    }
    let wide: bool = slash.is_none() || text::same_text(path, ".kide/config.toml");
    assert(wide == workspace_wide(path@));
    let mut deepest: usize = 0;
    let mut i: usize = 0;
    while i < components.len()
        invariant
            i <= components@.len(),
            deepest == deepest_root(path@, components@, i as int),
        decreases components@.len() - i,
    {
        let root = components[i].root.as_str();
        let length: usize = root_length(root);
        if is_path_within(path, root) && length > deepest {
            deepest = length;
        }
        i = i + 1;
    }
    let mut result: Vec<ComponentId> = Vec::new();
    let mut j: usize = 0;
    while j < components.len()
        invariant
            j <= components@.len(),
            wide == workspace_wide(path@),
            deepest == deepest_root(path@, components@, components@.len() as int),
            result@ == scope_of(path@, components@, j as int),
        decreases components@.len() - j,
    {
        let root = components[j].root.as_str();
        if wide || is_path_within(path, root) && root_length(root) == deepest {
            result.push(components[j].id.clone());
        }
        j = j + 1;
    }
    result
}

/// Whether both lists hold the same ids.
pub fn same_components(a: &[ComponentId], b: &[ComponentId]) -> (result: bool)
    ensures
        result == (component_texts(a@) == component_texts(b@)),
{
    if a.len() != b.len() {
        assert(component_texts(a@).len() != component_texts(b@).len());
        return false;
    }
    let mut i: usize = 0;
    while i < a.len()
        invariant
            i <= a@.len() == b@.len(),
            forall|j: int| 0 <= j < i ==> (#[trigger] a@[j])@ == b@[j]@,
        decreases a@.len() - i,
    {
        if !a[i].same(&b[i]) {
            assert(component_texts(a@)[i as int] != component_texts(b@)[i as int]);
            return false;
        }
        i = i + 1;
    }
    assert(component_texts(a@) =~= component_texts(b@));
    true
}

/// Whether a list holds an id.
pub fn contains_component(components: &[ComponentId], wanted: &ComponentId) -> (result: bool)
    ensures
        result == component_texts(components@).contains(wanted@),
{
    let mut i: usize = 0;
    while i < components.len()
        invariant
            i <= components@.len(),
            forall|j: int| 0 <= j < i ==> component_texts(components@)[j] != wanted@,
        decreases components@.len() - i,
    {
        if components[i].same(wanted) {
            assert(component_texts(components@)[i as int] == wanted@);
            return true;
        }
        i = i + 1;
    }
    false
}

/// The state of a path that is known on at least one side.
pub open spec fn input_state(
    previous: Option<ConfigurationInput>,
    next: Option<ConfigurationInput>,
) -> ConfigurationInputState {
    match (previous, next) {
        (None, _) => ConfigurationInputState::Added,
        (Some(_), None) => ConfigurationInputState::Missing,
        (Some(previous), Some(next)) => if previous.fingerprint@ != next.fingerprint@
            || component_texts(previous.components@) != component_texts(next.components@) {
            ConfigurationInputState::Changed
        } else {
            ConfigurationInputState::Current
        },
    }
}

/// The fingerprint of an input that is there.
pub open spec fn input_fingerprint(input: Option<ConfigurationInput>) -> Option<Fingerprint> {
    match input {
        Some(input) => Some(input.fingerprint),
        None => None,
    }
}

/// The components that a path concerns: the current ones, else the persisted.
pub open spec fn input_components(
    previous: Option<ConfigurationInput>,
    next: Option<ConfigurationInput>,
) -> Seq<ComponentId> {
    match (previous, next) {
        (_, Some(next)) => next.components@,
        (Some(previous), None) => previous.components@,
        (None, None) => Seq::empty(),
    }
}

/// Whether a status is the one of a path.
pub open spec fn is_status_of(
    status: ConfigurationInputStatus,
    path: Seq<char>,
    persisted: Seq<ConfigurationInput>,
    current: Seq<ConfigurationInput>,
) -> bool {
    let previous = ordered_map::lookup(persisted, path);
    let next = ordered_map::lookup(current, path);
    &&& status.path@ == path
    &&& status.state == input_state(previous, next)
    &&& status.persisted_fingerprint == input_fingerprint(previous)
    &&& status.current_fingerprint == input_fingerprint(next)
    &&& status.components@ == input_components(previous, next)
}

/// The components of the inputs that are not current.
pub open spec fn affected(inputs: Seq<ConfigurationInputStatus>) -> Set<Seq<char>>
    decreases inputs.len(),
{
    if inputs.len() == 0 {
        Set::empty()
    } else {
        let rest = affected(inputs.drop_last());
        if inputs.last().state == ConfigurationInputState::Current {
            rest
        } else {
            rest.union(component_texts(inputs.last().components@).to_set())
        }
    }
}

/// Whether a reconciliation is the one of these inputs: one status for each
/// path of either side in ascending order, and the ascending ids of the
/// components of all inputs that are not current.
pub open spec fn is_reconciliation(
    result: ConfigurationInputReconciliation,
    persisted: Seq<ConfigurationInput>,
    current: Seq<ConfigurationInput>,
) -> bool {
    let paths = ordering::sorted_texts(
        ordered_map::keys_of(persisted).union(ordered_map::keys_of(current)),
    );
    &&& result.inputs@.len() == paths.len()
    &&& forall|i: int|
        0 <= i < paths.len() ==> is_status_of(
            #[trigger] result.inputs@[i],
            paths[i],
            persisted,
            current,
        )
    &&& component_texts(result.affected_components@) == ordering::sorted_texts(
        affected(result.inputs@),
    )
}

fn reconcile_one(
    path: &String,
    previous: Option<&ConfigurationInput>,
    next: Option<&ConfigurationInput>,
) -> (result: ConfigurationInputStatus)
    requires
        previous is Some || next is Some,
    ensures
        result.path@ == path@,
        result.state == input_state(
            match previous {
                Some(input) => Some(*input),
                None => None,
            },
            match next {
                Some(input) => Some(*input),
                None => None,
            },
        ),
        result.persisted_fingerprint == input_fingerprint(
            match previous {
                Some(input) => Some(*input),
                None => None,
            },
        ),
        result.current_fingerprint == input_fingerprint(
            match next {
                Some(input) => Some(*input),
                None => None,
            },
        ),
        result.components@ == input_components(
            match previous {
                Some(input) => Some(*input),
                None => None,
            },
            match next {
                Some(input) => Some(*input),
                None => None,
            },
        ),
{
    let state = match (previous, next) {
        (None, _) => ConfigurationInputState::Added,
        (Some(_), None) => ConfigurationInputState::Missing,
        (Some(previous), Some(next)) => {
            if !previous.fingerprint.same(&next.fingerprint) || !same_components(
                previous.components.as_slice(),
                next.components.as_slice(),
            ) {
                ConfigurationInputState::Changed
            } else {
                ConfigurationInputState::Current
            }
        },
    };
    let components: Vec<ComponentId> = match (previous, next) {
        (_, Some(next)) => {
            let copy = next.components.clone();
            assert(copy@ =~= next.components@);
            copy
        },
        (Some(previous), None) => {
            let copy = previous.components.clone();
            assert(copy@ =~= previous.components@);
            copy
        },
        (None, None) => Vec::new(),
    };
    let persisted_fingerprint = match previous {
        Some(input) => Some(input.fingerprint.clone()),
        None => None,
    };
    let current_fingerprint = match next {
        Some(input) => Some(input.fingerprint.clone()),
        None => None,
    };
    ConfigurationInputStatus {
        path: WorkspacePath::new(path),
        state,
        persisted_fingerprint,
        current_fingerprint,
        components,
    }
}

/// Adds component ids to an ordered set.
fn add_components(set: &mut OrderedMap<()>, components: &[ComponentId])
    requires
        old(set).wf(),
    ensures
        final(set).wf(),
        final(set)@.dom() == old(set)@.dom().union(component_texts(components@).to_set()),
{
    let ghost start = set@.dom();
    let ghost listed = component_texts(components@);
    let mut i: usize = 0;
    assert(start.union(listed.take(0).to_set()) =~= start);
    while i < components.len()
        invariant
            set.wf(),
            listed == component_texts(components@),
            i <= components@.len(),
            set@.dom() == start.union(listed.take(i as int).to_set()),
        decreases components@.len() - i,
    {
        set.insert(components[i].as_str().to_owned(), ());
        i = i + 1;
        proof {
            let now = listed.take(i as int);
            let last = components@[i - 1]@;
            assert(now =~= listed.take(i - 1).push(last));
            assert forall|t: Seq<char>|
                now.to_set().contains(t) == (t == last || listed.take(i - 1).to_set().contains(
                    t,
                )) by {
                if listed.take(i - 1).contains(t) {
                    let k = listed.take(i - 1).index_of(t);
                    assert(now[k] == t);
                }
                assert(now[i - 1] == last);
                if now.contains(t) && t != last {
                    let k = now.index_of(t);
                    assert(listed.take(i - 1)[k] == t);
                }
            }
            assert(set@.dom() =~= start.union(now.to_set()));
        }
    }
    assert(listed.take(i as int) =~= listed);
}

/// The members of an ordered set as component ids.
fn components_of(set: &OrderedMap<()>) -> (result: Vec<ComponentId>)
    requires
        set.wf(),
    ensures
        component_texts(result@) == ordering::sorted_texts(set@.dom()),
{
    let mut result: Vec<ComponentId> = Vec::new();
    let mut i: usize = 0;
    proof {
        set.lemma_order();
    }
    while i < set.len()
        invariant
            set.wf(),
            i <= set.order().len(),
            result@.len() == i,
            forall|j: int| 0 <= j < i ==> (#[trigger] result@[j])@ == set.order()[j],
        decreases set.order().len() - i,
    {
        result.push(ComponentId::new(set.key_at(i)));
        i = i + 1;
    }
    assert(component_texts(result@) =~= set.order());
    result
}

/// Compares the persisted inputs with the current ones.
pub fn reconcile_configuration_inputs(
    persisted: &[ConfigurationInput],
    current: &[ConfigurationInput],
) -> (result: ConfigurationInputReconciliation)
    ensures
        is_reconciliation(result, persisted@, current@),
{
    let stored: OrderedMap<usize> = index_by_key(persisted);
    let now: OrderedMap<usize> = index_by_key(current);
    let mut paths: OrderedMap<()> = OrderedMap::new();
    add_keys(&mut paths, &stored);
    add_keys(&mut paths, &now);
    proof {
        paths.lemma_order();
        assert(paths@.dom() =~= ordered_map::keys_of(persisted@).union(
            ordered_map::keys_of(current@),
        ));
    }
    let ghost listed = paths.order();
    let mut touched: OrderedMap<()> = OrderedMap::new();
    let mut inputs: Vec<ConfigurationInputStatus> = Vec::new();
    assert(touched@.dom() =~= affected(inputs@));
    let mut i: usize = 0;
    while i < paths.len()
        invariant
            stored.wf(),
            now.wf(),
            paths.wf(),
            touched.wf(),
            listed == paths.order(),
            paths@.dom() == stored@.dom().union(now@.dom()),
            now@.dom() == ordered_map::keys_of(current@),
            stored@.dom() == ordered_map::keys_of(persisted@),
            forall|key: Seq<char>| #[trigger]
                now@.dom().contains(key) ==> now@[key] < current@.len()
                    && current@[now@[key] as int] == ordered_map::latest(current@, key),
            forall|key: Seq<char>| #[trigger]
                stored@.dom().contains(key) ==> stored@[key] < persisted@.len()
                    && persisted@[stored@[key] as int] == ordered_map::latest(persisted@, key),
            i <= listed.len(),
            inputs@.len() == i,
            forall|j: int|
                0 <= j < i ==> is_status_of(
                    #[trigger] inputs@[j],
                    listed[j],
                    persisted@,
                    current@,
                ),
            touched@.dom() == affected(inputs@),
        decreases listed.len() - i,
    {
        let path = paths.key_at(i);
        let previous = match stored.get(path.as_str()) {
            Some(position) => Some(&persisted[*position]),
            None => None,
        };
        let next = match now.get(path.as_str()) {
            Some(position) => Some(&current[*position]),
            None => None,
        };
        let status = reconcile_one(path, previous, next);
        if status.state != ConfigurationInputState::Current {
            add_components(&mut touched, status.components.as_slice());
        }
        let ghost before = inputs@;
        inputs.push(status);
        i = i + 1;
        assert(inputs@.drop_last() =~= before);
    }
    let affected_components = components_of(&touched);
    ConfigurationInputReconciliation { inputs, affected_components }
}

/// What a component's context fingerprint is computed from: path and
/// fingerprint of each of its inputs, both closed by a zero byte.
pub open spec fn context_bytes(component: Seq<char>, inputs: Seq<ConfigurationInput>) -> Seq<u8>
    decreases inputs.len(),
{
    if inputs.len() == 0 {
        Seq::empty()
    } else {
        let rest = context_bytes(component, inputs.drop_last());
        let input = inputs.last();
        if component_texts(input.components@).contains(component) {
            rest + vstd::utf8::encode_utf8(input.path@) + seq![0u8] + vstd::utf8::encode_utf8(
                input.fingerprint@,
            ) + seq![0u8]
        } else {
            rest
        }
    }
}

/// The fingerprint of everything that configures a component.
pub fn component_context_fingerprint(component: &ComponentId, inputs: &[ConfigurationInput]) -> (result:
    Fingerprint)
    ensures
        result@ == digest::fingerprint_text(context_bytes(component@, inputs@)),
{
    let mut bytes: Vec<u8> = Vec::new();
    let mut i: usize = 0;
    while i < inputs.len()
        invariant
            i <= inputs@.len(),
            bytes@ == context_bytes(component@, inputs@.take(i as int)),
        decreases inputs@.len() - i,
    {
        assert(inputs@.take(i + 1).drop_last() =~= inputs@.take(i as int));
        if contains_component(inputs[i].components.as_slice(), component) {
            digest::append_bytes(
                &mut bytes,
                digest::bytes_of(inputs[i].path.as_str()).as_slice(),
            );
            let ghost partial = bytes@;
            bytes.push(0);
            assert(bytes@ =~= partial + seq![0u8]);
            digest::append_bytes(
                &mut bytes,
                digest::bytes_of(inputs[i].fingerprint.as_str()).as_slice(),
            );
            let ghost partial = bytes@;
            bytes.push(0);
            assert(bytes@ =~= partial + seq![0u8]);
        }
        i = i + 1;
    }
    assert(inputs@.take(i as int) =~= inputs@);
    digest::fingerprint_bytes(bytes.as_slice())
}

/// A component is affected exactly where an input that is not current concerns
/// it.
pub proof fn law_affected_components_have_changed_inputs(
    inputs: Seq<ConfigurationInputStatus>,
    component: Seq<char>,
)
    ensures
        affected(inputs).contains(component) <==> exists|i: int|
            0 <= i < inputs.len() && (#[trigger] inputs[i]).state
                != ConfigurationInputState::Current && component_texts(
                inputs[i].components@,
            ).contains(component),
    decreases inputs.len(),
{
    if inputs.len() > 0 {
        let rest = inputs.drop_last();
        law_affected_components_have_changed_inputs(rest, component);
        let last = inputs.last();
        if affected(rest).contains(component) {
            let i = choose|i: int|
                0 <= i < rest.len() && (#[trigger] rest[i]).state
                    != ConfigurationInputState::Current && component_texts(
                    rest[i].components@,
                ).contains(component);
            assert(inputs[i] == rest[i]);
        }
        if last.state != ConfigurationInputState::Current && component_texts(
            last.components@,
        ).contains(component) {
            assert(inputs[inputs.len() - 1] == last);
        }
        if exists|i: int|
            0 <= i < inputs.len() && (#[trigger] inputs[i]).state
                != ConfigurationInputState::Current && component_texts(
                inputs[i].components@,
            ).contains(component) {
            let i = choose|i: int|
                0 <= i < inputs.len() && (#[trigger] inputs[i]).state
                    != ConfigurationInputState::Current && component_texts(
                    inputs[i].components@,
                ).contains(component);
            if i < rest.len() {
                assert(rest[i] == inputs[i]);
            }
        }
    }
}

/// Where nothing changed, every input is current and no component is affected.
pub proof fn law_unchanged_inputs_are_current(
    result: ConfigurationInputReconciliation,
    inputs: Seq<ConfigurationInput>,
)
    requires
        is_reconciliation(result, inputs, inputs),
    ensures
        forall|i: int|
            0 <= i < result.inputs@.len() ==> (#[trigger] result.inputs@[i]).state
                == ConfigurationInputState::Current,
        result.affected_components@.len() == 0,
{
    let keys = ordered_map::keys_of(inputs);
    let paths = ordering::sorted_texts(keys.union(keys));
    ordered_map::lemma_keys_of(inputs, Seq::empty());
    assert(keys.union(keys) =~= keys);
    ordering::lemma_sorted_texts(keys);
    assert forall|i: int| 0 <= i < result.inputs@.len() implies (#[trigger] result.inputs@[i]).state
        == ConfigurationInputState::Current by {
        assert(is_status_of(result.inputs@[i], paths[i], inputs, inputs));
        assert(paths.to_set().contains(paths[i]));
    }
    assert forall|component: Seq<char>| !#[trigger] affected(result.inputs@).contains(component) by {
        law_affected_components_have_changed_inputs(result.inputs@, component);
    }
    assert(affected(result.inputs@) =~= Set::<Seq<char>>::empty());
    ordering::lemma_sorted_texts(Set::<Seq<char>>::empty());
    let listed = component_texts(result.affected_components@);
    if listed.len() > 0 {
        assert(listed.to_set().contains(listed[0]));
    }
}

/// The last segment of a path in a directory is the name of the file.
pub proof fn lemma_file_name(dir: Seq<char>, name: Seq<char>)
    requires
        dir.len() == 0 || dir.last() == '/',
        !name.contains('/'),
    ensures
        file_name(dir + name) == name,
        parent_path(dir + name) == (if dir.len() == 0 {
            dir
        } else {
            dir.drop_last()
        }),
{
    let path = dir + name;
    let slash = dir.len() - 1;
    assert forall|i: int| slash < i < path.len() implies path[i] != '/' by {
        assert(path[i] == name[i - dir.len()]);
        assert(name.contains(name[i - dir.len()]));
    }
    text::lemma_last_position_is(path, '/', slash);
    assert(file_name(path) =~= name);
    assert(parent_path(path) =~= if dir.len() == 0 {
        dir
    } else {
        dir.drop_last()
    });
}

/// The files by which Gradle, Maven, Cargo and the JavaScript package managers
/// are configured are configuration inputs in every directory, and so are the
/// properties of the Gradle wrapper and the configuration of the workspace in
/// their places.
pub proof fn law_build_files_configure_everywhere(path: &str, dir: Seq<char>, result: bool)
    requires
        call_ensures(is_configuration_input, (path,), result),
        dir.len() == 0 || dir.last() == '/',
    ensures
        ({
            ||| path@ == dir + "settings.gradle"@
            ||| path@ == dir + "settings.gradle.kts"@
            ||| path@ == dir + "build.gradle"@
            ||| path@ == dir + "build.gradle.kts"@
            ||| path@ == dir + "gradle.properties"@
            ||| path@ == dir + "pom.xml"@
            ||| path@ == dir + "Cargo.toml"@
            ||| path@ == dir + "package.json"@
            ||| path@ == dir + "package-lock.json"@
            ||| path@ == dir + "npm-shrinkwrap.json"@
            ||| path@ == dir + "pnpm-lock.yaml"@
            ||| path@ == dir + "pnpm-workspace.yaml"@
            ||| path@ == dir + "yarn.lock"@
            ||| path@ == dir + ".yarnrc.yml"@
            ||| path@ == dir + "bun.lock"@
            ||| path@ == dir + "bun.lockb"@
            ||| path@ == dir + ".npmrc"@
            ||| path@ == "gradle/wrapper/gradle-wrapper.properties"@
            ||| path@ == ".kide/config.toml"@
        }) ==> result,
{
    let names = configuration_file_names();
    reveal_strlit("settings.gradle");
    if path@ == dir + "settings.gradle"@ {
        lemma_file_name(dir, "settings.gradle"@);
        assert(names[0] == "settings.gradle"@);
    }
    reveal_strlit("settings.gradle.kts");
    if path@ == dir + "settings.gradle.kts"@ {
        lemma_file_name(dir, "settings.gradle.kts"@);
        assert(names[1] == "settings.gradle.kts"@);
    }
    reveal_strlit("build.gradle");
    if path@ == dir + "build.gradle"@ {
        lemma_file_name(dir, "build.gradle"@);
        assert(names[2] == "build.gradle"@);
    }
    reveal_strlit("build.gradle.kts");
    if path@ == dir + "build.gradle.kts"@ {
        lemma_file_name(dir, "build.gradle.kts"@);
        assert(names[3] == "build.gradle.kts"@);
    }
    reveal_strlit("gradle.properties");
    if path@ == dir + "gradle.properties"@ {
        lemma_file_name(dir, "gradle.properties"@);
        assert(names[4] == "gradle.properties"@);
    }
    reveal_strlit("pom.xml");
    if path@ == dir + "pom.xml"@ {
        lemma_file_name(dir, "pom.xml"@);
        assert(names[5] == "pom.xml"@);
    }
    reveal_strlit("Cargo.toml");
    if path@ == dir + "Cargo.toml"@ {
        lemma_file_name(dir, "Cargo.toml"@);
        assert(names[6] == "Cargo.toml"@);
    }
    reveal_strlit("package.json");
    if path@ == dir + "package.json"@ {
        lemma_file_name(dir, "package.json"@);
        assert(names[7] == "package.json"@);
    }
    reveal_strlit("package-lock.json");
    if path@ == dir + "package-lock.json"@ {
        lemma_file_name(dir, "package-lock.json"@);
        assert(names[8] == "package-lock.json"@);
    }
    reveal_strlit("npm-shrinkwrap.json");
    if path@ == dir + "npm-shrinkwrap.json"@ {
        lemma_file_name(dir, "npm-shrinkwrap.json"@);
        assert(names[9] == "npm-shrinkwrap.json"@);
    }
    reveal_strlit("pnpm-lock.yaml");
    if path@ == dir + "pnpm-lock.yaml"@ {
        lemma_file_name(dir, "pnpm-lock.yaml"@);
        assert(names[10] == "pnpm-lock.yaml"@);
    }
    reveal_strlit("pnpm-workspace.yaml");
    if path@ == dir + "pnpm-workspace.yaml"@ {
        lemma_file_name(dir, "pnpm-workspace.yaml"@);
        assert(names[11] == "pnpm-workspace.yaml"@);
    }
    reveal_strlit("yarn.lock");
    if path@ == dir + "yarn.lock"@ {
        lemma_file_name(dir, "yarn.lock"@);
        assert(names[12] == "yarn.lock"@);
    }
    reveal_strlit(".yarnrc.yml");
    if path@ == dir + ".yarnrc.yml"@ {
        lemma_file_name(dir, ".yarnrc.yml"@);
        assert(names[13] == ".yarnrc.yml"@);
    }
    reveal_strlit("bun.lock");
    if path@ == dir + "bun.lock"@ {
        lemma_file_name(dir, "bun.lock"@);
        assert(names[14] == "bun.lock"@);
    }
    reveal_strlit("bun.lockb");
    if path@ == dir + "bun.lockb"@ {
        lemma_file_name(dir, "bun.lockb"@);
        assert(names[15] == "bun.lockb"@);
    }
    reveal_strlit(".npmrc");
    if path@ == dir + ".npmrc"@ {
        lemma_file_name(dir, ".npmrc"@);
        assert(names[16] == ".npmrc"@);
    }
}

/// The state of an input path: added where it was not recorded, missing where
/// it is gone, changed where its content or the components it concerns are
/// others, and current otherwise. Where a path is listed twice on a side, its
/// last entry counts.
pub proof fn law_input_state_is_told_by_both_sides(
    persisted: &[ConfigurationInput],
    current: &[ConfigurationInput],
    result: ConfigurationInputReconciliation,
    path: Seq<char>,
    p: int,
    n: int,
) -> (i: int)
    requires
        call_ensures(reconcile_configuration_inputs, (persisted, current), result),
        -1 <= p < persisted@.len(),
        -1 <= n < current@.len(),
        p >= 0 || n >= 0,
        p >= 0 ==> persisted@[p].path@ == path,
        n >= 0 ==> current@[n].path@ == path,
        forall|j: int| p < j < persisted@.len() ==> (#[trigger] persisted@[j]).path@ != path,
        forall|j: int| n < j < current@.len() ==> (#[trigger] current@[j]).path@ != path,
    ensures
        0 <= i < result.inputs@.len(),
        result.inputs@[i].path@ == path,
        ({
            let state = result.inputs@[i].state;
            let same = p >= 0 && n >= 0 && persisted@[p].fingerprint@ == current@[n].fingerprint@
                && component_texts(persisted@[p].components@) == component_texts(
                current@[n].components@,
            );
            &&& state == ConfigurationInputState::Added <==> p < 0
            &&& state == ConfigurationInputState::Missing <==> n < 0
            &&& state == ConfigurationInputState::Current <==> same
            &&& state == ConfigurationInputState::Changed <==> p >= 0 && n >= 0 && !same
        }),
        n >= 0 ==> result.inputs@[i].components@ == current@[n].components@,
        n < 0 ==> result.inputs@[i].components@ == persisted@[p].components@,
{
    lemma_side(persisted@, path, p);
    lemma_side(current@, path, n);
    let keys = ordered_map::keys_of(persisted@).union(ordered_map::keys_of(current@));
    ordered_map::lemma_keys_of(persisted@, path);
    ordered_map::lemma_keys_of(current@, path);
    ordering::lemma_sorted_texts(keys);
    let paths = ordering::sorted_texts(keys);
    assert(paths.to_set().contains(path));
    let i = paths.index_of(path);
    assert(is_status_of(result.inputs@[i], paths[i], persisted@, current@));
    i
}

proof fn lemma_side(inputs: Seq<ConfigurationInput>, path: Seq<char>, p: int)
    requires
        -1 <= p < inputs.len(),
        p >= 0 ==> inputs[p].path@ == path,
        forall|j: int| p < j < inputs.len() ==> (#[trigger] inputs[j]).path@ != path,
    ensures
        ordered_map::lookup(inputs, path) == (if p >= 0 {
            Some(inputs[p])
        } else {
            None
        }),
{
    if p >= 0 {
        assert forall|j: int| p < j < inputs.len() implies (#[trigger] inputs[j]).key()
            != inputs[p].key() by {
            assert(inputs[j].path@ != path);
        }
        ordered_map::lemma_latest_at(inputs, p);
    } else {
        ordered_map::lemma_keys_of(inputs, path);
        if ordered_map::keys_of(inputs).contains(path) {
            let j = choose|j: int| 0 <= j < inputs.len() && (#[trigger] inputs[j]).key() == path;
            assert(inputs[j].path@ != path);
        }
    }
}

/// A component is affected exactly where an input that is not current concerns
/// it, and no other path is reported than those of the two sides, each once.
pub proof fn law_changed_inputs_affect_their_components(
    persisted: &[ConfigurationInput],
    current: &[ConfigurationInput],
    result: ConfigurationInputReconciliation,
    component: Seq<char>,
)
    requires
        call_ensures(reconcile_configuration_inputs, (persisted, current), result),
    ensures
        (exists|c: int|
            0 <= c < result.affected_components@.len() && (
            #[trigger] result.affected_components@[c])@ == component) <==> exists|i: int|
            0 <= i < result.inputs@.len() && (#[trigger] result.inputs@[i]).state
                != ConfigurationInputState::Current && component_texts(
                result.inputs@[i].components@,
            ).contains(component),
        forall|i: int, j: int|
            #![trigger result.inputs@[i], result.inputs@[j]]
            0 <= i < j < result.inputs@.len() ==> result.inputs@[i].path@
                != result.inputs@[j].path@,
{
    law_affected_components_have_changed_inputs(result.inputs@, component);
    let listed = component_texts(result.affected_components@);
    lemma_affected_finite(result.inputs@);
    ordering::lemma_sorted_texts(affected(result.inputs@));
    assert(listed.to_set().contains(component) == affected(result.inputs@).contains(component));
    if listed.contains(component) {
        let c = listed.index_of(component);
        assert(result.affected_components@[c]@ == component);
    }
    if exists|c: int|
        0 <= c < result.affected_components@.len() && (#[trigger] result.affected_components@[c])@
            == component {
        let c = choose|c: int|
            0 <= c < result.affected_components@.len() && (
            #[trigger] result.affected_components@[c])@ == component;
        assert(listed[c] == component);
    }
    let keys = ordered_map::keys_of(persisted@).union(ordered_map::keys_of(current@));
    ordered_map::lemma_keys_of(persisted@, component);
    ordered_map::lemma_keys_of(current@, component);
    ordering::lemma_sorted_texts(keys);
    let paths = ordering::sorted_texts(keys);
    assert forall|i: int, j: int|
        #![trigger result.inputs@[i], result.inputs@[j]]
        0 <= i < j < result.inputs@.len() implies result.inputs@[i].path@
        != result.inputs@[j].path@ by {
        assert(is_status_of(result.inputs@[i], paths[i], persisted@, current@));
        assert(is_status_of(result.inputs@[j], paths[j], persisted@, current@));
        assert(text::text_lt(paths[i], paths[j]));
        text::lemma_text_lt_irreflexive(paths[i]);
    }
}

proof fn lemma_affected_finite(inputs: Seq<ConfigurationInputStatus>)
    ensures
        affected(inputs).finite(),
    decreases inputs.len(),
{
    if inputs.len() > 0 {
        lemma_affected_finite(inputs.drop_last());
        vstd::seq_lib::seq_to_set_is_finite(component_texts(inputs.last().components@));
    }
}

proof fn lemma_scope(path: Seq<char>, components: Seq<Component>, n: int, id: ComponentId)
    requires
        0 <= n <= components.len(),
    ensures
        scope_of(path, components, n).contains(id) <==> exists|c: int|
            0 <= c < n && (#[trigger] components[c]).id == id && in_scope(
                path,
                components,
                components[c],
            ),
    decreases n,
{
    if n > 0 {
        lemma_scope(path, components, n - 1, id);
        let before = scope_of(path, components, n - 1);
        let now = scope_of(path, components, n);
        if before.contains(id) {
            assert(now[before.index_of(id)] == id);
        }
        if in_scope(path, components, components[n - 1]) {
            assert(now[before.len() as int] == components[n - 1].id);
        }
        if now.contains(id) && !before.contains(id) {
            let i = now.index_of(id);
            if i < before.len() {
                assert(before[i] == id);
            }
        }
    }
}

proof fn lemma_deepest(path: Seq<char>, components: Seq<Component>, n: int)
    requires
        0 <= n <= components.len(),
    ensures
        forall|c: int|
            0 <= c < n && path_within(path, (#[trigger] components[c]).root@) ==> text::byte_len(
                components[c].root@,
            ) <= deepest_root(path, components, n),
        deepest_root(path, components, n) > 0 ==> exists|c: int|
            0 <= c < n && path_within(path, (#[trigger] components[c]).root@) && text::byte_len(
                components[c].root@,
            ) == deepest_root(path, components, n),
    decreases n,
{
    if n > 0 {
        lemma_deepest(path, components, n - 1);
        if deepest_root(path, components, n - 1) > 0 {
            let c = choose|c: int|
                0 <= c < n - 1 && path_within(path, (#[trigger] components[c]).root@)
                    && text::byte_len(components[c].root@) == deepest_root(
                    path,
                    components,
                    n - 1,
                );
            assert(path_within(path, components[c].root@));
        }
        assert(components[n - 1] == components[n - 1]);
    }
}

/// An input in the workspace root, and the configuration of the workspace,
/// concern every component. Any other concerns exactly the components whose
/// root holds it and is the longest of those that do.
pub proof fn law_input_concerns_the_nearest_components(
    path: &str,
    components: &[Component],
    scope: Vec<ComponentId>,
    c: int,
)
    requires
        call_ensures(component_scope, (path, components), scope),
        0 <= c < components@.len(),
    ensures
        !path@.contains('/') || path@ == ".kide/config.toml"@ ==> scope@.contains(
            components@[c].id,
        ),
        ({
            let root = components@[c].root@;
            let held = root.len() == 0 || root == "."@ || path@ == root || (root
                + "/"@).is_prefix_of(path@);
            let nearest = held && forall|d: int|
                0 <= d < components@.len() && ({
                    let other = (#[trigger] components@[d]).root@;
                    other.len() == 0 || other == "."@ || path@ == other || (other
                        + "/"@).is_prefix_of(path@)
                }) ==> vstd::utf8::encode_utf8(components@[d].root@).len()
                    <= vstd::utf8::encode_utf8(root).len();
            nearest ==> scope@.contains(components@[c].id)
        }),
        forall|s: int|
            0 <= s < scope@.len() && path@.contains('/') && path@ != ".kide/config.toml"@
                ==> exists|d: int|
                0 <= d < components@.len() && (#[trigger] components@[d]).id
                    == #[trigger] scope@[s] && ({
                    let root = components@[d].root@;
                    root.len() == 0 || root == "."@ || path@ == root || (root
                        + "/"@).is_prefix_of(path@)
                }),
{
    let n = components@.len() as int;
    lemma_deepest(path@, components@, n);
    lemma_scope(path@, components@, n, components@[c].id);
    assert forall|root: Seq<char>| #[trigger]
        (root + "/"@).is_prefix_of(path@) == text::begins_with(path@, root + "/"@) by {
        let prefix = root + "/"@;
        if prefix.len() <= path@.len() {
            assert(path@.take(prefix.len() as int) =~= path@.subrange(0, prefix.len() as int));
        }
    }
    assert(forall|root: Seq<char>| #[trigger]
        path_within(path@, root) == (root.len() == 0 || root == "."@ || path@ == root || (root
            + "/"@).is_prefix_of(path@)));
    let root = components@[c].root@;
    if path_within(path@, root) && forall|d: int|
        0 <= d < n && path_within(path@, (#[trigger] components@[d]).root@)
            ==> vstd::utf8::encode_utf8(components@[d].root@).len() <= vstd::utf8::encode_utf8(
            root,
        ).len() {
        assert(text::byte_len(root) <= deepest_root(path@, components@, n));
        if deepest_root(path@, components@, n) > 0 {
            let d = choose|d: int|
                0 <= d < n && path_within(path@, (#[trigger] components@[d]).root@)
                    && text::byte_len(components@[d].root@) == deepest_root(path@, components@, n);
            assert(text::byte_len(components@[d].root@) <= text::byte_len(root));
        }
        assert(in_scope(path@, components@, components@[c]));
    }
    assert forall|s: int|
        0 <= s < scope@.len() && path@.contains('/') && path@
            != ".kide/config.toml"@ implies exists|d: int|
        0 <= d < components@.len() && (#[trigger] components@[d]).id == #[trigger] scope@[s] && ({
            let root = components@[d].root@;
            root.len() == 0 || root == "."@ || path@ == root || (root + "/"@).is_prefix_of(path@)
        }) by {
        lemma_scope(path@, components@, n, scope@[s]);
        assert(scope@.contains(scope@[s]));
        let d = choose|d: int|
            0 <= d < n && (#[trigger] components@[d]).id == scope@[s] && in_scope(
                path@,
                components@,
                components@[d],
            );
        assert(path_within(path@, components@[d].root@));
    }
}

/// The context of a component is made of exactly the inputs that concern it: one
/// more input leaves it as it is unless it concerns the component, and adds its
/// path and its fingerprint to what is digested where it does.
pub proof fn law_context_is_made_of_own_inputs(
    component: &ComponentId,
    inputs: &[ConfigurationInput],
    more: &[ConfigurationInput],
    input: ConfigurationInput,
    before: Fingerprint,
    after: Fingerprint,
)
    requires
        call_ensures(component_context_fingerprint, (component, inputs), before),
        call_ensures(component_context_fingerprint, (component, more), after),
        more@ == inputs@.push(input),
    ensures
        !component_texts(input.components@).contains(component@) ==> after@ == before@,
        component_texts(input.components@).contains(component@) ==> exists|bytes: Seq<u8>|
            before@ == #[trigger] digest::fingerprint_text(bytes) && after@
                == digest::fingerprint_text(
                bytes + vstd::utf8::encode_utf8(input.path@) + seq![0u8]
                    + vstd::utf8::encode_utf8(input.fingerprint@) + seq![0u8],
            ),
{
    assert(more@.drop_last() =~= inputs@);
    let bytes = context_bytes(component@, inputs@);
    assert(before@ == digest::fingerprint_text(bytes));
}

} // verus!
