//! Changes to the maps of a project's configuration: `allowBuilds` and
//! `patchedDependencies`, in the workspace file or in `package.json`.

use crate::entries;
use crate::json;
use crate::yaml;
use crate::yaml::{Node, Section};
use vstd::prelude::*;

verus! {

/// The value that pnpm writes for an `allowBuilds` entry that nobody has decided on.
pub const ALLOW_BUILDS_REVIEW_PLACEHOLDER: &'static str = "set this to true or false";

/// The configuration that is edited: the document of the workspace file, or the map of the
/// setting in `package.json`.
pub enum ConfigTarget {
    WorkspaceYaml(yaml_serde::Mapping),
    PackageJson(serde_json::Map<String, serde_json::Value>),
}

/// Why a section could not be edited: what stands there is not a mapping.
#[derive(Debug, Clone, Copy, PartialEq, Eq, Structural)]
pub struct NotAMapping;

/// The entries of a section of a document: none if it is missing, nothing if it is not a
/// mapping.
pub open spec fn section_of(doc: yaml::YamlEntries, key: Seq<char>) -> Option<yaml::YamlEntries> {
    match entries::value_under(doc, yaml::YamlModel::Text(key)) {
        None => Some(Seq::empty()),
        Some(yaml::YamlModel::Mapping(es)) => Some(es),
        Some(_) => None,
    }
}

/// A document once a section has been replaced.
pub open spec fn with_section(
    doc: yaml::YamlEntries,
    key: Seq<char>,
    section: yaml::YamlEntries,
) -> yaml::YamlEntries {
    entries::put(doc, yaml::YamlModel::Text(key), yaml::YamlModel::Mapping(section))
}

/// The section once the first `n` of `names` have been set to `allow`.
pub open spec fn allowed_yaml(
    es: yaml::YamlEntries,
    names: Seq<String>,
    allow: bool,
    n: int,
) -> yaml::YamlEntries
    decreases n,
{
    if n <= 0 {
        es
    } else {
        entries::put(
            allowed_yaml(es, names, allow, n - 1),
            yaml::YamlModel::Text(names[n - 1]@),
            yaml::YamlModel::Bool(allow),
        )
    }
}

/// The setting once the first `n` of `names` have been set to `allow`.
pub open spec fn allowed_json(
    es: json::JsonEntries,
    names: Seq<String>,
    allow: bool,
    n: int,
) -> json::JsonEntries
    decreases n,
{
    if n <= 0 {
        es
    } else {
        entries::put(
            allowed_json(es, names, allow, n - 1),
            names[n - 1]@,
            json::JsonModel::Bool(allow),
        )
    }
}

/// A copy of a section of a document, empty if it is missing.
fn section_copy(doc: &yaml_serde::Mapping, key: &str) -> (r: Result<
    yaml_serde::Mapping,
    NotAMapping,
>)
    ensures
        match r {
            Ok(s) => section_of(yaml::mapping_entries(*doc), key@) == Some(
                yaml::mapping_entries(s),
            ),
            Err(_) => section_of(yaml::mapping_entries(*doc), key@) is None,
        },
{
    match yaml::get_section(doc, key) {
        Section::Missing => Ok(yaml::new_mapping()),
        Section::Mapping(s) => Ok(s),
        Section::Other => Err(NotAMapping),
    }
}

/// Sets `names` to `allow` in the `allowBuilds` section of a workspace document.
pub fn write_allow_builds_yaml(
    doc: &mut yaml_serde::Mapping,
    names: &[String],
    allow: bool,
) -> (r: Result<(), NotAMapping>)
    ensures
        match section_of(yaml::mapping_entries(*old(doc)), "allowBuilds"@) {
            Some(es) => r is Ok && yaml::mapping_entries(*final(doc)) == with_section(
                yaml::mapping_entries(*old(doc)),
                "allowBuilds"@,
                allowed_yaml(es, names@, allow, names@.len() as int),
            ),
            None => r is Err && yaml::mapping_entries(*final(doc)) == yaml::mapping_entries(
                *old(doc),
            ),
        },
{
    let mut section = match section_copy(doc, "allowBuilds") {
        Ok(s) => s,
        Err(e) => {
            return Err(e);
        },
    };
    let ghost start = yaml::mapping_entries(section);
    let mut i: usize = 0;
    while i < names.len()
        invariant
            i <= names@.len(),
            yaml::mapping_entries(section) == allowed_yaml(start, names@, allow, i as int),
        decreases names.len() - i,
    {
        yaml::insert(&mut section, names[i].as_str(), Node::Bool(allow));
        i = i + 1;
    }
    yaml::insert(doc, "allowBuilds", Node::Mapping(section));
    Ok(())
}

/// What setting `names` to `allow` in a configuration leads to.
pub open spec fn allow_builds_set(
    before: ConfigTarget,
    after: ConfigTarget,
    names: Seq<String>,
    allow: bool,
    r: Result<(), NotAMapping>,
) -> bool {
    match (before, after) {
        (ConfigTarget::WorkspaceYaml(x), ConfigTarget::WorkspaceYaml(y)) => match section_of(
            yaml::mapping_entries(x),
            "allowBuilds"@,
        ) {
            Some(es) => r is Ok && yaml::mapping_entries(y) == with_section(
                yaml::mapping_entries(x),
                "allowBuilds"@,
                allowed_yaml(es, names, allow, names.len() as int),
            ),
            None => r is Err && yaml::mapping_entries(y) == yaml::mapping_entries(x),
        },
        (ConfigTarget::PackageJson(x), ConfigTarget::PackageJson(y)) => r is Ok
            && json::object_entries(y) == allowed_json(
            json::object_entries(x),
            names,
            allow,
            names.len() as int,
        ),
        _ => false,
    }
}

/// Sets `names` to `allow` in the project's `allowBuilds` map, whatever was there before.
pub fn set_allow_builds(target: &mut ConfigTarget, names: &[String], allow: bool) -> (r: Result<
    (),
    NotAMapping,
>)
    ensures
        allow_builds_set(*old(target), *final(target), names@, allow, r),
{
    match target {
        ConfigTarget::WorkspaceYaml(doc) => write_allow_builds_yaml(doc, names, allow),
        ConfigTarget::PackageJson(map) => {
            write_allow_builds_json(map, names, allow);
            Ok(())
        },
    }
}

/// Sets `names` to `allow` in the `allowBuilds` map of a `package.json`.
fn write_allow_builds_json(
    map: &mut serde_json::Map<String, serde_json::Value>,
    names: &[String],
    allow: bool,
)
    ensures
        json::object_entries(*final(map)) == allowed_json(
            json::object_entries(*old(map)),
            names@,
            allow,
            names@.len() as int,
        ),
{
    let mut i: usize = 0;
    while i < names.len()
        invariant
            i <= names@.len(),
            json::object_entries(*map) == allowed_json(
                json::object_entries(*old(map)),
                names@,
                allow,
                i as int,
            ),
        decreases names.len() - i,
    {
        json::insert(map, names[i].clone(), json::Field::Bool(allow));
        i = i + 1;
    }
}

/// Approves `names` in the project's `allowBuilds` map.
pub fn add_to_allow_builds(target: &mut ConfigTarget, names: &[String]) -> (r: Result<
    (),
    NotAMapping,
>)
    ensures
        allow_builds_set(*old(target), *final(target), names@, true, r),
{
    set_allow_builds(target, names, true)
}

/// A document once a patched dependency has been recorded.
pub open spec fn patched(
    doc: yaml::YamlEntries,
    section: yaml::YamlEntries,
    key: Seq<char>,
    path: Seq<char>,
) -> yaml::YamlEntries {
    with_section(
        doc,
        "patchedDependencies"@,
        entries::put(section, yaml::YamlModel::Text(key), yaml::YamlModel::Text(path)),
    )
}

/// A document once a patched dependency has been dropped: a section without entries goes too.
pub open spec fn unpatched(
    doc: yaml::YamlEntries,
    section: yaml::YamlEntries,
    key: Seq<char>,
) -> yaml::YamlEntries {
    let rest = entries::without(section, yaml::YamlModel::Text(key));
    if rest.len() == 0 {
        entries::without(doc, yaml::YamlModel::Text("patchedDependencies"@))
    } else {
        with_section(doc, "patchedDependencies"@, rest)
    }
}

/// Whether a document has its other patches, but none for `key`, and no section without
/// entries.
pub open spec fn is_unpatched(
    doc: yaml::YamlEntries,
    section: yaml::YamlEntries,
    key: Seq<char>,
) -> bool {
    let rest = entries::without(section, yaml::YamlModel::Text(key));
    &&& section_of(doc, "patchedDependencies"@) == Some(rest)
    &&& !entries::has_entry(rest, yaml::YamlModel::Text(key))
    &&& rest.len() == 0 ==> !entries::has_entry(
        doc,
        yaml::YamlModel::Text("patchedDependencies"@),
    )
}

/// Records the patch of a dependency in a workspace document.
pub fn upsert_workspace_patched_dependency(
    doc: &mut yaml_serde::Mapping,
    key: &str,
    rel_patch_path: &str,
) -> (r: Result<(), NotAMapping>)
    ensures
        match section_of(yaml::mapping_entries(*old(doc)), "patchedDependencies"@) {
            Some(es) => r is Ok && yaml::mapping_entries(*final(doc)) == patched(
                yaml::mapping_entries(*old(doc)),
                es,
                key@,
                rel_patch_path@,
            ),
            None => r is Err && yaml::mapping_entries(*final(doc)) == yaml::mapping_entries(
                *old(doc),
            ),
        },
{
    let mut section = match section_copy(doc, "patchedDependencies") {
        Ok(s) => s,
        Err(e) => {
            return Err(e);
        },
    };
    yaml::insert(&mut section, key, Node::Text(rel_patch_path.to_owned()));
    yaml::insert(doc, "patchedDependencies", Node::Mapping(section));
    Ok(())
}

/// Drops the patch of a dependency from a workspace document, and says whether there was
/// one. Afterwards there is none, and no section without entries.
pub fn remove_workspace_patched_dependency(doc: &mut yaml_serde::Mapping, key: &str) -> (r: Result<
    bool,
    NotAMapping,
>)
    ensures
        match section_of(yaml::mapping_entries(*old(doc)), "patchedDependencies"@) {
            Some(es) => r == Ok::<bool, NotAMapping>(
                entries::has_entry(es, yaml::YamlModel::Text(key@)),
            ) && yaml::mapping_entries(*final(doc)) == unpatched(
                yaml::mapping_entries(*old(doc)),
                es,
                key@,
            ) && is_unpatched(yaml::mapping_entries(*final(doc)), es, key@),
            None => r is Err && yaml::mapping_entries(*final(doc)) == yaml::mapping_entries(
                *old(doc),
            ),
        },
{
    let mut section = match section_copy(doc, "patchedDependencies") {
        Ok(s) => s,
        Err(e) => {
            return Err(e);
        },
    };
    let existed = yaml::shift_remove(&mut section, key);
    if yaml::is_empty(&section) {
        assert(yaml::mapping_entries(section) =~= Seq::empty());
        yaml::shift_remove(doc, "patchedDependencies");
    } else {
        proof {
            let name = yaml::YamlModel::Text("patchedDependencies"@);
            entries::put_is_found(
                yaml::mapping_entries(*doc),
                name,
                yaml::YamlModel::Mapping(yaml::mapping_entries(section)),
                name,
            );
        }
        yaml::insert(doc, "patchedDependencies", Node::Mapping(section));
    }
    Ok(existed)
}

/// Every name that was set has the value it was set to, and no other entry changes.
pub proof fn allowed_names_are_set(
    es: yaml::YamlEntries,
    names: Seq<String>,
    allow: bool,
    n: int,
    name: yaml::YamlModel,
)
    requires
        0 <= n <= names.len(),
    ensures
        (exists|i: int| 0 <= i < n && name == yaml::YamlModel::Text(#[trigger] names[i]@))
            ==> entries::value_under(allowed_yaml(es, names, allow, n), name) == Some(
            yaml::YamlModel::Bool(allow),
        ),
        (forall|i: int| 0 <= i < n ==> name != yaml::YamlModel::Text(#[trigger] names[i]@))
            ==> entries::value_under(allowed_yaml(es, names, allow, n), name)
            == entries::value_under(es, name),
    decreases n,
{
    if n > 0 {
        allowed_names_are_set(es, names, allow, n - 1, name);
        let before = allowed_yaml(es, names, allow, n - 1);
        let last = yaml::YamlModel::Text(names[n - 1]@);
        entries::put_is_found(before, last, yaml::YamlModel::Bool(allow), name);
        if name != last && exists|i: int|
            0 <= i < n && name == yaml::YamlModel::Text(#[trigger] names[i]@) {
            let i = choose|i: int|
                0 <= i < n && name == yaml::YamlModel::Text(#[trigger] names[i]@);
            assert(i < n - 1);
        }
    }
}

/// In a `package.json` too, every name that was set has the value it was set to, and no other
/// entry changes.
pub proof fn allowed_names_are_set_in_json(
    es: json::JsonEntries,
    names: Seq<String>,
    allow: bool,
    n: int,
    name: Seq<char>,
)
    requires
        0 <= n <= names.len(),
    ensures
        (exists|i: int| 0 <= i < n && name == #[trigger] names[i]@) ==> entries::value_under(
            allowed_json(es, names, allow, n),
            name,
        ) == Some(json::JsonModel::Bool(allow)),
        (forall|i: int| 0 <= i < n ==> name != #[trigger] names[i]@) ==> entries::value_under(
            allowed_json(es, names, allow, n),
            name,
        ) == entries::value_under(es, name),
    decreases n,
{
    if n > 0 {
        allowed_names_are_set_in_json(es, names, allow, n - 1, name);
        let before = allowed_json(es, names, allow, n - 1);
        let last = names[n - 1]@;
        entries::put_is_found(before, last, json::JsonModel::Bool(allow), name);
        if name != last && exists|i: int| 0 <= i < n && name == #[trigger] names[i]@ {
            let i = choose|i: int| 0 <= i < n && name == #[trigger] names[i]@;
            assert(i < n - 1);
        }
    }
}

/// Recording a patch that is recorded already changes nothing.
pub proof fn recording_a_patch_twice_is_recording_it_once(
    doc: yaml::YamlEntries,
    section: yaml::YamlEntries,
    key: Seq<char>,
    path: Seq<char>,
)
    requires
        section_of(doc, "patchedDependencies"@) == Some(section),
    ensures
        section_of(patched(doc, section, key, path), "patchedDependencies"@) == Some(
            entries::put(section, yaml::YamlModel::Text(key), yaml::YamlModel::Text(path)),
        ),
        patched(
            patched(doc, section, key, path),
            entries::put(section, yaml::YamlModel::Text(key), yaml::YamlModel::Text(path)),
            key,
            path,
        ) == patched(doc, section, key, path),
{
    let k = yaml::YamlModel::Text(key);
    let v = yaml::YamlModel::Text(path);
    let name = yaml::YamlModel::Text("patchedDependencies"@);
    let once = entries::put(section, k, v);
    entries::put_is_found(section, k, v, k);
    entries::put_is_idempotent(once, k, v);
    entries::put_is_found(doc, name, yaml::YamlModel::Mapping(once), name);
    entries::put_is_idempotent(
        patched(doc, section, key, path),
        name,
        yaml::YamlModel::Mapping(once),
    );
}

/// A patch that was recorded is there to be dropped.
pub proof fn a_recorded_patch_is_there(
    doc: yaml::YamlEntries,
    section: yaml::YamlEntries,
    key: Seq<char>,
    path: Seq<char>,
)
    requires
        section_of(doc, "patchedDependencies"@) == Some(section),
    ensures
        section_of(patched(doc, section, key, path), "patchedDependencies"@) is Some,
        entries::value_under(
            section_of(patched(doc, section, key, path), "patchedDependencies"@)->0,
            yaml::YamlModel::Text(key),
        ) == Some(yaml::YamlModel::Text(path)),
{
    let k = yaml::YamlModel::Text(key);
    let v = yaml::YamlModel::Text(path);
    let name = yaml::YamlModel::Text("patchedDependencies"@);
    entries::put_is_found(section, k, v, k);
    entries::put_is_found(
        doc,
        name,
        yaml::YamlModel::Mapping(entries::put(section, k, v)),
        name,
    );
}

/// Dropping a patch takes it out and nothing else: the other patches and the other keys of
/// the document are as they were, and no section without entries is left.
pub proof fn dropping_takes_one_patch_out(
    doc: yaml::YamlEntries,
    section: yaml::YamlEntries,
    key: Seq<char>,
    other: yaml::YamlModel,
)
    requires
        section_of(doc, "patchedDependencies"@) == Some(section),
        entries::distinct_keys(doc),
        entries::distinct_keys(section),
    ensures
        is_unpatched(unpatched(doc, section, key), section, key),
        other != yaml::YamlModel::Text(key) ==> entries::value_under(
            entries::without(section, yaml::YamlModel::Text(key)),
            other,
        ) == entries::value_under(section, other),
        other != yaml::YamlModel::Text("patchedDependencies"@) ==> entries::value_under(
            unpatched(doc, section, key),
            other,
        ) == entries::value_under(doc, other),
{
    let k = yaml::YamlModel::Text(key);
    let name = yaml::YamlModel::Text("patchedDependencies"@);
    let rest = entries::without(section, k);
    entries::without_leaves_none(section, k);
    entries::without_leaves_none(doc, name);
    entries::put_is_found(doc, name, yaml::YamlModel::Mapping(rest), name);
    entries::put_is_found(doc, name, yaml::YamlModel::Mapping(rest), other);
    if rest.len() == 0 {
        assert(rest =~= Seq::empty());
    }
    if other != k {
        entries::without_keeps_others(section, k, other);
    }
    if other != name {
        entries::without_keeps_others(doc, name, other);
    }
}

/// Dropping a patch again finds none and changes nothing.
pub proof fn dropping_again_changes_nothing(
    doc: yaml::YamlEntries,
    section: yaml::YamlEntries,
    key: Seq<char>,
)
    requires
        section_of(doc, "patchedDependencies"@) == Some(section),
        entries::distinct_keys(doc),
        entries::distinct_keys(section),
    ensures
        section_of(unpatched(doc, section, key), "patchedDependencies"@) == Some(
            entries::without(section, yaml::YamlModel::Text(key)),
        ),
        !entries::has_entry(
            entries::without(section, yaml::YamlModel::Text(key)),
            yaml::YamlModel::Text(key),
        ),
        unpatched(
            unpatched(doc, section, key),
            entries::without(section, yaml::YamlModel::Text(key)),
            key,
        ) == unpatched(doc, section, key),
{
    let k = yaml::YamlModel::Text(key);
    let name = yaml::YamlModel::Text("patchedDependencies"@);
    let rest = entries::without(section, k);
    dropping_takes_one_patch_out(doc, section, key, k);
    if rest.len() > 0 {
        entries::put_twice(
            doc,
            name,
            yaml::YamlModel::Mapping(rest),
            yaml::YamlModel::Mapping(rest),
        );
    }
}

/// Dropping a patch that was recorded anew restores the document, unless it had an empty
/// section: that one is not left behind.
pub proof fn dropping_undoes_recording(
    doc: yaml::YamlEntries,
    section: yaml::YamlEntries,
    key: Seq<char>,
    path: Seq<char>,
)
    requires
        section_of(doc, "patchedDependencies"@) == Some(section),
        !entries::has_entry(section, yaml::YamlModel::Text(key)),
        section.len() == 0 ==> !entries::has_entry(
            doc,
            yaml::YamlModel::Text("patchedDependencies"@),
        ),
    ensures
        unpatched(
            patched(doc, section, key, path),
            entries::put(section, yaml::YamlModel::Text(key), yaml::YamlModel::Text(path)),
            key,
        ) == doc,
{
    let k = yaml::YamlModel::Text(key);
    let v = yaml::YamlModel::Text(path);
    let name = yaml::YamlModel::Text("patchedDependencies"@);
    let once = entries::put(section, k, v);
    entries::put_and_without_cancel(section, k, v);
    if section.len() == 0 {
        entries::put_and_without_cancel(doc, name, yaml::YamlModel::Mapping(once));
    } else {
        entries::put_twice(
            doc,
            name,
            yaml::YamlModel::Mapping(once),
            yaml::YamlModel::Mapping(section),
        );
        entries::put_is_idempotent(doc, name, yaml::YamlModel::Mapping(section));
    }
}

/// A section is what the document has under its key, if that is a mapping; a missing one is
/// empty, and what is no mapping is no section.
pub proof fn sections_are_mappings(doc: yaml::YamlEntries, key: Seq<char>, es: yaml::YamlEntries)
    ensures
        entries::value_under(doc, yaml::YamlModel::Text(key)) is None ==> section_of(doc, key)
            == Some(Seq::<(yaml::YamlModel, yaml::YamlModel)>::empty()),
        entries::value_under(doc, yaml::YamlModel::Text(key)) == Some(
            yaml::YamlModel::Mapping(es),
        ) ==> section_of(doc, key) == Some(es),
        entries::value_under(doc, yaml::YamlModel::Text(key)) is Some && !(entries::value_under(
            doc,
            yaml::YamlModel::Text(key),
        )->0 is Mapping) ==> section_of(doc, key) is None,
{
}

/// Every name that is approved or denied has that decision in the `allowBuilds` map afterwards,
/// whatever it had before; the other names and the rest of the workspace file are as they were.
/// Only where `allowBuilds` is there and no mapping is it refused, and then nothing changes.
pub proof fn decisions_reach_the_workspace_file(
    before: yaml_serde::Mapping,
    after: yaml_serde::Mapping,
    names: Seq<String>,
    allow: bool,
    r: Result<(), NotAMapping>,
    i: int,
    name: Seq<char>,
    other: yaml::YamlModel,
)
    requires
        allow_builds_set(
            ConfigTarget::WorkspaceYaml(before),
            ConfigTarget::WorkspaceYaml(after),
            names,
            allow,
            r,
        ),
        0 <= i < names.len(),
        forall|j: int| 0 <= j < names.len() ==> name != #[trigger] names[j]@,
    ensures
        ({
            let x = yaml::mapping_entries(before);
            let y = yaml::mapping_entries(after);
            let key = yaml::YamlModel::Text("allowBuilds"@);
            let had = entries::value_under(x, key);
            let has = entries::value_under(y, key);
            &&& had is Some && !(had->0 is Mapping) ==> r is Err && y == x
            &&& had is None || had->0 is Mapping ==> r is Ok
            &&& r is Ok ==> has is Some && has->0 is Mapping && entries::value_under(
                has->0->Mapping_0,
                yaml::YamlModel::Text(names[i]@),
            ) == Some(yaml::YamlModel::Bool(allow))
            &&& r is Ok && had is Some ==> entries::value_under(
                has->0->Mapping_0,
                yaml::YamlModel::Text(name),
            ) == entries::value_under(had->0->Mapping_0, yaml::YamlModel::Text(name))
            &&& r is Ok && had is None ==> entries::value_under(
                has->0->Mapping_0,
                yaml::YamlModel::Text(name),
            ) is None
            &&& other != key ==> entries::value_under(y, other) == entries::value_under(x, other)
        }),
{
    let x = yaml::mapping_entries(before);
    let key = yaml::YamlModel::Text("allowBuilds"@);
    match section_of(x, "allowBuilds"@) {
        Some(es) => {
            let n = names.len() as int;
            let set = allowed_yaml(es, names, allow, n);
            allowed_names_are_set(es, names, allow, n, yaml::YamlModel::Text(names[i]@));
            allowed_names_are_set(es, names, allow, n, yaml::YamlModel::Text(name));
            entries::put_is_found(x, key, yaml::YamlModel::Mapping(set), key);
            entries::put_is_found(x, key, yaml::YamlModel::Mapping(set), other);
        },
        None => {},
    }
}

/// In a `package.json` every name that is approved or denied has that decision afterwards,
/// whatever it had before, the other names are as they were, and nothing is refused.
pub proof fn decisions_reach_the_manifest(
    before: serde_json::Map<String, serde_json::Value>,
    after: serde_json::Map<String, serde_json::Value>,
    names: Seq<String>,
    allow: bool,
    r: Result<(), NotAMapping>,
    i: int,
    name: Seq<char>,
)
    requires
        allow_builds_set(
            ConfigTarget::PackageJson(before),
            ConfigTarget::PackageJson(after),
            names,
            allow,
            r,
        ),
        0 <= i < names.len(),
        forall|j: int| 0 <= j < names.len() ==> name != #[trigger] names[j]@,
    ensures
        r is Ok,
        entries::value_under(json::object_entries(after), names[i]@) == Some(
            json::JsonModel::Bool(allow),
        ),
        entries::value_under(json::object_entries(after), name) == entries::value_under(
            json::object_entries(before),
            name,
        ),
{
    let es = json::object_entries(before);
    allowed_names_are_set_in_json(es, names, allow, names.len() as int, names[i]@);
    allowed_names_are_set_in_json(es, names, allow, names.len() as int, name);
}

/// Recording a patch leaves the other patches and the rest of the document as they were.
pub proof fn recording_keeps_the_other_patches(
    doc: yaml::YamlEntries,
    section: yaml::YamlEntries,
    key: Seq<char>,
    path: Seq<char>,
    other: yaml::YamlModel,
)
    requires
        section_of(doc, "patchedDependencies"@) == Some(section),
    ensures
        other != yaml::YamlModel::Text(key) ==> entries::value_under(
            section_of(patched(doc, section, key, path), "patchedDependencies"@)->0,
            other,
        ) == entries::value_under(section, other),
        other != yaml::YamlModel::Text("patchedDependencies"@) ==> entries::value_under(
            patched(doc, section, key, path),
            other,
        ) == entries::value_under(doc, other),
{
    let k = yaml::YamlModel::Text(key);
    let v = yaml::YamlModel::Text(path);
    let name = yaml::YamlModel::Text("patchedDependencies"@);
    let once = entries::put(section, k, v);
    entries::put_is_found(section, k, v, other);
    entries::put_is_found(doc, name, yaml::YamlModel::Mapping(once), name);
    entries::put_is_found(doc, name, yaml::YamlModel::Mapping(once), other);
}

} // verus!
