//! Writing dependency sections into the text of a `package.json` without disturbing the
//! rest of it.

use crate::entries;
use crate::json;
use crate::json::{Field, NotAnObject};
use crate::manifest::PackageJson;
use crate::text_map::TextMap;
use vstd::prelude::*;

verus! {

/// Why a `package.json` could not be updated.
#[derive(Debug, Clone, Copy, PartialEq, Eq, Structural)]
pub enum ManifestError {
    /// It is not JSON.
    Parse,
    /// It is JSON, but not an object.
    NotAnObject,
    /// The result could not be written as text.
    Serialize,
}

/// The entries of a dependency section, by ascending package name.
pub open spec fn section_entries(deps: TextMap<String>) -> json::JsonEntries {
    Seq::new(
        deps.pairs().len(),
        |i: int| (deps.pairs()[i].0, json::JsonModel::Text(deps.pairs()[i].1@)),
    )
}

/// The entries of a manifest once a section holds `deps`: an empty section is left out.
pub open spec fn section_synced(
    es: json::JsonEntries,
    key: Seq<char>,
    deps: TextMap<String>,
) -> json::JsonEntries {
    if deps.pairs().len() == 0 {
        entries::without(es, key)
    } else {
        entries::put(es, key, json::JsonModel::Object(section_entries(deps)))
    }
}

/// The entries of a manifest once its four dependency sections are those of `m`.
pub open spec fn sections_synced(es: json::JsonEntries, m: PackageJson) -> json::JsonEntries {
    let a = section_synced(es, "dependencies"@, m.dependencies);
    let b = section_synced(a, "devDependencies"@, m.dev_dependencies);
    let c = section_synced(b, "peerDependencies"@, m.peer_dependencies);
    section_synced(c, "optionalDependencies"@, m.optional_dependencies)
}

/// The object that holds a dependency section.
fn section_object(deps: &TextMap<String>) -> (r: serde_json::Map<String, serde_json::Value>)
    ensures
        json::object_entries(r) == section_entries(*deps),
{
    let ghost all = section_entries(*deps);
    let mut r = json::new_object();
    let n = deps.len();
    let mut i: usize = 0;
    while i < n
        invariant
            n == deps.pairs().len(),
            i <= n,
            all == section_entries(*deps),
            crate::text_map::ascending(deps.pairs()),
            json::object_entries(r) == all.take(i as int),
        decreases n - i,
    {
        let ghost before = all.take(i as int);
        let key = deps.key_at(i).clone();
        let spec = deps.value_at(i).clone();
        proof {
            assert forall|j: int| 0 <= j < before.len() implies (#[trigger] before[j]).0
                != key@ by {
                let p = deps.pairs();
                assert(crate::text::text_less(p[j].0, p[i as int].0));
                crate::text::lemma_less_irreflexive(key@);
            }
            entries::lemma_key_at(before, key@, 0, before.len() as int);
        }
        json::insert(&mut r, key, Field::Text(spec));
        i = i + 1;
        assert(all.take(i as int) == before.push(all[i - 1]));
    }
    assert(all.take(i as int) == all);
    r
}

/// Makes the section under `key` hold `deps`, or takes it out if there are none.
pub fn sync_dep_section(
    obj: &mut serde_json::Map<String, serde_json::Value>,
    key: &str,
    deps: &TextMap<String>,
)
    ensures
        json::object_entries(*final(obj)) == section_synced(
            json::object_entries(*old(obj)),
            key@,
            *deps,
        ),
{
    if deps.is_empty() {
        json::shift_remove(obj, key);
        return ;
    }
    let section = section_object(deps);
    json::insert(obj, key.to_owned(), Field::Object(section));
}

/// Makes the four dependency sections of a manifest those of `manifest`.
pub fn sync_manifest_dep_sections(
    obj: &mut serde_json::Map<String, serde_json::Value>,
    manifest: &PackageJson,
)
    ensures
        json::object_entries(*final(obj)) == sections_synced(
            json::object_entries(*old(obj)),
            *manifest,
        ),
{
    sync_dep_section(obj, "dependencies", &manifest.dependencies);
    sync_dep_section(obj, "devDependencies", &manifest.dev_dependencies);
    sync_dep_section(obj, "peerDependencies", &manifest.peer_dependencies);
    sync_dep_section(obj, "optionalDependencies", &manifest.optional_dependencies);
}

/// The object that the text of a `package.json` writes, ready to be edited.
pub fn manifest_object(content: &str) -> (r: Result<
    serde_json::Map<String, serde_json::Value>,
    ManifestError,
>)
    ensures
        match r {
            Ok(m) => json::parsed_json(content@) == Some(
                json::JsonModel::Object(json::object_entries(m)),
            ),
            Err(ManifestError::Parse) => json::parsed_json(content@) is None,
            Err(ManifestError::NotAnObject) => json::parsed_json(content@) is Some
                && !(json::parsed_json(content@)->0 is Object),
            Err(ManifestError::Serialize) => false,
        },
{
    match json::parse_object(content) {
        Ok(m) => Ok(m),
        Err(NotAnObject::Syntax) => Err(ManifestError::Parse),
        Err(NotAnObject::OtherValue) => Err(ManifestError::NotAnObject),
    }
}

/// The text of a `package.json` that holds `obj`: indented, with a line feed at the end.
pub fn manifest_text(obj: &serde_json::Map<String, serde_json::Value>) -> (r: Result<
    String,
    ManifestError,
>)
    ensures
        r matches Ok(t) && t@ == json::pretty_json(json::object_entries(*obj)) + "\n"@ && (
        json::reads_back(json::object_entries(*obj)) ==> json::parsed_json(t@) == Some(
            json::JsonModel::Object(json::object_entries(*obj)),
        )),
{
    match json::to_string_pretty(obj) {
        Some(t) => Ok(crate::text::cat(t.as_str(), "\n")),
        None => Err(ManifestError::Serialize),
    }
}

/// The new text of a `package.json` with the contents `content` once its dependency sections
/// are those of `manifest`. Read again, it gives the edited object.
pub fn write_manifest_dep_sections(content: &str, manifest: &PackageJson) -> (r: Result<
    String,
    ManifestError,
>)
    ensures
        match r {
            Ok(t) => json::parsed_json(content@) matches Some(json::JsonModel::Object(es)) && t@
                == json::pretty_json(sections_synced(es, *manifest)) + "\n"@ && (json::reads_back(
                sections_synced(es, *manifest),
            ) ==> json::parsed_json(t@) == Some(
                json::JsonModel::Object(sections_synced(es, *manifest)),
            )),
            Err(ManifestError::Parse) => json::parsed_json(content@) is None,
            Err(ManifestError::NotAnObject) => json::parsed_json(content@) is Some
                && !(json::parsed_json(content@)->0 is Object),
            Err(ManifestError::Serialize) => false,
        },
{
    let mut obj = match manifest_object(content) {
        Ok(obj) => obj,
        Err(e) => {
            return Err(e);
        },
    };
    sync_manifest_dep_sections(&mut obj, manifest);
    manifest_text(&obj)
}

/// The keys of a list of entries.
pub open spec fn keys_of(es: json::JsonEntries) -> Seq<Seq<char>> {
    Seq::new(es.len(), |i: int| es[i].0)
}

/// Updating a section that is there leaves the order of the keys alone.
pub proof fn updating_a_section_keeps_the_order(
    es: json::JsonEntries,
    key: Seq<char>,
    deps: TextMap<String>,
)
    requires
        deps.pairs().len() > 0,
        entries::has_entry(es, key),
    ensures
        keys_of(section_synced(es, key, deps)) == keys_of(es),
{
    entries::lemma_key_from(es, key, 0);
    assert(keys_of(section_synced(es, key, deps)) == keys_of(es));
}

/// Removing an empty section leaves the order of the other keys alone.
pub proof fn removing_a_section_keeps_the_order(
    es: json::JsonEntries,
    key: Seq<char>,
    deps: TextMap<String>,
)
    requires
        deps.pairs().len() == 0,
        entries::has_entry(es, key),
    ensures
        keys_of(section_synced(es, key, deps)) == keys_of(es).remove(
            entries::key_from(es, key, 0),
        ),
{
    entries::lemma_key_from(es, key, 0);
    let at = entries::key_from(es, key, 0);
    assert(keys_of(es.remove(at)) == keys_of(es).remove(at));
}

proof fn lemma_section_elsewhere(
    es: json::JsonEntries,
    key: Seq<char>,
    deps: TextMap<String>,
    other: Seq<char>,
)
    requires
        other != key,
    ensures
        entries::value_under(section_synced(es, key, deps), other) == entries::value_under(
            es,
            other,
        ),
{
    if deps.pairs().len() == 0 {
        entries::without_keeps_others(es, key, other);
    } else {
        entries::put_is_found(es, key, json::JsonModel::Object(section_entries(deps)), other);
    }
}

/// Nothing but the four dependency sections changes.
pub proof fn other_fields_are_kept(es: json::JsonEntries, m: PackageJson, other: Seq<char>)
    requires
        other != "dependencies"@,
        other != "devDependencies"@,
        other != "peerDependencies"@,
        other != "optionalDependencies"@,
    ensures
        entries::value_under(sections_synced(es, m), other) == entries::value_under(es, other),
{
    let a = section_synced(es, "dependencies"@, m.dependencies);
    let b = section_synced(a, "devDependencies"@, m.dev_dependencies);
    let c = section_synced(b, "peerDependencies"@, m.peer_dependencies);
    lemma_section_elsewhere(es, "dependencies"@, m.dependencies, other);
    lemma_section_elsewhere(a, "devDependencies"@, m.dev_dependencies, other);
    lemma_section_elsewhere(b, "peerDependencies"@, m.peer_dependencies, other);
    lemma_section_elsewhere(c, "optionalDependencies"@, m.optional_dependencies, other);
}

/// The dependencies of a manifest are what its sections hold afterwards, whatever they held
/// before.
pub proof fn dependencies_are_written(es: json::JsonEntries, m: PackageJson)
    ensures
        m.dependencies.pairs().len() > 0 ==> entries::value_under(
            sections_synced(es, m),
            "dependencies"@,
        ) == Some(json::JsonModel::Object(section_entries(m.dependencies))),
        m.dev_dependencies.pairs().len() > 0 ==> entries::value_under(
            sections_synced(es, m),
            "devDependencies"@,
        ) == Some(json::JsonModel::Object(section_entries(m.dev_dependencies))),
        m.peer_dependencies.pairs().len() > 0 ==> entries::value_under(
            sections_synced(es, m),
            "peerDependencies"@,
        ) == Some(json::JsonModel::Object(section_entries(m.peer_dependencies))),
        m.optional_dependencies.pairs().len() > 0 ==> entries::value_under(
            sections_synced(es, m),
            "optionalDependencies"@,
        ) == Some(json::JsonModel::Object(section_entries(m.optional_dependencies))),
{
    let (k1, k2, k3, k4) = (
        "dependencies"@,
        "devDependencies"@,
        "peerDependencies"@,
        "optionalDependencies"@,
    );
    reveal_strlit("dependencies");
    reveal_strlit("devDependencies");
    reveal_strlit("peerDependencies");
    reveal_strlit("optionalDependencies");
    assert(k1.len() == 12 && k2.len() == 15 && k3.len() == 16 && k4.len() == 20);
    let a = section_synced(es, k1, m.dependencies);
    let b = section_synced(a, k2, m.dev_dependencies);
    let c = section_synced(b, k3, m.peer_dependencies);
    lemma_section_written(es, k1, m.dependencies);
    lemma_section_elsewhere(a, k2, m.dev_dependencies, k1);
    lemma_section_elsewhere(b, k3, m.peer_dependencies, k1);
    lemma_section_elsewhere(c, k4, m.optional_dependencies, k1);
    lemma_section_written(a, k2, m.dev_dependencies);
    lemma_section_elsewhere(b, k3, m.peer_dependencies, k2);
    lemma_section_elsewhere(c, k4, m.optional_dependencies, k2);
    lemma_section_written(b, k3, m.peer_dependencies);
    lemma_section_elsewhere(c, k4, m.optional_dependencies, k3);
    lemma_section_written(c, k4, m.optional_dependencies);
}

proof fn lemma_section_written(es: json::JsonEntries, key: Seq<char>, deps: TextMap<String>)
    ensures
        deps.pairs().len() > 0 ==> entries::value_under(section_synced(es, key, deps), key)
            == Some(json::JsonModel::Object(section_entries(deps))),
{
    entries::put_is_found(es, key, json::JsonModel::Object(section_entries(deps)), key);
}

/// A dependency section lists its packages by name, each with its spec as text.
pub proof fn sections_list_names_and_specs(deps: TextMap<String>, i: int)
    requires
        0 <= i < deps.pairs().len(),
    ensures
        section_entries(deps).len() == deps.pairs().len(),
        section_entries(deps)[i].0 == deps.pairs()[i].0,
        section_entries(deps)[i].1 == json::JsonModel::Text(deps.pairs()[i].1@),
{
}

proof fn lemma_section_distinct(es: json::JsonEntries, key: Seq<char>, deps: TextMap<String>)
    requires
        entries::distinct_keys(es),
    ensures
        entries::distinct_keys(section_synced(es, key, deps)),
        deps.pairs().len() == 0 ==> entries::value_under(section_synced(es, key, deps), key)
            is None,
{
    if deps.pairs().len() == 0 {
        entries::without_leaves_none(es, key);
    } else {
        entries::put_keeps_keys_distinct(
            es,
            key,
            json::JsonModel::Object(section_entries(deps)),
        );
    }
}

/// A section without packages is left out, also where the manifest had it before.
pub proof fn empty_sections_are_left_out(es: json::JsonEntries, m: PackageJson)
    requires
        entries::distinct_keys(es),
    ensures
        m.dependencies.pairs().len() == 0 ==> entries::value_under(
            sections_synced(es, m),
            "dependencies"@,
        ) is None,
        m.dev_dependencies.pairs().len() == 0 ==> entries::value_under(
            sections_synced(es, m),
            "devDependencies"@,
        ) is None,
        m.peer_dependencies.pairs().len() == 0 ==> entries::value_under(
            sections_synced(es, m),
            "peerDependencies"@,
        ) is None,
        m.optional_dependencies.pairs().len() == 0 ==> entries::value_under(
            sections_synced(es, m),
            "optionalDependencies"@,
        ) is None,
        entries::distinct_keys(sections_synced(es, m)),
{
    let (k1, k2, k3, k4) = (
        "dependencies"@,
        "devDependencies"@,
        "peerDependencies"@,
        "optionalDependencies"@,
    );
    reveal_strlit("dependencies");
    reveal_strlit("devDependencies");
    reveal_strlit("peerDependencies");
    reveal_strlit("optionalDependencies");
    assert(k1.len() == 12 && k2.len() == 15 && k3.len() == 16 && k4.len() == 20);
    let a = section_synced(es, k1, m.dependencies);
    let b = section_synced(a, k2, m.dev_dependencies);
    let c = section_synced(b, k3, m.peer_dependencies);
    lemma_section_distinct(es, k1, m.dependencies);
    lemma_section_distinct(a, k2, m.dev_dependencies);
    lemma_section_distinct(b, k3, m.peer_dependencies);
    lemma_section_distinct(c, k4, m.optional_dependencies);
    lemma_section_elsewhere(a, k2, m.dev_dependencies, k1);
    lemma_section_elsewhere(b, k3, m.peer_dependencies, k1);
    lemma_section_elsewhere(c, k4, m.optional_dependencies, k1);
    lemma_section_elsewhere(b, k3, m.peer_dependencies, k2);
    lemma_section_elsewhere(c, k4, m.optional_dependencies, k2);
    lemma_section_elsewhere(c, k4, m.optional_dependencies, k3);
}

/// A section that was not there comes after everything that was.
pub proof fn new_sections_come_last(es: json::JsonEntries, key: Seq<char>, deps: TextMap<String>)
    requires
        deps.pairs().len() > 0,
        !entries::has_entry(es, key),
    ensures
        section_synced(es, key, deps) == es.push(
            (key, json::JsonModel::Object(section_entries(deps))),
        ),
{
}

/// Sections that a manifest did not have follow after everything it had: dependencies, then
/// development, peer and optional ones.
pub proof fn new_sections_come_in_order(es: json::JsonEntries, m: PackageJson)
    requires
        !entries::has_entry(es, "dependencies"@),
        !entries::has_entry(es, "devDependencies"@),
        !entries::has_entry(es, "peerDependencies"@),
        !entries::has_entry(es, "optionalDependencies"@),
    ensures
        ({
            let none = Seq::<(Seq<char>, json::JsonModel)>::empty();
            let a = if m.dependencies.pairs().len() > 0 {
                seq![
                    (
                        "dependencies"@,
                        json::JsonModel::Object(section_entries(m.dependencies)),
                    ),
                ]
            } else {
                none
            };
            let b = if m.dev_dependencies.pairs().len() > 0 {
                seq![
                    (
                        "devDependencies"@,
                        json::JsonModel::Object(section_entries(m.dev_dependencies)),
                    ),
                ]
            } else {
                none
            };
            let c = if m.peer_dependencies.pairs().len() > 0 {
                seq![
                    (
                        "peerDependencies"@,
                        json::JsonModel::Object(section_entries(m.peer_dependencies)),
                    ),
                ]
            } else {
                none
            };
            let d = if m.optional_dependencies.pairs().len() > 0 {
                seq![
                    (
                        "optionalDependencies"@,
                        json::JsonModel::Object(section_entries(m.optional_dependencies)),
                    ),
                ]
            } else {
                none
            };
            sections_synced(es, m) == es + a + b + c + d
        }),
{
    let (k1, k2, k3, k4) = (
        "dependencies"@,
        "devDependencies"@,
        "peerDependencies"@,
        "optionalDependencies"@,
    );
    reveal_strlit("dependencies");
    reveal_strlit("devDependencies");
    reveal_strlit("peerDependencies");
    reveal_strlit("optionalDependencies");
    assert(k1.len() == 12 && k2.len() == 15 && k3.len() == 16 && k4.len() == 20);
    let a = section_synced(es, k1, m.dependencies);
    let b = section_synced(a, k2, m.dev_dependencies);
    let c = section_synced(b, k3, m.peer_dependencies);
    lemma_section_elsewhere(es, k1, m.dependencies, k2);
    lemma_section_elsewhere(es, k1, m.dependencies, k3);
    lemma_section_elsewhere(es, k1, m.dependencies, k4);
    lemma_section_elsewhere(a, k2, m.dev_dependencies, k3);
    lemma_section_elsewhere(a, k2, m.dev_dependencies, k4);
    lemma_section_elsewhere(b, k3, m.peer_dependencies, k4);
    assert(!entries::has_entry(a, k2) && !entries::has_entry(b, k3) && !entries::has_entry(c, k4));
    let none = Seq::<(Seq<char>, json::JsonModel)>::empty();
    assert(es + none == es && a + none == a && b + none == b && c + none == c);
}

} // verus!
