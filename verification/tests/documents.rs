use aube::manifest::PackageJson;
use aube::manifest_json::{
    manifest_object, manifest_text, sync_dep_section, write_manifest_dep_sections, ManifestError,
};
use aube::sponsors::{self, SponsorsArgs};
use aube::text_map::TextMap;
use aube::workspace_mutations::{
    add_to_allow_builds, remove_workspace_patched_dependency, set_allow_builds,
    upsert_workspace_patched_dependency, write_allow_builds_yaml, ConfigTarget,
    ALLOW_BUILDS_REVIEW_PLACEHOLDER,
};

fn yaml(text: &str) -> yaml_serde::Mapping {
    match yaml_serde::from_str(text).unwrap() {
        yaml_serde::Value::Mapping(m) => m,
        _ => panic!("expected mapping"),
    }
}

fn text_of(doc: &yaml_serde::Mapping) -> String {
    yaml_serde::to_string(doc).unwrap()
}

fn names(v: &[&str]) -> Vec<String> {
    v.iter().map(|s| s.to_string()).collect()
}

#[test]
fn builds_are_allowed_in_the_workspace_file() {
    let mut target = ConfigTarget::WorkspaceYaml(yaml(
        "packages:\n- a\nallowBuilds:\n  esbuild: false\n  other: false\n",
    ));
    add_to_allow_builds(&mut target, &names(&["esbuild", "new"])).unwrap();
    match target {
        ConfigTarget::WorkspaceYaml(doc) => assert_eq!(
            text_of(&doc),
            "packages:\n- a\nallowBuilds:\n  esbuild: true\n  other: false\n  new: true\n"
        ),
        _ => panic!(),
    }
}

#[test]
fn builds_are_denied_in_a_new_section() {
    let mut doc = yaml("packages:\n- a\n");
    write_allow_builds_yaml(&mut doc, &names(&["esbuild"]), false).unwrap();
    assert_eq!(text_of(&doc), "packages:\n- a\nallowBuilds:\n  esbuild: false\n");
    let mut doc = yaml("allowBuilds: nothing\n");
    assert!(write_allow_builds_yaml(&mut doc, &names(&["x"]), true).is_err());
    assert_eq!(text_of(&doc), "allowBuilds: nothing\n");
}

#[test]
fn builds_are_allowed_in_the_manifest() {
    let mut map = serde_json::Map::new();
    map.insert("x".to_string(), serde_json::Value::Bool(false));
    map.insert(
        "y".to_string(),
        serde_json::Value::String(ALLOW_BUILDS_REVIEW_PLACEHOLDER.to_string()),
    );
    let mut target = ConfigTarget::PackageJson(map);
    set_allow_builds(&mut target, &names(&["y", "z"]), true).unwrap();
    match target {
        ConfigTarget::PackageJson(map) => assert_eq!(
            serde_json::to_string(&map).unwrap(),
            r#"{"x":false,"y":true,"z":true}"#
        ),
        _ => panic!(),
    }
}

#[test]
fn patches_are_recorded_and_dropped() {
    let mut doc = yaml("packages:\n- a\n");
    upsert_workspace_patched_dependency(&mut doc, "x@1.0.0", "patches/x.patch").unwrap();
    assert_eq!(
        text_of(&doc),
        "packages:\n- a\npatchedDependencies:\n  x@1.0.0: patches/x.patch\n"
    );
    let once = text_of(&doc);
    upsert_workspace_patched_dependency(&mut doc, "x@1.0.0", "patches/x.patch").unwrap();
    assert_eq!(text_of(&doc), once);
    upsert_workspace_patched_dependency(&mut doc, "y@1.0.0", "patches/y.patch").unwrap();
    assert!(remove_workspace_patched_dependency(&mut doc, "x@1.0.0").unwrap());
    assert!(!remove_workspace_patched_dependency(&mut doc, "x@1.0.0").unwrap());
    assert_eq!(
        text_of(&doc),
        "packages:\n- a\npatchedDependencies:\n  y@1.0.0: patches/y.patch\n"
    );
    assert!(remove_workspace_patched_dependency(&mut doc, "y@1.0.0").unwrap());
    assert_eq!(text_of(&doc), "packages:\n- a\n");
    let mut odd = yaml("patchedDependencies: 3\n");
    assert!(upsert_workspace_patched_dependency(&mut odd, "x", "p").is_err());
}

#[test]
fn a_dropped_patch_is_gone() {
    let mut doc = yaml("a: 1\npatchedDependencies:\n  x: p\n  y: q\nb:\n  x: 2\n");
    assert!(remove_workspace_patched_dependency(&mut doc, "x").unwrap());
    let once = text_of(&doc);
    assert_eq!(once, "a: 1\npatchedDependencies:\n  y: q\nb:\n  x: 2\n");
    assert!(!remove_workspace_patched_dependency(&mut doc, "x").unwrap());
    assert_eq!(text_of(&doc), once);
    upsert_workspace_patched_dependency(&mut doc, "x", "r").unwrap();
    assert!(remove_workspace_patched_dependency(&mut doc, "x").unwrap());
    assert_eq!(text_of(&doc), once);
    let mut stub = yaml("a: 1\npatchedDependencies: {}\n");
    assert!(!remove_workspace_patched_dependency(&mut stub, "x").unwrap());
    assert_eq!(text_of(&stub), "a: 1\n");
    let mut odd = yaml("patchedDependencies: 3\n");
    assert!(remove_workspace_patched_dependency(&mut odd, "x").is_err());
    assert_eq!(text_of(&odd), "patchedDependencies: 3\n");
}

#[test]
fn manifests_that_cannot_be_edited() {
    let m = PackageJson::default();
    assert!(matches!(write_manifest_dep_sections("{", &m), Err(ManifestError::Parse)));
    assert!(matches!(write_manifest_dep_sections("[]", &m), Err(ManifestError::NotAnObject)));
    assert!(matches!(manifest_object("3"), Err(ManifestError::NotAnObject)));
    assert_eq!(manifest_text(&manifest_object("{}").unwrap()).unwrap(), "{}\n");
    assert_eq!(
        manifest_text(&manifest_object("{\"b\":1,\"a\":[]}").unwrap()).unwrap(),
        "{\n  \"b\": 1,\n  \"a\": []\n}\n"
    );
}

#[test]
fn integers_are_read_back() {
    let text = r#"{"a":0,"b":18446744073709551615,"c":[-1,-9223372036854775808]}"#;
    let obj = manifest_object(text).unwrap();
    let written = manifest_text(&obj).unwrap();
    assert!(written.contains("18446744073709551615") && written.contains("-9223372036854775808"));
    assert_eq!(manifest_object(&written).unwrap(), obj);
}

#[test]
fn sections_are_replaced_in_place() {
    let mut obj = manifest_object(r#"{"dependencies":{"z":"1"},"name":"x"}"#).unwrap();
    let mut deps = TextMap::new();
    deps.insert("b".to_string(), "2".to_string());
    deps.insert("a".to_string(), "1".to_string());
    sync_dep_section(&mut obj, "dependencies", &deps);
    assert_eq!(
        serde_json::to_string(&obj).unwrap(),
        r#"{"dependencies":{"a":"1","b":"2"},"name":"x"}"#
    );
    sync_dep_section(&mut obj, "devDependencies", &TextMap::new());
    sync_dep_section(&mut obj, "dependencies", &TextMap::new());
    assert_eq!(serde_json::to_string(&obj).unwrap(), r#"{"name":"x"}"#);
}

#[test]
fn every_dependency_section_is_written() {
    let mut m = PackageJson::default();
    m.dependencies.insert("a".to_string(), "1".to_string());
    m.dev_dependencies.insert("b".to_string(), "2".to_string());
    m.peer_dependencies.insert("c".to_string(), "3".to_string());
    m.optional_dependencies.insert("d".to_string(), "4".to_string());
    let written = write_manifest_dep_sections("{}", &m).unwrap();
    let value: serde_json::Value = serde_json::from_str(&written).unwrap();
    assert_eq!(value["dependencies"]["a"], "1");
    assert_eq!(value["devDependencies"]["b"], "2");
    assert_eq!(value["peerDependencies"]["c"], "3");
    assert_eq!(value["optionalDependencies"]["d"], "4");
}

#[test]
fn what_is_written_is_read_back() {
    let mut m = PackageJson::default();
    m.dependencies.insert("b\"\\\n".to_string(), "ü".to_string());
    m.dependencies.insert("a".to_string(), "^1".to_string());
    let before = r#"{"name":"x","files":[],"nested":{"k":[true,null,"v"]},"dependencies":{"old":"1"}}"#;
    let written = write_manifest_dep_sections(before, &m).unwrap();
    let read = manifest_object(&written).unwrap();
    assert_eq!(read.keys().collect::<Vec<_>>(), ["name", "files", "nested", "dependencies"]);
    assert_eq!(read["dependencies"]["b\"\\\n"], "ü");
    assert_eq!(read["dependencies"]["a"], "^1");
    assert!(read["dependencies"].get("old").is_none());
    assert_eq!(read["nested"]["k"][2], "v");
    assert_eq!(manifest_text(&read).unwrap(), written);
}

#[test]
fn sponsors_are_shown() {
    assert_eq!(
        sponsors::run(SponsorsArgs {}),
        "aube and the en.dev project family are sponsored by:\n\n  37signals - https://37signals.com\n\nView all sponsors: https://en.dev/sponsors.html"
    );
}
