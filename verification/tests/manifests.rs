use aube::manifest::PackageJson;
use aube::manifest_json::write_manifest_dep_sections;

fn root_key_order(raw: &str) -> Vec<String> {
    match serde_json::from_str(raw).unwrap() {
        serde_json::Value::Object(obj) => obj.keys().cloned().collect(),
        _ => panic!("expected object"),
    }
}

#[test]
fn write_manifest_dep_sections_preserves_existing_top_level_order() {
    let content = r#"{
  "name": "example",
  "version": "1.0.0",
  "license": "MIT",
  "scripts": {
    "test": "echo test"
  },
  "devDependencies": {
    "typescript": "^6.0.3"
  }
}
"#;
    let mut manifest = PackageJson {
        name: Some("example".to_string()),
        version: Some("1.0.0".to_string()),
        ..Default::default()
    };
    manifest
        .dev_dependencies
        .insert("typescript".to_string(), "^6.0.3".to_string());
    manifest
        .dev_dependencies
        .insert("tstyche".to_string(), "^7.1.0".to_string());

    let written = write_manifest_dep_sections(content, &manifest).unwrap();
    assert_eq!(
        root_key_order(&written),
        ["name", "version", "license", "scripts", "devDependencies"]
    );
    assert!(written.contains(r#""tstyche": "^7.1.0""#));
}

#[test]
fn write_manifest_dep_sections_removes_empty_sections_without_reordering() {
    let content = r#"{
  "name": "example",
  "devDependencies": {
    "typescript": "^6.0.3"
  },
  "license": "MIT"
}
"#;
    let mut manifest = PackageJson {
        name: Some("example".to_string()),
        ..Default::default()
    };
    manifest
        .dev_dependencies
        .insert("typescript".to_string(), "^6.0.3".to_string());
    manifest.dev_dependencies.remove("typescript");

    let written = write_manifest_dep_sections(content, &manifest).unwrap();
    assert_eq!(root_key_order(&written), ["name", "license"]);
    assert!(!written.contains("devDependencies"));
}
