use aube::packument::{
    first_highest, is_read_as_range, last_highest, max_satisfying_version, resolve_in_index,
    resolve_version, Dist, Packument, PackumentIndex, VersionMetadata,
};
use aube::semver::{is_safe_range, Identifier, Version};
use aube::text_map::TextMap;

fn packument(versions: &[&str]) -> Packument {
    let mut map = TextMap::new();
    for v in versions {
        map.insert(
            v.to_string(),
            VersionMetadata {
                name: "x".to_string(),
                version: v.to_string(),
                dist: Some(Dist {
                    tarball: String::new(),
                }),
            },
        );
    }
    Packument { versions: map }
}

fn version(major: u64, minor: u64, patch: u64, pre: Vec<Identifier>) -> Version {
    Version {
        major,
        minor,
        patch,
        pre_release: pre,
        build: Vec::new(),
    }
}

fn word(s: &str) -> Identifier {
    Identifier::AlphaNumeric(s.to_string())
}

fn document(text: &str) -> serde_json::Map<String, serde_json::Value> {
    match serde_json::from_str(text).unwrap() {
        serde_json::Value::Object(m) => m,
        _ => panic!("expected object"),
    }
}

#[test]
fn the_highest_version_in_range_is_chosen() {
    let p = packument(&["1.2.0", "1.10.0", "1.9.9", "2.0.0", "not a version"]);
    assert_eq!(max_satisfying_version(&p, "^1.0.0").as_deref(), Some("1.10.0"));
    assert_eq!(max_satisfying_version(&p, "1.9.9").as_deref(), Some("1.9.9"));
    assert_eq!(max_satisfying_version(&p, "^3"), None);
    assert_eq!(max_satisfying_version(&p, ">=2 <3").as_deref(), Some("2.0.0"));
}

#[test]
fn specs_that_are_no_ranges_choose_nothing() {
    let p = packument(&["1.0.0"]);
    for spec in ["workspace:*", "file:../x", "git+https://h/r.git"] {
        assert!(is_safe_range(spec));
        assert_eq!(max_satisfying_version(&p, spec), None);
    }
}

#[test]
fn the_packuments_spelling_is_kept() {
    let p = packument(&["1.0.0+build.7"]);
    assert_eq!(
        max_satisfying_version(&p, "^1").as_deref(),
        Some("1.0.0+build.7")
    );
}

#[test]
fn the_order_of_versions() {
    let ordered = vec![
        version(1, 0, 0, vec![word("alpha")]),
        version(1, 0, 0, vec![word("alpha"), Identifier::Numeric(1)]),
        version(1, 0, 0, vec![word("alpha"), word("beta")]),
        version(1, 0, 0, vec![word("beta")]),
        version(1, 0, 0, vec![word("beta"), Identifier::Numeric(2)]),
        version(1, 0, 0, vec![word("beta"), Identifier::Numeric(11)]),
        version(1, 0, 0, vec![word("rc"), Identifier::Numeric(1)]),
        version(1, 0, 0, vec![]),
        version(1, 0, 1, vec![]),
        version(1, 1, 0, vec![]),
        version(2, 0, 0, vec![]),
    ];
    for (i, a) in ordered.iter().enumerate() {
        for (j, b) in ordered.iter().enumerate() {
            assert_eq!(a.precedes(b), i < j, "{i} {j}");
        }
    }
}

#[test]
fn the_order_of_versions_is_the_parsers() {
    let texts = [
        "1.0.0-alpha", "1.0.0-alpha.1", "1.0.0-alpha.beta", "1.0.0-beta.2", "1.0.0-beta.11",
        "1.0.0-rc.1", "1.0.0", "1.0.1+b", "2.0.0-0", "2.0.0",
    ];
    let own = |s: &str| {
        let v: node_semver::Version = s.parse().unwrap();
        let part = |i: &node_semver::Identifier| match i {
            node_semver::Identifier::Numeric(n) => Identifier::Numeric(*n),
            node_semver::Identifier::AlphaNumeric(a) => Identifier::AlphaNumeric(a.clone()),
        };
        Version {
            major: v.major,
            minor: v.minor,
            patch: v.patch,
            pre_release: v.pre_release.iter().map(part).collect(),
            build: v.build.iter().map(part).collect(),
        }
    };
    for a in texts {
        assert_eq!(own(a).to_text(), a.parse::<node_semver::Version>().unwrap().to_string());
        for b in texts {
            let x: node_semver::Version = a.parse().unwrap();
            let y: node_semver::Version = b.parse().unwrap();
            assert_eq!(own(a).precedes(&own(b)), x < y, "{a} {b}");
        }
    }
}

#[test]
fn equal_candidates_are_told_apart_by_place() {
    let cs = vec![
        None,
        Some(version(1, 0, 0, vec![])),
        Some(version(2, 0, 0, vec![])),
        Some(version(2, 0, 0, vec![])),
        Some(version(1, 5, 0, vec![])),
        None,
    ];
    assert_eq!(first_highest(&cs), Some(2));
    assert_eq!(last_highest(&cs), Some(3));
    assert_eq!(first_highest(&vec![None, None]), None);
    assert_eq!(last_highest(&Vec::new()), None);
}

const DOCUMENT: &str = r#"{
  "dist-tags": { "latest": "1.1.0", "next": "2.0.0-beta.1", "odd": 3 },
  "versions": { "1.0.0": {}, "1.1.0": {}, "1.2.0": {}, "2.0.0-beta.1": {} }
}"#;

#[test]
fn specs_resolve_as_tag_version_and_range() {
    let doc = document(DOCUMENT);
    let r = |spec: Option<&str>| resolve_version(&doc, spec);
    assert_eq!(r(None).as_deref(), Some("1.1.0"));
    assert_eq!(r(Some("")).as_deref(), Some("1.1.0"));
    assert_eq!(r(Some("next")).as_deref(), Some("2.0.0-beta.1"));
    assert_eq!(r(Some("1.0.0")).as_deref(), Some("1.0.0"));
    assert_eq!(r(Some("^1.0.0")).as_deref(), Some("1.2.0"));
    assert_eq!(r(Some("odd")), None);
    assert_eq!(r(Some("^9")), None);
}

#[test]
fn only_what_is_neither_tag_nor_version_is_read_as_a_range() {
    let doc = document(DOCUMENT);
    for (spec, expected) in [
        (None, false),
        (Some(""), false),
        (Some("next"), false),
        (Some("1.0.0"), false),
        (Some("^1.0.0"), true),
        (Some("~x"), true),
    ] {
        assert_eq!(is_read_as_range(&doc, spec), expected, "{spec:?}");
    }
    assert!(!is_read_as_range(&document("{}"), Some("~x")));
    assert_eq!(resolve_version(&document("{}"), Some("~x")), None);
}

#[test]
fn a_document_without_versions_resolves_nothing() {
    assert_eq!(resolve_version(&document(r#"{"dist-tags":{"latest":"1.0.0"}}"#), None), None);
    assert_eq!(
        resolve_version(&document(r#"{"versions":{"1.0.0":{}}}"#), None),
        None
    );
    assert_eq!(
        resolve_version(&document(r#"{"versions":{"1.0.0":{}}}"#), Some("*")).as_deref(),
        Some("1.0.0")
    );
}

#[test]
fn an_index_resolves_like_its_document() {
    let index = PackumentIndex {
        dist_tags: Some(vec![("latest".to_string(), Some("1.0.0".to_string()))]),
        versions: Some(vec![
            ("1.0.0+a".to_string(), None),
            ("1.0.0+b".to_string(), None),
        ]),
    };
    assert_eq!(resolve_in_index(&index, Some("latest")).as_deref(), Some("1.0.0"));
    assert_eq!(resolve_in_index(&index, Some("~1.0")).as_deref(), Some("1.0.0+b"));
}

#[test]
fn texts_that_the_range_parser_does_not_take() {
    for s in ["~x", "~*", "=x", "= *", "~ > X", "^1 || ~*", "1 ~x", "~1.x.2", "~v1.*.0"] {
        assert!(!is_safe_range(s), "{s}");
    }
    for s in ["", "*", "x", "~1", "~1.x", "~1.2.x", "=1", ">=1.x", "^1.x.2", "a~x", "~1.x.y"] {
        assert!(is_safe_range(s), "{s}");
        let _ = node_semver::Range::parse(s);
    }
}
