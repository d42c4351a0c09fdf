use aube::catalogs::{
    catalog_places, discover_catalogs, merge_catalog_source, merge_manifest_catalogs,
};
use aube::commands::retarget_cwd;
use aube::gvs::{
    incompatible_message, planned_global_virtual_store, remove_dir_all_if_exists, reset_on_mode_change,
    resolve_global_virtual_store_override, Removal,
};
use aube::lifecycle::{lifecycle_indices, order_lifecycle_manifests};
use aube::lockfile::{
    collect_dep_closure, DepFilter, DepType, DirectDep, LockedPackage, LockfileGraph,
};
use aube::manifest::{CatalogMap, PackageJson, Workspaces};
use aube::paths::{self, Part};
use aube::script_settings::{configure_script_settings, non_empty_string};
use aube::text_map::TextMap;
use aube::workspace_install::{
    discover_workspace_plan, filter_graph_to_importers, filter_graph_to_workspace_selection,
    importer_key_from, importer_project_dir, keep_selected_importers, lockfile_dir_of, member_key,
    plan_per_project_lockfiles, plan_workspace, workspace_importer_path, workspace_member_key,
    LockfileKind, SelectionError, WorkspaceMember,
};

fn named_manifest(name: &str) -> PackageJson {
    PackageJson {
        name: Some(name.to_string()),
        ..Default::default()
    }
}

fn manifest_with_dep(name: &str, dep: &str) -> PackageJson {
    let mut manifest = named_manifest(name);
    manifest
        .dependencies
        .insert(dep.to_string(), "workspace:*".to_string());
    manifest
}

#[test]
fn lifecycle_manifests_follow_workspace_dependency_order() {
    let ordered = order_lifecycle_manifests(vec![
        (".".to_string(), named_manifest("root")),
        (
            "packages/app".to_string(),
            manifest_with_dep("app", "@scope/lib"),
        ),
        ("packages/lib".to_string(), named_manifest("@scope/lib")),
    ]);
    let importers = ordered
        .iter()
        .map(|(importer, _)| importer.as_str())
        .collect::<Vec<_>>();

    assert_eq!(importers, [".", "packages/lib", "packages/app"]);
}

fn graph_with_importers(importers: &[&str]) -> LockfileGraph {
    let mut map: TextMap<Vec<DirectDep>> = TextMap::new();
    for importer in importers {
        map.insert((*importer).to_string(), Vec::new());
    }
    LockfileGraph {
        importers: map,
        packages: TextMap::new(),
    }
}

fn manifest(name: &str) -> PackageJson {
    PackageJson {
        name: Some(name.to_string()),
        version: Some("1.0.0".to_string()),
        ..Default::default()
    }
}

fn planned(
    graph: &LockfileGraph,
    manifests: &Vec<(String, PackageJson)>,
    root_is_project: bool,
    existing: &Vec<Option<LockfileKind>>,
    fallback: LockfileKind,
) -> Vec<(usize, String, LockfileKind)> {
    plan_per_project_lockfiles("/repo", graph, manifests, root_is_project, existing, fallback)
        .into_iter()
        .map(|w| (w.member, w.dir, w.kind))
        .collect()
}

#[test]
fn preserves_existing_member_lockfile_format() {
    // `lib` already uses pnpm; `app` has no lockfile yet.
    let graph = graph_with_importers(&["packages/lib", "packages/app"]);
    let manifests = vec![
        (".".to_string(), manifest("root")),
        ("packages/lib".to_string(), manifest("@test/lib")),
        ("packages/app".to_string(), manifest("@test/app")),
    ];
    let existing = vec![None, Some(LockfileKind::Pnpm), None];
    let writes = planned(&graph, &manifests, false, &existing, LockfileKind::Aube);
    // `lib`: the pnpm lockfile is written again; `app`: the workspace default.
    assert_eq!(
        writes,
        vec![
            (1, "/repo/packages/lib".to_string(), LockfileKind::Pnpm),
            (2, "/repo/packages/app".to_string(), LockfileKind::Aube),
        ]
    );
}

#[test]
fn fallback_kind_used_when_member_has_no_lockfile() {
    let graph = graph_with_importers(&["packages/fresh"]);
    let manifests = vec![
        (".".to_string(), manifest("root")),
        ("packages/fresh".to_string(), manifest("@test/fresh")),
    ];
    let writes = planned(
        &graph,
        &manifests,
        false,
        &vec![None, None],
        LockfileKind::Pnpm,
    );
    assert_eq!(
        writes,
        vec![(1, "/repo/packages/fresh".to_string(), LockfileKind::Pnpm)]
    );
}

#[test]
fn writes_root_importer_lockfile_when_root_is_a_project() {
    let graph = graph_with_importers(&[".", "packages/lib"]);
    let manifests = vec![
        (".".to_string(), manifest("root")),
        ("packages/lib".to_string(), manifest("@test/lib")),
    ];
    let existing = vec![Some(LockfileKind::Pnpm), None];
    let writes = planned(&graph, &manifests, true, &existing, LockfileKind::Aube);
    assert_eq!(
        writes,
        vec![
            (0, "/repo".to_string(), LockfileKind::Pnpm),
            (1, "/repo/packages/lib".to_string(), LockfileKind::Aube),
        ]
    );
}

#[test]
fn skips_root_importer_when_root_is_not_a_project() {
    let graph = graph_with_importers(&[".", "packages/lib"]);
    let manifests = vec![
        (".".to_string(), manifest("root")),
        ("packages/lib".to_string(), manifest("@test/lib")),
    ];
    let writes = planned(
        &graph,
        &manifests,
        false,
        &vec![None, None],
        LockfileKind::Aube,
    );
    assert_eq!(
        writes,
        vec![(1, "/repo/packages/lib".to_string(), LockfileKind::Aube)]
    );
}

fn texts(pairs: &[(&str, &str)]) -> TextMap<String> {
    let mut m = TextMap::new();
    for (k, v) in pairs {
        m.insert(k.to_string(), v.to_string());
    }
    m
}

fn keys<V>(m: &TextMap<V>) -> Vec<String> {
    m.keys()
}

#[test]
fn members_follow_every_kind_of_dependency_but_peers() {
    let mut dev = named_manifest("dev");
    dev.dev_dependencies.insert("lib".to_string(), "*".to_string());
    let mut optional = named_manifest("optional");
    optional.optional_dependencies.insert("lib".to_string(), "*".to_string());
    let mut peer = named_manifest("peer");
    peer.peer_dependencies.insert("lib".to_string(), "*".to_string());
    let ordered = order_lifecycle_manifests(vec![
        ("dev".to_string(), dev),
        ("optional".to_string(), optional),
        ("peer".to_string(), peer),
        ("lib".to_string(), named_manifest("lib")),
    ]);
    let importers: Vec<&str> = ordered.iter().map(|(i, _)| i.as_str()).collect();
    assert_eq!(importers, ["peer", "lib", "dev", "optional"]);
}

#[test]
fn members_on_a_cycle_come_last_in_their_order() {
    let ordered = order_lifecycle_manifests(vec![
        ("a".to_string(), manifest_with_dep("a", "b")),
        ("b".to_string(), manifest_with_dep("b", "a")),
        ("self".to_string(), manifest_with_dep("self", "self")),
        ("free".to_string(), named_manifest("free")),
    ]);
    let importers: Vec<&str> = ordered.iter().map(|(i, _)| i.as_str()).collect();
    assert_eq!(importers, ["self", "free", "a", "b"]);
    let one = order_lifecycle_manifests(vec![("x".to_string(), manifest_with_dep("x", "y"))]);
    assert_eq!(one.len(), 1);
    let a = ("a".to_string(), manifest_with_dep("a", "b"));
    let b = ("b".to_string(), named_manifest("b"));
    assert_eq!(lifecycle_indices(&vec![&a, &b]), [1, 0]);
    assert_eq!(lifecycle_indices(&Vec::new()), Vec::<usize>::new());
}

#[test]
fn ordering_again_changes_nothing() {
    let names = |v: &[(String, PackageJson)]| -> Vec<String> {
        v.iter().map(|(i, _)| i.clone()).collect()
    };
    let once = order_lifecycle_manifests(vec![
        ("a".to_string(), manifest_with_dep("a", "b")),
        ("b".to_string(), manifest_with_dep("b", "a")),
        ("app".to_string(), manifest_with_dep("app", "lib")),
        ("cli".to_string(), manifest_with_dep("cli", "app")),
        ("lib".to_string(), named_manifest("lib")),
    ]);
    let order = names(&once);
    assert_eq!(order, ["lib", "app", "cli", "a", "b"]);
    assert_eq!(names(&order_lifecycle_manifests(once)), order);
}

fn package(name: Option<&str>, version: Option<&str>) -> PackageJson {
    PackageJson {
        name: name.map(|s| s.to_string()),
        version: version.map(|s| s.to_string()),
        ..Default::default()
    }
}

#[test]
fn a_workspace_is_planned() {
    let plan = discover_workspace_plan(
        "/repo",
        package(Some("root"), None),
        vec![
            ("/repo".to_string(), package(Some("root"), Some("9.0.0"))),
            ("/repo/packages/app".to_string(), package(Some("app"), Some("1.0.0"))),
            ("/sibling".to_string(), package(None, None)),
        ],
        true,
        true,
        true,
    );
    assert!(plan.has_workspace && plan.is_workspace_project && plan.link_all_workspace_importers);
    let importers: Vec<&str> = plan.manifests.iter().map(|(i, _)| i.as_str()).collect();
    assert_eq!(importers, [".", "packages/app", "../sibling"]);
    assert_eq!(keys(&plan.ws_package_versions), ["app", "root"]);
    assert_eq!(plan.ws_package_versions.get("root").unwrap(), "9.0.0");
    assert_eq!(plan.ws_dirs.get("app").unwrap(), "/repo/packages/app");
    assert_eq!(plan.workspace_packages, ["/repo", "/repo/packages/app", "/sibling"]);
    assert_eq!(plan.lifecycle_manifests(&vec![true, true, false]), [0, 1]);
}

#[test]
fn a_single_package_is_planned() {
    let plan = discover_workspace_plan(
        "/repo",
        package(Some("root"), None),
        Vec::new(),
        false,
        true,
        false,
    );
    assert!(!plan.has_workspace && !plan.link_all_workspace_importers);
    assert_eq!(plan.manifests.len(), 1);
    assert!(plan.workspace_packages.is_empty());
    assert_eq!(plan.ws_package_versions.get("root").unwrap(), "0.0.0");
    assert_eq!(plan.ws_dirs.get("root").unwrap(), "/repo");
    assert_eq!(plan.lifecycle_manifests(&vec![true]), [0]);
}

#[test]
fn scripts_run_for_the_root_alone_unless_all_are_linked() {
    let member = |dir: &str, key: &str, m: PackageJson| WorkspaceMember {
        dir: dir.to_string(),
        key: key.to_string(),
        manifest: m,
    };
    let members = || {
        vec![
            member("/r/a", "a", manifest_with_dep("a", "b")),
            member("/r/b", "b", named_manifest("b")),
        ]
    };
    let plan = plan_workspace("/r", named_manifest("r"), members(), true, false, true);
    assert_eq!(plan.lifecycle_manifests(&vec![true, true, true]), [0]);
    let plan = plan_workspace("/r", named_manifest("r"), members(), true, false, false);
    assert_eq!(plan.lifecycle_manifests(&vec![true, true, true]), [0, 2, 1]);
    assert_eq!(plan.lifecycle_manifests(&vec![false, true, false]), [1]);
}

fn parts_of(p: &str) -> Vec<String> {
    p.split('/')
        .enumerate()
        .filter(|(i, x)| !x.is_empty() && (*x != "." || *i == 0))
        .map(|(_, x)| x.to_string())
        .collect()
}

fn way_of(p: &str, base: &str) -> Option<String> {
    let (a, b) = (parts_of(p), parts_of(base));
    let shared = a.iter().zip(&b).take_while(|(x, y)| x == y).count();
    if shared < a.len() && shared < b.len() && b[shared] == ".." {
        return None;
    }
    let mut way = vec!["..".to_string(); b.len() - shared];
    way.extend_from_slice(&a[shared..]);
    Some(way.join("/"))
}

#[test]
fn ways_between_directories() {
    let mut tails = vec![String::new()];
    let mut last = tails.clone();
    for _ in 0..4 {
        let longer: Vec<String> = last
            .iter()
            .flat_map(|t| ["a", "b", "..", ".", ""].map(|x| format!("{t}/{x}")))
            .collect();
        tails.extend(longer.iter().cloned());
        last = longer;
    }
    let absolute: Vec<String> =
        tails.iter().filter(|t| !t.is_empty() && !t.starts_with("//")).cloned().collect();
    let relative: Vec<String> = absolute.iter().map(|t| t[1..].to_string()).collect();
    for (i, base) in absolute.iter().enumerate() {
        for p in absolute.iter().skip(i % 7).step_by(7) {
            let way = way_of(p, base);
            let key = way.clone().map(|w| if w.is_empty() { ".".to_string() } else { w });
            assert_eq!(workspace_importer_path(base, p), key, "{p} from {base}");
            assert_eq!(workspace_member_key(base, p), way.unwrap_or(p.clone()));
        }
    }
    for (i, base) in relative.iter().enumerate() {
        if base.starts_with("./") || base == "." {
            continue;
        }
        for p in relative.iter().skip(i % 7).step_by(7) {
            assert_eq!(workspace_member_key(base, p), way_of(p, base).unwrap_or(p.clone()));
        }
    }
    assert_eq!(workspace_importer_path("/w/a/b", "/w/c/d"), Some("../../c/d".to_string()));
    assert_eq!(workspace_importer_path("/w/a/b", "/w"), Some("../..".to_string()));
    assert_eq!(workspace_importer_path("/w/..", "/w/c"), None);
    assert_eq!(workspace_member_key(".", "."), "");
}

#[test]
fn importer_keys_and_their_directories() {
    let key = |dir: &str| workspace_importer_path("/w/repo", dir);
    assert_eq!(key("/w/repo"), Some(".".to_string()));
    assert_eq!(key("/w/repo/packages/app"), Some("packages/app".to_string()));
    assert_eq!(key("/w/sibling"), Some("../sibling".to_string()));
    assert_eq!(key("/w/other/deep"), Some("../other/deep".to_string()));
    assert_eq!(key("relative"), None);
    assert_eq!(workspace_member_key("/w/repo", "/w/repo"), "");
    assert_eq!(workspace_member_key("/w/repo", "/w/x"), "../x");
    assert_eq!(workspace_member_key("/w/repo", "relative"), "relative");
    assert_eq!(importer_key_from(""), ".");
    assert_eq!(importer_key_from("a\\b"), "a/b");
    assert_eq!(member_key(None, "C:\\x"), "C:/x");
    assert_eq!(member_key(Some("a\\b".to_string()), "x"), "a/b");
    assert_eq!(importer_project_dir("/w/repo", "."), "/w/repo");
    for dir in ["/w/repo/packages/app", "/w/sibling", "/w/other/deep"] {
        assert_eq!(importer_project_dir("/w/repo", &key(dir).unwrap()), dir);
    }
}

#[test]
fn paths_are_joined_compared_and_normalized() {
    assert_eq!(retarget_cwd("/a", "b"), native("/a", "b"));
    assert_eq!(retarget_cwd("/a/", "b"), "/a/b");
    assert_eq!(retarget_cwd("", "b"), "b");
    assert_eq!(retarget_cwd("/a", "/b"), "/b");
    assert!(is_inside("/a/b/c", "/a", "b"));
    assert!(is_inside("/a/./b", "/a/", "b/"));
    assert!(!is_inside("/a/bc", "/a", "b"));
    assert!(!is_inside("a/b", "/", "a"));
    assert_eq!(paths::normalize_lexical("/a/./b/../c"), "/a/c");
    assert_eq!(paths::normalize_lexical("/.."), "/");
    assert_eq!(paths::normalize_lexical("../a/../b"), "../b");
    assert_eq!(paths::normalize_lexical("../../a"), "../../a");
    assert_eq!(paths::normalize_lexical("./a/.."), "");
}

fn native(base: &str, rel: &str) -> String {
    std::path::Path::new(base).join(rel).to_string_lossy().into_owned()
}

fn modules_dir(cwd: &str, modules: &str) -> String {
    reset_on_mode_change(cwd, "/store", modules, Some(true), false)
        .unwrap()
        .modules_dir
}

fn is_inside(store: &str, cwd: &str, modules: &str) -> bool {
    reset_on_mode_change(cwd, store, modules, Some(true), false)
        .unwrap()
        .store_dir
        .is_none()
}

const PATHS: [&str; 20] = [
    "", "/", ".", "a", "/a", "a/b", "/a/b", "/a/./b", "./a", "a/.", "/a//b", "../a", "/..", "a/../b",
    "//a", "a\\b", "\\a", "C:\\a", "C:", "a:b",
];

#[test]
fn paths_are_read_as_the_standard_library_reads_them() {
    for p in PATHS {
        for q in PATHS {
            let joined = std::path::Path::new(p).join(q);
            assert_eq!(retarget_cwd(p, q), native(p, q), "{p:?} {q:?}");
            assert_eq!(modules_dir(p, q), native(p, q), "{p:?} {q:?}");
            for store in PATHS {
                assert_eq!(
                    is_inside(store, p, q),
                    std::path::Path::new(store).starts_with(&joined),
                    "{store:?} {p:?} {q:?}"
                );
            }
            let same = std::path::Path::new(p) == std::path::Path::new(q);
            let places = catalog_places(q, Some(p.to_string()), None);
            assert_eq!(places.manifest_dir.is_none(), same, "{p:?} {q:?}");
        }
    }
}

#[test]
fn parts_are_collapsed_below_a_drive_too() {
    let name = |t: &str| Part::Name(t.to_string());
    let drive = || Part::Prefix("C:".to_string());
    let kept = paths::collapse(vec![
        drive(),
        Part::Root,
        name("repo"),
        Part::Here,
        Part::Up,
        name("sibling"),
        name("x"),
    ]);
    assert_eq!(kept, [drive(), Part::Root, name("sibling"), name("x")]);
    assert_eq!(paths::write_parts(&kept, "\\"), "C:\\sibling\\x");
    assert_eq!(paths::collapse(vec![drive(), Part::Root, Part::Up]), [drive(), Part::Root]);
    assert_eq!(paths::collapse(vec![drive(), Part::Up]), [drive(), Part::Up]);
    assert_eq!(
        paths::collapse(vec![Part::Up, Part::Up, name("a"), Part::Up]),
        [Part::Up, Part::Up]
    );
    assert_eq!(paths::collapse(Vec::new()), []);
    assert_eq!(paths::write_parts(&vec![drive(), name("a"), name("b")], "\\"), "C:a\\b");
    assert_eq!(paths::write_parts(&vec![Part::Root], "/"), "/");
    assert_eq!(paths::write_parts(&vec![Part::Here, Part::Up, name("a")], "/"), "./../a");
    assert_eq!(paths::write_parts(&Vec::new(), "/"), "");
}

#[test]
fn names_with_colons_are_names() {
    assert_eq!(workspace_member_key("/srv/app:1", "/srv/app:1/pkg"), "pkg");
    assert_eq!(workspace_member_key("/srv/app:1", "/srv/b:2"), "../b:2");
    assert_eq!(
        workspace_importer_path("/srv/app:1", "/srv/app:1/pkg"),
        Some("pkg".to_string())
    );
    assert_eq!(importer_project_dir("/srv/app:1", "../b:2"), "/srv/b:2");
    assert_eq!(paths::normalize_lexical("/srv/app:1/../x:y"), "/srv/x:y");
    assert!(is_inside("/srv/app:1/m/.aube", "/srv/app:1", "m"));
    assert!(!is_inside("/srv/app:2/m/.aube", "/srv/app:1", "m"));
}

#[test]
fn drive_paths_are_read_as_the_platform_reads_them() {
    let native = |p: &str| -> Vec<String> {
        std::path::Path::new(p)
            .components()
            .map(|c| c.as_os_str().to_string_lossy().into_owned())
            .collect()
    };
    let (root, dir) = ("C:\\repo", "C:\\repo\\pkg");
    let below = native(dir).len() > native(root).len();
    let key = if below { "pkg" } else { "../C:/repo/pkg" };
    assert_eq!(workspace_member_key(root, dir), key);
    assert_eq!(workspace_importer_path(root, dir), Some(key.to_string()));
    let sibling = if below { "C:\\sibling" } else { "sibling" };
    assert_eq!(importer_project_dir(root, "../sibling"), sibling);
    assert!(!is_inside("D:\\store", root, "node_modules"));
}

fn dep(path: &str, dep_type: DepType) -> DirectDep {
    DirectDep {
        dep_path: path.to_string(),
        dep_type,
    }
}

fn locked(deps: &[(&str, &str)]) -> LockedPackage {
    LockedPackage {
        dependencies: texts(deps),
    }
}

fn graph() -> LockfileGraph {
    let mut importers = TextMap::new();
    importers.insert(
        ".".to_string(),
        vec![
            dep("a@1.0.0", DepType::Production),
            dep("d@1.0.0", DepType::Dev),
            dep("o@1.0.0", DepType::Optional),
            dep("gone@1.0.0", DepType::Production),
        ],
    );
    importers.insert("packages/x".to_string(), vec![dep("x@1.0.0", DepType::Production)]);
    importers.insert("packages/y".to_string(), vec![dep("y@1.0.0", DepType::Production)]);
    let mut packages = TextMap::new();
    packages.insert("a@1.0.0".to_string(), locked(&[("b", "2.0.0"), ("missing", "1.0.0")]));
    packages.insert("b@2.0.0".to_string(), locked(&[("a", "1.0.0")]));
    packages.insert("d@1.0.0".to_string(), locked(&[("b", "2.0.0")]));
    packages.insert("o@1.0.0".to_string(), locked(&[]));
    packages.insert("x@1.0.0".to_string(), locked(&[("b", "2.0.0")]));
    packages.insert("y@1.0.0".to_string(), locked(&[]));
    packages.insert("unused@1.0.0".to_string(), locked(&[]));
    LockfileGraph { importers, packages }
}

#[test]
fn the_closure_of_the_root_dependencies() {
    let g = graph();
    let closure = |f: DepFilter, no_optional: bool| keys(&collect_dep_closure(&g, f, no_optional));
    assert_eq!(closure(DepFilter::All, false), ["a@1.0.0", "b@2.0.0", "d@1.0.0", "o@1.0.0"]);
    assert_eq!(closure(DepFilter::All, true), ["a@1.0.0", "b@2.0.0", "d@1.0.0"]);
    assert_eq!(closure(DepFilter::ProdOnly, false), ["a@1.0.0", "b@2.0.0", "o@1.0.0"]);
    assert_eq!(closure(DepFilter::DevOnly, false), ["a@1.0.0", "b@2.0.0", "d@1.0.0"]);
    assert!(g.root_deps().is_some());
    assert!(g.get_package("unused@1.0.0").is_some());
    assert!(g.get_package("missing@1.0.0").is_none());
}

#[test]
fn a_graph_is_narrowed_to_a_selection() {
    let mut g = graph();
    assert_eq!(
        filter_graph_to_workspace_selection("/repo", &Vec::new(), &mut g),
        Err(SelectionError::NothingMatched)
    );
    assert_eq!(
        filter_graph_to_workspace_selection("/repo", &vec!["relative".to_string()], &mut g),
        Err(SelectionError::NoPath(0))
    );
    let dirs = ["/repo/a", "relative", "other"].map(str::to_string).to_vec();
    assert_eq!(
        filter_graph_to_workspace_selection("/repo", &dirs, &mut g),
        Err(SelectionError::NoPath(1))
    );
    assert_eq!(g.packages.len(), 7);
    assert_eq!(
        filter_graph_to_workspace_selection("/repo", &vec!["/repo/packages/x".to_string()], &mut g),
        Ok(())
    );
    assert_eq!(keys(&g.importers), [".", "packages/x"]);
    assert_eq!(
        keys(&g.packages),
        ["a@1.0.0", "b@2.0.0", "d@1.0.0", "o@1.0.0", "x@1.0.0"]
    );
    let mut g = graph();
    filter_graph_to_importers(&mut g, &vec!["packages/y".to_string()]);
    assert_eq!(keys(&g.importers), ["packages/y"]);
    assert_eq!(keys(&g.packages), ["y@1.0.0"]);
    let mut g = graph();
    keep_selected_importers(&mut g, vec!["packages/y".to_string()]);
    assert_eq!(keys(&g.importers), [".", "packages/y"]);
}

#[test]
fn an_importers_part_of_the_graph() {
    let g = graph();
    let sub = g.subset_to_importer("packages/x").unwrap();
    assert_eq!(keys(&sub.importers), ["."]);
    assert_eq!(sub.importers.get(".").unwrap()[0].dep_path, "x@1.0.0");
    assert_eq!(keys(&sub.packages), ["a@1.0.0", "b@2.0.0", "x@1.0.0"]);
    assert_eq!(sub.get_package("x@1.0.0").unwrap().dependencies.get("b").unwrap(), "2.0.0");
    assert!(g.subset_to_importer("packages/z").is_none());
    let mut g = graph();
    g.prune();
    assert_eq!(g.packages.len(), 6);
    assert!(g.get_package("unused@1.0.0").is_none());
}

fn catalogs(cats: &[(&str, &[(&str, &str)])]) -> CatalogMap {
    let mut m = TextMap::new();
    for (name, entries) in cats {
        m.insert(name.to_string(), texts(entries));
    }
    m
}

#[test]
fn later_catalog_sources_win() {
    let root = PackageJson {
        workspaces: Some(Workspaces {
            catalog: texts(&[("react", "17"), ("only-root", "1")]),
            catalogs: catalogs(&[("legacy", &[("react", "16")]), ("empty", &[])]),
        }),
        pnpm_catalog: texts(&[("react", "18")]),
        ..Default::default()
    };
    let found = discover_catalogs(&None, &Some(root), &texts(&[("react", "19")]), &TextMap::new());
    assert_eq!(keys(&found), ["default", "legacy"]);
    let default = found.get("default").unwrap();
    assert_eq!(default.get("react").unwrap(), "19");
    assert_eq!(default.get("only-root").unwrap(), "1");
    assert_eq!(found.get("legacy").unwrap().get("react").unwrap(), "16");
}

#[test]
fn catalogs_are_merged_entry_by_entry() {
    let mut out = TextMap::new();
    merge_catalog_source(&mut out, &texts(&[("a", "1")]), &catalogs(&[("n", &[("x", "1")])]));
    merge_catalog_source(&mut out, &texts(&[("b", "2")]), &catalogs(&[("n", &[("x", "2"), ("y", "3")])]));
    assert_eq!(out.get("default").unwrap().get("a").unwrap(), "1");
    assert_eq!(out.get("default").unwrap().get("b").unwrap(), "2");
    assert_eq!(out.get("n").unwrap().get("x").unwrap(), "2");
    let mut out = TextMap::new();
    merge_manifest_catalogs(&mut out, &PackageJson::default());
    assert!(out.is_empty());
}

#[test]
fn catalogs_are_looked_for_at_the_workspace_root() {
    let places = |root: Option<&str>, yaml: Option<&str>| {
        catalog_places("/w/a", root.map(str::to_string), yaml.map(str::to_string))
    };
    let p = places(Some("/w"), Some("/w"));
    assert_eq!((p.manifest_dir.as_deref(), p.yaml_dir.as_str()), (Some("/w"), "/w"));
    let p = places(Some("/w/a/"), None);
    assert_eq!((p.manifest_dir.as_deref(), p.yaml_dir.as_str()), (None, "/w/a"));
    let p = places(None, Some("/w"));
    assert_eq!((p.manifest_dir.as_deref(), p.yaml_dir.as_str()), (None, "/w"));
}

#[test]
fn messages_about_the_global_virtual_store() {
    let reset = reset_on_mode_change("/p", "/s", "node_modules", Some(true), false).unwrap();
    assert_eq!(
        reset.message(),
        "global virtual store enabled → disabled; removing /p/node_modules and reinstalling from scratch"
    );
    let said = incompatible_message("next");
    assert!(said.starts_with(
        "`next` isn't compatible with aube's global virtual store — installing per-project instead."
    ));
    assert!(said.contains("an upstream change in `next` itself"));
}

#[test]
fn lockfiles_are_written_where_the_projects_are() {
    assert_eq!(lockfile_dir_of("/w", "."), "/w");
    assert_eq!(lockfile_dir_of("/w", "packages/a"), "/w/packages/a");
    assert_eq!(lockfile_dir_of("/w", "../b"), "/w/../b");
}

#[test]
fn the_global_virtual_store_by_setting_and_environment() {
    let ci = vec![("CI".to_string(), String::new())];
    let none: Vec<(String, String)> = Vec::new();
    let next = || Some("next".to_string());
    let r = |e: Option<bool>, t: Option<String>, only: bool, env: &[(String, String)]| {
        resolve_global_virtual_store_override(e, t, only, env)
    };
    assert_eq!(r(Some(true), next(), false, &none), (Some(true), None));
    assert_eq!(r(None, next(), false, &none), (Some(false), next()));
    assert_eq!(r(None, next(), false, &ci), (None, None));
    assert_eq!(r(None, next(), true, &none), (None, None));
    assert_eq!(r(None, None, false, &none), (None, None));
    assert!(planned_global_virtual_store(None, &none));
    assert!(!planned_global_virtual_store(None, &ci));
    assert!(planned_global_virtual_store(Some(true), &ci));
    assert!(!planned_global_virtual_store(Some(false), &none));
}

#[test]
fn a_change_of_mode_starts_from_scratch() {
    let reset = reset_on_mode_change("/p", "/p/node_modules/.aube", "node_modules", Some(true), false).unwrap();
    assert_eq!(reset.modules_dir, "/p/node_modules");
    assert_eq!(reset.store_dir, None);
    assert!(reset.was_enabled);
    let reset = reset_on_mode_change("/p", "/store", "node_modules", Some(false), true).unwrap();
    assert_eq!(reset.store_dir.as_deref(), Some("/store"));
    assert!(!reset.was_enabled);
    assert!(reset_on_mode_change("/p", "/s", "node_modules", None, true).is_none());
    assert!(reset_on_mode_change("/p", "/s", "node_modules", Some(true), true).is_none());
    assert!(remove_dir_all_if_exists(Removal::Done));
    assert!(remove_dir_all_if_exists(Removal::NotFound));
    assert!(!remove_dir_all_if_exists(Removal::Failed));
}

#[test]
fn blank_script_settings_are_none() {
    assert_eq!(non_empty_string("  x y ".to_string()).as_deref(), Some("x y"));
    assert_eq!(non_empty_string(" \t\n".to_string()), None);
    let s = configure_script_settings(Some(" --max-old ".to_string()), Some("  ".to_string()), Some(true), false);
    assert_eq!(s.node_options.as_deref(), Some("--max-old"));
    assert_eq!(s.script_shell, None);
    assert_eq!(s.unsafe_perm, Some(true));
    assert!(!s.shell_emulator);
}
