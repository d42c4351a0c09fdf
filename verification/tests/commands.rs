use aube::commands::{
    find_workspace_root, finish_filtered_workspace, format_virtual_store_display_prefix,
    load_graph, load_manifest_or_default, remove_existing, remove_next, retarget_cwd,
    select_workspace_packages, set_skip_auto_install_on_package_manager_mismatch,
    skip_auto_install_on_package_manager_mismatch, virtual_store_prefix, workspace_root_or,
    wrote_message, Entry, FilterRefusal, LoadError, LockfileRead, RemoveAction, RemoveStage,
    SessionFlags,
};
use aube::lockfile::{DepFilter, DepType, LockfileGraph};
use aube::manifest::PackageJson;
use aube::text_map::TextMap;

#[test]
fn all_keeps_everything() {
    let f = DepFilter::from_flags(false, false);
    assert!(f.keeps(DepType::Production));
    assert!(f.keeps(DepType::Dev));
    assert!(f.keeps(DepType::Optional));
}

#[test]
fn prod_keeps_production_and_optional() {
    let f = DepFilter::from_flags(true, false);
    assert!(f.keeps(DepType::Production));
    assert!(f.keeps(DepType::Optional));
    assert!(!f.keeps(DepType::Dev));
}

#[test]
fn dev_keeps_only_dev() {
    let f = DepFilter::from_flags(false, true);
    assert!(f.keeps(DepType::Dev));
    assert!(!f.keeps(DepType::Production));
    assert!(!f.keeps(DepType::Optional));
}

#[test]
fn prod_wins_over_dev_when_both_set() {
    let f = DepFilter::from_flags(true, true);
    assert!(f.keeps(DepType::Production));
    assert!(!f.keeps(DepType::Dev));
}

#[test]
fn package_manager_mismatch_skip_auto_install_defaults_off() {
    assert!(!skip_auto_install_on_package_manager_mismatch(
        &SessionFlags::default()
    ));
}

#[test]
fn package_manager_mismatch_flag_is_kept() {
    let mut flags = SessionFlags::default();
    set_skip_auto_install_on_package_manager_mismatch(&mut flags, true);
    assert!(skip_auto_install_on_package_manager_mismatch(&flags));
    set_skip_auto_install_on_package_manager_mismatch(&mut flags, false);
    assert!(!skip_auto_install_on_package_manager_mismatch(&flags));
}

#[test]
fn removes_a_symlink_pointing_at_a_populated_directory_without_touching_target() {
    // A link is removed as what it is, and never as a tree.
    assert_eq!(
        remove_existing(Entry::Link),
        RemoveStage::Try(RemoveAction::File)
    );
    assert_eq!(
        remove_next(Entry::Link, RemoveAction::File, true),
        RemoveStage::Removed
    );
    assert_eq!(
        remove_next(Entry::Link, RemoveAction::File, false),
        RemoveStage::Try(RemoveAction::EmptyDir)
    );
    assert_eq!(
        remove_next(Entry::Link, RemoveAction::EmptyDir, true),
        RemoveStage::Removed
    );
    assert_eq!(
        remove_next(Entry::Link, RemoveAction::EmptyDir, false),
        RemoveStage::Failed
    );
}

#[test]
fn missing_path_is_a_noop() {
    assert_eq!(remove_existing(Entry::Missing), RemoveStage::Removed);
}

#[test]
fn directories_and_files_are_removed_in_one_attempt() {
    assert_eq!(
        remove_existing(Entry::Dir),
        RemoveStage::Try(RemoveAction::Tree)
    );
    assert_eq!(
        remove_next(Entry::Dir, RemoveAction::Tree, false),
        RemoveStage::Failed
    );
    assert_eq!(
        remove_existing(Entry::File),
        RemoveStage::Try(RemoveAction::File)
    );
    assert_eq!(
        remove_next(Entry::File, RemoveAction::File, false),
        RemoveStage::Failed
    );
}

#[test]
fn relative_targets_count_from_the_current_directory() {
    assert_eq!(retarget_cwd("/work/repo", "packages/app"), "/work/repo/packages/app");
    assert_eq!(retarget_cwd("/work/repo", "/elsewhere"), "/elsewhere");
    let native = std::path::Path::new("C:\\work").join("D:\\repo");
    assert_eq!(retarget_cwd("C:\\work", "D:\\repo"), native.to_string_lossy());
}

#[test]
fn errors_of_the_work_come_before_errors_of_going_back() {
    assert_eq!(finish_filtered_workspace::<u8>(Ok(()), Ok(())), Ok(()));
    assert_eq!(finish_filtered_workspace::<u8>(Err(1), Ok(())), Err(1));
    assert_eq!(finish_filtered_workspace::<u8>(Ok(()), Err(2)), Err(2));
    assert_eq!(finish_filtered_workspace::<u8>(Err(1), Err(2)), Err(1));
}

#[test]
fn virtual_store_below_is_shown_relative() {
    assert_eq!(
        format_virtual_store_display_prefix("/work/app/node_modules/.aube", "/work/app"),
        "./node_modules/.aube/"
    );
}

#[test]
fn virtual_store_elsewhere_is_shown_by_its_path() {
    assert_eq!(
        format_virtual_store_display_prefix("/home/me/.my-store/project", "/work/app"),
        "/home/me/.my-store/project/"
    );
    assert_eq!(
        format_virtual_store_display_prefix("/work/.vstore-out", "/work/app"),
        "/work/.vstore-out/"
    );
    assert_eq!(
        format_virtual_store_display_prefix("/work/app", "/work/app"),
        "/work/app/"
    );
}

#[test]
fn virtual_store_is_shown_by_the_way_to_it() {
    assert_eq!(virtual_store_prefix(None, false, "store"), "store/");
    assert_eq!(virtual_store_prefix(Some(String::new()), false, "store"), "store/");
    assert_eq!(virtual_store_prefix(Some("a/../b".to_string()), true, "/x"), "/x/");
    assert_eq!(virtual_store_prefix(Some("a\\b".to_string()), false, "/x"), "./a\\b/");
    let shown = |dir: &str| format_virtual_store_display_prefix(dir, "/w");
    assert_eq!(shown("/w/a..b/c"), "./a..b/c/");
    assert_eq!(shown("/w/a/../b"), "/w/a/../b/");
    assert_eq!(format_virtual_store_display_prefix("./a", "b"), "./a/");
    assert_eq!(shown("elsewhere"), "elsewhere/");
    assert_eq!(format_virtual_store_display_prefix("/w/x:1/s", "/w/x:1"), "./s/");
}

#[test]
fn a_missing_workspace_root_is_explained() {
    assert_eq!(
        find_workspace_root(Some("/work".to_string()), "/work/app"),
        Ok("/work".to_string())
    );
    assert_eq!(
        find_workspace_root(None, "/work/app"),
        Err("no workspace root (aube-workspace.yaml, pnpm-workspace.yaml, or package.json with a `workspaces` field) found above /work/app".to_string())
    );
    assert_eq!(workspace_root_or(None, "/work"), "/work");
    assert_eq!(workspace_root_or(Some("/".to_string()), "/work"), "/");
}

#[test]
fn filters_that_select_nothing_are_explained() {
    assert_eq!(select_workspace_packages(3, 1), Ok(()));
    assert_eq!(
        select_workspace_packages(0, 0),
        Err(FilterRefusal::NoWorkspace)
    );
    assert_eq!(select_workspace_packages(3, 0), Err(FilterRefusal::NoMatch));
    assert_eq!(
        FilterRefusal::NoWorkspace.message("add", "/work", "x"),
        "aube add: --filter requires a workspace root (aube-workspace.yaml, pnpm-workspace.yaml, or package.json with a `workspaces` field) at or above /work"
    );
    assert_eq!(
        FilterRefusal::NoMatch.message("add", "/work", "[\"x\"]"),
        "aube add: filter [\"x\"] did not match any workspace package"
    );
}

#[test]
fn a_missing_lockfile_gives_the_hint() {
    match load_graph(LockfileRead::NotFound, "run `aube install` first") {
        Err(LoadError::Missing(hint)) => assert_eq!(hint, "run `aube install` first"),
        other => panic!("unexpected {other:?}"),
    }
    assert!(matches!(
        load_graph(LockfileRead::Failed, "x"),
        Err(LoadError::Unreadable)
    ));
    let graph = LockfileGraph {
        importers: TextMap::new(),
        packages: TextMap::new(),
    };
    assert!(load_graph(LockfileRead::Graph(graph), "x").is_ok());
}

#[test]
fn a_root_without_manifest_has_the_empty_one() {
    let none: Option<Result<PackageJson, u8>> = None;
    let m = load_manifest_or_default(none).unwrap();
    assert!(m.name.is_none());
    assert!(m.dependencies.is_empty());
    assert_eq!(load_manifest_or_default(Some(Err(7u8))).err(), Some(7));
}

#[test]
fn a_written_lockfile_is_named() {
    assert_eq!(
        wrote_message(Some("aube-lock.yaml".to_string()), "/w/aube-lock.yaml"),
        "Wrote aube-lock.yaml"
    );
    assert_eq!(wrote_message(None, "/"), "Wrote /");
}
