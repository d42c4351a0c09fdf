use aube::add::{
    advisory_policy, is_catalog_spec, is_workspace_spec, lockfile_path_for_project,
    parse_allow_build_value, parse_deny_build_value, registry_bound_names_for_supply_chain,
    reject_conflicting_build_flags, run, save_catalog_target, AddArgs, AddError, AdvisoryCheck,
    PackageSpec, Route,
};
use aube::add_filtered::{FilteredEnd, FilteredStage, FilteredState, FilteredWork};
use aube::add_project::{AddEnd, AddEvent, AddFlags, AddStage, AddState, AddWork};
use aube::config::NpmConfig;
use aube::no_save::{
    is_away, lockfile_restore, manifest_noun, manifest_restore, restored_members_message, restored_members_text,
    restored_project_message, FileRead, Removal, Restore,
};
use aube::text_map::TextMap;
use aube::workspace_install::LockfileKind;

fn args(packages: &[&str]) -> AddArgs {
    AddArgs {
        packages: strings(packages),
        save_dev: false,
        save_exact: false,
        global: false,
        save_optional: false,
        allow_build: Vec::new(),
        allow_low_downloads: false,
        deny_build: Vec::new(),
        ignore_scripts: false,
        no_save: false,
        no_save_workspace_protocol: false,
        save_catalog: false,
        save_catalog_name: None,
        save_peer: false,
        save_workspace_protocol: false,
        workspace: false,
        ignore_workspace_root_check: false,
    }
}

fn strings(v: &[&str]) -> Vec<String> {
    v.iter().map(|s| s.to_string()).collect()
}

#[test]
fn build_flags_want_a_name() {
    assert_eq!(parse_allow_build_value("esbuild"), Ok("esbuild".to_string()));
    assert_eq!(
        parse_allow_build_value(""),
        Err("The --allow-build flag is missing a package name. Please specify the package name(s) that are allowed to run installation scripts.".to_string())
    );
    assert_eq!(parse_deny_build_value("esbuild"), Ok("esbuild".to_string()));
    assert_eq!(
        parse_deny_build_value(""),
        Err("The --deny-build flag is missing a package name. Please specify the package name(s) that are denied from running installation scripts.".to_string())
    );
}

#[test]
fn build_flags_may_not_contradict_each_other() {
    assert!(reject_conflicting_build_flags(&strings(&["a"]), &strings(&["b"])).is_ok());
    assert!(reject_conflicting_build_flags(&Vec::new(), &strings(&["b"])).is_ok());
    let e = reject_conflicting_build_flags(
        &strings(&["z", "a", "z", "only-allowed"]),
        &strings(&["a", "z", "only-denied"]),
    )
    .unwrap_err();
    assert_eq!(e.packages, ["a", "z"]);
    assert_eq!(
        e.message(),
        "--allow-build and --deny-build both name the same package(s): a, z. Each package may only appear in one flag."
    );
}

#[test]
fn ways_of_adding() {
    assert_eq!(run(&args(&["x"]), true).unwrap(), Route::Project);
    assert_eq!(run(&args(&["x"]), false).unwrap(), Route::Filtered);
    let mut a = args(&["x"]);
    a.global = true;
    assert_eq!(run(&a, false).unwrap(), Route::Global);
    let mut a = args(&["x"]);
    a.workspace = true;
    assert_eq!(run(&a, false).unwrap(), Route::Project);
    assert!(matches!(run(&args(&[]), true), Err(AddError::NoPackages)));
    assert!(matches!(run(&args(&[]), false), Err(AddError::NoPackages)));
    let mut a = args(&["x"]);
    a.allow_build = strings(&["b"]);
    a.deny_build = strings(&["b"]);
    assert!(matches!(run(&a, true), Err(AddError::Conflicting(e)) if e.packages == ["b"]));
}

fn spec(name: &str, range: &str) -> PackageSpec {
    PackageSpec {
        name: name.to_string(),
        range: range.to_string(),
        git: false,
        local: false,
        jsr: false,
    }
}

#[test]
fn gates_look_at_public_packages_only() {
    let mut config = NpmConfig {
        registry: "https://registry.npmjs.org/".to_string(),
        scoped_registries: TextMap::new(),
        auth_by_uri: TextMap::new(),
        global_auth_token: None,
        https_proxy: None,
        http_proxy: None,
        npmrc_proxy: None,
        no_proxy: None,
        strict_ssl: true,
        local_address: None,
        max_sockets: None,
        cafile: None,
        ca: Vec::new(),
    };
    config.set_scoped_registry("@corp".to_string(), "https://corp.example/");
    let mut workspace = TextMap::new();
    workspace.insert("sibling".to_string(), "1.0.0".to_string());
    let packages = vec![
        Some(spec("zod", "^3")),
        None,
        Some(spec("lodash", "latest")),
        Some(spec("zod", "^4")),
        Some(spec("sibling", "*")),
        Some(spec("@corp/secret", "*")),
        Some(spec("@scope/public", "*")),
        Some(spec("w", "workspace:^")),
        Some(spec("c", "catalog:")),
        Some(PackageSpec { git: true, ..spec("g", "x") }),
        Some(PackageSpec { local: true, ..spec("l", "x") }),
        Some(PackageSpec { jsr: true, ..spec("j", "x") }),
    ];
    assert_eq!(
        registry_bound_names_for_supply_chain(&packages, &workspace, &config),
        ["@scope/public", "lodash", "zod"]
    );
    config.registry = "https://corp.example/".to_string();
    assert!(registry_bound_names_for_supply_chain(&packages, &workspace, &config).is_empty());
    assert!(is_workspace_spec("workspace:*") && !is_workspace_spec("^1"));
    assert!(is_catalog_spec("catalog:react") && !is_catalog_spec("catalogue"));
}

#[test]
fn lockfiles_by_format() {
    let p = |kind: Option<LockfileKind>| {
        lockfile_path_for_project("/p", kind, "aube-lock.main.yaml", "pnpm-lock.main.yaml")
    };
    assert_eq!(p(None), "/p/aube-lock.main.yaml");
    assert_eq!(p(Some(LockfileKind::Aube)), "/p/aube-lock.main.yaml");
    assert_eq!(p(Some(LockfileKind::Pnpm)), "/p/pnpm-lock.main.yaml");
    assert_eq!(p(Some(LockfileKind::Npm)), "/p/package-lock.json");
    assert_eq!(p(Some(LockfileKind::NpmShrinkwrap)), "/p/npm-shrinkwrap.json");
    assert_eq!(p(Some(LockfileKind::Yarn)), "/p/yarn.lock");
    assert_eq!(p(Some(LockfileKind::Bun)), "/p/bun.lock");
}

#[test]
fn settings_of_an_addition() {
    assert_eq!(advisory_policy(true, AdvisoryCheck::Off), AdvisoryCheck::Required);
    assert_eq!(advisory_policy(false, AdvisoryCheck::On), AdvisoryCheck::On);
    assert_eq!(
        save_catalog_target(Some("react18".to_string()), true).as_deref(),
        Some("react18")
    );
    assert_eq!(save_catalog_target(None, true).as_deref(), Some("default"));
    assert_eq!(save_catalog_target(None, false), None);
}

fn works(f: AddFlags, events: &[(AddWork, AddEvent)]) -> (Vec<AddWork>, Option<AddEnd>) {
    let (seen, end, _) = works_and_says(f, events);
    (seen, end)
}

fn works_and_says(
    f: AddFlags,
    events: &[(AddWork, AddEvent)],
) -> (Vec<AddWork>, Option<AddEnd>, bool) {
    let mut state = AddState::new(f);
    let mut seen = Vec::new();
    for _ in 0..20 {
        match state.stage {
            AddStage::End(end) => return (seen, Some(end), state.restored),
            AddStage::Doing(work) => {
                seen.push(work);
                let event = events
                    .iter()
                    .find(|(w, _)| *w == work)
                    .map(|(_, e)| *e)
                    .unwrap_or(AddEvent::Done);
                state.step(f, event);
            }
        }
    }
    (seen, None, false)
}

const PLAIN: AddFlags = AddFlags {
    workspace: false,
    ignore_workspace_root_check: false,
    no_save: false,
    allows: false,
    denies: false,
};

#[test]
fn an_addition_step_by_step() {
    let (seen, end, restored) = works_and_says(PLAIN, &[]);
    assert!(!restored);
    assert_eq!(
        seen,
        [
            AddWork::EnsureManifest,
            AddWork::InspectRoot,
            AddWork::Lock,
            AddWork::Gates,
            AddWork::UpdateManifest,
            AddWork::Install
        ]
    );
    assert_eq!(end, Some(AddEnd::Added));
    let all = AddFlags {
        workspace: true,
        ignore_workspace_root_check: false,
        no_save: true,
        allows: true,
        denies: true,
    };
    let (seen, end, restored) = works_and_says(all, &[]);
    assert!(restored);
    assert_eq!(
        seen,
        [
            AddWork::EnterRoot,
            AddWork::EnsureManifest,
            AddWork::Lock,
            AddWork::Remember,
            AddWork::AllowBuilds,
            AddWork::DenyBuilds,
            AddWork::Gates,
            AddWork::UpdateManifest,
            AddWork::Install,
            AddWork::RestoreManifest,
            AddWork::RestoreLockfile
        ]
    );
    assert_eq!(end, Some(AddEnd::Added));
    let mut a = args(&["x"]);
    a.deny_build = strings(&["y"]);
    assert_eq!(AddFlags::of(&a), AddFlags { denies: true, ..PLAIN });
}

#[test]
fn workspace_roots_are_refused() {
    for (file, manifest) in [(true, false), (false, true), (true, true)] {
        let root = AddEvent::Root {
            file_lists_packages: file,
            manifest_lists_workspaces: manifest,
        };
        let (_, end) = works(PLAIN, &[(AddWork::InspectRoot, root)]);
        assert_eq!(end, Some(AddEnd::RefusedRoot));
    }
    let plain = AddEvent::Root {
        file_lists_packages: false,
        manifest_lists_workspaces: false,
    };
    let (seen, _) = works(PLAIN, &[(AddWork::InspectRoot, plain)]);
    assert!(seen.contains(&AddWork::Install));
    let (seen, _) = works(
        AddFlags {
            ignore_workspace_root_check: true,
            ..PLAIN
        },
        &[],
    );
    assert!(!seen.contains(&AddWork::InspectRoot));
}

#[test]
fn a_refusal_of_the_gates_leaves_the_manifest() {
    let (seen, end) = works(PLAIN, &[(AddWork::Gates, AddEvent::Failed)]);
    assert!(!seen.contains(&AddWork::UpdateManifest));
    assert_eq!(end, Some(AddEnd::Failed(AddWork::Gates)));
}

#[test]
fn no_save_puts_things_back_after_a_failed_install() {
    let f = AddFlags { no_save: true, ..PLAIN };
    let failed = |w: AddWork| (w, AddEvent::Failed);
    let (seen, end) = works(
        f,
        &[
            failed(AddWork::Install),
            failed(AddWork::RestoreManifest),
            failed(AddWork::RestoreLockfile),
        ],
    );
    assert_eq!(
        seen[seen.len() - 3..],
        [AddWork::Install, AddWork::RestoreManifest, AddWork::RestoreLockfile]
    );
    assert_eq!(end, Some(AddEnd::Failed(AddWork::Install)));
    let (_, end) = works(f, &[failed(AddWork::RestoreManifest), failed(AddWork::RestoreLockfile)]);
    assert_eq!(end, Some(AddEnd::Failed(AddWork::RestoreManifest)));
    let (_, end, restored) = works_and_says(f, &[failed(AddWork::RestoreLockfile)]);
    assert_eq!(end, Some(AddEnd::Failed(AddWork::RestoreLockfile)));
    assert!(!restored);
    let (_, end, restored) = works_and_says(f, &[failed(AddWork::Install)]);
    assert_eq!(end, Some(AddEnd::Failed(AddWork::Install)));
    assert!(restored);
}

fn filtered(f: AddFlags, members: usize, fail: &[FilteredWork]) -> (Vec<FilteredWork>, Option<FilteredEnd>) {
    let (seen, end, _) = filtered_and_says(f, members, fail);
    (seen, end)
}

fn filtered_and_says(
    f: AddFlags,
    members: usize,
    fail: &[FilteredWork],
) -> (Vec<FilteredWork>, Option<FilteredEnd>, Option<usize>) {
    let mut state = FilteredState::new();
    let mut seen = Vec::new();
    for _ in 0..40 {
        match state.stage {
            FilteredStage::End(end) => return (seen, Some(end), state.restored),
            FilteredStage::Doing(work) => {
                seen.push(work);
                state.step(f, members, !fail.contains(&work));
            }
        }
    }
    (seen, None, None)
}

#[test]
fn a_filtered_addition_step_by_step() {
    let (seen, end) = filtered(PLAIN, 2, &[]);
    assert_eq!(
        seen,
        [
            FilteredWork::Lock,
            FilteredWork::Gates,
            FilteredWork::UpdateManifest(0),
            FilteredWork::UpdateManifest(1),
            FilteredWork::Install
        ]
    );
    assert_eq!(end, Some(FilteredEnd::Added));
    let f = AddFlags { no_save: true, allows: true, denies: true, ..PLAIN };
    let (seen, end, restored) = filtered_and_says(f, 2, &[]);
    assert_eq!(restored, Some(2));
    assert_eq!(
        seen,
        [
            FilteredWork::Lock,
            FilteredWork::AllowBuilds,
            FilteredWork::DenyBuilds,
            FilteredWork::Gates,
            FilteredWork::RememberLockfile,
            FilteredWork::RememberManifest(0),
            FilteredWork::UpdateManifest(0),
            FilteredWork::RememberManifest(1),
            FilteredWork::UpdateManifest(1),
            FilteredWork::Install,
            FilteredWork::RestoreManifest(0),
            FilteredWork::RestoreManifest(1),
            FilteredWork::RestoreLockfile
        ]
    );
    assert_eq!(end, Some(FilteredEnd::Added));
}

#[test]
fn a_failed_member_is_put_back_with_those_before_it() {
    let f = AddFlags { no_save: true, ..PLAIN };
    let (seen, end, restored) = filtered_and_says(f, 3, &[FilteredWork::UpdateManifest(1)]);
    assert_eq!(restored, Some(2));
    assert_eq!(
        seen[seen.len() - 4..],
        [
            FilteredWork::UpdateManifest(1),
            FilteredWork::RestoreManifest(0),
            FilteredWork::RestoreManifest(1),
            FilteredWork::RestoreLockfile
        ]
    );
    assert_eq!(end, Some(FilteredEnd::Failed(FilteredWork::UpdateManifest(1))));
    let (seen, end) = filtered(f, 3, &[FilteredWork::RememberManifest(0)]);
    assert_eq!(seen.last(), Some(&FilteredWork::RestoreLockfile));
    assert_eq!(end, Some(FilteredEnd::Failed(FilteredWork::RememberManifest(0))));
    let (_, end, restored) = filtered_and_says(
        f,
        2,
        &[FilteredWork::RestoreManifest(1), FilteredWork::RestoreLockfile],
    );
    assert_eq!(restored, None);
    assert_eq!(end, Some(FilteredEnd::Failed(FilteredWork::RestoreManifest(1))));
    let (seen, end) = filtered(PLAIN, 2, &[FilteredWork::Install]);
    assert_eq!(seen.last(), Some(&FilteredWork::Install));
    assert_eq!(end, Some(FilteredEnd::Failed(FilteredWork::Install)));
    let (_, end) = filtered(PLAIN, 2, &[FilteredWork::Gates]);
    assert_eq!(end, Some(FilteredEnd::Failed(FilteredWork::Gates)));
}

#[test]
fn files_are_put_back_as_they_were() {
    assert!(matches!(lockfile_restore(FileRead::Bytes(vec![1, 2])), Some(Restore::Write(b)) if b == [1, 2]));
    assert!(matches!(lockfile_restore(FileRead::Missing), Some(Restore::Delete)));
    assert!(lockfile_restore(FileRead::Failed).is_none());
    assert!(matches!(manifest_restore(FileRead::Bytes(vec![3])), Some(Restore::Write(b)) if b == [3]));
    assert!(manifest_restore(FileRead::Missing).is_none());
    assert!(manifest_restore(FileRead::Failed).is_none());
    assert!(is_away(Removal::Removed) && is_away(Removal::Missing) && !is_away(Removal::Failed));
}

#[test]
fn what_was_put_back_is_said() {
    assert_eq!(
        restored_project_message(),
        "Restored package.json and lockfile (--no-save)"
    );
    assert_eq!(
        restored_members_text("1 thing"),
        "Restored 1 thing and lockfile (--no-save)"
    );
    assert_eq!(manifest_noun(), "package.json file");
    assert_eq!(
        restored_members_message(1),
        "Restored 1 package.json file and lockfile (--no-save)"
    );
    assert_eq!(
        restored_members_message(3),
        "Restored 3 package.json files and lockfile (--no-save)"
    );
}
