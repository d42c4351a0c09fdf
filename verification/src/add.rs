//! `aube add`: what its flags mean, which way it goes, and which names the supply-chain gates
//! look at.

use crate::config;
use crate::config::NpmConfig;
use crate::paths;
use crate::text;
use crate::text_map;
use crate::text_map::TextMap;
use crate::workspace_install::LockfileKind;
use vstd::prelude::*;

verus! {

/// The arguments of `aube add`.
#[derive(Debug)]
pub struct AddArgs {
    /// The packages to add.
    pub packages: Vec<String>,
    /// Add as dev dependency.
    pub save_dev: bool,
    /// Pin the exact resolved version.
    pub save_exact: bool,
    /// Install globally.
    pub global: bool,
    /// Add as optional dependency.
    pub save_optional: bool,
    /// Packages whose lifecycle scripts are approved.
    pub allow_build: Vec<String>,
    /// Do not ask about packages that few people use.
    pub allow_low_downloads: bool,
    /// Packages whose lifecycle scripts are denied.
    pub deny_build: Vec<String>,
    /// Accepted for compatibility.
    pub ignore_scripts: bool,
    /// Leave `package.json` and the lockfile as they are.
    pub no_save: bool,
    /// Write a registry spec even for a package of the workspace.
    pub no_save_workspace_protocol: bool,
    /// Save to the default catalog.
    pub save_catalog: bool,
    /// Save to this catalog.
    pub save_catalog_name: Option<String>,
    /// Add as peer dependency.
    pub save_peer: bool,
    /// Write a `workspace:` spec.
    pub save_workspace_protocol: bool,
    /// Add to the workspace root.
    pub workspace: bool,
    /// Allow adding to a workspace root.
    pub ignore_workspace_root_check: bool,
}

/// What is said when `--allow-build=` names no package.
pub const ALLOW_BUILD_MISSING: &'static str = "The --allow-build flag is missing a package name. Please specify the package name(s) that are allowed to run installation scripts.";

/// What is said when `--deny-build=` names no package.
pub const DENY_BUILD_MISSING: &'static str = "The --deny-build flag is missing a package name. Please specify the package name(s) that are denied from running installation scripts.";

/// The value of `--allow-build=`: a package name, which must not be empty.
pub fn parse_allow_build_value(s: &str) -> (r: Result<String, String>)
    ensures
        match r {
            Ok(name) => s@.len() > 0 && name@ == s@,
            Err(message) => s@.len() == 0 && message@ == ALLOW_BUILD_MISSING@,
        },
{
    if text::to_chars(s).len() == 0 {
        Err(ALLOW_BUILD_MISSING.to_owned())
    } else {
        Ok(s.to_owned())
    }
}

/// The value of `--deny-build=`: a package name, which must not be empty.
pub fn parse_deny_build_value(s: &str) -> (r: Result<String, String>)
    ensures
        match r {
            Ok(name) => s@.len() > 0 && name@ == s@,
            Err(message) => s@.len() == 0 && message@ == DENY_BUILD_MISSING@,
        },
{
    if text::to_chars(s).len() == 0 {
        Err(DENY_BUILD_MISSING.to_owned())
    } else {
        Ok(s.to_owned())
    }
}

/// The names that two lists have in common, ascending and without repetition.
fn overlap(a: &Vec<String>, b: &Vec<String>) -> (r: Vec<String>)
    ensures
        text_map::ascending_texts(r@),
        text_map::text_set(r@) == text_map::text_set(a@).intersect(text_map::text_set(b@)),
{
    let mut common: TextMap<bool> = TextMap::new();
    let mut i: usize = 0;
    while i < a.len()
        invariant
            i <= a@.len(),
            forall|k: Seq<char>| #[trigger]
                common@.contains_key(k) <==> text_map::text_set(a@.take(i as int)).contains(k)
                    && text_map::text_set(b@).contains(k),
        decreases a.len() - i,
    {
        proof {
            text_map::lemma_text_set_push(a@, i as int);
        }
        if text_map::lists_text(b, a[i].as_str()) {
            common.insert(a[i].clone(), true);
        }
        i = i + 1;
    }
    let r = common.keys();
    proof {
        assert(a@.take(i as int) == a@);
        assert(text_map::text_set(r@) =~= text_map::text_set(a@).intersect(
            text_map::text_set(b@),
        ));
    }
    r
}

/// Packages that are both approved and denied.
#[derive(Debug)]
pub struct ConflictingFlags {
    pub packages: Vec<String>,
}

/// What is said about packages that are both approved and denied.
pub open spec fn conflict_text(packages: Seq<Seq<char>>) -> Seq<char> {
    "--allow-build and --deny-build both name the same package(s): "@ + text::joined(
        packages,
        ", "@,
    ) + ". Each package may only appear in one flag."@
}

impl ConflictingFlags {
    /// The message for the user.
    pub fn message(&self) -> (r: String)
        ensures
            r@ == conflict_text(text::views(self.packages@)),
    {
        let list = text::join(&self.packages, 0, ", ");
        assert(text::views(self.packages@).skip(0) == text::views(self.packages@));
        let mut r = "--allow-build and --deny-build both name the same package(s): ".to_owned();
        r.append(list.as_str());
        r.append(". Each package may only appear in one flag.");
        r
    }
}

/// Refuses packages that are both approved and denied, and names them.
pub fn reject_conflicting_build_flags(allow_build: &Vec<String>, deny_build: &Vec<String>) -> (r:
    Result<(), ConflictingFlags>)
    ensures
        r is Ok <==> text_map::text_set(allow_build@).disjoint(text_map::text_set(deny_build@)),
        r matches Err(e) ==> text_map::ascending_texts(e.packages@) && text_map::text_set(e.packages@)
            == text_map::text_set(allow_build@).intersect(text_map::text_set(deny_build@)),
{
    let packages = overlap(allow_build, deny_build);
    let ghost a = text_map::text_set(allow_build@);
    let ghost b = text_map::text_set(deny_build@);
    if packages.len() == 0 {
        proof {
            assert forall|k: Seq<char>| a.contains(k) implies !b.contains(k) by {
                if b.contains(k) {
                    assert(a.intersect(b).contains(k));
                    assert(text_map::text_set(packages@).contains(k));
                }
            }
        }
        Ok(())
    } else {
        proof {
            let k = packages@[0]@;
            assert(text_map::text_set(packages@).contains(k));
            assert(a.intersect(b).contains(k));
        }
        Err(ConflictingFlags { packages })
    }
}

/// A package argument, parsed.
#[derive(Debug)]
pub struct PackageSpec {
    pub name: String,
    pub range: String,
    /// It names a git repository.
    pub git: bool,
    /// It names a local path or archive.
    pub local: bool,
    /// It names a package of JSR.
    pub jsr: bool,
}

/// Whether a package argument is resolved from a registry.
pub open spec fn from_registry(p: PackageSpec) -> bool {
    !p.git && !p.local && !p.jsr && !text::begins_with(p.range@, "workspace:"@)
        && !text::begins_with(p.range@, "catalog:"@)
}

/// Whether the supply-chain gates have something to say about a package argument: it comes
/// from the public registry, and not from the workspace.
pub open spec fn is_gated(
    p: Option<PackageSpec>,
    workspace: Map<Seq<char>, String>,
    c: config::ConfigModel,
) -> bool {
    p is Some && from_registry(p->0) && !workspace.contains_key(p->0.name@)
        && crate::registry_url::is_public(config::registry_of(c, p->0.name@))
}

/// Whether a spec refers to a package of the workspace.
pub fn is_workspace_spec(range: &str) -> (r: bool)
    ensures
        r == text::begins_with(range@, "workspace:"@),
{
    text::starts_with(range, "workspace:")
}

/// Whether a spec refers to a catalog.
pub fn is_catalog_spec(range: &str) -> (r: bool)
    ensures
        r == text::begins_with(range@, "catalog:"@),
{
    text::starts_with(range, "catalog:")
}

/// The names that the supply-chain gates look at, ascending and without repetition. Arguments
/// that could not be parsed are `None`; they are reported later.
pub fn registry_bound_names_for_supply_chain(
    packages: &Vec<Option<PackageSpec>>,
    workspace_versions: &TextMap<String>,
    npm_config: &NpmConfig,
) -> (r: Vec<String>)
    ensures
        text_map::ascending_texts(r@),
        forall|k: Seq<char>| #[trigger]
            text_map::text_set(r@).contains(k) <==> exists|i: int|
                0 <= i < packages@.len() && is_gated(
                    #[trigger] packages@[i],
                    workspace_versions@,
                    npm_config@,
                ) && packages@[i]->0.name@ == k,
{
    let mut names: TextMap<bool> = TextMap::new();
    let mut i: usize = 0;
    while i < packages.len()
        invariant
            i <= packages@.len(),
            forall|k: Seq<char>| #[trigger]
                names@.contains_key(k) <==> exists|j: int|
                    0 <= j < i && is_gated(
                        #[trigger] packages@[j],
                        workspace_versions@,
                        npm_config@,
                    ) && packages@[j]->0.name@ == k,
        decreases packages.len() - i,
    {
        let ghost before = names@;
        if let Some(spec) = &packages[i] {
            let outside = spec.git || spec.local || spec.jsr || is_workspace_spec(
                spec.range.as_str(),
            ) || is_catalog_spec(spec.range.as_str());
            if !outside && !workspace_versions.contains_key(spec.name.as_str())
                && npm_config.is_public_npmjs(spec.name.as_str()) {
                names.insert(spec.name.clone(), true);
            }
        }
        proof {
            assert forall|k: Seq<char>| #[trigger]
                names@.contains_key(k) <==> exists|j: int|
                    0 <= j < i + 1 && is_gated(
                        #[trigger] packages@[j],
                        workspace_versions@,
                        npm_config@,
                    ) && packages@[j]->0.name@ == k by {
                assert(before.contains_key(k) <==> exists|j: int|
                    0 <= j < i && is_gated(
                        #[trigger] packages@[j],
                        workspace_versions@,
                        npm_config@,
                    ) && packages@[j]->0.name@ == k);
                if names@.contains_key(k) && !before.contains_key(k) {
                    assert(is_gated(packages@[i as int], workspace_versions@, npm_config@));
                }
            }
        }
        i = i + 1;
    }
    let r = names.keys();
    assert forall|k: Seq<char>| #[trigger] text_map::text_set(r@).contains(k) <==> exists|i: int|
        0 <= i < packages@.len() && is_gated(
            #[trigger] packages@[i],
            workspace_versions@,
            npm_config@,
        ) && packages@[i]->0.name@ == k by {
        assert(names@.dom().contains(k) == names@.contains_key(k));
    }
    r
}

/// The file name of a lockfile in a format that has one name only.
pub open spec fn fixed_filename(kind: LockfileKind) -> Seq<char> {
    match kind {
        LockfileKind::Npm => "package-lock.json"@,
        LockfileKind::NpmShrinkwrap => "npm-shrinkwrap.json"@,
        LockfileKind::Yarn => "yarn.lock"@,
        LockfileKind::Bun => "bun.lock"@,
        LockfileKind::Aube => "aube-lock.yaml"@,
        LockfileKind::Pnpm => "pnpm-lock.yaml"@,
    }
}

/// The lockfile that an installation writes: in the format that is there, else in aube's
/// own. `aube_name` and `pnpm_name` are the file names that these two formats have in the
/// project.
pub fn lockfile_path_for_project(
    project_dir: &str,
    existing: Option<LockfileKind>,
    aube_name: &str,
    pnpm_name: &str,
) -> (r: String)
    ensures
        paths::joins(
            project_dir@,
            match existing {
                None => aube_name@,
                Some(LockfileKind::Aube) => aube_name@,
                Some(LockfileKind::Pnpm) => pnpm_name@,
                Some(other) => fixed_filename(other),
            },
            r@,
        ),
{
    let kind = match existing {
        Some(kind) => kind,
        None => LockfileKind::Aube,
    };
    let name: &str = match kind {
        LockfileKind::Aube => aube_name,
        LockfileKind::Pnpm => pnpm_name,
        LockfileKind::Npm => "package-lock.json",
        LockfileKind::NpmShrinkwrap => "npm-shrinkwrap.json",
        LockfileKind::Yarn => "yarn.lock",
        LockfileKind::Bun => "bun.lock",
    };
    paths::join(project_dir, name)
}

/// How strictly advisories are checked.
#[derive(Debug, Clone, Copy, PartialEq, Eq, Structural)]
pub enum AdvisoryCheck {
    Off,
    On,
    Required,
}

/// The strictness that counts: paranoid projects always require the check.
pub fn advisory_policy(paranoid: bool, configured: AdvisoryCheck) -> (r: AdvisoryCheck)
    ensures
        r == (if paranoid {
            AdvisoryCheck::Required
        } else {
            configured
        }),
{
    if paranoid {
        AdvisoryCheck::Required
    } else {
        configured
    }
}

/// The catalog that the dependency is saved to, if any: a named one, or the default one.
pub fn save_catalog_target(name: Option<String>, save_catalog: bool) -> (r: Option<String>)
    ensures
        text::view_opt(r) == (if name is Some {
            text::view_opt(name)
        } else if save_catalog {
            Some("default"@)
        } else {
            None
        }),
{
    match name {
        Some(n) => Some(n),
        None => if save_catalog {
            Some("default".to_owned())
        } else {
            None
        },
    }
}

/// Which way `aube add` goes.
#[derive(Debug, Clone, Copy, PartialEq, Eq, Structural)]
pub enum Route {
    /// Into the packages of the workspace that a filter selects.
    Filtered,
    /// Into the global directory.
    Global,
    /// Into one project.
    Project,
}

/// Why `aube add` does not start.
#[derive(Debug)]
pub enum AddError {
    NoPackages,
    Conflicting(ConflictingFlags),
}

/// The way that arguments ask for.
pub open spec fn asked_route(args: AddArgs, filter_is_empty: bool) -> Route {
    if !filter_is_empty && !args.global && !args.workspace {
        Route::Filtered
    } else if args.global {
        Route::Global
    } else {
        Route::Project
    }
}

/// Starts `aube add`: decides which way it goes, or why it does not start.
pub fn run(args: &AddArgs, filter_is_empty: bool) -> (r: Result<Route, AddError>)
    ensures
        match r {
            Ok(way) => args.packages@.len() > 0 && text_map::text_set(
                args.allow_build@,
            ).disjoint(text_map::text_set(args.deny_build@)) && way == asked_route(
                *args,
                filter_is_empty,
            ),
            Err(AddError::NoPackages) => args.packages@.len() == 0,
            Err(AddError::Conflicting(e)) => args.packages@.len() > 0 && text_map::ascending_texts(
                e.packages@,
            ) && text_map::text_set(e.packages@) == text_map::text_set(
                args.allow_build@,
            ).intersect(text_map::text_set(args.deny_build@)) && !text_map::text_set(
                args.allow_build@,
            ).disjoint(text_map::text_set(args.deny_build@)),
        },
{
    if args.packages.len() == 0 {
        return Err(AddError::NoPackages);
    }
    if let Err(e) = reject_conflicting_build_flags(&args.allow_build, &args.deny_build) {
        return Err(AddError::Conflicting(e));
    }
    if !filter_is_empty && !args.global && !args.workspace {
        Ok(Route::Filtered)
    } else if args.global {
        Ok(Route::Global)
    } else {
        Ok(Route::Project)
    }
}

/// The gates look at a package argument if and only if it is a registry spec, names no member
/// of the workspace, and the registry that serves the name is the public one. What is not
/// parsed, a git, local or JSR spec, and a spec of the workspace or of a catalog pass them by.
pub proof fn gates_look_at_public_packages(
    p: PackageSpec,
    workspace: Map<Seq<char>, String>,
    c: config::ConfigModel,
    rest: Seq<char>,
)
    ensures
        !is_gated(None, workspace, c),
        p.git || p.local || p.jsr ==> !is_gated(Some(p), workspace, c),
        p.range@ == "workspace:"@ + rest || p.range@ == "catalog:"@ + rest ==> !is_gated(
            Some(p),
            workspace,
            c,
        ),
        workspace.contains_key(p.name@) ==> !is_gated(Some(p), workspace, c),
        !crate::registry_url::is_public(config::registry_of(c, p.name@)) ==> !is_gated(
            Some(p),
            workspace,
            c,
        ),
        !p.git && !p.local && !p.jsr && !text::begins_with(p.range@, "workspace:"@)
            && !text::begins_with(p.range@, "catalog:"@) && !workspace.contains_key(p.name@)
            && crate::registry_url::is_public(config::registry_of(c, p.name@)) ==> is_gated(
            Some(p),
            workspace,
            c,
        ),
{
    text::beginnings_and_ends_are_cut_off("workspace:"@, rest, p.range@, p.range@);
    text::beginnings_and_ends_are_cut_off("catalog:"@, rest, p.range@, p.range@);
}

/// Every format has its own file name.
pub proof fn formats_have_their_own_names(kind: LockfileKind)
    ensures
        kind == LockfileKind::Npm <==> fixed_filename(kind) == "package-lock.json"@,
        kind == LockfileKind::NpmShrinkwrap <==> fixed_filename(kind) == "npm-shrinkwrap.json"@,
        kind == LockfileKind::Yarn <==> fixed_filename(kind) == "yarn.lock"@,
        kind == LockfileKind::Bun <==> fixed_filename(kind) == "bun.lock"@,
        kind == LockfileKind::Aube <==> fixed_filename(kind) == "aube-lock.yaml"@,
        kind == LockfileKind::Pnpm <==> fixed_filename(kind) == "pnpm-lock.yaml"@,
{
    reveal_strlit("package-lock.json");
    reveal_strlit("npm-shrinkwrap.json");
    reveal_strlit("yarn.lock");
    reveal_strlit("bun.lock");
    reveal_strlit("aube-lock.yaml");
    reveal_strlit("pnpm-lock.yaml");
    assert("package-lock.json"@.len() == 17 && "npm-shrinkwrap.json"@.len() == 19
        && "yarn.lock"@.len() == 9 && "bun.lock"@.len() == 8 && "aube-lock.yaml"@.len() == 14
        && "pnpm-lock.yaml"@.len() == 14);
    assert("aube-lock.yaml"@[0] != "pnpm-lock.yaml"@[0]);
}

/// `--global` goes to the global directory whatever else is asked for; a filter goes to the
/// members it selects unless the workspace root is asked for; everything else goes to one
/// project.
pub proof fn flags_decide_the_way(args: AddArgs, filter_is_empty: bool)
    ensures
        asked_route(args, filter_is_empty) == Route::Global <==> args.global,
        asked_route(args, filter_is_empty) == Route::Filtered <==> !args.global && !args.workspace
            && !filter_is_empty,
        asked_route(args, filter_is_empty) == Route::Project <==> !args.global && (args.workspace
            || filter_is_empty),
{
}

/// The message names every package that is in both flags, in order, with commas between them.
pub proof fn conflicts_are_named(names: Seq<Seq<char>>, last: Seq<char>)
    ensures
        conflict_text(seq![last])
            == "--allow-build and --deny-build both name the same package(s): "@ + last
            + ". Each package may only appear in one flag."@,
        names.len() > 0 ==> conflict_text(names.push(last))
            == "--allow-build and --deny-build both name the same package(s): "@ + (text::joined(
            names,
            ", "@,
        ) + ", "@ + last) + ". Each package may only appear in one flag."@,
{
    text::separators_stand_between(names, last, ", "@);
}

} // verus!
