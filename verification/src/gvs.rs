//! Whether packages live in the global virtual store, and what happens when that changes.

use crate::paths;
use crate::text;
use vstd::prelude::*;

verus! {

/// Whether an environment sets `CI`.
pub open spec fn sets_ci(env: Seq<(String, String)>) -> bool {
    exists|i: int| 0 <= i < env.len() && (#[trigger] env[i]).0@ == "CI"@
}

fn has_ci(env: &[(String, String)]) -> (r: bool)
    ensures
        r == sets_ci(env@),
{
    let mut i: usize = 0;
    while i < env.len()
        invariant
            i <= env@.len(),
            forall|j: int| 0 <= j < i ==> (#[trigger] env@[j]).0@ != "CI"@,
        decreases env.len() - i,
    {
        if text::same_text(env[i].0.as_str(), "CI") {
            assert(env@[i as int].0@ == "CI"@);
            return true;
        }
        i = i + 1;
    }
    false
}

/// The setting for the global virtual store, if there is one: an explicit one, or off
/// because of a package that does not work with it. `triggered_by` is such a package; it does
/// not count in CI or where only the virtual store is filled. A warning about the package is
/// due exactly if it decided.
pub fn resolve_global_virtual_store_override(
    explicit: Option<bool>,
    triggered_by: Option<String>,
    virtual_store_only: bool,
    env_snapshot: &[(String, String)],
) -> (r: (Option<bool>, Option<String>))
    ensures
        explicit is Some ==> r.0 == explicit && r.1 is None,
        explicit is None ==> {
            let decides = triggered_by is Some && !sets_ci(env_snapshot@) && !virtual_store_only;
            &&& r.0 == (if decides {
                Some(false)
            } else {
                None
            })
            &&& (if decides {
                r.1 is Some && r.1->0@ == triggered_by->0@
            } else {
                r.1 is None
            })
        },
{
    if explicit.is_some() {
        return (explicit, None);
    }
    match triggered_by {
        Some(name) => if !has_ci(env_snapshot) && !virtual_store_only {
            (Some(false), Some(name))
        } else {
            (None, None)
        },
        None => (None, None),
    }
}

/// What is said about a package that does not work with the global virtual store.
pub open spec fn incompatible_text(name: Seq<char>) -> Seq<char> {
    "`"@ + name
        + "` isn't compatible with aube's global virtual store — installing per-project instead. Install still succeeds; repeat installs of this project just won't share materialized packages across projects. Fixing this requires an upstream change in `"@
        + name
        + "` itself (please file it with that project, not aube). To silence this warning, run `aube config set enableGlobalVirtualStore false --location project` — or set `disableGlobalVirtualStoreForPackages=[]` to opt out of this auto-detection entirely. Details: https://aube.jdx.dev/package-manager/global-virtual-store"@
}

/// What is said about a package that does not work with the global virtual store.
pub fn incompatible_message(name: &str) -> (r: String)
    ensures
        r@ == incompatible_text(name@),
{
    let mut r = text::cat("`", name);
    r.append(
        "` isn't compatible with aube's global virtual store — installing per-project instead. Install still succeeds; repeat installs of this project just won't share materialized packages across projects. Fixing this requires an upstream change in `",
    );
    r.append(name);
    r.append(
        "` itself (please file it with that project, not aube). To silence this warning, run `aube config set enableGlobalVirtualStore false --location project` — or set `disableGlobalVirtualStoreForPackages=[]` to opt out of this auto-detection entirely. Details: https://aube.jdx.dev/package-manager/global-virtual-store",
    );
    r
}

/// Whether the global virtual store will be used: as set, else everywhere but in CI.
pub fn planned_global_virtual_store(
    use_global_virtual_store_override: Option<bool>,
    env_snapshot: &[(String, String)],
) -> (r: bool)
    ensures
        r == (match use_global_virtual_store_override {
            Some(b) => b,
            None => !sets_ci(env_snapshot@),
        }),
{
    match use_global_virtual_store_override {
        Some(b) => b,
        None => !has_ci(env_snapshot),
    }
}

/// What has to be removed before an installation.
#[derive(Debug)]
pub struct Reset {
    /// The modules directory.
    pub modules_dir: String,
    /// The virtual store, where it is not inside the modules directory.
    pub store_dir: Option<String>,
    /// What the warning says: the store was on before.
    pub was_enabled: bool,
}

/// Whether an installation starts from scratch: something is installed in the other mode.
pub open spec fn needs_reset(existing: Option<bool>, planned: bool) -> bool {
    existing is Some && existing->0 != planned
}

/// What a change of the mode removes: nothing if the mode is unknown or stays. The install
/// state is forgotten whenever something is removed. Whether the virtual store is inside the
/// modules directory depends on how the platform reads the two.
pub fn reset_on_mode_change(
    cwd: &str,
    aube_dir: &str,
    modules_dir_name: &str,
    existing_gvs: Option<bool>,
    planned_gvs: bool,
) -> (r: Option<Reset>)
    ensures
        r is Some <==> needs_reset(existing_gvs, planned_gvs),
        r is Some ==> {
            let modules = r->0.modules_dir@;
            &&& paths::joins(cwd@, modules_dir_name@, modules)
            &&& r->0.was_enabled != planned_gvs
            &&& r->0.store_dir is Some ==> r->0.store_dir->0@ == aube_dir@
            &&& exists|read: Seq<char>| #[trigger]
                paths::is_read_as(cwd@, modules_dir_name@, read) && paths::reads_under(
                    aube_dir@,
                    read,
                    r->0.store_dir is None,
                )
            &&& paths::reads_alike(cwd@) && paths::reads_alike(modules_dir_name@)
                && paths::reads_alike(aube_dir@) ==> (r->0.store_dir is None
                <==> paths::is_under(aube_dir@, paths::joined_path(cwd@, modules_dir_name@)))
        },
{
    let existing = match existing_gvs {
        Some(existing) => existing,
        None => {
            return None;
        },
    };
    if existing == planned_gvs {
        return None;
    }
    let modules_dir = paths::join(cwd, modules_dir_name);
    let read = paths::joined_to_read(cwd, modules_dir_name, modules_dir.clone());
    let inside = paths::starts_with(aube_dir, read.as_str());
    proof {
        assert(paths::is_read_as(cwd@, modules_dir_name@, read@));
        if paths::reads_alike(cwd@) && paths::reads_alike(modules_dir_name@) && paths::reads_alike(
            aube_dir@,
        ) {
            paths::lemma_read_as_one(cwd@, modules_dir_name@, read@);
            paths::lemma_alike_says_one(aube_dir@, read@, inside);
        }
    }
    let store_dir = if inside {
        None
    } else {
        Some(aube_dir.to_owned())
    };
    Some(Reset { modules_dir, store_dir, was_enabled: existing })
}

/// The mode as it is called in messages.
pub open spec fn mode_name(enabled: bool) -> Seq<char> {
    if enabled {
        "enabled"@
    } else {
        "disabled"@
    }
}

impl Reset {
    /// What is said about the change of the mode.
    pub fn message(&self) -> (r: String)
        ensures
            r@ == "global virtual store "@ + mode_name(self.was_enabled) + " → "@ + mode_name(
                !self.was_enabled,
            ) + "; removing "@ + self.modules_dir@ + " and reinstalling from scratch"@,
    {
        let mut r = "global virtual store ".to_owned();
        r.append(
            if self.was_enabled {
                "enabled"
            } else {
                "disabled"
            },
        );
        r.append(" → ");
        r.append(
            if self.was_enabled {
                "disabled"
            } else {
                "enabled"
            },
        );
        r.append("; removing ");
        r.append(self.modules_dir.as_str());
        r.append(" and reinstalling from scratch");
        r
    }
}

/// What became of removing a directory.
#[derive(Debug, Clone, Copy, PartialEq, Eq, Structural)]
pub enum Removal {
    Done,
    NotFound,
    Failed,
}

/// Whether a directory is gone: a missing one is as good as a removed one.
pub fn remove_dir_all_if_exists(removal: Removal) -> (r: bool)
    ensures
        r == (removal != Removal::Failed),
{
    match removal {
        Removal::Done => true,
        Removal::NotFound => true,
        Removal::Failed => false,
    }
}

/// Once an installation has been made in the planned mode, the next one with the same plan
/// keeps it.
pub proof fn same_mode_is_kept(planned: bool)
    ensures
        !needs_reset(Some(planned), planned),
        !needs_reset(None, planned),
        needs_reset(Some(!planned), planned),
{
}

/// `CI` counts wherever it stands in the environment and whatever it is set to, and no other
/// variable counts.
pub proof fn only_ci_counts_as_ci(
    before: Seq<(String, String)>,
    variable: (String, String),
    after: Seq<(String, String)>,
)
    ensures
        variable.0@ == seq!['C', 'I'] ==> sets_ci(before.push(variable) + after),
        variable.0@ != seq!['C', 'I'] ==> (sets_ci(before.push(variable) + after) <==> sets_ci(
            before + after,
        )),
        !sets_ci(Seq::empty()),
{
    reveal_strlit("CI");
    assert("CI"@ == seq!['C', 'I']);
    let env = before.push(variable) + after;
    let n = before.len() as int;
    assert(env[n] == variable);
    if variable.0@ != seq!['C', 'I'] {
        let fewer = before + after;
        if sets_ci(env) {
            let i = choose|i: int| 0 <= i < env.len() && (#[trigger] env[i]).0@ == "CI"@;
            let j = if i < n { i } else { i - 1 };
            assert(fewer[j] == env[i]);
        }
        if sets_ci(fewer) {
            let j = choose|j: int| 0 <= j < fewer.len() && (#[trigger] fewer[j]).0@ == "CI"@;
            let i = if j < n { j } else { j + 1 };
            assert(env[i] == fewer[j]);
        }
    }
}

/// The two modes are called by their own names, and the warning about a package begins with its
/// name and names it again where it says what can be done.
pub proof fn messages_name_modes_and_packages(name: Seq<char>)
    ensures
        mode_name(true) == "enabled"@,
        mode_name(false) == "disabled"@,
        text::begins_with(incompatible_text(name), "`"@ + name),
        text::finishes_with(
            incompatible_text(name),
            name
                + "` itself (please file it with that project, not aube). To silence this warning, run `aube config set enableGlobalVirtualStore false --location project` — or set `disableGlobalVirtualStoreForPackages=[]` to opt out of this auto-detection entirely. Details: https://aube.jdx.dev/package-manager/global-virtual-store"@,
        ),
{
    let middle = "` isn't compatible with aube's global virtual store — installing per-project instead. Install still succeeds; repeat installs of this project just won't share materialized packages across projects. Fixing this requires an upstream change in `"@;
    let rest = "` itself (please file it with that project, not aube). To silence this warning, run `aube config set enableGlobalVirtualStore false --location project` — or set `disableGlobalVirtualStoreForPackages=[]` to opt out of this auto-detection entirely. Details: https://aube.jdx.dev/package-manager/global-virtual-store"@;
    text::beginnings_and_ends_are_cut_off("`"@ + name, middle + name + rest, name, name);
    assert(incompatible_text(name) == ("`"@ + name) + (middle + name + rest));
    text::beginnings_and_ends_are_cut_off("`"@ + name + middle, name + rest, name, name);
    assert(incompatible_text(name) == ("`"@ + name + middle) + (name + rest));
}

} // verus!
