//! What an installation does in a workspace: which members there are, in which order their
//! scripts run, which part of the graph is kept, and where lockfiles are written.

use crate::lifecycle;
use crate::lockfile;
use crate::lockfile::LockfileGraph;
use crate::manifest::PackageJson;
use crate::paths;
use crate::text;
use crate::text_map;
use crate::text_map::TextMap;
use vstd::prelude::*;

verus! {

/// The importer key for the way from the workspace root to a package: with slashes, and `.`
/// for the root itself.
pub open spec fn importer_key(diff: Seq<char>) -> Seq<char> {
    if diff.len() == 0 {
        "."@
    } else {
        paths::with_slashes(diff)
    }
}

/// The importer key for the way from the workspace root to a package.
pub fn importer_key_from(diff: &str) -> (r: String)
    ensures
        r@ == importer_key(diff@),
{
    if text::to_chars(diff).len() == 0 {
        ".".to_owned()
    } else {
        text::replace(diff, '\\', "/")
    }
}

proof fn lemma_replaced_gone(s: Seq<char>, c: char, with: Seq<char>)
    requires
        !with.contains(c),
    ensures
        !text::replaced(s, c, with).contains(c),
    decreases s.len(),
{
    if s.len() > 0 {
        let front = text::replaced(s.drop_last(), c, with);
        lemma_replaced_gone(s.drop_last(), c, with);
        let whole = text::replaced(s, c, with);
        if whole.contains(c) {
            let i = whole.index_of(c);
            if i < front.len() {
                assert(front.contains(front[i]));
            } else if s.last() == c {
                assert(with.contains(with[i - front.len()]));
            }
        }
    }
}

/// Whether this can be the importer key of the package in a directory, or that it has none.
/// Keys are not empty and hold no backslash. The root is `.`, and a package elsewhere has the
/// way to it as its key, which may lead upwards.
pub open spec fn is_importer_key(
    workspace_root: Seq<char>,
    dir: Seq<char>,
    key: Option<Seq<char>>,
) -> bool {
    &&& key matches Some(k) ==> k.len() > 0 && !k.contains('\\')
    &&& dir == workspace_root ==> key == Some("."@)
    &&& exists|windows: bool| #[trigger] is_importer_key_on(windows, workspace_root, dir, key)
    &&& paths::are_comparable(dir, workspace_root) ==> key == key_of_way(
        paths::way_to(dir, workspace_root),
    )
}

/// Whether this is the importer key that a platform gives, as far as that is stated.
pub open spec fn is_importer_key_on(
    windows: bool,
    workspace_root: Seq<char>,
    dir: Seq<char>,
    key: Option<Seq<char>>,
) -> bool {
    paths::says_way(windows, dir, workspace_root) ==> key == (match paths::way_on(
        windows,
        dir,
        workspace_root,
    ) {
        Some(way) => key_of_way(Some(paths::with_slashes(way))),
        None => None,
    })
}

/// The importer key for a way that is written with slashes.
pub open spec fn key_of_way(way: Option<Seq<char>>) -> Option<Seq<char>> {
    match way {
        Some(way) => Some(if way.len() == 0 {
            "."@
        } else {
            way
        }),
        None => None,
    }
}

/// The importer key of the package in `dir`, or nothing if there is no way to it from the
/// workspace root.
pub fn workspace_importer_path(workspace_root: &str, dir: &str) -> (r: Option<String>)
    ensures
        is_importer_key(workspace_root@, dir@, text::view_opt(r)),
{
    let (way, separator) = paths::diff_paths(dir, workspace_root);
    let ghost windows = paths::writes_backslashes(separator);
    let ghost found = text::view_opt(way);
    let key = match way {
        Some(diff) => Some(importer_key_from(diff.as_str())),
        None => None,
    };
    proof {
        reveal_strlit(".");
        reveal_strlit("/");
        if found is Some {
            lemma_replaced_gone(found->0, '\\', "/"@);
            paths::lemma_with_slashes(found->0);
        }
        let to = paths::way_on(windows, dir@, workspace_root@);
        if to is Some {
            paths::lemma_with_slashes(to->0);
        }
        assert(is_importer_key_on(windows, workspace_root@, dir@, text::view_opt(key)));
        if paths::are_comparable(dir@, workspace_root@) {
            paths::lemma_comparable_way(windows, dir@, workspace_root@);
        }
    }
    key
}

/// The way to a directory, or the directory itself if there is no way.
pub open spec fn way_or_dir(diff: Option<String>, dir: Seq<char>) -> Seq<char> {
    match diff {
        Some(d) => d@,
        None => dir,
    }
}

/// The key under which a member is listed: the way to it with slashes, or its directory if
/// there is no way. It is empty for the root.
pub fn member_key(diff: Option<String>, dir: &str) -> (r: String)
    ensures
        r@ == paths::with_slashes(way_or_dir(diff, dir@)),
{
    match diff {
        Some(d) => text::replace(d.as_str(), '\\', "/"),
        None => text::replace(dir, '\\', "/"),
    }
}

/// Whether a text can be the key under which the member in a directory is listed: without
/// backslashes, empty for the directory itself, else the way to it, or its directory if there
/// is no way.
pub open spec fn is_member_key(cwd: Seq<char>, dir: Seq<char>, key: Seq<char>) -> bool {
    &&& !key.contains('\\')
    &&& dir == cwd ==> key.len() == 0
    &&& exists|windows: bool| #[trigger] is_member_key_on(windows, cwd, dir, key)
    &&& paths::are_comparable(dir, cwd) ==> key == (match paths::way_to(dir, cwd) {
        Some(way) => way,
        None => dir,
    })
}

/// Whether this is the key under which a platform lists the member in a directory, as far as that
/// is stated.
pub open spec fn is_member_key_on(
    windows: bool,
    cwd: Seq<char>,
    dir: Seq<char>,
    key: Seq<char>,
) -> bool {
    paths::says_way(windows, dir, cwd) ==> key == paths::with_slashes(
        match paths::way_on(windows, dir, cwd) {
            Some(way) => way,
            None => dir,
        },
    )
}

/// The key under which the member in `dir` is listed.
pub fn workspace_member_key(cwd: &str, dir: &str) -> (r: String)
    ensures
        is_member_key(cwd@, dir@, r@),
{
    let (diff, separator) = paths::diff_paths(dir, cwd);
    let ghost windows = paths::writes_backslashes(separator);
    let ghost key = paths::with_slashes(way_or_dir(diff, dir@));
    proof {
        reveal_strlit("/");
        lemma_replaced_gone(way_or_dir(diff, dir@), '\\', "/"@);
        if diff is Some && diff->0@.len() == 0 {
            assert(paths::with_slashes(diff->0@) == diff->0@);
        }
        assert(is_member_key_on(windows, cwd@, dir@, key));
        if paths::are_comparable(dir@, cwd@) {
            paths::lemma_comparable_way(windows, dir@, cwd@);
            paths::lemma_slashes_stay(dir@);
        }
    }
    member_key(diff, dir)
}

/// A package of the workspace.
#[derive(Debug)]
pub struct WorkspaceMember {
    pub dir: String,
    /// The key under which it is listed; empty for the root.
    pub key: String,
    pub manifest: PackageJson,
}

/// What an installation needs to know of the workspace.
#[derive(Debug)]
pub struct WorkspaceInstallPlan {
    /// The directories of the packages that were found, in that order.
    pub workspace_packages: Vec<String>,
    pub has_workspace: bool,
    pub is_workspace_project: bool,
    pub link_all_workspace_importers: bool,
    /// The root and the members, by importer key.
    pub manifests: Vec<(String, PackageJson)>,
    /// The version of each named package of the workspace.
    pub ws_package_versions: TextMap<String>,
    /// The directory of each named package of the workspace.
    pub ws_dirs: TextMap<String>,
}

/// The version of a workspace package; packages without one count as `0.0.0`.
pub open spec fn version_of(m: PackageJson) -> Seq<char> {
    match m.version {
        Some(v) => v@,
        None => "0.0.0"@,
    }
}

/// The versions of the named packages: of the root and the first `n` members. Of packages
/// with one name the last one counts.
pub open spec fn versions_upto(
    root: PackageJson,
    members: Seq<WorkspaceMember>,
    n: int,
) -> Map<Seq<char>, Seq<char>>
    decreases n,
{
    if n <= 0 {
        match root.name {
            Some(name) => Map::empty().insert(name@, version_of(root)),
            None => Map::empty(),
        }
    } else {
        let before = versions_upto(root, members, n - 1);
        let m = members[n - 1];
        match m.manifest.name {
            Some(name) => before.insert(name@, version_of(m.manifest)),
            None => before,
        }
    }
}

/// The directories of the named packages: of the root and the first `n` members.
pub open spec fn dirs_upto(
    cwd: Seq<char>,
    root: PackageJson,
    members: Seq<WorkspaceMember>,
    n: int,
) -> Map<Seq<char>, Seq<char>>
    decreases n,
{
    if n <= 0 {
        match root.name {
            Some(name) => Map::empty().insert(name@, cwd),
            None => Map::empty(),
        }
    } else {
        let before = dirs_upto(cwd, root, members, n - 1);
        let m = members[n - 1];
        match m.manifest.name {
            Some(name) => before.insert(name@, m.dir@),
            None => before,
        }
    }
}

/// The manifests by importer key: the root, then those of the first `n` members that are not
/// the root.
pub open spec fn manifests_upto(
    root: PackageJson,
    members: Seq<WorkspaceMember>,
    n: int,
) -> Seq<(Seq<char>, PackageJson)>
    decreases n,
{
    if n <= 0 {
        seq![("."@, root)]
    } else {
        let before = manifests_upto(root, members, n - 1);
        let m = members[n - 1];
        if m.key@.len() == 0 {
            before
        } else {
            before.push((m.key@, m.manifest))
        }
    }
}

/// The directories of the first `n` members.
pub open spec fn member_dirs(members: Seq<WorkspaceMember>, n: int) -> Seq<Seq<char>> {
    Seq::new(n as nat, |i: int| members[i].dir@)
}

/// Keys as text, with their manifests.
pub open spec fn keyed(v: Seq<(String, PackageJson)>) -> Seq<(Seq<char>, PackageJson)> {
    Seq::new(v.len(), |i: int| (v[i].0@, v[i].1))
}

fn note_package(
    versions: &mut TextMap<String>,
    dirs: &mut TextMap<String>,
    manifest: &PackageJson,
    dir: &str,
)
    ensures
        crate::config::text_values(final(versions)@) == (match manifest.name {
            Some(name) => crate::config::text_values(old(versions)@).insert(
                name@,
                version_of(*manifest),
            ),
            None => crate::config::text_values(old(versions)@),
        }),
        crate::config::text_values(final(dirs)@) == (match manifest.name {
            Some(name) => crate::config::text_values(old(dirs)@).insert(name@, dir@),
            None => crate::config::text_values(old(dirs)@),
        }),
{
    if let Some(name) = &manifest.name {
        let version = match &manifest.version {
            Some(v) => v.clone(),
            None => "0.0.0".to_owned(),
        };
        let dir = dir.to_owned();
        let ghost v = version;
        let ghost d = dir;
        versions.insert(name.clone(), version);
        dirs.insert(name.clone(), dir);
        assert(crate::config::text_values(versions@) =~= crate::config::text_values(
            old(versions)@,
        ).insert(name@, v@));
        assert(crate::config::text_values(dirs@) =~= crate::config::text_values(
            old(dirs)@,
        ).insert(name@, d@));
    }
}

/// Whether a plan is that of a workspace with these members.
pub open spec fn is_plan(
    plan: WorkspaceInstallPlan,
    cwd: Seq<char>,
    root_manifest: PackageJson,
    members: Seq<WorkspaceMember>,
    is_workspace_project: bool,
    recursive_install: bool,
    filter_is_empty: bool,
) -> bool {
    let n = members.len() as int;
    &&& text::views(plan.workspace_packages@) == member_dirs(members, n)
    &&& plan.has_workspace == (n > 0)
    &&& plan.is_workspace_project == is_workspace_project
    &&& plan.link_all_workspace_importers == (n > 0 && (recursive_install || !filter_is_empty))
    &&& keyed(plan.manifests@) == manifests_upto(root_manifest, members, n)
    &&& crate::config::text_values(plan.ws_package_versions@) == versions_upto(
        root_manifest,
        members,
        n,
    )
    &&& crate::config::text_values(plan.ws_dirs@) == dirs_upto(cwd, root_manifest, members, n)
}

/// Whether members are packages in the same order, each under a key that it can have.
pub open spec fn are_keyed(
    cwd: Seq<char>,
    packages: Seq<(String, PackageJson)>,
    members: Seq<WorkspaceMember>,
) -> bool {
    &&& members.len() == packages.len()
    &&& forall|i: int|
        0 <= i < members.len() ==> {
            &&& (#[trigger] members[i]).dir@ == packages[i].0@
            &&& members[i].manifest == packages[i].1
            &&& is_member_key(cwd, packages[i].0@, members[i].key@)
        }
}

/// Plans the installation of a workspace with these packages, by directory (none if it is a
/// single package).
pub fn discover_workspace_plan(
    cwd: &str,
    root_manifest: PackageJson,
    packages: Vec<(String, PackageJson)>,
    is_workspace_project: bool,
    recursive_install: bool,
    filter_is_empty: bool,
) -> (plan: WorkspaceInstallPlan)
    ensures
        exists|members: Seq<WorkspaceMember>| #[trigger]
            are_keyed(cwd@, packages@, members) && is_plan(
                plan,
                cwd@,
                root_manifest,
                members,
                is_workspace_project,
                recursive_install,
                filter_is_empty,
            ),
{
    let ghost all = packages@;
    let mut members: Vec<WorkspaceMember> = Vec::new();
    for package in it: packages
        invariant
            it.seq() == all,
            are_keyed(cwd@, all.take(it.index()), members@),
    {
        let ghost before = members@;
        let ghost k = it.index();
        let (dir, manifest) = package;
        let key = workspace_member_key(cwd, dir.as_str());
        members.push(WorkspaceMember { dir, key, manifest });
        proof {
            let seen = all.take(k + 1);
            assert forall|i: int| 0 <= i < members@.len() implies {
                &&& (#[trigger] members@[i]).dir@ == seen[i].0@
                &&& members@[i].manifest == seen[i].1
                &&& is_member_key(cwd@, seen[i].0@, members@[i].key@)
            } by {
                if i < k {
                    assert(members@[i] == before[i]);
                    assert(seen[i] == all.take(k)[i]);
                }
            }
        }
    }
    assert(all.take(all.len() as int) == all);
    let ghost listed = members@;
    let plan = plan_workspace(
        cwd,
        root_manifest,
        members,
        is_workspace_project,
        recursive_install,
        filter_is_empty,
    );
    assert(are_keyed(cwd@, all, listed));
    plan
}

/// Plans the installation of a workspace with these members. All importers are linked if the
/// installation is recursive or a filter selects packages.
pub fn plan_workspace(
    cwd: &str,
    root_manifest: PackageJson,
    members: Vec<WorkspaceMember>,
    is_workspace_project: bool,
    recursive_install: bool,
    filter_is_empty: bool,
) -> (plan: WorkspaceInstallPlan)
    ensures
        is_plan(
            plan,
            cwd@,
            root_manifest,
            members@,
            is_workspace_project,
            recursive_install,
            filter_is_empty,
        ),
{
    let has_workspace = members.len() > 0;
    let ghost all = members@;
    let ghost root = root_manifest;
    let mut ws_package_versions: TextMap<String> = TextMap::new();
    let mut ws_dirs: TextMap<String> = TextMap::new();
    proof {
        assert(crate::config::text_values(ws_package_versions@) =~= Map::empty());
        assert(crate::config::text_values(ws_dirs@) =~= Map::empty());
    }
    note_package(&mut ws_package_versions, &mut ws_dirs, &root_manifest, cwd);
    let mut manifests: Vec<(String, PackageJson)> = Vec::new();
    manifests.push((".".to_owned(), root_manifest));
    assert(keyed(manifests@) == manifests_upto(root, all, 0));
    let mut workspace_packages: Vec<String> = Vec::new();
    for member in it: members
        invariant
            it.seq() == all,
            text::views(workspace_packages@) == member_dirs(all, it.index()),
            keyed(manifests@) == manifests_upto(root, all, it.index()),
            crate::config::text_values(ws_package_versions@) == versions_upto(
                root,
                all,
                it.index(),
            ),
            crate::config::text_values(ws_dirs@) == dirs_upto(cwd@, root, all, it.index()),
    {
        note_package(
            &mut ws_package_versions,
            &mut ws_dirs,
            &member.manifest,
            member.dir.as_str(),
        );
        if text::to_chars(member.key.as_str()).len() > 0 {
            let ghost before = manifests@;
            let ghost entry = (member.key@, member.manifest);
            manifests.push((member.key, member.manifest));
            assert(keyed(manifests@) == keyed(before).push(entry));
        }
        let ghost dirs_before = workspace_packages@;
        let ghost dir = member.dir@;
        workspace_packages.push(member.dir);
        assert(text::views(workspace_packages@) == text::views(dirs_before).push(dir));
    }
    WorkspaceInstallPlan {
        workspace_packages,
        has_workspace,
        is_workspace_project,
        link_all_workspace_importers: has_workspace && (recursive_install || !filter_is_empty),
        manifests,
        ws_package_versions,
        ws_dirs,
    }
}

/// The positions below `n` that are marked.
pub open spec fn marked(flags: Seq<bool>, n: int) -> Seq<int>
    decreases n,
{
    if n <= 0 {
        Seq::empty()
    } else if flags[n - 1] {
        marked(flags, n - 1).push(n - 1)
    } else {
        marked(flags, n - 1)
    }
}

/// The manifests at these positions.
pub open spec fn at_positions(m: lifecycle::Members, positions: Seq<int>) -> lifecycle::Members {
    Seq::new(positions.len(), |i: int| m[positions[i]])
}

/// The positions of the manifests whose lifecycle scripts run, in that order: those of the
/// importers that are directories of their own, if all importers are linked; else that of
/// the root.
pub open spec fn lifecycle_positions(
    m: lifecycle::Members,
    physical: Seq<bool>,
    link_all: bool,
) -> Seq<int> {
    if link_all {
        let chosen = marked(physical, m.len() as int);
        let order = lifecycle::lifecycle_order(at_positions(m, chosen));
        Seq::new(order.len(), |i: int| chosen[order[i]])
    } else {
        seq![0int]
    }
}

impl WorkspaceInstallPlan {
    /// The positions in `manifests` of those whose lifecycle scripts run, in that order;
    /// `physical` says which importers are directories of their own.
    pub fn lifecycle_manifests(&self, physical: &Vec<bool>) -> (r: Vec<usize>)
        requires
            physical@.len() == self.manifests@.len(),
        ensures
            lifecycle::ints(r@) == lifecycle_positions(
                self.manifests@,
                physical@,
                self.has_workspace && self.link_all_workspace_importers,
            ),
    {
        let mut r: Vec<usize> = Vec::new();
        if !(self.has_workspace && self.link_all_workspace_importers) {
            r.push(0);
            assert(lifecycle::ints(r@) == seq![0int]);
            return r;
        }
        let ghost m = self.manifests@;
        let mut chosen: Vec<usize> = Vec::new();
        let mut members: Vec<&(String, PackageJson)> = Vec::new();
        let mut i: usize = 0;
        while i < self.manifests.len()
            invariant
                m == self.manifests@,
                i <= m.len(),
                physical@.len() == m.len(),
                lifecycle::ints(chosen@) == marked(physical@, i as int),
                lifecycle::listed(members@) == at_positions(m, marked(physical@, i as int)),
            decreases self.manifests.len() - i,
        {
            if physical[i] {
                let ghost chosen_before = chosen@;
                let ghost members_before = members@;
                chosen.push(i);
                members.push(&self.manifests[i]);
                proof {
                    assert(lifecycle::ints(chosen@) == lifecycle::ints(chosen_before).push(
                        i as int,
                    ));
                    assert(lifecycle::listed(members@) == lifecycle::listed(members_before).push(
                        m[i as int],
                    ));
                    assert(at_positions(m, marked(physical@, i + 1)) == at_positions(
                        m,
                        marked(physical@, i as int),
                    ).push(m[i as int]));
                }
            }
            i = i + 1;
        }
        let order = lifecycle::lifecycle_indices(&members);
        let ghost picked = marked(physical@, m.len() as int);
        let ghost o = lifecycle::lifecycle_order(at_positions(m, picked));
        proof {
            lifecycle::lifecycle_order_is_a_permutation(at_positions(m, picked));
        }
        let mut j: usize = 0;
        while j < order.len()
            invariant
                j <= order@.len(),
                lifecycle::ints(order@) == o,
                lifecycle::ints(chosen@) == picked,
                o.len() == picked.len(),
                forall|x: int| 0 <= x < o.len() ==> 0 <= #[trigger] o[x] < picked.len(),
                r@.len() == j,
                forall|x: int| 0 <= x < j ==> (#[trigger] r@[x]) as int == picked[o[x]],
            decreases order.len() - j,
        {
            assert(o[j as int] == order@[j as int] as int);
            let at = order[j];
            assert(picked[at as int] == chosen@[at as int] as int);
            r.push(chosen[at]);
            j = j + 1;
        }
        assert(lifecycle::ints(r@) == Seq::new(o.len(), |i: int| picked[o[i]]));
        r
    }
}

/// The directory of an importer: the workspace root, or the normalized path below it.
pub fn importer_project_dir(workspace_root: &str, importer_path: &str) -> (r: String)
    ensures
        is_importer_dir(workspace_root@, importer_path@, r@),
{
    if text::same_text(importer_path, ".") {
        workspace_root.to_owned()
    } else {
        let joined = paths::join(workspace_root, importer_path);
        let read = paths::joined_to_read(workspace_root, importer_path, joined);
        let r = paths::normalize_lexical(read.as_str());
        proof {
            assert(paths::is_read_as(workspace_root@, importer_path@, read@));
            if paths::reads_alike(workspace_root@) && paths::reads_alike(importer_path@) {
                paths::lemma_read_as_one(workspace_root@, importer_path@, read@);
                paths::lemma_normalized_alike(read@, r@);
            }
        }
        r
    }
}

/// Whether a directory is that of an importer: the workspace root, or the normalized path below
/// it, with the separators of the platform.
pub open spec fn is_importer_dir(
    workspace_root: Seq<char>,
    importer: Seq<char>,
    dir: Seq<char>,
) -> bool {
    if importer == "."@ {
        dir == workspace_root
    } else {
        &&& exists|read: Seq<char>| #[trigger]
            paths::is_read_as(workspace_root, importer, read) && paths::normalizes(read, dir)
        &&& paths::reads_alike(workspace_root) && paths::reads_alike(importer)
            ==> paths::with_slashes(dir) == paths::normalized(
            paths::joined_path(workspace_root, importer),
        )
    }
}

/// A package is found again by its importer key: the directory of the key, written with slashes,
/// is the normalized directory of the package, or it is the root itself where that is the same.
/// Both start at the root of the file system, and the workspace root holds no `..`.
pub proof fn packages_are_found_by_their_keys(
    workspace_root: Seq<char>,
    dir: Seq<char>,
    key: Option<Seq<char>>,
    found: Seq<char>,
)
    requires
        paths::is_absolute(workspace_root),
        paths::are_comparable(dir, workspace_root),
        !paths::components(workspace_root).contains(".."@),
        is_importer_key(workspace_root, dir, key),
        key is Some ==> is_importer_dir(workspace_root, key->0, found),
    ensures
        key is Some,
        key == Some("."@) ==> found == workspace_root,
        key != Some("."@) ==> paths::with_slashes(found) == paths::normalized(dir),
        key == Some("."@) ==> paths::normalized(workspace_root) == paths::normalized(dir),
{
    paths::ways_lead_there(dir, workspace_root);
    paths::lemma_way_reads_alike(dir, workspace_root);
    paths::lemma_components_of_way(dir, workspace_root);
    if key == Some("."@) {
        paths::lemma_empty_way(dir, workspace_root);
    }
}

/// On Windows too a package is found again by its importer key: the directory of the key, written
/// with slashes, is the normalized directory of the package. Both directories are absolute and
/// on one drive, and the workspace root holds no `..`.
pub proof fn packages_on_drives_are_found_by_their_keys(
    workspace_root: Seq<char>,
    dir: Seq<char>,
    key: Option<Seq<char>>,
    read: Seq<char>,
)
    requires
        paths::is_absolute_on(true, workspace_root),
        paths::is_absolute_on(true, dir),
        paths::drive_on(true, dir) == paths::drive_on(true, workspace_root),
        paths::says_way(true, dir, workspace_root),
        !paths::components(paths::path_on(true, workspace_root)).contains(".."@),
        is_importer_key_on(true, workspace_root, dir, key),
        key is Some && key != Some("."@) ==> paths::is_read_as(workspace_root, key->0, read),
    ensures
        key is Some,
        key != Some("."@) ==> paths::with_slashes(paths::normalized_on(true, read))
            == paths::drive_on(true, dir) + paths::normalized(paths::path_on(true, dir)),
        key == Some("."@) ==> paths::normalized(paths::path_on(true, workspace_root))
            == paths::normalized(paths::path_on(true, dir)),
{
    let a = paths::path_on(true, dir);
    let b = paths::path_on(true, workspace_root);
    paths::ways_lead_there(a, b);
    paths::lemma_no_backslashes(dir.skip(2));
    paths::lemma_way_has_slashes(a, b);
    paths::lemma_components_of_way(a, b);
    if key == Some("."@) {
        paths::lemma_empty_way(a, b);
    } else {
        paths::ways_lead_there_on_drives(dir, workspace_root, read);
    }
}

/// Why the graph could not be narrowed to a selection.
#[derive(Debug, Clone, Copy, PartialEq, Eq, Structural)]
pub enum SelectionError {
    /// No package was selected.
    NothingMatched,
    /// There is no way from the workspace root to a selected package: the position of the first
    /// such package.
    NoPath(usize),
}

/// Whether a graph is another one narrowed to the importers with these keys: their
/// dependencies are all that is kept.
pub open spec fn is_narrowed(
    before: LockfileGraph,
    after: LockfileGraph,
    keys: Set<Seq<char>>,
) -> bool {
    &&& after.importers@ == before.importers@.restrict(keys)
    &&& exists|narrow: LockfileGraph|
        #![trigger lockfile::starts_anywhere(narrow)]
        narrow.importers == after.importers && narrow.packages == before.packages
            && after.packages@ == before.packages@.restrict(
            lockfile::reached(narrow, lockfile::starts_anywhere(narrow)),
        )
}

/// Narrows a graph to the root project and the importers with these keys, and to the packages
/// that they reach.
pub fn keep_selected_importers(graph: &mut LockfileGraph, keys: Vec<String>)
    ensures
        is_narrowed(*old(graph), *final(graph), text_map::text_set(keys@).insert("."@)),
{
    let mut keep = keys;
    let ghost before = keep@;
    keep.push(".".to_owned());
    proof {
        let n = before.len() as int;
        text_map::lemma_text_set_push(keep@, n);
        assert(keep@.take(n) == before);
        assert(keep@.take(n + 1) == keep@);
    }
    filter_graph_to_importers(graph, &keep);
}

/// Whether texts can be the importer keys of the packages in these directories.
pub open spec fn are_importer_keys(
    workspace_root: Seq<char>,
    dirs: Seq<String>,
    keys: Seq<String>,
) -> bool {
    &&& keys.len() == dirs.len()
    &&& forall|i: int|
        0 <= i < keys.len() ==> is_importer_key(
            workspace_root,
            dirs[i]@,
            Some((#[trigger] keys[i])@),
        )
}

/// Narrows a graph to the root project and the selected packages of the workspace, and to
/// what they reach.
pub fn filter_graph_to_workspace_selection(
    workspace_root: &str,
    selected_dirs: &Vec<String>,
    graph: &mut LockfileGraph,
) -> (r: Result<(), SelectionError>)
    ensures
        r == Err::<(), SelectionError>(SelectionError::NothingMatched) <==> selected_dirs@.len()
            == 0,
        r matches Err(SelectionError::NoPath(at)) ==> {
            &&& at < selected_dirs@.len()
            &&& is_importer_key(workspace_root@, selected_dirs@[at as int]@, None)
            &&& exists|keys: Seq<String>| #[trigger]
                are_importer_keys(workspace_root@, selected_dirs@.take(at as int), keys)
        },
        r is Err ==> *final(graph) == *old(graph),
        r is Ok ==> exists|keys: Seq<String>| #[trigger]
            are_importer_keys(workspace_root@, selected_dirs@, keys) && is_narrowed(
                *old(graph),
                *final(graph),
                text_map::text_set(keys).insert("."@),
            ),
{
    if selected_dirs.len() == 0 {
        return Err(SelectionError::NothingMatched);
    }
    let mut keys: Vec<String> = Vec::new();
    let mut i: usize = 0;
    while i < selected_dirs.len()
        invariant
            i <= selected_dirs@.len(),
            selected_dirs@.len() > 0,
            are_importer_keys(workspace_root@, selected_dirs@.take(i as int), keys@),
            *graph == *old(graph),
        decreases selected_dirs.len() - i,
    {
        let ghost before = keys@;
        match workspace_importer_path(workspace_root, selected_dirs[i].as_str()) {
            Some(key) => keys.push(key),
            None => {
                assert(is_importer_key(workspace_root@, selected_dirs@[i as int]@, None));
                assert(are_importer_keys(workspace_root@, selected_dirs@.take(i as int), keys@));
                return Err(SelectionError::NoPath(i));
            },
        }
        i = i + 1;
        proof {
            let seen = selected_dirs@.take(i as int);
            assert forall|j: int| 0 <= j < keys@.len() implies is_importer_key(
                workspace_root@,
                seen[j]@,
                Some((#[trigger] keys@[j])@),
            ) by {
                if j < i - 1 {
                    assert(keys@[j] == before[j]);
                    assert(seen[j] == selected_dirs@.take(i - 1)[j]);
                }
            }
        }
    }
    assert(selected_dirs@.take(i as int) == selected_dirs@);
    let ghost found = keys@;
    keep_selected_importers(graph, keys);
    assert(are_importer_keys(workspace_root@, selected_dirs@, found));
    Ok(())
}

/// Narrows a graph to the importers with these keys, and to the packages that they reach.
pub fn filter_graph_to_importers(graph: &mut LockfileGraph, keep_importers: &Vec<String>)
    ensures
        is_narrowed(*old(graph), *final(graph), text_map::text_set(keep_importers@)),
{
    graph.importers.retain_keys(keep_importers);
    let ghost narrow = *graph;
    graph.prune();
    assert(lockfile::starts_anywhere(narrow) == lockfile::starts_anywhere(narrow));
}

/// A lockfile format.
#[derive(Debug, Clone, Copy, PartialEq, Eq, Structural)]
pub enum LockfileKind {
    Aube,
    Pnpm,
    Npm,
    NpmShrinkwrap,
    Yarn,
    Bun,
}

/// A lockfile to be written for one project.
#[derive(Debug)]
pub struct LockfileWrite {
    /// The position of the project among the workspace manifests.
    pub member: usize,
    pub dir: String,
    pub kind: LockfileKind,
}

/// Whether a lockfile is written for an importer: it is part of the graph, and the root only
/// counts if it is a project itself.
pub open spec fn gets_lockfile(g: LockfileGraph, root_is_project: bool, importer: Seq<char>) -> bool {
    (importer != "."@ || root_is_project) && g.importers@.contains_key(importer)
}

/// Whether a directory is where the lockfile of an importer is written.
pub open spec fn is_lockfile_dir(root: Seq<char>, importer: Seq<char>, dir: Seq<char>) -> bool {
    if importer == "."@ {
        dir == root
    } else {
        paths::joins(root, importer, dir)
    }
}

/// Where the lockfile of an importer is written: at the workspace root, or below it.
pub fn lockfile_dir_of(workspace_root: &str, importer: &str) -> (r: String)
    ensures
        is_lockfile_dir(workspace_root@, importer@, r@),
{
    if text::same_text(importer, ".") {
        workspace_root.to_owned()
    } else {
        paths::join(workspace_root, importer)
    }
}

/// The lockfiles written for the first `n` members: position and format. A format that is
/// there is kept.
pub open spec fn lockfile_writes(
    g: LockfileGraph,
    root_is_project: bool,
    members: lifecycle::Members,
    existing: Seq<Option<LockfileKind>>,
    fallback: LockfileKind,
    n: int,
) -> Seq<(int, LockfileKind)>
    decreases n,
{
    if n <= 0 {
        Seq::empty()
    } else {
        let before = lockfile_writes(g, root_is_project, members, existing, fallback, n - 1);
        let importer = members[n - 1].0@;
        if gets_lockfile(g, root_is_project, importer) {
            before.push(
                (
                    n - 1,
                    match existing[n - 1] {
                        Some(kind) => kind,
                        None => fallback,
                    },
                ),
            )
        } else {
            before
        }
    }
}

/// The positions and formats of a list of planned lockfiles.
pub open spec fn write_views(v: Seq<LockfileWrite>) -> Seq<(int, LockfileKind)> {
    Seq::new(v.len(), |i: int| (v[i].member as int, v[i].kind))
}

/// Whether each planned lockfile is written where that of its project is.
pub open spec fn are_placed(
    root: Seq<char>,
    members: lifecycle::Members,
    v: Seq<LockfileWrite>,
) -> bool {
    forall|i: int|
        0 <= i < v.len() ==> is_lockfile_dir(
            root,
            members[(#[trigger] v[i]).member as int].0@,
            v[i].dir@,
        )
}

/// Plans one lockfile per project of a workspace. `existing` holds the format of the
/// lockfile that each member has; members without one get `fallback_kind`.
pub fn plan_per_project_lockfiles(
    workspace_root: &str,
    graph: &LockfileGraph,
    workspace_manifests: &Vec<(String, PackageJson)>,
    root_is_project: bool,
    existing: &Vec<Option<LockfileKind>>,
    fallback_kind: LockfileKind,
) -> (r: Vec<LockfileWrite>)
    requires
        existing@.len() == workspace_manifests@.len(),
    ensures
        write_views(r@) == lockfile_writes(
            *graph,
            root_is_project,
            workspace_manifests@,
            existing@,
            fallback_kind,
            workspace_manifests@.len() as int,
        ),
        are_placed(workspace_root@, workspace_manifests@, r@),
{
    let mut r: Vec<LockfileWrite> = Vec::new();
    let mut i: usize = 0;
    while i < workspace_manifests.len()
        invariant
            i <= workspace_manifests@.len(),
            existing@.len() == workspace_manifests@.len(),
            write_views(r@) == lockfile_writes(
                *graph,
                root_is_project,
                workspace_manifests@,
                existing@,
                fallback_kind,
                i as int,
            ),
            are_placed(workspace_root@, workspace_manifests@, r@),
        decreases workspace_manifests.len() - i,
    {
        let importer = &workspace_manifests[i].0;
        let is_root = text::same_text(importer.as_str(), ".");
        if (!is_root || root_is_project) && graph.importers.contains_key(importer.as_str()) {
            let dir = lockfile_dir_of(workspace_root, importer.as_str());
            let kind = match existing[i] {
                Some(kind) => kind,
                None => fallback_kind,
            };
            let ghost before = r@;
            let ghost entry = (i as int, kind);
            r.push(LockfileWrite { member: i, dir, kind });
            assert(write_views(r@) == write_views(before).push(entry));
        }
        i = i + 1;
    }
    r
}

/// A project that has a lockfile keeps its format.
pub proof fn existing_formats_are_kept(
    g: LockfileGraph,
    root_is_project: bool,
    members: lifecycle::Members,
    existing: Seq<Option<LockfileKind>>,
    fallback: LockfileKind,
    n: int,
    i: int,
)
    requires
        0 <= i < lockfile_writes(g, root_is_project, members, existing, fallback, n).len(),
    ensures
        ({
            let w = lockfile_writes(g, root_is_project, members, existing, fallback, n)[i];
            &&& 0 <= w.0 < n
            &&& gets_lockfile(g, root_is_project, members[w.0].0@)
            &&& existing[w.0] is Some ==> w.1 == existing[w.0]->0
            &&& existing[w.0] is None ==> w.1 == fallback
        }),
    decreases n,
{
    if n > 0 {
        let before = lockfile_writes(g, root_is_project, members, existing, fallback, n - 1);
        if i < before.len() {
            existing_formats_are_kept(
                g,
                root_is_project,
                members,
                existing,
                fallback,
                n - 1,
                i,
            );
        }
    }
}

/// Whether `at` lists, in ascending order, exactly the positions below `n` that `flags` marks.
pub open spec fn lists_marked(at: Seq<int>, flags: spec_fn(int) -> bool, n: int) -> bool {
    &&& forall|p: int, q: int| 0 <= p < q < at.len() ==> #[trigger] at[p] < #[trigger] at[q]
    &&& forall|p: int| 0 <= p < at.len() ==> 0 <= #[trigger] at[p] < n && flags(at[p])
    &&& forall|i: int| 0 <= i < n && #[trigger] flags(i) ==> at.contains(i)
}

/// What is listed of one position fewer.
pub proof fn lemma_lists_fewer(at: Seq<int>, flags: spec_fn(int) -> bool, n: int)
    requires
        n > 0,
        lists_marked(at, flags, n),
    ensures
        flags(n - 1) ==> at.len() > 0 && at.last() == n - 1 && lists_marked(
            at.drop_last(),
            flags,
            n - 1,
        ),
        !flags(n - 1) ==> lists_marked(at, flags, n - 1),
{
    if flags(n - 1) {
        assert(at.contains(n - 1));
        let p = at.index_of(n - 1);
        assert(at[p] == n - 1);
        assert(0 <= at[at.len() - 1] < n);
        if p < at.len() - 1 {
            assert(at[p] < at[at.len() - 1]);
        }
        let front = at.drop_last();
        assert forall|q: int| 0 <= q < front.len() implies 0 <= #[trigger] front[q] < n - 1
            && flags(front[q]) by {
            assert(front[q] == at[q]);
            assert(at[q] < at[at.len() - 1]);
        }
        assert forall|i: int| 0 <= i < n - 1 && #[trigger] flags(i) implies front.contains(i) by {
            let q = at.index_of(i);
            assert(at.contains(i));
            assert(at[q] == i);
            assert(front[q] == i);
        }
        assert forall|x: int, y: int| 0 <= x < y < front.len() implies #[trigger] front[x]
            < #[trigger] front[y] by {
            assert(at[x] < at[y]);
        }
    } else {
        assert forall|q: int| 0 <= q < at.len() implies 0 <= #[trigger] at[q] < n - 1 && flags(
            at[q],
        ) by {
            assert(flags(at[q]));
        }
    }
}

/// The key of an importer is the way to it with slashes in place of backslashes, and `.` where
/// there is no way to go.
pub proof fn importer_keys_are_ways_with_slashes(way: Seq<char>)
    ensures
        way.len() == 0 ==> importer_key(way) == seq!['.'],
        way.len() > 0 ==> importer_key(way).len() == way.len(),
        forall|i: int|
            0 <= i < way.len() ==> #[trigger] importer_key(way)[i] == (if way[i] == '\\' {
                '/'
            } else {
                way[i]
            }),
{
    reveal_strlit(".");
    assert("."@ == seq!['.']);
    paths::lemma_with_slashes(way);
}

/// The manifests are that of the root, under `.`, and then those of the members, in order, each
/// under its key; a member without a key is the root again and is not listed twice.
pub proof fn members_are_listed_by_their_keys(
    root: PackageJson,
    members: Seq<WorkspaceMember>,
    n: int,
    at: Seq<int>,
)
    requires
        0 <= n <= members.len(),
        lists_marked(at, |i: int| members[i].key@.len() > 0, n),
    ensures
        manifests_upto(root, members, n) == seq![("."@, root)] + Seq::new(
            at.len(),
            |p: int| (members[at[p]].key@, members[at[p]].manifest),
        ),
    decreases n,
{
    let flags = |i: int| members[i].key@.len() > 0;
    if n > 0 {
        lemma_lists_fewer(at, flags, n);
        if flags(n - 1) {
            members_are_listed_by_their_keys(root, members, n - 1, at.drop_last());
            assert(manifests_upto(root, members, n) == seq![("."@, root)] + Seq::new(
                at.len(),
                |p: int| (members[at[p]].key@, members[at[p]].manifest),
            ));
        } else {
            members_are_listed_by_their_keys(root, members, n - 1, at);
        }
    } else {
        assert(at.len() == 0) by {
            if at.len() > 0 {
                assert(0 <= at[0] < n);
            }
        }
        assert(manifests_upto(root, members, n) == seq![("."@, root)] + Seq::new(
            at.len(),
            |p: int| (members[at[p]].key@, members[at[p]].manifest),
        ));
    }
}

/// A named package of the workspace is known by its version, or `0.0.0` without one, and by its
/// directory; of members with one name the last counts, and every member counts before the
/// root. A name that no package has is unknown.
pub proof fn packages_are_known_by_their_names(
    cwd: Seq<char>,
    root: PackageJson,
    members: Seq<WorkspaceMember>,
    n: int,
    i: int,
    name: Seq<char>,
)
    requires
        0 <= n <= members.len(),
        -1 <= i < n,
        forall|j: int|
            i < j < n && (#[trigger] members[j]).manifest.name is Some
                ==> members[j].manifest.name->0@ != name,
    ensures
        i >= 0 && members[i].manifest.name is Some && members[i].manifest.name->0@ == name ==> ({
            &&& versions_upto(root, members, n).contains_key(name)
            &&& members[i].manifest.version is Some ==> versions_upto(root, members, n)[name]
                == members[i].manifest.version->0@
            &&& members[i].manifest.version is None ==> versions_upto(root, members, n)[name]
                == "0.0.0"@
            &&& dirs_upto(cwd, root, members, n).contains_key(name)
            &&& dirs_upto(cwd, root, members, n)[name] == members[i].dir@
        }),
        i == -1 && root.name is Some && root.name->0@ == name ==> ({
            &&& versions_upto(root, members, n).contains_key(name)
            &&& root.version is Some ==> versions_upto(root, members, n)[name] == root.version->0@
            &&& root.version is None ==> versions_upto(root, members, n)[name] == "0.0.0"@
            &&& dirs_upto(cwd, root, members, n).contains_key(name)
            &&& dirs_upto(cwd, root, members, n)[name] == cwd
        }),
        i == -1 && (root.name is None || root.name->0@ != name) ==> !versions_upto(
            root,
            members,
            n,
        ).contains_key(name) && !dirs_upto(cwd, root, members, n).contains_key(name),
    decreases n,
{
    if n > 0 && i < n - 1 {
        assert(members[n - 1].manifest.name is Some ==> members[n - 1].manifest.name->0@ != name);
        packages_are_known_by_their_names(cwd, root, members, n - 1, i, name);
    }
}

/// A plan lists the directories of the members in order. There is a workspace if there is a
/// member, and all importers are linked if, moreover, the installation is recursive or a filter
/// selects.
pub proof fn plans_tell_of_their_workspace(
    plan: WorkspaceInstallPlan,
    cwd: Seq<char>,
    root_manifest: PackageJson,
    members: Seq<WorkspaceMember>,
    is_workspace_project: bool,
    recursive_install: bool,
    filter_is_empty: bool,
)
    requires
        is_plan(
            plan,
            cwd,
            root_manifest,
            members,
            is_workspace_project,
            recursive_install,
            filter_is_empty,
        ),
    ensures
        plan.workspace_packages@.len() == members.len(),
        forall|i: int|
            0 <= i < members.len() ==> (#[trigger] plan.workspace_packages@[i])@ == members[i].dir@,
        plan.has_workspace <==> members.len() > 0,
        plan.is_workspace_project == is_workspace_project,
        plan.link_all_workspace_importers <==> members.len() > 0 && (recursive_install
            || !filter_is_empty),
        plan.manifests@.len() > 0 && plan.manifests@[0].0@ == "."@ && plan.manifests@[0].1
            == root_manifest,
        crate::config::text_values(plan.ws_package_versions@) == versions_upto(
            root_manifest,
            members,
            members.len() as int,
        ),
        crate::config::text_values(plan.ws_dirs@) == dirs_upto(
            cwd,
            root_manifest,
            members,
            members.len() as int,
        ),
        keyed(plan.manifests@) == manifests_upto(root_manifest, members, members.len() as int),
{
    assert(text::views(plan.workspace_packages@).len() == plan.workspace_packages@.len());
    assert(member_dirs(members, members.len() as int).len() == members.len());
    assert forall|i: int| 0 <= i < members.len() implies (
    #[trigger] plan.workspace_packages@[i])@ == members[i].dir@ by {
        assert(text::views(plan.workspace_packages@)[i] == member_dirs(
            members,
            members.len() as int,
        )[i]);
    }
    lemma_root_comes_first(root_manifest, members, members.len() as int);
    assert(keyed(plan.manifests@)[0] == (plan.manifests@[0].0@, plan.manifests@[0].1));
}

proof fn lemma_root_comes_first(root: PackageJson, members: Seq<WorkspaceMember>, n: int)
    requires
        0 <= n,
    ensures
        manifests_upto(root, members, n).len() > 0,
        manifests_upto(root, members, n)[0] == ("."@, root),
    decreases n,
{
    if n > 0 {
        lemma_root_comes_first(root, members, n - 1);
    }
}

proof fn lemma_marked(flags: Seq<bool>, n: int, at: Seq<int>)
    requires
        0 <= n <= flags.len(),
        lists_marked(at, |i: int| flags[i], n),
    ensures
        marked(flags, n) == at,
    decreases n,
{
    if n > 0 {
        lemma_lists_fewer(at, |i: int| flags[i], n);
        if flags[n - 1] {
            lemma_marked(flags, n - 1, at.drop_last());
            assert(at == at.drop_last().push(n - 1));
        } else {
            lemma_marked(flags, n - 1, at);
        }
    } else {
        assert(at.len() == 0) by {
            if at.len() > 0 {
                assert(0 <= at[0] < n);
            }
        }
        assert(at == Seq::<int>::empty());
    }
}

/// Where not all importers are linked, the scripts of the root run and no others. Where they
/// are, the scripts of the importers that are directories of their own run, each once and no
/// others, in the order that their dependencies on each other give.
pub proof fn scripts_run_where_importers_are_linked(
    m: lifecycle::Members,
    physical: Seq<bool>,
    at: Seq<int>,
)
    requires
        physical.len() == m.len(),
        lists_marked(at, |i: int| physical[i], m.len() as int),
    ensures
        lifecycle_positions(m, physical, false) == seq![0int],
        ({
            let chosen = Seq::new(at.len(), |i: int| m[at[i]]);
            let order = lifecycle::lifecycle_order(chosen);
            let run = lifecycle_positions(m, physical, true);
            &&& run.len() == at.len()
            &&& forall|i: int| 0 <= i < run.len() ==> #[trigger] run[i] == at[order[i]]
            &&& forall|i: int| 0 <= i < run.len() ==> at.contains(#[trigger] run[i])
            &&& forall|i: int, j: int|
                0 <= i < j < run.len() ==> #[trigger] run[i] != #[trigger] run[j]
        }),
{
    lemma_marked(physical, m.len() as int, at);
    let chosen = Seq::new(at.len(), |i: int| m[at[i]]);
    assert(at_positions(m, at) == chosen);
    lifecycle::lifecycle_order_is_a_permutation(chosen);
    let order = lifecycle::lifecycle_order(chosen);
    let run = lifecycle_positions(m, physical, true);
    assert forall|i: int| 0 <= i < run.len() implies at.contains(#[trigger] run[i]) by {
        assert(run[i] == at[order[i]]);
    }
    assert forall|i: int, j: int| 0 <= i < j < run.len() implies #[trigger] run[i]
        != #[trigger] run[j] by {
        assert(order[i] != order[j]);
        assert(run[i] == at[order[i]] && run[j] == at[order[j]]);
        if order[i] < order[j] {
            assert(at[order[i]] < at[order[j]]);
        } else {
            assert(at[order[j]] < at[order[i]]);
        }
    }
}

/// Exactly the members that are part of the graph get a lockfile, the root only where it is a
/// project itself, in order, each in the format that it has, or else in the given one.
pub proof fn members_of_the_graph_get_lockfiles(
    g: LockfileGraph,
    root_is_project: bool,
    members: lifecycle::Members,
    existing: Seq<Option<LockfileKind>>,
    fallback: LockfileKind,
    n: int,
    at: Seq<int>,
)
    requires
        0 <= n <= members.len(),
        existing.len() == members.len(),
        lists_marked(
            at,
            |i: int|
                g.importers@.contains_key(members[i].0@) && (root_is_project || members[i].0@
                    != "."@),
            n,
        ),
    ensures
        lockfile_writes(g, root_is_project, members, existing, fallback, n) == Seq::new(
            at.len(),
            |p: int|
                (
                    at[p],
                    if existing[at[p]] is Some {
                        existing[at[p]]->0
                    } else {
                        fallback
                    },
                ),
        ),
    decreases n,
{
    let flags = |i: int|
        g.importers@.contains_key(members[i].0@) && (root_is_project || members[i].0@ != "."@);
    if n > 0 {
        lemma_lists_fewer(at, flags, n);
        if flags(n - 1) {
            members_of_the_graph_get_lockfiles(
                g,
                root_is_project,
                members,
                existing,
                fallback,
                n - 1,
                at.drop_last(),
            );
        } else {
            members_of_the_graph_get_lockfiles(
                g,
                root_is_project,
                members,
                existing,
                fallback,
                n - 1,
                at,
            );
        }
    } else {
        assert(at.len() == 0) by {
            if at.len() > 0 {
                assert(0 <= at[0] < n);
            }
        }
    }
}

/// A graph that is narrowed keeps the chosen importers as they were and no others. Of the
/// packages it keeps, as they were, the direct dependencies of these importers and, with a
/// package, what it depends on, as far as the graph has it.
pub proof fn narrowed_graphs_keep_what_is_needed(
    before: LockfileGraph,
    after: LockfileGraph,
    keys: Set<Seq<char>>,
    importer: Seq<char>,
    i: int,
    k: Seq<char>,
    name: Seq<char>,
)
    requires
        is_narrowed(before, after, keys),
    ensures
        after.importers@.contains_key(importer) <==> before.importers@.contains_key(importer)
            && keys.contains(importer),
        after.importers@.contains_key(importer) ==> after.importers@[importer]
            == before.importers@[importer],
        after.packages@.contains_key(k) ==> before.packages@.contains_key(k) && after.packages@[k]
            == before.packages@[k],
        before.importers@.contains_key(importer) && keys.contains(importer) && 0 <= i
            < before.importers@[importer]@.len() && before.packages@.contains_key(
            before.importers@[importer]@[i].dep_path@,
        ) ==> after.packages@.contains_key(before.importers@[importer]@[i].dep_path@),
        after.packages@.contains_key(k) && before.packages@[k].dependencies@.contains_key(name)
            && before.packages@.contains_key(
            name + seq!['@'] + before.packages@[k].dependencies@[name]@,
        ) ==> after.packages@.contains_key(
            name + seq!['@'] + before.packages@[k].dependencies@[name]@,
        ),
{
    let narrow = choose|narrow: LockfileGraph|
        #![trigger lockfile::starts_anywhere(narrow)]
        narrow.importers == after.importers && narrow.packages == before.packages
            && after.packages@ == before.packages@.restrict(
            lockfile::reached(narrow, lockfile::starts_anywhere(narrow)),
        );
    let starts = lockfile::starts_anywhere(narrow);
    if before.importers@.contains_key(importer) && keys.contains(importer) && 0 <= i
        < before.importers@[importer]@.len() && before.packages@.contains_key(
        before.importers@[importer]@[i].dep_path@,
    ) {
        let p = before.importers@[importer]@[i].dep_path@;
        lockfile::one_starts_from_direct_dependencies(
            narrow,
            lockfile::DepFilter::All,
            false,
            importer,
            i,
            p,
        );
        let path = seq![p];
        assert(path[0] == p && path.last() == p);
        assert(lockfile::is_path(narrow, starts, path));
        assert(lockfile::reachable(narrow, starts, p));
    }
    if after.packages@.contains_key(k) && before.packages@[k].dependencies@.contains_key(name)
        && before.packages@.contains_key(
        name + seq!['@'] + before.packages@[k].dependencies@[name]@,
    ) {
        assert(lockfile::reachable(narrow, starts, k));
        lockfile::dependencies_of_dependencies_are_installed(narrow, starts, k, name);
    }
}

/// A graph that is narrowed keeps no package beyond those: every collection that holds the
/// direct dependencies of the chosen importers, and with a package what it depends on, holds
/// all that is kept.
pub proof fn narrowed_graphs_keep_nothing_else(
    before: LockfileGraph,
    after: LockfileGraph,
    keys: Set<Seq<char>>,
    held: Set<Seq<char>>,
    k: Seq<char>,
)
    requires
        is_narrowed(before, after, keys),
        after.packages@.contains_key(k),
        forall|importer: Seq<char>, i: int|
            #![trigger before.importers@[importer]@[i]]
            before.importers@.contains_key(importer) && keys.contains(importer) && 0 <= i
                < before.importers@[importer]@.len() ==> held.contains(
                before.importers@[importer]@[i].dep_path@,
            ),
        forall|a: Seq<char>, name: Seq<char>|
            #![trigger before.packages@[a].dependencies@.contains_key(name)]
            held.contains(a) && before.packages@.contains_key(a)
                && before.packages@[a].dependencies@.contains_key(name) ==> held.contains(
                name + seq!['@'] + before.packages@[a].dependencies@[name]@,
            ),
    ensures
        held.contains(k),
{
    let narrow = choose|narrow: LockfileGraph|
        #![trigger lockfile::starts_anywhere(narrow)]
        narrow.importers == after.importers && narrow.packages == before.packages
            && after.packages@ == before.packages@.restrict(
            lockfile::reached(narrow, lockfile::starts_anywhere(narrow)),
        );
    let starts = lockfile::starts_anywhere(narrow);
    assert(lockfile::reachable(narrow, starts, k));
    assert forall|s: Seq<char>| #[trigger] starts.contains(s) && narrow.packages@.contains_key(
        s,
    ) implies held.contains(s) by {
        lockfile::one_starts_from_direct_dependencies(
            narrow,
            lockfile::DepFilter::All,
            false,
            Seq::empty(),
            0,
            s,
        );
        let m = choose|m: Seq<char>|
            #![trigger narrow.importers@[m]]
            narrow.importers@.contains_key(m) && lockfile::dep_paths(
                narrow.importers@[m]@,
            ).contains(s);
        lockfile::one_starts_from_direct_dependencies(
            narrow,
            lockfile::DepFilter::All,
            false,
            m,
            0,
            s,
        );
        let x = choose|x: int|
            0 <= x < narrow.importers@[m]@.len() && (#[trigger] narrow.importers@[m]@[x]).dep_path@
                == s;
        assert(before.importers@[m]@[x].dep_path@ == s);
    }
    lockfile::nothing_else_is_installed(narrow, starts, held, k);
}

/// The lockfile of the root is written at the root, that of another importer below it.
pub proof fn lockfiles_stand_with_their_importers(
    root: Seq<char>,
    importer: Seq<char>,
    dir: Seq<char>,
)
    requires
        is_lockfile_dir(root, importer, dir),
    ensures
        importer == "."@ ==> dir == root,
        importer != "."@ ==> paths::joins(root, importer, dir),
{
}

/// The importer key of the root is `.`. Elsewhere it is the way from the root, with slashes on
/// every platform; where there is no way there is no key.
pub proof fn importer_keys_lead_from_the_root(
    workspace_root: Seq<char>,
    dir: Seq<char>,
    key: Option<Seq<char>>,
)
    requires
        is_importer_key(workspace_root, dir, key),
    ensures
        dir == workspace_root ==> key == Some(seq!['.']),
        key is Some ==> key->0.len() > 0 && !key->0.contains('\\'),
        paths::are_comparable(dir, workspace_root) ==> ({
            let way = paths::way_to(dir, workspace_root);
            &&& way is None ==> key is None
            &&& way is Some && way->0.len() == 0 ==> key == Some(seq!['.'])
            &&& way is Some && way->0.len() > 0 ==> key == way
        }),
{
    reveal_strlit(".");
    assert("."@ == seq!['.']);
}

/// A member is listed under the way to it from the directory where the workspace is, which is
/// empty for that directory itself; where there is no way, under its own directory.
pub proof fn members_are_listed_under_ways(cwd: Seq<char>, dir: Seq<char>, key: Seq<char>)
    requires
        is_member_key(cwd, dir, key),
    ensures
        dir == cwd ==> key.len() == 0,
        !key.contains('\\'),
        paths::are_comparable(dir, cwd) ==> ({
            let way = paths::way_to(dir, cwd);
            &&& way is Some ==> key == way->0
            &&& way is None ==> key == dir
        }),
{
}

/// Members are the packages that were found, all of them, in the same order, each with its
/// directory and manifest.
pub proof fn members_are_the_packages_found(
    cwd: Seq<char>,
    packages: Seq<(String, PackageJson)>,
    members: Seq<WorkspaceMember>,
    i: int,
)
    requires
        are_keyed(cwd, packages, members),
        0 <= i < packages.len(),
    ensures
        members.len() == packages.len(),
        members[i].dir@ == packages[i].0@,
        members[i].manifest == packages[i].1,
        is_member_key(cwd, packages[i].0@, members[i].key@),
{
}

/// On every platform the key of an importer is the way to it, with slashes, as that platform
/// finds it; and so is the key of a member, where there is a way.
pub proof fn keys_are_ways_as_a_platform_finds_them(
    windows: bool,
    workspace_root: Seq<char>,
    dir: Seq<char>,
    importer: Option<Seq<char>>,
    member: Seq<char>,
)
    requires
        paths::says_way(windows, dir, workspace_root),
    ensures
        is_importer_key_on(windows, workspace_root, dir, importer) ==> ({
            let way = paths::way_on(windows, dir, workspace_root);
            &&& way is None ==> importer is None
            &&& way is Some && way->0.len() == 0 ==> importer == Some(seq!['.'])
            &&& way is Some && way->0.len() > 0 ==> importer == Some(paths::with_slashes(way->0))
        }),
        is_member_key_on(windows, workspace_root, dir, member) ==> ({
            let way = paths::way_on(windows, dir, workspace_root);
            &&& way is None ==> member == paths::with_slashes(dir)
            &&& way is Some ==> member == paths::with_slashes(way->0)
        }),
{
    reveal_strlit(".");
    assert("."@ == seq!['.']);
    let way = paths::way_on(windows, dir, workspace_root);
    if way is Some {
        paths::lemma_with_slashes(way->0);
    }
}

/// A key is one that some platform gives.
pub proof fn keys_are_those_of_a_platform(
    workspace_root: Seq<char>,
    dir: Seq<char>,
    importer: Option<Seq<char>>,
    member: Seq<char>,
)
    ensures
        is_importer_key(workspace_root, dir, importer) ==> is_importer_key_on(
            true,
            workspace_root,
            dir,
            importer,
        ) || is_importer_key_on(false, workspace_root, dir, importer),
        is_member_key(workspace_root, dir, member) ==> is_member_key_on(
            true,
            workspace_root,
            dir,
            member,
        ) || is_member_key_on(false, workspace_root, dir, member),
{
}

/// The directory of an importer is the workspace root for `.`, and for every other key the
/// normalized path that the key gives below the root.
pub proof fn importers_have_their_directories(
    workspace_root: Seq<char>,
    importer: Seq<char>,
    dir: Seq<char>,
)
    requires
        is_importer_dir(workspace_root, importer, dir),
    ensures
        importer == seq!['.'] ==> dir == workspace_root,
        importer != seq!['.'] ==> exists|read: Seq<char>| #[trigger]
            paths::is_read_as(workspace_root, importer, read) && paths::normalizes(read, dir),
        importer != seq!['.'] && paths::reads_alike(workspace_root) && paths::reads_alike(importer)
            ==> paths::with_slashes(dir) == paths::normalized(
            paths::joined_path(workspace_root, importer),
        ),
{
    reveal_strlit(".");
    assert("."@ == seq!['.']);
}

/// The keys of a selection are those of the selected packages, one for each, in order.
pub proof fn selected_packages_have_their_keys(
    workspace_root: Seq<char>,
    dirs: Seq<String>,
    keys: Seq<String>,
    i: int,
)
    requires
        are_importer_keys(workspace_root, dirs, keys),
        0 <= i < dirs.len(),
    ensures
        keys.len() == dirs.len(),
        is_importer_key(workspace_root, dirs[i]@, Some(keys[i]@)),
        text_map::text_set(keys).contains(keys[i]@),
{
    assert(keys[i]@ == keys[i]@);
}

} // verus!
