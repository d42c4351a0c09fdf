//! Versions of aube itself: which ones are installed, and how another one gets installed so
//! that a project's pin can be followed.

use crate::mise;
use crate::paths;
use crate::semver;
use crate::semver::Version;
use crate::text;
use vstd::prelude::*;

verus! {

/// Where release archives are, unless configured otherwise.
pub const RELEASE_BASE: &'static str = "https://github.com/jdx/aube/releases/download";

/// Where the newest version is announced, unless configured otherwise.
pub const VERSION_URL: &'static str = "https://aube.jdx.dev/VERSION";

/// Who made an installation.
#[derive(Debug, Clone, Copy, PartialEq, Eq, Structural)]
pub enum InstallOrigin {
    Mise,
    Aube,
}

/// Who is to make installations.
#[derive(Debug, Clone, Copy, PartialEq, Eq, Structural)]
pub enum InstallerMode {
    /// aube, from release archives.
    Aube,
    /// mise.
    Mise,
    /// mise if it is there and succeeds, else aube.
    Auto,
}

/// An installation of aube that can be used.
#[derive(Debug)]
pub struct InstalledAube {
    pub version: Version,
    pub install_dir: String,
    /// The `aube` executable.
    pub exe: String,
    pub origin: InstallOrigin,
}

/// What is found in the directory of a version.
#[derive(Debug, Clone, Copy)]
pub struct InstallFacts {
    /// mise has left its mark that the installation is not complete.
    pub incomplete: bool,
    /// The executable is at the root.
    pub exe_at_root: bool,
    /// The executable is under `bin/`.
    pub exe_in_bin: bool,
}

/// An entry of the directory that holds one directory per version.
#[derive(Debug)]
pub struct VersionDir {
    /// Its name, if that is text.
    pub name: Option<String>,
    /// It is a directory, not a link to one.
    pub is_dir: bool,
    pub facts: InstallFacts,
}

/// Whether a directory is that of aube's own installations: as set by `AUBE_SELF_DIR`, else
/// below the platform's directory for application data.
pub open spec fn is_own_dir(
    set: Option<Seq<char>>,
    local_app_data: Option<Seq<char>>,
    data_home: Option<Seq<char>>,
    home: Option<Seq<char>>,
    dir: Option<Seq<char>>,
) -> bool {
    if set is Some {
        dir == set
    } else if local_app_data is Some {
        dir is Some && paths::joins(local_app_data->0, "aube/self"@, dir->0)
    } else if data_home is Some {
        dir is Some && paths::joins(data_home->0, "aube/self"@, dir->0)
    } else if home is Some {
        dir is Some && exists|share: Seq<char>| #[trigger]
            paths::joins(home->0, ".local/share"@, share) && paths::joins(
                share,
                "aube/self"@,
                dir->0,
            )
    } else {
        dir is None
    }
}

/// The directory of aube's own installations. `local_app_data` is only there on Windows.
pub fn self_dir(
    set: Option<String>,
    local_app_data: Option<String>,
    data_home: Option<String>,
    home: Option<String>,
) -> (r: Option<String>)
    ensures
        is_own_dir(
            text::view_opt(set),
            text::view_opt(local_app_data),
            text::view_opt(data_home),
            text::view_opt(home),
            text::view_opt(r),
        ),
{
    if let Some(dir) = set {
        return Some(dir);
    }
    if let Some(local) = local_app_data {
        return Some(paths::join(local.as_str(), "aube/self"));
    }
    if let Some(data) = data_home {
        return Some(paths::join(data.as_str(), "aube/self"));
    }
    match home {
        Some(h) => {
            let share = paths::join(h.as_str(), ".local/share");
            let dir = paths::join(share.as_str(), "aube/self");
            assert(text::view_opt(home) == Some(h@));
            assert(paths::joins(text::view_opt(home)->0, ".local/share"@, share@));
            Some(dir)
        },
        None => None,
    }
}

/// Whether the directory of a version holds an executable that can be used: there is none if
/// the installation is not complete.
pub open spec fn has_exe(facts: InstallFacts) -> bool {
    !facts.incomplete && (facts.exe_at_root || facts.exe_in_bin)
}

/// Whether a path is that of the executable in the directory of a version: at the root, else
/// under `bin/`.
pub open spec fn is_exe(
    dir: Seq<char>,
    exe_name: Seq<char>,
    facts: InstallFacts,
    exe: Seq<char>,
) -> bool {
    if facts.exe_at_root {
        paths::joins(dir, exe_name, exe)
    } else {
        exists|bin: Seq<char>| #[trigger]
            paths::joins(dir, "bin"@, bin) && paths::joins(bin, exe_name, exe)
    }
}

/// The installation in the directory of a version, if it can be used.
pub fn validate_aube_install(
    dir: &str,
    exe_name: &str,
    version: Version,
    origin: InstallOrigin,
    facts: InstallFacts,
) -> (r: Option<InstalledAube>)
    ensures
        match r {
            Some(i) => {
                &&& i.version == version
                &&& i.install_dir@ == dir@
                &&& has_exe(facts)
                &&& is_exe(dir@, exe_name@, facts, i.exe@)
                &&& i.origin == origin
            },
            None => !has_exe(facts),
        },
{
    if facts.incomplete {
        return None;
    }
    let exe = if facts.exe_at_root {
        paths::join(dir, exe_name)
    } else if facts.exe_in_bin {
        paths::join(paths::join(dir, "bin").as_str(), exe_name)
    } else {
        return None;
    };
    Some(InstalledAube { version, install_dir: dir.to_owned(), exe, origin })
}

/// The version that a directory is for: its name, with or without a leading `v`.
pub open spec fn version_of_dir(name: Seq<char>) -> Option<semver::VersionModel> {
    semver::parsed_version(text::trimmed_start(name, 'v'))
}

/// Whether a directory entry stands for an installation that can be used.
pub open spec fn counts(entry: VersionDir) -> bool {
    &&& entry.is_dir
    &&& entry.name is Some
    &&& version_of_dir(entry.name->0@) is Some
    &&& has_exe(entry.facts)
}

/// Whether an installation is the one that a directory entry stands for.
pub open spec fn is_install_in(
    root: Seq<char>,
    exe_name: Seq<char>,
    entry: VersionDir,
    origin: InstallOrigin,
    i: InstalledAube,
) -> bool {
    &&& version_of_dir(entry.name->0@) == Some(i.version@)
    &&& paths::joins(root, entry.name->0@, i.install_dir@)
    &&& is_exe(i.install_dir@, exe_name, entry.facts, i.exe@)
    &&& i.origin == origin
}

/// The positions of those of the first `n` directory entries that stand for installations.
pub open spec fn counting(entries: Seq<VersionDir>, n: int) -> Seq<int>
    decreases n,
{
    if n <= 0 {
        Seq::empty()
    } else if counts(entries[n - 1]) {
        counting(entries, n - 1).push(n - 1)
    } else {
        counting(entries, n - 1)
    }
}

/// Whether installations are those that the first `n` directory entries stand for, in order.
pub open spec fn are_installs_in(
    root: Seq<char>,
    exe_name: Seq<char>,
    entries: Seq<VersionDir>,
    n: int,
    origin: InstallOrigin,
    v: Seq<InstalledAube>,
) -> bool {
    &&& v.len() == counting(entries, n).len()
    &&& forall|i: int|
        0 <= i < v.len() ==> is_install_in(
            root,
            exe_name,
            entries[counting(entries, n)[i]],
            origin,
            #[trigger] v[i],
        )
}

/// The installations in a directory that holds one directory per version. Links, such as
/// mise's aliases, and names that are no versions do not count.
pub fn scan_aube_dir(
    root: &str,
    exe_name: &str,
    entries: &Vec<VersionDir>,
    origin: InstallOrigin,
) -> (r: Vec<InstalledAube>)
    ensures
        are_installs_in(root@, exe_name@, entries@, entries@.len() as int, origin, r@),
{
    let mut r: Vec<InstalledAube> = Vec::new();
    let mut i: usize = 0;
    while i < entries.len()
        invariant
            i <= entries@.len(),
            are_installs_in(root@, exe_name@, entries@, i as int, origin, r@),
        decreases entries.len() - i,
    {
        let entry = &entries[i];
        if entry.is_dir {
            if let Some(name) = &entry.name {
                let bare = text::trim_start_matches(name.as_str(), 'v');
                if let Some(version) = semver::parse_version(bare.as_str()) {
                    let dir = paths::join(root, name.as_str());
                    if let Some(install) = validate_aube_install(
                        dir.as_str(),
                        exe_name,
                        version,
                        origin,
                        entry.facts,
                    ) {
                        let ghost before = r@;
                        r.push(install);
                        proof {
                            let now = counting(entries@, i + 1);
                            assert(now == counting(entries@, i as int).push(i as int));
                            assert forall|j: int| 0 <= j < r@.len() implies is_install_in(
                                root@,
                                exe_name@,
                                entries@[now[j]],
                                origin,
                                #[trigger] r@[j],
                            ) by {
                                if j < before.len() {
                                    assert(r@[j] == before[j]);
                                }
                            }
                        }
                    }
                }
            }
        }
        i = i + 1;
    }
    r
}

/// Whether `v[i]` is the last of its version in a list.
pub open spec fn is_last_of_version(v: Seq<InstalledAube>, i: int) -> bool {
    &&& 0 <= i < v.len()
    &&& forall|j: int|
        i < j < v.len() ==> !semver::same_precedence(
            (#[trigger] v[j]).version@,
            v[i].version@,
        )
}

/// Whether a list of installations is by ascending version, one of each version.
pub open spec fn by_version(v: Seq<InstalledAube>) -> bool {
    forall|i: int, j: int|
        0 <= i < j < v.len() ==> semver::version_less(
            (#[trigger] v[i]).version@,
            (#[trigger] v[j]).version@,
        )
}

/// Whether `x` is the last of its version in a list.
pub open spec fn is_last_in(all: Seq<InstalledAube>, x: InstalledAube) -> bool {
    exists|i: int| #[trigger] is_last_of_version(all, i) && all[i] == x
}

/// Whether a list has an installation of a version.
pub open spec fn has_version(r: Seq<InstalledAube>, v: semver::VersionModel) -> bool {
    exists|j: int| 0 <= j < r.len() && semver::same_precedence((#[trigger] r[j]).version@, v)
}

/// Whether `r` lists, by version, the last installation of each version in `all`.
pub open spec fn lists_last_of_each(all: Seq<InstalledAube>, r: Seq<InstalledAube>) -> bool {
    &&& by_version(r)
    &&& forall|j: int| 0 <= j < r.len() ==> #[trigger] is_last_in(all, r[j])
    &&& forall|i: int| 0 <= i < all.len() ==> #[trigger] has_version(r, all[i].version@)
}

/// Puts an installation in its place in a list by version; it replaces one of its version.
fn put_by_version(v: &mut Vec<InstalledAube>, install: InstalledAube, all: Ghost<Seq<InstalledAube>>)
    requires
        lists_last_of_each(all@, old(v)@),
    ensures
        lists_last_of_each(all@.push(install), final(v)@),
{
    let ghost before = v@;
    let ghost x = install.version@;
    let mut at: usize = 0;
    while at < v.len() && v[at].version.precedes(&install.version)
        invariant
            v@ == before,
            at <= v@.len(),
            x == install.version@,
            forall|j: int| 0 <= j < at ==> semver::version_less((#[trigger] v@[j]).version@, x),
        decreases v.len() - at,
    {
        at = at + 1;
    }
    let replaces = at < v.len() && !install.version.precedes(&v[at].version);
    if replaces {
        v.remove(at);
    }
    let ghost new = install;
    v.insert(at, install);
    proof {
        lemma_put_by_version(all@, before, new, at as int, replaces);
        assert(v@ == put_at(before, new, at as int, replaces));
    }
}

/// What `at` is when a version is to be put into a list.
spec fn is_place(before: Seq<InstalledAube>, x: semver::VersionModel, at: int, replaces: bool) -> bool {
    &&& 0 <= at <= before.len()
    &&& forall|j: int|
        0 <= j < at ==> semver::version_less((#[trigger] before[j]).version@, x)
    &&& replaces ==> at < before.len() && semver::same_precedence(before[at].version@, x)
    &&& !replaces && at < before.len() ==> semver::version_less(x, before[at].version@)
}

spec fn put_at(
    before: Seq<InstalledAube>,
    new: InstalledAube,
    at: int,
    replaces: bool,
) -> Seq<InstalledAube> {
    if replaces {
        before.update(at, new)
    } else {
        before.insert(at, new)
    }
}

/// Where an element of the new list was in the old one.
spec fn source_of(j: int, at: int, replaces: bool) -> int {
    if j < at || replaces {
        j
    } else {
        j - 1
    }
}

proof fn lemma_after_place(before: Seq<InstalledAube>, x: semver::VersionModel, at: int, replaces: bool, j: int)
    requires
        by_version(before),
        is_place(before, x, at, replaces),
        at <= j < before.len(),
        replaces ==> at < j,
    ensures
        semver::version_less(x, before[j].version@),
{
    if at < j {
        assert(semver::version_less(before[at].version@, before[j].version@));
        if replaces {
            semver::version_order_is_a_weak_order(before[at].version@, x, before[j].version@);
        } else {
            semver::version_order_is_transitive(x, before[at].version@, before[j].version@);
        }
    }
}

proof fn lemma_put_keeps_order(before: Seq<InstalledAube>, new: InstalledAube, at: int, replaces: bool)
    requires
        by_version(before),
        is_place(before, new.version@, at, replaces),
    ensures
        by_version(put_at(before, new, at, replaces)),
{
    let r = put_at(before, new, at, replaces);
    assert forall|i: int, j: int| 0 <= i < j < r.len() implies semver::version_less(
        (#[trigger] r[i]).version@,
        (#[trigger] r[j]).version@,
    ) by {
        let a = source_of(i, at, replaces);
        let b = source_of(j, at, replaces);
        if i == at {
            assert(r[j] == before[b]);
            lemma_after_place(before, new.version@, at, replaces, b);
        } else if j == at {
            assert(r[i] == before[a]);
        } else {
            assert(r[i] == before[a] && r[j] == before[b]);
            assert(semver::version_less(before[a].version@, before[b].version@));
        }
    }
}

proof fn lemma_put_keeps_last(
    all: Seq<InstalledAube>,
    before: Seq<InstalledAube>,
    new: InstalledAube,
    at: int,
    replaces: bool,
    j: int,
)
    requires
        lists_last_of_each(all, before),
        is_place(before, new.version@, at, replaces),
        0 <= j < put_at(before, new, at, replaces).len(),
    ensures
        is_last_in(all.push(new), put_at(before, new, at, replaces)[j]),
{
    let r = put_at(before, new, at, replaces);
    let more = all.push(new);
    if j == at {
        let i = all.len() as int;
        assert(is_last_of_version(more, i) && more[i] == r[j]);
    } else {
        let b = source_of(j, at, replaces);
        assert(r[j] == before[b]);
        if b > at || b == at && !replaces {
            lemma_after_place(before, new.version@, at, replaces, b);
        }
        assert(!semver::same_precedence(new.version@, before[b].version@));
        assert(is_last_in(all, before[b]));
        let i = choose|i: int| #[trigger] is_last_of_version(all, i) && all[i] == before[b];
        assert forall|k: int| i < k < more.len() implies !semver::same_precedence(
            (#[trigger] more[k]).version@,
            more[i].version@,
        ) by {
            if k < all.len() {
                assert(more[k] == all[k]);
            }
        }
        assert(is_last_of_version(more, i) && more[i] == r[j]);
    }
}

proof fn lemma_put_keeps_versions(
    all: Seq<InstalledAube>,
    before: Seq<InstalledAube>,
    new: InstalledAube,
    at: int,
    replaces: bool,
    i: int,
)
    requires
        lists_last_of_each(all, before),
        is_place(before, new.version@, at, replaces),
        0 <= i <= all.len(),
    ensures
        has_version(put_at(before, new, at, replaces), all.push(new)[i].version@),
{
    let r = put_at(before, new, at, replaces);
    let x = new.version@;
    assert(r[at] == new);
    if i == all.len() {
        semver::version_order_is_irreflexive(x);
        assert(semver::same_precedence(r[at].version@, x));
    } else {
        let v = all[i].version@;
        assert(has_version(before, v));
        let b = choose|b: int|
            0 <= b < before.len() && semver::same_precedence((#[trigger] before[b]).version@, v);
        if replaces && b == at {
            semver::version_order_is_a_weak_order(before[at].version@, x, v);
            assert(semver::same_precedence(r[at].version@, v));
        } else {
            let j = if b < at || replaces {
                b
            } else {
                b + 1
            };
            assert(r[j] == before[b]);
            assert(semver::same_precedence(r[j].version@, v));
        }
    }
}

proof fn lemma_put_by_version(
    all: Seq<InstalledAube>,
    before: Seq<InstalledAube>,
    new: InstalledAube,
    at: int,
    replaces: bool,
)
    requires
        lists_last_of_each(all, before),
        is_place(before, new.version@, at, replaces),
    ensures
        lists_last_of_each(all.push(new), put_at(before, new, at, replaces)),
{
    let r = put_at(before, new, at, replaces);
    lemma_put_keeps_order(before, new, at, replaces);
    assert forall|j: int| 0 <= j < r.len() implies #[trigger] is_last_in(all.push(new), r[j]) by {
        lemma_put_keeps_last(all, before, new, at, replaces, j);
    }
    assert forall|i: int| 0 <= i < all.push(new).len() implies #[trigger] has_version(
        r,
        all.push(new)[i].version@,
    ) by {
        lemma_put_keeps_versions(all, before, new, at, replaces, i);
    }
}

/// Every installation by version: one of each version, aube's own before mise's.
pub fn list_installed_aube(from_mise: Vec<InstalledAube>, from_self: Vec<InstalledAube>) -> (r: Vec<
    InstalledAube,
>)
    ensures
        lists_last_of_each(from_mise@ + from_self@, r@),
{
    let ghost a = from_mise@;
    let ghost b = from_self@;
    let mut r: Vec<InstalledAube> = Vec::new();
    for install in it: from_mise
        invariant
            it.seq() == a,
            lists_last_of_each(a.take(it.index()), r@),
    {
        let ghost seen = a.take(it.index());
        assert(a.take(it.index() + 1) == seen.push(install));
        put_by_version(&mut r, install, Ghost(seen));
    }
    assert(a.take(a.len() as int) + b.take(0) == a);
    for install in it: from_self
        invariant
            it.seq() == b,
            lists_last_of_each(a + b.take(it.index()), r@),
    {
        let ghost seen = a + b.take(it.index());
        assert(a + b.take(it.index() + 1) == seen.push(install));
        put_by_version(&mut r, install, Ghost(seen));
    }
    assert(b.take(b.len() as int) == b);
    r
}

/// The installation of one version: aube's own if there is one, else mise's.
pub fn find_installed_aube(
    from_self: Option<InstalledAube>,
    from_mise: Option<InstalledAube>,
) -> (r: Option<InstalledAube>)
    ensures
        r == (if from_self is Some {
            from_self
        } else {
            from_mise
        }),
{
    match from_self {
        Some(i) => Some(i),
        None => from_mise,
    }
}

/// Where aube and mise both have a version, aube's own copy is listed.
pub proof fn own_copy_is_listed(
    from_mise: Seq<InstalledAube>,
    from_self: Seq<InstalledAube>,
    r: Seq<InstalledAube>,
    j: int,
    own: int,
)
    requires
        lists_last_of_each(from_mise + from_self, r),
        forall|i: int|
            0 <= i < from_self.len() ==> (#[trigger] from_self[i]).origin == InstallOrigin::Aube,
        0 <= j < r.len(),
        0 <= own < from_self.len(),
        semver::same_precedence(from_self[own].version@, r[j].version@),
    ensures
        r[j].origin == InstallOrigin::Aube,
{
    let all = from_mise + from_self;
    assert(is_last_in(all, r[j]));
    let i = choose|i: int| #[trigger] is_last_of_version(all, i) && all[i] == r[j];
    if i < from_mise.len() {
        let k = from_mise.len() + own;
        assert(all[k] == from_self[own]);
    } else {
        assert(all[i] == from_self[i - from_mise.len()]);
    }
}

/// Why there is no release for a host.
#[derive(Debug)]
pub enum PlatformError {
    /// No release is published for this platform.
    Unsupported(String),
    /// The platform could not be found out.
    Unknown,
}

/// The release for a host: the target triple, or the platform that has none.
pub open spec fn triple_of(os: Seq<char>, arch: Seq<char>, libc: Option<Seq<char>>) -> Result<
    Seq<char>,
    Seq<char>,
> {
    if arch != "x86_64"@ && arch != "aarch64"@ {
        Err(os + "-"@ + arch)
    } else if os == "macos"@ {
        if arch != "aarch64"@ {
            Err("macos-x86_64 (no published aube build; install via mise)"@)
        } else {
            Ok(arch + "-apple-darwin"@)
        }
    } else if os == "linux"@ {
        if libc == Some("musl"@) {
            Ok(arch + "-unknown-linux-musl"@)
        } else {
            Ok(arch + "-unknown-linux-gnu"@)
        }
    } else if os == "windows"@ {
        Ok(arch + "-pc-windows-msvc"@)
    } else {
        Err(os + "-"@ + arch)
    }
}

/// Whether a release is published for a target triple.
pub open spec fn is_published(triple: Seq<char>) -> bool {
    ||| triple == "aarch64-apple-darwin"@
    ||| triple == "x86_64-unknown-linux-gnu"@
    ||| triple == "x86_64-unknown-linux-musl"@
    ||| triple == "aarch64-unknown-linux-gnu"@
    ||| triple == "aarch64-unknown-linux-musl"@
    ||| triple == "x86_64-pc-windows-msvc"@
    ||| triple == "aarch64-pc-windows-msvc"@
}

/// A host is given a target triple only if a release is published for it.
pub proof fn triples_are_published(os: Seq<char>, arch: Seq<char>, libc: Option<Seq<char>>)
    requires
        triple_of(os, arch, libc) is Ok,
    ensures
        is_published(triple_of(os, arch, libc)->Ok_0),
{
    reveal_strlit("x86_64");
    reveal_strlit("aarch64");
    reveal_strlit("-apple-darwin");
    reveal_strlit("-unknown-linux-gnu");
    reveal_strlit("-unknown-linux-musl");
    reveal_strlit("-pc-windows-msvc");
    reveal_strlit("aarch64-apple-darwin");
    reveal_strlit("x86_64-unknown-linux-gnu");
    reveal_strlit("x86_64-unknown-linux-musl");
    reveal_strlit("aarch64-unknown-linux-gnu");
    reveal_strlit("aarch64-unknown-linux-musl");
    reveal_strlit("x86_64-pc-windows-msvc");
    reveal_strlit("aarch64-pc-windows-msvc");
    assert("aarch64"@ + "-apple-darwin"@ =~= "aarch64-apple-darwin"@);
    assert("x86_64"@ + "-unknown-linux-gnu"@ =~= "x86_64-unknown-linux-gnu"@);
    assert("x86_64"@ + "-unknown-linux-musl"@ =~= "x86_64-unknown-linux-musl"@);
    assert("aarch64"@ + "-unknown-linux-gnu"@ =~= "aarch64-unknown-linux-gnu"@);
    assert("aarch64"@ + "-unknown-linux-musl"@ =~= "aarch64-unknown-linux-musl"@);
    assert("x86_64"@ + "-pc-windows-msvc"@ =~= "x86_64-pc-windows-msvc"@);
    assert("aarch64"@ + "-pc-windows-msvc"@ =~= "aarch64-pc-windows-msvc"@);
}

/// Whether the C library of a host matters for its release.
pub open spec fn needs_libc(os: Seq<char>, arch: Seq<char>) -> bool {
    os == "linux"@ && (arch == "x86_64"@ || arch == "aarch64"@)
}

/// The target triple of the release for a host. `libc` is the C library where that is known;
/// `None` if the platform could not be found out, which only matters on Linux.
pub fn release_target_triple(os: &str, arch: &str, libc: Option<Option<String>>) -> (r: Result<
    String,
    PlatformError,
>)
    ensures
        r matches Err(PlatformError::Unknown) <==> needs_libc(os@, arch@) && libc is None,
        !(needs_libc(os@, arch@) && libc is None) ==> match triple_of(
            os@,
            arch@,
            match libc {
                Some(l) => text::view_opt(l),
                None => None,
            },
        ) {
            Ok(t) => r matches Ok(s) && s@ == t,
            Err(p) => r matches Err(PlatformError::Unsupported(s)) && s@ == p,
        },
{
    if !text::same_text(arch, "x86_64") && !text::same_text(arch, "aarch64") {
        let platform = text::cat(text::cat(os, "-").as_str(), arch);
        return Err(PlatformError::Unsupported(platform));
    }
    proof {
        reveal_strlit("macos");
        reveal_strlit("linux");
        reveal_strlit("windows");
        assert("macos"@[0] == 'm' && "linux"@[0] == 'l' && "windows"@[0] == 'w');
    }
    if text::same_text(os, "macos") {
        if !text::same_text(arch, "aarch64") {
            return Err(
                PlatformError::Unsupported(
                    "macos-x86_64 (no published aube build; install via mise)".to_owned(),
                ),
            );
        }
        return Ok(text::cat(arch, "-apple-darwin"));
    }
    if text::same_text(os, "linux") {
        let libc = match libc {
            Some(l) => l,
            None => {
                return Err(PlatformError::Unknown);
            },
        };
        let musl = match &libc {
            Some(l) => text::same_text(l.as_str(), "musl"),
            None => false,
        };
        return Ok(
            if musl {
                text::cat(arch, "-unknown-linux-musl")
            } else {
                text::cat(arch, "-unknown-linux-gnu")
            },
        );
    }
    if text::same_text(os, "windows") {
        return Ok(text::cat(arch, "-pc-windows-msvc"));
    }
    Err(PlatformError::Unsupported(text::cat(text::cat(os, "-").as_str(), arch)))
}

/// A setting of the environment, unless it is blank.
pub open spec fn set_unless_blank(set: Option<Seq<char>>) -> Option<Seq<char>> {
    match set {
        Some(s) => if text::trimmed(s).len() == 0 {
            None
        } else {
            Some(s)
        },
        None => None,
    }
}

fn unless_blank(set: Option<String>) -> (r: Option<String>)
    ensures
        text::view_opt(r) == set_unless_blank(text::view_opt(set)),
{
    match set {
        Some(s) => {
            let t = text::trim(s.as_str());
            if text::to_chars(t.as_str()).len() == 0 {
                None
            } else {
                Some(s)
            }
        },
        None => None,
    }
}

/// Where release archives are: as set, without slashes at the end, else the default.
pub fn release_base(set: Option<String>) -> (r: String)
    ensures
        r@ == (match set_unless_blank(text::view_opt(set)) {
            Some(s) => text::trimmed_end(s, '/'),
            None => RELEASE_BASE@,
        }),
{
    match unless_blank(set) {
        Some(s) => text::trim_end_matches(s.as_str(), '/'),
        None => RELEASE_BASE.to_owned(),
    }
}

/// Where the newest version is announced: as set, else the default.
pub fn version_url(set: Option<String>) -> (r: String)
    ensures
        r@ == (match set_unless_blank(text::view_opt(set)) {
            Some(s) => s,
            None => VERSION_URL@,
        }),
{
    match unless_blank(set) {
        Some(s) => s,
        None => VERSION_URL.to_owned(),
    }
}

/// The version text in an announcement: without white space around it and a leading `v`.
pub open spec fn announced_text(body: Seq<char>) -> Seq<char> {
    text::trimmed_start(text::trimmed(body), 'v')
}

/// The version that an announcement writes, or nothing if it writes none.
pub fn latest_aube_version(body: &str) -> (r: Option<Version>)
    ensures
        match r {
            Some(v) => semver::parsed_version(announced_text(body@)) == Some(v@),
            None => semver::parsed_version(announced_text(body@)) is None,
        },
{
    let t = text::trim(body);
    let bare = text::trim_start_matches(t.as_str(), 'v');
    semver::parse_version(bare.as_str())
}

/// The name of a release archive.
pub open spec fn archive_name_of(version: Seq<char>, triple: Seq<char>, windows: bool) -> Seq<
    char,
> {
    "aube-v"@ + version + "-"@ + triple + (if windows {
        ".zip"@
    } else {
        ".tar.gz"@
    })
}

/// Everything that is named after a version when it is downloaded.
#[derive(Debug)]
pub struct DownloadNames {
    pub archive_name: String,
    pub url: String,
    pub checksum_url: String,
    pub dest: String,
    pub locks_dir: String,
    pub lock_path: String,
    pub downloads_dir: String,
    pub archive_path: String,
    pub staging_root: String,
    pub staging: String,
}

/// The names for the download of a version into the directory `root`, by the process `pid`.
pub fn download_names(
    root: &str,
    base: &str,
    version: &str,
    triple: &str,
    windows: bool,
    pid: u32,
) -> (r: DownloadNames)
    ensures
        r.archive_name@ == archive_name_of(version@, triple@, windows),
        r.url@ == base@ + "/v"@ + version@ + "/"@ + r.archive_name@,
        r.checksum_url@ == r.url@ + ".sha256"@,
        paths::joins(root@, version@, r.dest@),
        paths::joins(root@, ".locks"@, r.locks_dir@),
        paths::joins(r.locks_dir@, version@ + ".lock"@, r.lock_path@),
        paths::joins(root@, ".downloads"@, r.downloads_dir@),
        paths::joins(
            r.downloads_dir@,
            r.archive_name@ + "."@ + text::decimal_text(pid as nat),
            r.archive_path@,
        ),
        paths::joins(root@, ".tmp"@, r.staging_root@),
        paths::joins(
            r.staging_root@,
            version@ + "."@ + text::decimal_text(pid as nat),
            r.staging@,
        ),
{
    let mut archive_name = text::cat("aube-v", version);
    archive_name.append("-");
    archive_name.append(triple);
    if windows {
        archive_name.append(".zip");
    } else {
        archive_name.append(".tar.gz");
    }
    let mut url = text::cat(base, "/v");
    url.append(version);
    url.append("/");
    url.append(archive_name.as_str());
    let checksum_url = text::cat(url.as_str(), ".sha256");
    let pid = text::format_u64(pid as u64);
    let locks_dir = paths::join(root, ".locks");
    let lock_path = paths::join(locks_dir.as_str(), text::cat(version, ".lock").as_str());
    let downloads_dir = paths::join(root, ".downloads");
    let mut file = text::cat(archive_name.as_str(), ".");
    file.append(pid.as_str());
    let archive_path = paths::join(downloads_dir.as_str(), file.as_str());
    let staging_root = paths::join(root, ".tmp");
    let mut dir = text::cat(version, ".");
    dir.append(pid.as_str());
    let staging = paths::join(staging_root.as_str(), dir.as_str());
    DownloadNames {
        archive_name,
        url,
        checksum_url,
        dest: paths::join(root, version),
        locks_dir,
        lock_path,
        downloads_dir,
        archive_path,
        staging_root,
        staging,
    }
}

/// What to do to install a version.
#[derive(Debug, Clone, Copy, PartialEq, Eq, Structural)]
pub enum InstallStep {
    /// Use the installation that is there.
    UseExisting,
    /// Ask mise.
    AskMise,
    /// Use what mise installed.
    UseMise,
    /// Download a release archive.
    Download,
    /// Fail: mise is to install, and it is not there.
    NoMise,
    /// Fail: mise was asked and failed.
    MiseFailed,
}

/// The first step to install a version.
pub open spec fn first_step(existing: bool, mode: InstallerMode, mise_found: bool) -> InstallStep {
    if existing {
        InstallStep::UseExisting
    } else {
        match mode {
            InstallerMode::Aube => InstallStep::Download,
            InstallerMode::Mise => if mise_found {
                InstallStep::AskMise
            } else {
                InstallStep::NoMise
            },
            InstallerMode::Auto => if mise_found {
                InstallStep::AskMise
            } else {
                InstallStep::Download
            },
        }
    }
}

/// The first step to install a version: what is installed is used; mise is asked where the
/// mode allows it and it is there.
pub fn install_aube(existing: bool, mode: InstallerMode, mise_found: bool) -> (r: InstallStep)
    ensures
        r == first_step(existing, mode, mise_found),
{
    if existing {
        return InstallStep::UseExisting;
    }
    match mode {
        InstallerMode::Aube => InstallStep::Download,
        InstallerMode::Mise => if mise_found {
            InstallStep::AskMise
        } else {
            InstallStep::NoMise
        },
        InstallerMode::Auto => if mise_found {
            InstallStep::AskMise
        } else {
            InstallStep::Download
        },
    }
}

/// The step that follows asking mise: if it failed, a release archive is downloaded unless
/// only mise may install.
pub open spec fn step_after_mise(mode: InstallerMode, installed: bool) -> InstallStep {
    if installed {
        InstallStep::UseMise
    } else if mode == InstallerMode::Mise {
        InstallStep::MiseFailed
    } else {
        InstallStep::Download
    }
}

/// The step that follows asking mise.
pub fn after_mise(mode: InstallerMode, installed: bool) -> (r: InstallStep)
    ensures
        r == step_after_mise(mode, installed),
{
    if installed {
        return InstallStep::UseMise;
    }
    match mode {
        InstallerMode::Mise => InstallStep::MiseFailed,
        _ => InstallStep::Download,
    }
}

/// What is said when mise succeeded and there is still no installation.
pub open spec fn not_found_text() -> Seq<char> {
    "mise reported success but the install was not found — if mise uses a custom data dir, export MISE_DATA_DIR so aube sees the same path"@
}

/// What asking mise leads to: its own error, what is found where it keeps its installations,
/// or an error because nothing is found there.
pub fn delegate_to_mise(
    version: &str,
    outcome: Result<(), mise::MiseInstallFailed>,
    found: Option<InstalledAube>,
) -> (r: Result<InstalledAube, mise::MiseInstallFailed>)
    ensures
        match outcome {
            Err(e) => r == Err::<InstalledAube, mise::MiseInstallFailed>(e),
            Ok(()) => match found {
                Some(i) => r == Ok::<InstalledAube, mise::MiseInstallFailed>(i),
                None => r matches Err(e) && e.version@ == mise::tool_at("aube"@, version@)
                    && e.reason@ == not_found_text(),
            },
        },
{
    match outcome {
        Err(e) => Err(e),
        Ok(()) => match found {
            Some(i) => Ok(i),
            None => Err(
                mise::MiseInstallFailed {
                    version: mise::tool_spec("aube", version),
                    reason: "mise reported success but the install was not found — if mise uses a custom data dir, export MISE_DATA_DIR so aube sees the same path".to_owned(),
                },
            ),
        },
    }
}

/// The error where only mise may install and it is not there.
pub fn no_mise_error(version: &str) -> (r: mise::MiseInstallFailed)
    ensures
        r.version@ == mise::tool_at("aube"@, version@),
        r.reason@ == "runtimeInstaller=mise but mise is not on PATH"@,
{
    mise::MiseInstallFailed {
        version: mise::tool_spec("aube", version),
        reason: "runtimeInstaller=mise but mise is not on PATH".to_owned(),
    }
}

/// Automatic installation never fails because of mise: where mise is missing or fails, a
/// release archive is downloaded.
pub proof fn auto_mode_falls_back(existing: bool, mise_found: bool, installed: bool)
    ensures
        !existing && !mise_found ==> first_step(existing, InstallerMode::Auto, mise_found)
            == InstallStep::Download,
        !installed ==> step_after_mise(InstallerMode::Auto, installed) == InstallStep::Download,
        first_step(existing, InstallerMode::Auto, mise_found) != InstallStep::NoMise,
        step_after_mise(InstallerMode::Auto, installed) != InstallStep::MiseFailed,
{
}

/// What is installed is used. Else the mode decides: aube downloads, mise is asked where it is
/// there, and where it is not, aube downloads unless only mise may install.
pub proof fn the_mode_decides_who_installs(mise_found: bool, mode: InstallerMode)
    ensures
        first_step(true, mode, mise_found) == InstallStep::UseExisting,
        first_step(false, InstallerMode::Aube, mise_found) == InstallStep::Download,
        first_step(false, InstallerMode::Mise, true) == InstallStep::AskMise,
        first_step(false, InstallerMode::Mise, false) == InstallStep::NoMise,
        first_step(false, InstallerMode::Auto, true) == InstallStep::AskMise,
        first_step(false, InstallerMode::Auto, false) == InstallStep::Download,
        step_after_mise(mode, true) == InstallStep::UseMise,
        step_after_mise(InstallerMode::Mise, false) == InstallStep::MiseFailed,
        step_after_mise(InstallerMode::Auto, false) == InstallStep::Download,
{
}

/// Every host that has a release gets its own: by processor and system, on Linux also by the C
/// library, where everything but musl counts as glibc. The others are named in the error.
pub proof fn hosts_get_their_releases(os: Seq<char>, arch: Seq<char>, libc: Option<Seq<char>>)
    ensures
        (arch == "x86_64"@ || arch == "aarch64"@) && libc == Some("musl"@) ==> triple_of(
            "linux"@,
            arch,
            libc,
        ) == Ok::<Seq<char>, Seq<char>>(arch + "-unknown-linux-musl"@),
        (arch == "x86_64"@ || arch == "aarch64"@) && libc != Some("musl"@) ==> triple_of(
            "linux"@,
            arch,
            libc,
        ) == Ok::<Seq<char>, Seq<char>>(arch + "-unknown-linux-gnu"@),
        arch == "x86_64"@ || arch == "aarch64"@ ==> triple_of("windows"@, arch, libc) == Ok::<
            Seq<char>,
            Seq<char>,
        >(arch + "-pc-windows-msvc"@),
        triple_of("macos"@, "aarch64"@, libc) == Ok::<Seq<char>, Seq<char>>(
            "aarch64"@ + "-apple-darwin"@,
        ),
        triple_of("macos"@, "x86_64"@, libc) == Err::<Seq<char>, Seq<char>>(
            "macos-x86_64 (no published aube build; install via mise)"@,
        ),
        arch != "x86_64"@ && arch != "aarch64"@ ==> triple_of(os, arch, libc) == Err::<
            Seq<char>,
            Seq<char>,
        >(os + seq!['-'] + arch),
        os != "linux"@ && os != "windows"@ && os != "macos"@ ==> triple_of(os, arch, libc) == Err::<
            Seq<char>,
            Seq<char>,
        >(os + seq!['-'] + arch),
        needs_libc(os, arch) <==> os == "linux"@ && (arch == "x86_64"@ || arch == "aarch64"@),
{
    reveal_strlit("macos");
    reveal_strlit("linux");
    reveal_strlit("windows");
    reveal_strlit("x86_64");
    reveal_strlit("aarch64");
    reveal_strlit("-");
    assert("-"@ == seq!['-']);
    assert("macos"@[0] == 'm' && "linux"@[0] == 'l' && "windows"@[0] == 'w');
    assert("x86_64"@.len() == 6 && "aarch64"@.len() == 7);
}

/// The directory of aube's own installations is the one that is set. Else it stands below the
/// first of the directories for application data that is there, the home directory last; and
/// where there is none of them, there is no directory.
pub proof fn own_installations_have_one_place(
    set: Option<Seq<char>>,
    local_app_data: Option<Seq<char>>,
    data_home: Option<Seq<char>>,
    home: Option<Seq<char>>,
    dir: Option<Seq<char>>,
)
    requires
        is_own_dir(set, local_app_data, data_home, home, dir),
    ensures
        set is Some ==> dir == set,
        set is None && local_app_data is Some ==> dir is Some && paths::joins(
            local_app_data->0,
            "aube/self"@,
            dir->0,
        ),
        set is None && local_app_data is None && data_home is Some ==> dir is Some && paths::joins(
            data_home->0,
            "aube/self"@,
            dir->0,
        ),
        set is None && local_app_data is None && data_home is None && home is Some ==> dir is Some
            && exists|share: Seq<char>| #[trigger]
            paths::joins(home->0, ".local/share"@, share) && paths::joins(
                share,
                "aube/self"@,
                dir->0,
            ),
        set is None && local_app_data is None && data_home is None && home is None ==> dir is None,
{
}

/// An installation can be used if it is complete and the executable is at its root or under
/// `bin/`; the one at the root comes first.
pub proof fn executables_are_found_in_two_places(
    dir: Seq<char>,
    exe_name: Seq<char>,
    facts: InstallFacts,
    exe: Seq<char>,
)
    ensures
        facts.incomplete ==> !has_exe(facts),
        !facts.incomplete ==> (has_exe(facts) <==> facts.exe_at_root || facts.exe_in_bin),
        is_exe(dir, exe_name, facts, exe) && facts.exe_at_root ==> paths::joins(dir, exe_name, exe),
        is_exe(dir, exe_name, facts, exe) && !facts.exe_at_root ==> exists|bin: Seq<char>|
            #[trigger] paths::joins(dir, "bin"@, bin) && paths::joins(bin, exe_name, exe),
{
}

/// The directory of a version is named after it, with or without a `v` before it.
pub proof fn directories_are_named_after_versions(bare: Seq<char>, n: nat)
    requires
        bare.len() > 0 ==> bare[0] != 'v',
    ensures
        version_of_dir(Seq::new(n, |i: int| 'v') + bare) == semver::parsed_version(bare),
{
    text::leading_characters_are_taken_off(bare, 'v', n);
}

/// The installations that are found are those in directories that are named after a version and
/// hold a complete one with an executable, each once, in the order of the directory. Links and
/// other names do not count.
pub proof fn version_directories_are_found(
    root: Seq<char>,
    exe_name: Seq<char>,
    entries: Seq<VersionDir>,
    n: int,
    origin: InstallOrigin,
    v: Seq<InstalledAube>,
    at: Seq<int>,
)
    requires
        0 <= n <= entries.len(),
        are_installs_in(root, exe_name, entries, n, origin, v),
        crate::workspace_install::lists_marked(
            at,
            |i: int|
                entries[i].is_dir && entries[i].name is Some && version_of_dir(
                    entries[i].name->0@,
                ) is Some && !entries[i].facts.incomplete && (entries[i].facts.exe_at_root
                    || entries[i].facts.exe_in_bin),
            n,
        ),
    ensures
        v.len() == at.len(),
        forall|i: int|
            0 <= i < v.len() ==> {
                &&& Some((#[trigger] v[i]).version@) == version_of_dir(entries[at[i]].name->0@)
                &&& paths::joins(root, entries[at[i]].name->0@, v[i].install_dir@)
                &&& is_exe(v[i].install_dir@, exe_name, entries[at[i]].facts, v[i].exe@)
                &&& v[i].origin == origin
            },
{
    lemma_counting(entries, n, at);
    assert forall|i: int| 0 <= i < v.len() implies {
        &&& Some((#[trigger] v[i]).version@) == version_of_dir(entries[at[i]].name->0@)
        &&& paths::joins(root, entries[at[i]].name->0@, v[i].install_dir@)
        &&& is_exe(v[i].install_dir@, exe_name, entries[at[i]].facts, v[i].exe@)
        &&& v[i].origin == origin
    } by {
        assert(is_install_in(root, exe_name, entries[at[i]], origin, v[i]));
    }
}

proof fn lemma_counting(entries: Seq<VersionDir>, n: int, at: Seq<int>)
    requires
        0 <= n <= entries.len(),
        crate::workspace_install::lists_marked(
            at,
            |i: int|
                entries[i].is_dir && entries[i].name is Some && version_of_dir(
                    entries[i].name->0@,
                ) is Some && !entries[i].facts.incomplete && (entries[i].facts.exe_at_root
                    || entries[i].facts.exe_in_bin),
            n,
        ),
    ensures
        counting(entries, n) == at,
    decreases n,
{
    let flags = |i: int|
        entries[i].is_dir && entries[i].name is Some && version_of_dir(entries[i].name->0@) is Some
            && !entries[i].facts.incomplete && (entries[i].facts.exe_at_root
            || entries[i].facts.exe_in_bin);
    if n > 0 {
        crate::workspace_install::lemma_lists_fewer(at, flags, n);
        if flags(n - 1) {
            lemma_counting(entries, n - 1, at.drop_last());
            assert(at == at.drop_last().push(n - 1));
        } else {
            lemma_counting(entries, n - 1, at);
        }
    } else {
        assert(at.len() == 0) by {
            if at.len() > 0 {
                assert(0 <= at[0] < n);
            }
        }
        assert(at == Seq::<int>::empty());
    }
}

/// Installations are listed by ascending version, none twice, and every installed version is
/// listed; what is listed is installed, and nothing of its version comes after it.
pub proof fn installed_versions_are_listed_once(
    all: Seq<InstalledAube>,
    r: Seq<InstalledAube>,
    i: int,
    j: int,
    k: int,
)
    requires
        lists_last_of_each(all, r),
        0 <= i < j < r.len(),
        0 <= k < all.len(),
    ensures
        semver::version_less(r[i].version@, r[j].version@),
        exists|x: int|
            0 <= x < r.len() && !semver::version_less((#[trigger] r[x]).version@, all[k].version@)
                && !semver::version_less(all[k].version@, r[x].version@),
        exists|y: int| 0 <= y < all.len() && #[trigger] all[y] == r[i] && is_last_of_version(all, y),
{
    assert(has_version(r, all[k].version@));
    let x = choose|x: int|
        0 <= x < r.len() && semver::same_precedence((#[trigger] r[x]).version@, all[k].version@);
    assert(!semver::version_less(r[x].version@, all[k].version@));
    assert(is_last_in(all, r[i]));
    let y = choose|y: int| #[trigger] is_last_of_version(all, y) && all[y] == r[i];
    assert(all[y] == r[i]);
}

/// A setting counts as it stands unless it is white space alone.
pub proof fn blank_settings_do_not_count(s: Seq<char>)
    ensures
        (forall|i: int| 0 <= i < s.len() ==> text::is_space(#[trigger] s[i])) ==> set_unless_blank(
            Some(s),
        ) is None,
        text::trimmed(s).len() > 0 ==> set_unless_blank(Some(s)) == Some(s),
        set_unless_blank(None) is None,
{
    if forall|i: int| 0 <= i < s.len() ==> text::is_space(#[trigger] s[i]) {
        let e = Seq::<char>::empty();
        text::trimming_takes_space_off(s, e, e);
        assert(s + e + e == s);
    }
}

/// An announcement is read without the white space around it and the `v` before it.
pub proof fn announcements_are_read_bare(
    a: Seq<char>,
    n: nat,
    bare: Seq<char>,
    b: Seq<char>,
)
    requires
        forall|i: int| 0 <= i < a.len() ==> text::is_space(#[trigger] a[i]),
        forall|i: int| 0 <= i < b.len() ==> text::is_space(#[trigger] b[i]),
        bare.len() > 0,
        bare[0] != 'v',
        !text::is_space(bare[0]) && !text::is_space(bare.last()),
    ensures
        announced_text(a + (Seq::new(n, |i: int| 'v') + bare) + b) == bare,
{
    let t = Seq::new(n, |i: int| 'v') + bare;
    text::blanks_are_spaces('v');
    assert(t.last() == bare.last());
    if n > 0 {
        assert(t[0] == 'v');
    } else {
        assert(t[0] == bare[0]);
    }
    text::trimming_takes_space_off(a, t, b);
    text::leading_characters_are_taken_off(bare, 'v', n);
}

/// Archives are named after version and target, a `.zip` for Windows and a `.tar.gz` elsewhere.
pub proof fn archives_are_named_after_their_contents(version: Seq<char>, triple: Seq<char>)
    ensures
        archive_name_of(version, triple, true) == "aube-v"@ + version + "-"@ + triple + ".zip"@,
        archive_name_of(version, triple, false) == "aube-v"@ + version + "-"@ + triple
            + ".tar.gz"@,
{
}

/// Without a setting, releases come from where they are published, and so does the
/// announcement.
pub proof fn releases_come_from_their_publisher(blank: Seq<char>)
    requires
        forall|i: int| 0 <= i < blank.len() ==> text::is_space(#[trigger] blank[i]),
    ensures
        set_unless_blank(Some(blank)) is None,
        RELEASE_BASE@ == "https://github.com/jdx/aube/releases/download"@,
        VERSION_URL@ == "https://aube.jdx.dev/VERSION"@,
{
    blank_settings_do_not_count(blank);
}

} // verus!
