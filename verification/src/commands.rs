//! What the commands share: flags of the session, directories and their display, and the
//! removal of what is in the way.

use crate::lockfile::LockfileGraph;
use crate::manifest::PackageJson;
use crate::paths;
use crate::text;
use vstd::prelude::*;

verus! {

/// Flags that hold for the whole run.
#[derive(Debug, Clone, Copy, PartialEq, Eq, Structural)]
pub struct SessionFlags {
    skip_auto_install: bool,
}

impl SessionFlags {
    /// Whether no installation is started when the project asks for another package manager.
    pub closed spec fn skips_auto_install(&self) -> bool {
        self.skip_auto_install
    }
}

impl Default for SessionFlags {
    /// No flag is set.
    fn default() -> (r: SessionFlags)
        ensures
            !r.skips_auto_install(),
    {
        SessionFlags { skip_auto_install: false }
    }
}

/// Sets whether no installation is started when the project asks for another package manager.
pub fn set_skip_auto_install_on_package_manager_mismatch(flags: &mut SessionFlags, skip: bool)
    ensures
        final(flags).skips_auto_install() == skip,
{
    flags.skip_auto_install = skip;
}

/// Whether no installation is started when the project asks for another package manager.
pub fn skip_auto_install_on_package_manager_mismatch(flags: &SessionFlags) -> (r: bool)
    ensures
        r == flags.skips_auto_install(),
{
    flags.skip_auto_install
}

/// The directory to change to: a relative path counts from the current directory.
pub fn retarget_cwd(current: &str, path: &str) -> (r: String)
    ensures
        paths::joins(current@, path@, r@),
{
    paths::join(current, path)
}

/// How the work in the directories of a workspace ended, once the first directory was gone
/// back to: an error of the work comes first, else one of going back.
pub fn finish_filtered_workspace<E>(result: Result<(), E>, restore: Result<(), E>) -> (r: Result<
    (),
    E,
>)
    ensures
        r == (if result is Err {
            result
        } else {
            restore
        }),
{
    match result {
        Ok(()) => restore,
        Err(e) => Err(e),
    }
}

/// How the virtual store is shown, given the way to it from the reference directory and whether
/// that goes up: relative where it lies below that directory, else by its own path.
pub open spec fn display_prefix(way: Option<Seq<char>>, goes_up: bool, aube_dir: Seq<char>) -> Seq<
    char,
> {
    match way {
        Some(rel) => if rel.len() > 0 && !goes_up {
            "./"@ + rel + "/"@
        } else {
            aube_dir + "/"@
        },
        None => aube_dir + "/"@,
    }
}

/// How the virtual store is shown, given the way to it from the reference directory and whether
/// that goes up.
pub fn virtual_store_prefix(way: Option<String>, goes_up: bool, aube_dir: &str) -> (r: String)
    ensures
        r@ == display_prefix(text::view_opt(way), goes_up, aube_dir@),
{
    if let Some(rel) = &way {
        if text::to_chars(rel.as_str()).len() > 0 && !goes_up {
            let mut r = "./".to_owned();
            r.append(rel.as_str());
            r.append("/");
            return r;
        }
    }
    text::cat(aube_dir, "/")
}

/// Whether a way holds `..`, as a platform reads it.
pub open spec fn goes_up_on(windows: bool, way: Option<Seq<char>>) -> bool {
    way is Some && paths::components(
        if windows {
            paths::with_slashes(way->0)
        } else {
            way->0
        },
    ).contains(".."@)
}

/// Whether a text shows the virtual store by the way that a platform finds to it.
pub open spec fn shows_on(
    windows: bool,
    aube_dir: Seq<char>,
    ref_dir: Seq<char>,
    r: Seq<char>,
) -> bool {
    exists|way: Option<Seq<char>>| #[trigger]
        paths::is_way_on(windows, aube_dir, ref_dir, way) && r == display_prefix(
            way,
            goes_up_on(windows, way),
            aube_dir,
        )
}

/// Whether a text shows the virtual store as some platform does.
pub open spec fn is_display_prefix(aube_dir: Seq<char>, ref_dir: Seq<char>, r: Seq<char>) -> bool {
    exists|windows: bool| #[trigger] shows_on(windows, aube_dir, ref_dir, r)
}

/// Whether a way that is written with slashes holds `..`.
fn goes_up(way: &str) -> (r: bool)
    ensures
        r == paths::components(way@).contains(".."@),
{
    let cs = paths::split_components(way);
    let ghost all = paths::components(way@);
    let mut i: usize = 0;
    while i < cs.len()
        invariant
            i <= cs@.len(),
            text::views(cs@) == all,
            all == paths::components(way@),
            forall|j: int| 0 <= j < i ==> #[trigger] all[j] != ".."@,
        decreases cs.len() - i,
    {
        assert(all[i as int] == cs@[i as int]@);
        if text::same_text(cs[i].as_str(), "..") {
            assert(all.contains(all[i as int]));
            return true;
        }
        i = i + 1;
    }
    false
}

/// How the virtual store in `aube_dir` is shown to someone in `ref_dir`, ready for a file name
/// to be added: as `./node_modules/.aube/` where it lies below, else by its own path, which
/// can be pasted into a shell.
pub fn format_virtual_store_display_prefix(aube_dir: &str, ref_dir: &str) -> (r: String)
    ensures
        is_display_prefix(aube_dir@, ref_dir@, r@),
        aube_dir@ == ref_dir@ ==> r@ == aube_dir@ + "/"@,
{
    let (way, separator) = paths::diff_paths(aube_dir, ref_dir);
    let ghost windows = paths::writes_backslashes(separator);
    let ghost found = text::view_opt(way);
    let up = match &way {
        Some(rel) => if separator == '\\' {
            goes_up(text::replace(rel.as_str(), '\\', "/").as_str())
        } else {
            goes_up(rel.as_str())
        },
        None => false,
    };
    let r = virtual_store_prefix(way, up, aube_dir);
    proof {
        assert(paths::is_way_on(windows, aube_dir@, ref_dir@, found));
        assert(up == goes_up_on(windows, found));
        assert(shows_on(windows, aube_dir@, ref_dir@, r@));
    }
    r
}

/// Whether a path that starts at the root lies below another by names alone.
pub open spec fn lies_below(p: Seq<char>, base: Seq<char>) -> bool {
    let a = paths::components(p);
    let n = paths::components(base).len() as int;
    &&& n < a.len()
    &&& a.take(n) == paths::components(base)
    &&& !a.skip(n).contains(".."@)
}

/// Whether a text shows a store relative to a directory that it lies below, and by its own path
/// otherwise. `a` and `b` are the paths of the two.
pub open spec fn is_shown_where_it_lies(
    a: Seq<char>,
    b: Seq<char>,
    aube_dir: Seq<char>,
    shown: Seq<char>,
) -> bool {
    if lies_below(a, b) {
        exists|way: Seq<char>|
            #[trigger] paths::with_slashes(way) == paths::with_slashes(
                text::joined(
                    paths::components(a).skip(paths::components(b).len() as int),
                    "/"@,
                ),
            ) && shown == "./"@ + way + "/"@
    } else {
        shown == aube_dir + "/"@
    }
}

/// A store below the reference directory is shown by the way to it, and one above it or
/// elsewhere by its own path, as a platform reads the two. They are absolute and on one drive.
pub proof fn only_stores_below_are_shown_relative(
    windows: bool,
    aube_dir: Seq<char>,
    ref_dir: Seq<char>,
    shown: Seq<char>,
)
    requires
        paths::is_absolute_on(windows, aube_dir),
        paths::is_absolute_on(windows, ref_dir),
        paths::drive_on(windows, aube_dir) == paths::drive_on(windows, ref_dir),
        paths::says_way(windows, aube_dir, ref_dir),
        shows_on(windows, aube_dir, ref_dir, shown),
    ensures
        is_shown_where_it_lies(
            paths::path_on(windows, aube_dir),
            paths::path_on(windows, ref_dir),
            aube_dir,
            shown,
        ),
{
    let p = paths::path_on(windows, aube_dir);
    let base = paths::path_on(windows, ref_dir);
    let found = choose|way: Option<Seq<char>>| #[trigger]
        paths::is_way_on(windows, aube_dir, ref_dir, way) && shown == display_prefix(
            way,
            goes_up_on(windows, way),
            aube_dir,
        );
    let to = paths::way_to(p, base);
    assert(paths::way_on(windows, aube_dir, ref_dir) == to);
    let a = paths::components(p);
    let b = paths::components(base);
    let c = paths::shared_from(a, b, 0);
    paths::lemma_shared(a, b, 0);
    if found is Some {
        paths::lemma_with_slashes(found->0);
    }
    if aube_dir == ref_dir {
        assert(found == Some(Seq::<char>::empty()));
        assert(!lies_below(p, base));
    } else if to is Some {
        paths::lemma_components_of_way(p, base);
        paths::lemma_with_slashes(to->0);
        let way = paths::way_between(a, b)->0;
        if windows {
            let drive = paths::drive_on(windows, aube_dir);
            paths::lemma_no_backslashes(aube_dir.skip(drive.len() as int));
            paths::lemma_way_has_slashes(p, base);
        }
        if c < b.len() {
            assert(way[0] == ".."@);
            assert(way.contains(".."@));
        } else {
            assert(way =~= a.skip(c));
            assert(a.take(c) =~= b);
        }
    }
    if lies_below(p, base) {
        paths::lemma_shares_all(a, b, 0);
        assert(to is Some);
        assert(found is Some);
        assert(paths::with_slashes(found->0) == paths::with_slashes(to->0));
    }
}

/// What is said when there is no workspace at or above a directory.
pub fn no_workspace_root_message(start: &str) -> (r: String)
    ensures
        r@
            == "no workspace root (aube-workspace.yaml, pnpm-workspace.yaml, or package.json with a `workspaces` field) found above "@
            + start@,
{
    text::cat(
        "no workspace root (aube-workspace.yaml, pnpm-workspace.yaml, or package.json with a `workspaces` field) found above ",
        start,
    )
}

/// The workspace root above `start` that was found, or what is said if none was.
pub fn find_workspace_root(found: Option<String>, start: &str) -> (r: Result<String, String>)
    ensures
        match r {
            Ok(root) => found == Some(root),
            Err(message) => found is None && message@
                == "no workspace root (aube-workspace.yaml, pnpm-workspace.yaml, or package.json with a `workspaces` field) found above "@
                + start@,
        },
{
    match found {
        Some(root) => Ok(root),
        None => Err(no_workspace_root_message(start)),
    }
}

/// Why a filter selects nothing.
#[derive(Debug, Clone, Copy, PartialEq, Eq, Structural)]
pub enum FilterRefusal {
    /// There is no workspace.
    NoWorkspace,
    /// No package of the workspace matches.
    NoMatch,
}

/// The directory in which the packages of the workspace are looked for: the root that was
/// found, else the current directory.
pub fn workspace_root_or(found: Option<String>, cwd: &str) -> (r: String)
    ensures
        r@ == (match found {
            Some(root) => root@,
            None => cwd@,
        }),
{
    match found {
        Some(root) => root,
        None => cwd.to_owned(),
    }
}

/// Whether a filter has something to select, by the number of packages of the workspace and of
/// those that match. The second is asked for only where there are packages.
pub fn select_workspace_packages(packages: usize, matched: usize) -> (r: Result<
    (),
    FilterRefusal,
>)
    ensures
        r == (if packages == 0 {
            Err::<(), FilterRefusal>(FilterRefusal::NoWorkspace)
        } else if matched == 0 {
            Err::<(), FilterRefusal>(FilterRefusal::NoMatch)
        } else {
            Ok::<(), FilterRefusal>(())
        }),
{
    if packages == 0 {
        Err(FilterRefusal::NoWorkspace)
    } else if matched == 0 {
        Err(FilterRefusal::NoMatch)
    } else {
        Ok(())
    }
}

/// What is said about a filter that selects nothing.
pub open spec fn refusal_text(
    why: FilterRefusal,
    command: Seq<char>,
    cwd: Seq<char>,
    filter: Seq<char>,
) -> Seq<char> {
    match why {
        FilterRefusal::NoWorkspace => "aube "@ + command
            + ": --filter requires a workspace root (aube-workspace.yaml, pnpm-workspace.yaml, or package.json with a `workspaces` field) at or above "@
            + cwd,
        FilterRefusal::NoMatch => "aube "@ + command + ": filter "@ + filter
            + " did not match any workspace package"@,
    }
}

impl FilterRefusal {
    /// What is said to the user of a command; `filter` is how the filter is shown.
    pub fn message(&self, command: &str, cwd: &str, filter: &str) -> (r: String)
        ensures
            r@ == refusal_text(*self, command@, cwd@, filter@),
    {
        let mut r = "aube ".to_owned();
        r.append(command);
        match self {
            FilterRefusal::NoWorkspace => {
                r.append(
                    ": --filter requires a workspace root (aube-workspace.yaml, pnpm-workspace.yaml, or package.json with a `workspaces` field) at or above ",
                );
                r.append(cwd);
            },
            FilterRefusal::NoMatch => {
                r.append(": filter ");
                r.append(filter);
                r.append(" did not match any workspace package");
            },
        }
        r
    }
}

/// What reading a lockfile gave.
#[derive(Debug)]
pub enum LockfileRead {
    Graph(LockfileGraph),
    /// There is no lockfile.
    NotFound,
    Failed,
}

/// Why there is no graph.
#[derive(Debug)]
pub enum LoadError {
    /// There is no lockfile; the hint says what to do.
    Missing(String),
    /// The lockfile cannot be read.
    Unreadable,
}

/// The graph that a lockfile holds, or why there is none.
pub fn load_graph(read: LockfileRead, missing_hint: &str) -> (r: Result<LockfileGraph, LoadError>)
    ensures
        match r {
            Ok(graph) => read == LockfileRead::Graph(graph),
            Err(LoadError::Missing(hint)) => read is NotFound && hint@ == missing_hint@,
            Err(LoadError::Unreadable) => read is Failed,
        },
{
    match read {
        LockfileRead::Graph(graph) => Ok(graph),
        LockfileRead::NotFound => Err(LoadError::Missing(missing_hint.to_owned())),
        LockfileRead::Failed => Err(LoadError::Unreadable),
    }
}

/// The manifest of a workspace root, which may have none: what reading it gave, or the empty
/// manifest where there is no such file.
pub fn load_manifest_or_default<E>(read: Option<Result<PackageJson, E>>) -> (r: Result<
    PackageJson,
    E,
>)
    ensures
        match read {
            Some(result) => r == result,
            None => r matches Ok(manifest) && manifest.is_default(),
        },
{
    match read {
        Some(result) => result,
        None => Ok(PackageJson::default()),
    }
}

/// What stands at a path, not following links.
#[derive(Debug, Clone, Copy, PartialEq, Eq, Structural)]
pub enum Entry {
    Missing,
    Dir,
    Link,
    File,
}

/// How something is removed.
#[derive(Debug, Clone, Copy, PartialEq, Eq, Structural)]
pub enum RemoveAction {
    /// The directory with all it holds.
    Tree,
    /// The file or the link itself.
    File,
    /// The link as an empty directory: some platforms remove a link to a directory only so,
    /// and what it leads to stays.
    EmptyDir,
}

/// Where a removal stands.
#[derive(Debug, Clone, Copy, PartialEq, Eq, Structural)]
pub enum RemoveStage {
    Try(RemoveAction),
    Removed,
    Failed,
}

/// The first step of removing what stands at a path.
pub fn remove_existing(entry: Entry) -> (r: RemoveStage)
    ensures
        r == (match entry {
            Entry::Missing => RemoveStage::Removed,
            Entry::Dir => RemoveStage::Try(RemoveAction::Tree),
            _ => RemoveStage::Try(RemoveAction::File),
        }),
{
    match entry {
        Entry::Missing => RemoveStage::Removed,
        Entry::Dir => RemoveStage::Try(RemoveAction::Tree),
        _ => RemoveStage::Try(RemoveAction::File),
    }
}

/// Where a removal stands after an attempt.
pub open spec fn after_attempt(entry: Entry, action: RemoveAction, ok: bool) -> RemoveStage {
    if ok {
        RemoveStage::Removed
    } else if action == RemoveAction::File && entry == Entry::Link {
        RemoveStage::Try(RemoveAction::EmptyDir)
    } else {
        RemoveStage::Failed
    }
}

/// The next step after an attempt to remove what stands at a path: a link that cannot be
/// removed as a file is tried as an empty directory.
pub fn remove_next(entry: Entry, action: RemoveAction, ok: bool) -> (r: RemoveStage)
    ensures
        r == after_attempt(entry, action, ok),
{
    if ok {
        return RemoveStage::Removed;
    }
    match (action, entry) {
        (RemoveAction::File, Entry::Link) => RemoveStage::Try(RemoveAction::EmptyDir),
        _ => RemoveStage::Failed,
    }
}

/// The first step and the next for what stands at a path: what a removal may try.
pub open spec fn tries(entry: Entry, action: RemoveAction) -> bool {
    match action {
        RemoveAction::Tree => entry == Entry::Dir,
        RemoveAction::File => entry == Entry::File || entry == Entry::Link,
        RemoveAction::EmptyDir => entry == Entry::Link,
    }
}

/// A removal never goes into what a link leads to: the contents of a directory are removed only
/// where the path itself is a directory, not a link to one.
pub proof fn links_are_not_followed(entry: Entry, action: RemoveAction, ok: bool)
    requires
        tries(entry, action),
    ensures
        action == RemoveAction::Tree ==> entry == Entry::Dir,
        after_attempt(entry, action, ok) matches RemoveStage::Try(next) ==> tries(entry, next) && next
            != RemoveAction::Tree,
{
}

/// What is said about a lockfile that was written: its file name, or the whole path where it
/// has none.
pub fn wrote_message(file_name: Option<String>, path: &str) -> (r: String)
    ensures
        r@ == "Wrote "@ + (match file_name {
            Some(name) => name@,
            None => path@,
        }),
{
    match file_name {
        Some(name) => text::cat("Wrote ", name.as_str()),
        None => text::cat("Wrote ", path),
    }
}

/// A store that a way leads down to is shown by that way, and every other one by its own path.
pub proof fn ways_down_are_shown(way: Seq<char>, aube_dir: Seq<char>)
    ensures
        way.len() > 0 ==> display_prefix(Some(way), false, aube_dir) == seq!['.', '/'] + way
            + seq!['/'],
        way.len() == 0 ==> display_prefix(Some(way), false, aube_dir) == aube_dir + seq!['/'],
        display_prefix(Some(way), true, aube_dir) == aube_dir + seq!['/'],
        display_prefix(None, false, aube_dir) == aube_dir + seq!['/'],
        display_prefix(None, true, aube_dir) == aube_dir + seq!['/'],
{
    reveal_strlit("./");
    reveal_strlit("/");
    assert("./"@ == seq!['.', '/'] && "/"@ == seq!['/']);
}

/// An attempt that succeeds ends a removal. One that fails ends it too, but for a link that
/// could not be removed as a file: that is tried once more, as an empty directory.
pub proof fn removals_end(entry: Entry, action: RemoveAction)
    ensures
        after_attempt(entry, action, true) == RemoveStage::Removed,
        entry == Entry::Link && action == RemoveAction::File ==> after_attempt(
            entry,
            action,
            false,
        ) == RemoveStage::Try(RemoveAction::EmptyDir),
        entry != Entry::Link || action != RemoveAction::File ==> after_attempt(
            entry,
            action,
            false,
        ) == RemoveStage::Failed,
{
}

/// A refusal names the command, and the directory where there is no workspace or the filter
/// that matches nothing.
pub proof fn refusals_name_what_is_missing(
    command: Seq<char>,
    cwd: Seq<char>,
    filter: Seq<char>,
)
    ensures
        text::begins_with(
            refusal_text(FilterRefusal::NoWorkspace, command, cwd, filter),
            "aube "@ + command + ": --filter requires a workspace root"@,
        ),
        text::finishes_with(
            refusal_text(FilterRefusal::NoWorkspace, command, cwd, filter),
            " at or above "@ + cwd,
        ),
        refusal_text(FilterRefusal::NoMatch, command, cwd, filter) == "aube "@ + command
            + ": filter "@ + filter + " did not match any workspace package"@,
{
    let long = ": --filter requires a workspace root (aube-workspace.yaml, pnpm-workspace.yaml, or package.json with a `workspaces` field) at or above ";
    reveal_strlit(
        ": --filter requires a workspace root (aube-workspace.yaml, pnpm-workspace.yaml, or package.json with a `workspaces` field) at or above ",
    );
    reveal_strlit(": --filter requires a workspace root");
    reveal_strlit(" at or above ");
    let short = ": --filter requires a workspace root"@;
    let end = " at or above "@;
    let n = short.len() as int;
    let m = long@.len() - end.len();
    assert(long@.take(n) == short);
    assert(long@.skip(m) == end);
    let t = refusal_text(FilterRefusal::NoWorkspace, command, cwd, filter);
    let head = "aube "@ + command;
    text::beginnings_and_ends_are_cut_off(head + short, long@.skip(n) + cwd, cwd, cwd);
    assert(t == (head + short) + (long@.skip(n) + cwd));
    text::beginnings_and_ends_are_cut_off(head + long@.take(m), end + cwd, cwd, cwd);
    assert(t == (head + long@.take(m)) + (end + cwd));
}

} // verus!
