//! `aube add` in one project, step by step.
//!
//! Each step names the work to do next; the caller does it and says how it went. The order is
//! fixed: nothing is written before the supply-chain gates have passed but a first manifest
//! where there is none and the reviewed build flags. Under `--no-save` the manifest and the
//! lockfile are put back once the manifest has been changed, whatever the installation did; if
//! changing the manifest fails, nothing is put back.

use crate::add::AddArgs;
use vstd::prelude::*;

verus! {

/// What of the arguments decides the steps.
#[derive(Debug, Clone, Copy, PartialEq, Eq, Structural)]
pub struct AddFlags {
    pub workspace: bool,
    pub ignore_workspace_root_check: bool,
    pub no_save: bool,
    /// `--allow-build` names a package.
    pub allows: bool,
    /// `--deny-build` names a package.
    pub denies: bool,
}

/// What of the arguments decides the steps.
pub open spec fn flags_of(args: AddArgs) -> AddFlags {
    AddFlags {
        workspace: args.workspace,
        ignore_workspace_root_check: args.ignore_workspace_root_check,
        no_save: args.no_save,
        allows: args.allow_build@.len() > 0,
        denies: args.deny_build@.len() > 0,
    }
}

impl AddFlags {
    /// Reads the arguments.
    pub fn of(args: &AddArgs) -> (r: AddFlags)
        ensures
            r == flags_of(*args),
    {
        AddFlags {
            workspace: args.workspace,
            ignore_workspace_root_check: args.ignore_workspace_root_check,
            no_save: args.no_save,
            allows: args.allow_build.len() > 0,
            denies: args.deny_build.len() > 0,
        }
    }
}

/// The work to do next.
#[derive(Debug, Clone, Copy, PartialEq, Eq, Structural)]
pub enum AddWork {
    /// Go to the root of the workspace.
    EnterRoot,
    /// Create a manifest with `{}` where no directory above has one, and find the project.
    EnsureManifest,
    /// Find out whether the project is the root of a workspace.
    InspectRoot,
    /// Take the project's lock.
    Lock,
    /// Remember the manifest and the lockfile.
    Remember,
    /// Record the packages whose scripts are approved.
    AllowBuilds,
    /// Record the packages whose scripts are denied.
    DenyBuilds,
    /// Ask the supply-chain gates.
    Gates,
    /// Write the new dependencies into the manifest.
    UpdateManifest,
    /// Resolve, write the lockfile and link.
    Install,
    /// Put the manifest back.
    RestoreManifest,
    /// Put the lockfile back.
    RestoreLockfile,
}

/// How it ended.
#[derive(Debug, Clone, Copy, PartialEq, Eq, Structural)]
pub enum AddEnd {
    /// Everything went well.
    Added,
    /// This work failed, and its error is reported.
    Failed(AddWork),
    /// The project is the root of a workspace.
    RefusedRoot,
}

/// How the work went.
#[derive(Debug, Clone, Copy, PartialEq, Eq, Structural)]
pub enum AddEvent {
    Done,
    Failed,
    /// What was found at the project: whether its workspace file lists packages, and whether its
    /// manifest lists workspaces.
    Root { file_lists_packages: bool, manifest_lists_workspaces: bool },
}

/// Where `aube add` stands.
#[derive(Debug, Clone, Copy, PartialEq, Eq, Structural)]
pub enum AddStage {
    Doing(AddWork),
    End(AddEnd),
}

/// Where `aube add` stands, and what failed on the way to putting things back.
#[derive(Debug, Clone, Copy, PartialEq, Eq, Structural)]
pub struct AddState {
    pub stage: AddStage,
    /// The installation failed.
    pub install_failed: bool,
    /// The manifest could not be put back.
    pub manifest_failed: bool,
    /// The manifest and the lockfile were put back, which is said whether or not the
    /// installation succeeded.
    pub restored: bool,
}

/// The work at the start.
pub open spec fn first_work(f: AddFlags) -> AddWork {
    if f.workspace {
        AddWork::EnterRoot
    } else {
        AddWork::EnsureManifest
    }
}

/// The work that follows work that went well, for all work before the installation.
pub open spec fn next_work(f: AddFlags, work: AddWork) -> AddWork {
    match work {
        AddWork::EnterRoot => AddWork::EnsureManifest,
        AddWork::EnsureManifest => if !f.ignore_workspace_root_check && !f.workspace {
            AddWork::InspectRoot
        } else {
            AddWork::Lock
        },
        AddWork::InspectRoot => AddWork::Lock,
        AddWork::Lock => if f.no_save {
            AddWork::Remember
        } else {
            next_work_after_remember(f)
        },
        AddWork::Remember => next_work_after_remember(f),
        AddWork::AllowBuilds => next_work_after_allow(f),
        AddWork::DenyBuilds => AddWork::Gates,
        AddWork::Gates => AddWork::UpdateManifest,
        AddWork::UpdateManifest => AddWork::Install,
        AddWork::Install => AddWork::RestoreManifest,
        AddWork::RestoreManifest => AddWork::RestoreLockfile,
        AddWork::RestoreLockfile => AddWork::RestoreLockfile,
    }
}

/// The work once everything was remembered.
pub open spec fn next_work_after_remember(f: AddFlags) -> AddWork {
    if f.allows {
        AddWork::AllowBuilds
    } else {
        next_work_after_allow(f)
    }
}

/// The work once the approved packages were recorded.
pub open spec fn next_work_after_allow(f: AddFlags) -> AddWork {
    if f.denies {
        AddWork::DenyBuilds
    } else {
        AddWork::Gates
    }
}

/// How it ended, from what failed: an error of the installation comes first, since the others
/// follow from it, then one of the manifest, then one of the lockfile.
pub open spec fn end_of(
    install_failed: bool,
    manifest_failed: bool,
    lockfile_failed: bool,
) -> AddEnd {
    if install_failed {
        AddEnd::Failed(AddWork::Install)
    } else if manifest_failed {
        AddEnd::Failed(AddWork::RestoreManifest)
    } else if lockfile_failed {
        AddEnd::Failed(AddWork::RestoreLockfile)
    } else {
        AddEnd::Added
    }
}

/// The state after the work at hand went as told.
pub open spec fn stepped(f: AddFlags, s: AddState, e: AddEvent) -> AddState {
    match s.stage {
        AddStage::End(_) => s,
        AddStage::Doing(work) => {
            let failed = e is Failed;
            match work {
                AddWork::Install => AddState {
                    stage: if f.no_save {
                        AddStage::Doing(AddWork::RestoreManifest)
                    } else {
                        AddStage::End(end_of(failed, false, false))
                    },
                    install_failed: failed,
                    ..s
                },
                AddWork::RestoreManifest => AddState {
                    stage: AddStage::Doing(AddWork::RestoreLockfile),
                    manifest_failed: failed,
                    ..s
                },
                AddWork::RestoreLockfile => AddState {
                    stage: AddStage::End(end_of(s.install_failed, s.manifest_failed, failed)),
                    restored: !s.manifest_failed && !failed,
                    ..s
                },
                _ => AddState {
                    stage: if failed {
                        AddStage::End(AddEnd::Failed(work))
                    } else if work is InspectRoot && is_root(e) {
                        AddStage::End(AddEnd::RefusedRoot)
                    } else {
                        AddStage::Doing(next_work(f, work))
                    },
                    ..s
                },
            }
        },
    }
}

/// Whether what was found is the root of a workspace.
pub open spec fn is_root(e: AddEvent) -> bool {
    e matches AddEvent::Root { file_lists_packages, manifest_lists_workspaces } && (
    file_lists_packages || manifest_lists_workspaces)
}

/// What is said about the root of a workspace.
pub const ROOT_REFUSED: &'static str = "refusing to add dependencies to the workspace root. If this is intentional, pass --ignore-workspace-root-check (-W).";

impl AddState {
    /// The state at the start.
    pub fn new(f: AddFlags) -> (r: AddState)
        ensures
            r == (AddState {
                stage: AddStage::Doing(first_work(f)),
                install_failed: false,
                manifest_failed: false,
                restored: false,
            }),
    {
        let work = if f.workspace {
            AddWork::EnterRoot
        } else {
            AddWork::EnsureManifest
        };
        AddState {
            stage: AddStage::Doing(work),
            install_failed: false,
            manifest_failed: false,
            restored: false,
        }
    }

    /// Goes on after the work at hand went as told.
    pub fn step(&mut self, f: AddFlags, e: AddEvent)
        ensures
            *final(self) == stepped(f, *old(self), e),
    {
        let work = match self.stage {
            AddStage::End(_) => {
                return;
            },
            AddStage::Doing(work) => work,
        };
        let failed = match e {
            AddEvent::Failed => true,
            _ => false,
        };
        let root = match e {
            AddEvent::Root { file_lists_packages, manifest_lists_workspaces } => file_lists_packages
                || manifest_lists_workspaces,
            _ => false,
        };
        match work {
            AddWork::Install => {
                self.install_failed = failed;
                self.stage = if f.no_save {
                    AddStage::Doing(AddWork::RestoreManifest)
                } else {
                    AddStage::End(end(failed, false, false))
                };
            },
            AddWork::RestoreManifest => {
                self.manifest_failed = failed;
                self.stage = AddStage::Doing(AddWork::RestoreLockfile);
            },
            AddWork::RestoreLockfile => {
                self.stage = AddStage::End(end(self.install_failed, self.manifest_failed, failed));
                self.restored = !self.manifest_failed && !failed;
            },
            AddWork::InspectRoot => {
                self.stage = if failed {
                    AddStage::End(AddEnd::Failed(work))
                } else if root {
                    AddStage::End(AddEnd::RefusedRoot)
                } else {
                    AddStage::Doing(AddWork::Lock)
                };
            },
            _ => {
                self.stage = if failed {
                    AddStage::End(AddEnd::Failed(work))
                } else {
                    AddStage::Doing(after(f, work))
                };
            },
        }
    }
}

fn end(install_failed: bool, manifest_failed: bool, lockfile_failed: bool) -> (r: AddEnd)
    ensures
        r == end_of(install_failed, manifest_failed, lockfile_failed),
{
    if install_failed {
        AddEnd::Failed(AddWork::Install)
    } else if manifest_failed {
        AddEnd::Failed(AddWork::RestoreManifest)
    } else if lockfile_failed {
        AddEnd::Failed(AddWork::RestoreLockfile)
    } else {
        AddEnd::Added
    }
}

fn after(f: AddFlags, work: AddWork) -> (r: AddWork)
    ensures
        r == next_work(f, work),
{
    let reviewed = if f.denies {
        AddWork::DenyBuilds
    } else {
        AddWork::Gates
    };
    let remembered = if f.allows {
        AddWork::AllowBuilds
    } else {
        reviewed
    };
    match work {
        AddWork::EnterRoot => AddWork::EnsureManifest,
        AddWork::EnsureManifest => if !f.ignore_workspace_root_check && !f.workspace {
            AddWork::InspectRoot
        } else {
            AddWork::Lock
        },
        AddWork::InspectRoot => AddWork::Lock,
        AddWork::Lock => if f.no_save {
            AddWork::Remember
        } else {
            remembered
        },
        AddWork::Remember => remembered,
        AddWork::AllowBuilds => reviewed,
        AddWork::DenyBuilds => AddWork::Gates,
        AddWork::Gates => AddWork::UpdateManifest,
        AddWork::UpdateManifest => AddWork::Install,
        AddWork::Install => AddWork::RestoreManifest,
        AddWork::RestoreManifest => AddWork::RestoreLockfile,
        AddWork::RestoreLockfile => AddWork::RestoreLockfile,
    }
}

/// The state after some events, from the start.
pub open spec fn ran(f: AddFlags, events: Seq<AddEvent>) -> AddState
    decreases events.len(),
{
    if events.len() == 0 {
        AddState {
            stage: AddStage::Doing(first_work(f)),
            install_failed: false,
            manifest_failed: false,
            restored: false,
        }
    } else {
        stepped(f, ran(f, events.drop_last()), events.last())
    }
}

/// Where work stands in the order.
pub open spec fn place(work: AddWork) -> int {
    match work {
        AddWork::EnterRoot => 0,
        AddWork::EnsureManifest => 1,
        AddWork::InspectRoot => 2,
        AddWork::Lock => 3,
        AddWork::Remember => 4,
        AddWork::AllowBuilds => 5,
        AddWork::DenyBuilds => 6,
        AddWork::Gates => 7,
        AddWork::UpdateManifest => 8,
        AddWork::Install => 9,
        AddWork::RestoreManifest => 10,
        AddWork::RestoreLockfile => 11,
    }
}

/// Whether work was done, and done well, before the last of some events.
pub open spec fn went_well(f: AddFlags, events: Seq<AddEvent>, work: AddWork) -> bool {
    exists|n: int|
        0 <= n < events.len() && #[trigger] ran(f, events.take(n)).stage == AddStage::Doing(work)
            && events[n] !is Failed
}

proof fn lemma_went_well_is_kept(f: AddFlags, events: Seq<AddEvent>, work: AddWork)
    requires
        events.len() > 0,
        went_well(f, events.drop_last(), work),
    ensures
        went_well(f, events, work),
{
    let n = choose|n: int|
        0 <= n < events.drop_last().len() && #[trigger] ran(
            f,
            events.drop_last().take(n),
        ).stage == AddStage::Doing(work) && events.drop_last()[n] !is Failed;
    assert(events.drop_last().take(n) == events.take(n));
    assert(events.drop_last()[n] == events[n]);
}

proof fn lemma_last_went_well(f: AddFlags, events: Seq<AddEvent>, work: AddWork)
    requires
        events.len() > 0,
        ran(f, events.drop_last()).stage == AddStage::Doing(work),
        events.last() !is Failed,
    ensures
        went_well(f, events, work),
{
    let n = events.len() - 1;
    assert(events.take(n) == events.drop_last());
}

/// No dependency is written to the manifest before the supply-chain gates have passed: a
/// refusal leaves `package.json` untouched.
pub proof fn gates_pass_before_the_manifest_changes(f: AddFlags, events: Seq<AddEvent>)
    requires
        ran(f, events).stage matches AddStage::Doing(work) && place(work) > place(AddWork::Gates),
    ensures
        went_well(f, events, AddWork::Gates),
    decreases events.len(),
{
    if events.len() > 0 {
        let before = ran(f, events.drop_last());
        if before.stage matches AddStage::Doing(work) && place(work) > place(AddWork::Gates) {
            gates_pass_before_the_manifest_changes(f, events.drop_last());
            lemma_went_well_is_kept(f, events, AddWork::Gates);
        } else {
            lemma_last_went_well(f, events, AddWork::Gates);
        }
    }
}

/// Under `--no-save` nothing is changed before the manifest and the lockfile were remembered.
pub proof fn files_are_remembered_before_they_change(f: AddFlags, events: Seq<AddEvent>)
    requires
        f.no_save,
        ran(f, events).stage matches AddStage::Doing(work) && place(work) > place(AddWork::Remember),
    ensures
        went_well(f, events, AddWork::Remember),
    decreases events.len(),
{
    if events.len() > 0 {
        let before = ran(f, events.drop_last());
        if before.stage matches AddStage::Doing(work) && place(work) > place(AddWork::Remember) {
            files_are_remembered_before_they_change(f, events.drop_last());
            lemma_went_well_is_kept(f, events, AddWork::Remember);
        } else {
            lemma_last_went_well(f, events, AddWork::Remember);
        }
    }
}

/// Under `--no-save` the manifest and then the lockfile are put back after the installation,
/// whether or not it succeeded, and the lockfile whether or not the manifest could be put back.
pub proof fn files_are_always_put_back(
    f: AddFlags,
    s: AddState,
    installed: AddEvent,
    manifest: AddEvent,
)
    requires
        f.no_save,
        s.stage == AddStage::Doing(AddWork::Install),
    ensures
        stepped(f, s, installed).stage == AddStage::Doing(AddWork::RestoreManifest),
        stepped(f, stepped(f, s, installed), manifest).stage == AddStage::Doing(
            AddWork::RestoreLockfile,
        ),
{
}

/// The error that is reported is the first relevant one: that of the installation, else that of
/// the manifest, else that of the lockfile.
pub proof fn first_relevant_error_is_reported(
    f: AddFlags,
    s: AddState,
    installed: AddEvent,
    manifest: AddEvent,
    lockfile: AddEvent,
)
    requires
        f.no_save,
        s.stage == AddStage::Doing(AddWork::Install),
    ensures
        stepped(f, stepped(f, stepped(f, s, installed), manifest), lockfile).stage
            == AddStage::End(
            end_of(installed is Failed, manifest is Failed, lockfile is Failed),
        ),
{
}

/// That the manifest and the lockfile were put back is said exactly if both were, whatever
/// became of the installation.
pub proof fn putting_back_is_said(
    f: AddFlags,
    s: AddState,
    installed: AddEvent,
    manifest: AddEvent,
    lockfile: AddEvent,
)
    requires
        f.no_save,
        s.stage == AddStage::Doing(AddWork::Install),
    ensures
        stepped(f, stepped(f, stepped(f, s, installed), manifest), lockfile).restored == (manifest
            !is Failed && lockfile !is Failed),
{
}

/// Every step is later in the order than the one before, so there are at most twelve.
pub proof fn every_step_goes_forward(f: AddFlags, s: AddState, e: AddEvent)
    requires
        s.stage is Doing,
    ensures
        stepped(f, s, e).stage matches AddStage::Doing(next) ==> place(s.stage->Doing_0) < place(
            next,
        ) <= 11,
{
}

/// What of the arguments decides is read off them: the build flags by whether they name a
/// package.
pub proof fn flags_are_read_off_the_arguments(args: AddArgs)
    ensures
        flags_of(args).workspace == args.workspace,
        flags_of(args).ignore_workspace_root_check == args.ignore_workspace_root_check,
        flags_of(args).no_save == args.no_save,
        flags_of(args).allows <==> args.allow_build@.len() != 0,
        flags_of(args).denies <==> args.deny_build@.len() != 0,
{
}

/// Work that goes well is followed by the next work that the flags ask for, and by nothing in
/// between: the root of the workspace is entered only with `--workspace-root`, and looked at
/// only without it and without leave; files are remembered and put back only under
/// `--no-save`; the build flags are recorded only where they name a package; and the gates,
/// the manifest and the installation are never left out.
pub proof fn work_follows_in_order(f: AddFlags, s: AddState, e: AddEvent)
    requires
        e == AddEvent::Done || (e matches AddEvent::Root {
            file_lists_packages,
            manifest_lists_workspaces,
        } && !file_lists_packages && !manifest_lists_workspaces),
    ensures
        f.workspace ==> ran(f, Seq::empty()).stage == AddStage::Doing(AddWork::EnterRoot),
        !f.workspace ==> ran(f, Seq::empty()).stage == AddStage::Doing(AddWork::EnsureManifest),
        ({
            let reviewed = if f.allows {
                AddStage::Doing(AddWork::AllowBuilds)
            } else if f.denies {
                AddStage::Doing(AddWork::DenyBuilds)
            } else {
                AddStage::Doing(AddWork::Gates)
            };
            let next = stepped(f, s, e).stage;
            &&& s.stage == AddStage::Doing(AddWork::EnterRoot) ==> next == AddStage::Doing(
                AddWork::EnsureManifest,
            )
            &&& s.stage == AddStage::Doing(AddWork::EnsureManifest) && (f.workspace
                || f.ignore_workspace_root_check) ==> next == AddStage::Doing(AddWork::Lock)
            &&& s.stage == AddStage::Doing(AddWork::EnsureManifest) && !f.workspace
                && !f.ignore_workspace_root_check ==> next == AddStage::Doing(AddWork::InspectRoot)
            &&& s.stage == AddStage::Doing(AddWork::InspectRoot) ==> next == AddStage::Doing(
                AddWork::Lock,
            )
            &&& s.stage == AddStage::Doing(AddWork::Lock) && f.no_save ==> next == AddStage::Doing(
                AddWork::Remember,
            )
            &&& s.stage == AddStage::Doing(AddWork::Lock) && !f.no_save ==> next == reviewed
            &&& s.stage == AddStage::Doing(AddWork::Remember) ==> next == reviewed
            &&& s.stage == AddStage::Doing(AddWork::AllowBuilds) && f.denies ==> next
                == AddStage::Doing(AddWork::DenyBuilds)
            &&& s.stage == AddStage::Doing(AddWork::AllowBuilds) && !f.denies ==> next
                == AddStage::Doing(AddWork::Gates)
            &&& s.stage == AddStage::Doing(AddWork::DenyBuilds) ==> next == AddStage::Doing(
                AddWork::Gates,
            )
            &&& s.stage == AddStage::Doing(AddWork::Gates) ==> next == AddStage::Doing(
                AddWork::UpdateManifest,
            )
            &&& s.stage == AddStage::Doing(AddWork::UpdateManifest) ==> next == AddStage::Doing(
                AddWork::Install,
            )
            &&& s.stage == AddStage::Doing(AddWork::Install) && !f.no_save ==> next
                == AddStage::End(AddEnd::Added)
            &&& s.stage is End ==> stepped(f, s, e) == s
        }),
{
}

/// Work before the installation that fails ends everything with its error; so does an
/// installation that has nothing to put back after it. The root of a workspace is refused,
/// whichever of its two files lists packages.
pub proof fn failures_end_the_work(f: AddFlags, s: AddState, work: AddWork, e: AddEvent)
    requires
        s.stage == AddStage::Doing(work),
    ensures
        e == AddEvent::Failed && work != AddWork::Install && work != AddWork::RestoreManifest && work
            != AddWork::RestoreLockfile ==> stepped(f, s, e).stage == AddStage::End(
            AddEnd::Failed(work),
        ),
        e == AddEvent::Failed && work == AddWork::Install && !f.no_save ==> stepped(f, s, e).stage
            == AddStage::End(AddEnd::Failed(work)),
        work == AddWork::InspectRoot && (e matches AddEvent::Root {
            file_lists_packages,
            manifest_lists_workspaces,
        } && (file_lists_packages || manifest_lists_workspaces)) ==> stepped(f, s, e).stage
            == AddStage::End(AddEnd::RefusedRoot),
        stepped(f, s, e).stage == AddStage::End(AddEnd::RefusedRoot) ==> work
            == AddWork::InspectRoot,
{
}

/// Under `--no-save` an installation that fails is what is reported, whatever becomes of the
/// files; one that succeeds is reported as added if and only if both files were put back, and
/// else the manifest's error comes before the lockfile's.
pub proof fn reports_name_what_failed(
    f: AddFlags,
    s: AddState,
    installed: bool,
    manifest: bool,
    lockfile: bool,
)
    requires
        f.no_save,
        s.stage == AddStage::Doing(AddWork::Install),
    ensures
        ({
            let told = |ok: bool| if ok {
                AddEvent::Done
            } else {
                AddEvent::Failed
            };
            let end = stepped(
                f,
                stepped(f, stepped(f, s, told(installed)), told(manifest)),
                told(lockfile),
            ).stage;
            &&& !installed ==> end == AddStage::End(AddEnd::Failed(AddWork::Install))
            &&& installed && !manifest ==> end == AddStage::End(
                AddEnd::Failed(AddWork::RestoreManifest),
            )
            &&& installed && manifest && !lockfile ==> end == AddStage::End(
                AddEnd::Failed(AddWork::RestoreLockfile),
            )
            &&& installed && manifest && lockfile ==> end == AddStage::End(AddEnd::Added)
        }),
{
}

} // verus!
