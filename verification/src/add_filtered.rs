//! `aube add` in the members of a workspace that a filter selects, step by step.
//!
//! All members get the same packages, and the installation runs once for all of them. Under
//! `--no-save` every manifest that was remembered is put back, and the root's lockfile.

use crate::add_project::AddFlags;
use vstd::prelude::*;

verus! {

/// The work to do next. Members are counted in the order in which they were selected.
#[derive(Debug, Clone, Copy, PartialEq, Eq, Structural)]
pub enum FilteredWork {
    /// Take the lock of the workspace.
    Lock,
    /// Record the packages whose scripts are approved.
    AllowBuilds,
    /// Record the packages whose scripts are denied.
    DenyBuilds,
    /// Ask the supply-chain gates.
    Gates,
    /// Remember the lockfile of the root.
    RememberLockfile,
    /// Remember the manifest of this member.
    RememberManifest(usize),
    /// Write the new dependencies into the manifest of this member.
    UpdateManifest(usize),
    /// Resolve, write the lockfile and link.
    Install,
    /// Put the manifest of this member back.
    RestoreManifest(usize),
    /// Put the lockfile of the root back.
    RestoreLockfile,
}

/// How it ended.
#[derive(Debug, Clone, Copy, PartialEq, Eq, Structural)]
pub enum FilteredEnd {
    /// Everything went well.
    Added,
    /// This work failed, and its error is reported.
    Failed(FilteredWork),
}

/// Where `aube add` stands.
#[derive(Debug, Clone, Copy, PartialEq, Eq, Structural)]
pub enum FilteredStage {
    Doing(FilteredWork),
    End(FilteredEnd),
}

/// Where `aube add` stands, and what happened on the way.
#[derive(Debug, Clone, Copy, PartialEq, Eq, Structural)]
pub struct FilteredState {
    pub stage: FilteredStage,
    /// The number of members whose manifests were remembered.
    pub remembered: usize,
    /// The work on the members or the installation that failed.
    pub failed: Option<FilteredWork>,
    /// The first work that failed while things were put back.
    pub restore_failed: Option<FilteredWork>,
    /// Everything was put back, the manifests of this many members among it, which is said
    /// whether or not the work itself succeeded.
    pub restored: Option<usize>,
}

/// The work once the lockfile was remembered, or need not be, on the members from `i` on.
pub open spec fn member_work(f: AddFlags, members: usize, i: usize) -> FilteredWork {
    if i >= members {
        FilteredWork::Install
    } else if f.no_save {
        FilteredWork::RememberManifest(i)
    } else {
        FilteredWork::UpdateManifest(i)
    }
}

/// The work that follows work that went well, before any member is touched.
pub open spec fn next_work(f: AddFlags, members: usize, work: FilteredWork) -> FilteredWork {
    match work {
        FilteredWork::Lock => if f.allows {
            FilteredWork::AllowBuilds
        } else if f.denies {
            FilteredWork::DenyBuilds
        } else {
            FilteredWork::Gates
        },
        FilteredWork::AllowBuilds => if f.denies {
            FilteredWork::DenyBuilds
        } else {
            FilteredWork::Gates
        },
        FilteredWork::DenyBuilds => FilteredWork::Gates,
        FilteredWork::Gates => if f.no_save {
            FilteredWork::RememberLockfile
        } else {
            member_work(f, members, 0)
        },
        FilteredWork::RememberLockfile => member_work(f, members, 0),
        FilteredWork::RememberManifest(i) => FilteredWork::UpdateManifest(i),
        FilteredWork::UpdateManifest(i) => member_work(f, members, (i + 1) as usize),
        other => other,
    }
}

/// The work that puts things back, from the manifest of the `j`th remembered member on.
pub open spec fn restore_work(remembered: usize, j: usize) -> FilteredWork {
    if j < remembered {
        FilteredWork::RestoreManifest(j)
    } else {
        FilteredWork::RestoreLockfile
    }
}

/// The state once the members were worked on and the installation ran, or one of these failed.
pub open spec fn settled(f: AddFlags, s: FilteredState, failed: Option<FilteredWork>) -> FilteredState {
    FilteredState {
        stage: if f.no_save {
            FilteredStage::Doing(restore_work(s.remembered, 0))
        } else {
            FilteredStage::End(
                match failed {
                    Some(work) => FilteredEnd::Failed(work),
                    None => FilteredEnd::Added,
                },
            )
        },
        failed,
        ..s
    }
}

/// The first of two failures.
pub open spec fn first_failure(
    earlier: Option<FilteredWork>,
    work: FilteredWork,
    failed: bool,
) -> Option<FilteredWork> {
    match earlier {
        Some(_) => earlier,
        None => if failed {
            Some(work)
        } else {
            None
        },
    }
}

/// How it ended under `--no-save`: an error of the work itself comes first, then the first that
/// came while things were put back.
pub open spec fn end_of(
    failed: Option<FilteredWork>,
    restore_failed: Option<FilteredWork>,
) -> FilteredEnd {
    match (failed, restore_failed) {
        (Some(work), _) => FilteredEnd::Failed(work),
        (None, Some(work)) => FilteredEnd::Failed(work),
        (None, None) => FilteredEnd::Added,
    }
}

/// The state after the work at hand went well, or did not.
pub open spec fn stepped(f: AddFlags, members: usize, s: FilteredState, ok: bool) -> FilteredState {
    match s.stage {
        FilteredStage::End(_) => s,
        FilteredStage::Doing(work) => match work {
            FilteredWork::RememberManifest(i) => if ok {
                FilteredState {
                    stage: FilteredStage::Doing(FilteredWork::UpdateManifest(i)),
                    remembered: (s.remembered + 1) as usize,
                    ..s
                }
            } else {
                settled(f, s, Some(work))
            },
            FilteredWork::UpdateManifest(_) => if ok {
                FilteredState {
                    stage: FilteredStage::Doing(next_work(f, members, work)),
                    ..s
                }
            } else {
                settled(f, s, Some(work))
            },
            FilteredWork::Install => settled(
                f,
                s,
                if ok {
                    None
                } else {
                    Some(work)
                },
            ),
            FilteredWork::RestoreManifest(j) => FilteredState {
                stage: FilteredStage::Doing(restore_work(s.remembered, (j + 1) as usize)),
                restore_failed: first_failure(s.restore_failed, work, !ok),
                ..s
            },
            FilteredWork::RestoreLockfile => {
                let restore_failed = first_failure(s.restore_failed, work, !ok);
                FilteredState {
                    stage: FilteredStage::End(end_of(s.failed, restore_failed)),
                    restore_failed,
                    restored: if restore_failed is None {
                        Some(s.remembered)
                    } else {
                        None
                    },
                    ..s
                }
            },
            _ => FilteredState {
                stage: if ok {
                    FilteredStage::Doing(next_work(f, members, work))
                } else {
                    FilteredStage::End(FilteredEnd::Failed(work))
                },
                ..s
            },
        },
    }
}

/// The state at the start.
pub open spec fn started() -> FilteredState {
    FilteredState {
        stage: FilteredStage::Doing(FilteredWork::Lock),
        remembered: 0,
        failed: None,
        restore_failed: None,
        restored: None,
    }
}

impl FilteredState {
    /// What holds at every step: the members are within bounds, and as many manifests were
    /// remembered as members were reached.
    pub open spec fn wf(&self, f: AddFlags, members: usize) -> bool {
        &&& self.remembered <= members
        &&& match self.stage {
            FilteredStage::Doing(FilteredWork::RememberManifest(i)) => f.no_save && i < members
                && self.remembered == i,
            FilteredStage::Doing(FilteredWork::UpdateManifest(i)) => i < members
                && self.remembered == (if f.no_save {
                i + 1
            } else {
                0
            }),
            FilteredStage::Doing(FilteredWork::Install) => self.remembered == (if f.no_save {
                members as int
            } else {
                0
            }),
            FilteredStage::Doing(FilteredWork::RestoreManifest(j)) => f.no_save && j
                < self.remembered,
            FilteredStage::Doing(FilteredWork::RestoreLockfile) => f.no_save,
            FilteredStage::Doing(_) => self.remembered == 0,
            FilteredStage::End(_) => true,
        }
    }

    /// The state at the start.
    pub fn new() -> (r: FilteredState)
        ensures
            r == started(),
            forall|f: AddFlags, members: usize| #[trigger] r.wf(f, members),
    {
        FilteredState {
            stage: FilteredStage::Doing(FilteredWork::Lock),
            remembered: 0,
            failed: None,
            restore_failed: None,
            restored: None,
        }
    }

    /// Goes on after the work at hand went well, or did not.
    pub fn step(&mut self, f: AddFlags, members: usize, ok: bool)
        requires
            old(self).wf(f, members),
        ensures
            *final(self) == stepped(f, members, *old(self), ok),
            final(self).wf(f, members),
    {
        let work = match self.stage {
            FilteredStage::End(_) => {
                return;
            },
            FilteredStage::Doing(work) => work,
        };
        match work {
            FilteredWork::RememberManifest(i) => {
                if ok {
                    self.stage = FilteredStage::Doing(FilteredWork::UpdateManifest(i));
                    self.remembered = self.remembered + 1;
                } else {
                    self.settle(f, Some(work));
                }
            },
            FilteredWork::UpdateManifest(i) => {
                if ok {
                    self.stage = FilteredStage::Doing(at_member(f, members, i + 1));
                } else {
                    self.settle(f, Some(work));
                }
            },
            FilteredWork::Install => {
                self.settle(
                    f,
                    if ok {
                        None
                    } else {
                        Some(work)
                    },
                );
            },
            FilteredWork::RestoreManifest(j) => {
                if !ok && self.restore_failed.is_none() {
                    self.restore_failed = Some(work);
                }
                self.stage = if j + 1 < self.remembered {
                    FilteredStage::Doing(FilteredWork::RestoreManifest(j + 1))
                } else {
                    FilteredStage::Doing(FilteredWork::RestoreLockfile)
                };
            },
            FilteredWork::RestoreLockfile => {
                if !ok && self.restore_failed.is_none() {
                    self.restore_failed = Some(work);
                }
                self.stage = FilteredStage::End(
                    match (self.failed, self.restore_failed) {
                        (Some(first), _) => FilteredEnd::Failed(first),
                        (None, Some(first)) => FilteredEnd::Failed(first),
                        (None, None) => FilteredEnd::Added,
                    },
                );
                self.restored = if self.restore_failed.is_none() {
                    Some(self.remembered)
                } else {
                    None
                };
            },
            FilteredWork::Lock => {
                self.go_on(
                    work,
                    if f.allows {
                        FilteredWork::AllowBuilds
                    } else if f.denies {
                        FilteredWork::DenyBuilds
                    } else {
                        FilteredWork::Gates
                    },
                    ok,
                );
            },
            FilteredWork::AllowBuilds => {
                self.go_on(
                    work,
                    if f.denies {
                        FilteredWork::DenyBuilds
                    } else {
                        FilteredWork::Gates
                    },
                    ok,
                );
            },
            FilteredWork::DenyBuilds => {
                self.go_on(work, FilteredWork::Gates, ok);
            },
            FilteredWork::Gates => {
                self.go_on(
                    work,
                    if f.no_save {
                        FilteredWork::RememberLockfile
                    } else {
                        at_member(f, members, 0)
                    },
                    ok,
                );
            },
            FilteredWork::RememberLockfile => {
                self.go_on(work, at_member(f, members, 0), ok);
            },
        }
    }

    fn go_on(&mut self, work: FilteredWork, next: FilteredWork, ok: bool)
        ensures
            *final(self) == (FilteredState {
                stage: if ok {
                    FilteredStage::Doing(next)
                } else {
                    FilteredStage::End(FilteredEnd::Failed(work))
                },
                ..*old(self)
            }),
    {
        self.stage = if ok {
            FilteredStage::Doing(next)
        } else {
            FilteredStage::End(FilteredEnd::Failed(work))
        };
    }

    fn settle(&mut self, f: AddFlags, failed: Option<FilteredWork>)
        ensures
            *final(self) == settled(f, *old(self), failed),
    {
        self.stage = if f.no_save {
            if 0 < self.remembered {
                FilteredStage::Doing(FilteredWork::RestoreManifest(0))
            } else {
                FilteredStage::Doing(FilteredWork::RestoreLockfile)
            }
        } else {
            FilteredStage::End(
                match failed {
                    Some(work) => FilteredEnd::Failed(work),
                    None => FilteredEnd::Added,
                },
            )
        };
        self.failed = failed;
    }
}

fn at_member(f: AddFlags, members: usize, i: usize) -> (r: FilteredWork)
    ensures
        r == member_work(f, members, i),
{
    if i >= members {
        FilteredWork::Install
    } else if f.no_save {
        FilteredWork::RememberManifest(i)
    } else {
        FilteredWork::UpdateManifest(i)
    }
}

/// The state after some steps, each of which went well or did not.
pub open spec fn ran(f: AddFlags, members: usize, went: Seq<bool>) -> FilteredState
    decreases went.len(),
{
    if went.len() == 0 {
        started()
    } else {
        stepped(f, members, ran(f, members, went.drop_last()), went.last())
    }
}

/// What holds at every step holds of every run.
pub proof fn runs_are_well_formed(f: AddFlags, members: usize, went: Seq<bool>)
    ensures
        ran(f, members, went).wf(f, members),
    decreases went.len(),
{
    if went.len() > 0 {
        runs_are_well_formed(f, members, went.drop_last());
    }
}

/// Whether a manifest may have been changed: work on the members has begun.
pub open spec fn touches_manifests(s: FilteredState) -> bool {
    match s.stage {
        FilteredStage::Doing(FilteredWork::UpdateManifest(_)) => true,
        FilteredStage::Doing(FilteredWork::RememberManifest(_)) => true,
        FilteredStage::Doing(FilteredWork::Install) => true,
        FilteredStage::Doing(FilteredWork::RestoreManifest(_)) => true,
        FilteredStage::Doing(FilteredWork::RestoreLockfile) => true,
        _ => false,
    }
}

/// Whether work was done, and done well, before the last of some steps.
pub open spec fn went_well(
    f: AddFlags,
    members: usize,
    went: Seq<bool>,
    work: FilteredWork,
) -> bool {
    exists|n: int|
        0 <= n < went.len() && #[trigger] ran(f, members, went.take(n)).stage
            == FilteredStage::Doing(work) && went[n]
}

proof fn lemma_went_well_is_kept(
    f: AddFlags,
    members: usize,
    went: Seq<bool>,
    work: FilteredWork,
)
    requires
        went.len() > 0,
        went_well(f, members, went.drop_last(), work),
    ensures
        went_well(f, members, went, work),
{
    let n = choose|n: int|
        0 <= n < went.drop_last().len() && #[trigger] ran(
            f,
            members,
            went.drop_last().take(n),
        ).stage == FilteredStage::Doing(work) && went.drop_last()[n];
    assert(went.drop_last().take(n) == went.take(n));
    assert(went.drop_last()[n] == went[n]);
}

/// No manifest of a member is touched before the supply-chain gates have passed, and under
/// `--no-save` none before the lockfile of the root was remembered.
pub proof fn gates_pass_before_any_manifest_changes(f: AddFlags, members: usize, went: Seq<bool>)
    requires
        touches_manifests(ran(f, members, went)),
    ensures
        went_well(f, members, went, FilteredWork::Gates),
        f.no_save ==> went_well(f, members, went, FilteredWork::RememberLockfile),
    decreases went.len(),
{
    if went.len() > 0 {
        let n = went.len() - 1;
        let before = ran(f, members, went.drop_last());
        assert(went.take(n) == went.drop_last());
        if touches_manifests(before) {
            gates_pass_before_any_manifest_changes(f, members, went.drop_last());
            lemma_went_well_is_kept(f, members, went, FilteredWork::Gates);
            if f.no_save {
                lemma_went_well_is_kept(f, members, went, FilteredWork::RememberLockfile);
            }
        } else if before.stage == FilteredStage::Doing(FilteredWork::RememberLockfile) {
            lemma_lockfile_comes_after_the_gates(f, members, went.drop_last());
            lemma_went_well_is_kept(f, members, went, FilteredWork::Gates);
        }
    }
}

proof fn lemma_lockfile_comes_after_the_gates(f: AddFlags, members: usize, went: Seq<bool>)
    requires
        ran(f, members, went).stage == FilteredStage::Doing(FilteredWork::RememberLockfile),
    ensures
        went_well(f, members, went, FilteredWork::Gates),
        f.no_save,
    decreases went.len(),
{
    if went.len() > 0 {
        let n = went.len() - 1;
        assert(went.take(n) == went.drop_last());
        let before = ran(f, members, went.drop_last());
        assert(before.stage == FilteredStage::Doing(FilteredWork::Gates));
    }
}

/// Whether things are still to be put back.
pub open spec fn owes_restore(s: FilteredState) -> bool {
    match s.stage {
        FilteredStage::Doing(FilteredWork::UpdateManifest(_)) => true,
        FilteredStage::Doing(FilteredWork::RememberManifest(_)) => true,
        FilteredStage::Doing(FilteredWork::Install) => true,
        FilteredStage::Doing(FilteredWork::RestoreManifest(_)) => true,
        _ => false,
    }
}

/// Under `--no-save` nothing ends before things were put back: once members are worked on, the
/// run ends only with the work that puts the lockfile back, whether or not a step fails.
pub proof fn nothing_ends_before_the_lockfile_is_back(
    f: AddFlags,
    members: usize,
    s: FilteredState,
    ok: bool,
)
    requires
        f.no_save,
        s.wf(f, members),
        owes_restore(s),
    ensures
        owes_restore(stepped(f, members, s, ok)) || stepped(f, members, s, ok).stage
            == FilteredStage::Doing(FilteredWork::RestoreLockfile),
{
}

/// Under `--no-save` every manifest that was remembered is put back, one after the other and
/// each once, whether or not the one before could be: when members and installation are done
/// with, the first is due, and after each the next, until the lockfile is.
pub proof fn every_remembered_manifest_is_put_back(
    f: AddFlags,
    members: usize,
    s: FilteredState,
    went: Seq<bool>,
    j: nat,
)
    requires
        f.no_save,
        s.wf(f, members),
        s.stage == FilteredStage::Doing(restore_work(s.remembered, 0)),
        went.len() == s.remembered,
        j <= s.remembered,
    ensures
        continued(f, members, s, went, j).stage == FilteredStage::Doing(
            restore_work(s.remembered, j as usize),
        ),
        continued(f, members, s, went, j).remembered == s.remembered,
    decreases j,
{
    if j > 0 {
        every_remembered_manifest_is_put_back(f, members, s, went, (j - 1) as nat);
    }
}

/// The state after the first `j` of some further steps.
pub open spec fn continued(
    f: AddFlags,
    members: usize,
    s: FilteredState,
    went: Seq<bool>,
    j: nat,
) -> FilteredState
    decreases j,
{
    if j == 0 {
        s
    } else {
        stepped(f, members, continued(f, members, s, went, (j - 1) as nat), went[j - 1])
    }
}

/// The error that is reported is the first relevant one: that of the work itself, else the
/// first that came while things were put back.
pub proof fn first_relevant_error_is_reported(
    f: AddFlags,
    members: usize,
    s: FilteredState,
    ok: bool,
)
    requires
        s.stage == FilteredStage::Doing(FilteredWork::RestoreLockfile),
    ensures
        s.failed is Some ==> stepped(f, members, s, ok).stage == FilteredStage::End(
            FilteredEnd::Failed(s.failed->0),
        ),
        s.failed is None && s.restore_failed is Some ==> stepped(f, members, s, ok).stage
            == FilteredStage::End(FilteredEnd::Failed(s.restore_failed->0)),
        s.failed is None && s.restore_failed is None && ok ==> stepped(f, members, s, ok).stage
            == FilteredStage::End(FilteredEnd::Added),
{
}

/// That everything was put back is said exactly if it was, whatever became of the work itself.
pub proof fn putting_back_is_said(f: AddFlags, members: usize, s: FilteredState, ok: bool)
    requires
        s.stage == FilteredStage::Doing(FilteredWork::RestoreLockfile),
    ensures
        stepped(f, members, s, ok).restored == (if s.restore_failed is None && ok {
            Some(s.remembered)
        } else {
            None
        }),
{
}

/// Work that goes well is followed by the next work that the flags ask for: the build flags
/// where they name a package, the gates always, the files to remember only under `--no-save`,
/// then the members one after the other and the installation once for all of them.
pub proof fn work_follows_in_order(f: AddFlags, members: usize, s: FilteredState, i: usize)
    ensures
        ran(f, members, Seq::empty()).stage == FilteredStage::Doing(FilteredWork::Lock),
        ({
            let next = stepped(f, members, s, true).stage;
            let doing = |work: FilteredWork| s.stage == FilteredStage::Doing(work);
            &&& doing(FilteredWork::Lock) && f.allows ==> next == FilteredStage::Doing(
                FilteredWork::AllowBuilds,
            )
            &&& (doing(FilteredWork::Lock) && !f.allows || doing(FilteredWork::AllowBuilds))
                && f.denies ==> next == FilteredStage::Doing(FilteredWork::DenyBuilds)
            &&& (doing(FilteredWork::Lock) && !f.allows || doing(FilteredWork::AllowBuilds))
                && !f.denies ==> next == FilteredStage::Doing(FilteredWork::Gates)
            &&& doing(FilteredWork::DenyBuilds) ==> next == FilteredStage::Doing(
                FilteredWork::Gates,
            )
            &&& doing(FilteredWork::Gates) && f.no_save ==> next == FilteredStage::Doing(
                FilteredWork::RememberLockfile,
            )
            &&& doing(FilteredWork::Gates) && !f.no_save && members > 0 ==> next
                == FilteredStage::Doing(FilteredWork::UpdateManifest(0))
            &&& doing(FilteredWork::RememberLockfile) && f.no_save && members > 0 ==> next
                == FilteredStage::Doing(FilteredWork::RememberManifest(0))
            &&& (doing(FilteredWork::Gates) && !f.no_save || doing(FilteredWork::RememberLockfile))
                && members == 0 ==> next == FilteredStage::Doing(FilteredWork::Install)
            &&& doing(FilteredWork::RememberManifest(i)) ==> next == FilteredStage::Doing(
                FilteredWork::UpdateManifest(i),
            )
            &&& doing(FilteredWork::UpdateManifest(i)) && i + 1 < members && f.no_save ==> next
                == FilteredStage::Doing(FilteredWork::RememberManifest((i + 1) as usize))
            &&& doing(FilteredWork::UpdateManifest(i)) && i + 1 < members && !f.no_save ==> next
                == FilteredStage::Doing(FilteredWork::UpdateManifest((i + 1) as usize))
            &&& doing(FilteredWork::UpdateManifest(i)) && i + 1 == members ==> next
                == FilteredStage::Doing(FilteredWork::Install)
            &&& doing(FilteredWork::Install) && !f.no_save ==> next == FilteredStage::End(
                FilteredEnd::Added,
            )
            &&& s.stage is End ==> stepped(f, members, s, true) == s
        }),
{
}

/// Work that fails ends everything with its error where there is nothing to put back: before
/// any member is touched, and without `--no-save`. Where there is, the error is kept, and
/// putting back begins with the first manifest that was remembered.
pub proof fn failures_end_the_work(f: AddFlags, members: usize, s: FilteredState, work: FilteredWork)
    requires
        s.stage == FilteredStage::Doing(work),
    ensures
        work is Lock || work is AllowBuilds || work is DenyBuilds || work is Gates || work
            is RememberLockfile ==> stepped(f, members, s, false).stage == FilteredStage::End(
            FilteredEnd::Failed(work),
        ),
        !f.no_save && (work is UpdateManifest || work is Install) ==> stepped(
            f,
            members,
            s,
            false,
        ).stage == FilteredStage::End(FilteredEnd::Failed(work)),
        f.no_save && (work is RememberManifest || work is UpdateManifest || work is Install) ==> ({
            let next = stepped(f, members, s, false);
            &&& next.failed == Some(work)
            &&& s.remembered > 0 ==> next.stage == FilteredStage::Doing(
                FilteredWork::RestoreManifest(0),
            )
            &&& s.remembered == 0 ==> next.stage == FilteredStage::Doing(
                FilteredWork::RestoreLockfile,
            )
        }),
        f.no_save && work is Install ==> ({
            let next = stepped(f, members, s, true);
            &&& next.failed is None
            &&& s.remembered > 0 ==> next.stage == FilteredStage::Doing(
                FilteredWork::RestoreManifest(0),
            )
            &&& s.remembered == 0 ==> next.stage == FilteredStage::Doing(
                FilteredWork::RestoreLockfile,
            )
        }),
{
}

/// The manifests are put back one after the other whether or not the one before could be, and
/// then the lockfile. What is reported at the end is the error of the work itself, else the
/// first one of putting back.
pub proof fn putting_back_goes_on(
    f: AddFlags,
    members: usize,
    s: FilteredState,
    j: usize,
    ok: bool,
)
    ensures
        s.stage == FilteredStage::Doing(FilteredWork::RestoreManifest(j)) && j + 1 < s.remembered
            ==> stepped(f, members, s, ok).stage == FilteredStage::Doing(
            FilteredWork::RestoreManifest((j + 1) as usize),
        ),
        s.stage == FilteredStage::Doing(FilteredWork::RestoreManifest(j)) && j + 1 == s.remembered
            ==> stepped(f, members, s, ok).stage == FilteredStage::Doing(
            FilteredWork::RestoreLockfile,
        ),
        s.stage == FilteredStage::Doing(FilteredWork::RestoreManifest(j)) ==> stepped(
            f,
            members,
            s,
            ok,
        ).failed == s.failed && stepped(f, members, s, ok).restore_failed == (
        if s.restore_failed is Some {
            s.restore_failed
        } else if ok {
            None
        } else {
            Some(FilteredWork::RestoreManifest(j))
        }),
        s.stage == FilteredStage::Doing(FilteredWork::RestoreLockfile) ==> stepped(
            f,
            members,
            s,
            ok,
        ).stage == FilteredStage::End(
            if s.failed is Some {
                FilteredEnd::Failed(s.failed->0)
            } else if s.restore_failed is Some {
                FilteredEnd::Failed(s.restore_failed->0)
            } else if !ok {
                FilteredEnd::Failed(FilteredWork::RestoreLockfile)
            } else {
                FilteredEnd::Added
            },
        ),
{
}

} // verus!
