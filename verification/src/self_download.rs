//! The download of a release archive, step by step: lock, look, download, check, unpack and
//! publish. Each step says what has to be cleaned up before it.

use crate::checksum;
use vstd::prelude::*;

verus! {

/// What a download is doing.
#[derive(Debug, Clone, Copy, PartialEq, Eq, Structural)]
pub enum Phase {
    /// Taking the lock of the version.
    Lock,
    /// Looking whether the version is there now that the lock is held.
    CheckDest,
    /// Downloading the archive.
    Download,
    /// Fetching the published checksum.
    FetchChecksum,
    /// Unpacking the archive into the staging directory.
    Extract,
    /// Moving the staging directory to its place.
    Publish,
    /// Looking whether the version is there although it could not be moved.
    CheckAfterFailedPublish,
    /// Looking whether what was moved can be used.
    CheckPublished,
    /// Done.
    Done(Outcome),
}

/// How a download ends.
#[derive(Debug, Clone, Copy, PartialEq, Eq, Structural)]
pub enum Outcome {
    /// The version was there already.
    Existing,
    /// The version has been installed.
    Installed,
    /// The lock could not be taken.
    LockFailed,
    /// No release is published for the platform.
    Unsupported,
    /// The archive could not be downloaded.
    DownloadFailed,
    /// The archive is not the published one.
    ChecksumMismatch,
    /// The archive could not be unpacked.
    ExtractFailed,
    /// Unpacking could not be started, or was cut off.
    Aborted,
    /// The result could not be moved to its place.
    PublishFailed,
    /// The archive holds no aube that can be used.
    NotUsable,
}

/// What has happened in a phase.
#[derive(Debug, Clone, Copy, PartialEq, Eq, Structural)]
pub enum Event {
    /// What was to be done is done.
    Succeeded,
    /// It failed.
    Failed,
    /// It could not be started, or was cut off.
    Aborted,
    /// The version is there and can be used.
    Present,
    /// It is not.
    Absent,
    /// It is not, and there is no release for the platform.
    AbsentUnsupported,
    /// The published checksum is that of the archive, or there is none.
    ChecksumAccepted,
    /// The published checksum is another one.
    ChecksumRejected,
}

/// The next phase, and what to remove before it.
#[derive(Debug, Clone, Copy, PartialEq, Eq, Structural)]
pub struct Step {
    pub phase: Phase,
    pub remove_archive: bool,
    pub remove_staging: bool,
}

/// Whether an event can happen in a phase.
pub open spec fn fits(p: Phase, e: Event) -> bool {
    match p {
        Phase::Lock => e == Event::Succeeded || e == Event::Failed,
        Phase::CheckDest => e == Event::Present || e == Event::Absent || e
            == Event::AbsentUnsupported,
        Phase::Download => e == Event::Succeeded || e == Event::Failed,
        Phase::FetchChecksum => e == Event::ChecksumAccepted || e == Event::ChecksumRejected,
        Phase::Extract => e == Event::Succeeded || e == Event::Failed || e == Event::Aborted,
        Phase::Publish => e == Event::Succeeded || e == Event::Failed,
        Phase::CheckAfterFailedPublish => e == Event::Present || e == Event::Absent,
        Phase::CheckPublished => e == Event::Present || e == Event::Absent,
        Phase::Done(_) => false,
    }
}

/// What follows an event in a phase.
pub open spec fn step_after(p: Phase, e: Event) -> Step {
    let keep = |phase: Phase| Step { phase, remove_archive: false, remove_staging: false };
    match p {
        Phase::Lock => if e == Event::Succeeded {
            keep(Phase::CheckDest)
        } else {
            keep(Phase::Done(Outcome::LockFailed))
        },
        Phase::CheckDest => if e == Event::Present {
            keep(Phase::Done(Outcome::Existing))
        } else if e == Event::AbsentUnsupported {
            keep(Phase::Done(Outcome::Unsupported))
        } else {
            keep(Phase::Download)
        },
        Phase::Download => if e == Event::Succeeded {
            keep(Phase::FetchChecksum)
        } else {
            keep(Phase::Done(Outcome::DownloadFailed))
        },
        Phase::FetchChecksum => if e == Event::ChecksumAccepted {
            keep(Phase::Extract)
        } else {
            Step {
                phase: Phase::Done(Outcome::ChecksumMismatch),
                remove_archive: true,
                remove_staging: false,
            }
        },
        Phase::Extract => if e == Event::Succeeded {
            Step { phase: Phase::Publish, remove_archive: true, remove_staging: false }
        } else if e == Event::Aborted {
            keep(Phase::Done(Outcome::Aborted))
        } else {
            Step {
                phase: Phase::Done(Outcome::ExtractFailed),
                remove_archive: true,
                remove_staging: true,
            }
        },
        Phase::Publish => if e == Event::Succeeded {
            keep(Phase::CheckPublished)
        } else {
            Step {
                phase: Phase::CheckAfterFailedPublish,
                remove_archive: false,
                remove_staging: true,
            }
        },
        Phase::CheckAfterFailedPublish => if e == Event::Present {
            keep(Phase::CheckPublished)
        } else {
            keep(Phase::Done(Outcome::PublishFailed))
        },
        Phase::CheckPublished => if e == Event::Present {
            keep(Phase::Done(Outcome::Installed))
        } else {
            keep(Phase::Done(Outcome::NotUsable))
        },
        Phase::Done(o) => keep(Phase::Done(o)),
    }
}

fn plain(phase: Phase) -> (r: Step)
    ensures
        r == (Step { phase, remove_archive: false, remove_staging: false }),
{
    Step { phase, remove_archive: false, remove_staging: false }
}

/// Decides what follows an event.
pub fn step(p: Phase, e: Event) -> (r: Step)
    ensures
        r == step_after(p, e),
{
    match (p, e) {
        (Phase::Lock, Event::Succeeded) => plain(Phase::CheckDest),
        (Phase::Lock, _) => plain(Phase::Done(Outcome::LockFailed)),
        (Phase::CheckDest, Event::Present) => plain(Phase::Done(Outcome::Existing)),
        (Phase::CheckDest, Event::AbsentUnsupported) => plain(Phase::Done(Outcome::Unsupported)),
        (Phase::CheckDest, _) => plain(Phase::Download),
        (Phase::Download, Event::Succeeded) => plain(Phase::FetchChecksum),
        (Phase::Download, _) => plain(Phase::Done(Outcome::DownloadFailed)),
        (Phase::FetchChecksum, Event::ChecksumAccepted) => plain(Phase::Extract),
        (Phase::FetchChecksum, _) => Step {
            phase: Phase::Done(Outcome::ChecksumMismatch),
            remove_archive: true,
            remove_staging: false,
        },
        (Phase::Extract, Event::Succeeded) => Step {
            phase: Phase::Publish,
            remove_archive: true,
            remove_staging: false,
        },
        (Phase::Extract, Event::Aborted) => plain(Phase::Done(Outcome::Aborted)),
        (Phase::Extract, _) => Step {
            phase: Phase::Done(Outcome::ExtractFailed),
            remove_archive: true,
            remove_staging: true,
        },
        (Phase::Publish, Event::Succeeded) => plain(Phase::CheckPublished),
        (Phase::Publish, _) => Step {
            phase: Phase::CheckAfterFailedPublish,
            remove_archive: false,
            remove_staging: true,
        },
        (Phase::CheckAfterFailedPublish, Event::Present) => plain(Phase::CheckPublished),
        (Phase::CheckAfterFailedPublish, _) => plain(Phase::Done(Outcome::PublishFailed)),
        (Phase::CheckPublished, Event::Present) => plain(Phase::Done(Outcome::Installed)),
        (Phase::CheckPublished, _) => plain(Phase::Done(Outcome::NotUsable)),
        (Phase::Done(o), _) => plain(Phase::Done(o)),
    }
}

/// Whether a download may be unpacked: a release without a checksum is trusted.
pub fn checksum_event(
    url: &str,
    expected: &Option<Vec<u8>>,
    actual: &Vec<u8>,
) -> (r: (Event, Option<checksum::ChecksumMismatch>))
    ensures
        r.0 == Event::ChecksumAccepted || r.0 == Event::ChecksumRejected,
        r.0 == Event::ChecksumAccepted <==> (expected matches Some(e) ==> e@ == actual@),
        r.0 == Event::ChecksumAccepted <==> r.1 is None,
        r.1 matches Some(m) ==> m.url@ == url@ && m.expected@ == checksum::hex_text(
            expected->0@,
        ) && m.actual@ == checksum::hex_text(actual@),
{
    match checksum::verify_digest(url, expected, actual) {
        Ok(()) => (Event::ChecksumAccepted, None),
        Err(m) => (Event::ChecksumRejected, Some(m)),
    }
}

/// What a download may have left on disk.
pub struct Leftovers {
    /// The archive, whole or in part.
    pub archive: bool,
    /// The staging directory.
    pub staging: bool,
    /// The archive has been accepted.
    pub accepted: bool,
    /// Something has been moved to its place.
    pub published: bool,
}

/// What may be on disk after an event: downloading makes the archive, unpacking the staging
/// directory, publishing moves that one away, and cleaning up removes.
pub open spec fn leftovers_after(l: Leftovers, p: Phase, e: Event) -> Leftovers {
    let s = step_after(p, e);
    let archive = l.archive || p == Phase::Download;
    let staging = (l.staging || p == Phase::Extract) && !(p == Phase::Publish && e
        == Event::Succeeded);
    Leftovers {
        archive: archive && !s.remove_archive,
        staging: staging && !s.remove_staging,
        accepted: l.accepted || e == Event::ChecksumAccepted,
        published: l.published || p == Phase::Publish && e == Event::Succeeded,
    }
}

/// What is on disk in each phase.
pub open spec fn tidy(p: Phase, l: Leftovers) -> bool {
    &&& l.archive == (p == Phase::FetchChecksum || p == Phase::Extract || p == Phase::Done(
        Outcome::DownloadFailed,
    ))
    &&& l.staging == (p == Phase::Publish)
    &&& (p == Phase::Extract || p == Phase::Publish || l.published) ==> l.accepted
    &&& p == Phase::Done(Outcome::ChecksumMismatch) ==> !l.published
}

/// Every step keeps the disk tidy, unless unpacking is cut off. So nothing is left when a
/// download is over, whatever the outcome, but for what a failed transfer leaves of the
/// archive; an archive is unpacked and published only if its checksum is accepted; and after a
/// mismatch nothing has been published.
pub proof fn every_step_is_tidy(p: Phase, l: Leftovers, e: Event)
    requires
        fits(p, e),
        e != Event::Aborted,
        tidy(p, l),
        l.published ==> p == Phase::CheckPublished,
    ensures
        tidy(step_after(p, e).phase, leftovers_after(l, p, e)),
        leftovers_after(l, p, e).published ==> step_after(p, e).phase == Phase::CheckPublished || (
        step_after(p, e).phase is Done),
        step_after(p, e).phase is Done ==> !leftovers_after(l, p, e).staging,
        step_after(p, e).phase is Done && step_after(p, e).phase != Phase::Done(
            Outcome::DownloadFailed,
        ) ==> !leftovers_after(l, p, e).archive,
{
}

/// How far a phase is from the end.
pub open spec fn distance(p: Phase) -> nat {
    match p {
        Phase::Lock => 8,
        Phase::CheckDest => 7,
        Phase::Download => 6,
        Phase::FetchChecksum => 5,
        Phase::Extract => 4,
        Phase::Publish => 3,
        Phase::CheckAfterFailedPublish => 2,
        Phase::CheckPublished => 1,
        Phase::Done(_) => 0,
    }
}

/// Every download ends: each event brings the end closer.
pub proof fn every_event_brings_the_end_closer(p: Phase, e: Event)
    requires
        fits(p, e),
    ensures
        distance(step_after(p, e).phase) < distance(p),
{
}

/// A download that goes well takes the lock, finds nothing, downloads, checks, unpacks, moves
/// and looks, in this order, and has installed the version. A version that is there already is
/// left alone, and one that another process has moved into place meanwhile is looked at like
/// its own.
pub proof fn downloads_go_step_by_step()
    ensures
        step_after(Phase::Lock, Event::Succeeded).phase == Phase::CheckDest,
        step_after(Phase::CheckDest, Event::Absent).phase == Phase::Download,
        step_after(Phase::Download, Event::Succeeded).phase == Phase::FetchChecksum,
        step_after(Phase::FetchChecksum, Event::ChecksumAccepted).phase == Phase::Extract,
        step_after(Phase::Extract, Event::Succeeded).phase == Phase::Publish,
        step_after(Phase::Publish, Event::Succeeded).phase == Phase::CheckPublished,
        step_after(Phase::CheckPublished, Event::Present).phase == Phase::Done(Outcome::Installed),
        step_after(Phase::CheckDest, Event::Present).phase == Phase::Done(Outcome::Existing),
        step_after(Phase::Publish, Event::Failed).phase == Phase::CheckAfterFailedPublish,
        step_after(Phase::CheckAfterFailedPublish, Event::Present).phase == Phase::CheckPublished,
{
}

/// Every failure ends a download with its own outcome.
pub proof fn failures_have_their_outcomes(o: Outcome, e: Event)
    ensures
        step_after(Phase::Lock, Event::Failed).phase == Phase::Done(Outcome::LockFailed),
        step_after(Phase::CheckDest, Event::AbsentUnsupported).phase == Phase::Done(
            Outcome::Unsupported,
        ),
        step_after(Phase::Download, Event::Failed).phase == Phase::Done(Outcome::DownloadFailed),
        step_after(Phase::FetchChecksum, Event::ChecksumRejected).phase == Phase::Done(
            Outcome::ChecksumMismatch,
        ),
        step_after(Phase::Extract, Event::Failed).phase == Phase::Done(Outcome::ExtractFailed),
        step_after(Phase::Extract, Event::Aborted).phase == Phase::Done(Outcome::Aborted),
        step_after(Phase::CheckAfterFailedPublish, Event::Absent).phase == Phase::Done(
            Outcome::PublishFailed,
        ),
        step_after(Phase::CheckPublished, Event::Absent).phase == Phase::Done(Outcome::NotUsable),
        step_after(Phase::Done(o), e).phase == Phase::Done(o),
{
}

/// The archive is removed once it is unpacked or turned out to be of no use, the staging
/// directory once it could not be filled or moved, and nothing is removed at any other step.
pub proof fn only_what_is_done_with_is_removed(p: Phase, e: Event)
    requires
        fits(p, e),
    ensures
        step_after(p, e).remove_archive <==> p == Phase::FetchChecksum && e
            == Event::ChecksumRejected || p == Phase::Extract && e != Event::Aborted,
        step_after(p, e).remove_staging <==> e == Event::Failed && (p == Phase::Extract || p
            == Phase::Publish),
{
}

} // verus!
