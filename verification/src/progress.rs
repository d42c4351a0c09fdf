//! Progress reporting. The library never prints: a caller that wants to show progress
//! implements `DownloadProgress`.

use vstd::prelude::*;

verus! {

/// A phase of an installation.
#[derive(Debug, Clone, Copy, PartialEq, Eq, Structural)]
pub enum InstallPhase {
    Resolving,
    Downloading,
    Verifying,
    Extracting,
}

/// What is told about an installation; by default nothing is done with it.
pub trait DownloadProgress: Send + Sync {
    /// The installation of a version enters a phase.
    fn on_phase(&self, _version: &str, _phase: InstallPhase) {
    }

    /// A download starts, of that many bytes if that is known.
    fn on_download_start(&self, _total_bytes: Option<u64>) {
    }

    /// More bytes have arrived.
    fn on_download_chunk(&self, _bytes: u64) {
    }

    /// The download is over.
    fn on_done(&self) {
    }
}

/// Shows nothing.
pub struct NoopProgress;

impl DownloadProgress for NoopProgress {

}

} // verus!
