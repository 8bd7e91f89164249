//! Bookkeeping types for download jobs.
use vstd::prelude::*;

verus! {

/// Lifecycle of a download job.
#[derive(Debug, Clone, Copy, PartialEq, Eq, Structural)]
pub enum JobStatus {
    Pending,
    Running,
    Done,
    Failed,
    Canceled,
}

/// One object key to download and where it stands.
#[derive(Debug, Clone)]
pub struct DownloadJob {
    pub key: String,
    pub status: JobStatus,
}

/// The list of download jobs.
#[derive(Debug)]
pub struct DownloadManager {
    pub jobs: Vec<DownloadJob>,
}

impl Default for DownloadManager {
    fn default() -> (r: Self)
        ensures
            r.jobs@.len() == 0,
    {
        DownloadManager { jobs: Vec::new() }
    }
}

} // verus!
