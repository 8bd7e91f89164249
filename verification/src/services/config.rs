//! Built-in defaults for downloads.
use vstd::prelude::*;

verus! {

/// Download defaults: target directory, preview limit, retry budget and parallelism.
#[derive(Debug, Clone)]
pub struct AppConfig {
    pub download_dir: String,
    pub preview_size_limit_bytes: usize,
    pub max_retries: u8,
    pub concurrency: usize,
}

impl Default for AppConfig {
    fn default() -> (r: Self)
        ensures
            r.download_dir@ == "./downloads"@,
            r.preview_size_limit_bytes == 1_048_576,
            r.max_retries == 3,
            r.concurrency == 4,
    {
        AppConfig {
            download_dir: String::from_str("./downloads"),
            preview_size_limit_bytes: 1_048_576,
            max_retries: 3,
            concurrency: 4,
        }
    }
}

} // verus!
