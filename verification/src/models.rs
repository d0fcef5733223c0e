//! Plain data records of the catalog backend.

use vstd::prelude::*;

verus! {

/// A downloadable release asset as reported by the hosting API: its file
/// name, the direct download URL, its size in bytes, and its media type.
#[derive(Debug, Clone)]
pub struct GithubAsset {
    pub name: String,
    pub browser_download_url: String,
    pub size: i64,
    pub content_type: String,
}

} // verus!
