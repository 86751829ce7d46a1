//! The messages of the synchronisation between devices. The relay in between sees ciphertext only.
use vstd::prelude::*;

verus! {

/// An encrypted memory on its way.
#[derive(Debug)]
pub struct SyncBlob {
    pub vault_id: String,
    pub memory_id: String,
    /// The device that made this version.
    pub device_id: String,
    /// Higher wins.
    pub vector_clock: u64,
    /// In Base64.
    pub ciphertext: String,
    /// Over vault, memory, clock and ciphertext, in Base64.
    pub hmac: String,
    /// As RFC 3339.
    pub created_at: String,
    /// Whether the memory was deleted.
    pub deleted: bool,
}

/// Asks the relay to take memories.
#[derive(Debug)]
pub struct PushRequest {
    pub blobs: Vec<SyncBlob>,
}

/// What the relay took.
#[derive(Debug)]
pub struct PushResponse {
    /// How many it took.
    pub accepted: usize,
    /// Those it refused, for their clocks were stale.
    pub rejected: Vec<String>,
    /// Devices that it no longer serves.
    pub revoked_devices: Vec<String>,
}

/// Asks the relay for memories.
#[derive(Debug)]
pub struct PullRequest {
    /// Only those updated after this time, as RFC 3339.
    pub since: Option<String>,
    /// At most so many.
    pub limit: usize,
}

/// How many memories are asked for if nothing else is said.
pub fn default_pull_limit() -> (r: usize)
    ensures
        r == 1000,
{
    1000
}

/// What the relay has.
#[derive(Debug)]
pub struct PullResponse {
    pub blobs: Vec<SyncBlob>,
    /// Whether there are more.
    pub has_more: bool,
}

/// How the relay does.
#[derive(Debug)]
pub struct SyncHealth {
    pub status: String,
    pub version: String,
    pub uptime_secs: u64,
    pub vaults: usize,
    pub total_blobs: u64,
    pub db_size_bytes: u64,
}

} // verus!
