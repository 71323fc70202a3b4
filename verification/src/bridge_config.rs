//! Retention settings and the defaults of the state-reuse bridge
//! configuration.
//!
//! The per-application settings carry a floating-point overlap ratio and are
//! read from TOML by the application; the retention settings and the
//! integer and boolean defaults are stated here.
use vstd::prelude::*;

verus! {

/// Global retention settings.
#[derive(Debug, Clone, PartialEq, Eq, Structural)]
pub struct RetentionConfig {
    /// How long to retain captured states before GC eligibility (seconds).
    pub retention_secs: u64,
    /// Maximum total states across all apps before aggressive GC.
    pub max_total_states: usize,
    /// Maximum disk bytes for KV cache storage.
    pub max_total_bytes: u64,
}

impl Default for RetentionConfig {
    fn default() -> (r: Self)
        ensures
            r.retention_secs == 3600,
            r.max_total_states == 10000,
            r.max_total_bytes == 1073741824,
    {
        RetentionConfig { retention_secs: 3600, max_total_states: 10000, max_total_bytes: 1073741824 }
    }
}

/// State reuse is enabled unless configured otherwise.
pub fn default_true() -> (r: bool)
    ensures
        r,
{
    true
}

/// Forked states retained per capture.
pub fn default_max_forks() -> (r: usize)
    ensures
        r == 16,
{
    16
}

/// State freshness threshold, in seconds.
pub fn default_freshness_secs() -> (r: u64)
    ensures
        r == 300,
{
    300
}

/// Retention before GC eligibility, in seconds.
pub fn default_retention_secs() -> (r: u64)
    ensures
        r == 3600,
{
    3600
}

/// Total states before aggressive GC.
pub fn default_max_states() -> (r: usize)
    ensures
        r == 10000,
{
    10000
}

/// Disk bytes for KV cache storage (1 GiB).
pub fn default_max_bytes() -> (r: u64)
    ensures
        r == 1073741824,
{
    1073741824
}

} // verus!
