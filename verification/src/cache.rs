//! The freshness rule of the persisted scan cache: a stored result is
//! served only within the freshness window. Reading and writing the
//! store is the caller's collaborator; the rule itself lives here.

use vstd::prelude::*;

use crate::types::ScanResults;

verus! {

/// How long a stored scan stays fresh, in seconds.
pub const CACHE_MAX_AGE_SECS: u64 = 3600;

/// One stored scan: the results with the wall-clock second they were
/// taken at.
#[derive(Clone, Debug)]
pub struct CachedScan {
    pub timestamp: u64,
    pub results: ScanResults,
}

impl CachedScan {
    /// Seconds elapsed since the scan was stored; a clock that moved
    /// backwards counts as no age at all.
    pub open spec fn spec_age(self, now: u64) -> int {
        if now >= self.timestamp {
            now - self.timestamp
        } else {
            0
        }
    }

    /// Seconds elapsed since the scan was stored.
    pub fn age(&self, now: u64) -> (r: u64)
        ensures
            r == self.spec_age(now),
    {
        if now >= self.timestamp {
            now - self.timestamp
        } else {
            0
        }
    }

    /// Whether the stored scan may still be served instead of running
    /// a fresh one: its age has not passed the window.
    pub fn is_fresh(&self, now: u64, max_age_secs: u64) -> (r: bool)
        ensures
            r == (self.spec_age(now) <= max_age_secs),
    {
        self.age(now) <= max_age_secs
    }
}

} // verus!
