//! Memory figures reported for profiling.
use vstd::prelude::*;

verus! {

/// Memory statistics, in bytes.
pub struct MemoryStats {
    pub total: u64,
    pub free: u64,
    pub used: u64,
    pub app_rss: u64,
}

impl MemoryStats {
    /// The statistics for the given readings; `used` is what is not free.
    pub fn from_readings(total: u64, free: u64, app_rss: u64) -> (r: MemoryStats)
        requires
            free <= total,
        ensures
            r.total == total,
            r.free == free,
            r.used == total - free,
            r.app_rss == app_rss,
    {
        MemoryStats { total, free, used: total - free, app_rss }
    }
}

} // verus!
