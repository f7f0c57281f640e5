//! Process-wide observability counters: queries received and queries
//! dropped because their bytes did not parse. Counts only ever grow,
//! saturating at the counter's maximum.

use vstd::prelude::*;

verus! {

/// `x` plus one, saturating at the largest counter value.
pub open spec fn sat_inc(x: u64) -> u64 {
    if x < u64::MAX {
        (x + 1) as u64
    } else {
        x
    }
}

/// Monotonically increasing counters shared by the serving loops.
pub struct Metrics {
    pub total_queries: u64,
    pub failed_parses: u64,
}

impl Metrics {
    /// Fresh counters, both zero.
    pub fn new() -> (m: Metrics)
        ensures
            m.total_queries == 0,
            m.failed_parses == 0,
    {
        Metrics { total_queries: 0, failed_parses: 0 }
    }

    /// Counts one received query.
    pub fn record_query(&mut self)
        ensures
            final(self).total_queries == sat_inc(old(self).total_queries),
            final(self).failed_parses == old(self).failed_parses,
    {
        if self.total_queries < u64::MAX {
            self.total_queries = self.total_queries + 1;
        }
    }

    /// Counts one query dropped for a parse failure.
    pub fn record_parse_failure(&mut self)
        ensures
            final(self).failed_parses == sat_inc(old(self).failed_parses),
            final(self).total_queries == old(self).total_queries,
    {
        if self.failed_parses < u64::MAX {
            self.failed_parses = self.failed_parses + 1;
        }
    }
}

} // verus!
