//! Counters of search activity, owned by whoever runs the searches.

use vstd::prelude::*;
use crate::rate_limiter::{find_name, position_of};

verus! {

/// `x + y`, or the largest `u64` where that overflows.
pub open spec fn sat_add(x: u64, y: u64) -> u64 {
    if x + y > u64::MAX {
        u64::MAX
    } else {
        (x + y) as u64
    }
}

fn add_saturating(x: u64, y: u64) -> (r: u64)
    ensures
        r == sat_add(x, y),
{
    if x > u64::MAX - y {
        u64::MAX
    } else {
        x + y
    }
}

/// Counters of searches, engine calls and cache use. Counts saturate. The
/// outcomes of engine calls are counted per engine: `result_counts[i]` holds
/// the successes and failures of the engine named `result_engines[i]`.
#[derive(Clone, Debug)]
pub struct SearchMetrics {
    pub timed_searches: u64,
    pub total_search_ms: u64,
    pub result_engines: Vec<String>,
    pub result_counts: Vec<(u64, u64)>,
    pub last_results_count: u64,
    pub cache_hits: u64,
    pub cache_misses: u64,
}

/// `c` with one more success, or one more failure.
pub open spec fn bumped(c: (u64, u64), success: bool) -> (u64, u64) {
    if success {
        (sat_add(c.0, 1), c.1)
    } else {
        (c.0, sat_add(c.1, 1))
    }
}

impl SearchMetrics {
    /// One count for each engine named.
    pub open spec fn wf(&self) -> bool {
        self.result_engines@.len() == self.result_counts@.len()
    }

    /// All counters at zero.
    pub fn new() -> (r: SearchMetrics)
        ensures
            r.wf(),
            r.timed_searches == 0,
            r.total_search_ms == 0,
            r.result_engines@.len() == 0,
            r.last_results_count == 0,
            r.cache_hits == 0,
            r.cache_misses == 0,
    {
        SearchMetrics {
            timed_searches: 0,
            total_search_ms: 0,
            result_engines: Vec::new(),
            result_counts: Vec::new(),
            last_results_count: 0,
            cache_hits: 0,
            cache_misses: 0,
        }
    }

    /// Records that a search by `engine` took `duration_ms` milliseconds.
    pub fn record_search_time(&mut self, engine: &str, duration_ms: u64)
        ensures
            *final(self) == (SearchMetrics {
                timed_searches: sat_add(old(self).timed_searches, 1),
                total_search_ms: sat_add(old(self).total_search_ms, duration_ms),
                ..*old(self)
            }),
    {
        self.timed_searches = add_saturating(self.timed_searches, 1);
        self.total_search_ms = add_saturating(self.total_search_ms, duration_ms);
    }

    /// Records whether a call to `engine` succeeded: one more success or
    /// failure for that engine, which is added with no calls if it is new.
    pub fn record_search_result(&mut self, engine: &str, success: bool)
        requires
            old(self).wf(),
        ensures
            final(self).wf(),
            final(self).timed_searches == old(self).timed_searches,
            final(self).total_search_ms == old(self).total_search_ms,
            final(self).last_results_count == old(self).last_results_count,
            final(self).cache_hits == old(self).cache_hits,
            final(self).cache_misses == old(self).cache_misses,
            match position_of(old(self).result_engines@, engine@) {
                Some(i) => final(self).result_engines@ == old(self).result_engines@
                    && final(self).result_counts@ == old(self).result_counts@.update(
                    i,
                    bumped(old(self).result_counts@[i], success),
                ),
                None => final(self).result_engines@.drop_last() == old(self).result_engines@
                    && final(self).result_engines@.len() == old(self).result_engines@.len() + 1
                    && final(self).result_engines@.last()@ == engine@
                    && final(self).result_counts@ == old(self).result_counts@.push(
                    bumped((0, 0), success),
                ),
            },
    {
        match find_name(&self.result_engines, engine) {
            Some(i) => {
                let (ok, failed) = self.result_counts[i];
                let c = if success {
                    (add_saturating(ok, 1), failed)
                } else {
                    (ok, add_saturating(failed, 1))
                };
                self.result_counts.set(i, c);
            },
            None => {
                self.result_engines.push(String::from_str(engine));
                self.result_counts.push(if success { (1, 0) } else { (0, 1) });
                assert(self.result_engines@.drop_last() =~= old(self).result_engines@);
            },
        }
    }

    /// The successes and failures counted for `engine`.
    pub fn search_results_of(&self, engine: &str) -> (r: (u64, u64))
        requires
            self.wf(),
        ensures
            r == match position_of(self.result_engines@, engine@) {
                Some(i) => self.result_counts@[i],
                None => (0u64, 0u64),
            },
    {
        match find_name(&self.result_engines, engine) {
            Some(i) => self.result_counts[i],
            None => (0, 0),
        }
    }

    /// Records how many results `engine` returned last.
    pub fn record_results_count(&mut self, engine: &str, count: u64)
        ensures
            *final(self) == (SearchMetrics { last_results_count: count, ..*old(self) }),
    {
        self.last_results_count = count;
    }

    /// Records a search answered from the cache.
    pub fn record_cache_hit(&mut self)
        ensures
            *final(self) == (SearchMetrics { cache_hits: sat_add(old(self).cache_hits, 1), ..*old(self) }),
    {
        self.cache_hits = add_saturating(self.cache_hits, 1);
    }

    /// Records a search the cache could not answer.
    pub fn record_cache_miss(&mut self)
        ensures
            *final(self) == (SearchMetrics {
                cache_misses: sat_add(old(self).cache_misses, 1),
                ..*old(self)
            }),
    {
        self.cache_misses = add_saturating(self.cache_misses, 1);
    }
}

} // verus!
