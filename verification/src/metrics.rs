//! Counters of the query path.

use vstd::prelude::*;

verus! {

/// The counters of the queries: how many there were, how many the cache
/// answered, and the latencies of the latest ones in microseconds.
#[derive(Debug, PartialEq, Eq)]
pub struct QueryMetrics {
    pub total_queries: u64,
    pub cache_hits: u64,
    pub latencies: Vec<u64>,
}

impl Default for QueryMetrics {
    fn default() -> (m: Self)
        ensures
            m.total_queries == 0,
            m.cache_hits == 0,
            m.latencies@.len() == 0,
    {
        QueryMetrics { total_queries: 0, cache_hits: 0, latencies: Vec::new() }
    }
}

/// The latest `max_history` of the latencies `latencies` with `latency`
/// behind them.
pub open spec fn with_latency(latencies: Seq<u64>, latency: u64, max_history: usize) -> Seq<u64> {
    let all = latencies.push(latency);
    if all.len() > max_history {
        all.drop_first()
    } else {
        all
    }
}

impl QueryMetrics {
    /// Counts one query: the counters grow, stopping at the greatest number,
    /// and the latency joins the history, from which the oldest entry leaves
    /// where it holds more than `max_history` entries.
    pub fn record_query(&mut self, latency_us: u64, is_cache_hit: bool, max_history: usize)
        ensures
            final(self).total_queries == (if old(self).total_queries < u64::MAX {
                old(self).total_queries + 1
            } else {
                u64::MAX as int
            }),
            final(self).cache_hits == (if is_cache_hit && old(self).cache_hits < u64::MAX {
                old(self).cache_hits + 1
            } else {
                old(self).cache_hits as int
            }),
            final(self).latencies@ == with_latency(old(self).latencies@, latency_us, max_history),
    {
        if self.total_queries < u64::MAX {
            self.total_queries = self.total_queries + 1;
        }
        if is_cache_hit && self.cache_hits < u64::MAX {
            self.cache_hits = self.cache_hits + 1;
        }
        self.latencies.push(latency_us);
        if self.latencies.len() > max_history {
            self.latencies.remove(0);
        }
    }
}

/// The place in a sorted list of `len` entries of the percentile `p`: the
/// `p` hundredths of the length, rounded up, and at least the first entry.
pub open spec fn percentile_index(len: int, p: u8) -> int {
    let rank = (p * len + 99) / 100;
    let place = if rank < 1 {
        0
    } else {
        rank - 1
    };
    if place > len - 1 {
        len - 1
    } else {
        place
    }
}

/// The percentile `p` of the sorted latencies `sorted`, zero where there is
/// none.
pub fn percentile(sorted: &Vec<u64>, p: u8) -> (v: u64)
    requires
        p <= 100,
    ensures
        sorted@.len() == 0 ==> v == 0,
        sorted@.len() > 0 ==> v == sorted@[percentile_index(sorted@.len() as int, p)],
{
    if sorted.len() == 0 {
        return 0;
    }
    let len = sorted.len() as u128;
    assert((p as u128) * len <= 100 * 0xffff_ffff_ffff_ffff) by (nonlinear_arith)
        requires
            p <= 100,
            len <= 0xffff_ffff_ffff_ffff,
    ;
    let rank = ((p as u128) * len + 99) / 100;
    let place = if rank < 1 {
        0
    } else {
        rank - 1
    };
    let place = if place > len - 1 {
        len - 1
    } else {
        place
    };
    sorted[place as usize]
}

} // verus!
