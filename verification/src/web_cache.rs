//! Fingerprint-keyed memoization of full query results: repeated identical
//! requests reuse the stored result instead of recomputing the search.
//!
//! The key is the pair (city, configuration) itself — two requests share a
//! fingerprint exactly when every parameter matches.  Capacity is bounded;
//! when full, the oldest entry is evicted.  The per-fingerprint coalescing
//! of concurrent builds (first caller computes, later callers await) is the
//! service layer's locking around this type; the type itself is owned behind
//! that lock and never shared mutably.

use vstd::prelude::*;
use crate::agencies::City;
use crate::configuration::Configuration;
use crate::road_structure::ReachResult;

verus! {

/// Whether two requests share a fingerprint: same city and identical
/// configuration, field for field.
pub open spec fn spec_same_query(
    ca: City,
    a: Configuration,
    cb: City,
    b: Configuration,
) -> bool {
    &&& ca == cb
    &&& a.start_time == b.start_time
    &&& a.duration_secs == b.duration_secs
    &&& a.location == b.location
    &&& a.agency_ids@ == b.agency_ids@
    &&& a.modes@ == b.modes@
    &&& a.transfer_cost == b.transfer_cost
    &&& a.weekday == b.weekday
    &&& a.walk == b.walk
}

/// Executable fingerprint comparison, mirroring `spec_same_query`.
pub fn same_query(ca: City, a: &Configuration, cb: City, b: &Configuration) -> (r: bool)
    ensures
        r == spec_same_query(ca, *a, cb, *b),
{
    if !(ca == cb && a.start_time == b.start_time && a.duration_secs == b.duration_secs
        && a.location == b.location && a.transfer_cost == b.transfer_cost && a.weekday == b.weekday
        && a.walk == b.walk) {
        return false;
    }
    if a.agency_ids.len() != b.agency_ids.len() || a.modes.len() != b.modes.len() {
        return false;
    }
    let mut i: usize = 0;
    while i < a.agency_ids.len()
        invariant
            i <= a.agency_ids@.len(),
            a.agency_ids@.len() == b.agency_ids@.len(),
            forall|j: int| 0 <= j < i ==> a.agency_ids@[j] == b.agency_ids@[j],
        decreases a.agency_ids@.len() - i,
    {
        if a.agency_ids[i] != b.agency_ids[i] {
            return false;
        }
        i = i + 1;
    }
    let mut k: usize = 0;
    while k < a.modes.len()
        invariant
            k <= a.modes@.len(),
            a.modes@.len() == b.modes@.len(),
            forall|j: int| 0 <= j < k ==> a.modes@[j] == b.modes@[j],
        decreases a.modes@.len() - k,
    {
        if a.modes[k] != b.modes[k] {
            return false;
        }
        k = k + 1;
    }
    proof {
        assert(a.agency_ids@ =~= b.agency_ids@);
        assert(a.modes@ =~= b.modes@);
    }
    true
}

/// One memoized query result.
pub struct CacheEntry {
    pub city: City,
    pub config: Configuration,
    pub result: ReachResult,
}

/// The process-wide result cache: insertion-ordered entries, bounded by a
/// capacity; the oldest entry leaves when a new one would overflow it.
pub struct ResultCache {
    pub entries: Vec<CacheEntry>,
    pub capacity: usize,
}

impl ResultCache {
    /// Cache invariant: never more entries than the capacity allows.
    pub open spec fn wf(self) -> bool {
        &&& self.capacity >= 1
        &&& self.entries@.len() <= self.capacity
    }

    /// An empty cache of the given capacity.
    pub fn new(capacity: usize) -> (r: ResultCache)
        requires
            capacity >= 1,
        ensures
            r.wf(),
            r.entries@.len() == 0,
            r.capacity == capacity,
    {
        ResultCache { entries: Vec::new(), capacity }
    }

    /// Looks up the memoized result of a fingerprint: `Some` exactly when
    /// some entry matches, and then the result of the first matching entry.
    pub fn get(&self, city: City, config: &Configuration) -> (r: Option<&ReachResult>)
        ensures
            r is Some <==> exists|j: int|
                0 <= j < self.entries@.len() && spec_same_query(
                    (#[trigger] self.entries@[j]).city,
                    self.entries@[j].config,
                    city,
                    *config,
                ),
            r is Some ==> exists|j: int|
                0 <= j < self.entries@.len() && spec_same_query(
                    (#[trigger] self.entries@[j]).city,
                    self.entries@[j].config,
                    city,
                    *config,
                ) && r->0 == &self.entries@[j].result,
    {
        let mut i: usize = 0;
        while i < self.entries.len()
            invariant
                i <= self.entries@.len(),
                forall|j: int|
                    0 <= j < i ==> !spec_same_query(
                        (#[trigger] self.entries@[j]).city,
                        self.entries@[j].config,
                        city,
                        *config,
                    ),
            decreases self.entries@.len() - i,
        {
            let e = &self.entries[i];
            if same_query(e.city, &e.config, city, config) {
                return Some(&self.entries[i].result);
            }
            i = i + 1;
        }
        None
    }

    /// Memoizes one result: the entry is appended, every prior entry is
    /// kept in order — except that when the cache was full, the oldest
    /// entry is evicted first.
    pub fn put(&mut self, city: City, config: Configuration, result: ReachResult)
        requires
            old(self).wf(),
        ensures
            final(self).wf(),
            final(self).capacity == old(self).capacity,
            final(self).entries@.last().city == city,
            final(self).entries@.last().config == config,
            final(self).entries@.last().result == result,
            old(self).entries@.len() < old(self).capacity ==> final(self).entries@ == old(
                self,
            ).entries@.push(CacheEntry { city, config, result }),
            old(self).entries@.len() >= old(self).capacity ==> final(self).entries@ == old(
                self,
            ).entries@.subrange(1, old(self).entries@.len() as int).push(
                CacheEntry { city, config, result },
            ),
    {
        if self.entries.len() >= self.capacity {
            let _ = self.entries.remove(0);
            proof {
                assert(self.entries@ =~= old(self).entries@.subrange(
                    1,
                    old(self).entries@.len() as int,
                ));
            }
        }
        self.entries.push(CacheEntry { city, config, result });
    }
}

} // verus!
