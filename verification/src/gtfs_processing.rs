//! The derived departure index: for every stop, the (trip, call) pairs that
//! depart from it, ordered ascending by departure time, enabling "first
//! departure at or after T" lookups during the search.

use vstd::prelude::*;
use crate::schedule::ScheduleStore;

verus! {

/// One departure from a stop: which trip leaves, at which position of its
/// stop-time list, and when.
#[derive(Clone, Copy, Debug, PartialEq, Eq, Structural)]
pub struct DepartureEntry {
    /// Departure time, seconds since midnight.
    pub departure: u32,
    /// Index of the departing trip in the store.
    pub trip: usize,
    /// Position of the call within that trip's stop-time list.
    pub call: usize,
}

/// Ascending order by departure time.
pub open spec fn sorted_by_departure(s: Seq<DepartureEntry>) -> bool {
    forall|i: int, j: int| 0 <= i < j < s.len() ==> s[i].departure <= s[j].departure
}

/// The per-stop departure index, positionally aligned to the store's stops.
#[derive(Clone, Debug)]
pub struct SpatialStopIndex {
    pub per_stop: Vec<Vec<DepartureEntry>>,
}

impl SpatialStopIndex {
    /// Index invariant against its store: one column per stop, every entry
    /// resolving to a real call of a real trip at this very stop, with the
    /// recorded departure time, each column sorted ascending by departure.
    pub open spec fn wf(self, store: ScheduleStore) -> bool {
        &&& self.per_stop@.len() == store.stops@.len()
        &&& forall|s: int, j: int|
            0 <= s < self.per_stop@.len() && 0 <= j < self.per_stop@[s]@.len() ==> {
                let e = #[trigger] self.per_stop@[s]@[j];
                &&& e.trip < store.trips@.len()
                &&& e.call < store.trips@[e.trip as int].stop_times@.len()
                &&& store.trips@[e.trip as int].stop_times@[e.call as int].stop == s
                &&& store.trips@[e.trip as int].stop_times@[e.call as int].departure
                    == e.departure
            }
        &&& forall|s: int|
            0 <= s < self.per_stop@.len() ==> sorted_by_departure(
                (#[trigger] self.per_stop@[s])@,
            )
    }

    /// Whether call `k` of trip `t` appears in the column of its stop.
    pub open spec fn has_call(self, store: ScheduleStore, t: int, k: int) -> bool {
        exists|j: int|
            0 <= j < self.per_stop@[store.trips@[t].stop_times@[k].stop as int]@.len() && (
            #[trigger] self.per_stop@[store.trips@[t].stop_times@[k].stop as int]@[j]).trip == t
                && self.per_stop@[store.trips@[t].stop_times@[k].stop as int]@[j].call == k
    }

    /// Completeness: every call of every trip appears in the column of its
    /// stop.
    pub open spec fn complete(self, store: ScheduleStore) -> bool {
        forall|t: int, k: int|
            0 <= t < store.trips@.len() && 0 <= k < store.trips@[t].stop_times@.len()
                ==> #[trigger] self.has_call(store, t, k)
    }
}

/// Inserts `e` into a column sorted ascending by departure, keeping it
/// sorted; every entry already present stays present.
fn insert_sorted(col: &mut Vec<DepartureEntry>, e: DepartureEntry)
    requires
        sorted_by_departure(old(col)@),
    ensures
        sorted_by_departure(final(col)@),
        final(col)@.len() == old(col)@.len() + 1,
        final(col)@.contains(e),
        forall|x: DepartureEntry| old(col)@.contains(x) ==> final(col)@.contains(x),
        forall|j: int|
            0 <= j < final(col)@.len() ==> (#[trigger] final(col)@[j] == e || old(col)@.contains(
                final(col)@[j],
            )),
{
    let mut pos: usize = 0;
    while pos < col.len() && col[pos].departure <= e.departure
        invariant
            pos <= col@.len(),
            forall|j: int| 0 <= j < pos ==> (#[trigger] col@[j]).departure <= e.departure,
            col@ == old(col)@,
        decreases col@.len() - pos,
    {
        pos = pos + 1;
    }
    let ghost before = col@;
    col.insert(pos, e);
    proof {
        assert(col@ == before.insert(pos as int, e));
        assert forall|i: int, j: int| 0 <= i < j < col@.len() implies col@[i].departure
            <= col@[j].departure by {
            if i < pos && j == pos {
            } else if i == pos && j > pos {
                assert(col@[j] == before[j - 1]);
                assert(before[j - 1].departure >= e.departure || j - 1 < pos);
            } else if i < pos && j > pos {
                assert(col@[i] == before[i] && col@[j] == before[j - 1]);
            } else if i > pos {
                assert(col@[i] == before[i - 1] && col@[j] == before[j - 1]);
            } else {
                assert(col@[i] == before[i] && col@[j] == before[j]);
            }
        }
        assert(col@[pos as int] == e);
        assert forall|x: DepartureEntry| before.contains(x) implies col@.contains(x) by {
            let i = choose|i: int| 0 <= i < before.len() && before[i] == x;
            if i < pos {
                assert(col@[i] == x);
            } else {
                assert(col@[i + 1] == x);
            }
        }
        assert forall|j: int| 0 <= j < col@.len() implies (col@[j] == e || before.contains(
            col@[j],
        )) by {
            if j < pos {
                assert(col@[j] == before[j]);
            } else if j > pos {
                assert(col@[j] == before[j - 1]);
            }
        }
    }
}

/// Builds the departure index of a store: one sorted column per stop holding
/// exactly the calls of the store's trips at that stop.  The derived index is
/// well formed against the store and complete: no call is left out.
pub fn generate_stops_trips(store: &ScheduleStore) -> (idx: SpatialStopIndex)
    requires
        store.wf(),
    ensures
        idx.wf(*store),
        idx.complete(*store),
{
    let n_stops = store.stops.len();
    let mut per_stop: Vec<Vec<DepartureEntry>> = Vec::new();
    let mut s: usize = 0;
    while s < n_stops
        invariant
            s <= n_stops,
            store.wf(),
            n_stops == store.stops@.len(),
            per_stop@.len() == s,
            forall|si: int, j: int|
                0 <= si < s && 0 <= j < per_stop@[si]@.len() ==> {
                    let e = #[trigger] per_stop@[si]@[j];
                    &&& e.trip < store.trips@.len()
                    &&& e.call < store.trips@[e.trip as int].stop_times@.len()
                    &&& store.trips@[e.trip as int].stop_times@[e.call as int].stop == si
                    &&& store.trips@[e.trip as int].stop_times@[e.call as int].departure
                        == e.departure
                },
            forall|si: int| 0 <= si < s ==> sorted_by_departure((#[trigger] per_stop@[si])@),
            forall|t: int, k: int|
                0 <= t < store.trips@.len() && 0 <= k < store.trips@[t].stop_times@.len()
                    && (#[trigger] store.trips@[t].stop_times@[k]).stop < s ==> {
                    let st = store.trips@[t].stop_times@[k];
                    exists|j: int|
                        0 <= j < per_stop@[st.stop as int]@.len()
                            && (#[trigger] per_stop@[st.stop as int]@[j]).trip == t
                            && per_stop@[st.stop as int]@[j].call == k
                },
        decreases n_stops - s,
    {
        let col = build_column(store, s);
        let ghost prev = per_stop@;
        per_stop.push(col);
        proof {
            assert(per_stop@[s as int]@ == col@);
            assert forall|t: int, k: int|
                0 <= t < store.trips@.len() && 0 <= k < store.trips@[t].stop_times@.len()
                    && (#[trigger] store.trips@[t].stop_times@[k]).stop < s + 1 implies {
                let st = store.trips@[t].stop_times@[k];
                exists|j: int|
                    0 <= j < per_stop@[st.stop as int]@.len()
                        && (#[trigger] per_stop@[st.stop as int]@[j]).trip == t
                        && per_stop@[st.stop as int]@[j].call == k
            } by {
                let st = store.trips@[t].stop_times@[k];
                if st.stop < s {
                    assert(per_stop@[st.stop as int] == prev[st.stop as int]);
                    let j0 = choose|j: int|
                        0 <= j < prev[st.stop as int]@.len() && (#[trigger] prev[st.stop
                            as int]@[j]).trip == t && prev[st.stop as int]@[j].call == k;
                    assert(per_stop@[st.stop as int]@[j0].trip == t);
                } else {
                    let j0 = choose|j: int|
                        0 <= j < col@.len() && (#[trigger] col@[j]).trip == t && col@[j].call
                            == k;
                    assert(per_stop@[st.stop as int]@[j0].trip == t);
                }
            }
        }
        s = s + 1;
    }
    proof {
        assert forall|t: int, k: int|
            0 <= t < store.trips@.len() && 0 <= k < store.trips@[t].stop_times@.len() implies (
        #[trigger] store.trips@[t].stop_times@[k]).stop < s by {
            assert(crate::schedule::trip_wf(
                store.trips@[t],
                store.routes@.len() as int,
                store.services@.len() as int,
                store.stops@.len() as int,
            ));
        }
    }
    let idx = SpatialStopIndex { per_stop };
    proof {
        assert forall|t: int, k: int|
            0 <= t < store.trips@.len() && 0 <= k < store.trips@[t].stop_times@.len() implies
        #[trigger] idx.has_call(*store, t, k) by {
            let st = store.trips@[t].stop_times@[k];
            assert(st.stop < s);
            let j0 = choose|j: int|
                0 <= j < idx.per_stop@[st.stop as int]@.len() && (#[trigger] idx.per_stop@[st.stop
                    as int]@[j]).trip == t && idx.per_stop@[st.stop as int]@[j].call == k;
            assert(idx.per_stop@[st.stop as int]@[j0].trip == t);
        }
    }
    idx
}

/// Builds one stop's sorted departure column by scanning every call of every
/// trip.
fn build_column(store: &ScheduleStore, s: usize) -> (col: Vec<DepartureEntry>)
    requires
        store.wf(),
        s < store.stops@.len(),
    ensures
        sorted_by_departure(col@),
        forall|j: int|
            0 <= j < col@.len() ==> {
                let e = #[trigger] col@[j];
                &&& e.trip < store.trips@.len()
                &&& e.call < store.trips@[e.trip as int].stop_times@.len()
                &&& store.trips@[e.trip as int].stop_times@[e.call as int].stop == s
                &&& store.trips@[e.trip as int].stop_times@[e.call as int].departure
                    == e.departure
            },
        forall|t: int, k: int|
            0 <= t < store.trips@.len() && 0 <= k < store.trips@[t].stop_times@.len()
                && (#[trigger] store.trips@[t].stop_times@[k]).stop == s ==> exists|j: int|
                0 <= j < col@.len() && (#[trigger] col@[j]).trip == t && col@[j].call == k,
{
    let mut col: Vec<DepartureEntry> = Vec::new();
    let mut t: usize = 0;
    while t < store.trips.len()
        invariant
            t <= store.trips@.len(),
            store.wf(),
            s < store.stops@.len(),
            sorted_by_departure(col@),
            forall|j: int|
                0 <= j < col@.len() ==> {
                    let e = #[trigger] col@[j];
                    &&& e.trip < store.trips@.len()
                    &&& e.call < store.trips@[e.trip as int].stop_times@.len()
                    &&& store.trips@[e.trip as int].stop_times@[e.call as int].stop == s
                    &&& store.trips@[e.trip as int].stop_times@[e.call as int].departure
                        == e.departure
                },
            forall|ti: int, k: int|
                0 <= ti < t && 0 <= k < store.trips@[ti].stop_times@.len()
                    && (#[trigger] store.trips@[ti].stop_times@[k]).stop == s ==> exists|j: int|
                    0 <= j < col@.len() && (#[trigger] col@[j]).trip == ti && col@[j].call == k,
        decreases store.trips@.len() - t,
    {
        let n_calls = store.trips[t].stop_times.len();
        let mut k: usize = 0;
        while k < n_calls
            invariant
                k <= n_calls,
                t < store.trips@.len(),
                store.wf(),
                s < store.stops@.len(),
                n_calls == store.trips@[t as int].stop_times@.len(),
                sorted_by_departure(col@),
                forall|j: int|
                    0 <= j < col@.len() ==> {
                        let e = #[trigger] col@[j];
                        &&& e.trip < store.trips@.len()
                        &&& e.call < store.trips@[e.trip as int].stop_times@.len()
                        &&& store.trips@[e.trip as int].stop_times@[e.call as int].stop == s
                        &&& store.trips@[e.trip as int].stop_times@[e.call as int].departure
                            == e.departure
                    },
                forall|ti: int, kk: int|
                    0 <= ti < t && 0 <= kk < store.trips@[ti].stop_times@.len()
                        && (#[trigger] store.trips@[ti].stop_times@[kk]).stop == s ==> exists|
                        j: int,
                    |
                        0 <= j < col@.len() && (#[trigger] col@[j]).trip == ti && col@[j].call
                            == kk,
                forall|kk: int|
                    0 <= kk < k && (#[trigger] store.trips@[t as int].stop_times@[kk]).stop == s
                        ==> exists|j: int|
                        0 <= j < col@.len() && (#[trigger] col@[j]).trip == t as int
                            && col@[j].call == kk,
            decreases n_calls - k,
        {
            let st = store.trips[t].stop_times[k];
            if st.stop == s {
                let e = DepartureEntry { departure: st.departure, trip: t, call: k };
                let ghost prev = col@;
                insert_sorted(&mut col, e);
                proof {
                    assert forall|ti: int, kk: int|
                        0 <= ti < t && 0 <= kk < store.trips@[ti].stop_times@.len()
                            && (#[trigger] store.trips@[ti].stop_times@[kk]).stop == s implies
                        exists|j: int|
                            0 <= j < col@.len() && (#[trigger] col@[j]).trip == ti
                                && col@[j].call == kk by {
                        let j0 = choose|j: int|
                            0 <= j < prev.len() && (#[trigger] prev[j]).trip == ti
                                && prev[j].call == kk;
                        assert(prev.contains(prev[j0]));
                        assert(col@.contains(prev[j0]));
                        let j1 = choose|j: int| 0 <= j < col@.len() && col@[j] == prev[j0];
                        assert(col@[j1].trip == ti && col@[j1].call == kk);
                    }
                    assert forall|kk: int|
                        0 <= kk <= k && (#[trigger] store.trips@[t as int].stop_times@[kk]).stop
                            == s implies exists|j: int|
                        0 <= j < col@.len() && (#[trigger] col@[j]).trip == t as int
                            && col@[j].call == kk by {
                        if kk < k {
                            let j0 = choose|j: int|
                                0 <= j < prev.len() && (#[trigger] prev[j]).trip == t as int
                                    && prev[j].call == kk;
                            assert(prev.contains(prev[j0]));
                            assert(col@.contains(prev[j0]));
                            let j1 = choose|j: int| 0 <= j < col@.len() && col@[j] == prev[j0];
                            assert(col@[j1].trip == t as int && col@[j1].call == kk);
                        } else {
                            assert(col@.contains(e));
                            let j1 = choose|j: int| 0 <= j < col@.len() && col@[j] == e;
                            assert(col@[j1].trip == t as int && col@[j1].call == k as int);
                        }
                    }
                }
            }
            k = k + 1;
        }
        t = t + 1;
    }
    col
}

/// Binary search for the first entry departing at or after `t` in a sorted
/// column: everything before the returned position departs earlier, and
/// everything from it on departs at or after `t`.
pub fn first_departure_at_or_after(col: &Vec<DepartureEntry>, t: u32) -> (r: usize)
    requires
        sorted_by_departure(col@),
    ensures
        r <= col@.len(),
        forall|j: int| 0 <= j < r ==> (#[trigger] col@[j]).departure < t,
        forall|j: int| r <= j < col@.len() ==> (#[trigger] col@[j]).departure >= t,
{
    let mut lo: usize = 0;
    let mut hi: usize = col.len();
    while lo < hi
        invariant
            lo <= hi <= col@.len(),
            sorted_by_departure(col@),
            forall|j: int| 0 <= j < lo ==> (#[trigger] col@[j]).departure < t,
            forall|j: int| hi <= j < col@.len() ==> (#[trigger] col@[j]).departure >= t,
        decreases hi - lo,
    {
        let mid: usize = lo + (hi - lo) / 2;
        if col[mid].departure < t {
            lo = mid + 1;
        } else {
            hi = mid;
        }
    }
    lo
}

} // verus!
