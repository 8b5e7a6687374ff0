//! The immutable per-request query parameters.

use vstd::prelude::*;
use crate::agencies::LatLng;
use crate::schedule::Mode;
use crate::MAX_SCHEDULE_TIME;

verus! {

/// Walking parameters of one query.  The distance cutoffs and the two speeds
/// are explicitly configurable rather than fixed constants; the straight-line
/// speed is the slower lower-bound speed used for the geometric origin
/// seeding, the base speed prices walking along graph edges.
#[derive(Clone, Copy, Debug, PartialEq, Eq, Structural)]
pub struct WalkParams {
    /// Base walking speed along edges, millimetres per second.
    pub speed_mm_s: u64,
    /// Straight-line (lower-bound) walking speed used when seeding from the
    /// origin, millimetres per second.
    pub straight_speed_mm_s: u64,
    /// Maximum straight-line distance from the origin to a seeded node.
    pub origin_radius_mm: u64,
    /// Maximum straight-line distance between a stop and the node it links to.
    pub stop_radius_mm: u64,
}

impl WalkParams {
    /// Speeds are positive; radii stay within the planar frame.
    pub open spec fn wf(self) -> bool {
        &&& 0 < self.speed_mm_s
        &&& 0 < self.straight_speed_mm_s
        &&& self.origin_radius_mm <= 1_000_000_000
        &&& self.stop_radius_mm <= 1_000_000_000
    }
}

impl Default for WalkParams {
    /// The defaults mirror a 1.42 m/s base walk, a 1.25 m/s straight-line
    /// lower bound, and a one-kilometre linking radius for both the origin
    /// and the stops.
    fn default() -> (r: WalkParams)
        ensures
            r == (WalkParams {
                speed_mm_s: 1420u64,
                straight_speed_mm_s: 1250u64,
                origin_radius_mm: 1_000_000u64,
                stop_radius_mm: 1_000_000u64,
            }),
            r.wf(),
    {
        WalkParams {
            speed_mm_s: 1420,
            straight_speed_mm_s: 1250,
            origin_radius_mm: 1_000_000,
            stop_radius_mm: 1_000_000,
        }
    }
}

/// One query's immutable input.
#[derive(Clone, Debug)]
pub struct Configuration {
    /// Departure time, seconds since midnight.
    pub start_time: u32,
    /// Maximum search horizon beyond the start time, in seconds.
    pub duration_secs: u32,
    /// Origin coordinate.
    pub location: LatLng,
    /// Included agency identifiers; empty means every agency.
    pub agency_ids: Vec<u32>,
    /// Included transit modes; empty means every mode.
    pub modes: Vec<Mode>,
    /// Extra seconds charged per transfer, on top of the minimum dwell.
    pub transfer_cost: u32,
    /// Weekday of the query date, 0 = Monday .. 6 = Sunday.
    pub weekday: u8,
    /// Walking parameters.
    pub walk: WalkParams,
}

impl Configuration {
    /// Request sanity: times inside the supported schedule range, a real
    /// coordinate, a valid weekday and positive walking speeds.
    pub open spec fn wf(self) -> bool {
        &&& self.start_time <= MAX_SCHEDULE_TIME
        &&& self.duration_secs <= MAX_SCHEDULE_TIME
        &&& self.transfer_cost <= MAX_SCHEDULE_TIME
        &&& self.location.wf()
        &&& self.weekday < 7
        &&& self.walk.wf()
    }

    /// The absolute upper bound of every finalized label of this query.
    pub open spec fn spec_horizon(self) -> int {
        self.start_time + self.duration_secs
    }

    /// Whether the agency filter admits agency identifier `id`.
    pub open spec fn spec_agency_allowed(self, id: u32) -> bool {
        self.agency_ids@.len() == 0 || self.agency_ids@.contains(id)
    }

    /// Whether the mode filter admits mode `m`.
    pub open spec fn spec_mode_allowed(self, m: Mode) -> bool {
        self.modes@.len() == 0 || self.modes@.contains(m)
    }

    /// Executable agency-filter test.
    pub fn agency_allowed(&self, id: u32) -> (r: bool)
        ensures
            r == self.spec_agency_allowed(id),
    {
        if self.agency_ids.len() == 0 {
            return true;
        }
        let mut i: usize = 0;
        while i < self.agency_ids.len()
            invariant
                i <= self.agency_ids@.len(),
                forall|j: int| 0 <= j < i ==> self.agency_ids@[j] != id,
            decreases self.agency_ids@.len() - i,
        {
            if self.agency_ids[i] == id {
                return true;
            }
            i = i + 1;
        }
        false
    }

    /// Executable mode-filter test.
    pub fn mode_allowed(&self, m: Mode) -> (r: bool)
        ensures
            r == self.spec_mode_allowed(m),
    {
        if self.modes.len() == 0 {
            return true;
        }
        let mut i: usize = 0;
        while i < self.modes.len()
            invariant
                i <= self.modes@.len(),
                forall|j: int| 0 <= j < i ==> self.modes@[j] != m,
            decreases self.modes@.len() - i,
        {
            if self.modes[i] == m {
                return true;
            }
            i = i + 1;
        }
        false
    }
}

} // verus!
