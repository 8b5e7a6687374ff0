//! The immutable per-city schedule data: agencies, routes, trips, stops,
//! service calendars and shapes, with the well-formedness invariant that every
//! cross-reference resolves inside the same store.
//!
//! All references are positional indices into the store's own vectors, so the
//! invariant is a set of bounds facts that every consumer can rely on.

use vstd::prelude::*;
use crate::agencies::LatLng;
use crate::MAX_SCHEDULE_TIME;

verus! {

/// Transit mode of a route.
#[derive(Clone, Copy, Debug, PartialEq, Eq, Structural)]
pub enum Mode {
    Bus,
    Subway,
    Tram,
    Rail,
    Ferry,
}

/// Two-valued direction tag carried by each trip; it affects only display and
/// ordering downstream, never reachability.
#[derive(Clone, Copy, Debug, PartialEq, Eq, Structural)]
pub enum DirectionType {
    Outbound,
    Inbound,
}

/// A transit operator.
#[derive(Clone, Debug)]
pub struct Agency {
    /// The operator's feed-assigned numeric identifier.
    pub id: u32,
    /// The operator's public name, as UTF-8 bytes from the feed.
    pub name: Vec<u8>,
}

/// One route of one agency.
#[derive(Clone, Debug)]
pub struct Route {
    /// Index of the owning agency in `ScheduleStore::agencies`.
    pub agency: usize,
    /// Transit mode of every trip of this route.
    pub mode: Mode,
}

/// One scheduled call of a trip at a stop; the stop-sequence number of a call
/// is its position in the trip's `stop_times` vector.
#[derive(Clone, Copy, Debug)]
pub struct StopTime {
    /// Index of the stop in `ScheduleStore::stops`.
    pub stop: usize,
    /// Arrival time at the stop, seconds since midnight.
    pub arrival: u32,
    /// Departure time from the stop, seconds since midnight.
    pub departure: u32,
}

/// One scheduled vehicle run.
#[derive(Clone, Debug)]
pub struct Trip {
    /// Index of the trip's route in `ScheduleStore::routes`.
    pub route: usize,
    /// Index of the trip's service calendar in `ScheduleStore::services`.
    pub service: usize,
    /// Direction tag.
    pub direction: DirectionType,
    /// Calls in stop-sequence order.
    pub stop_times: Vec<StopTime>,
}

/// A transit stop.
#[derive(Clone, Debug)]
pub struct Stop {
    /// Stop coordinate.
    pub coord: LatLng,
    /// Stop name, as UTF-8 bytes from the feed.
    pub name: Vec<u8>,
}

/// One row of the service calendar: on which weekdays the service runs.
#[derive(Clone, Copy, Debug)]
pub struct Service {
    pub monday: bool,
    pub tuesday: bool,
    pub wednesday: bool,
    pub thursday: bool,
    pub friday: bool,
    pub saturday: bool,
    pub sunday: bool,
}

impl Service {
    /// Whether the service runs on weekday `day` (0 = Monday .. 6 = Sunday).
    pub open spec fn spec_runs_on(self, day: u8) -> bool {
        if day == 0 {
            self.monday
        } else if day == 1 {
            self.tuesday
        } else if day == 2 {
            self.wednesday
        } else if day == 3 {
            self.thursday
        } else if day == 4 {
            self.friday
        } else if day == 5 {
            self.saturday
        } else {
            self.sunday
        }
    }

    /// Executable weekday test.
    pub fn runs_on(&self, day: u8) -> (r: bool)
        ensures
            r == self.spec_runs_on(day),
    {
        if day == 0 {
            self.monday
        } else if day == 1 {
            self.tuesday
        } else if day == 2 {
            self.wednesday
        } else if day == 3 {
            self.thursday
        } else if day == 4 {
            self.friday
        } else if day == 5 {
            self.saturday
        } else {
            self.sunday
        }
    }
}

/// Polyline geometry attached to a route.
#[derive(Clone, Debug)]
pub struct Shape {
    /// Index of the route this geometry belongs to in `ScheduleStore::routes`.
    pub route: usize,
    /// Polyline points.
    pub points: Vec<LatLng>,
}

/// The immutable parsed schedule for one city.  Built once (or restored from
/// a snapshot), then shared read-only by every query.
#[derive(Clone, Debug)]
pub struct ScheduleStore {
    pub agencies: Vec<Agency>,
    pub routes: Vec<Route>,
    pub trips: Vec<Trip>,
    pub stops: Vec<Stop>,
    pub services: Vec<Service>,
    /// Geometry that came with the feed.
    pub shapes: Vec<Shape>,
    /// Geometry derived for routes that the feed left without a shape.
    pub generated_shapes: Vec<Shape>,
}

/// Well-formedness of one trip against the store's section lengths.
pub open spec fn trip_wf(t: Trip, n_routes: int, n_services: int, n_stops: int) -> bool {
    &&& t.route < n_routes
    &&& t.service < n_services
    &&& t.stop_times@.len() <= 65536
    &&& forall|j: int|
        0 <= j < t.stop_times@.len() ==> {
            &&& (#[trigger] t.stop_times@[j]).stop < n_stops
            &&& t.stop_times@[j].arrival <= t.stop_times@[j].departure
            &&& t.stop_times@[j].departure <= MAX_SCHEDULE_TIME
        }
    &&& forall|j: int|
        0 < j < t.stop_times@.len() ==> (#[trigger] t.stop_times@[j]).arrival
            >= t.stop_times@[j - 1].departure
}

impl ScheduleStore {
    /// The store invariant: every cross-reference resolves within this store,
    /// every stop coordinate is a point on the globe, and each trip's calls
    /// are chronological with times inside the supported schedule range.
    pub open spec fn wf(self) -> bool {
        &&& forall|i: int|
            0 <= i < self.routes@.len() ==> (#[trigger] self.routes@[i]).agency
                < self.agencies@.len()
        &&& forall|i: int|
            0 <= i < self.trips@.len() ==> trip_wf(
                #[trigger] self.trips@[i],
                self.routes@.len() as int,
                self.services@.len() as int,
                self.stops@.len() as int,
            )
        &&& forall|i: int|
            0 <= i < self.stops@.len() ==> (#[trigger] self.stops@[i]).coord.wf()
        &&& forall|i: int|
            0 <= i < self.shapes@.len() ==> (#[trigger] self.shapes@[i]).route
                < self.routes@.len()
        &&& forall|i: int|
            0 <= i < self.generated_shapes@.len() ==> (#[trigger] self.generated_shapes@[i]).route
                < self.routes@.len()
    }

    /// Whether any agency of this store carries identifier `id`.
    pub open spec fn spec_has_agency(self, id: u32) -> bool {
        exists|i: int| 0 <= i < self.agencies@.len() && (#[trigger] self.agencies@[i]).id == id
    }

    /// Whether any route of this store has mode `m`.
    pub open spec fn spec_has_mode(self, m: Mode) -> bool {
        exists|i: int| 0 <= i < self.routes@.len() && (#[trigger] self.routes@[i]).mode == m
    }

    /// Executable test for `spec_has_agency`.
    pub fn has_agency(&self, id: u32) -> (r: bool)
        ensures
            r == self.spec_has_agency(id),
    {
        let mut i: usize = 0;
        while i < self.agencies.len()
            invariant
                i <= self.agencies@.len(),
                forall|j: int| 0 <= j < i ==> (#[trigger] self.agencies@[j]).id != id,
            decreases self.agencies@.len() - i,
        {
            if self.agencies[i].id == id {
                return true;
            }
            i = i + 1;
        }
        false
    }

    /// Executable test for `spec_has_mode`.
    pub fn has_mode(&self, m: Mode) -> (r: bool)
        ensures
            r == self.spec_has_mode(m),
    {
        let mut i: usize = 0;
        while i < self.routes.len()
            invariant
                i <= self.routes@.len(),
                forall|j: int| 0 <= j < i ==> (#[trigger] self.routes@[j]).mode != m,
            decreases self.routes@.len() - i,
        {
            if self.routes[i].mode == m {
                return true;
            }
            i = i + 1;
        }
        false
    }
}

} // verus!
