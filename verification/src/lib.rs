//! A multimodal transit isochrone ("time-to-reach") engine: given an origin
//! coordinate and a departure time, it computes the earliest arrival time at
//! every node and edge of a city's walking graph within a bounded horizon,
//! combining static transit schedules with walking-graph relaxation.
//!
//! The immutable inputs — the parsed schedule ([`schedule::ScheduleStore`]),
//! its departure index ([`gtfs_processing::SpatialStopIndex`]) and the
//! walking graph ([`road_structure::RoadGraphTemplate`]) — are built once per
//! city.  Each query owns a private scratch workspace
//! ([`road_structure::QueryWorkspace`]) and a boarding arena
//! ([`trips_arena::TripsArena`]), runs the label-setting search in
//! [`time_to_reach`], and extracts a [`road_structure::ReachResult`].

pub mod agencies;
pub mod configuration;
pub mod gtfs_processing;
pub mod gtfs_setup;
pub mod road_structure;
pub mod schedule;
pub mod serialization;
pub mod time_to_reach;
pub mod trips_arena;
pub mod web_cache;

use vstd::prelude::*;

verus! {

/// Sentinel value meaning "this node/edge was never reached".
pub const UNREACHED: u32 = 0xffff_ffff;

/// Minimum dwell charged when boarding a trip after riding another trip.
pub const MIN_TRANSFER_SECONDS: u32 = 35;

/// Fixed egress time charged once when alighting from a trip.
pub const TRANSIT_EXIT_PENALTY: u32 = 10;

/// Largest supported second-of-schedule value (one week), so that every
/// arithmetic combination of times and penalties stays far below `u32::MAX`.
pub const MAX_SCHEDULE_TIME: u32 = 604800;

} // verus!
