//! Supported metro regions and coordinate-to-city resolution.
//!
//! A [`City`] anchors every immutable dataset (schedule store, road graph).
//! Coordinates are carried as integer microdegrees so that containment tests
//! and distances are exact integer arithmetic.

use vstd::prelude::*;

verus! {

/// A geographic coordinate in integer microdegrees (1e-6 degree units).
#[derive(Clone, Copy, Debug, PartialEq, Eq, Structural)]
pub struct LatLng {
    pub lat_microdeg: i64,
    pub lon_microdeg: i64,
}

impl LatLng {
    /// True when the coordinate is a possible point on the globe.
    pub open spec fn wf(self) -> bool {
        -90_000_000 <= self.lat_microdeg <= 90_000_000
            && -180_000_000 <= self.lon_microdeg <= 180_000_000
    }
}

/// An enumerated supported metro region.
#[derive(Clone, Copy, Debug, PartialEq, Eq, Structural)]
pub enum City {
    London,
    Paris,
}

/// Inclusive bounding box of a city's coverage area, in microdegrees:
/// (south latitude, north latitude, west longitude, east longitude).
pub open spec fn city_bounds(city: City) -> (i64, i64, i64, i64) {
    match city {
        City::London => (42_700_000i64, 43_300_000i64, -81_600_000i64, -80_900_000i64),
        City::Paris => (48_600_000i64, 49_100_000i64, 2_000_000i64, 2_700_000i64),
    }
}

/// True when `loc` lies inside `city`'s coverage box.
pub open spec fn city_contains(city: City, loc: LatLng) -> bool {
    let (s, n, w, e) = city_bounds(city);
    s <= loc.lat_microdeg <= n && w <= loc.lon_microdeg <= e
}

/// Resolves a coordinate to the supported city whose coverage box contains
/// it; London is consulted first, then Paris.  Returns `None` when no
/// configured city covers the coordinate (the caller surfaces that as a
/// `CityNotFound` query error).
pub fn find_city(loc: LatLng) -> (r: Option<City>)
    ensures
        r is Some ==> city_contains(r->0, loc),
        r is None ==> !city_contains(City::London, loc) && !city_contains(City::Paris, loc),
        city_contains(City::London, loc) ==> r == Some(City::London),
        !city_contains(City::London, loc) && city_contains(City::Paris, loc) ==> r == Some(
            City::Paris,
        ),
{
    if in_city(City::London, loc) {
        Some(City::London)
    } else if in_city(City::Paris, loc) {
        Some(City::Paris)
    } else {
        None
    }
}

/// Containment test for one city's coverage box.
pub fn in_city(city: City, loc: LatLng) -> (r: bool)
    ensures
        r == city_contains(city, loc),
{
    let (s, n, w, e): (i64, i64, i64, i64) = match city {
        City::London => (42_700_000i64, 43_300_000i64, -81_600_000i64, -80_900_000i64),
        City::Paris => (48_600_000i64, 49_100_000i64, 2_000_000i64, 2_700_000i64),
    };
    s <= loc.lat_microdeg && loc.lat_microdeg <= n && w <= loc.lon_microdeg && loc.lon_microdeg
        <= e
}

} // verus!
