//! The label-setting reach search: given a schedule store, its departure
//! index, a walking-graph template and a query configuration, it relaxes
//! earliest-arrival labels across walking edges and transit boardings until a
//! fixed point, bounded above by `start_time + duration_secs`.
//!
//! The search maintains, and its contracts state, the run invariants:
//! labels only decrease across relaxations and never drop below the start
//! time (monotonicity); no label exceeds the horizon; every boarding record
//! appended to the arena references a trip admitted by the query's agency,
//! mode and calendar filters; and a zero-duration query produces no boarding
//! records at all.  A completed run also guarantees coverage and settlement:
//! every node within the origin-seeding reach carries a label no worse than
//! walking straight to it ([`origin_seeded`]), and the returned labels are a
//! fixed point — no walking edge ([`walk_stable`]) and no admitted boarding
//! ([`transit_stable`]) can improve any label within the horizon.

use vstd::prelude::*;
use crate::agencies::city_contains;
use crate::configuration::Configuration;
use crate::gtfs_processing::{first_departure_at_or_after, SpatialStopIndex};
use crate::road_structure::{
    isqrt, spec_edge_time, squared_dist, QueryWorkspace, ReachResult, RoadGraphTemplate, RoadNode,
    MAX_COORD_MM,
};
use crate::schedule::ScheduleStore;
use crate::trips_arena::{BusPickupInfo, TripsArena};
use crate::{MIN_TRANSFER_SECONDS, TRANSIT_EXIT_PENALTY, UNREACHED};

verus! {

/// Structured per-request failures; neither ever crashes the shared stores.
#[derive(Clone, Copy, Debug, PartialEq, Eq, Structural)]
pub enum QueryError {
    /// The origin coordinate falls outside every configured city's coverage.
    CityNotFound,
    /// The agency/mode filters eliminate all schedule data for the city.
    NoMatchingAgenciesOrModes,
}

/// Sum of all labels of a workspace; the strictly decreasing measure that
/// bounds the relaxation fixpoint.
pub open spec fn sum_times(s: Seq<u32>) -> int
    decreases s.len(),
{
    if s.len() == 0 {
        0
    } else {
        s[0] + sum_times(s.drop_first())
    }
}

proof fn lemma_sum_nonneg(s: Seq<u32>)
    ensures
        sum_times(s) >= 0,
    decreases s.len(),
{
    if s.len() > 0 {
        lemma_sum_nonneg(s.drop_first());
    }
}

proof fn lemma_sum_update(s: Seq<u32>, i: int, v: u32)
    requires
        0 <= i < s.len(),
    ensures
        sum_times(s.update(i, v)) == sum_times(s) - s[i] + v,
    decreases s.len(),
{
    if i == 0 {
        assert(s.update(0, v).drop_first() =~= s.drop_first());
    } else {
        assert(s.update(i, v).drop_first() =~= s.drop_first().update(i - 1, v));
        lemma_sum_update(s.drop_first(), i - 1, v);
    }
}

/// The run invariant on labels: every entry is either unreached or lies in
/// `[start_time, start_time + duration_secs]`.
pub open spec fn label_bounds(ws: QueryWorkspace, config: Configuration) -> bool {
    forall|i: int|
        0 <= i < ws.node_times@.len() ==> (#[trigger] ws.node_times@[i] == UNREACHED || (
        config.start_time <= ws.node_times@[i] && ws.node_times@[i] <= config.spec_horizon()))
}

/// Whether trip `t` of the store passes the query's agency filter, mode
/// filter and service calendar.
pub open spec fn trip_allowed(store: ScheduleStore, config: Configuration, t: int) -> bool {
    &&& 0 <= t < store.trips@.len()
    &&& config.spec_agency_allowed(
        store.agencies@[store.routes@[store.trips@[t].route as int].agency as int].id,
    )
    &&& config.spec_mode_allowed(store.routes@[store.trips@[t].route as int].mode)
    &&& store.services@[store.trips@[t].service as int].spec_runs_on(config.weekday)
}

/// Whether one arena record is a valid provenance entry of this run: its
/// trip passes the filters, its timestamp lies within the horizon, and the
/// trip really departs somewhere inside the query window — so a filter
/// restricted to an agency with no departure in the window provably leaves
/// the arena empty.
pub open spec fn record_ok(
    store: ScheduleStore,
    config: Configuration,
    rec: BusPickupInfo,
) -> bool {
    &&& trip_allowed(store, config, rec.trip_id as int)
    &&& config.start_time <= rec.timestamp <= config.spec_horizon()
    &&& exists|k: int|
        0 <= k < store.trips@[rec.trip_id as int].stop_times@.len() && config.start_time <= (
        #[trigger] store.trips@[rec.trip_id as int].stop_times@[k]).departure
            <= config.spec_horizon()
}

/// The filters eliminate all schedule data: a nonempty agency filter that
/// matches no agency of the store, or a nonempty mode filter that matches no
/// route of the store.
pub open spec fn spec_no_matching(store: ScheduleStore, config: Configuration) -> bool {
    ||| (config.agency_ids@.len() > 0 && !(exists|i: int|
        0 <= i < store.agencies@.len() && config.spec_agency_allowed(
            (#[trigger] store.agencies@[i]).id,
        )))
    ||| (config.modes@.len() > 0 && !(exists|i: int|
        0 <= i < store.routes@.len() && config.spec_mode_allowed(
            (#[trigger] store.routes@[i]).mode,
        )))
}

/// Executable test for `spec_no_matching`.
pub fn filters_eliminate_all(store: &ScheduleStore, config: &Configuration) -> (r: bool)
    ensures
        r == spec_no_matching(*store, *config),
{
    if config.agency_ids.len() > 0 {
        let mut any: bool = false;
        let mut i: usize = 0;
        while i < store.agencies.len()
            invariant
                i <= store.agencies@.len(),
                any == exists|j: int|
                    0 <= j < i && config.spec_agency_allowed((#[trigger] store.agencies@[j]).id),
            decreases store.agencies@.len() - i,
        {
            if config.agency_allowed(store.agencies[i].id) {
                any = true;
            }
            i = i + 1;
        }
        if !any {
            return true;
        }
    }
    if config.modes.len() > 0 {
        let mut any: bool = false;
        let mut i: usize = 0;
        while i < store.routes.len()
            invariant
                i <= store.routes@.len(),
                any == exists|j: int|
                    0 <= j < i && config.spec_mode_allowed((#[trigger] store.routes@[j]).mode),
            decreases store.routes@.len() - i,
        {
            if config.mode_allowed(store.routes[i].mode) {
                any = true;
            }
            i = i + 1;
        }
        if !any {
            return true;
        }
    }
    false
}

/// Planar position of a stop under the template's projection.
pub open spec fn spec_stop_planar(
    template: RoadGraphTemplate,
    store: ScheduleStore,
    s: int,
) -> (int, int) {
    template.proj.spec_project(store.stops@[s].coord)
}

/// Squared planar distance between a point and a node.
pub open spec fn spec_sqdist(p: (int, int), n: RoadNode) -> int {
    (p.0 - n.x_mm) * (p.0 - n.x_mm) + (p.1 - n.y_mm) * (p.1 - n.y_mm)
}

/// Whether a planar point lies inside the frame in which squared distances
/// are computed exactly.
pub open spec fn in_frame(p: (int, int)) -> bool {
    -2 * MAX_COORD_MM <= p.0 <= 2 * MAX_COORD_MM && -2 * MAX_COORD_MM <= p.1 <= 2 * MAX_COORD_MM
}

/// One direction of a walking edge can no longer improve its head: either
/// the tail is unreached, walking overruns the horizon, or the head's label
/// is already at least as good.
pub open spec fn walk_dir_stable(
    times: Seq<u32>,
    config: Configuration,
    u: int,
    v: int,
    wt: int,
) -> bool {
    (times[u] != UNREACHED && times[u] + wt <= config.spec_horizon()) ==> times[v] <= times[u]
        + wt
}

/// The walking fixpoint: no edge of the template, in either direction, can
/// improve any label within the horizon.  This holds of the labels a
/// completed run returns.
pub open spec fn walk_stable(
    template: RoadGraphTemplate,
    times: Seq<u32>,
    config: Configuration,
) -> bool {
    forall|k: int|
        0 <= k < template.edges@.len() ==> {
            let e = #[trigger] template.edges@[k];
            let wt = e.dist_mm as int / config.walk.speed_mm_s as int;
            &&& walk_dir_stable(times, config, e.a as int, e.b as int, wt)
            &&& walk_dir_stable(times, config, e.b as int, e.a as int, wt)
        }
}

/// A node the seeding must reach: the projected origin lies in the planar
/// frame, the node is within the configured origin radius, and walking the
/// straight-line distance at the straight-line speed fits inside the
/// duration.  The search guarantees a label at every such node.
pub open spec fn origin_covered(
    template: RoadGraphTemplate,
    config: Configuration,
    i: int,
) -> bool {
    let p = template.proj.spec_project(config.location);
    let d2 = spec_sqdist(p, template.nodes@[i]);
    let reach = config.duration_secs * config.walk.straight_speed_mm_s;
    &&& in_frame(p)
    &&& d2 <= config.walk.origin_radius_mm * config.walk.origin_radius_mm
    &&& d2 <= reach * reach
}

/// Seconds of straight-line walking from the origin to node `i`.
pub open spec fn origin_walk_secs(
    template: RoadGraphTemplate,
    config: Configuration,
    i: int,
) -> int {
    let p = template.proj.spec_project(config.location);
    crate::road_structure::spec_isqrt(spec_sqdist(p, template.nodes@[i])) / (
    config.walk.straight_speed_mm_s as int)
}

/// The seeding guarantee at one node: a covered node carries a label, no
/// worse than leaving at the start time and walking the straight-line
/// distance at the straight-line speed.
pub open spec fn origin_seeded(
    template: RoadGraphTemplate,
    config: Configuration,
    times: Seq<u32>,
    i: int,
) -> bool {
    origin_covered(template, config, i) ==> (times[i] != UNREACHED && times[i]
        <= config.start_time + origin_walk_secs(template, config, i))
}

/// The link of one stop to its nearest walking-graph node.
#[derive(Clone, Copy, Debug, PartialEq, Eq, Structural)]
pub struct StopLink {
    /// The nearest node.
    pub node: usize,
    /// Squared planar distance from the stop to that node, mm^2.
    pub d2: u64,
}

/// Per-stop links into the walking graph, positionally aligned to the
/// store's stops; built once per (store, template) pair.
#[derive(Clone, Debug)]
pub struct StopLinks {
    pub links: Vec<Option<StopLink>>,
}

impl StopLinks {
    /// What the search needs of the links: alignment, node indices in range,
    /// and squared distances small enough for exact time arithmetic.
    pub open spec fn wf(self, store: ScheduleStore, template: RoadGraphTemplate) -> bool {
        &&& self.links@.len() == store.stops@.len()
        &&& forall|s: int|
            0 <= s < self.links@.len() && (#[trigger] self.links@[s]) is Some ==> {
                &&& self.links@[s]->0.node < template.nodes@.len()
                &&& self.links@[s]->0.d2 <= 1_000_000_000_000_000_000
            }
    }

    /// Links every stop to the nearest template node within `radius_mm`.  A
    /// stop projecting outside the planar frame, or with no node within the
    /// radius, stays unlinked; a linked stop records the exact squared
    /// distance to a node none is nearer than.
    pub fn build(store: &ScheduleStore, template: &RoadGraphTemplate, radius_mm: u64) -> (r:
        StopLinks)
        requires
            store.wf(),
            template.wf(),
            radius_mm <= 1_000_000_000,
        ensures
            r.wf(*store, *template),
            forall|s: int|
                0 <= s < r.links@.len() ==> match #[trigger] r.links@[s] {
                    Some(l) => {
                        &&& l.node < template.nodes@.len()
                        &&& l.d2 == spec_sqdist(
                            spec_stop_planar(*template, *store, s),
                            template.nodes@[l.node as int],
                        )
                        &&& l.d2 <= radius_mm * radius_mm
                        &&& forall|j: int|
                            0 <= j < template.nodes@.len() ==> l.d2 <= spec_sqdist(
                                spec_stop_planar(*template, *store, s),
                                #[trigger] template.nodes@[j],
                            )
                    },
                    None => in_frame(spec_stop_planar(*template, *store, s)) ==> forall|j: int|
                        0 <= j < template.nodes@.len() ==> spec_sqdist(
                            spec_stop_planar(*template, *store, s),
                            #[trigger] template.nodes@[j],
                        ) > radius_mm * radius_mm,
                },
    {
        proof {
            assert(radius_mm * radius_mm <= 1_000_000_000_000_000_000) by (nonlinear_arith)
                requires
                    radius_mm <= 1_000_000_000,
            ;
        }
        let r2: u64 = radius_mm * radius_mm;
        let mut links: Vec<Option<StopLink>> = Vec::new();
        let mut s: usize = 0;
        while s < store.stops.len()
            invariant
                s <= store.stops@.len(),
                store.wf(),
                template.wf(),
                r2 == radius_mm * radius_mm,
                r2 <= 1_000_000_000_000_000_000,
                links@.len() == s,
                forall|si: int|
                    0 <= si < s ==> match #[trigger] links@[si] {
                        Some(l) => {
                            &&& l.node < template.nodes@.len()
                            &&& l.d2 == spec_sqdist(
                                spec_stop_planar(*template, *store, si),
                                template.nodes@[l.node as int],
                            )
                            &&& l.d2 <= radius_mm * radius_mm
                            &&& forall|j: int|
                                0 <= j < template.nodes@.len() ==> l.d2 <= spec_sqdist(
                                    spec_stop_planar(*template, *store, si),
                                    #[trigger] template.nodes@[j],
                                )
                        },
                        None => in_frame(spec_stop_planar(*template, *store, si)) ==> forall|
                            j: int,
                        |
                            0 <= j < template.nodes@.len() ==> spec_sqdist(
                                spec_stop_planar(*template, *store, si),
                                #[trigger] template.nodes@[j],
                            ) > radius_mm * radius_mm,
                    },
            decreases store.stops@.len() - s,
        {
            let (px, py) = template.proj.project(store.stops[s].coord);
            if px < -2 * MAX_COORD_MM || px > 2 * MAX_COORD_MM || py < -2 * MAX_COORD_MM || py > 2
                * MAX_COORD_MM {
                links.push(None);
            } else {
                let mut best: Option<StopLink> = None;
                let mut i: usize = 0;
                while i < template.nodes.len()
                    invariant
                        i <= template.nodes@.len(),
                        template.wf(),
                        -2 * MAX_COORD_MM <= px <= 2 * MAX_COORD_MM,
                        -2 * MAX_COORD_MM <= py <= 2 * MAX_COORD_MM,
                        (px as int, py as int) == spec_stop_planar(*template, *store, s as int),
                        r2 <= 1_000_000_000_000_000_000,
                        match best {
                            Some(l) => {
                                &&& l.node < template.nodes@.len()
                                &&& l.d2 == spec_sqdist(
                                    (px as int, py as int),
                                    template.nodes@[l.node as int],
                                )
                                &&& l.d2 <= r2
                                &&& forall|j: int|
                                    0 <= j < i ==> l.d2 <= spec_sqdist(
                                        (px as int, py as int),
                                        #[trigger] template.nodes@[j],
                                    )
                            },
                            None => forall|j: int|
                                0 <= j < i ==> spec_sqdist(
                                    (px as int, py as int),
                                    #[trigger] template.nodes@[j],
                                ) > r2,
                        },
                    decreases template.nodes@.len() - i,
                {
                    let d2 = squared_dist(px, py, template.nodes[i]);
                    let better: bool = match best {
                        Some(l) => d2 < l.d2,
                        None => d2 <= r2,
                    };
                    if better {
                        best = Some(StopLink { node: i, d2 });
                    }
                    i = i + 1;
                }
                links.push(best);
            }
            s = s + 1;
        }
        StopLinks { links }
    }
}

/// The boarding instant at a linked stop: the linked node's label, plus the
/// walk from the node to the stop, plus the transfer rule (minimum dwell and
/// configured transfer cost when the node's label came from riding).
pub open spec fn stop_board_time(
    links: StopLinks,
    times: Seq<u32>,
    via: Seq<bool>,
    config: Configuration,
    s: int,
) -> int {
    let l = links.links@[s]->0;
    let pen: int = if via[l.node as int] {
        MIN_TRANSFER_SECONDS + config.transfer_cost
    } else {
        0
    };
    times[l.node as int] + crate::road_structure::spec_isqrt(l.d2 as int) / (
    config.walk.speed_mm_s as int) + pen
}

/// One call of one admitted, boardable trip can no longer improve the node
/// linked to its stop: alighting there (exit penalty plus the walk back)
/// within the horizon is no better than the node's label.
pub open spec fn call_stable(
    store: ScheduleStore,
    links: StopLinks,
    times: Seq<u32>,
    config: Configuration,
    t: int,
    k2: int,
) -> bool {
    let st2 = store.trips@[t].stop_times@[k2];
    links.links@[st2.stop as int] is Some ==> {
        let l2 = links.links@[st2.stop as int]->0;
        let cand = st2.arrival + TRANSIT_EXIT_PENALTY + crate::road_structure::spec_isqrt(
            l2.d2 as int,
        ) / (config.walk.speed_mm_s as int);
        cand <= config.spec_horizon() ==> times[l2.node as int] <= cand
    }
}

/// One departure entry of a stop's column can no longer improve anything:
/// if it leaves at or after the stop's boarding instant, within the
/// horizon, on an admitted trip, then every later call of that trip is
/// stable.
pub open spec fn entry_stable(
    store: ScheduleStore,
    index: SpatialStopIndex,
    links: StopLinks,
    times: Seq<u32>,
    via: Seq<bool>,
    config: Configuration,
    s: int,
    j: int,
) -> bool {
    let e = index.per_stop@[s]@[j];
    (e.departure >= stop_board_time(links, times, via, config, s) && e.departure
        <= config.spec_horizon() && trip_allowed(store, config, e.trip as int)) ==> forall|
        k2: int,
    |
        e.call < k2 < store.trips@[e.trip as int].stop_times@.len() ==> #[trigger] call_stable(
            store,
            links,
            times,
            config,
            e.trip as int,
            k2,
        )
}

/// One stop can no longer improve anything through boarding.
pub open spec fn stop_stable(
    store: ScheduleStore,
    index: SpatialStopIndex,
    links: StopLinks,
    times: Seq<u32>,
    via: Seq<bool>,
    config: Configuration,
    s: int,
) -> bool {
    (links.links@[s] is Some && times[links.links@[s]->0.node as int] != UNREACHED
        && stop_board_time(links, times, via, config, s) <= config.spec_horizon()) ==> forall|
        j: int,
    |
        0 <= j < index.per_stop@[s]@.len() ==> #[trigger] entry_stable(
            store,
            index,
            links,
            times,
            via,
            config,
            s,
            j,
        )
}

/// The transit fixpoint: no linked stop, admitted departure and later call
/// can improve any label within the horizon.  This holds of the state a
/// completed run leaves behind.
pub open spec fn transit_stable(
    store: ScheduleStore,
    index: SpatialStopIndex,
    links: StopLinks,
    times: Seq<u32>,
    via: Seq<bool>,
    config: Configuration,
) -> bool {
    forall|s: int|
        0 <= s < links.links@.len() ==> #[trigger] stop_stable(
            store,
            index,
            links,
            times,
            via,
            config,
            s,
        )
}

/// Lowers one label to a strictly smaller value and records how the label
/// was produced; the sum of all labels strictly decreases.
fn relax_label(ws: &mut QueryWorkspace, i: usize, v: u32, via_transit: bool)
    requires
        i < old(ws).node_times@.len(),
        old(ws).node_via_transit@.len() == old(ws).node_times@.len(),
        v < old(ws).node_times@[i as int],
    ensures
        final(ws).node_times@ == old(ws).node_times@.update(i as int, v),
        final(ws).node_via_transit@ == old(ws).node_via_transit@.update(i as int, via_transit),
        sum_times(final(ws).node_times@) == sum_times(old(ws).node_times@) - old(ws).node_times@[i as int] + v,
        sum_times(final(ws).node_times@) < sum_times(old(ws).node_times@),
{
    proof {
        lemma_sum_update(ws.node_times@, i as int, v);
    }
    ws.node_times.set(i, v);
    ws.node_via_transit.set(i, via_transit);
}

/// Relaxes one directed use of a walking edge: if the tail is labeled and
/// walking the edge improves the head's label within the horizon, the head
/// is lowered and inherits the tail's transit flag.
fn relax_walk_dir(
    ws: &mut QueryWorkspace,
    u: usize,
    v: usize,
    wt: u64,
    config: &Configuration,
) -> (changed: bool)
    requires
        u < old(ws).node_times@.len(),
        v < old(ws).node_times@.len(),
        old(ws).node_via_transit@.len() == old(ws).node_times@.len(),
        label_bounds(*old(ws), *config),
        config.wf(),
        wt <= 1_000_000_000_000,
    ensures
        final(ws).node_times@.len() == old(ws).node_times@.len(),
        final(ws).node_via_transit@.len() == old(ws).node_via_transit@.len(),
        label_bounds(*final(ws), *config),
        forall|i: int|
            0 <= i < final(ws).node_times@.len() ==> #[trigger] final(ws).node_times@[i] <= old(ws).node_times@[i],
        sum_times(final(ws).node_times@) <= sum_times(old(ws).node_times@),
        changed ==> sum_times(final(ws).node_times@) < sum_times(old(ws).node_times@),
        !changed ==> final(ws).node_times@ == old(ws).node_times@ && final(ws).node_via_transit@ == old(ws).node_via_transit@,
        !changed ==> walk_dir_stable(final(ws).node_times@, *config, u as int, v as int, wt as int),
{
    let tu = ws.node_times[u];
    if tu == UNREACHED {
        return false;
    }
    let horizon64: u64 = config.start_time as u64 + config.duration_secs as u64;
    let cand64: u64 = tu as u64 + wt;
    if cand64 <= horizon64 {
        let cand: u32 = cand64 as u32;
        if cand < ws.node_times[v] {
            let via = ws.node_via_transit[u];
            relax_label(ws, v, cand, via);
            return true;
        }
    }
    false
}

/// One full relaxation pass over every walking edge, in both directions.
pub fn relax_walk_pass(
    template: &RoadGraphTemplate,
    ws: &mut QueryWorkspace,
    config: &Configuration,
) -> (changed: bool)
    requires
        template.wf(),
        old(ws).wf(*template),
        label_bounds(*old(ws), *config),
        config.wf(),
    ensures
        final(ws).wf(*template),
        label_bounds(*final(ws), *config),
        forall|i: int|
            0 <= i < final(ws).node_times@.len() ==> #[trigger] final(ws).node_times@[i] <= old(ws).node_times@[i],
        sum_times(final(ws).node_times@) <= sum_times(old(ws).node_times@),
        changed ==> sum_times(final(ws).node_times@) < sum_times(old(ws).node_times@),
        !changed ==> final(ws).node_times@ == old(ws).node_times@ && final(ws).node_via_transit@ == old(ws).node_via_transit@,
        !changed ==> walk_stable(*template, final(ws).node_times@, *config),
{
    let ghost orig_times = ws.node_times@;
    let ghost orig_via = ws.node_via_transit@;
    let mut changed: bool = false;
    let mut k: usize = 0;
    while k < template.edges.len()
        invariant
            k <= template.edges@.len(),
            template.wf(),
            config.wf(),
            ws.wf(*template),
            label_bounds(*ws, *config),
            orig_times.len() == ws.node_times@.len(),
            forall|i: int|
                0 <= i < ws.node_times@.len() ==> #[trigger] ws.node_times@[i] <= orig_times[i],
            sum_times(ws.node_times@) <= sum_times(orig_times),
            changed ==> sum_times(ws.node_times@) < sum_times(orig_times),
            !changed ==> ws.node_times@ == orig_times && ws.node_via_transit@ == orig_via,
            !changed ==> forall|j: int|
                0 <= j < k ==> {
                    let e = #[trigger] template.edges@[j];
                    let wt = e.dist_mm as int / config.walk.speed_mm_s as int;
                    &&& walk_dir_stable(ws.node_times@, *config, e.a as int, e.b as int, wt)
                    &&& walk_dir_stable(ws.node_times@, *config, e.b as int, e.a as int, wt)
                },
        decreases template.edges@.len() - k,
    {
        let e = template.edges[k];
        let wt: u64 = e.dist_mm / config.walk.speed_mm_s;
        proof {
            assert(wt <= e.dist_mm) by (nonlinear_arith)
                requires
                    wt == e.dist_mm as int / config.walk.speed_mm_s as int,
                    config.walk.speed_mm_s >= 1,
            ;
        }
        let c1 = relax_walk_dir(ws, e.a, e.b, wt, config);
        let c2 = relax_walk_dir(ws, e.b, e.a, wt, config);
        changed = changed || c1 || c2;
        k = k + 1;
    }
    changed
}

/// Walking time in whole seconds for a distance at a positive speed.
fn walk_secs(dist_mm: u64, speed_mm_s: u64) -> (r: u64)
    requires
        speed_mm_s >= 1,
    ensures
        r == dist_mm as int / speed_mm_s as int,
        r <= dist_mm,
{
    let r: u64 = dist_mm / speed_mm_s;
    proof {
        assert(r <= dist_mm) by (nonlinear_arith)
            requires
                r == dist_mm as int / speed_mm_s as int,
                speed_mm_s >= 1,
        ;
    }
    r
}

/// Within one well-formed trip, a later call never arrives before an earlier
/// call departs.
pub proof fn lemma_trip_chronological(
    t: crate::schedule::Trip,
    n_routes: int,
    n_services: int,
    n_stops: int,
    a: int,
    b: int,
)
    requires
        crate::schedule::trip_wf(t, n_routes, n_services, n_stops),
        0 <= a < b < t.stop_times@.len(),
    ensures
        t.stop_times@[b].arrival >= t.stop_times@[a].departure,
    decreases b - a,
{
    if b > a + 1 {
        lemma_trip_chronological(t, n_routes, n_services, n_stops, a, b - 1);
    }
}

/// Seeds the origin: every node within the configured origin radius of the
/// projected origin coordinate receives a walking label priced at the
/// straight-line speed, capped by the horizon; everything else stays
/// unreached.
fn seed_origin(template: &RoadGraphTemplate, ws: &mut QueryWorkspace, config: &Configuration)
    requires
        template.wf(),
        old(ws).wf(*template),
        old(ws).all_unreached(),
        config.wf(),
    ensures
        final(ws).wf(*template),
        label_bounds(*final(ws), *config),
        forall|i: int|
            0 <= i < final(ws).node_times@.len() ==> #[trigger] origin_seeded(
                *template,
                *config,
                final(ws).node_times@,
                i,
            ),
{
    let (ox, oy) = template.proj.project(config.location);
    if ox < -2 * MAX_COORD_MM || ox > 2 * MAX_COORD_MM || oy < -2 * MAX_COORD_MM || oy > 2
        * MAX_COORD_MM {
        return ;
    }
    proof {
        assert(config.walk.origin_radius_mm * config.walk.origin_radius_mm
            <= 1_000_000_000_000_000_000) by (nonlinear_arith)
            requires
                config.walk.origin_radius_mm <= 1_000_000_000,
        ;
    }
    let r2: u64 = config.walk.origin_radius_mm * config.walk.origin_radius_mm;
    let horizon64: u64 = config.start_time as u64 + config.duration_secs as u64;
    let mut i: usize = 0;
    while i < template.nodes.len()
        invariant
            i <= template.nodes@.len(),
            template.wf(),
            config.wf(),
            ws.wf(*template),
            label_bounds(*ws, *config),
            horizon64 == config.spec_horizon(),
            r2 == config.walk.origin_radius_mm * config.walk.origin_radius_mm,
            -2 * MAX_COORD_MM <= ox <= 2 * MAX_COORD_MM,
            -2 * MAX_COORD_MM <= oy <= 2 * MAX_COORD_MM,
            (ox as int, oy as int) == template.proj.spec_project(config.location),
            forall|j: int|
                i <= j < ws.node_times@.len() ==> #[trigger] ws.node_times@[j] == UNREACHED,
            forall|j: int|
                0 <= j < i ==> #[trigger] origin_seeded(*template, *config, ws.node_times@, j),
        decreases template.nodes@.len() - i,
    {
        let d2 = squared_dist(ox, oy, template.nodes[i]);
        if d2 <= r2 {
            let sq = isqrt(d2);
            let w = walk_secs(sq, config.walk.straight_speed_mm_s);
            let cand64: u64 = config.start_time as u64 + w;
            if cand64 <= horizon64 {
                let cand: u32 = cand64 as u32;
                let ghost prev = ws.node_times@;
                if cand < ws.node_times[i] {
                    ws.node_times.set(i, cand);
                    ws.node_via_transit.set(i, false);
                }
                proof {
                    assert(w == origin_walk_secs(*template, *config, i as int));
                    assert forall|j: int| 0 <= j <= i implies #[trigger] origin_seeded(
                        *template,
                        *config,
                        ws.node_times@,
                        j,
                    ) by {
                        if j < i {
                            assert(origin_seeded(*template, *config, prev, j));
                            assert(ws.node_times@[j] == prev[j]);
                        } else {
                            assert(ws.node_times@[i as int] == cand);
                        }
                    }
                }
            } else {
                proof {
                    // walking does not fit the duration, so the node's
                    // squared distance exceeds the covered reach
                    let sp = config.walk.straight_speed_mm_s as int;
                    let reach = config.duration_secs * sp;
                    assert(w > config.duration_secs);
                    assert(sq >= w * sp) by (nonlinear_arith)
                        requires
                            w == sq as int / sp,
                            sp >= 1,
                    ;
                    assert(w * sp >= (config.duration_secs + 1) * sp) by (nonlinear_arith)
                        requires
                            w >= config.duration_secs + 1,
                            sp >= 1,
                    ;
                    assert((config.duration_secs + 1) * sp > config.duration_secs * sp)
                        by (nonlinear_arith)
                        requires
                            sp >= 1,
                    ;
                    assert(sq > reach);
                    assert(d2 >= sq * sq);
                    assert(sq * sq > reach * reach) by (nonlinear_arith)
                        requires
                            sq > reach >= 0,
                    ;
                    assert(!origin_covered(*template, *config, i as int));
                }
            }
        } else {
            proof {
                assert(!origin_covered(*template, *config, i as int));
            }
        }
        i = i + 1;
    }
}

/// Evolution of the workspace across one relaxation pass: lengths kept,
/// labels pointwise non-increasing, the label sum strictly lower when
/// anything changed, and everything untouched when nothing did.
pub open spec fn ws_advanced(
    prev_times: Seq<u32>,
    prev_via: Seq<bool>,
    ws: QueryWorkspace,
    changed: bool,
) -> bool {
    &&& ws.node_times@.len() == prev_times.len()
    &&& ws.node_via_transit@.len() == prev_via.len()
    &&& forall|i: int|
        0 <= i < ws.node_times@.len() ==> #[trigger] ws.node_times@[i] <= prev_times[i]
    &&& sum_times(ws.node_times@) <= sum_times(prev_times)
    &&& (changed ==> sum_times(ws.node_times@) < sum_times(prev_times))
    &&& (!changed ==> ws.node_times@ == prev_times && ws.node_via_transit@ == prev_via)
}

/// Evolution of the arena across one relaxation pass: append-only, and every
/// appended record is valid provenance for this run.
pub open spec fn arena_extended(
    store: ScheduleStore,
    config: Configuration,
    prev: Seq<BusPickupInfo>,
    cur: Seq<BusPickupInfo>,
) -> bool {
    &&& cur.len() >= prev.len()
    &&& forall|i: int| 0 <= i < prev.len() ==> cur[i] == prev[i]
    &&& forall|i: int| prev.len() <= i < cur.len() ==> record_ok(store, config, #[trigger] cur[i])
}

/// One full transit pass: for every linked stop whose node is labeled, board
/// every admitted departure at or after the node's arrival (plus the
/// transfer rule), ride it, and relax the linked node of every later call,
/// charging the exit penalty and the walk back; every improvement appends
/// one provenance record to the arena.
pub fn relax_transit_pass(
    store: &ScheduleStore,
    index: &SpatialStopIndex,
    template: &RoadGraphTemplate,
    links: &StopLinks,
    ws: &mut QueryWorkspace,
    arena: &mut TripsArena,
    config: &Configuration,
) -> (changed: bool)
    requires
        store.wf(),
        index.wf(*store),
        template.wf(),
        links.wf(*store, *template),
        old(ws).wf(*template),
        label_bounds(*old(ws), *config),
        config.wf(),
    ensures
        final(ws).wf(*template),
        label_bounds(*final(ws), *config),
        ws_advanced(old(ws).node_times@, old(ws).node_via_transit@, *final(ws), changed),
        arena_extended(*store, *config, old(arena).boardings@, final(arena).boardings@),
        !changed ==> final(arena).boardings@ == old(arena).boardings@,
        !changed ==> transit_stable(
            *store,
            *index,
            *links,
            final(ws).node_times@,
            final(ws).node_via_transit@,
            *config,
        ),
        config.duration_secs == 0 ==> final(arena).boardings@ == old(arena).boardings@,
{
    let ghost orig_times = ws.node_times@;
    let ghost orig_via = ws.node_via_transit@;
    let ghost orig_recs = arena.boardings@;
    let horizon64: u64 = config.start_time as u64 + config.duration_secs as u64;
    let horizon32: u32 = config.start_time + config.duration_secs;
    let mut changed: bool = false;
    let mut s: usize = 0;
    while s < links.links.len()
        invariant
            s <= links.links@.len(),
            store.wf(),
            index.wf(*store),
            template.wf(),
            links.wf(*store, *template),
            config.wf(),
            ws.wf(*template),
            label_bounds(*ws, *config),
            horizon64 == config.spec_horizon(),
            horizon32 == config.spec_horizon(),
            ws_advanced(orig_times, orig_via, *ws, changed),
            arena_extended(*store, *config, orig_recs, arena.boardings@),
            !changed ==> arena.boardings@ == orig_recs,
            !changed ==> forall|sp: int|
                0 <= sp < s ==> #[trigger] stop_stable(
                    *store,
                    *index,
                    *links,
                    orig_times,
                    orig_via,
                    *config,
                    sp,
                ),
            config.duration_secs == 0 ==> arena.boardings@ == orig_recs,
        decreases links.links@.len() - s,
    {
        let link_opt = links.links[s];
        if let Some(link) = link_opt {
            let tn = ws.node_times[link.node];
            if tn != UNREACHED {
                let wt_stop = walk_secs(isqrt(link.d2), config.walk.speed_mm_s);
                let via = ws.node_via_transit[link.node];
                let penalty64: u64 = if via {
                    MIN_TRANSFER_SECONDS as u64 + config.transfer_cost as u64
                } else {
                    0
                };
                let board64: u64 = tn as u64 + wt_stop + penalty64;
                proof {
                    if !changed {
                        assert(board64 == stop_board_time(
                            *links,
                            orig_times,
                            orig_via,
                            *config,
                            s as int,
                        ));
                    }
                }
                if board64 <= horizon64 {
                    let board32: u32 = board64 as u32;
                    let col = &index.per_stop[s];
                    let pos = first_departure_at_or_after(col, board32);
                    let mut j: usize = pos;
                    let mut past: bool = false;
                    proof {
                        if !changed {
                            assert forall|jp: int|
                                0 <= jp < pos implies #[trigger] entry_stable(
                                *store,
                                *index,
                                *links,
                                orig_times,
                                orig_via,
                                *config,
                                s as int,
                                jp,
                            ) by {
                                assert(col@[jp].departure < board32);
                            }
                        }
                    }
                    while j < col.len() && !past
                        invariant
                            pos <= j <= col@.len(),
                            store.wf(),
                            index.wf(*store),
                            template.wf(),
                            links.wf(*store, *template),
                            config.wf(),
                            ws.wf(*template),
                            label_bounds(*ws, *config),
                            horizon64 == config.spec_horizon(),
                            horizon32 == config.spec_horizon(),
                            s < links.links@.len(),
                            col == index.per_stop@[s as int],
                            forall|q: int|
                                pos <= q < col@.len() ==> (#[trigger] col@[q]).departure
                                    >= board32,
                            board32 >= config.start_time,
                            ws_advanced(orig_times, orig_via, *ws, changed),
                            arena_extended(*store, *config, orig_recs, arena.boardings@),
                            !changed ==> arena.boardings@ == orig_recs,
                            !changed ==> board32 == stop_board_time(
                                *links,
                                orig_times,
                                orig_via,
                                *config,
                                s as int,
                            ),
                            !changed ==> forall|sp: int|
                                0 <= sp < s ==> #[trigger] stop_stable(
                                    *store,
                                    *index,
                                    *links,
                                    orig_times,
                                    orig_via,
                                    *config,
                                    sp,
                                ),
                            !changed ==> forall|jp: int|
                                0 <= jp < j ==> #[trigger] entry_stable(
                                    *store,
                                    *index,
                                    *links,
                                    orig_times,
                                    orig_via,
                                    *config,
                                    s as int,
                                    jp,
                                ),
                            past ==> j < col@.len() && col@[j as int].departure > horizon32,
                            config.duration_secs == 0 ==> arena.boardings@ == orig_recs,
                        decreases col@.len() - j, 1int - (if past { 1int } else { 0int }),
                    {
                        let e = col[j];
                        if e.departure > horizon32 {
                            past = true;
                        } else {
                            let trip = &store.trips[e.trip];
                            let route = &store.routes[trip.route];
                            let allowed = config.agency_allowed(store.agencies[route.agency].id)
                                && config.mode_allowed(route.mode)
                                && store.services[trip.service].runs_on(config.weekday);
                            if allowed {
                                proof {
                                    assert(trip_allowed(*store, *config, e.trip as int));
                                }
                                let mut k2: usize = e.call + 1;
                                while k2 < trip.stop_times.len()
                                    invariant
                                        e.call < k2 <= trip.stop_times@.len(),
                                        store.wf(),
                                        index.wf(*store),
                                        template.wf(),
                                        links.wf(*store, *template),
                                        config.wf(),
                                        ws.wf(*template),
                                        label_bounds(*ws, *config),
                                        horizon64 == config.spec_horizon(),
                                        horizon32 == config.spec_horizon(),
                                        s < links.links@.len(),
                                        trip == &store.trips@[e.trip as int],
                                        e.trip < store.trips@.len(),
                                        e.call < trip.stop_times@.len(),
                                        e.departure == trip.stop_times@[e.call as int].departure,
                                        e.departure >= board32,
                                        e.departure <= horizon32,
                                        board32 >= config.start_time,
                                        trip_allowed(*store, *config, e.trip as int),
                                        ws_advanced(orig_times, orig_via, *ws, changed),
                                        arena_extended(
                                            *store,
                                            *config,
                                            orig_recs,
                                            arena.boardings@,
                                        ),
                                        !changed ==> arena.boardings@ == orig_recs,
                                        !changed ==> forall|kp: int|
                                            e.call < kp < k2 ==> #[trigger] call_stable(
                                                *store,
                                                *links,
                                                orig_times,
                                                *config,
                                                e.trip as int,
                                                kp,
                                            ),
                                        !changed ==> forall|sp: int|
                                            0 <= sp < s ==> #[trigger] stop_stable(
                                                *store,
                                                *index,
                                                *links,
                                                orig_times,
                                                orig_via,
                                                *config,
                                                sp,
                                            ),
                                        !changed ==> forall|jp: int|
                                            0 <= jp < j ==> #[trigger] entry_stable(
                                                *store,
                                                *index,
                                                *links,
                                                orig_times,
                                                orig_via,
                                                *config,
                                                s as int,
                                                jp,
                                            ),
                                        !changed ==> board32 == stop_board_time(
                                            *links,
                                            orig_times,
                                            orig_via,
                                            *config,
                                            s as int,
                                        ),
                                        config.duration_secs == 0 ==> arena.boardings@
                                            == orig_recs,
                                    decreases trip.stop_times@.len() - k2,
                                {
                                    let st2 = trip.stop_times[k2];
                                    if let Some(l2) = links.links[st2.stop] {
                                        let wt_back = walk_secs(
                                            isqrt(l2.d2),
                                            config.walk.speed_mm_s,
                                        );
                                        let cand64: u64 = st2.arrival as u64
                                            + TRANSIT_EXIT_PENALTY as u64 + wt_back;
                                        proof {
                                            assert(links.links@[st2.stop as int] is Some);
                                        }
                                        if cand64 <= horizon64 {
                                            let cand: u32 = cand64 as u32;
                                            if cand < ws.node_times[l2.node] {
                                                proof {
                                                    lemma_trip_chronological(
                                                        store.trips@[e.trip as int],
                                                        store.routes@.len() as int,
                                                        store.services@.len() as int,
                                                        store.stops@.len() as int,
                                                        e.call as int,
                                                        k2 as int,
                                                    );
                                                    assert(st2.arrival >= e.departure);
                                                    assert(cand >= config.start_time
                                                        + TRANSIT_EXIT_PENALTY);
                                                    assert(config.start_time <= store.trips@[
                                                        e.trip as int].stop_times@[e.call
                                                        as int].departure
                                                        <= config.spec_horizon());
                                                }
                                                relax_label(ws, l2.node, cand, true);
                                                arena.append(
                                                    BusPickupInfo {
                                                        timestamp: cand,
                                                        stop_sequence_no: k2 as u16,
                                                        trip_id: e.trip,
                                                    },
                                                );
                                                changed = true;
                                            } else {
                                                proof {
                                                    if !changed {
                                                        assert(call_stable(
                                                            *store,
                                                            *links,
                                                            orig_times,
                                                            *config,
                                                            e.trip as int,
                                                            k2 as int,
                                                        ));
                                                    }
                                                }
                                            }
                                        } else {
                                            proof {
                                                if !changed {
                                                    assert(call_stable(
                                                        *store,
                                                        *links,
                                                        orig_times,
                                                        *config,
                                                        e.trip as int,
                                                        k2 as int,
                                                    ));
                                                }
                                            }
                                        }
                                    }
                                    k2 = k2 + 1;
                                }
                                proof {
                                    if !changed {
                                        assert(entry_stable(
                                            *store,
                                            *index,
                                            *links,
                                            orig_times,
                                            orig_via,
                                            *config,
                                            s as int,
                                            j as int,
                                        ));
                                    }
                                }
                            } else {
                                proof {
                                    if !changed {
                                        assert(!trip_allowed(*store, *config, e.trip as int));
                                        assert(entry_stable(
                                            *store,
                                            *index,
                                            *links,
                                            orig_times,
                                            orig_via,
                                            *config,
                                            s as int,
                                            j as int,
                                        ));
                                    }
                                }
                            }
                            j = j + 1;
                        }
                    }
                    proof {
                        if !changed {
                            assert forall|jp: int|
                                0 <= jp < col@.len() implies #[trigger] entry_stable(
                                *store,
                                *index,
                                *links,
                                orig_times,
                                orig_via,
                                *config,
                                s as int,
                                jp,
                            ) by {
                                if jp >= j {
                                    assert(past);
                                    assert(col@[jp].departure >= col@[j as int].departure);
                                }
                            }
                            assert(stop_stable(
                                *store,
                                *index,
                                *links,
                                orig_times,
                                orig_via,
                                *config,
                                s as int,
                            ));
                        }
                    }
                } else {
                    proof {
                        if !changed {
                            assert(stop_stable(
                                *store,
                                *index,
                                *links,
                                orig_times,
                                orig_via,
                                *config,
                                s as int,
                            ));
                        }
                    }
                }
            } else {
                proof {
                    if !changed {
                        assert(orig_times[links.links@[s as int]->0.node as int] == UNREACHED);
                        assert(stop_stable(
                            *store,
                            *index,
                            *links,
                            orig_times,
                            orig_via,
                            *config,
                            s as int,
                        ));
                    }
                }
            }
        } else {
            proof {
                if !changed {
                    assert(links.links@[s as int] is None);
                    assert(stop_stable(
                        *store,
                        *index,
                        *links,
                        orig_times,
                        orig_via,
                        *config,
                        s as int,
                    ));
                }
            }
        }
        s = s + 1;
    }
    changed
}

/// The label-setting search: seeds walking labels from the origin, then
/// alternates walking and transit relaxation passes until a fixed point.
/// Fails (leaving workspace and arena untouched) exactly when the query's
/// filters eliminate all schedule data; on success every label lies within
/// `[start_time, start_time + duration_secs]`, every arena record references
/// an admitted trip, and a zero-duration query books no boarding at all.
pub fn generate_reach_times(
    store: &ScheduleStore,
    index: &SpatialStopIndex,
    template: &RoadGraphTemplate,
    links: &StopLinks,
    ws: &mut QueryWorkspace,
    arena: &mut TripsArena,
    config: &Configuration,
) -> (r: Result<(), QueryError>)
    requires
        store.wf(),
        index.wf(*store),
        template.wf(),
        links.wf(*store, *template),
        old(ws).wf(*template),
        old(ws).all_unreached(),
        old(arena).boardings@.len() == 0,
        config.wf(),
    ensures
        final(ws).wf(*template),
        r is Err <==> spec_no_matching(*store, *config),
        r is Err ==> r->Err_0 == QueryError::NoMatchingAgenciesOrModes,
        r is Err ==> final(ws).node_times@ == old(ws).node_times@ && final(arena).boardings@
            == old(arena).boardings@,
        label_bounds(*final(ws), *config),
        r is Ok ==> forall|i: int|
            0 <= i < final(ws).node_times@.len() ==> #[trigger] origin_seeded(
                *template,
                *config,
                final(ws).node_times@,
                i,
            ),
        r is Ok ==> walk_stable(*template, final(ws).node_times@, *config),
        r is Ok ==> transit_stable(
            *store,
            *index,
            *links,
            final(ws).node_times@,
            final(ws).node_via_transit@,
            *config,
        ),
        forall|i: int|
            0 <= i < final(arena).boardings@.len() ==> record_ok(
                *store,
                *config,
                #[trigger] final(arena).boardings@[i],
            ),
        config.duration_secs == 0 ==> final(arena).boardings@.len() == 0,
{
    if filters_eliminate_all(store, config) {
        return Err(QueryError::NoMatchingAgenciesOrModes);
    }
    seed_origin(template, ws, config);
    loop
        invariant
            store.wf(),
            index.wf(*store),
            template.wf(),
            links.wf(*store, *template),
            config.wf(),
            ws.wf(*template),
            label_bounds(*ws, *config),
            forall|i: int|
                0 <= i < ws.node_times@.len() ==> #[trigger] origin_seeded(
                    *template,
                    *config,
                    ws.node_times@,
                    i,
                ),
            forall|i: int|
                0 <= i < arena.boardings@.len() ==> record_ok(
                    *store,
                    *config,
                    #[trigger] arena.boardings@[i],
                ),
            config.duration_secs == 0 ==> arena.boardings@.len() == 0,
        ensures
            ws.wf(*template),
            label_bounds(*ws, *config),
            walk_stable(*template, ws.node_times@, *config),
            transit_stable(
                *store,
                *index,
                *links,
                ws.node_times@,
                ws.node_via_transit@,
                *config,
            ),
            forall|i: int|
                0 <= i < ws.node_times@.len() ==> #[trigger] origin_seeded(
                    *template,
                    *config,
                    ws.node_times@,
                    i,
                ),
            forall|i: int|
                0 <= i < arena.boardings@.len() ==> record_ok(
                    *store,
                    *config,
                    #[trigger] arena.boardings@[i],
                ),
            config.duration_secs == 0 ==> arena.boardings@.len() == 0,
        decreases sum_times(ws.node_times@),
    {
        let ghost entry_times = ws.node_times@;
        let c1 = relax_walk_pass(template, ws, config);
        let ghost mid_times = ws.node_times@;
        let c2 = relax_transit_pass(store, index, template, links, ws, arena, config);
        proof {
            assert forall|i: int| 0 <= i < ws.node_times@.len() implies #[trigger] origin_seeded(
                *template,
                *config,
                ws.node_times@,
                i,
            ) by {
                assert(origin_seeded(*template, *config, entry_times, i));
                assert(mid_times[i] <= entry_times[i]);
                assert(ws.node_times@[i] <= mid_times[i]);
            }
        }
        if !(c1 || c2) {
            break ;
        }
        proof {
            lemma_sum_nonneg(ws.node_times@);
        }
    }
    Ok(())
}

/// Bounded horizon: a finalized arrival table whose node labels respect the
/// run's label bounds has every node and edge entry either unreached or
/// within `[start_time, start_time + duration_secs]`.
pub proof fn lemma_bounded_horizon(
    node_times: Seq<u32>,
    edges: Seq<crate::road_structure::RoadEdge>,
    edge_times: Seq<u32>,
    config: Configuration,
)
    requires
        forall|i: int|
            0 <= i < node_times.len() ==> (#[trigger] node_times[i] == UNREACHED || (
            config.start_time <= node_times[i] && node_times[i] <= config.spec_horizon())),
        edge_times.len() == edges.len(),
        forall|i: int|
            0 <= i < edges.len() ==> (#[trigger] edges[i]).a < node_times.len() && edges[i].b
                < node_times.len(),
        forall|i: int|
            0 <= i < edges.len() ==> #[trigger] edge_times[i] == spec_edge_time(
                node_times,
                edges[i],
            ),
    ensures
        forall|i: int|
            0 <= i < edge_times.len() ==> (#[trigger] edge_times[i] == UNREACHED || (
            config.start_time <= edge_times[i] && edge_times[i] <= config.spec_horizon())),
{
    assert forall|i: int|
        0 <= i < edge_times.len() implies (#[trigger] edge_times[i] == UNREACHED || (
    config.start_time <= edge_times[i] && edge_times[i] <= config.spec_horizon())) by {
        let e = edges[i];
        assert(node_times[e.a as int] == UNREACHED || (config.start_time <= node_times[e.a as int]
            && node_times[e.a as int] <= config.spec_horizon()));
        assert(node_times[e.b as int] == UNREACHED || (config.start_time <= node_times[e.b as int]
            && node_times[e.b as int] <= config.spec_horizon()));
    }
}

/// Runs one query end to end against one city's immutable datasets: checks
/// that the origin falls inside the city's coverage, runs the search, and
/// finalizes the arrival tables.  `CityNotFound` is returned exactly when
/// the origin lies outside the template's city; `NoMatchingAgenciesOrModes`
/// exactly when the coverage test passes but the filters eliminate all
/// schedule data.  On success every entry of both tables is unreached or
/// within the horizon, and the arena holds only admitted provenance records.
pub fn run_query(
    store: &ScheduleStore,
    index: &SpatialStopIndex,
    template: &RoadGraphTemplate,
    links: &StopLinks,
    ws: &mut QueryWorkspace,
    arena: &mut TripsArena,
    config: &Configuration,
) -> (r: Result<ReachResult, QueryError>)
    requires
        store.wf(),
        index.wf(*store),
        template.wf(),
        links.wf(*store, *template),
        old(ws).wf(*template),
        old(ws).all_unreached(),
        old(arena).boardings@.len() == 0,
        config.wf(),
    ensures
        r == Err::<ReachResult, QueryError>(QueryError::CityNotFound) <==> !city_contains(
            template.city,
            config.location,
        ),
        city_contains(template.city, config.location) ==> ((r
            == Err::<ReachResult, QueryError>(QueryError::NoMatchingAgenciesOrModes))
            <==> spec_no_matching(*store, *config)),
        r is Ok ==> {
            let out = r->Ok_0;
            &&& out.node_times@ == final(ws).node_times@
            &&& out.node_times@.len() == template.nodes@.len()
            &&& out.edge_times@.len() == template.edges@.len()
            &&& forall|i: int|
                0 <= i < template.edges@.len() ==> #[trigger] out.edge_times@[i]
                    == spec_edge_time(out.node_times@, template.edges@[i])
            &&& forall|i: int|
                0 <= i < out.node_times@.len() ==> (#[trigger] out.node_times@[i] == UNREACHED
                    || (config.start_time <= out.node_times@[i] && out.node_times@[i]
                    <= config.spec_horizon()))
            &&& forall|i: int|
                0 <= i < out.edge_times@.len() ==> (#[trigger] out.edge_times@[i] == UNREACHED
                    || (config.start_time <= out.edge_times@[i] && out.edge_times@[i]
                    <= config.spec_horizon()))
            &&& forall|i: int|
                0 <= i < out.node_times@.len() ==> #[trigger] origin_seeded(
                    *template,
                    *config,
                    out.node_times@,
                    i,
                )
            &&& walk_stable(*template, out.node_times@, *config)
            &&& transit_stable(
                *store,
                *index,
                *links,
                final(ws).node_times@,
                final(ws).node_via_transit@,
                *config,
            )
        },
        forall|i: int|
            0 <= i < final(arena).boardings@.len() ==> record_ok(
                *store,
                *config,
                #[trigger] final(arena).boardings@[i],
            ),
        r is Ok && config.duration_secs == 0 ==> final(arena).boardings@.len() == 0,
{
    if !crate::agencies::in_city(template.city, config.location) {
        return Err(QueryError::CityNotFound);
    }
    match generate_reach_times(store, index, template, links, ws, arena, config) {
        Err(e) => Err(e),
        Ok(()) => {
            let out = ws.finalize(template);
            proof {
                lemma_bounded_horizon(out.node_times@, template.edges@, out.edge_times@, *config);
            }
            Ok(out)
        },
    }
}

} // verus!
