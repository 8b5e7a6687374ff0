//! The immutable per-city walking graph and the reusable per-query scratch
//! state aligned to it.
//!
//! The template holds planar node positions (millimetres in a city-local
//! equirectangular frame), undirected edges with geometric lengths, and the
//! linear projection that maps a coordinate into the same frame.  A
//! [`QueryWorkspace`] is allocated once per template and reset in place
//! between queries; [`finalize`](QueryWorkspace::finalize) turns its arrival
//! labels into a [`ReachResult`].

use vstd::prelude::*;
use vstd::pervasive::VecAdditionalExecFns;
use crate::agencies::{City, LatLng};
use crate::UNREACHED;

verus! {

/// Largest magnitude of a planar node coordinate: 1000 km from the city
/// origin, so that every squared distance fits comfortably in `u64`.
pub const MAX_COORD_MM: i64 = 1_000_000_000;

/// Largest geometric edge length accepted by `build`.
pub const MAX_EDGE_MM: u64 = 1_000_000_000;

/// Linear (equirectangular) projection from microdegrees to city-local
/// millimetres: `x = (lon - lon0) * mm_per_lon`, `y = (lat - lat0) *
/// mm_per_lat`.  The two scale factors come with the external geospatial
/// dataset; `mm_per_lat` is about 111 and `mm_per_lon` about `111 *
/// cos(latitude)` for a city-sized frame.
#[derive(Clone, Copy, Debug, PartialEq, Eq, Structural)]
pub struct Projection {
    pub lat0_microdeg: i64,
    pub lon0_microdeg: i64,
    pub mm_per_lat_microdeg: i64,
    pub mm_per_lon_microdeg: i64,
}

impl Projection {
    /// Scale factors are positive and small; a whole globe of microdegrees
    /// then projects within `i64` without overflow.
    pub open spec fn wf(self) -> bool {
        &&& -180_000_000 <= self.lat0_microdeg <= 180_000_000
        &&& -180_000_000 <= self.lon0_microdeg <= 180_000_000
        &&& 0 < self.mm_per_lat_microdeg <= 200
        &&& 0 < self.mm_per_lon_microdeg <= 200
    }

    /// The projected planar point of `loc`, in millimetres.
    pub open spec fn spec_project(self, loc: LatLng) -> (int, int) {
        (
            (loc.lon_microdeg - self.lon0_microdeg) * self.mm_per_lon_microdeg,
            (loc.lat_microdeg - self.lat0_microdeg) * self.mm_per_lat_microdeg,
        )
    }

    /// Projects a coordinate into the city-local planar frame.
    pub fn project(&self, loc: LatLng) -> (r: (i64, i64))
        requires
            self.wf(),
            loc.wf(),
        ensures
            (r.0 as int, r.1 as int) == self.spec_project(loc),
    {
        proof {
            assert((loc.lon_microdeg - self.lon0_microdeg) * self.mm_per_lon_microdeg
                <= 360_000_000 * 200 && (loc.lon_microdeg - self.lon0_microdeg)
                * self.mm_per_lon_microdeg >= -360_000_000 * 200) by (nonlinear_arith)
                requires
                    -360_000_000 <= loc.lon_microdeg - self.lon0_microdeg <= 360_000_000,
                    0 < self.mm_per_lon_microdeg <= 200,
            ;
            assert((loc.lat_microdeg - self.lat0_microdeg) * self.mm_per_lat_microdeg
                <= 360_000_000 * 200 && (loc.lat_microdeg - self.lat0_microdeg)
                * self.mm_per_lat_microdeg >= -360_000_000 * 200) by (nonlinear_arith)
                requires
                    -360_000_000 <= loc.lat_microdeg - self.lat0_microdeg <= 360_000_000,
                    0 < self.mm_per_lat_microdeg <= 200,
            ;
        }
        let x: i64 = (loc.lon_microdeg - self.lon0_microdeg) * self.mm_per_lon_microdeg;
        let y: i64 = (loc.lat_microdeg - self.lat0_microdeg) * self.mm_per_lat_microdeg;
        (x, y)
    }
}

/// One walking-graph node at a planar position.
#[derive(Clone, Copy, Debug, PartialEq, Eq, Structural)]
pub struct RoadNode {
    pub x_mm: i64,
    pub y_mm: i64,
}

/// One undirected walking edge with its geometric length.
#[derive(Clone, Copy, Debug, PartialEq, Eq, Structural)]
pub struct RoadEdge {
    pub a: usize,
    pub b: usize,
    pub dist_mm: u64,
}

/// Raw "nodes"/"edges" layers of the external geospatial dataset, as plain
/// values; the service layer reads the dataset and hands this in.
#[derive(Clone, Debug)]
pub struct RawRoadData {
    pub proj: Projection,
    pub nodes: Vec<RoadNode>,
    pub edges: Vec<RoadEdge>,
}

/// An externally loaded dataset the template accepts: a sane projection,
/// node coordinates inside the planar frame, every edge between real nodes
/// and no longer than the frame allows.
pub open spec fn raw_in_range(raw: RawRoadData) -> bool {
    &&& raw.proj.wf()
    &&& forall|i: int|
        0 <= i < raw.nodes@.len() ==> {
            &&& -MAX_COORD_MM <= (#[trigger] raw.nodes@[i]).x_mm <= MAX_COORD_MM
            &&& -MAX_COORD_MM <= raw.nodes@[i].y_mm <= MAX_COORD_MM
        }
    &&& forall|i: int|
        0 <= i < raw.edges@.len() ==> {
            &&& (#[trigger] raw.edges@[i]).a < raw.nodes@.len()
            &&& raw.edges@[i].b < raw.nodes@.len()
            &&& raw.edges@[i].dist_mm <= MAX_EDGE_MM
        }
}

/// Startup failure: the city has no road-graph dataset.
#[derive(Clone, Copy, Debug, PartialEq, Eq, Structural)]
pub struct DataNotFound {
    pub city: City,
}

/// The immutable walking graph of one city; shared read-only by every query.
#[derive(Clone, Debug)]
pub struct RoadGraphTemplate {
    pub city: City,
    pub proj: Projection,
    pub nodes: Vec<RoadNode>,
    pub edges: Vec<RoadEdge>,
}

impl RoadGraphTemplate {
    /// Template invariant: the projection is sane, node coordinates and edge
    /// lengths are bounded, and every edge endpoint is a node index.
    pub open spec fn wf(self) -> bool {
        &&& self.proj.wf()
        &&& forall|i: int|
            0 <= i < self.nodes@.len() ==> {
                &&& -MAX_COORD_MM <= (#[trigger] self.nodes@[i]).x_mm <= MAX_COORD_MM
                &&& -MAX_COORD_MM <= self.nodes@[i].y_mm <= MAX_COORD_MM
            }
        &&& forall|i: int|
            0 <= i < self.edges@.len() ==> {
                &&& (#[trigger] self.edges@[i]).a < self.nodes@.len()
                &&& self.edges@[i].b < self.nodes@.len()
                &&& self.edges@[i].dist_mm <= MAX_EDGE_MM
            }
    }

    /// Builds the immutable template for `city` from the externally loaded
    /// dataset.  Succeeds exactly when a dataset is present and in range
    /// ([`raw_in_range`]): `None`, or a projection, node coordinate, edge
    /// endpoint or edge length out of range, fails with `DataNotFound`.  On
    /// success the returned template is well formed and holds the dataset
    /// unchanged.
    pub fn build(city: City, raw: Option<RawRoadData>) -> (r: Result<
        RoadGraphTemplate,
        DataNotFound,
    >)
        ensures
            r is Ok <==> (raw is Some && raw_in_range(raw->0)),
            r is Err ==> r->Err_0 == (DataNotFound { city }),
            r is Ok ==> {
                &&& r->Ok_0.wf()
                &&& r->Ok_0.city == city
                &&& raw is Some
                &&& r->Ok_0.proj == raw->0.proj
                &&& r->Ok_0.nodes@ == raw->0.nodes@
                &&& r->Ok_0.edges@ == raw->0.edges@
            },
    {
        let data = match raw {
            Some(data) => data,
            None => {
                return Err(DataNotFound { city });
            },
        };
        if !(data.proj.lat0_microdeg >= -180_000_000 && data.proj.lat0_microdeg <= 180_000_000
            && data.proj.lon0_microdeg >= -180_000_000 && data.proj.lon0_microdeg <= 180_000_000
            && data.proj.mm_per_lat_microdeg > 0 && data.proj.mm_per_lat_microdeg <= 200
            && data.proj.mm_per_lon_microdeg > 0 && data.proj.mm_per_lon_microdeg <= 200) {
            return Err(DataNotFound { city });
        }
        let mut i: usize = 0;
        while i < data.nodes.len()
            invariant
                i <= data.nodes@.len(),
                raw == Some(data),
                forall|j: int|
                    0 <= j < i ==> {
                        &&& -MAX_COORD_MM <= (#[trigger] data.nodes@[j]).x_mm <= MAX_COORD_MM
                        &&& -MAX_COORD_MM <= data.nodes@[j].y_mm <= MAX_COORD_MM
                    },
            decreases data.nodes@.len() - i,
        {
            let n = data.nodes[i];
            if !(n.x_mm >= -MAX_COORD_MM && n.x_mm <= MAX_COORD_MM && n.y_mm >= -MAX_COORD_MM
                && n.y_mm <= MAX_COORD_MM) {
                proof {
                    assert(!raw_in_range(data));
                }
                return Err(DataNotFound { city });
            }
            i = i + 1;
        }
        let mut k: usize = 0;
        while k < data.edges.len()
            invariant
                k <= data.edges@.len(),
                raw == Some(data),
                forall|j: int|
                    0 <= j < k ==> {
                        &&& (#[trigger] data.edges@[j]).a < data.nodes@.len()
                        &&& data.edges@[j].b < data.nodes@.len()
                        &&& data.edges@[j].dist_mm <= MAX_EDGE_MM
                    },
            decreases data.edges@.len() - k,
        {
            let e = data.edges[k];
            if !(e.a < data.nodes.len() && e.b < data.nodes.len() && e.dist_mm <= MAX_EDGE_MM) {
                proof {
                    assert(!raw_in_range(data));
                }
                return Err(DataNotFound { city });
            }
            k = k + 1;
        }
        Ok(RoadGraphTemplate { city, proj: data.proj, nodes: data.nodes, edges: data.edges })
    }
}

/// The finalized outcome of one query run: the positional arrival-time tables
/// (seconds since midnight, `UNREACHED` where never reached).
#[derive(Clone, Debug)]
pub struct ReachResult {
    /// Earliest arrival per template node.
    pub node_times: Vec<u32>,
    /// Arrival per template edge: the later of its two endpoints' labels when
    /// both were reached, else `UNREACHED`.
    pub edge_times: Vec<u32>,
}

/// Per-query mutable scratch, index-aligned to one template's nodes.  Owned
/// exclusively by one in-flight query; reset in place, never reallocated.
#[derive(Clone, Debug)]
pub struct QueryWorkspace {
    /// Current best arrival label per node (`UNREACHED` = infinity).
    pub node_times: Vec<u32>,
    /// Whether the node's current best label was produced by alighting from
    /// a trip (used for the transfer-penalty rule when boarding again).
    pub node_via_transit: Vec<bool>,
}

impl QueryWorkspace {
    /// Alignment of the scratch arrays with a template.
    pub open spec fn wf(self, template: RoadGraphTemplate) -> bool {
        &&& self.node_times@.len() == template.nodes@.len()
        &&& self.node_via_transit@.len() == template.nodes@.len()
    }

    /// Every entry is the "unreached" sentinel.
    pub open spec fn all_unreached(self) -> bool {
        forall|i: int| 0 <= i < self.node_times@.len() ==> self.node_times@[i] == UNREACHED
    }

    /// Allocates scratch sized to `template`, with every entry unreached.
    /// Independent of every other workspace; the template is not touched.
    pub fn new_workspace(template: &RoadGraphTemplate) -> (ws: QueryWorkspace)
        ensures
            ws.wf(*template),
            ws.all_unreached(),
    {
        let n = template.nodes.len();
        let mut node_times: Vec<u32> = Vec::new();
        let mut node_via_transit: Vec<bool> = Vec::new();
        let mut i: usize = 0;
        while i < n
            invariant
                i <= n,
                node_times@.len() == i,
                node_via_transit@.len() == i,
                forall|j: int| 0 <= j < i ==> node_times@[j] == UNREACHED,
            decreases n - i,
        {
            node_times.push(UNREACHED);
            node_via_transit.push(false);
            i = i + 1;
        }
        QueryWorkspace { node_times, node_via_transit }
    }

    /// Resets every scratch entry to unreached, in time proportional to the
    /// graph size, keeping the allocation; required before every reuse.
    pub fn clear_data(&mut self)
        ensures
            final(self).node_times@.len() == old(self).node_times@.len(),
            final(self).node_via_transit@.len() == old(self).node_via_transit@.len(),
            final(self).all_unreached(),
    {
        let n = self.node_times.len();
        let mut i: usize = 0;
        while i < n
            invariant
                i <= n,
                self.node_times@.len() == n,
                self.node_via_transit@.len() == old(self).node_via_transit@.len(),
                forall|j: int| 0 <= j < i ==> self.node_times@[j] == UNREACHED,
            decreases n - i,
        {
            self.node_times.set(i, UNREACHED);
            i = i + 1;
        }
    }

    /// Returns the finalized arrival-time tables of a completed run.  The
    /// node table is the workspace's labels unchanged; each edge's entry is
    /// the later of its endpoints' labels when both were reached, else
    /// `UNREACHED`.
    pub fn finalize(&self, template: &RoadGraphTemplate) -> (r: ReachResult)
        requires
            self.wf(*template),
            template.wf(),
        ensures
            r.node_times@ == self.node_times@,
            r.edge_times@.len() == template.edges@.len(),
            forall|i: int|
                0 <= i < template.edges@.len() ==> #[trigger] r.edge_times@[i] == spec_edge_time(
                    self.node_times@,
                    template.edges@[i],
                ),
    {
        let mut edge_times: Vec<u32> = Vec::new();
        let mut i: usize = 0;
        while i < template.edges.len()
            invariant
                i <= template.edges@.len(),
                edge_times@.len() == i,
                self.wf(*template),
                template.wf(),
                forall|j: int|
                    0 <= j < i ==> #[trigger] edge_times@[j] == spec_edge_time(
                        self.node_times@,
                        template.edges@[j],
                    ),
            decreases template.edges@.len() - i,
        {
            let e = template.edges[i];
            let ta = self.node_times[e.a];
            let tb = self.node_times[e.b];
            let t: u32 = if ta == UNREACHED || tb == UNREACHED {
                UNREACHED
            } else if ta >= tb {
                ta
            } else {
                tb
            };
            edge_times.push(t);
            i = i + 1;
        }
        ReachResult { node_times: self.node_times.clone(), edge_times }
    }
}

/// The finalized label of one edge: the later endpoint label when both ends
/// were reached, else `UNREACHED`.
pub open spec fn spec_edge_time(node_times: Seq<u32>, e: RoadEdge) -> u32 {
    let ta = node_times[e.a as int];
    let tb = node_times[e.b as int];
    if ta == UNREACHED || tb == UNREACHED {
        UNREACHED
    } else if ta >= tb {
        ta
    } else {
        tb
    }
}

/// The mathematical integer square root: the unique `r >= 0` with
/// `r * r <= n < (r + 1) * (r + 1)`.
pub closed spec fn spec_isqrt(n: int) -> int {
    choose|r: int| 0 <= r && #[trigger] (r * r) <= n && n < (r + 1) * (r + 1)
}

/// Two integer square roots of the same value coincide.
proof fn lemma_isqrt_unique(n: int, a: int, b: int)
    requires
        0 <= a && a * a <= n && n < (a + 1) * (a + 1),
        0 <= b && b * b <= n && n < (b + 1) * (b + 1),
    ensures
        a == b,
{
    if a < b {
        assert((a + 1) * (a + 1) <= b * b) by (nonlinear_arith)
            requires
                0 <= a + 1 <= b,
        ;
    }
    if b < a {
        assert((b + 1) * (b + 1) <= a * a) by (nonlinear_arith)
            requires
                0 <= b + 1 <= a,
        ;
    }
}

/// Integer square root: the greatest `r` with `r * r <= n`.
pub fn isqrt(n: u64) -> (r: u64)
    ensures
        r * r <= n,
        n < (r + 1) * (r + 1),
        r <= 4_294_967_295,
        r == spec_isqrt(n as int),
{
    let mut lo: u64 = 0;
    let mut hi: u64 = 4_294_967_296;
    proof {
        assert(hi * hi > n) by (nonlinear_arith)
            requires
                hi == 4_294_967_296u64,
                n <= u64::MAX,
        ;
    }
    while lo + 1 < hi
        invariant
            lo < hi,
            hi <= 4_294_967_296,
            lo * lo <= n,
            n < hi * hi,
        decreases hi - lo,
    {
        let mid: u64 = lo + (hi - lo) / 2;
        proof {
            assert(mid < hi);
            assert(mid * mid <= 18_446_744_065_119_617_025u64) by (nonlinear_arith)
                requires
                    mid <= 4_294_967_295u64,
            ;
        }
        if mid * mid <= n {
            lo = mid;
        } else {
            hi = mid;
        }
    }
    proof {
        assert(exists|r: int| 0 <= r && #[trigger] (r * r) <= n && n < (r + 1) * (r + 1)) by {
            assert(0 <= lo as int && (lo as int) * (lo as int) <= n && n < (lo as int + 1) * (lo
                as int + 1));
        }
        lemma_isqrt_unique(n as int, lo as int, spec_isqrt(n as int));
    }
    lo
}

/// Planar squared distance between a point and a node, in mm^2.
pub fn squared_dist(x: i64, y: i64, node: RoadNode) -> (r: u64)
    requires
        -2 * MAX_COORD_MM <= x <= 2 * MAX_COORD_MM,
        -2 * MAX_COORD_MM <= y <= 2 * MAX_COORD_MM,
        -MAX_COORD_MM <= node.x_mm <= MAX_COORD_MM,
        -MAX_COORD_MM <= node.y_mm <= MAX_COORD_MM,
    ensures
        r == (x - node.x_mm) * (x - node.x_mm) + (y - node.y_mm) * (y - node.y_mm),
{
    let dx: i64 = x - node.x_mm;
    let dy: i64 = y - node.y_mm;
    proof {
        assert(dx * dx >= 0 && dx * dx <= 9_000_000_000_000_000_000 && dy * dy >= 0 && dy * dy
            <= 9_000_000_000_000_000_000) by (nonlinear_arith)
            requires
                -3_000_000_000 <= dx <= 3_000_000_000,
                -3_000_000_000 <= dy <= 3_000_000_000,
        ;
    }
    let dx2: u64 = (dx * dx) as u64;
    let dy2: u64 = (dy * dy) as u64;
    dx2 + dy2
}

} // verus!
