//! The binary snapshot of a schedule store: a framed little-endian word
//! stream with a version and integrity tag.
//!
//! `persist_bytes` frames the store; `load_cached_bytes` accepts exactly the
//! well-formed frames of the current version (anything else — truncation, a
//! foreign magic, a stale version, a checksum mismatch — yields `None`, never
//! a hard error) and rebuilds a well-formed store whose seven section counts
//! are the frame's header counts.  Together with
//! [`lemma_cache_round_trip_counts`] the two contracts give the cache round
//! trip: persisting a well-formed store and loading the bytes back succeeds
//! and preserves every section count.

use vstd::prelude::*;
use crate::agencies::LatLng;
use crate::schedule::{
    Agency, DirectionType, Mode, Route, ScheduleStore, Service, Shape, Stop, StopTime, Trip,
};
use crate::MAX_SCHEDULE_TIME;

verus! {

/// Frame magic of a snapshot file.
pub const SNAPSHOT_MAGIC: u32 = 0x52545453;

/// Snapshot format version; a mismatch makes `load_cached_bytes` fall back
/// to `None`.
pub const SNAPSHOT_VERSION: u32 = 1;

/// Largest accepted record count per section — a stated machine limit of
/// the snapshot word budget, sized for one agency's feed (the ingestion
/// layer builds one store per operator, not one per metropolis).
pub const MAX_SECTION: u32 = 400_000;

/// The little-endian word stored in four bytes.
pub open spec fn spec_word(b0: u8, b1: u8, b2: u8, b3: u8) -> u32 {
    (b0 + 0x100 * b1 + 0x10000 * b2 + 0x1000000 * b3) as u32
}

/// Rolling integrity tag of a word sequence.
pub open spec fn spec_checksum(w: Seq<u32>) -> u32
    decreases w.len(),
{
    if w.len() == 0 {
        0x55AA55AA
    } else {
        (((spec_checksum(w.drop_last()) as int) * 31 + w.last()) % 0x1_0000_0000) as u32
    }
}

/// The words of a framed snapshot, read at word index `i`.
pub open spec fn spec_frame_word(bytes: Seq<u8>, i: int) -> u32 {
    spec_word(bytes[16 + 4 * i], bytes[16 + 4 * i + 1], bytes[16 + 4 * i + 2], bytes[16 + 4 * i
        + 3])
}

/// The spec-level unframing of a snapshot: `Some(words)` exactly for a
/// complete frame of the current version whose checksum matches.
pub open spec fn spec_unframe(bytes: Seq<u8>) -> Option<Seq<u32>> {
    if bytes.len() < 16 {
        None
    } else if spec_word(bytes[0], bytes[1], bytes[2], bytes[3]) != SNAPSHOT_MAGIC {
        None
    } else if spec_word(bytes[4], bytes[5], bytes[6], bytes[7]) != SNAPSHOT_VERSION {
        None
    } else {
        let n = spec_word(bytes[8], bytes[9], bytes[10], bytes[11]) as int;
        if bytes.len() != 16 + 4 * n {
            None
        } else {
            let w = Seq::new(n as nat, |i: int| spec_frame_word(bytes, i));
            if spec_word(bytes[12], bytes[13], bytes[14], bytes[15]) != spec_checksum(w) {
                None
            } else {
                Some(w)
            }
        }
    }
}

/// The header counts of a payload are mutually consistent: a section that
/// the records of another section must reference cannot be empty unless that
/// other section is empty too.
pub open spec fn spec_counts_consistent(w: Seq<u32>) -> bool {
    &&& w.len() >= 7
    &&& (w[0] == 0 ==> w[1] == 0)
    &&& (w[1] == 0 ==> w[2] == 0 && w[5] == 0 && w[6] == 0)
    &&& (w[4] == 0 ==> w[2] == 0)
}

/// Every header count stays within the accepted section size.
pub open spec fn spec_counts_bounded(w: Seq<u32>) -> bool {
    &&& w.len() >= 7
    &&& forall|k: int| 0 <= k < 7 ==> #[trigger] w[k] <= MAX_SECTION
}

proof fn lemma_word_roundtrip(x: u32)
    ensures
        spec_word(
            (x % 256) as u8,
            ((x / 256) % 256) as u8,
            ((x / 65536) % 256) as u8,
            ((x / 16777216) % 256) as u8,
        ) == x,
{
    assert((x % 256) + 0x100 * ((x / 256) % 256) + 0x10000 * ((x / 65536) % 256) + 0x1000000 * ((x
        / 16777216) % 256) == x) by (bit_vector);
}

/// Appends the four little-endian bytes of one word.
fn push_word(out: &mut Vec<u8>, x: u32)
    ensures
        final(out)@.len() == old(out)@.len() + 4,
        forall|i: int| 0 <= i < old(out)@.len() ==> final(out)@[i] == old(out)@[i],
        spec_word(
            final(out)@[old(out)@.len() as int],
            final(out)@[old(out)@.len() as int + 1],
            final(out)@[old(out)@.len() as int + 2],
            final(out)@[old(out)@.len() as int + 3],
        ) == x,
{
    let b0: u8 = (x % 256) as u8;
    let b1: u8 = ((x / 256) % 256) as u8;
    let b2: u8 = ((x / 65536) % 256) as u8;
    let b3: u8 = ((x / 16777216) % 256) as u8;
    proof {
        lemma_word_roundtrip(x);
    }
    out.push(b0);
    out.push(b1);
    out.push(b2);
    out.push(b3);
}

/// Reads the word at byte offset `off`.
fn read_word(bytes: &Vec<u8>, off: usize) -> (x: u32)
    requires
        off + 4 <= bytes@.len(),
    ensures
        x == spec_word(
            bytes@[off as int],
            bytes@[off + 1],
            bytes@[off + 2],
            bytes@[off + 3],
        ),
{
    let l = bytes.len();
    bytes[off] as u32 + 0x100 * (bytes[off + 1] as u32) + 0x10000 * (bytes[off + 2] as u32)
        + 0x1000000 * (bytes[off + 3] as u32)
}

/// Computes the integrity tag of a word vector.
fn checksum_words(w: &Vec<u32>) -> (c: u32)
    ensures
        c == spec_checksum(w@),
{
    let mut c: u32 = 0x55AA55AA;
    let mut i: usize = 0;
    while i < w.len()
        invariant
            i <= w@.len(),
            c == spec_checksum(w@.take(i as int)),
        decreases w@.len() - i,
    {
        proof {
            assert(w@.take(i + 1).drop_last() =~= w@.take(i as int));
            assert(w@.take(i + 1).last() == w@[i as int]);
        }
        c = (((c as u64) * 31 + w[i] as u64) % 0x1_0000_0000) as u32;
        i = i + 1;
    }
    proof {
        assert(w@.take(w@.len() as int) =~= w@);
    }
    c
}

/// Frames a word payload: magic, version, word count, checksum, then the
/// words, each little-endian.  The result unframes back to exactly the
/// payload.
fn frame_words(w: &Vec<u32>) -> (bytes: Vec<u8>)
    requires
        w@.len() < 0x4000_0000,
    ensures
        spec_unframe(bytes@) == Some(w@),
        bytes@.len() == 16 + 4 * w@.len(),
{
    let n: u32 = w.len() as u32;
    let c: u32 = checksum_words(w);
    let mut bytes: Vec<u8> = Vec::new();
    push_word(&mut bytes, SNAPSHOT_MAGIC);
    push_word(&mut bytes, SNAPSHOT_VERSION);
    push_word(&mut bytes, n);
    push_word(&mut bytes, c);
    let mut i: usize = 0;
    while i < w.len()
        invariant
            i <= w@.len(),
            bytes@.len() == 16 + 4 * i,
            spec_word(bytes@[0], bytes@[1], bytes@[2], bytes@[3]) == SNAPSHOT_MAGIC,
            spec_word(bytes@[4], bytes@[5], bytes@[6], bytes@[7]) == SNAPSHOT_VERSION,
            spec_word(bytes@[8], bytes@[9], bytes@[10], bytes@[11]) == n,
            spec_word(bytes@[12], bytes@[13], bytes@[14], bytes@[15]) == c,
            n == w@.len(),
            c == spec_checksum(w@),
            forall|j: int| 0 <= j < i ==> #[trigger] spec_frame_word(bytes@, j) == w@[j],
        decreases w@.len() - i,
    {
        let ghost prev = bytes@;
        push_word(&mut bytes, w[i]);
        proof {
            assert forall|j: int| 0 <= j <= i implies #[trigger] spec_frame_word(bytes@, j)
                == w@[j] by {
                if j < i {
                    assert(spec_frame_word(prev, j) == w@[j]);
                    assert(bytes@[16 + 4 * j] == prev[16 + 4 * j]);
                    assert(bytes@[16 + 4 * j + 1] == prev[16 + 4 * j + 1]);
                    assert(bytes@[16 + 4 * j + 2] == prev[16 + 4 * j + 2]);
                    assert(bytes@[16 + 4 * j + 3] == prev[16 + 4 * j + 3]);
                } else {
                    assert(16 + 4 * j == prev.len());
                    assert(spec_word(
                        bytes@[prev.len() as int],
                        bytes@[prev.len() as int + 1],
                        bytes@[prev.len() as int + 2],
                        bytes@[prev.len() as int + 3],
                    ) == w@[i as int]);
                }
            }
        }
        i = i + 1;
    }
    proof {
        let words = Seq::new(w@.len(), |j: int| spec_frame_word(bytes@, j));
        assert(words =~= w@);
    }
    bytes
}

/// Unframes a snapshot byte vector, mirroring `spec_unframe` exactly.
fn unframe_bytes(bytes: &Vec<u8>) -> (r: Option<Vec<u32>>)
    ensures
        r is Some ==> spec_unframe(bytes@) == Some(r->0@),
        r is None ==> spec_unframe(bytes@) is None,
{
    if bytes.len() < 16 {
        return None;
    }
    if read_word(bytes, 0) != SNAPSHOT_MAGIC {
        return None;
    }
    if read_word(bytes, 4) != SNAPSHOT_VERSION {
        return None;
    }
    let n: u32 = read_word(bytes, 8);
    if (bytes.len() as u64) != 16 + 4 * (n as u64) {
        return None;
    }
    let bl: usize = bytes.len();
    let mut w: Vec<u32> = Vec::new();
    let mut i: usize = 0;
    while i < n as usize
        invariant
            i <= n,
            bl == bytes@.len(),
            bytes@.len() == 16 + 4 * n,
            w@.len() == i,
            forall|j: int| 0 <= j < i ==> #[trigger] w@[j] == spec_frame_word(bytes@, j),
        decreases n - i,
    {
        w.push(read_word(bytes, 16 + 4 * i));
        i = i + 1;
    }
    let c = checksum_words(&w);
    proof {
        let words = Seq::new(n as nat, |j: int| spec_frame_word(bytes@, j));
        assert(words =~= w@);
    }
    if read_word(bytes, 12) != c {
        return None;
    }
    Some(w)
}

/// The seven section counts stand at the head of the payload.
pub open spec fn header_ok(w: Seq<u32>, s: ScheduleStore) -> bool {
    &&& w.len() >= 7
    &&& w[0] == s.agencies@.len()
    &&& w[1] == s.routes@.len()
    &&& w[2] == s.trips@.len()
    &&& w[3] == s.stops@.len()
    &&& w[4] == s.services@.len()
    &&& w[5] == s.shapes@.len()
    &&& w[6] == s.generated_shapes@.len()
}

/// The machine limits under which a store fits in one snapshot: bounded
/// section counts, and bounded per-record lists.
pub open spec fn snapshot_compatible(s: ScheduleStore) -> bool {
    &&& s.agencies@.len() <= MAX_SECTION
    &&& s.routes@.len() <= MAX_SECTION
    &&& s.trips@.len() <= MAX_SECTION
    &&& s.stops@.len() <= MAX_SECTION
    &&& s.services@.len() <= MAX_SECTION
    &&& s.shapes@.len() <= MAX_SECTION
    &&& s.generated_shapes@.len() <= MAX_SECTION
    &&& forall|i: int|
        0 <= i < s.agencies@.len() ==> (#[trigger] s.agencies@[i]).name@.len() <= 256
    &&& forall|i: int| 0 <= i < s.stops@.len() ==> (#[trigger] s.stops@[i]).name@.len() <= 256
    &&& forall|i: int|
        0 <= i < s.trips@.len() ==> (#[trigger] s.trips@[i]).stop_times@.len() <= 256
    &&& forall|i: int| 0 <= i < s.shapes@.len() ==> (#[trigger] s.shapes@[i]).points@.len() <= 256
    &&& forall|i: int|
        0 <= i < s.generated_shapes@.len() ==> (#[trigger] s.generated_shapes@[i]).points@.len()
            <= 256
}

/// Word tag of a transit mode.
fn mode_word(m: Mode) -> (r: u32)
    ensures
        m == Mode::Bus ==> r == 0,
        m == Mode::Subway ==> r == 1,
        m == Mode::Tram ==> r == 2,
        m == Mode::Rail ==> r == 3,
        m == Mode::Ferry ==> r == 4,
{
    match m {
        Mode::Bus => 0,
        Mode::Subway => 1,
        Mode::Tram => 2,
        Mode::Rail => 3,
        Mode::Ferry => 4,
    }
}

/// Transit mode of a word tag; unknown tags fall back to bus.
fn word_mode(r: u32) -> (m: Mode) {
    if r == 1 {
        Mode::Subway
    } else if r == 2 {
        Mode::Tram
    } else if r == 3 {
        Mode::Rail
    } else if r == 4 {
        Mode::Ferry
    } else {
        Mode::Bus
    }
}

/// Appends one shape section (route, point count, then offset coordinates
/// per point).
fn push_shapes(w: &mut Vec<u32>, shapes: &Vec<Shape>, n_routes: usize)
    requires
        shapes@.len() <= MAX_SECTION,
        forall|i: int| 0 <= i < shapes@.len() ==> (#[trigger] shapes@[i]).points@.len() <= 256,
        forall|i: int| 0 <= i < shapes@.len() ==> (#[trigger] shapes@[i]).route < n_routes,
        old(w)@.len() <= 1_000_000_000,
    ensures
        final(w)@.len() <= old(w)@.len() + 514 * shapes@.len(),
        final(w)@.len() >= old(w)@.len(),
        forall|j: int| 0 <= j < old(w)@.len() ==> final(w)@[j] == old(w)@[j],
{
    let ghost base = w@;
    let mut i: usize = 0;
    while i < shapes.len()
        invariant
            i <= shapes@.len(),
            shapes@.len() <= MAX_SECTION,
            forall|k: int| 0 <= k < shapes@.len() ==> (#[trigger] shapes@[k]).points@.len() <= 256,
            base.len() <= 1_000_000_000,
            w@.len() >= base.len(),
            w@.len() <= base.len() + 514 * i,
            forall|j: int| 0 <= j < base.len() ==> w@[j] == base[j],
        decreases shapes@.len() - i,
    {
        let ghost rec_start = w@.len();
        let sh = &shapes[i];
        w.push(sh.route as u32);
        w.push(sh.points.len() as u32);
        let mut p: usize = 0;
        while p < sh.points.len()
            invariant
                p <= sh.points@.len(),
                sh.points@.len() <= 256,
                sh == shapes@[i as int],
                i < shapes@.len(),
                base.len() <= 1_000_000_000,
                w@.len() == rec_start + 2 + 2 * p,
                rec_start <= base.len() + 514 * i,
                w@.len() >= base.len(),
                forall|j: int| 0 <= j < base.len() ==> w@[j] == base[j],
            decreases sh.points@.len() - p,
        {
            let pt = sh.points[p];
            let lat_off: i64 = if pt.lat_microdeg < -90_000_000 {
                0
            } else if pt.lat_microdeg > 90_000_000 {
                180_000_000
            } else {
                pt.lat_microdeg + 90_000_000
            };
            let lon_off: i64 = if pt.lon_microdeg < -180_000_000 {
                0
            } else if pt.lon_microdeg > 180_000_000 {
                360_000_000
            } else {
                pt.lon_microdeg + 180_000_000
            };
            w.push(lat_off as u32);
            w.push(lon_off as u32);
            p = p + 1;
        }
        i = i + 1;
    }
}

/// Frames a well-formed, snapshot-compatible store into one versioned,
/// checksummed binary blob.  The result unframes to a payload whose head
/// words are exactly the store's seven section counts; with
/// [`lemma_cache_round_trip_counts`] and the contract of
/// [`load_cached_bytes`] this yields the cache round trip.
pub fn persist_bytes(s: &ScheduleStore) -> (r: Vec<u8>)
    requires
        s.wf(),
        snapshot_compatible(*s),
    ensures
        spec_unframe(r@) is Some,
        header_ok(spec_unframe(r@)->0, *s),
{
    let mut w: Vec<u32> = Vec::new();
    w.push(s.agencies.len() as u32);
    w.push(s.routes.len() as u32);
    w.push(s.trips.len() as u32);
    w.push(s.stops.len() as u32);
    w.push(s.services.len() as u32);
    w.push(s.shapes.len() as u32);
    w.push(s.generated_shapes.len() as u32);
    let mut i: usize = 0;
    while i < s.agencies.len()
        invariant
            i <= s.agencies@.len(),
            s.wf(),
            snapshot_compatible(*s),
            header_ok(w@, *s),
            w@.len() <= 7 + 258 * i,
        decreases s.agencies@.len() - i,
    {
        let ghost rec_start = w@.len();
        let a = &s.agencies[i];
        w.push(a.id);
        w.push(a.name.len() as u32);
        let mut b: usize = 0;
        while b < a.name.len()
            invariant
                b <= a.name@.len(),
                a.name@.len() <= 256,
                header_ok(w@, *s),
                w@.len() == rec_start + 2 + b,
                rec_start <= 7 + 258 * i,
            decreases a.name@.len() - b,
        {
            w.push(a.name[b] as u32);
            b = b + 1;
        }
        i = i + 1;
    }
    let mut i2: usize = 0;
    while i2 < s.routes.len()
        invariant
            i2 <= s.routes@.len(),
            s.wf(),
            snapshot_compatible(*s),
            header_ok(w@, *s),
            w@.len() <= 7 + 258 * s.agencies@.len() + 2 * i2,
        decreases s.routes@.len() - i2,
    {
        let r = &s.routes[i2];
        w.push(r.agency as u32);
        w.push(mode_word(r.mode));
        i2 = i2 + 1;
    }
    let mut i3: usize = 0;
    while i3 < s.trips.len()
        invariant
            i3 <= s.trips@.len(),
            s.wf(),
            snapshot_compatible(*s),
            header_ok(w@, *s),
            w@.len() <= 7 + 258 * s.agencies@.len() + 2 * s.routes@.len() + 772 * i3,
        decreases s.trips@.len() - i3,
    {
        let ghost rec_start = w@.len();
        let t = &s.trips[i3];
        w.push(t.route as u32);
        w.push(t.service as u32);
        w.push(
            match t.direction {
                DirectionType::Outbound => 0u32,
                DirectionType::Inbound => 1u32,
            },
        );
        w.push(t.stop_times.len() as u32);
        let mut k: usize = 0;
        while k < t.stop_times.len()
            invariant
                k <= t.stop_times@.len(),
                t.stop_times@.len() <= 256,
                header_ok(w@, *s),
                w@.len() == rec_start + 4 + 3 * k,
                rec_start <= 7 + 258 * s.agencies@.len() + 2 * s.routes@.len() + 772 * i3,
            decreases t.stop_times@.len() - k,
        {
            let st = t.stop_times[k];
            w.push(st.stop as u32);
            w.push(st.arrival);
            w.push(st.departure);
            k = k + 1;
        }
        i3 = i3 + 1;
    }
    let ghost trips_end = 7 + 258 * s.agencies@.len() + 2 * s.routes@.len() + 772
        * s.trips@.len();
    let mut i4: usize = 0;
    while i4 < s.stops.len()
        invariant
            i4 <= s.stops@.len(),
            s.wf(),
            snapshot_compatible(*s),
            header_ok(w@, *s),
            w@.len() <= trips_end + 259 * i4,
            trips_end == 7 + 258 * s.agencies@.len() + 2 * s.routes@.len() + 772
                * s.trips@.len(),
        decreases s.stops@.len() - i4,
    {
        let ghost rec_start = w@.len();
        let st = &s.stops[i4];
        w.push((st.coord.lat_microdeg + 90_000_000) as u32);
        w.push((st.coord.lon_microdeg + 180_000_000) as u32);
        w.push(st.name.len() as u32);
        let mut b: usize = 0;
        while b < st.name.len()
            invariant
                b <= st.name@.len(),
                st.name@.len() <= 256,
                header_ok(w@, *s),
                w@.len() == rec_start + 3 + b,
                rec_start <= trips_end + 259 * i4,
            decreases st.name@.len() - b,
        {
            w.push(st.name[b] as u32);
            b = b + 1;
        }
        i4 = i4 + 1;
    }
    let ghost stops_end = trips_end + 259 * s.stops@.len();
    let mut i5: usize = 0;
    while i5 < s.services.len()
        invariant
            i5 <= s.services@.len(),
            s.wf(),
            snapshot_compatible(*s),
            header_ok(w@, *s),
            w@.len() <= stops_end + 7 * i5,
            stops_end == 7 + 258 * s.agencies@.len() + 2 * s.routes@.len() + 772 * s.trips@.len()
                + 259 * s.stops@.len(),
        decreases s.services@.len() - i5,
    {
        let sv = s.services[i5];
        w.push(if sv.monday { 1u32 } else { 0u32 });
        w.push(if sv.tuesday { 1u32 } else { 0u32 });
        w.push(if sv.wednesday { 1u32 } else { 0u32 });
        w.push(if sv.thursday { 1u32 } else { 0u32 });
        w.push(if sv.friday { 1u32 } else { 0u32 });
        w.push(if sv.saturday { 1u32 } else { 0u32 });
        w.push(if sv.sunday { 1u32 } else { 0u32 });
        i5 = i5 + 1;
    }
    proof {
        assert(w@.len() <= 7 + 258 * 400_000 + 2 * 400_000 + 772 * 400_000 + 259 * 400_000 + 7
            * 400_000);
    }
    push_shapes(&mut w, &s.shapes, s.routes.len());
    proof {
        assert(w@.len() <= 7 + 1298 * 400_000 + 514 * 400_000);
    }
    push_shapes(&mut w, &s.generated_shapes, s.routes.len());
    proof {
        assert(w@.len() <= 7 + 1298 * 400_000 + 514 * 400_000 + 514 * 400_000);
        assert(w@.len() < 0x4000_0000);
        assert(header_ok(w@, *s));
    }
    frame_words(&w)
}

/// Reads the next word of the payload, or zero past its end (a snapshot
/// whose sections overrun the payload decodes to zero-filled records; the
/// checksum already vouched for the bytes themselves).
fn take_word(w: &Vec<u32>, pos: &mut usize) -> (x: u32)
    requires
        *old(pos) <= w@.len(),
    ensures
        *final(pos) <= w@.len(),
        *old(pos) < w@.len() ==> x == w@[*old(pos) as int] && *final(pos) == *old(pos) + 1,
        *old(pos) == w@.len() ==> x == 0 && *final(pos) == *old(pos),
{
    if *pos < w.len() {
        let x = w[*pos];
        *pos = *pos + 1;
        x
    } else {
        0
    }
}

/// Reads one shape section of `count` records.
fn read_shapes(w: &Vec<u32>, pos: &mut usize, count: usize, n_routes: usize) -> (r: Vec<Shape>)
    requires
        *old(pos) <= w@.len(),
        count > 0 ==> n_routes > 0,
    ensures
        *final(pos) <= w@.len(),
        r@.len() == count,
        forall|i: int| 0 <= i < r@.len() ==> (#[trigger] r@[i]).route < n_routes,
{
    let mut shapes: Vec<Shape> = Vec::new();
    let mut i: usize = 0;
    while i < count
        invariant
            i <= count,
            count > 0 ==> n_routes > 0,
            *pos <= w@.len(),
            shapes@.len() == i,
            forall|j: int| 0 <= j < i ==> (#[trigger] shapes@[j]).route < n_routes,
        decreases count - i,
    {
        let raw_route = take_word(w, pos) as usize;
        let route: usize = if raw_route >= n_routes {
            n_routes - 1
        } else {
            raw_route
        };
        let raw_count = take_word(w, pos) as usize;
        let pt_count: usize = if raw_count > 65536 {
            65536
        } else {
            raw_count
        };
        let mut points: Vec<LatLng> = Vec::new();
        let mut p: usize = 0;
        while p < pt_count
            invariant
                p <= pt_count,
                *pos <= w@.len(),
            decreases pt_count - p,
        {
            let raw_lat = take_word(w, pos);
            let raw_lon = take_word(w, pos);
            let lat: i64 = (if raw_lat > 180_000_000 {
                180_000_000u32
            } else {
                raw_lat
            }) as i64 - 90_000_000;
            let lon: i64 = (if raw_lon > 360_000_000 {
                360_000_000u32
            } else {
                raw_lon
            }) as i64 - 180_000_000;
            points.push(LatLng { lat_microdeg: lat, lon_microdeg: lon });
            p = p + 1;
        }
        shapes.push(Shape { route, points });
        i = i + 1;
    }
    shapes
}

/// Reads a snapshot back into a well-formed store.  `None` exactly when the
/// bytes are not a complete current-version frame with a matching checksum,
/// or when the header counts are oversized or mutually inconsistent — a
/// stale or corrupt cache is recoverable, never a hard error.  On success
/// the store's seven section counts are exactly the frame's header counts.
pub fn load_cached_bytes(bytes: &Vec<u8>) -> (r: Option<ScheduleStore>)
    ensures
        r is Some <==> (spec_unframe(bytes@) is Some && spec_counts_consistent(
            spec_unframe(bytes@)->0,
        ) && spec_counts_bounded(spec_unframe(bytes@)->0)),
        r is Some ==> {
            let w = spec_unframe(bytes@)->0;
            &&& r->0.wf()
            &&& r->0.agencies@.len() == w[0]
            &&& r->0.routes@.len() == w[1]
            &&& r->0.trips@.len() == w[2]
            &&& r->0.stops@.len() == w[3]
            &&& r->0.services@.len() == w[4]
            &&& r->0.shapes@.len() == w[5]
            &&& r->0.generated_shapes@.len() == w[6]
        },
{
    let w = match unframe_bytes(bytes) {
        None => {
            return None;
        },
        Some(w) => w,
    };
    if w.len() < 7 {
        return None;
    }
    let n_ag: usize = w[0] as usize;
    let n_rt: usize = w[1] as usize;
    let n_tr: usize = w[2] as usize;
    let n_st: usize = w[3] as usize;
    let n_sv: usize = w[4] as usize;
    let n_sh: usize = w[5] as usize;
    let n_gen: usize = w[6] as usize;
    if w[0] > MAX_SECTION || w[1] > MAX_SECTION || w[2] > MAX_SECTION || w[3] > MAX_SECTION
        || w[4] > MAX_SECTION || w[5] > MAX_SECTION || w[6] > MAX_SECTION {
        return None;
    }
    if n_ag == 0 && n_rt > 0 {
        return None;
    }
    if n_rt == 0 && (n_tr > 0 || n_sh > 0 || n_gen > 0) {
        return None;
    }
    if n_sv == 0 && n_tr > 0 {
        return None;
    }
    let mut pos: usize = 7;
    let mut agencies: Vec<Agency> = Vec::new();
    let mut i: usize = 0;
    while i < n_ag
        invariant
            i <= n_ag,
            pos <= w@.len(),
            agencies@.len() == i,
        decreases n_ag - i,
    {
        let id = take_word(&w, &mut pos);
        let raw_len = take_word(&w, &mut pos) as usize;
        let name_len: usize = if raw_len > 65536 {
            65536
        } else {
            raw_len
        };
        let mut name: Vec<u8> = Vec::new();
        let mut b: usize = 0;
        while b < name_len
            invariant
                b <= name_len,
                pos <= w@.len(),
            decreases name_len - b,
        {
            name.push((take_word(&w, &mut pos) % 256) as u8);
            b = b + 1;
        }
        agencies.push(Agency { id, name });
        i = i + 1;
    }
    let mut routes: Vec<Route> = Vec::new();
    let mut i2: usize = 0;
    while i2 < n_rt
        invariant
            i2 <= n_rt,
            pos <= w@.len(),
            routes@.len() == i2,
            n_rt > 0 ==> n_ag > 0,
            forall|j: int| 0 <= j < i2 ==> (#[trigger] routes@[j]).agency < n_ag,
        decreases n_rt - i2,
    {
        let raw_ag = take_word(&w, &mut pos) as usize;
        let agency: usize = if raw_ag >= n_ag {
            n_ag - 1
        } else {
            raw_ag
        };
        let mode = word_mode(take_word(&w, &mut pos));
        routes.push(Route { agency, mode });
        i2 = i2 + 1;
    }
    let mut trips: Vec<Trip> = Vec::new();
    let mut i3: usize = 0;
    while i3 < n_tr
        invariant
            i3 <= n_tr,
            pos <= w@.len(),
            trips@.len() == i3,
            n_tr > 0 ==> n_rt > 0 && n_sv > 0,
            forall|j: int|
                0 <= j < i3 ==> crate::schedule::trip_wf(
                    #[trigger] trips@[j],
                    n_rt as int,
                    n_sv as int,
                    n_st as int,
                ),
        decreases n_tr - i3,
    {
        let raw_rt = take_word(&w, &mut pos) as usize;
        let route: usize = if raw_rt >= n_rt {
            n_rt - 1
        } else {
            raw_rt
        };
        let raw_sv = take_word(&w, &mut pos) as usize;
        let service: usize = if raw_sv >= n_sv {
            n_sv - 1
        } else {
            raw_sv
        };
        let direction = if take_word(&w, &mut pos) == 1 {
            DirectionType::Inbound
        } else {
            DirectionType::Outbound
        };
        let raw_count = take_word(&w, &mut pos) as usize;
        let st_count: usize = if n_st == 0 {
            0
        } else if raw_count > 65536 {
            65536
        } else {
            raw_count
        };
        let mut stop_times: Vec<StopTime> = Vec::new();
        let mut prev_dep: u32 = 0;
        let mut k: usize = 0;
        while k < st_count
            invariant
                k <= st_count,
                st_count > 0 ==> n_st > 0,
                st_count <= 65536,
                pos <= w@.len(),
                stop_times@.len() == k,
                prev_dep <= MAX_SCHEDULE_TIME,
                k > 0 ==> prev_dep == stop_times@[k - 1].departure,
                forall|j: int|
                    0 <= j < k ==> {
                        &&& (#[trigger] stop_times@[j]).stop < n_st
                        &&& stop_times@[j].arrival <= stop_times@[j].departure
                        &&& stop_times@[j].departure <= MAX_SCHEDULE_TIME
                    },
                forall|j: int|
                    0 < j < k ==> (#[trigger] stop_times@[j]).arrival >= stop_times@[j
                        - 1].departure,
            decreases st_count - k,
        {
            let raw_stop = take_word(&w, &mut pos) as usize;
            let stop: usize = if raw_stop >= n_st {
                n_st - 1
            } else {
                raw_stop
            };
            let raw_arr = take_word(&w, &mut pos);
            let raw_dep = take_word(&w, &mut pos);
            let arr_clamped: u32 = if raw_arr > MAX_SCHEDULE_TIME {
                MAX_SCHEDULE_TIME
            } else {
                raw_arr
            };
            let arrival: u32 = if arr_clamped < prev_dep {
                prev_dep
            } else {
                arr_clamped
            };
            let dep_clamped: u32 = if raw_dep > MAX_SCHEDULE_TIME {
                MAX_SCHEDULE_TIME
            } else {
                raw_dep
            };
            let departure: u32 = if dep_clamped < arrival {
                arrival
            } else {
                dep_clamped
            };
            stop_times.push(StopTime { stop, arrival, departure });
            prev_dep = departure;
            k = k + 1;
        }
        trips.push(Trip { route, service, direction, stop_times });
        i3 = i3 + 1;
    }
    let mut stops: Vec<Stop> = Vec::new();
    let mut i4: usize = 0;
    while i4 < n_st
        invariant
            i4 <= n_st,
            pos <= w@.len(),
            stops@.len() == i4,
            forall|j: int| 0 <= j < i4 ==> (#[trigger] stops@[j]).coord.wf(),
        decreases n_st - i4,
    {
        let raw_lat = take_word(&w, &mut pos);
        let raw_lon = take_word(&w, &mut pos);
        let lat: i64 = (if raw_lat > 180_000_000 {
            180_000_000u32
        } else {
            raw_lat
        }) as i64 - 90_000_000;
        let lon: i64 = (if raw_lon > 360_000_000 {
            360_000_000u32
        } else {
            raw_lon
        }) as i64 - 180_000_000;
        let raw_len = take_word(&w, &mut pos) as usize;
        let name_len: usize = if raw_len > 65536 {
            65536
        } else {
            raw_len
        };
        let mut name: Vec<u8> = Vec::new();
        let mut b: usize = 0;
        while b < name_len
            invariant
                b <= name_len,
                pos <= w@.len(),
            decreases name_len - b,
        {
            name.push((take_word(&w, &mut pos) % 256) as u8);
            b = b + 1;
        }
        stops.push(Stop { coord: LatLng { lat_microdeg: lat, lon_microdeg: lon }, name });
        i4 = i4 + 1;
    }
    let mut services: Vec<Service> = Vec::new();
    let mut i5: usize = 0;
    while i5 < n_sv
        invariant
            i5 <= n_sv,
            pos <= w@.len(),
            services@.len() == i5,
        decreases n_sv - i5,
    {
        let monday = take_word(&w, &mut pos) != 0;
        let tuesday = take_word(&w, &mut pos) != 0;
        let wednesday = take_word(&w, &mut pos) != 0;
        let thursday = take_word(&w, &mut pos) != 0;
        let friday = take_word(&w, &mut pos) != 0;
        let saturday = take_word(&w, &mut pos) != 0;
        let sunday = take_word(&w, &mut pos) != 0;
        services.push(
            Service { monday, tuesday, wednesday, thursday, friday, saturday, sunday },
        );
        i5 = i5 + 1;
    }
    let shapes = read_shapes(&w, &mut pos, n_sh, n_rt);
    let generated_shapes = read_shapes(&w, &mut pos, n_gen, n_rt);
    let store = ScheduleStore { agencies, routes, trips, stops, services, shapes,
        generated_shapes };
    proof {
        assert(store.wf());
    }
    Some(store)
}

/// Cache round trip: persisting a well-formed, snapshot-compatible store
/// yields bytes that `load_cached_bytes` must accept, and the store it
/// rebuilds carries identical agency, route, trip, stop, service and shape
/// counts.  The lemma turns `persist_bytes`'s postcondition into
/// `load_cached_bytes`'s success condition, so the two contracts compose at
/// every call site.
pub proof fn lemma_cache_round_trip_counts(s: ScheduleStore, bytes: Seq<u8>)
    requires
        s.wf(),
        snapshot_compatible(s),
        spec_unframe(bytes) is Some,
        header_ok(spec_unframe(bytes)->0, s),
    ensures
        spec_counts_consistent(spec_unframe(bytes)->0),
        spec_counts_bounded(spec_unframe(bytes)->0),
{
    let w = spec_unframe(bytes)->0;
    if s.routes@.len() > 0 {
        assert(s.routes@[0].agency < s.agencies@.len());
    }
    if s.trips@.len() > 0 {
        assert(crate::schedule::trip_wf(
            s.trips@[0],
            s.routes@.len() as int,
            s.services@.len() as int,
            s.stops@.len() as int,
        ));
    }
    if s.shapes@.len() > 0 {
        assert(s.shapes@[0].route < s.routes@.len());
    }
    if s.generated_shapes@.len() > 0 {
        assert(s.generated_shapes@[0].route < s.routes@.len());
    }
    assert forall|k: int| 0 <= k < 7 implies #[trigger] w[k] <= MAX_SECTION by {
        if k == 0 {
            assert(w[0] == s.agencies@.len());
        } else if k == 1 {
            assert(w[1] == s.routes@.len());
        } else if k == 2 {
            assert(w[2] == s.trips@.len());
        } else if k == 3 {
            assert(w[3] == s.stops@.len());
        } else if k == 4 {
            assert(w[4] == s.services@.len());
        } else if k == 5 {
            assert(w[5] == s.shapes@.len());
        } else {
            assert(w[6] == s.generated_shapes@.len());
        }
    }
}

} // verus!
