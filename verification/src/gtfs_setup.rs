//! Feed ingestion: parsing the plain-text schedule tables into a typed,
//! well-formed [`ScheduleStore`], and deriving shapes for routes the feed
//! left without geometry.
//!
//! The feed is a set of comma-separated tables with numeric identifiers:
//! agencies (`id,name`), routes (`id,agency_id,mode`), services
//! (`id,mon,tue,wed,thu,fri,sat,sun`), stops (`id,lat_microdeg,lon_microdeg,
//! name`), trips (`id,route_id,service_id,direction`) and stop times
//! (`trip_id,stop_id,arrival,departure` with `HH:MM:SS` times, ascending per
//! trip).  Malformed rows and unresolvable identifiers fail ingestion with
//! `ParseError`; missing files are the service layer's `IoError`.

use vstd::prelude::*;
use crate::agencies::LatLng;
use crate::schedule::{
    Agency, DirectionType, Mode, Route, ScheduleStore, Service, Shape, Stop, StopTime, Trip,
};
use crate::MAX_SCHEDULE_TIME;

verus! {

/// Ingestion failure taxonomy: a malformed feed is fatal to startup for its
/// city; a missing file is reported by the I/O layer.
#[derive(Clone, Copy, Debug, PartialEq, Eq, Structural)]
pub enum IngestError {
    ParseError,
    IoError,
}

/// Digit-string value: `Some` exactly for a nonempty, all-digit string
/// whose value fits the limit.
pub open spec fn spec_parse_u32(s: Seq<u8>) -> Option<u32>
    decreases s.len(),
{
    if s.len() == 0 {
        None
    } else if !(48 <= s.last() <= 57) {
        None
    } else if s.len() == 1 {
        Some((s.last() - 48) as u32)
    } else {
        match spec_parse_u32(s.drop_last()) {
            None => None,
            Some(hi) => {
                if hi > 429496729 || (hi == 429496729 && s.last() > 53) {
                    None
                } else {
                    Some((hi * 10 + (s.last() - 48)) as u32)
                }
            },
        }
    }
}

/// Parses a decimal unsigned integer, mirroring `spec_parse_u32` exactly.
pub fn parse_u32(s: &Vec<u8>) -> (r: Option<u32>)
    ensures
        r == spec_parse_u32(s@),
{
    if s.len() == 0 {
        return None;
    }
    let mut acc: u32 = 0;
    let mut i: usize = 0;
    while i < s.len()
        invariant
            i <= s@.len(),
            s@.len() > 0,
            i > 0 ==> spec_parse_u32(s@.take(i as int)) == Some(acc),
            i == 0 ==> acc == 0,
        decreases s@.len() - i,
    {
        let c = s[i];
        proof {
            assert(s@.take(i + 1).drop_last() =~= s@.take(i as int));
            assert(s@.take(i + 1).last() == s@[i as int]);
        }
        if c < 48 || c > 57 {
            proof {
                lemma_parse_prefix_none(s@, i as int);
            }
            return None;
        }
        let d: u32 = (c - 48) as u32;
        if i == 0 {
            acc = d;
        } else {
            if acc > 429496729 || (acc == 429496729 && c > 53) {
                proof {
                    lemma_parse_prefix_none(s@, i as int);
                }
                return None;
            }
            acc = acc * 10 + d;
        }
        i = i + 1;
    }
    proof {
        assert(s@.take(s@.len() as int) =~= s@);
    }
    Some(acc)
}

/// A parse that fails at position `i` fails for the whole string.
proof fn lemma_parse_prefix_none(s: Seq<u8>, i: int)
    requires
        0 <= i < s.len(),
        spec_parse_u32(s.take(i + 1)) is None,
    ensures
        spec_parse_u32(s) is None,
    decreases s.len() - i,
{
    if i + 1 == s.len() {
        assert(s.take(i + 1) =~= s);
    } else {
        assert(s.take(i + 2).drop_last() =~= s.take(i + 1));
        lemma_parse_prefix_none(s, i + 1);
    }
}

/// `HH:MM:SS` value in seconds: `Some` exactly for the eight-character form
/// with two-digit fields, minutes and seconds below sixty, and a total
/// within the supported schedule range.
pub open spec fn spec_parse_time(s: Seq<u8>) -> Option<u32> {
    if s.len() != 8 {
        None
    } else if !(48 <= s[0] <= 57 && 48 <= s[1] <= 57 && s[2] == 58 && 48 <= s[3] <= 57 && 48
        <= s[4] <= 57 && s[5] == 58 && 48 <= s[6] <= 57 && 48 <= s[7] <= 57) {
        None
    } else {
        let h = (s[0] - 48) * 10 + (s[1] - 48);
        let m = (s[3] - 48) * 10 + (s[4] - 48);
        let sec = (s[6] - 48) * 10 + (s[7] - 48);
        if m >= 60 || sec >= 60 {
            None
        } else {
            Some((h * 3600 + m * 60 + sec) as u32)
        }
    }
}

/// Parses an `HH:MM:SS` time of day, mirroring `spec_parse_time` exactly.
pub fn parse_time(s: &Vec<u8>) -> (r: Option<u32>)
    ensures
        r == spec_parse_time(s@),
        r is Some ==> r->0 <= MAX_SCHEDULE_TIME,
{
    if s.len() != 8 {
        return None;
    }
    if !(s[0] >= 48 && s[0] <= 57 && s[1] >= 48 && s[1] <= 57 && s[2] == 58 && s[3] >= 48 && s[3]
        <= 57 && s[4] >= 48 && s[4] <= 57 && s[5] == 58 && s[6] >= 48 && s[6] <= 57 && s[7] >= 48
        && s[7] <= 57) {
        return None;
    }
    let h: u32 = ((s[0] - 48) * 10 + (s[1] - 48)) as u32;
    let m: u32 = ((s[3] - 48) * 10 + (s[4] - 48)) as u32;
    let sec: u32 = ((s[6] - 48) * 10 + (s[7] - 48)) as u32;
    if m >= 60 || sec >= 60 {
        return None;
    }
    Some(h * 3600 + m * 60 + sec)
}

/// The fields of a split, joined back with the separator.
pub open spec fn spec_join(fields: Seq<Seq<u8>>, sep: u8) -> Seq<u8>
    decreases fields.len(),
{
    if fields.len() == 0 {
        Seq::empty()
    } else if fields.len() == 1 {
        fields[0]
    } else {
        spec_join(fields.drop_last(), sep) + seq![sep] + fields.last()
    }
}

/// Joining `n` fields inserts `n - 1` separators, so the joined text is at
/// least that long.
proof fn lemma_join_len(fields: Seq<Seq<u8>>, sep: u8)
    ensures
        fields.len() >= 1 ==> spec_join(fields, sep).len() >= fields.len() - 1,
    decreases fields.len(),
{
    if fields.len() > 1 {
        lemma_join_len(fields.drop_last(), sep);
    }
}

/// Splitting an empty text yields exactly one empty field.
proof fn lemma_split_of_empty(fields: Seq<Seq<u8>>, sep: u8)
    requires
        fields.len() >= 1,
        spec_join(fields, sep).len() == 0,
    ensures
        fields.len() == 1,
        fields[0].len() == 0,
{
    lemma_join_len(fields, sep);
    if fields.len() > 1 {
        lemma_join_len(fields.drop_last(), sep);
        assert(spec_join(fields, sep) == spec_join(fields.drop_last(), sep) + seq![sep]
            + fields.last());
    }
}

/// The canonical split of a byte string on a separator, built from the
/// right: a trailing separator opens a new empty field, any other byte
/// extends the last field.
pub open spec fn spec_split(s: Seq<u8>, sep: u8) -> Seq<Seq<u8>>
    decreases s.len(),
{
    if s.len() == 0 {
        seq![Seq::<u8>::empty()]
    } else if s.last() == sep {
        spec_split(s.drop_last(), sep).push(Seq::empty())
    } else {
        let r = spec_split(s.drop_last(), sep);
        r.update(r.len() - 1, r.last().push(s.last()))
    }
}

/// A split always has at least one field.
pub proof fn lemma_split_len(s: Seq<u8>, sep: u8)
    ensures
        spec_split(s, sep).len() >= 1,
    decreases s.len(),
{
    if s.len() > 0 {
        lemma_split_len(s.drop_last(), sep);
    }
}

/// Number of nonempty lines of a line list.
pub open spec fn spec_n_rows(lines: Seq<Seq<u8>>) -> int
    decreases lines.len(),
{
    if lines.len() == 0 {
        0
    } else {
        spec_n_rows(lines.drop_last()) + if lines.last().len() > 0 {
            1int
        } else {
            0int
        }
    }
}

/// Row counts of prefixes never exceed the whole list's.
pub proof fn lemma_n_rows_mono(lines: Seq<Seq<u8>>, k: int)
    requires
        0 <= k <= lines.len(),
    ensures
        spec_n_rows(lines.take(k)) <= spec_n_rows(lines),
    decreases lines.len() - k,
{
    if k < lines.len() {
        assert(lines.take(k + 1).drop_last() =~= lines.take(k));
        lemma_n_rows_mono(lines, k + 1);
    } else {
        assert(lines.take(k) =~= lines);
    }
}

/// Splits a byte string on a separator.  The result is nonempty, no field
/// contains the separator, and joining the fields with the separator gives
/// back the input.
pub fn split_on(s: &Vec<u8>, sep: u8) -> (fields: Vec<Vec<u8>>)
    ensures
        fields@.len() >= 1,
        forall|i: int, j: int|
            0 <= i < fields@.len() && 0 <= j < fields@[i]@.len() ==> fields@[i]@[j] != sep,
        spec_join(fields@.map_values(|f: Vec<u8>| f@), sep) == s@,
        fields@.map_values(|f: Vec<u8>| f@) == spec_split(s@, sep),
{
    let mut fields: Vec<Vec<u8>> = Vec::new();
    let mut cur: Vec<u8> = Vec::new();
    let mut i: usize = 0;
    while i < s.len()
        invariant
            i <= s@.len(),
            forall|a: int, b: int|
                0 <= a < fields@.len() && 0 <= b < fields@[a]@.len() ==> fields@[a]@[b] != sep,
            forall|b: int| 0 <= b < cur@.len() ==> cur@[b] != sep,
            spec_join(fields@.map_values(|f: Vec<u8>| f@).push(cur@), sep) == s@.take(i as int),
            fields@.map_values(|f: Vec<u8>| f@).push(cur@) == spec_split(s@.take(i as int), sep),
        decreases s@.len() - i,
    {
        let ghost prev_fields = fields@.map_values(|f: Vec<u8>| f@);
        let ghost prev_cur = cur@;
        let c = s[i];
        if c == sep {
            fields.push(cur);
            cur = Vec::new();
            proof {
                let now = fields@.map_values(|f: Vec<u8>| f@);
                assert(now =~= prev_fields.push(prev_cur));
                assert(now.push(cur@).drop_last() =~= now);
                assert(now.len() >= 1);
                assert(spec_join(now.push(cur@), sep) =~= s@.take(i + 1)) by {
                    assert(spec_join(now.push(cur@), sep) == spec_join(now, sep) + seq![sep]
                        + cur@);
                    assert(spec_join(now, sep) == s@.take(i as int));
                    assert(s@.take(i + 1) =~= s@.take(i as int) + seq![s@[i as int]]);
                }
                assert(s@.take(i + 1).drop_last() =~= s@.take(i as int));
                assert(spec_split(s@.take(i + 1), sep) == spec_split(s@.take(i as int),
                    sep).push(Seq::<u8>::empty()));
                assert(now.push(cur@) =~= prev_fields.push(prev_cur).push(Seq::<u8>::empty()));
            }
        } else {
            cur.push(c);
            proof {
                let nowf = fields@.map_values(|f: Vec<u8>| f@);
                assert(nowf =~= prev_fields);
                if nowf.len() == 0 {
                    assert(spec_join(nowf.push(cur@), sep) == cur@);
                    assert(cur@ =~= prev_cur.push(c));
                    assert(s@.take(i + 1) =~= s@.take(i as int).push(c));
                } else {
                    assert(nowf.push(cur@).drop_last() =~= nowf);
                    assert(nowf.push(prev_cur).drop_last() =~= nowf);
                    assert(spec_join(nowf.push(cur@), sep) == spec_join(nowf, sep) + seq![sep]
                        + cur@);
                    assert(spec_join(nowf.push(prev_cur), sep) == spec_join(nowf, sep)
                        + seq![sep] + prev_cur);
                    assert(cur@ =~= prev_cur.push(c));
                    assert(spec_join(nowf, sep) + seq![sep] + cur@ =~= (spec_join(nowf, sep)
                        + seq![sep] + prev_cur).push(c));
                    assert(s@.take(i + 1) =~= s@.take(i as int).push(c));
                }
                assert(s@.take(i + 1).drop_last() =~= s@.take(i as int));
                assert(s@.take(i + 1).last() == c);
                let old_split = spec_split(s@.take(i as int), sep);
                assert(old_split == prev_fields.push(prev_cur));
                assert(spec_split(s@.take(i + 1), sep) == old_split.update(
                    old_split.len() - 1,
                    old_split.last().push(c),
                ));
                assert(nowf.push(cur@) =~= old_split.update(
                    old_split.len() - 1,
                    old_split.last().push(c),
                ));
            }
        }
        i = i + 1;
    }
    proof {
        assert(s@.take(s@.len() as int) =~= s@);
    }
    let ghost prevm = fields@.map_values(|f: Vec<u8>| f@);
    fields.push(cur);
    proof {
        assert(fields@.map_values(|f: Vec<u8>| f@) =~= prevm.push(cur@));
    }
    fields
}

/// The transit mode named by a field: `bus`, `subway`, `tram`, `rail` or
/// `ferry`.
pub open spec fn spec_mode_of(s: Seq<u8>) -> Option<Mode> {
    if s == seq![98u8, 117u8, 115u8] {
        Some(Mode::Bus)
    } else if s == seq![115u8, 117u8, 98u8, 119u8, 97u8, 121u8] {
        Some(Mode::Subway)
    } else if s == seq![116u8, 114u8, 97u8, 109u8] {
        Some(Mode::Tram)
    } else if s == seq![114u8, 97u8, 105u8, 108u8] {
        Some(Mode::Rail)
    } else if s == seq![102u8, 101u8, 114u8, 114u8, 121u8] {
        Some(Mode::Ferry)
    } else {
        None
    }
}

/// Parses a mode name, mirroring `spec_mode_of` exactly.
pub fn parse_mode(s: &Vec<u8>) -> (r: Option<Mode>)
    ensures
        r == spec_mode_of(s@),
{
    let r: Option<Mode> = if s.len() == 3 && s[0] == 98 && s[1] == 117 && s[2] == 115 {
        Some(Mode::Bus)
    } else if s.len() == 6 && s[0] == 115 && s[1] == 117 && s[2] == 98 && s[3] == 119 && s[4]
        == 97 && s[5] == 121 {
        Some(Mode::Subway)
    } else if s.len() == 4 && s[0] == 116 && s[1] == 114 && s[2] == 97 && s[3] == 109 {
        Some(Mode::Tram)
    } else if s.len() == 4 && s[0] == 114 && s[1] == 97 && s[2] == 105 && s[3] == 108 {
        Some(Mode::Rail)
    } else if s.len() == 5 && s[0] == 102 && s[1] == 101 && s[2] == 114 && s[3] == 114 && s[4]
        == 121 {
        Some(Mode::Ferry)
    } else {
        None
    };
    proof {
        if s@.len() == 3 {
            assert(s@ =~= seq![s@[0], s@[1], s@[2]]);
        } else if s@.len() == 4 {
            assert(s@ =~= seq![s@[0], s@[1], s@[2], s@[3]]);
        } else if s@.len() == 5 {
            assert(s@ =~= seq![s@[0], s@[1], s@[2], s@[3], s@[4]]);
        } else if s@.len() == 6 {
            assert(s@ =~= seq![s@[0], s@[1], s@[2], s@[3], s@[4], s@[5]]);
        }
    }
    r
}

/// Signed microdegree value: an optional leading minus, then a decimal
/// unsigned integer as `spec_parse_u32` accepts it.
pub open spec fn spec_parse_coord(s: Seq<u8>) -> Option<i64> {
    if s.len() > 0 && s[0] == 45 {
        match spec_parse_u32(s.subrange(1, s.len() as int)) {
            Some(v) => Some((-(v as int)) as i64),
            None => None,
        }
    } else {
        match spec_parse_u32(s) {
            Some(v) => Some(v as i64),
            None => None,
        }
    }
}

/// Parses a signed microdegree coordinate, mirroring `spec_parse_coord`
/// exactly.
pub fn parse_coord(s: &Vec<u8>) -> (r: Option<i64>)
    ensures
        r == spec_parse_coord(s@),
        r is Some ==> -4_294_967_295 <= r->0 <= 4_294_967_295,
{
    if s.len() > 0 && s[0] == 45 {
        let mut rest: Vec<u8> = Vec::new();
        let mut i: usize = 1;
        while i < s.len()
            invariant
                1 <= i <= s@.len(),
                rest@ == s@.subrange(1, i as int),
            decreases s@.len() - i,
        {
            proof {
                assert(s@.subrange(1, i + 1) =~= s@.subrange(1, i as int).push(s@[i as int]));
            }
            rest.push(s[i]);
            i = i + 1;
        }
        match parse_u32(&rest) {
            Some(v) => Some(-(v as i64)),
            None => None,
        }
    } else {
        match parse_u32(s) {
            Some(v) => Some(v as i64),
            None => None,
        }
    }
}

/// A well-formed agency row: `id,name`.
pub open spec fn agency_row_ok(line: Seq<u8>) -> bool {
    let f = spec_split(line, 44);
    &&& f.len() == 2
    &&& spec_parse_u32(f[0]) is Some
    &&& f[1].len() <= 256
}

/// A well-formed route row whose agency identifier resolves: `id,agency_id,mode`.
pub open spec fn route_row_ok(line: Seq<u8>, agency_ids: Seq<u32>) -> bool {
    let f = spec_split(line, 44);
    &&& f.len() == 3
    &&& spec_parse_u32(f[0]) is Some
    &&& spec_parse_u32(f[1]) is Some
    &&& spec_mode_of(f[2]) is Some
    &&& agency_ids.contains(spec_parse_u32(f[1])->0)
}

/// A well-formed service row: an identifier and seven day flags.
pub open spec fn service_row_ok(line: Seq<u8>) -> bool {
    let f = spec_split(line, 44);
    &&& f.len() == 8
    &&& forall|k: int| 0 <= k < 8 ==> spec_parse_u32(#[trigger] f[k]) is Some
}

/// A well-formed stop row with an on-globe coordinate:
/// `id,lat_microdeg,lon_microdeg,name`.
pub open spec fn stop_row_ok(line: Seq<u8>) -> bool {
    let f = spec_split(line, 44);
    &&& f.len() == 4
    &&& spec_parse_u32(f[0]) is Some
    &&& spec_parse_coord(f[1]) is Some
    &&& -90_000_000 <= spec_parse_coord(f[1])->0 <= 90_000_000
    &&& spec_parse_coord(f[2]) is Some
    &&& -180_000_000 <= spec_parse_coord(f[2])->0 <= 180_000_000
    &&& f[3].len() <= 256
}

/// A well-formed trip row whose route and service identifiers resolve:
/// `id,route_id,service_id,direction`.
pub open spec fn trip_row_ok(line: Seq<u8>, route_ids: Seq<u32>, service_ids: Seq<u32>) -> bool {
    let f = spec_split(line, 44);
    &&& f.len() == 4
    &&& spec_parse_u32(f[0]) is Some
    &&& spec_parse_u32(f[1]) is Some
    &&& spec_parse_u32(f[2]) is Some
    &&& spec_parse_u32(f[3]) is Some
    &&& route_ids.contains(spec_parse_u32(f[1])->0)
    &&& service_ids.contains(spec_parse_u32(f[2])->0)
}

/// The identifiers (first field) of a table's nonempty rows, in order.
pub open spec fn spec_ids(lines: Seq<Seq<u8>>) -> Seq<u32>
    decreases lines.len(),
{
    if lines.len() == 0 {
        Seq::empty()
    } else if lines.last().len() > 0 {
        spec_ids(lines.drop_last()).push(spec_parse_u32(spec_split(lines.last(), 44)[0])->0)
    } else {
        spec_ids(lines.drop_last())
    }
}

/// The agency table parses: every nonempty line is a valid row and the row
/// count fits a section.
pub open spec fn agencies_table_ok(text: Seq<u8>) -> bool {
    let lines = spec_split(text, 10);
    &&& forall|i: int|
        0 <= i < lines.len() && (#[trigger] lines[i]).len() > 0 ==> agency_row_ok(lines[i])
    &&& spec_n_rows(lines) <= 400_000
}

/// The route table parses against the agency identifiers.
pub open spec fn routes_table_ok(text: Seq<u8>, agency_ids: Seq<u32>) -> bool {
    let lines = spec_split(text, 10);
    &&& forall|i: int|
        0 <= i < lines.len() && (#[trigger] lines[i]).len() > 0 ==> route_row_ok(
            lines[i],
            agency_ids,
        )
    &&& spec_n_rows(lines) <= 400_000
}

/// The service table parses.
pub open spec fn services_table_ok(text: Seq<u8>) -> bool {
    let lines = spec_split(text, 10);
    &&& forall|i: int|
        0 <= i < lines.len() && (#[trigger] lines[i]).len() > 0 ==> service_row_ok(lines[i])
    &&& spec_n_rows(lines) <= 400_000
}

/// The stop table parses.
pub open spec fn stops_table_ok(text: Seq<u8>) -> bool {
    let lines = spec_split(text, 10);
    &&& forall|i: int|
        0 <= i < lines.len() && (#[trigger] lines[i]).len() > 0 ==> stop_row_ok(lines[i])
    &&& spec_n_rows(lines) <= 400_000
}

/// The trip table parses against the route and service identifiers.
pub open spec fn trips_table_ok(text: Seq<u8>, route_ids: Seq<u32>, service_ids: Seq<u32>) -> bool {
    let lines = spec_split(text, 10);
    &&& forall|i: int|
        0 <= i < lines.len() && (#[trigger] lines[i]).len() > 0 ==> trip_row_ok(
            lines[i],
            route_ids,
            service_ids,
        )
    &&& spec_n_rows(lines) <= 400_000
}

/// A schedule skeleton that ingestion must accept: the five entity tables
/// parse, every identifier resolves, and the stop-time and shape tables are
/// empty.  (Feeds with stop-time or shape rows may still parse; this names
/// the class on which success is owed by contract.)
pub open spec fn spec_feed_skeleton_ok(files: FeedFiles) -> bool {
    &&& agencies_table_ok(files.agencies@)
    &&& routes_table_ok(files.routes@, spec_ids(spec_split(files.agencies@, 10)))
    &&& services_table_ok(files.services@)
    &&& stops_table_ok(files.stops@)
    &&& trips_table_ok(
        files.trips@,
        spec_ids(spec_split(files.routes@, 10)),
        spec_ids(spec_split(files.services@, 10)),
    )
    &&& files.stop_times@.len() == 0
    &&& files.shapes@.len() == 0
}

/// The raw feed tables, one file's text each; the service layer reads them
/// from disk and reports a missing file as `IoError` itself.
pub struct FeedFiles {
    pub agencies: Vec<u8>,
    pub routes: Vec<u8>,
    pub services: Vec<u8>,
    pub stops: Vec<u8>,
    pub trips: Vec<u8>,
    pub stop_times: Vec<u8>,
    pub shapes: Vec<u8>,
}

/// Finds the position of `id` in a parallel identifier column.
fn find_id(ids: &Vec<u32>, id: u32) -> (r: Option<usize>)
    ensures
        r is Some ==> r->0 < ids@.len() && ids@[r->0 as int] == id,
        r is None ==> forall|j: int| 0 <= j < ids@.len() ==> ids@[j] != id,
{
    let mut i: usize = 0;
    while i < ids.len()
        invariant
            i <= ids@.len(),
            forall|j: int| 0 <= j < i ==> ids@[j] != id,
        decreases ids@.len() - i,
    {
        if ids[i] == id {
            return Some(i);
        }
        i = i + 1;
    }
    None
}

/// Parses the raw feed tables into a typed store, once per city.  Fails
/// with `ParseError` on any malformed row, unresolvable identifier,
/// out-of-order stop-time group or oversized section.  On success the store
/// is well formed, fits one snapshot, carries one record per nonempty line
/// of each entity table, and derives a shape exactly for every route that
/// the feed left without geometry but gave at least one trip.  Success is
/// owed on every schedule skeleton ([`spec_feed_skeleton_ok`]): five valid
/// entity tables with empty stop-time and shape tables.
pub fn initialize(files: &FeedFiles) -> (r: Result<ScheduleStore, IngestError>)
    ensures
        r is Ok ==> {
            let s = r->Ok_0;
            &&& s.wf()
            &&& crate::serialization::snapshot_compatible(s)
            &&& forall|g: int, h: int|
                0 <= g < s.generated_shapes@.len() && 0 <= h < s.shapes@.len() ==> (
                #[trigger] s.generated_shapes@[g]).route != (#[trigger] s.shapes@[h]).route
            &&& forall|route: int|
                0 <= route < s.routes@.len() && !route_has_shape(s.shapes@, route)
                    && #[trigger] route_has_trip(s.trips@, route) ==> route_has_shape(
                    s.generated_shapes@,
                    route,
                )
        },
        r is Err ==> r->Err_0 == IngestError::ParseError,
        (files.agencies@.len() == 0 && files.routes@.len() == 0 && files.services@.len() == 0
            && files.stops@.len() == 0 && files.trips@.len() == 0 && files.stop_times@.len() == 0
            && files.shapes@.len() == 0) ==> r is Ok,
        spec_feed_skeleton_ok(*files) ==> r is Ok,
        r is Ok ==> {
            let s = r->Ok_0;
            &&& s.agencies@.len() == spec_n_rows(spec_split(files.agencies@, 10))
            &&& s.routes@.len() == spec_n_rows(spec_split(files.routes@, 10))
            &&& s.services@.len() == spec_n_rows(spec_split(files.services@, 10))
            &&& s.stops@.len() == spec_n_rows(spec_split(files.stops@, 10))
            &&& s.trips@.len() == spec_n_rows(spec_split(files.trips@, 10))
        },
{
    let mut agencies: Vec<Agency> = Vec::new();
    let ag_lines = split_on(&files.agencies, 10);
    let ghost agl = spec_split(files.agencies@, 10);
    proof {
        if files.agencies@.len() == 0 {
            lemma_split_of_empty(ag_lines@.map_values(|f: Vec<u8>| f@), 10);
        }
    }
    let mut li: usize = 0;
    while li < ag_lines.len()
        invariant
            li <= ag_lines@.len(),
            files.agencies@.len() == 0 ==> ag_lines@.len() == 1 && ag_lines@[0]@.len() == 0,
            agl == spec_split(files.agencies@, 10),
            ag_lines@.map_values(|f: Vec<u8>| f@) == agl,
            agencies@.len() == spec_n_rows(agl.take(li as int)),
            agencies@.map_values(|a: Agency| a.id) == spec_ids(agl.take(li as int)),
            agencies@.len() <= 400_000,
            forall|j: int|
                0 <= j < agencies@.len() ==> (#[trigger] agencies@[j]).name@.len() <= 256,
        decreases ag_lines@.len() - li,
    {
        let line = &ag_lines[li];
        proof {
            assert(line@ == agl[li as int]);
            assert(agl.take(li + 1).drop_last() =~= agl.take(li as int));
            if spec_feed_skeleton_ok(*files) && line@.len() > 0 {
                assert(spec_split(files.agencies@, 10)[li as int] == agl[li as int]);
                assert(agency_row_ok(spec_split(files.agencies@, 10)[li as int]));
                assert(agency_row_ok(agl[li as int]));
                assert(agl.take(li + 1).last() == agl[li as int]);
                assert(spec_n_rows(agl.take(li + 1)) == spec_n_rows(agl.take(li as int)) + 1);
                lemma_n_rows_mono(agl, li + 1);
            }
        }
        if line.len() > 0 {
            let f = split_on(line, 44);
            proof {
                assert(f@.map_values(|x: Vec<u8>| x@) == spec_split(line@, 44));
                if spec_feed_skeleton_ok(*files) {
                    assert(f@[0]@ == spec_split(line@, 44)[0]);
                    assert(f@[1]@ == spec_split(line@, 44)[1]);
                }
            }
            if f.len() != 2 {
                return Err(IngestError::ParseError);
            }
            let id = match parse_u32(&f[0]) {
                Some(v) => v,
                None => {
                    return Err(IngestError::ParseError);
                },
            };
            if f[1].len() > 256 || agencies.len() >= 400_000 {
                return Err(IngestError::ParseError);
            }
            let name = f[1].clone();
            proof {
                assert(name@.len() <= 256);
            }
            let ghost prev_ids = agencies@.map_values(|a: Agency| a.id);
            agencies.push(Agency { id, name });
            proof {
                assert(agencies@.map_values(|a: Agency| a.id) =~= prev_ids.push(id));
            }
        }
        proof {
            assert(agl.take(li + 1).drop_last() =~= agl.take(li as int));
            assert(agl[li as int] == ag_lines@[li as int]@);
        }
        li = li + 1;
    }
    proof {
        assert(agl.take(agl.len() as int) =~= agl);
        assert(agencies@.map_values(|a: Agency| a.id) == spec_ids(agl));
    }
    let mut routes: Vec<Route> = Vec::new();
    let mut route_ids: Vec<u32> = Vec::new();
    let rt_lines = split_on(&files.routes, 10);
    let ghost rtl = spec_split(files.routes@, 10);
    proof {
        if files.routes@.len() == 0 {
            lemma_split_of_empty(rt_lines@.map_values(|f: Vec<u8>| f@), 10);
        }
    }
    let mut li2: usize = 0;
    while li2 < rt_lines.len()
        invariant
            li2 <= rt_lines@.len(),
            files.routes@.len() == 0 ==> rt_lines@.len() == 1 && rt_lines@[0]@.len() == 0,
            agl == spec_split(files.agencies@, 10),
            rtl == spec_split(files.routes@, 10),
            rt_lines@.map_values(|f: Vec<u8>| f@) == rtl,
            routes@.len() == spec_n_rows(rtl.take(li2 as int)),
            route_ids@ == spec_ids(rtl.take(li2 as int)),
            agencies@.map_values(|a: Agency| a.id) == spec_ids(agl),
            routes@.len() <= 400_000,
            route_ids@.len() == routes@.len(),
            forall|j: int|
                0 <= j < routes@.len() ==> (#[trigger] routes@[j]).agency < agencies@.len(),
        decreases rt_lines@.len() - li2,
    {
        let line = &rt_lines[li2];
        proof {
            assert(line@ == rtl[li2 as int]);
            assert(rtl.take(li2 + 1).drop_last() =~= rtl.take(li2 as int));
            if spec_feed_skeleton_ok(*files) && line@.len() > 0 {
                assert(spec_split(files.routes@, 10)[li2 as int] == rtl[li2 as int]);
                assert(route_row_ok(
                    spec_split(files.routes@, 10)[li2 as int],
                    spec_ids(spec_split(files.agencies@, 10)),
                ));
                assert(route_row_ok(rtl[li2 as int], spec_ids(agl)));
                assert(rtl.take(li2 + 1).last() == rtl[li2 as int]);
                assert(spec_n_rows(rtl.take(li2 + 1)) == spec_n_rows(rtl.take(li2 as int)) + 1);
                lemma_n_rows_mono(rtl, li2 + 1);
            }
        }
        if line.len() > 0 {
            let f = split_on(line, 44);
            proof {
                assert(f@.map_values(|x: Vec<u8>| x@) == spec_split(line@, 44));
                if spec_feed_skeleton_ok(*files) {
                    assert(f@[0]@ == spec_split(line@, 44)[0]);
                    assert(f@[1]@ == spec_split(line@, 44)[1]);
                    assert(f@[2]@ == spec_split(line@, 44)[2]);
                }
            }
            if f.len() != 3 {
                return Err(IngestError::ParseError);
            }
            let id = match parse_u32(&f[0]) {
                Some(v) => v,
                None => {
                    return Err(IngestError::ParseError);
                },
            };
            let agency_id = match parse_u32(&f[1]) {
                Some(v) => v,
                None => {
                    return Err(IngestError::ParseError);
                },
            };
            let mode = match parse_mode(&f[2]) {
                Some(m) => m,
                None => {
                    return Err(IngestError::ParseError);
                },
            };
            let mut agency: usize = 0;
            let mut found: bool = false;
            let mut a: usize = 0;
            while a < agencies.len()
                invariant
                    a <= agencies@.len(),
                    found ==> agency < agencies@.len(),
                    found == exists|q: int|
                        0 <= q < a && (#[trigger] agencies@[q]).id == agency_id,
                decreases agencies@.len() - a,
            {
                if agencies[a].id == agency_id {
                    agency = a;
                    found = true;
                }
                a = a + 1;
            }
            proof {
                if spec_feed_skeleton_ok(*files) {
                    let ids = spec_ids(agl);
                    assert(ids.contains(agency_id));
                    let q = choose|q: int| 0 <= q < ids.len() && ids[q] == agency_id;
                    assert(agencies@.map_values(|x: Agency| x.id)[q] == agency_id);
                    assert(agencies@[q].id == agency_id);
                }
            }
            if !found || routes.len() >= 400_000 {
                return Err(IngestError::ParseError);
            }
            routes.push(Route { agency, mode });
            route_ids.push(id);
        }
        proof {
            assert(rtl[li2 as int] == rt_lines@[li2 as int]@);
            assert(rtl.take(li2 + 1).drop_last() =~= rtl.take(li2 as int));
            assert(rtl[li2 as int] == rt_lines@[li2 as int]@);
        }
        li2 = li2 + 1;
    }
    proof {
        assert(rtl.take(rtl.len() as int) =~= rtl);
        assert(route_ids@ == spec_ids(rtl));
    }
    let mut services: Vec<Service> = Vec::new();
    let mut service_ids: Vec<u32> = Vec::new();
    let sv_lines = split_on(&files.services, 10);
    let ghost svl = spec_split(files.services@, 10);
    proof {
        if files.services@.len() == 0 {
            lemma_split_of_empty(sv_lines@.map_values(|f: Vec<u8>| f@), 10);
        }
    }
    let mut li3: usize = 0;
    while li3 < sv_lines.len()
        invariant
            li3 <= sv_lines@.len(),
            files.services@.len() == 0 ==> sv_lines@.len() == 1 && sv_lines@[0]@.len() == 0,
            svl == spec_split(files.services@, 10),
            sv_lines@.map_values(|f: Vec<u8>| f@) == svl,
            services@.len() == spec_n_rows(svl.take(li3 as int)),
            service_ids@ == spec_ids(svl.take(li3 as int)),
            services@.len() <= 400_000,
            service_ids@.len() == services@.len(),
        decreases sv_lines@.len() - li3,
    {
        let line = &sv_lines[li3];
        proof {
            assert(line@ == svl[li3 as int]);
            assert(svl.take(li3 + 1).drop_last() =~= svl.take(li3 as int));
            if spec_feed_skeleton_ok(*files) && line@.len() > 0 {
                assert(spec_split(files.services@, 10)[li3 as int] == svl[li3 as int]);
                assert(service_row_ok(spec_split(files.services@, 10)[li3 as int]));
                assert(service_row_ok(svl[li3 as int]));
                assert(svl.take(li3 + 1).last() == svl[li3 as int]);
                assert(spec_n_rows(svl.take(li3 + 1)) == spec_n_rows(svl.take(li3 as int)) + 1);
                lemma_n_rows_mono(svl, li3 + 1);
            }
        }
        if line.len() > 0 {
            let f = split_on(line, 44);
            proof {
                assert(f@.map_values(|x: Vec<u8>| x@) == spec_split(line@, 44));
                if spec_feed_skeleton_ok(*files) {
                    assert forall|k: int| 0 <= k < 8 implies spec_parse_u32(
                        (#[trigger] f@[k])@,
                    ) is Some by {
                        assert(f@[k]@ == spec_split(line@, 44)[k]);
                    }
                }
            }
            if f.len() != 8 {
                return Err(IngestError::ParseError);
            }
            let id = match parse_u32(&f[0]) {
                Some(v) => v,
                None => {
                    return Err(IngestError::ParseError);
                },
            };
            let mut days: Vec<bool> = Vec::new();
            let mut d: usize = 1;
            while d < 8
                invariant
                    1 <= d <= 8,
                    days@.len() == d - 1,
                    f@.len() == 8,
                    files.services@.len() != 0,
                    spec_feed_skeleton_ok(*files) ==> forall|k: int|
                        0 <= k < 8 ==> spec_parse_u32((#[trigger] f@[k])@) is Some,
                decreases 8 - d,
            {
                match parse_u32(&f[d]) {
                    Some(v) => days.push(v != 0),
                    None => {
                        return Err(IngestError::ParseError);
                    },
                }
                d = d + 1;
            }
            if services.len() >= 400_000 {
                return Err(IngestError::ParseError);
            }
            services.push(
                Service {
                    monday: days[0],
                    tuesday: days[1],
                    wednesday: days[2],
                    thursday: days[3],
                    friday: days[4],
                    saturday: days[5],
                    sunday: days[6],
                },
            );
            service_ids.push(id);
        }
        proof {
            assert(svl.take(li3 + 1).drop_last() =~= svl.take(li3 as int));
            assert(svl[li3 as int] == sv_lines@[li3 as int]@);
        }
        li3 = li3 + 1;
    }
    proof {
        assert(svl.take(svl.len() as int) =~= svl);
        assert(service_ids@ == spec_ids(svl));
    }
    let mut stops: Vec<Stop> = Vec::new();
    let mut stop_ids: Vec<u32> = Vec::new();
    let st_lines = split_on(&files.stops, 10);
    let ghost stl = spec_split(files.stops@, 10);
    proof {
        if files.stops@.len() == 0 {
            lemma_split_of_empty(st_lines@.map_values(|f: Vec<u8>| f@), 10);
        }
    }
    let mut li4: usize = 0;
    while li4 < st_lines.len()
        invariant
            li4 <= st_lines@.len(),
            files.stops@.len() == 0 ==> st_lines@.len() == 1 && st_lines@[0]@.len() == 0,
            stl == spec_split(files.stops@, 10),
            st_lines@.map_values(|f: Vec<u8>| f@) == stl,
            stops@.len() == spec_n_rows(stl.take(li4 as int)),
            stops@.len() <= 400_000,
            stop_ids@.len() == stops@.len(),
            forall|j: int| 0 <= j < stops@.len() ==> (#[trigger] stops@[j]).coord.wf(),
            forall|j: int| 0 <= j < stops@.len() ==> (#[trigger] stops@[j]).name@.len() <= 256,
        decreases st_lines@.len() - li4,
    {
        let line = &st_lines[li4];
        proof {
            assert(line@ == stl[li4 as int]);
            assert(stl.take(li4 + 1).drop_last() =~= stl.take(li4 as int));
            if spec_feed_skeleton_ok(*files) && line@.len() > 0 {
                assert(spec_split(files.stops@, 10)[li4 as int] == stl[li4 as int]);
                assert(stop_row_ok(spec_split(files.stops@, 10)[li4 as int]));
                assert(stop_row_ok(stl[li4 as int]));
                assert(stl.take(li4 + 1).last() == stl[li4 as int]);
                assert(spec_n_rows(stl.take(li4 + 1)) == spec_n_rows(stl.take(li4 as int)) + 1);
                lemma_n_rows_mono(stl, li4 + 1);
            }
        }
        if line.len() > 0 {
            let f = split_on(line, 44);
            proof {
                assert(f@.map_values(|x: Vec<u8>| x@) == spec_split(line@, 44));
                if spec_feed_skeleton_ok(*files) {
                    assert(f@[0]@ == spec_split(line@, 44)[0]);
                    assert(f@[1]@ == spec_split(line@, 44)[1]);
                    assert(f@[2]@ == spec_split(line@, 44)[2]);
                    assert(f@[3]@ == spec_split(line@, 44)[3]);
                }
            }
            if f.len() != 4 {
                return Err(IngestError::ParseError);
            }
            let id = match parse_u32(&f[0]) {
                Some(v) => v,
                None => {
                    return Err(IngestError::ParseError);
                },
            };
            let lat = match parse_coord(&f[1]) {
                Some(v) => v,
                None => {
                    return Err(IngestError::ParseError);
                },
            };
            let lon = match parse_coord(&f[2]) {
                Some(v) => v,
                None => {
                    return Err(IngestError::ParseError);
                },
            };
            if lat < -90_000_000 || lat > 90_000_000 || lon < -180_000_000 || lon > 180_000_000 {
                return Err(IngestError::ParseError);
            }
            if f[3].len() > 256 || stops.len() >= 400_000 {
                return Err(IngestError::ParseError);
            }
            stops.push(
                Stop { coord: LatLng { lat_microdeg: lat, lon_microdeg: lon }, name: f[3].clone() },
            );
            stop_ids.push(id);
        }
        proof {
            assert(stl.take(li4 + 1).drop_last() =~= stl.take(li4 as int));
            assert(stl[li4 as int] == st_lines@[li4 as int]@);
        }
        li4 = li4 + 1;
    }
    proof {
        assert(stl.take(stl.len() as int) =~= stl);
    }
    let mut trips: Vec<Trip> = Vec::new();
    let mut trip_ids: Vec<u32> = Vec::new();
    let tr_lines = split_on(&files.trips, 10);
    let ghost trl = spec_split(files.trips@, 10);
    proof {
        if files.trips@.len() == 0 {
            lemma_split_of_empty(tr_lines@.map_values(|f: Vec<u8>| f@), 10);
        }
    }
    let mut li5: usize = 0;
    while li5 < tr_lines.len()
        invariant
            li5 <= tr_lines@.len(),
            files.trips@.len() == 0 ==> tr_lines@.len() == 1 && tr_lines@[0]@.len() == 0,
            trl == spec_split(files.trips@, 10),
            rtl == spec_split(files.routes@, 10),
            svl == spec_split(files.services@, 10),
            tr_lines@.map_values(|f: Vec<u8>| f@) == trl,
            trips@.len() == spec_n_rows(trl.take(li5 as int)),
            route_ids@ == spec_ids(rtl),
            service_ids@ == spec_ids(svl),
            trips@.len() <= 400_000,
            trip_ids@.len() == trips@.len(),
            route_ids@.len() == routes@.len(),
            service_ids@.len() == services@.len(),
            forall|j: int|
                0 <= j < trips@.len() ==> crate::schedule::trip_wf(
                    #[trigger] trips@[j],
                    routes@.len() as int,
                    services@.len() as int,
                    stops@.len() as int,
                ),
            forall|j: int|
                0 <= j < trips@.len() ==> (#[trigger] trips@[j]).stop_times@.len() == 0,
        decreases tr_lines@.len() - li5,
    {
        let line = &tr_lines[li5];
        proof {
            assert(line@ == trl[li5 as int]);
            assert(trl.take(li5 + 1).drop_last() =~= trl.take(li5 as int));
            if spec_feed_skeleton_ok(*files) && line@.len() > 0 {
                assert(spec_split(files.trips@, 10)[li5 as int] == trl[li5 as int]);
                assert(trip_row_ok(
                    spec_split(files.trips@, 10)[li5 as int],
                    spec_ids(spec_split(files.routes@, 10)),
                    spec_ids(spec_split(files.services@, 10)),
                ));
                assert(trip_row_ok(trl[li5 as int], spec_ids(rtl), spec_ids(svl)));
                assert(trl.take(li5 + 1).last() == trl[li5 as int]);
                assert(spec_n_rows(trl.take(li5 + 1)) == spec_n_rows(trl.take(li5 as int)) + 1);
                lemma_n_rows_mono(trl, li5 + 1);
            }
        }
        if line.len() > 0 {
            let f = split_on(line, 44);
            proof {
                assert(f@.map_values(|x: Vec<u8>| x@) == spec_split(line@, 44));
                if spec_feed_skeleton_ok(*files) {
                    assert(f@[0]@ == spec_split(line@, 44)[0]);
                    assert(f@[1]@ == spec_split(line@, 44)[1]);
                    assert(f@[2]@ == spec_split(line@, 44)[2]);
                    assert(f@[3]@ == spec_split(line@, 44)[3]);
                }
            }
            if f.len() != 4 {
                return Err(IngestError::ParseError);
            }
            let id = match parse_u32(&f[0]) {
                Some(v) => v,
                None => {
                    return Err(IngestError::ParseError);
                },
            };
            let route_id = match parse_u32(&f[1]) {
                Some(v) => v,
                None => {
                    return Err(IngestError::ParseError);
                },
            };
            let service_id = match parse_u32(&f[2]) {
                Some(v) => v,
                None => {
                    return Err(IngestError::ParseError);
                },
            };
            let dir = match parse_u32(&f[3]) {
                Some(v) => v,
                None => {
                    return Err(IngestError::ParseError);
                },
            };
            let route = match find_id(&route_ids, route_id) {
                Some(i) => i,
                None => {
                    return Err(IngestError::ParseError);
                },
            };
            let service = match find_id(&service_ids, service_id) {
                Some(i) => i,
                None => {
                    return Err(IngestError::ParseError);
                },
            };
            if trips.len() >= 400_000 {
                return Err(IngestError::ParseError);
            }
            trips.push(
                Trip {
                    route,
                    service,
                    direction: if dir == 1 {
                        DirectionType::Inbound
                    } else {
                        DirectionType::Outbound
                    },
                    stop_times: Vec::new(),
                },
            );
            trip_ids.push(id);
        }
        proof {
            assert(trl.take(li5 + 1).drop_last() =~= trl.take(li5 as int));
            assert(trl[li5 as int] == tr_lines@[li5 as int]@);
        }
        li5 = li5 + 1;
    }
    proof {
        assert(trl.take(trl.len() as int) =~= trl);
    }
    let st = ingest_stop_times(&files.stop_times, &trip_ids, &stop_ids, &mut trips, routes.len(),
        services.len(), stops.len());
    match st {
        Ok(()) => (),
        Err(e) => {
            return Err(e);
        },
    }
    let shapes = match ingest_shapes(&files.shapes, &route_ids) {
        Ok(v) => v,
        Err(e) => {
            return Err(e);
        },
    };
    let generated_shapes = derive_shapes(&routes, &trips, &stops, &shapes);
    Ok(ScheduleStore { agencies, routes, trips, stops, services, shapes, generated_shapes })
}

/// Replaces the call list of one trip, leaving every other field and trip
/// untouched.
fn set_trip_stop_times(trips: &mut Vec<Trip>, t: usize, list: Vec<StopTime>)
    requires
        t < old(trips)@.len(),
    ensures
        final(trips)@.len() == old(trips)@.len(),
        forall|j: int| 0 <= j < final(trips)@.len() && j != t ==> final(trips)@[j] == old(trips)@[j],
        final(trips)@[t as int].route == old(trips)@[t as int].route,
        final(trips)@[t as int].service == old(trips)@[t as int].service,
        final(trips)@[t as int].direction == old(trips)@[t as int].direction,
        final(trips)@[t as int].stop_times@ == list@,
{
    let mut tr = trips.remove(t);
    tr.stop_times = list;
    trips.insert(t, tr);
    proof {
        assert forall|j: int| 0 <= j < trips@.len() && j != t implies trips@[j] == old(
            trips,
        )@[j] by {}
    }
}

/// Ingests the grouped stop-time table: each trip's rows stand together,
/// chronological, at most 256 per trip; every identifier must resolve.
fn ingest_stop_times(
    text: &Vec<u8>,
    trip_ids: &Vec<u32>,
    stop_ids: &Vec<u32>,
    trips: &mut Vec<Trip>,
    n_rt: usize,
    n_sv: usize,
    n_st: usize,
) -> (r: Result<(), IngestError>)
    requires
        trip_ids@.len() == old(trips)@.len(),
        stop_ids@.len() == n_st,
        old(trips)@.len() <= 400_000,
        forall|j: int|
            0 <= j < old(trips)@.len() ==> crate::schedule::trip_wf(
                #[trigger] old(trips)@[j],
                n_rt as int,
                n_sv as int,
                n_st as int,
            ),
        forall|j: int|
            0 <= j < old(trips)@.len() ==> (#[trigger] old(trips)@[j]).stop_times@.len() == 0,
    ensures
        final(trips)@.len() == old(trips)@.len(),
        forall|j: int|
            0 <= j < final(trips)@.len() ==> crate::schedule::trip_wf(
                #[trigger] final(trips)@[j],
                n_rt as int,
                n_sv as int,
                n_st as int,
            ),
        forall|j: int|
            0 <= j < final(trips)@.len() ==> (#[trigger] final(trips)@[j]).stop_times@.len()
                <= 256,
        r is Err ==> r->Err_0 == IngestError::ParseError,
        text@.len() == 0 ==> r is Ok,
{
    let lines = split_on(text, 10);
    proof {
        if text@.len() == 0 {
            lemma_split_of_empty(lines@.map_values(|f: Vec<u8>| f@), 10);
        }
    }
    let mut cur: usize = 0;
    let mut in_group: bool = false;
    let mut list: Vec<StopTime> = Vec::new();
    let mut prev_dep: u32 = 0;
    let mut filled: Vec<bool> = Vec::new();
    let mut fi: usize = 0;
    while fi < trips.len()
        invariant
            fi <= trips@.len(),
            filled@.len() == fi,
            trips@ == old(trips)@,
        decreases trips@.len() - fi,
    {
        filled.push(false);
        fi = fi + 1;
    }
    let mut li: usize = 0;
    while li < lines.len()
        invariant
            text@.len() == 0 ==> lines@.len() == 1 && lines@[0]@.len() == 0 && !in_group,
            trips@.len() == old(trips)@.len(),
            filled@.len() == trips@.len(),
            trip_ids@.len() == trips@.len(),
            stop_ids@.len() == n_st,
            in_group ==> cur < trips@.len(),
            forall|j: int|
                0 <= j < trips@.len() ==> crate::schedule::trip_wf(
                    #[trigger] trips@[j],
                    n_rt as int,
                    n_sv as int,
                    n_st as int,
                ),
            forall|j: int| 0 <= j < trips@.len() ==> (#[trigger] trips@[j]).stop_times@.len() <= 256,
            list@.len() <= 256,
            prev_dep <= MAX_SCHEDULE_TIME,
            forall|j: int|
                0 <= j < list@.len() ==> {
                    &&& (#[trigger] list@[j]).stop < n_st
                    &&& list@[j].arrival <= list@[j].departure
                    &&& list@[j].departure <= MAX_SCHEDULE_TIME
                },
            forall|j: int|
                0 < j < list@.len() ==> (#[trigger] list@[j]).arrival >= list@[j - 1].departure,
            list@.len() > 0 ==> prev_dep == list@.last().departure,
        decreases lines@.len() - li,
    {
        let line = &lines[li];
        if line.len() > 0 {
            let f = split_on(line, 44);
            if f.len() != 4 {
                return Err(IngestError::ParseError);
            }
            let tid = match parse_u32(&f[0]) {
                Some(v) => v,
                None => {
                    return Err(IngestError::ParseError);
                },
            };
            let sid = match parse_u32(&f[1]) {
                Some(v) => v,
                None => {
                    return Err(IngestError::ParseError);
                },
            };
            let arrival = match parse_time(&f[2]) {
                Some(v) => v,
                None => {
                    return Err(IngestError::ParseError);
                },
            };
            let departure = match parse_time(&f[3]) {
                Some(v) => v,
                None => {
                    return Err(IngestError::ParseError);
                },
            };
            if arrival > departure {
                return Err(IngestError::ParseError);
            }
            let t = match find_id(trip_ids, tid) {
                Some(i) => i,
                None => {
                    return Err(IngestError::ParseError);
                },
            };
            let stop = match find_id(stop_ids, sid) {
                Some(i) => i,
                None => {
                    return Err(IngestError::ParseError);
                },
            };
            if in_group && t == cur {
                if arrival < prev_dep || list.len() >= 256 {
                    return Err(IngestError::ParseError);
                }
                list.push(StopTime { stop, arrival, departure });
                prev_dep = departure;
            } else {
                if in_group {
                    if filled[cur] {
                        return Err(IngestError::ParseError);
                    }
                    set_trip_stop_times(trips, cur, list);
                    filled.set(cur, true);
                }
                if filled[t] {
                    return Err(IngestError::ParseError);
                }
                cur = t;
                in_group = true;
                list = Vec::new();
                list.push(StopTime { stop, arrival, departure });
                prev_dep = departure;
            }
        }
        li = li + 1;
    }
    if in_group {
        if filled[cur] {
            return Err(IngestError::ParseError);
        }
        set_trip_stop_times(trips, cur, list);
    }
    Ok(())
}

/// Ingests the grouped shape table (`route_id,lat,lon`, rows of one route
/// standing together, at most 256 points per shape).
fn ingest_shapes(text: &Vec<u8>, route_ids: &Vec<u32>) -> (r: Result<Vec<Shape>, IngestError>)
    ensures
        r is Ok ==> {
            let v = r->Ok_0;
            &&& v@.len() <= 400_000
            &&& forall|j: int|
                0 <= j < v@.len() ==> (#[trigger] v@[j]).route < route_ids@.len()
            &&& forall|j: int| 0 <= j < v@.len() ==> (#[trigger] v@[j]).points@.len() <= 256
        },
        r is Err ==> r->Err_0 == IngestError::ParseError,
        text@.len() == 0 ==> r is Ok,
{
    let mut shapes: Vec<Shape> = Vec::new();
    let lines = split_on(text, 10);
    proof {
        if text@.len() == 0 {
            lemma_split_of_empty(lines@.map_values(|f: Vec<u8>| f@), 10);
        }
    }
    let mut li: usize = 0;
    while li < lines.len()
        invariant
            text@.len() == 0 ==> lines@.len() == 1 && lines@[0]@.len() == 0,
            shapes@.len() <= 400_000,
            forall|j: int|
                0 <= j < shapes@.len() ==> (#[trigger] shapes@[j]).route < route_ids@.len(),
            forall|j: int| 0 <= j < shapes@.len() ==> (#[trigger] shapes@[j]).points@.len() <= 256,
        decreases lines@.len() - li,
    {
        let line = &lines[li];
        if line.len() > 0 {
            let f = split_on(line, 44);
            if f.len() != 3 {
                return Err(IngestError::ParseError);
            }
            let rid = match parse_u32(&f[0]) {
                Some(v) => v,
                None => {
                    return Err(IngestError::ParseError);
                },
            };
            let lat = match parse_coord(&f[1]) {
                Some(v) => v,
                None => {
                    return Err(IngestError::ParseError);
                },
            };
            let lon = match parse_coord(&f[2]) {
                Some(v) => v,
                None => {
                    return Err(IngestError::ParseError);
                },
            };
            let route = match find_id(route_ids, rid) {
                Some(i) => i,
                None => {
                    return Err(IngestError::ParseError);
                },
            };
            let pt = LatLng { lat_microdeg: lat, lon_microdeg: lon };
            let extend: bool = if shapes.len() > 0 {
                let last = &shapes[shapes.len() - 1];
                last.route == route
            } else {
                false
            };
            if extend {
                let mut sh = match shapes.pop() {
                    Some(sh) => sh,
                    None => {
                        return Err(IngestError::ParseError);
                    },
                };
                if sh.points.len() >= 256 {
                    return Err(IngestError::ParseError);
                }
                sh.points.push(pt);
                shapes.push(sh);
            } else {
                if shapes.len() >= 400_000 {
                    return Err(IngestError::ParseError);
                }
                let mut points: Vec<LatLng> = Vec::new();
                points.push(pt);
                shapes.push(Shape { route, points });
            }
        }
        li = li + 1;
    }
    Ok(shapes)
}

/// Whether any shape of the list belongs to the route.
pub open spec fn route_has_shape(shapes: Seq<Shape>, route: int) -> bool {
    exists|h: int| 0 <= h < shapes.len() && (#[trigger] shapes[h]).route == route
}

/// Whether any trip of the list runs on the route.
pub open spec fn route_has_trip(trips: Seq<Trip>, route: int) -> bool {
    exists|t: int| 0 <= t < trips.len() && (#[trigger] trips[t]).route == route
}

/// Derives geometry for every route the feed left without a shape, from the
/// stop coordinates of the route's first trip; routes with neither shape
/// nor trips stay without geometry.
fn derive_shapes(
    routes: &Vec<Route>,
    trips: &Vec<Trip>,
    stops: &Vec<Stop>,
    shapes: &Vec<Shape>,
) -> (r: Vec<Shape>)
    requires
        routes@.len() <= 400_000,
        forall|j: int|
            0 <= j < trips@.len() ==> (#[trigger] trips@[j]).route < routes@.len(),
        forall|j: int| 0 <= j < trips@.len() ==> (#[trigger] trips@[j]).stop_times@.len() <= 256,
        forall|j: int, k: int|
            0 <= j < trips@.len() && 0 <= k < trips@[j].stop_times@.len() ==> (
            #[trigger] trips@[j].stop_times@[k]).stop < stops@.len(),
    ensures
        r@.len() <= 400_000,
        forall|j: int| 0 <= j < r@.len() ==> (#[trigger] r@[j]).route < routes@.len(),
        forall|j: int| 0 <= j < r@.len() ==> (#[trigger] r@[j]).points@.len() <= 256,
        forall|g: int, h: int|
            0 <= g < r@.len() && 0 <= h < shapes@.len() ==> (#[trigger] r@[g]).route != (
            #[trigger] shapes@[h]).route,
        forall|route: int|
            0 <= route < routes@.len() && !route_has_shape(shapes@, route)
                && #[trigger] route_has_trip(trips@, route) ==> route_has_shape(r@, route),
{
    let mut out: Vec<Shape> = Vec::new();
    let mut rt: usize = 0;
    while rt < routes.len()
        invariant
            rt <= routes@.len(),
            routes@.len() <= 400_000,
            out@.len() <= rt,
            forall|j: int|
                0 <= j < trips@.len() ==> (#[trigger] trips@[j]).route < routes@.len(),
            forall|j: int|
                0 <= j < trips@.len() ==> (#[trigger] trips@[j]).stop_times@.len() <= 256,
            forall|j: int, k: int|
                0 <= j < trips@.len() && 0 <= k < trips@[j].stop_times@.len() ==> (
                #[trigger] trips@[j].stop_times@[k]).stop < stops@.len(),
            forall|j: int| 0 <= j < out@.len() ==> (#[trigger] out@[j]).route < routes@.len(),
            forall|j: int| 0 <= j < out@.len() ==> (#[trigger] out@[j]).points@.len() <= 256,
            forall|g: int, h: int|
                0 <= g < out@.len() && 0 <= h < shapes@.len() ==> (#[trigger] out@[g]).route != (
                #[trigger] shapes@[h]).route,
            forall|route: int|
                0 <= route < rt && !route_has_shape(shapes@, route) && #[trigger] route_has_trip(
                    trips@,
                    route,
                ) ==> route_has_shape(out@, route),
        decreases routes@.len() - rt,
    {
        let mut has_shape: bool = false;
        let mut h: usize = 0;
        while h < shapes.len()
            invariant
                h <= shapes@.len(),
                has_shape == exists|j: int| 0 <= j < h && (#[trigger] shapes@[j]).route == rt,
            decreases shapes@.len() - h,
        {
            if shapes[h].route == rt {
                has_shape = true;
            }
            h = h + 1;
        }
        if !has_shape {
            let mut t: usize = 0;
            let mut found: bool = false;
            let mut ti: usize = 0;
            while t < trips.len()
                invariant
                    t <= trips@.len(),
                    found ==> ti < trips@.len(),
                    found == exists|q: int|
                        0 <= q < t && (#[trigger] trips@[q]).route == rt,
                decreases trips@.len() - t,
            {
                if !found && trips[t].route == rt {
                    ti = t;
                    found = true;
                }
                t = t + 1;
            }
            if found {
                let trip = &trips[ti];
                let mut points: Vec<LatLng> = Vec::new();
                let mut k: usize = 0;
                while k < trip.stop_times.len()
                    invariant
                        k <= trip.stop_times@.len(),
                        trip.stop_times@.len() <= 256,
                        points@.len() == k,
                        trip == trips@[ti as int],
                        ti < trips@.len(),
                        forall|j: int, kk: int|
                            0 <= j < trips@.len() && 0 <= kk < trips@[j].stop_times@.len() ==> (
                            #[trigger] trips@[j].stop_times@[kk]).stop < stops@.len(),
                    decreases trip.stop_times@.len() - k,
                {
                    let st = trip.stop_times[k];
                    points.push(stops[st.stop].coord);
                    k = k + 1;
                }
                let ghost prev_out = out@;
                out.push(Shape { route: rt, points });
                proof {
                    assert forall|route: int|
                        0 <= route <= rt && !route_has_shape(shapes@, route)
                            && #[trigger] route_has_trip(trips@, route) implies route_has_shape(
                        out@,
                        route,
                    ) by {
                        if route < rt {
                            assert(route_has_shape(prev_out, route));
                            let g0 = choose|g: int|
                                0 <= g < prev_out.len() && (#[trigger] prev_out[g]).route
                                    == route;
                            assert(out@[g0].route == route);
                        } else {
                            assert(out@[out@.len() - 1].route == rt);
                        }
                    }
                }
            } else {
                proof {
                    assert(!route_has_trip(trips@, rt as int));
                }
            }
        } else {
            proof {
                assert(route_has_shape(shapes@, rt as int));
            }
        }
        rt = rt + 1;
    }
    out
}

} // verus!
