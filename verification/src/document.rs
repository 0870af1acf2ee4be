//! The typed market document and timestamp reconstruction.
//!
//! A document owns an ordered collection of sub-series; each sub-series
//! carries one period: a start instant, a step size, and points keyed by
//! 1-based position. Reconstruction turns `(start, step, position)` into an
//! absolute instant: `start + step * (position - 1)`.

use vstd::arithmetic::div_mod::{lemma_fundamental_div_mod, lemma_mod_bound};
use vstd::prelude::*;

use crate::error::EntsoeError;
use crate::resolution::{parse_resolution, resolution_minutes, valid_resolution};
use crate::time::{parse_timestamp, timestamp_seconds, valid_timestamp, Timestamp};
use crate::time::PARSED_SECONDS_BOUND;

verus! {

/// Largest quantity magnitude the integer model admits on a wire point.
///
/// With quantities bounded by `2^53` every sum a document can produce stays
/// far inside an `i128`, so aggregation and the surplus arithmetic are exact.
pub const QUANTITY_LIMIT: i64 = 0x20_0000_0000_0000;

/// A market-participant identifier with its coding scheme.
#[derive(Debug, Clone)]
pub struct ParticipantId {
    pub value: String,
    pub coding_scheme: String,
}

/// The start and end of a document or period interval, as wire strings.
#[derive(Debug, Clone)]
pub struct TimeInterval {
    pub start: String,
    pub end: String,
}

/// A bidding-zone or control-area identifier with its coding scheme.
#[derive(Debug, Clone)]
pub struct AreaId {
    pub value: String,
    pub coding_scheme: String,
}

/// One wire point: a 1-based position inside its period, and a quantity.
///
/// Quantities are integer-scaled; the caller fixes the unit.
#[derive(Debug, Clone, Copy, PartialEq, Eq, Structural)]
pub struct Point {
    pub position: u32,
    pub quantity: i64,
}

/// One period: a time interval, a step-size string, and the ordered points.
#[derive(Debug, Clone)]
pub struct Period {
    pub time_interval: TimeInterval,
    pub resolution: String,
    pub points: Vec<Point>,
}

/// One sub-series of a document.
#[derive(Debug, Clone)]
pub struct TimeSeries {
    pub mrid: String,
    pub business_type: String,
    pub object_aggregation: String,
    pub out_bidding_zone: Option<AreaId>,
    pub in_bidding_zone: Option<AreaId>,
    pub quantity_measure_unit: String,
    pub curve_type: String,
    pub period: Period,
}

/// A fetched generation-and-load market document.
#[derive(Debug, Clone)]
pub struct GlMarketDocument {
    pub mrid: String,
    pub revision_number: String,
    pub doc_type: String,
    pub process_type: String,
    pub sender_mrid: ParticipantId,
    pub sender_role: String,
    pub receiver_mrid: ParticipantId,
    pub receiver_role: String,
    pub created_date_time: String,
    pub time_period_interval: TimeInterval,
    pub time_series: Vec<TimeSeries>,
}

/// A point carrying its reconstructed absolute instant.
///
/// Before aggregation `position` is the wire position; after aggregation it is
/// the 1-based rank in the merged, chronologically sorted sequence.
#[derive(Debug, Clone, Copy, PartialEq, Eq, Structural)]
pub struct TimestampedPoint {
    pub timestamp: Timestamp,
    pub position: u64,
    pub quantity: i128,
}

/// The instant of the point at `position`, for a period starting at `start`
/// with a step of `step_minutes`.
pub open spec fn point_instant(start: int, step_minutes: int, position: int) -> int {
    start + 60 * step_minutes * (position - 1)
}

impl Period {
    /// Both wire strings of this period parse.
    pub open spec fn parses(self) -> bool {
        valid_timestamp(self.time_interval.start@) && valid_resolution(self.resolution@)
    }

    /// The reconstructed point for wire point `i`.
    pub open spec fn reconstructed_point(self, i: int) -> TimestampedPoint {
        TimestampedPoint {
            timestamp: Timestamp {
                seconds: point_instant(
                    timestamp_seconds(self.time_interval.start@),
                    resolution_minutes(self.resolution@),
                    self.points@[i].position as int,
                ) as i128,
            },
            position: self.points@[i].position as u64,
            quantity: self.points@[i].quantity as i128,
        }
    }

    /// The reconstruction of this period: one timestamped point per wire
    /// point, in wire order, wire positions kept.
    pub open spec fn reconstructed_seq(self) -> Seq<TimestampedPoint> {
        Seq::new(self.points@.len(), |i: int| self.reconstructed_point(i))
    }

    /// Reconstruct the absolute instant of every point of this period.
    ///
    /// The point at position `p` lands on `start + step * (p - 1)`; position 1
    /// always lands exactly on the period start. Order and positions are kept.
    pub fn timestamped_points(&self) -> (r: Result<Vec<TimestampedPoint>, EntsoeError>)
        ensures
            r is Ok <==> self.parses(),
            r is Ok ==> r->Ok_0@ == self.reconstructed_seq(),
            r is Ok ==> forall|i: int|
                0 <= i < self.points@.len() ==> (#[trigger] r->Ok_0@[i]).timestamp.seconds
                    == timestamp_seconds(self.time_interval.start@) + 60 * resolution_minutes(
                    self.resolution@,
                ) * (self.points@[i].position - 1),
            r is Ok ==> forall|i: int|
                0 <= i < self.points@.len() && self.points@[i].position == 1 ==> (
                #[trigger] r->Ok_0@[i]).timestamp.seconds == timestamp_seconds(
                    self.time_interval.start@,
                ),
            r is Err ==> !valid_timestamp(self.time_interval.start@) ==> (r->Err_0 matches
                EntsoeError::InvalidTimestamp(m) && m@ == self.time_interval.start@),
            r is Err ==> valid_timestamp(self.time_interval.start@) ==> (r->Err_0 matches
                EntsoeError::InvalidResolution(m) && m@ == self.resolution@),
    {
        let start_ts = match parse_timestamp(self.time_interval.start.as_str()) {
            Ok(t) => t,
            Err(e) => {
                return Err(e);
            },
        };
        let minutes = match parse_resolution(self.resolution.as_str()) {
            Ok(m) => m,
            Err(e) => {
                return Err(e);
            },
        };
        let step: i128 = 60 * (minutes as i128);
        let ghost start_spec = timestamp_seconds(self.time_interval.start@);
        let ghost minutes_spec = resolution_minutes(self.resolution@);
        let mut out: Vec<TimestampedPoint> = Vec::new();
        let mut i: usize = 0;
        while i < self.points.len()
            invariant
                i <= self.points@.len(),
                out@.len() == i,
                start_ts.seconds == start_spec,
                start_spec == timestamp_seconds(self.time_interval.start@),
                -PARSED_SECONDS_BOUND < start_ts.seconds < PARSED_SECONDS_BOUND,
                0 <= minutes <= i64::MAX,
                minutes == minutes_spec,
                minutes_spec == resolution_minutes(self.resolution@),
                step == 60 * (minutes as int),
                forall|j: int| 0 <= j < i ==> out@[j] == self.reconstructed_seq()[j],
                forall|j: int|
                    0 <= j < i ==> (#[trigger] out@[j]).timestamp.seconds == point_instant(
                        start_spec,
                        minutes_spec,
                        self.points@[j].position as int,
                    ),
            decreases self.points@.len() - i,
        {
            let p = self.points[i];
            let pos_off: i128 = p.position as i128 - 1;
            proof {
                assert(-6_000_000_000_000_000_000_000_000_000_000 <= step * pos_off
                    <= 6_000_000_000_000_000_000_000_000_000_000) by (nonlinear_arith)
                    requires
                        0 <= step <= 1_000_000_000_000_000_000_000,
                        -2 <= pos_off <= 5_000_000_000,
                ;
            }
            let offset: i128 = step * pos_off;
            let secs: i128 = start_ts.seconds + offset;
            out.push(
                TimestampedPoint {
                    timestamp: Timestamp { seconds: secs },
                    position: p.position as u64,
                    quantity: p.quantity as i128,
                },
            );
            proof {
                let pos = self.points@[i as int].position as int;
                assert(step * pos_off == 60 * minutes_spec * (pos - 1));
                assert(point_instant(start_spec, minutes_spec, pos) == secs as int);
                assert(point_instant(start_spec, minutes_spec, pos) as i128 == secs);
                assert(out@[i as int].timestamp == self.reconstructed_point(i as int).timestamp);
                assert(out@[i as int] == self.reconstructed_seq()[i as int]);
            }
            i += 1;
        }
        proof {
            assert(out@ =~= self.reconstructed_seq());
        }
        Ok(out)
    }
}

/// Sum of the quantities of a run of wire points.
pub open spec fn raw_total(s: Seq<Point>) -> int
    decreases s.len(),
{
    if s.len() == 0 {
        0
    } else {
        raw_total(s.drop_last()) + s.last().quantity
    }
}

/// Number of wire points across a run of sub-series.
pub open spec fn point_count(s: Seq<TimeSeries>) -> int
    decreases s.len(),
{
    if s.len() == 0 {
        0
    } else {
        point_count(s.drop_last()) + s.last().period.points@.len()
    }
}

/// Sum of all wire quantities across a run of sub-series.
pub open spec fn document_total(s: Seq<TimeSeries>) -> int
    decreases s.len(),
{
    if s.len() == 0 {
        0
    } else {
        document_total(s.drop_last()) + raw_total(s.last().period.points@)
    }
}

/// Truncating (toward zero) integer quotient, as Rust's `/` rounds.
pub open spec fn div_toward_zero(x: int, d: int) -> int {
    if x == 0 {
        0
    } else if x > 0 && d > 0 {
        x / d
    } else if x < 0 && d < 0 {
        (x * -1) / (d * -1)
    } else if x < 0 {
        ((x * -1) / d) * -1
    } else {
        (x / (d * -1)) * -1
    }
}

/// A run of sub-series counting no points has only empty point lists.
pub proof fn lemma_point_count_zero(s: Seq<TimeSeries>)
    requires
        point_count(s) == 0,
    ensures
        forall|a: int| 0 <= a < s.len() ==> (#[trigger] s[a]).period.points@.len() == 0,
    decreases s.len(),
{
    if s.len() > 0 {
        lemma_point_count_nonneg(s.drop_last());
        lemma_point_count_zero(s.drop_last());
        assert(forall|a: int|
            0 <= a < s.len() - 1 ==> #[trigger] s[a] == s.drop_last()[a]);
    }
}

pub proof fn lemma_point_count_nonneg(s: Seq<TimeSeries>)
    ensures
        0 <= point_count(s),
    decreases s.len(),
{
    if s.len() > 0 {
        lemma_point_count_nonneg(s.drop_last());
    }
}

/// A prefix of a run of sub-series never counts more points than the run.
pub proof fn lemma_point_count_prefix(s: Seq<TimeSeries>, k: int)
    requires
        0 <= k <= s.len(),
    ensures
        point_count(s.take(k)) <= point_count(s),
    decreases s.len() - k,
{
    if k == s.len() {
        assert(s.take(k) =~= s);
    } else {
        assert(s.take(k + 1).drop_last() =~= s.take(k));
        assert(point_count(s.take(k + 1)) == point_count(s.take(k))
            + s[k].period.points@.len());
        lemma_point_count_prefix(s, k + 1);
    }
}

impl GlMarketDocument {
    /// The integer model's well-formedness: every wire quantity is bounded by
    /// `QUANTITY_LIMIT` and the document's points can be counted in a `usize`.
    pub open spec fn wf(self) -> bool {
        &&& forall|i: int, j: int|
            0 <= i < self.time_series@.len() && 0 <= j
                < self.time_series@[i].period.points@.len()
                ==> -QUANTITY_LIMIT <= (#[trigger] self.time_series@[i].period.points@[j]).quantity
                <= QUANTITY_LIMIT
        &&& point_count(self.time_series@) <= usize::MAX
    }

    /// Sum of all wire quantities of this document.
    pub open spec fn spec_total(self) -> int {
        document_total(self.time_series@)
    }

    /// Number of wire points of this document.
    pub open spec fn spec_point_count(self) -> int {
        point_count(self.time_series@)
    }

    /// Decide `wf` at run time, so unverified callers can establish it.
    pub fn is_well_formed(&self) -> (r: bool)
        ensures
            r == self.wf(),
    {
        let mut count: usize = 0;
        let mut i: usize = 0;
        let ghost series = self.time_series@;
        while i < self.time_series.len()
            invariant
                i <= series.len(),
                series == self.time_series@,
                count == point_count(series.take(i as int)),
                count <= usize::MAX,
                forall|a: int, b: int|
                    0 <= a < i && 0 <= b < series[a].period.points@.len() ==> -QUANTITY_LIMIT <= (
                    #[trigger] series[a].period.points@[b]).quantity <= QUANTITY_LIMIT,
            decreases series.len() - i,
        {
            let pts = &self.time_series[i].period.points;
            let mut j: usize = 0;
            while j < pts.len()
                invariant
                    j <= pts@.len(),
                    pts@ == series[i as int].period.points@,
                    i < series.len(),
                    series == self.time_series@,
                    forall|b: int|
                        0 <= b < j ==> -QUANTITY_LIMIT <= (#[trigger] pts@[b]).quantity
                            <= QUANTITY_LIMIT,
                decreases pts@.len() - j,
            {
                let q = pts[j].quantity;
                if q < -QUANTITY_LIMIT || q > QUANTITY_LIMIT {
                    proof {
                        assert(series[i as int].period.points@[j as int].quantity == q);
                    }
                    return false;
                }
                j += 1;
            }
            proof {
                assert(series.take(i + 1).drop_last() =~= series.take(i as int));
                assert(series.take(i + 1).last() == series[i as int]);
                assert(point_count(series.take(i + 1)) == point_count(series.take(i as int))
                    + series[i as int].period.points@.len());
                lemma_point_count_nonneg(series.take(i as int));
            }
            if usize::MAX - count < pts.len() {
                proof {
                    lemma_point_count_prefix(series, i + 1);
                    assert(point_count(series.take(i + 1)) > usize::MAX);
                    assert(point_count(series) > usize::MAX);
                    assert(!self.wf());
                }
                return false;
            }
            count += pts.len();
            i += 1;
        }
        proof {
            assert(series.take(series.len() as int) =~= series);
        }
        true
    }

    /// Total forecast: the sum of every wire quantity of the document.
    pub fn total_forecast(&self) -> (t: i128)
        requires
            self.wf(),
        ensures
            t == self.spec_total(),
    {
        let (total, _) = self.total_and_count();
        total
    }

    /// Average forecast: the total divided by the number of points, truncated
    /// toward zero; zero for a document without points.
    pub fn average_forecast(&self) -> (a: i128)
        requires
            self.wf(),
        ensures
            a == if self.spec_point_count() == 0 {
                0int
            } else {
                div_toward_zero(self.spec_total(), self.spec_point_count())
            },
    {
        let (total, count) = self.total_and_count();
        if count == 0 {
            0
        } else {
            div_trunc(total, count as i128)
        }
    }

    /// The sum of all wire quantities and the number of wire points.
    fn total_and_count(&self) -> (r: (i128, usize))
        requires
            self.wf(),
        ensures
            r.0 == self.spec_total(),
            r.1 == self.spec_point_count(),
            -170_000_000_000_000_000_000_000_000_000_000_000 <= r.0
                <= 170_000_000_000_000_000_000_000_000_000_000_000,
    {
        let ghost series = self.time_series@;
        let mut total: i128 = 0;
        let mut count: usize = 0;
        let mut i: usize = 0;
        proof {
            lemma_point_count_prefix(series, 0);
        }
        while i < self.time_series.len()
            invariant
                i <= series.len(),
                series == self.time_series@,
                self.wf(),
                count == point_count(series.take(i as int)),
                total == document_total(series.take(i as int)),
                -(count as int) * (QUANTITY_LIMIT as int) <= total <= (count as int) * (
                QUANTITY_LIMIT as int),
                count <= usize::MAX,
            decreases series.len() - i,
        {
            let pts = &self.time_series[i].period.points;
            let mut j: usize = 0;
            let mut sub: i128 = 0;
            while j < pts.len()
                invariant
                    j <= pts@.len(),
                    pts@ == series[i as int].period.points@,
                    i < series.len(),
                    self.wf(),
                    series == self.time_series@,
                    sub == raw_total(pts@.take(j as int)),
                    -(j as int) * (QUANTITY_LIMIT as int) <= sub <= (j as int) * (
                    QUANTITY_LIMIT as int),
                decreases pts@.len() - j,
            {
                let q = pts[j].quantity;
                proof {
                    assert(-QUANTITY_LIMIT <= q <= QUANTITY_LIMIT);
                    assert(pts@.take(j + 1).drop_last() =~= pts@.take(j as int));
                    assert(j + 1 <= usize::MAX);
                }
                sub = sub + q as i128;
                j += 1;
            }
            proof {
                assert(pts@.take(pts@.len() as int) =~= pts@);
                assert(series.take(i + 1).drop_last() =~= series.take(i as int));
                lemma_point_count_nonneg(series.take(i as int));
                lemma_point_count_prefix(series, i + 1);
            }
            count += pts.len();
            total = total + sub;
            i += 1;
        }
        proof {
            assert(series.take(series.len() as int) =~= series);
        }
        (total, count)
    }

    /// The least and greatest wire quantity of the document, or nothing when
    /// no sub-series holds a point.
    pub fn min_max(&self) -> (r: Option<(i64, i64)>)
        ensures
            r is None <==> point_count(self.time_series@) == 0,
            r is Some ==> {
                let (mn, mx) = r->0;
                &&& forall|a: int, b: int|
                    0 <= a < self.time_series@.len() && 0 <= b
                        < self.time_series@[a].period.points@.len() ==> mn <= (
                    #[trigger] self.time_series@[a].period.points@[b]).quantity <= mx
                &&& exists|a: int, b: int|
                    0 <= a < self.time_series@.len() && 0 <= b
                        < self.time_series@[a].period.points@.len() && (
                    #[trigger] self.time_series@[a].period.points@[b]).quantity == mn
                &&& exists|a: int, b: int|
                    0 <= a < self.time_series@.len() && 0 <= b
                        < self.time_series@[a].period.points@.len() && (
                    #[trigger] self.time_series@[a].period.points@[b]).quantity == mx
            },
    {
        let ghost series = self.time_series@;
        let mut found: bool = false;
        let mut mn: i64 = 0;
        let mut mx: i64 = 0;
        let mut i: usize = 0;
        while i < self.time_series.len()
            invariant
                i <= series.len(),
                series == self.time_series@,
                found <==> point_count(series.take(i as int)) != 0,
                found ==> forall|a: int, b: int|
                    0 <= a < i && 0 <= b < series[a].period.points@.len() ==> mn <= (
                    #[trigger] series[a].period.points@[b]).quantity <= mx,
                found ==> exists|a: int, b: int|
                    0 <= a < i && 0 <= b < series[a].period.points@.len() && (
                    #[trigger] series[a].period.points@[b]).quantity == mn,
                found ==> exists|a: int, b: int|
                    0 <= a < i && 0 <= b < series[a].period.points@.len() && (
                    #[trigger] series[a].period.points@[b]).quantity == mx,
            decreases series.len() - i,
        {
            let pts = &self.time_series[i].period.points;
            let mut j: usize = 0;
            while j < pts.len()
                invariant
                    j <= pts@.len(),
                    pts@ == series[i as int].period.points@,
                    i < series.len(),
                    series == self.time_series@,
                    found <==> (point_count(series.take(i as int)) != 0 || j != 0),
                    found ==> forall|a: int, b: int|
                        (0 <= a < i && 0 <= b < series[a].period.points@.len()) || (a == i && 0
                            <= b < j) ==> mn <= (#[trigger] series[a].period.points@[b]).quantity
                            <= mx,
                    found ==> exists|a: int, b: int|
                        ((0 <= a < i && 0 <= b < series[a].period.points@.len()) || (a == i && 0
                            <= b < j)) && (#[trigger] series[a].period.points@[b]).quantity == mn,
                    found ==> exists|a: int, b: int|
                        ((0 <= a < i && 0 <= b < series[a].period.points@.len()) || (a == i && 0
                            <= b < j)) && (#[trigger] series[a].period.points@[b]).quantity == mx,
                decreases pts@.len() - j,
            {
                let q = pts[j].quantity;
                if !found {
                    proof {
                        lemma_point_count_zero(series.take(i as int));
                        assert forall|a: int| 0 <= a < i implies (
                        #[trigger] series[a]).period.points@.len() == 0 by {
                            assert(series.take(i as int)[a] == series[a]);
                        }
                    }
                    found = true;
                    mn = q;
                    mx = q;
                } else {
                    if q < mn {
                        mn = q;
                    }
                    if q > mx {
                        mx = q;
                    }
                }
                j += 1;
            }
            proof {
                assert(series.take(i + 1).drop_last() =~= series.take(i as int));
                lemma_point_count_nonneg(series.take(i as int));
            }
            i += 1;
        }
        proof {
            assert(series.take(series.len() as int) =~= series);
        }
        if found {
            Some((mn, mx))
        } else {
            None
        }
    }
}

/// Quotient truncated toward zero, as Rust's `/` rounds.
pub(crate) fn div_trunc(a: i128, b: i128) -> (q: i128)
    requires
        b != 0,
        a != i128::MIN,
    ensures
        q == div_toward_zero(a as int, b as int),
{
    proof {
        let ma = if a >= 0 {
            a as int
        } else {
            (a as int) * -1
        };
        let mb = if b >= 0 {
            b as int
        } else {
            (b as int) * -1
        };
        if a != 0 {
            let qi = ma / mb;
            let ri = ma % mb;
            lemma_fundamental_div_mod(ma, mb);
            lemma_mod_bound(ma, mb);
            assert(0 <= qi <= ma) by (nonlinear_arith)
                requires
                    1 <= mb,
                    mb * qi == ma - ri,
                    0 <= ri < mb,
                    0 < ma,
            ;
        }
    }
    a.checked_div(b).unwrap()
}

/// Positions where a needle occurs inside a haystack.
pub open spec fn occurs_at(h: Seq<char>, n: Seq<char>, i: int) -> bool {
    0 <= i && i + n.len() <= h.len() && h.subrange(i, i + n.len()) == n
}

/// The needle occurs somewhere inside the haystack.
pub open spec fn occurs(h: Seq<char>, n: Seq<char>) -> bool {
    exists|i: int| occurs_at(h, n, i)
}

/// Character-wise substring search.
fn contains_str(h: &str, n: &str) -> (r: bool)
    ensures
        r == occurs(h@, n@),
{
    let hl = h.unicode_len();
    let nl = n.unicode_len();
    if nl > hl {
        return false;
    }
    if nl == 0 {
        proof {
            assert(h@.subrange(0, 0) =~= n@);
            assert(occurs_at(h@, n@, 0));
        }
        return true;
    }
    let mut i: usize = 0;
    while i <= hl - nl
        invariant
            0 < nl <= hl,
            hl == h@.len(),
            nl == n@.len(),
            i <= hl - nl + 1,
            forall|k: int| 0 <= k < i ==> !occurs_at(h@, n@, k),
        decreases hl - nl - i + 1,
    {
        let mut j: usize = 0;
        let mut matched: bool = true;
        while matched && j < nl
            invariant
                j <= nl,
                i + nl <= hl,
                hl == h@.len(),
                nl == n@.len(),
                matched ==> forall|t: int| 0 <= t < j ==> h@[i + t] == n@[t],
                !matched ==> !occurs_at(h@, n@, i as int),
            decreases nl - j,
        {
            if h.get_char(i + j) != n.get_char(j) {
                proof {
                    assert(h@.subrange(i as int, i + nl)[j as int] != n@[j as int]);
                }
                matched = false;
            }
            j += 1;
        }
        if matched {
            proof {
                assert(h@.subrange(i as int, i + nl) =~= n@);
                assert(occurs_at(h@, n@, i as int));
            }
            return true;
        }
        i += 1;
    }
    proof {
        assert forall|k: int| !occurs_at(h@, n@, k) by {
            if 0 <= k && k + n@.len() <= h@.len() {
                assert(k < i);
            }
        }
    }
    false
}

/// Does a raw upstream reply embed an error payload?
///
/// An error reply carries a reason or code element even when the transport
/// reported success; such a reply must be rejected as invalid.
pub fn response_has_error_markers(xml: &str) -> (r: bool)
    ensures
        r == (occurs(xml@, "<Reason>"@) || occurs(xml@, "<code>"@)),
{
    contains_str(xml, "<Reason>") || contains_str(xml, "<code>")
}

} // verus!
