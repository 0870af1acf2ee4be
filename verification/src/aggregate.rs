//! Cross-series aggregation.
//!
//! The sub-series of one document are merged into a single chronological
//! sequence: quantities landing on the same instant are added, the result is
//! sorted ascending by instant, and positions are reassigned densely from 1.

use vstd::prelude::*;

use crate::document::{
    document_total, raw_total, GlMarketDocument, Period, Point, TimeSeries, TimestampedPoint,
    QUANTITY_LIMIT,
};
use crate::error::EntsoeError;
use crate::time::{valid_timestamp, Timestamp};

verus! {

/// Magnitude bound on the quantities handed to the merge: every reconstructed
/// point carries a wire quantity, so it fits this bound.
pub const MERGE_INPUT_LIMIT: i128 = 0x8000_0000_0000_0000;

/// Instants strictly ascend along the sequence.
pub open spec fn sorted_by_instant(s: Seq<TimestampedPoint>) -> bool {
    forall|i: int, j: int|
        0 <= i < j < s.len() ==> (#[trigger] s[i]).timestamp.seconds < (
        #[trigger] s[j]).timestamp.seconds
}

/// Positions are the 1-based ranks of the sequence.
pub open spec fn positions_dense(s: Seq<TimestampedPoint>) -> bool {
    forall|i: int| 0 <= i < s.len() ==> (#[trigger] s[i]).position == i + 1
}

/// Some point of `s` lands on the instant `t`.
pub open spec fn has_instant(s: Seq<TimestampedPoint>, t: int) -> bool {
    exists|i: int| 0 <= i < s.len() && (#[trigger] s[i]).timestamp.seconds == t
}

/// The sum of the quantities of the points of `s` landing on instant `t`.
pub open spec fn sum_at(s: Seq<TimestampedPoint>, t: int) -> int
    decreases s.len(),
{
    if s.len() == 0 {
        0
    } else {
        sum_at(s.drop_last(), t) + if s.last().timestamp.seconds == t {
            s.last().quantity as int
        } else {
            0
        }
    }
}

/// The sum of all quantities of `s`.
pub open spec fn total_quantity(s: Seq<TimestampedPoint>) -> int
    decreases s.len(),
{
    if s.len() == 0 {
        0
    } else {
        total_quantity(s.drop_last()) + s.last().quantity
    }
}

/// `m` is the aggregation of `src`: chronologically sorted, densely
/// positioned, landing exactly on the instants of `src`, and carrying at each
/// instant the sum of the `src` quantities there.
pub open spec fn is_merged(src: Seq<TimestampedPoint>, m: Seq<TimestampedPoint>) -> bool {
    &&& sorted_by_instant(m)
    &&& positions_dense(m)
    &&& forall|i: int|
        0 <= i < m.len() ==> has_instant(src, (#[trigger] m[i]).timestamp.seconds as int)
    &&& forall|t: int| #[trigger] has_instant(src, t) ==> has_instant(m, t)
    &&& forall|i: int|
        0 <= i < m.len() ==> (#[trigger] m[i]).quantity == sum_at(
            src,
            m[i].timestamp.seconds as int,
        )
}

pub proof fn lemma_sum_at_push(s: Seq<TimestampedPoint>, e: TimestampedPoint, t: int)
    ensures
        sum_at(s.push(e), t) == sum_at(s, t) + if e.timestamp.seconds == t {
            e.quantity as int
        } else {
            0
        },
{
    assert(s.push(e).drop_last() =~= s);
    assert(s.push(e).last() == e);
}

pub proof fn lemma_total_push(s: Seq<TimestampedPoint>, e: TimestampedPoint)
    ensures
        total_quantity(s.push(e)) == total_quantity(s) + e.quantity,
{
    assert(s.push(e).drop_last() =~= s);
    assert(s.push(e).last() == e);
}

/// No point lands on `t`: the sum there is zero.
pub proof fn lemma_sum_at_absent(s: Seq<TimestampedPoint>, t: int)
    requires
        !has_instant(s, t),
    ensures
        sum_at(s, t) == 0,
    decreases s.len(),
{
    if s.len() > 0 {
        assert(forall|i: int|
            0 <= i < s.len() - 1 ==> #[trigger] s.drop_last()[i] == s[i]);
        assert(!has_instant(s.drop_last(), t));
        lemma_sum_at_absent(s.drop_last(), t);
        assert(s.last() == s[s.len() - 1]);
    }
}

/// Bounded quantities sum to a bounded per-instant total.
pub proof fn lemma_sum_at_bound(s: Seq<TimestampedPoint>, t: int, b: int)
    requires
        0 <= b,
        forall|i: int| 0 <= i < s.len() ==> -b <= (#[trigger] s[i]).quantity <= b,
    ensures
        -(s.len() as int * b) <= sum_at(s, t) <= s.len() as int * b,
    decreases s.len(),
{
    if s.len() == 0 {
    } else {
        assert(forall|i: int|
            0 <= i < s.len() - 1 ==> #[trigger] s.drop_last()[i] == s[i]);
        lemma_sum_at_bound(s.drop_last(), t, b);
        assert(s.last() == s[s.len() - 1]);
        assert((s.len() - 1) as int * b + b == s.len() as int * b) by (nonlinear_arith);
    }
}

/// Replacing the element at `j` changes the total by the difference.
pub proof fn lemma_total_update(s: Seq<TimestampedPoint>, j: int, e: TimestampedPoint)
    requires
        0 <= j < s.len(),
    ensures
        total_quantity(s.update(j, e)) == total_quantity(s) - s[j].quantity + e.quantity,
    decreases s.len(),
{
    let s2 = s.update(j, e);
    if j == s.len() - 1 {
        assert(s2.drop_last() =~= s.drop_last());
        assert(s2.last() == e);
    } else {
        assert(s2.drop_last() =~= s.drop_last().update(j, e));
        assert(s2.last() == s.last());
        lemma_total_update(s.drop_last(), j, e);
    }
}

/// Inserting an element adds its quantity to the total.
pub proof fn lemma_total_insert(s: Seq<TimestampedPoint>, j: int, e: TimestampedPoint)
    requires
        0 <= j <= s.len(),
    ensures
        total_quantity(s.insert(j, e)) == total_quantity(s) + e.quantity,
    decreases s.len(),
{
    let s2 = s.insert(j, e);
    s.insert_ensures(j, e);
    if j == s.len() {
        assert(s2 =~= s.push(e));
        lemma_total_push(s, e);
    } else {
        assert(s2.drop_last() =~= s.drop_last().insert(j, e)) by {
            s.drop_last().insert_ensures(j, e);
        }
        assert(s2.last() == s.last());
        lemma_total_insert(s.drop_last(), j, e);
    }
}

/// Two sequences with pointwise equal quantities have equal totals.
pub proof fn lemma_total_pointwise(a: Seq<TimestampedPoint>, b: Seq<TimestampedPoint>)
    requires
        a.len() == b.len(),
        forall|i: int|
            0 <= i < a.len() ==> (#[trigger] a[i]).quantity == (#[trigger] b[i]).quantity,
    ensures
        total_quantity(a) == total_quantity(b),
    decreases a.len(),
{
    if a.len() > 0 {
        assert(forall|i: int|
            0 <= i < a.len() - 1 ==> #[trigger] a.drop_last()[i] == a[i]);
        assert(forall|i: int|
            0 <= i < b.len() - 1 ==> #[trigger] b.drop_last()[i] == b[i]);
        lemma_total_pointwise(a.drop_last(), b.drop_last());
        assert(a.last() == a[a.len() - 1]);
        assert(b.last() == b[b.len() - 1]);
    }
}

/// Concatenation sums the totals.
pub proof fn lemma_total_concat(a: Seq<TimestampedPoint>, b: Seq<TimestampedPoint>)
    ensures
        total_quantity(a + b) == total_quantity(a) + total_quantity(b),
    decreases b.len(),
{
    if b.len() == 0 {
        assert(a + b =~= a);
    } else {
        assert((a + b).drop_last() =~= a + b.drop_last());
        assert((a + b).last() == b.last());
        lemma_total_concat(a, b.drop_last());
    }
}

/// In a chronologically sorted sequence, the per-instant sum at an element's
/// instant is just that element's quantity.
pub proof fn lemma_sorted_sum_at(s: Seq<TimestampedPoint>, i: int)
    requires
        sorted_by_instant(s),
        0 <= i < s.len(),
    ensures
        sum_at(s, s[i].timestamp.seconds as int) == s[i].quantity,
    decreases s.len(),
{
    let t = s[i].timestamp.seconds as int;
    assert(forall|a: int|
        0 <= a < s.len() - 1 ==> #[trigger] s.drop_last()[a] == s[a]);
    if i == s.len() - 1 {
        assert(!has_instant(s.drop_last(), t));
        lemma_sum_at_absent(s.drop_last(), t);
        assert(s.last() == s[s.len() - 1]);
    } else {
        assert(s.last() == s[s.len() - 1]);
        assert(s.last().timestamp.seconds != t);
        lemma_sorted_sum_at(s.drop_last(), i);
    }
}

/// Merge a run of timestamped points: sum the quantities landing on the same
/// instant, sort ascending by instant, and assign positions densely from 1.
#[verifier::rlimit(100)]
pub fn merge_points(input: &Vec<TimestampedPoint>) -> (r: Vec<TimestampedPoint>)
    requires
        forall|i: int|
            0 <= i < input@.len() ==> -MERGE_INPUT_LIMIT <= (#[trigger] input@[i]).quantity
                <= MERGE_INPUT_LIMIT,
    ensures
        is_merged(input@, r@),
        total_quantity(r@) == total_quantity(input@),
        r@.len() <= input@.len(),
{
    let ghost src = input@;
    let mut acc: Vec<TimestampedPoint> = Vec::new();
    let mut idx: usize = 0;
    while idx < input.len()
        invariant
            idx <= src.len(),
            src == input@,
            forall|i: int|
                0 <= i < src.len() ==> -MERGE_INPUT_LIMIT <= (#[trigger] src[i]).quantity
                    <= MERGE_INPUT_LIMIT,
            sorted_by_instant(acc@),
            forall|i: int|
                0 <= i < acc@.len() ==> has_instant(
                    src.take(idx as int),
                    (#[trigger] acc@[i]).timestamp.seconds as int,
                ),
            forall|t: int|
                #[trigger] has_instant(src.take(idx as int), t) ==> has_instant(acc@, t),
            forall|i: int|
                0 <= i < acc@.len() ==> (#[trigger] acc@[i]).quantity == sum_at(
                    src.take(idx as int),
                    acc@[i].timestamp.seconds as int,
                ),
            total_quantity(acc@) == total_quantity(src.take(idx as int)),
            acc@.len() <= idx,
        decreases src.len() - idx,
    {
        let p = input[idx];
        let t = p.timestamp.seconds;
        let ghost prefix = src.take(idx as int);
        let ghost prefix2 = src.take(idx as int + 1);
        proof {
            assert(prefix2 =~= prefix.push(p));
        }
        let mut j: usize = 0;
        while j < acc.len() && acc[j].timestamp.seconds < t
            invariant
                j <= acc@.len(),
                forall|k: int| 0 <= k < j ==> (#[trigger] acc@[k]).timestamp.seconds < t,
            decreases acc@.len() - j,
        {
            j += 1;
        }
        if j < acc.len() && acc[j].timestamp.seconds == t {
            let ghost before = acc@;
            let e = acc[j];
            proof {
                assert(forall|i: int|
                    0 <= i < prefix.len() ==> -MERGE_INPUT_LIMIT <= (
                    #[trigger] prefix[i]).quantity <= MERGE_INPUT_LIMIT);
                lemma_sum_at_bound(prefix, t as int, MERGE_INPUT_LIMIT as int);
                assert(prefix.len() <= 0xffff_ffff_ffff_ffff);
            }
            let merged_e = TimestampedPoint {
                timestamp: e.timestamp,
                position: e.position,
                quantity: e.quantity + p.quantity,
            };
            acc.set(j, merged_e);
            proof {
                lemma_total_update(before, j as int, merged_e);
                lemma_total_push(prefix, p);
                // instants are unchanged, so order and instant sets carry over
                assert(forall|k: int|
                    0 <= k < acc@.len() ==> (#[trigger] acc@[k]).timestamp == before[
                        k
                    ].timestamp);
                assert forall|t2: int| #[trigger] has_instant(prefix2, t2) implies has_instant(
                    acc@,
                    t2,
                ) by {
                    lemma_sum_at_push(prefix, p, t2);
                    if has_instant(prefix, t2) {
                        let w = choose|w: int|
                            0 <= w < before.len() && (#[trigger] before[w]).timestamp.seconds
                                == t2;
                        assert(acc@[w].timestamp.seconds == t2);
                    } else {
                        assert(t2 == t);
                        assert(acc@[j as int].timestamp.seconds == t2);
                    }
                }
                assert forall|i: int| 0 <= i < acc@.len() implies has_instant(
                    prefix2,
                    (#[trigger] acc@[i]).timestamp.seconds as int,
                ) by {
                    let t2 = acc@[i].timestamp.seconds;
                    assert(before[i].timestamp.seconds == t2);
                    assert(has_instant(prefix, t2 as int));
                    let w = choose|w: int|
                        0 <= w < prefix.len() && (#[trigger] prefix[w]).timestamp.seconds == t2;
                    assert(prefix2[w].timestamp.seconds == t2);
                }
                assert forall|i: int| 0 <= i < acc@.len() implies (
                #[trigger] acc@[i]).quantity == sum_at(prefix2, acc@[i].timestamp.seconds as int) by {
                    lemma_sum_at_push(prefix, p, acc@[i].timestamp.seconds as int);
                    if i != j {
                        // strict order gives distinct instants
                        assert(acc@[i].timestamp.seconds != t);
                    }
                }
            }
        } else {
            let ghost before = acc@;
            proof {
                assert(forall|k: int|
                    j <= k < before.len() ==> (#[trigger] before[k]).timestamp.seconds > t);
                assert(!has_instant(before, t as int));
                assert(!has_instant(prefix, t as int));
                lemma_sum_at_absent(prefix, t as int);
            }
            let fresh = TimestampedPoint { timestamp: p.timestamp, position: 0, quantity: p.quantity };
            acc.insert(j, fresh);
            proof {
                before.insert_ensures(j as int, fresh);
                lemma_total_insert(before, j as int, fresh);
                lemma_total_push(prefix, p);
                assert forall|a: int, b: int| 0 <= a < b < acc@.len() implies (
                #[trigger] acc@[a]).timestamp.seconds < (#[trigger] acc@[b]).timestamp.seconds by {
                    if b < j {
                    } else if a < j && b == j {
                        assert(acc@[b].timestamp.seconds == t);
                    } else if a < j && b > j {
                        assert(acc@[b] == before[b - 1]);
                    } else if a == j {
                        assert(acc@[b] == before[b - 1]);
                        assert(before[b - 1].timestamp.seconds > t);
                    } else {
                        assert(acc@[a] == before[a - 1]);
                        assert(acc@[b] == before[b - 1]);
                    }
                }
                assert forall|t2: int| #[trigger] has_instant(prefix2, t2) implies has_instant(
                    acc@,
                    t2,
                ) by {
                    if has_instant(prefix, t2) {
                        let w = choose|w: int|
                            0 <= w < before.len() && (#[trigger] before[w]).timestamp.seconds
                                == t2;
                        if w < j {
                            assert(acc@[w].timestamp.seconds == t2);
                        } else {
                            assert(acc@[w + 1].timestamp.seconds == t2);
                        }
                    } else {
                        assert(t2 == t);
                        assert(acc@[j as int].timestamp.seconds == t2);
                    }
                }
                assert forall|i: int| 0 <= i < acc@.len() implies has_instant(
                    prefix2,
                    (#[trigger] acc@[i]).timestamp.seconds as int,
                ) by {
                    let t2 = acc@[i].timestamp.seconds;
                    if i == j {
                        assert(prefix2.last().timestamp.seconds == t);
                        assert(has_instant(prefix2, t as int));
                    } else {
                        let oi = if i < j {
                            i
                        } else {
                            i - 1
                        };
                        assert(before[oi].timestamp.seconds == t2);
                        assert(has_instant(prefix, t2 as int));
                        let w = choose|w: int|
                            0 <= w < prefix.len() && (#[trigger] prefix[w]).timestamp.seconds
                                == t2;
                        assert(prefix2[w].timestamp.seconds == t2);
                    }
                }
                assert forall|i: int| 0 <= i < acc@.len() implies (
                #[trigger] acc@[i]).quantity == sum_at(prefix2, acc@[i].timestamp.seconds as int) by {
                    lemma_sum_at_push(prefix, p, acc@[i].timestamp.seconds as int);
                    if i == j {
                        assert(acc@[i].quantity == p.quantity);
                    } else {
                        let oi = if i < j {
                            i
                        } else {
                            i - 1
                        };
                        assert(acc@[i] == before[oi]);
                        assert(acc@[i].timestamp.seconds != t);
                    }
                }
            }
        }
        idx += 1;
    }
    proof {
        assert(src.take(src.len() as int) =~= src);
    }
    let ghost ordered = acc@;
    let mut k: usize = 0;
    while k < acc.len()
        invariant
            k <= acc@.len(),
            acc@.len() == ordered.len(),
            src == input@,
            sorted_by_instant(ordered),
            forall|i: int|
                0 <= i < ordered.len() ==> has_instant(
                    src,
                    (#[trigger] ordered[i]).timestamp.seconds as int,
                ),
            forall|t: int| #[trigger] has_instant(src, t) ==> has_instant(ordered, t),
            forall|i: int|
                0 <= i < ordered.len() ==> (#[trigger] ordered[i]).quantity == sum_at(
                    src,
                    ordered[i].timestamp.seconds as int,
                ),
            total_quantity(ordered) == total_quantity(src),
            ordered.len() <= src.len(),
            forall|m: int| k <= m < acc@.len() ==> #[trigger] acc@[m] == ordered[m],
            forall|m: int|
                0 <= m < k ==> (#[trigger] acc@[m]).timestamp == ordered[m].timestamp
                    && acc@[m].quantity == ordered[m].quantity && acc@[m].position == m + 1,
        decreases acc@.len() - k,
    {
        let e0 = acc[k];
        acc.set(
            k,
            TimestampedPoint {
                timestamp: e0.timestamp,
                position: (k as u64) + 1,
                quantity: e0.quantity,
            },
        );
        k += 1;
    }
    proof {
        assert forall|t2: int| #[trigger] has_instant(src, t2) implies has_instant(acc@, t2) by {
            assert(has_instant(ordered, t2));
            let w = choose|w: int|
                0 <= w < ordered.len() && (#[trigger] ordered[w]).timestamp.seconds == t2;
            assert(acc@[w].timestamp.seconds == t2);
        }
        lemma_total_pointwise(acc@, ordered);
    }
    acc
}

/// Magnitude bound on the quantities of a well-formed document's aggregation.
pub const AGGREGATE_QUANTITY_LIMIT: i128 = 170_000_000_000_000_000_000_000_000_000_000_000;

/// The reconstruction of a whole document: every sub-series' reconstruction,
/// concatenated in document order.
pub open spec fn doc_points(s: Seq<TimeSeries>) -> Seq<TimestampedPoint>
    decreases s.len(),
{
    if s.len() == 0 {
        Seq::empty()
    } else {
        doc_points(s.drop_last()) + s.last().period.reconstructed_seq()
    }
}

/// The error a period's failed parse reports: an unusable start string wins
/// over an unusable step-size string, as parsing tries the start first.
pub open spec fn period_error(p: Period, e: EntsoeError) -> bool {
    if !valid_timestamp(p.time_interval.start@) {
        e matches EntsoeError::InvalidTimestamp(m) && m@ == p.time_interval.start@
    } else {
        e matches EntsoeError::InvalidResolution(m) && m@ == p.resolution@
    }
}

/// A sequence with the quantities of a run of wire points sums to their total.
pub proof fn lemma_total_matches_raw(a: Seq<TimestampedPoint>, pts: Seq<Point>)
    requires
        a.len() == pts.len(),
        forall|i: int|
            0 <= i < a.len() ==> (#[trigger] a[i]).quantity == (#[trigger] pts[i]).quantity,
    ensures
        total_quantity(a) == raw_total(pts),
    decreases a.len(),
{
    if a.len() > 0 {
        assert(forall|i: int|
            0 <= i < a.len() - 1 ==> #[trigger] a.drop_last()[i] == a[i]);
        assert(forall|i: int|
            0 <= i < pts.len() - 1 ==> #[trigger] pts.drop_last()[i] == pts[i]);
        lemma_total_matches_raw(a.drop_last(), pts.drop_last());
        assert(a.last() == a[a.len() - 1]);
        assert(pts.last() == pts[pts.len() - 1]);
    }
}

/// Reconstruction keeps each quantity, so it keeps the total.
pub proof fn lemma_reconstructed_total(p: Period)
    ensures
        total_quantity(p.reconstructed_seq()) == raw_total(p.points@),
{
    assert(forall|i: int|
        0 <= i < p.reconstructed_seq().len() ==> (#[trigger] p.reconstructed_seq()[i]).quantity
            == (#[trigger] p.points@[i]).quantity);
    lemma_total_matches_raw(p.reconstructed_seq(), p.points@);
}

/// A document's reconstruction sums to the document's raw total.
pub proof fn lemma_doc_points_total(s: Seq<TimeSeries>)
    ensures
        total_quantity(doc_points(s)) == document_total(s),
    decreases s.len(),
{
    if s.len() > 0 {
        lemma_doc_points_total(s.drop_last());
        lemma_total_concat(doc_points(s.drop_last()), s.last().period.reconstructed_seq());
        lemma_reconstructed_total(s.last().period);
    }
}

impl GlMarketDocument {
    /// Every sub-series' period parses.
    pub open spec fn all_series_parse(self) -> bool {
        forall|i: int|
            0 <= i < self.time_series@.len() ==> (#[trigger] self.time_series@[i]).period.parses()
    }

    /// Merge all sub-series of this document into one chronological sequence.
    ///
    /// Quantities landing on the same reconstructed instant are summed; the
    /// result is sorted ascending by instant and positions are reassigned
    /// densely from 1. The sum of the merged quantities equals the sum of
    /// every wire quantity of the document. An empty document yields an empty
    /// sequence; the first sub-series that fails to parse fails the whole
    /// aggregation with its own parse error.
    pub fn all_timestamped_points(&self) -> (r: Result<Vec<TimestampedPoint>, EntsoeError>)
        ensures
            r is Ok <==> self.all_series_parse(),
            r is Ok ==> is_merged(doc_points(self.time_series@), r->Ok_0@),
            r is Ok ==> total_quantity(r->Ok_0@) == document_total(self.time_series@),
            r is Ok ==> doc_points(self.time_series@).len() <= usize::MAX,
            r is Ok && self.wf() ==> forall|i: int|
                0 <= i < r->Ok_0@.len() ==> -AGGREGATE_QUANTITY_LIMIT <= (
                #[trigger] r->Ok_0@[i]).quantity <= AGGREGATE_QUANTITY_LIMIT,
            r is Err ==> exists|i: int|
                0 <= i < self.time_series@.len() && !(
                #[trigger] self.time_series@[i]).period.parses() && (forall|k: int|
                    0 <= k < i ==> (#[trigger] self.time_series@[k]).period.parses())
                    && period_error(self.time_series@[i].period, r->Err_0),
    {
        let ghost series = self.time_series@;
        let mut all: Vec<TimestampedPoint> = Vec::new();
        let mut i: usize = 0;
        while i < self.time_series.len()
            invariant
                i <= series.len(),
                series == self.time_series@,
                all@ == doc_points(series.take(i as int)),
                forall|k: int| 0 <= k < i ==> (#[trigger] series[k]).period.parses(),
                forall|m: int|
                    0 <= m < all@.len() ==> -MERGE_INPUT_LIMIT <= (#[trigger] all@[m]).quantity
                        <= MERGE_INPUT_LIMIT,
                self.wf() ==> forall|m: int|
                    0 <= m < all@.len() ==> -QUANTITY_LIMIT <= (#[trigger] all@[m]).quantity
                        <= QUANTITY_LIMIT,
            decreases series.len() - i,
        {
            let ghost before = all@;
            let mut pts = match self.time_series[i].period.timestamped_points() {
                Ok(p) => p,
                Err(e) => {
                    return Err(e);
                },
            };
            let ghost fresh = pts@;
            all.append(&mut pts);
            proof {
                assert(series.take(i + 1).drop_last() =~= series.take(i as int));
                assert(series.take(i + 1).last() == series[i as int]);
                assert(all@ == doc_points(series.take(i + 1)));
                assert(fresh == series[i as int].period.reconstructed_seq());
                assert forall|m: int|
                    0 <= m < all@.len() implies -MERGE_INPUT_LIMIT <= (
                #[trigger] all@[m]).quantity <= MERGE_INPUT_LIMIT by {
                    if m >= before.len() {
                        let w = m - before.len();
                        assert(all@[m] == fresh[w]);
                        assert(fresh[w].quantity
                            == series[i as int].period.points@[w].quantity as i128);
                    }
                }
                if self.wf() {
                    assert forall|m: int|
                        0 <= m < all@.len() implies -QUANTITY_LIMIT <= (
                    #[trigger] all@[m]).quantity <= QUANTITY_LIMIT by {
                        if m >= before.len() {
                            let w = m - before.len();
                            assert(all@[m] == fresh[w]);
                            assert(fresh[w].quantity
                                == series[i as int].period.points@[w].quantity as i128);
                            assert(-QUANTITY_LIMIT
                                <= series[i as int].period.points@[w].quantity
                                <= QUANTITY_LIMIT);
                        }
                    }
                }
            }
            i += 1;
        }
        proof {
            assert(series.take(series.len() as int) =~= series);
        }
        let n_all = all.len();
        proof {
            assert(doc_points(series).len() == n_all);
        }
        let merged = merge_points(&all);
        proof {
            lemma_doc_points_total(series);
            if self.wf() {
                assert forall|m: int|
                    0 <= m < merged@.len() implies -AGGREGATE_QUANTITY_LIMIT <= (
                #[trigger] merged@[m]).quantity <= AGGREGATE_QUANTITY_LIMIT by {
                    let t = merged@[m].timestamp.seconds as int;
                    assert(merged@[m].quantity == sum_at(all@, t));
                    lemma_sum_at_bound(all@, t, QUANTITY_LIMIT as int);
                    assert(all@.len() == n_all);
                    assert(usize::MAX <= 0xffff_ffff_ffff_ffff);
                }
            }
        }
        Ok(merged)
    }

    /// The merged points of this document as plain `(instant, quantity)`
    /// pairs, chronologically sorted.
    pub fn all_points(&self) -> (r: Result<Vec<(Timestamp, i128)>, EntsoeError>)
        ensures
            r is Ok <==> self.all_series_parse(),
            r is Ok ==> exists|m: Seq<TimestampedPoint>|
                #[trigger] is_merged(doc_points(self.time_series@), m) && r->Ok_0@.len()
                    == m.len() && (forall|i: int|
                    0 <= i < m.len() ==> (#[trigger] r->Ok_0@[i]).0 == m[i].timestamp
                        && r->Ok_0@[i].1 == m[i].quantity),
            r is Err ==> exists|i: int|
                0 <= i < self.time_series@.len() && !(
                #[trigger] self.time_series@[i]).period.parses() && (forall|k: int|
                    0 <= k < i ==> (#[trigger] self.time_series@[k]).period.parses())
                    && period_error(self.time_series@[i].period, r->Err_0),
    {
        let pts = match self.all_timestamped_points() {
            Ok(p) => p,
            Err(e) => {
                return Err(e);
            },
        };
        let mut out: Vec<(Timestamp, i128)> = Vec::new();
        let mut k: usize = 0;
        while k < pts.len()
            invariant
                k <= pts@.len(),
                out@.len() == k,
                forall|i: int|
                    0 <= i < k ==> (#[trigger] out@[i]).0 == pts@[i].timestamp && out@[i].1
                        == pts@[i].quantity,
            decreases pts@.len() - k,
        {
            let p = pts[k];
            out.push((p.timestamp, p.quantity));
            k += 1;
        }
        Ok(out)
    }

    /// The merged points with the least and the greatest quantity: the
    /// earliest such point for the minimum, the latest for the maximum.
    /// `None` when the document holds no points at all.
    pub fn min_max_with_time(&self) -> (r: Result<
        Option<(TimestampedPoint, TimestampedPoint)>,
        EntsoeError,
    >)
        ensures
            r is Ok <==> self.all_series_parse(),
            r is Ok ==> ((r->Ok_0 is None) <==> doc_points(self.time_series@).len() == 0),
            r is Ok ==> (r->Ok_0 matches Some(pair) ==> exists|m: Seq<TimestampedPoint>|
                #[trigger] is_merged(doc_points(self.time_series@), m) && first_min_of(m, pair.0)
                    && last_max_of(m, pair.1)),
            r is Err ==> exists|i: int|
                0 <= i < self.time_series@.len() && !(
                #[trigger] self.time_series@[i]).period.parses() && (forall|k: int|
                    0 <= k < i ==> (#[trigger] self.time_series@[k]).period.parses())
                    && period_error(self.time_series@[i].period, r->Err_0),
    {
        let pts = match self.all_timestamped_points() {
            Ok(p) => p,
            Err(e) => {
                return Err(e);
            },
        };
        let ghost dps = doc_points(self.time_series@);
        if pts.len() == 0 {
            proof {
                if dps.len() > 0 {
                    assert(has_instant(dps, dps[0].timestamp.seconds as int));
                    assert(has_instant(pts@, dps[0].timestamp.seconds as int));
                }
            }
            return Ok(None);
        }
        proof {
            assert(has_instant(dps, pts@[0].timestamp.seconds as int));
        }
        let mut mn = pts[0];
        let mut mx = pts[0];
        let mut k: usize = 1;
        while k < pts.len()
            invariant
                1 <= k <= pts@.len(),
                forall|b: int| 0 <= b < k ==> mn.quantity <= (#[trigger] pts@[b]).quantity,
                exists|a: int|
                    0 <= a < k && #[trigger] pts@[a] == mn && (forall|b: int|
                        0 <= b < a ==> (#[trigger] pts@[b]).quantity > mn.quantity),
                forall|b: int| 0 <= b < k ==> (#[trigger] pts@[b]).quantity <= mx.quantity,
                exists|a: int|
                    0 <= a < k && #[trigger] pts@[a] == mx && (forall|b: int|
                        a < b < k ==> (#[trigger] pts@[b]).quantity < mx.quantity),
            decreases pts@.len() - k,
        {
            let p = pts[k];
            if p.quantity < mn.quantity {
                mn = p;
            }
            if p.quantity >= mx.quantity {
                mx = p;
            }
            k += 1;
        }
        Ok(Some((mn, mx)))
    }
}

/// `p` is the earliest point of `m` carrying the least quantity.
pub open spec fn first_min_of(m: Seq<TimestampedPoint>, p: TimestampedPoint) -> bool {
    exists|a: int|
        0 <= a < m.len() && #[trigger] m[a] == p && (forall|b: int|
            0 <= b < m.len() ==> p.quantity <= (#[trigger] m[b]).quantity) && (forall|b: int|
            0 <= b < a ==> (#[trigger] m[b]).quantity > p.quantity)
}

/// `p` is the latest point of `m` carrying the greatest quantity.
pub open spec fn last_max_of(m: Seq<TimestampedPoint>, p: TimestampedPoint) -> bool {
    exists|a: int|
        0 <= a < m.len() && #[trigger] m[a] == p && (forall|b: int|
            0 <= b < m.len() ==> (#[trigger] m[b]).quantity <= p.quantity) && (forall|b: int|
            a < b < m.len() ==> (#[trigger] m[b]).quantity < p.quantity)
}

/// Two chronologically sorted sequences landing on the same instants are
/// aligned instant by instant.
pub proof fn lemma_sorted_equal_instants(a: Seq<TimestampedPoint>, b: Seq<TimestampedPoint>)
    requires
        sorted_by_instant(a),
        sorted_by_instant(b),
        forall|t: int| #[trigger] has_instant(a, t) ==> has_instant(b, t),
        forall|t: int| #[trigger] has_instant(b, t) ==> has_instant(a, t),
    ensures
        a.len() == b.len(),
        forall|i: int| 0 <= i < a.len() ==> (#[trigger] a[i]).timestamp == b[i].timestamp,
    decreases a.len(),
{
    if a.len() == 0 {
        if b.len() > 0 {
            assert(has_instant(b, b[0].timestamp.seconds as int));
            assert(has_instant(a, b[0].timestamp.seconds as int));
        }
    } else if b.len() == 0 {
        assert(has_instant(a, a[0].timestamp.seconds as int));
        assert(has_instant(b, a[0].timestamp.seconds as int));
    } else {
        let ta = a[0].timestamp.seconds as int;
        let tb = b[0].timestamp.seconds as int;
        assert(has_instant(a, ta));
        assert(has_instant(b, tb));
        assert(has_instant(b, ta));
        assert(has_instant(a, tb));
        let ja = choose|j: int| 0 <= j < b.len() && (#[trigger] b[j]).timestamp.seconds == ta;
        let jb = choose|j: int| 0 <= j < a.len() && (#[trigger] a[j]).timestamp.seconds == tb;
        assert(tb <= ta);
        assert(ta <= tb);
        assert(a[0].timestamp == b[0].timestamp);
        let a1 = a.drop_first();
        let b1 = b.drop_first();
        assert(forall|i: int| 0 <= i < a1.len() ==> #[trigger] a1[i] == a[i + 1]);
        assert(forall|i: int| 0 <= i < b1.len() ==> #[trigger] b1[i] == b[i + 1]);
        assert forall|t: int| #[trigger] has_instant(a1, t) implies has_instant(b1, t) by {
            let w = choose|w: int|
                0 <= w < a1.len() && (#[trigger] a1[w]).timestamp.seconds == t;
            assert(a[w + 1].timestamp.seconds == t);
            assert(has_instant(a, t));
            assert(t > ta);
            assert(has_instant(b, t));
            let v = choose|v: int|
                0 <= v < b.len() && (#[trigger] b[v]).timestamp.seconds == t;
            assert(v != 0);
            assert(b1[v - 1].timestamp.seconds == t);
        }
        assert forall|t: int| #[trigger] has_instant(b1, t) implies has_instant(a1, t) by {
            let w = choose|w: int|
                0 <= w < b1.len() && (#[trigger] b1[w]).timestamp.seconds == t;
            assert(b[w + 1].timestamp.seconds == t);
            assert(has_instant(b, t));
            assert(t > tb);
            assert(has_instant(a, t));
            let v = choose|v: int|
                0 <= v < a.len() && (#[trigger] a[v]).timestamp.seconds == t;
            assert(v != 0);
            assert(a1[v - 1].timestamp.seconds == t);
        }
        lemma_sorted_equal_instants(a1, b1);
        assert forall|i: int| 0 <= i < a.len() implies (#[trigger] a[i]).timestamp == b[
            i
        ].timestamp by {
            if i > 0 {
                assert(a1[i - 1].timestamp == b1[i - 1].timestamp);
            }
        }
    }
}

/// Aggregation is idempotent: merging an already-merged sequence returns it
/// unchanged, positions included.
pub proof fn lemma_aggregate_idempotent(
    src: Seq<TimestampedPoint>,
    m: Seq<TimestampedPoint>,
    m2: Seq<TimestampedPoint>,
)
    requires
        is_merged(src, m),
        is_merged(m, m2),
    ensures
        m2 == m,
{
    assert forall|t: int| #[trigger] has_instant(m2, t) implies has_instant(m, t) by {
        let w = choose|w: int| 0 <= w < m2.len() && (#[trigger] m2[w]).timestamp.seconds == t;
        assert(has_instant(m, m2[w].timestamp.seconds as int));
    }
    lemma_sorted_equal_instants(m2, m);
    assert forall|i: int| 0 <= i < m.len() implies m2[i] == m[i] by {
        assert(m2[i].timestamp == m[i].timestamp);
        lemma_sorted_sum_at(m, i);
        assert(m2[i].quantity == sum_at(m, m2[i].timestamp.seconds as int));
        assert(m2[i].position == i + 1);
        assert(m[i].position == i + 1);
    }
    assert(m2 =~= m);
}

} // verus!
