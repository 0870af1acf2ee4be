//! The surplus series: joining generation and load, and querying the result.
//!
//! Two aggregated series are joined on exact instant equality; each matched
//! instant yields `surplus = generation - load`. Unmatched instants are
//! dropped on either side — the join is never an outer join.

use vstd::prelude::*;

use crate::aggregate::{
    doc_points, has_instant, is_merged, lemma_sorted_sum_at, period_error, sorted_by_instant,
    sum_at, AGGREGATE_QUANTITY_LIMIT,
};
use crate::document::{div_toward_zero, div_trunc, GlMarketDocument, TimestampedPoint};
use crate::error::EntsoeError;
use crate::time::Timestamp;

verus! {

/// Magnitude bound on the quantities handed to the join, so that the
/// subtraction cannot overflow.
pub const JOIN_QUANTITY_LIMIT: i128 = 85_070_591_730_234_615_865_843_651_857_942_052_863;

/// Magnitude bound on a surplus whose percentage is queried, so that the
/// scaling cannot overflow.
pub const PERCENTAGE_INPUT_LIMIT: i128 = 17_014_118_346_046_923_173_168_730_371_588_410;

/// The renewable surplus at one instant: generation, load, and their
/// difference.
#[derive(Debug, Clone, Copy, PartialEq, Eq, Structural)]
pub struct RenewableSurplus {
    pub timestamp: Timestamp,
    pub generation: i128,
    pub load: i128,
    pub surplus: i128,
}

/// Instants strictly ascend along the surplus series.
pub open spec fn sorted_surplus(s: Seq<RenewableSurplus>) -> bool {
    forall|i: int, j: int|
        0 <= i < j < s.len() ==> (#[trigger] s[i]).timestamp.seconds < (
        #[trigger] s[j]).timestamp.seconds
}

/// Some surplus point lands on the instant `t`.
pub open spec fn surplus_has_instant(s: Seq<RenewableSurplus>, t: int) -> bool {
    exists|i: int| 0 <= i < s.len() && (#[trigger] s[i]).timestamp.seconds == t
}

/// `r` is the surplus join of the point runs `g` and `l`: chronologically
/// sorted, holding exactly the instants present in both runs, and carrying at
/// each such instant the summed generation, the summed load, and their
/// difference.
pub open spec fn is_surplus_join(
    g: Seq<TimestampedPoint>,
    l: Seq<TimestampedPoint>,
    r: Seq<RenewableSurplus>,
) -> bool {
    &&& sorted_surplus(r)
    &&& forall|i: int|
        0 <= i < r.len() ==> {
            let t = (#[trigger] r[i]).timestamp.seconds as int;
            &&& has_instant(g, t)
            &&& has_instant(l, t)
            &&& r[i].generation == sum_at(g, t)
            &&& r[i].load == sum_at(l, t)
            &&& r[i].surplus == r[i].generation - r[i].load
        }
    &&& forall|t: int|
        #[trigger] has_instant(g, t) && has_instant(l, t) ==> surplus_has_instant(r, t)
}

/// Join two aggregated series on exact instant equality.
///
/// Both inputs must already be aggregated (chronologically sorted, one point
/// per instant). A point of either side without a partner at the same instant
/// is silently dropped. The result is chronologically sorted.
pub fn join_surplus_series(generation: &Vec<TimestampedPoint>, load: &Vec<TimestampedPoint>) -> (r:
    Vec<RenewableSurplus>)
    requires
        sorted_by_instant(generation@),
        sorted_by_instant(load@),
        forall|i: int|
            0 <= i < generation@.len() ==> -JOIN_QUANTITY_LIMIT <= (
            #[trigger] generation@[i]).quantity <= JOIN_QUANTITY_LIMIT,
        forall|i: int|
            0 <= i < load@.len() ==> -JOIN_QUANTITY_LIMIT <= (#[trigger] load@[i]).quantity
                <= JOIN_QUANTITY_LIMIT,
    ensures
        is_surplus_join(generation@, load@, r@),
        r@.len() <= generation@.len(),
{
    let ghost gs = generation@;
    let ghost ls = load@;
    let mut out: Vec<RenewableSurplus> = Vec::new();
    let mut i: usize = 0;
    let mut j: usize = 0;
    while i < generation.len() && j < load.len()
        invariant
            i <= gs.len(),
            j <= ls.len(),
            gs == generation@,
            ls == load@,
            sorted_by_instant(gs),
            sorted_by_instant(ls),
            forall|k: int|
                0 <= k < gs.len() ==> -JOIN_QUANTITY_LIMIT <= (#[trigger] gs[k]).quantity
                    <= JOIN_QUANTITY_LIMIT,
            forall|k: int|
                0 <= k < ls.len() ==> -JOIN_QUANTITY_LIMIT <= (#[trigger] ls[k]).quantity
                    <= JOIN_QUANTITY_LIMIT,
            sorted_surplus(out@),
            out@.len() <= i,
            forall|k: int|
                0 <= k < out@.len() ==> {
                    let t = (#[trigger] out@[k]).timestamp.seconds as int;
                    &&& has_instant(gs, t)
                    &&& has_instant(ls, t)
                    &&& out@[k].generation == sum_at(gs, t)
                    &&& out@[k].load == sum_at(ls, t)
                    &&& out@[k].surplus == out@[k].generation - out@[k].load
                },
            forall|t: int|
                #[trigger] has_instant(gs.take(i as int), t) && has_instant(ls, t)
                    ==> surplus_has_instant(out@, t),
            forall|t: int|
                #[trigger] has_instant(ls.take(j as int), t) && has_instant(gs, t)
                    ==> surplus_has_instant(out@, t),
            forall|k: int|
                0 <= k < out@.len() && i < gs.len() ==> (#[trigger] out@[k]).timestamp.seconds
                    < gs[i as int].timestamp.seconds,
            forall|k: int|
                0 <= k < out@.len() && j < ls.len() ==> (#[trigger] out@[k]).timestamp.seconds
                    < ls[j as int].timestamp.seconds,
        decreases gs.len() + ls.len() - i - j,
    {
        let gp = generation[i];
        let lp = load[j];
        if gp.timestamp.seconds < lp.timestamp.seconds {
            proof {
                let t0 = gp.timestamp.seconds as int;
                assert forall|t: int|
                    #[trigger] has_instant(gs.take(i + 1), t) && has_instant(ls, t)
                        implies surplus_has_instant(out@, t) by {
                    let w = choose|w: int|
                        0 <= w < gs.take(i + 1).len() && (#[trigger] gs.take(i + 1)[
                            w
                        ]).timestamp.seconds == t;
                    if w < i {
                        assert(gs.take(i as int)[w].timestamp.seconds == t);
                        assert(has_instant(gs.take(i as int), t));
                    } else {
                        assert(t == t0);
                        let v = choose|v: int|
                            0 <= v < ls.len() && (#[trigger] ls[v]).timestamp.seconds == t;
                        if v < j {
                            assert(ls.take(j as int)[v].timestamp.seconds == t);
                            assert(has_instant(ls.take(j as int), t));
                            assert(has_instant(gs, t));
                        } else {
                            if v > j {
                                assert(ls[j as int].timestamp.seconds < ls[v].timestamp.seconds);
                            }
                            assert(false);
                        }
                    }
                }
            }
            i += 1;
        } else if lp.timestamp.seconds < gp.timestamp.seconds {
            proof {
                let t0 = lp.timestamp.seconds as int;
                assert forall|t: int|
                    #[trigger] has_instant(ls.take(j + 1), t) && has_instant(gs, t)
                        implies surplus_has_instant(out@, t) by {
                    let w = choose|w: int|
                        0 <= w < ls.take(j + 1).len() && (#[trigger] ls.take(j + 1)[
                            w
                        ]).timestamp.seconds == t;
                    if w < j {
                        assert(ls.take(j as int)[w].timestamp.seconds == t);
                        assert(has_instant(ls.take(j as int), t));
                    } else {
                        assert(t == t0);
                        let v = choose|v: int|
                            0 <= v < gs.len() && (#[trigger] gs[v]).timestamp.seconds == t;
                        if v < i {
                            assert(gs.take(i as int)[v].timestamp.seconds == t);
                            assert(has_instant(gs.take(i as int), t));
                            assert(has_instant(ls, t));
                        } else {
                            if v > i {
                                assert(gs[i as int].timestamp.seconds < gs[v].timestamp.seconds);
                            }
                            assert(false);
                        }
                    }
                }
            }
            j += 1;
        } else {
            let ghost before = out@;
            proof {
                lemma_sorted_sum_at(gs, i as int);
                lemma_sorted_sum_at(ls, j as int);
            }
            out.push(
                RenewableSurplus {
                    timestamp: gp.timestamp,
                    generation: gp.quantity,
                    load: lp.quantity,
                    surplus: gp.quantity - lp.quantity,
                },
            );
            proof {
                let t0 = gp.timestamp.seconds as int;
                assert(has_instant(gs, t0));
                assert(has_instant(ls, t0));
                assert forall|t: int|
                    #[trigger] has_instant(gs.take(i + 1), t) && has_instant(ls, t)
                        implies surplus_has_instant(out@, t) by {
                    let w = choose|w: int|
                        0 <= w < gs.take(i + 1).len() && (#[trigger] gs.take(i + 1)[
                            w
                        ]).timestamp.seconds == t;
                    if w < i {
                        assert(gs.take(i as int)[w].timestamp.seconds == t);
                        assert(has_instant(gs.take(i as int), t));
                        let u = choose|u: int|
                            0 <= u < before.len() && (#[trigger] before[u]).timestamp.seconds
                                == t;
                        assert(out@[u].timestamp.seconds == t);
                    } else {
                        assert(t == t0);
                        assert(out@[out@.len() - 1].timestamp.seconds == t);
                    }
                }
                assert forall|t: int|
                    #[trigger] has_instant(ls.take(j + 1), t) && has_instant(gs, t)
                        implies surplus_has_instant(out@, t) by {
                    let w = choose|w: int|
                        0 <= w < ls.take(j + 1).len() && (#[trigger] ls.take(j + 1)[
                            w
                        ]).timestamp.seconds == t;
                    if w < j {
                        assert(ls.take(j as int)[w].timestamp.seconds == t);
                        assert(has_instant(ls.take(j as int), t));
                        let u = choose|u: int|
                            0 <= u < before.len() && (#[trigger] before[u]).timestamp.seconds
                                == t;
                        assert(out@[u].timestamp.seconds == t);
                    } else {
                        assert(t == t0);
                        assert(out@[out@.len() - 1].timestamp.seconds == t);
                    }
                }
            }
            i += 1;
            j += 1;
        }
    }
    proof {
        if i == gs.len() {
            assert(gs.take(i as int) =~= gs);
        } else {
            assert(ls.take(j as int) =~= ls);
        }
        assert forall|t: int|
            #[trigger] has_instant(gs, t) && has_instant(ls, t) implies surplus_has_instant(
            out@,
            t,
        ) by {
            if i == gs.len() {
                assert(has_instant(gs.take(i as int), t));
            } else {
                assert(has_instant(ls.take(j as int), t));
            }
        }
    }
    out
}

/// Derive the full surplus series of two fetched documents.
///
/// Each document is aggregated on its own; the two aggregations are then
/// joined on exact instant equality. A parse failure in the generation
/// document is reported first, then one in the load document; there is no
/// partial success.
pub fn renewable_surplus_series(generation: &GlMarketDocument, load: &GlMarketDocument) -> (r:
    Result<Vec<RenewableSurplus>, EntsoeError>)
    requires
        generation.wf(),
        load.wf(),
    ensures
        r is Ok <==> generation.all_series_parse() && load.all_series_parse(),
        r is Ok ==> is_surplus_join(
            doc_points(generation.time_series@),
            doc_points(load.time_series@),
            r->Ok_0@,
        ),
        r is Err && !generation.all_series_parse() ==> exists|i: int|
            0 <= i < generation.time_series@.len() && !(
            #[trigger] generation.time_series@[i]).period.parses() && (forall|k: int|
                0 <= k < i ==> (#[trigger] generation.time_series@[k]).period.parses())
                && period_error(generation.time_series@[i].period, r->Err_0),
        r is Err && generation.all_series_parse() ==> exists|i: int|
            0 <= i < load.time_series@.len() && !(
            #[trigger] load.time_series@[i]).period.parses() && (forall|k: int|
                0 <= k < i ==> (#[trigger] load.time_series@[k]).period.parses())
                && period_error(load.time_series@[i].period, r->Err_0),
{
    let ghost dpg = doc_points(generation.time_series@);
    let ghost dpl = doc_points(load.time_series@);
    let gen_points = match generation.all_timestamped_points() {
        Ok(p) => p,
        Err(e) => {
            return Err(e);
        },
    };
    let load_points = match load.all_timestamped_points() {
        Ok(p) => p,
        Err(e) => {
            return Err(e);
        },
    };
    let out = join_surplus_series(&gen_points, &load_points);
    proof {
        lemma_join_over_merged(dpg, dpl, gen_points@, load_points@, out@);
    }
    Ok(out)
}

/// A join of two aggregations is a join of what they aggregate.
proof fn lemma_join_over_merged(
    dpg: Seq<TimestampedPoint>,
    dpl: Seq<TimestampedPoint>,
    gm: Seq<TimestampedPoint>,
    lm: Seq<TimestampedPoint>,
    r: Seq<RenewableSurplus>,
)
    requires
        is_merged(dpg, gm),
        is_merged(dpl, lm),
        is_surplus_join(gm, lm, r),
    ensures
        is_surplus_join(dpg, dpl, r),
{
    assert forall|i: int| 0 <= i < r.len() implies {
        let t = (#[trigger] r[i]).timestamp.seconds as int;
        &&& has_instant(dpg, t)
        &&& has_instant(dpl, t)
        &&& r[i].generation == sum_at(dpg, t)
        &&& r[i].load == sum_at(dpl, t)
        &&& r[i].surplus == r[i].generation - r[i].load
    } by {
        let t = r[i].timestamp.seconds as int;
        assert(has_instant(gm, t));
        assert(has_instant(lm, t));
        let wg = choose|w: int| 0 <= w < gm.len() && (#[trigger] gm[w]).timestamp.seconds == t;
        let wl = choose|w: int| 0 <= w < lm.len() && (#[trigger] lm[w]).timestamp.seconds == t;
        assert(has_instant(dpg, gm[wg].timestamp.seconds as int));
        assert(has_instant(dpl, lm[wl].timestamp.seconds as int));
        lemma_sorted_sum_at(gm, wg);
        lemma_sorted_sum_at(lm, wl);
        assert(gm[wg].quantity == sum_at(dpg, t));
        assert(lm[wl].quantity == sum_at(dpl, t));
    }
    assert forall|t: int|
        #[trigger] has_instant(dpg, t) && has_instant(dpl, t) implies surplus_has_instant(
        r,
        t,
    ) by {
        assert(has_instant(gm, t));
        assert(has_instant(lm, t));
    }
}

/// The point of the series with the greatest surplus; on an exact tie the
/// chronologically earliest of the tied points wins. `None` only for an empty
/// series.
pub fn find_max(series: &Vec<RenewableSurplus>) -> (r: Option<RenewableSurplus>)
    ensures
        r is None <==> series@.len() == 0,
        r matches Some(m) ==> exists|a: int|
            0 <= a < series@.len() && #[trigger] series@[a] == m && (forall|b: int|
                0 <= b < series@.len() ==> (#[trigger] series@[b]).surplus <= m.surplus) && (
            forall|b: int| 0 <= b < a ==> (#[trigger] series@[b]).surplus < m.surplus),
{
    if series.len() == 0 {
        return None;
    }
    let mut best = series[0];
    let mut k: usize = 1;
    while k < series.len()
        invariant
            1 <= k <= series@.len(),
            forall|b: int| 0 <= b < k ==> (#[trigger] series@[b]).surplus <= best.surplus,
            exists|a: int|
                0 <= a < k && #[trigger] series@[a] == best && (forall|b: int|
                    0 <= b < a ==> (#[trigger] series@[b]).surplus < best.surplus),
        decreases series@.len() - k,
    {
        let p = series[k];
        if p.surplus > best.surplus {
            best = p;
        }
        k += 1;
    }
    Some(best)
}

/// Derive the surplus series of two documents and report the point with the
/// greatest surplus; the chronologically earliest point wins an exact tie.
///
/// When the joined series is empty — the two documents share no instant —
/// there is no maximum to report and the reply is rejected as invalid.
pub fn max_renewable_surplus(generation: &GlMarketDocument, load: &GlMarketDocument) -> (r: Result<
    RenewableSurplus,
    EntsoeError,
>)
    requires
        generation.wf(),
        load.wf(),
    ensures
        r is Ok <==> (generation.all_series_parse() && load.all_series_parse() && exists|t: int|
            #[trigger] has_instant(doc_points(generation.time_series@), t) && has_instant(
                doc_points(load.time_series@),
                t,
            )),
        r is Ok ==> {
            let m = r->Ok_0;
            let t = m.timestamp.seconds as int;
            &&& has_instant(doc_points(generation.time_series@), t)
            &&& has_instant(doc_points(load.time_series@), t)
            &&& m.generation == sum_at(doc_points(generation.time_series@), t)
            &&& m.load == sum_at(doc_points(load.time_series@), t)
            &&& m.surplus == m.generation - m.load
            &&& forall|u: int|
                #[trigger] has_instant(doc_points(generation.time_series@), u) && has_instant(
                    doc_points(load.time_series@),
                    u,
                ) ==> sum_at(doc_points(generation.time_series@), u) - sum_at(
                    doc_points(load.time_series@),
                    u,
                ) <= m.surplus
            &&& forall|u: int|
                #[trigger] has_instant(doc_points(generation.time_series@), u) && has_instant(
                    doc_points(load.time_series@),
                    u,
                ) && u < t ==> sum_at(doc_points(generation.time_series@), u) - sum_at(
                    doc_points(load.time_series@),
                    u,
                ) < m.surplus
        },
        r is Err && !(generation.all_series_parse() && load.all_series_parse())
            ==> !(r->Err_0 matches EntsoeError::InvalidResponse(_)),
        r is Err && generation.all_series_parse() && load.all_series_parse() ==> (r->Err_0
            matches EntsoeError::InvalidResponse(msg) && msg@ == "No matching data points found"@),
{
    let ghost dpg = doc_points(generation.time_series@);
    let ghost dpl = doc_points(load.time_series@);
    let series = match renewable_surplus_series(generation, load) {
        Ok(s) => s,
        Err(e) => {
            proof {
                if generation.all_series_parse() && load.all_series_parse() {
                    assert(false);
                }
                if !generation.all_series_parse() {
                    let w = choose|i: int|
                        0 <= i < generation.time_series@.len() && !(
                        #[trigger] generation.time_series@[i]).period.parses() && (forall|k: int|
                            0 <= k < i ==> (
                            #[trigger] generation.time_series@[k]).period.parses())
                            && period_error(generation.time_series@[i].period, e);
                    assert(period_error(generation.time_series@[w].period, e));
                } else {
                    let w = choose|i: int|
                        0 <= i < load.time_series@.len() && !(
                        #[trigger] load.time_series@[i]).period.parses() && (forall|k: int|
                            0 <= k < i ==> (#[trigger] load.time_series@[k]).period.parses())
                            && period_error(load.time_series@[i].period, e);
                    assert(period_error(load.time_series@[w].period, e));
                }
            }
            return Err(e);
        },
    };
    match find_max(&series) {
        Some(m) => {
            proof {
                let a = choose|a: int|
                    0 <= a < series@.len() && #[trigger] series@[a] == m && (forall|b: int|
                        0 <= b < series@.len() ==> (#[trigger] series@[b]).surplus <= m.surplus)
                        && (forall|b: int|
                        0 <= b < a ==> (#[trigger] series@[b]).surplus < m.surplus);
                let t = m.timestamp.seconds as int;
                assert(has_instant(dpg, t) && has_instant(dpl, t));
                assert forall|u: int|
                    #[trigger] has_instant(dpg, u) && has_instant(dpl, u) implies sum_at(dpg, u)
                    - sum_at(dpl, u) <= m.surplus by {
                    assert(surplus_has_instant(series@, u));
                    let w = choose|w: int|
                        0 <= w < series@.len() && (#[trigger] series@[w]).timestamp.seconds == u;
                    assert(series@[w].surplus == sum_at(dpg, u) - sum_at(dpl, u));
                }
                assert forall|u: int|
                    #[trigger] has_instant(dpg, u) && has_instant(dpl, u) && u < t implies sum_at(
                    dpg,
                    u,
                ) - sum_at(dpl, u) < m.surplus by {
                    assert(surplus_has_instant(series@, u));
                    let w = choose|w: int|
                        0 <= w < series@.len() && (#[trigger] series@[w]).timestamp.seconds == u;
                    assert(series@[w].surplus == sum_at(dpg, u) - sum_at(dpl, u));
                    if w >= a {
                        if w > a {
                            assert(series@[a].timestamp.seconds < series@[w].timestamp.seconds);
                        }
                        assert(false);
                    }
                }
            }
            Ok(m)
        },
        None => {
            proof {
                assert forall|t: int|
                    !(#[trigger] has_instant(dpg, t) && has_instant(dpl, t)) by {
                    if has_instant(dpg, t) && has_instant(dpl, t) {
                        assert(surplus_has_instant(series@, t));
                    }
                }
            }
            Err(EntsoeError::InvalidResponse("No matching data points found".to_owned()))
        },
    }
}

impl RenewableSurplus {
    /// The surplus as a share of generation, in hundredths of a percent,
    /// truncated toward zero; exactly zero generation yields zero.
    ///
    /// Only the exact-zero case is guarded: near-zero generation can produce
    /// percentages of very large magnitude, which is intended.
    pub open spec fn percentage_value(self) -> int {
        if self.generation == 0 {
            0
        } else {
            div_toward_zero(self.surplus * 10_000, self.generation as int)
        }
    }

    /// The surplus as a share of generation, in hundredths of a percent.
    pub fn surplus_percentage(&self) -> (r: i128)
        requires
            -PERCENTAGE_INPUT_LIMIT <= self.surplus <= PERCENTAGE_INPUT_LIMIT,
        ensures
            r == self.percentage_value(),
    {
        if self.generation == 0 {
            0
        } else {
            let num = self.surplus * 10_000;
            div_trunc(num, self.generation)
        }
    }

    /// Is generation above load at this instant?
    pub fn has_excess(&self) -> (r: bool)
        ensures
            r == (self.surplus > 0),
    {
        self.surplus > 0
    }
}

/// The night window: the hour of day (UTC) is 22 or later, or before 6.
pub open spec fn in_night_window(ts: Timestamp) -> bool {
    ts.hour_of_day() >= 22 || ts.hour_of_day() < 6
}

/// Keep only the points falling in the night window (22:00 to 06:00, the
/// lower bound included, the upper excluded).
pub fn filter_night_hours(series: Vec<RenewableSurplus>) -> (r: Vec<RenewableSurplus>)
    ensures
        r@ == series@.filter(|s: RenewableSurplus| in_night_window(s.timestamp)),
{
    let mut out: Vec<RenewableSurplus> = Vec::new();
    let mut i: usize = 0;
    while i < series.len()
        invariant
            i <= series@.len(),
            out@ == series@.take(i as int).filter(
                |s: RenewableSurplus| in_night_window(s.timestamp),
            ),
        decreases series@.len() - i,
    {
        let p = series[i];
        let h = p.timestamp.hour();
        proof {
            assert(series@.take(i + 1) =~= series@.take(i as int).push(series@[i as int]));
            series@.take(i as int).lemma_filter_push(
                series@[i as int],
                |s: RenewableSurplus| in_night_window(s.timestamp),
            );
        }
        if h >= 22 || h < 6 {
            out.push(p);
        }
        i += 1;
    }
    proof {
        assert(series@.take(series@.len() as int) =~= series@);
    }
    out
}

/// Is `ts` within the closed window of `hours` hours starting at `now`?
pub open spec fn in_next_window(ts: Timestamp, now: Timestamp, hours: u32) -> bool {
    now.seconds <= ts.seconds <= now.seconds + 3600 * (hours as int)
}

/// Keep only the points within the next `hours` hours of `now`, both window
/// ends included. The caller captures `now` once, so the whole pass uses one
/// consistent window.
pub fn filter_next_hours(series: Vec<RenewableSurplus>, now: Timestamp, hours: u32) -> (r: Vec<
    RenewableSurplus,
>)
    requires
        now.seconds + 3600 * (hours as int) <= i128::MAX,
    ensures
        r@ == series@.filter(|s: RenewableSurplus| in_next_window(s.timestamp, now, hours)),
{
    let end: i128 = now.seconds + 3600 * (hours as i128);
    let mut out: Vec<RenewableSurplus> = Vec::new();
    let mut i: usize = 0;
    while i < series.len()
        invariant
            i <= series@.len(),
            end == now.seconds + 3600 * (hours as int),
            out@ == series@.take(i as int).filter(
                |s: RenewableSurplus| in_next_window(s.timestamp, now, hours),
            ),
        decreases series@.len() - i,
    {
        let p = series[i];
        proof {
            assert(series@.take(i + 1) =~= series@.take(i as int).push(series@[i as int]));
            series@.take(i as int).lemma_filter_push(
                series@[i as int],
                |s: RenewableSurplus| in_next_window(s.timestamp, now, hours),
            );
        }
        if now.seconds <= p.timestamp.seconds && p.timestamp.seconds <= end {
            out.push(p);
        }
        i += 1;
    }
    proof {
        assert(series@.take(series@.len() as int) =~= series@);
    }
    out
}

} // verus!
