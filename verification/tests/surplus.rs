//! Joining, surplus derivation, and the extremum and window queries.

use entsoe_surplus::analysis::{
    filter_next_hours, filter_night_hours, find_max, join_surplus_series, max_renewable_surplus,
    renewable_surplus_series, RenewableSurplus,
};
use entsoe_surplus::document::{
    GlMarketDocument, ParticipantId, Period, Point, TimeInterval, TimeSeries, TimestampedPoint,
};
use entsoe_surplus::error::EntsoeError;
use entsoe_surplus::time::{parse_timestamp, Timestamp};

fn document(start: &str, resolution: &str, quantities: &[(u32, i64)]) -> GlMarketDocument {
    GlMarketDocument {
        mrid: "test123".to_string(),
        revision_number: "1".to_string(),
        doc_type: "A69".to_string(),
        process_type: "A01".to_string(),
        sender_mrid: ParticipantId {
            value: "10X1001A1001A450".to_string(),
            coding_scheme: "A01".to_string(),
        },
        sender_role: "A32".to_string(),
        receiver_mrid: ParticipantId {
            value: "10X1001A1001A450".to_string(),
            coding_scheme: "A01".to_string(),
        },
        receiver_role: "A33".to_string(),
        created_date_time: "2026-01-07T19:26:41Z".to_string(),
        time_period_interval: TimeInterval {
            start: start.to_string(),
            end: String::new(),
        },
        time_series: vec![TimeSeries {
            mrid: "1".to_string(),
            business_type: "A04".to_string(),
            object_aggregation: "A01".to_string(),
            out_bidding_zone: None,
            in_bidding_zone: None,
            quantity_measure_unit: "MAW".to_string(),
            curve_type: "A03".to_string(),
            period: Period {
                time_interval: TimeInterval {
                    start: start.to_string(),
                    end: String::new(),
                },
                resolution: resolution.to_string(),
                points: quantities
                    .iter()
                    .map(|&(position, quantity)| Point { position, quantity })
                    .collect(),
            },
        }],
    }
}

fn at(s: &str) -> Timestamp {
    parse_timestamp(s).unwrap()
}

fn point(s: &str, position: u64, quantity: i128) -> TimestampedPoint {
    TimestampedPoint { timestamp: at(s), position, quantity }
}

#[test]
fn surplus_scenario() {
    // generation [(t0,100),(t1,150)], load [(t0,80),(t1,200)]
    let generation = document("2023-08-14T00:00Z", "PT60M", &[(1, 100), (2, 150)]);
    let load = document("2023-08-14T00:00Z", "PT60M", &[(1, 80), (2, 200)]);

    let series = renewable_surplus_series(&generation, &load).unwrap();
    assert_eq!(series.len(), 2);

    assert_eq!(series[0].timestamp, at("2023-08-14T00:00Z"));
    assert_eq!(series[0].generation, 100);
    assert_eq!(series[0].load, 80);
    assert_eq!(series[0].surplus, 20);
    // 20% of generation, in hundredths of a percent
    assert_eq!(series[0].surplus_percentage(), 2000);
    assert!(series[0].has_excess());

    assert_eq!(series[1].timestamp, at("2023-08-14T01:00Z"));
    assert_eq!(series[1].surplus, -50);
    // -33.33%, truncated toward zero
    assert_eq!(series[1].surplus_percentage(), -3333);
    assert!(!series[1].has_excess());

    let max = max_renewable_surplus(&generation, &load).unwrap();
    assert_eq!(max.timestamp, at("2023-08-14T00:00Z"));
    assert_eq!(max.surplus, 20);
}

#[test]
fn join_drops_unmatched_instants() {
    let generation = vec![
        point("2023-08-14T00:00Z", 1, 100),
        point("2023-08-14T01:00Z", 2, 150),
        point("2023-08-14T03:00Z", 3, 70),
    ];
    let load = vec![
        point("2023-08-14T01:00Z", 1, 90),
        point("2023-08-14T02:00Z", 2, 95),
        point("2023-08-14T03:00Z", 3, 60),
    ];
    let joined = join_surplus_series(&generation, &load);
    // every joined instant occurs in both inputs; instants on one side only
    // never appear
    assert_eq!(joined.len(), 2);
    assert_eq!(joined[0].timestamp, at("2023-08-14T01:00Z"));
    assert_eq!(joined[0].surplus, 60);
    assert_eq!(joined[1].timestamp, at("2023-08-14T03:00Z"));
    assert_eq!(joined[1].surplus, 10);
    for s in &joined {
        assert!(generation.iter().any(|p| p.timestamp == s.timestamp));
        assert!(load.iter().any(|p| p.timestamp == s.timestamp));
    }
}

#[test]
fn empty_generation_yields_empty_series_and_max_fails() {
    let generation = document("2023-08-14T00:00Z", "PT60M", &[]);
    let load = document("2023-08-14T00:00Z", "PT60M", &[(1, 80), (2, 200)]);

    let series = renewable_surplus_series(&generation, &load).unwrap();
    assert!(series.is_empty());

    match max_renewable_surplus(&generation, &load) {
        Err(EntsoeError::InvalidResponse(msg)) => {
            assert_eq!(msg, "No matching data points found")
        },
        other => panic!("expected an invalid-response error, got {:?}", other),
    }
}

#[test]
fn surplus_propagates_parse_errors() {
    let generation = document("2023-08-14T00:00Z", "PTxM", &[(1, 1)]);
    let load = document("2023-08-14T00:00Z", "PT60M", &[(1, 1)]);
    assert!(matches!(
        renewable_surplus_series(&generation, &load),
        Err(EntsoeError::InvalidResolution(s)) if s == "PTxM"
    ));
    // a load-side failure surfaces once generation parses
    assert!(matches!(
        renewable_surplus_series(&load, &generation),
        Err(EntsoeError::InvalidResolution(s)) if s == "PTxM"
    ));
}

#[test]
fn find_max_prefers_earliest_on_ties() {
    let a = RenewableSurplus {
        timestamp: at("2023-08-14T00:00Z"),
        generation: 100,
        load: 50,
        surplus: 50,
    };
    let b = RenewableSurplus {
        timestamp: at("2023-08-14T01:00Z"),
        generation: 90,
        load: 40,
        surplus: 50,
    };
    let got = find_max(&vec![a, b]).unwrap();
    assert_eq!(got.timestamp, at("2023-08-14T00:00Z"));
    assert!(find_max(&vec![]).is_none());
}

#[test]
fn night_filter_window_bounds() {
    let make = |s: &str| RenewableSurplus {
        timestamp: at(s),
        generation: 1,
        load: 0,
        surplus: 1,
    };
    let series = vec![
        make("2023-08-14T21:59Z"),
        make("2023-08-14T22:00Z"),
        make("2023-08-15T05:59Z"),
        make("2023-08-15T06:00Z"),
    ];
    let night = filter_night_hours(series);
    // 21:59 excluded, 22:00 included, 05:59 included, 06:00 excluded
    assert_eq!(night.len(), 2);
    assert_eq!(night[0].timestamp, at("2023-08-14T22:00Z"));
    assert_eq!(night[1].timestamp, at("2023-08-15T05:59Z"));
}

#[test]
fn next_hours_filter_is_a_closed_window() {
    let make = |s: &str| RenewableSurplus {
        timestamp: at(s),
        generation: 1,
        load: 0,
        surplus: 1,
    };
    let series = vec![
        make("2023-08-14T09:59Z"),
        make("2023-08-14T10:00Z"),
        make("2023-08-14T13:00Z"),
        make("2023-08-14T16:00Z"),
        make("2023-08-14T16:01Z"),
    ];
    let kept = filter_next_hours(series, at("2023-08-14T10:00Z"), 6);
    assert_eq!(kept.len(), 3);
    assert_eq!(kept[0].timestamp, at("2023-08-14T10:00Z"));
    assert_eq!(kept[2].timestamp, at("2023-08-14T16:00Z"));
}

#[test]
fn percentage_guards_only_exact_zero_generation() {
    let zero = RenewableSurplus {
        timestamp: at("2023-08-14T00:00Z"),
        generation: 0,
        load: 5,
        surplus: -5,
    };
    assert_eq!(zero.surplus_percentage(), 0);
    let tiny = RenewableSurplus {
        timestamp: at("2023-08-14T00:00Z"),
        generation: 1,
        load: -999,
        surplus: 1000,
    };
    // near-zero generation diverges sharply: 100000.00 percent
    assert_eq!(tiny.surplus_percentage(), 10_000_000);
}
