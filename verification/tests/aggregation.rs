//! Reconstruction and cross-series aggregation.

use entsoe_surplus::aggregate::merge_points;
use entsoe_surplus::document::{
    GlMarketDocument, ParticipantId, Period, Point, TimeInterval, TimeSeries, TimestampedPoint,
};
use entsoe_surplus::time::{parse_timestamp, Timestamp};

fn period(start: &str, resolution: &str, quantities: &[(u32, i64)]) -> Period {
    Period {
        time_interval: TimeInterval { start: start.to_string(), end: String::new() },
        resolution: resolution.to_string(),
        points: quantities
            .iter()
            .map(|&(position, quantity)| Point { position, quantity })
            .collect(),
    }
}

fn series(p: Period) -> TimeSeries {
    TimeSeries {
        mrid: "1".to_string(),
        business_type: "A04".to_string(),
        object_aggregation: "A01".to_string(),
        out_bidding_zone: None,
        in_bidding_zone: None,
        quantity_measure_unit: "MAW".to_string(),
        curve_type: "A03".to_string(),
        period: p,
    }
}

fn document(periods: Vec<Period>) -> GlMarketDocument {
    GlMarketDocument {
        mrid: "test123".to_string(),
        revision_number: "1".to_string(),
        doc_type: "A65".to_string(),
        process_type: "A01".to_string(),
        sender_mrid: ParticipantId {
            value: "10X1001A1001A450".to_string(),
            coding_scheme: "A01".to_string(),
        },
        sender_role: "A32".to_string(),
        receiver_mrid: ParticipantId {
            value: "10X1001A1001A450".to_string(),
            coding_scheme: "A01".to_string(),
        },
        receiver_role: "A33".to_string(),
        created_date_time: "2026-01-07T19:26:41Z".to_string(),
        time_period_interval: TimeInterval {
            start: "2023-08-14T00:00Z".to_string(),
            end: "2023-08-17T00:00Z".to_string(),
        },
        time_series: periods.into_iter().map(series).collect(),
    }
}

#[test]
fn test_timestamped_points() {
    let doc = document(vec![period(
        "2023-08-14T00:00Z",
        "PT60M",
        &[(1, 4933), (2, 4832), (3, 4911)],
    )]);
    let points = doc.all_timestamped_points().unwrap();

    assert_eq!(points.len(), 3);

    assert_eq!(points[0].position, 1);
    assert_eq!(points[0].timestamp, parse_timestamp("2023-08-14T00:00Z").unwrap());

    assert_eq!(points[1].position, 2);
    assert_eq!(points[1].timestamp, parse_timestamp("2023-08-14T01:00Z").unwrap());

    assert_eq!(points[2].position, 3);
    assert_eq!(points[2].timestamp, parse_timestamp("2023-08-14T02:00Z").unwrap());
}

#[test]
fn reconstruction_keeps_position_one_on_start() {
    let p = period("2023-08-14T00:00Z", "PT15M", &[(1, 7), (2, 8), (5, 9)]);
    let pts = p.timestamped_points().unwrap();
    let start = parse_timestamp("2023-08-14T00:00Z").unwrap();
    assert_eq!(pts[0].timestamp, start);
    assert_eq!(pts[1].timestamp.seconds, start.seconds + 15 * 60);
    // a sparse position still lands on start + step * (position - 1)
    assert_eq!(pts[2].timestamp.seconds, start.seconds + 4 * 15 * 60);
    assert_eq!(pts[2].position, 5);
    assert_eq!(pts[2].quantity, 9);
}

#[test]
fn reconstruction_reports_first_parse_failure() {
    let doc = document(vec![
        period("2023-08-14T00:00Z", "PT60M", &[(1, 1)]),
        period("garbled", "PT60M", &[(1, 2)]),
        period("2023-08-14T00:00Z", "bad", &[(1, 3)]),
    ]);
    match doc.all_timestamped_points() {
        Err(entsoe_surplus::error::EntsoeError::InvalidTimestamp(s)) => {
            assert_eq!(s, "garbled")
        },
        other => panic!("expected an invalid-timestamp error, got {:?}", other),
    }
}

#[test]
fn aggregation_sums_shared_instants() {
    // two sub-series both contributing at the same instant: 10 + 5 = 15
    let doc = document(vec![
        period("2023-08-14T00:00Z", "PT60M", &[(1, 10)]),
        period("2023-08-14T00:00Z", "PT60M", &[(1, 5)]),
    ]);
    let points = doc.all_timestamped_points().unwrap();
    assert_eq!(points.len(), 1);
    assert_eq!(points[0].timestamp, parse_timestamp("2023-08-14T00:00Z").unwrap());
    assert_eq!(points[0].quantity, 15);
    assert_eq!(points[0].position, 1);
}

#[test]
fn aggregation_conserves_mass() {
    let doc = document(vec![
        period("2023-08-14T00:00Z", "PT30M", &[(1, 100), (2, -40), (3, 7)]),
        period("2023-08-14T00:30Z", "PT30M", &[(1, 13), (2, 55)]),
    ]);
    let points = doc.all_timestamped_points().unwrap();
    let merged_total: i64 = points.iter().map(|p| p.quantity as i64).sum();
    assert_eq!(merged_total, 100 - 40 + 7 + 13 + 55);
    // the overlapping half-hours were summed, not kept apart
    assert_eq!(points.len(), 3);
    assert_eq!(doc.total_forecast(), (100 - 40 + 7 + 13 + 55) as i128);
}

#[test]
fn aggregation_sorts_and_renumbers() {
    // the second sub-series starts an hour earlier than the first
    let doc = document(vec![
        period("2023-08-14T02:00Z", "PT60M", &[(1, 3)]),
        period("2023-08-14T00:00Z", "PT60M", &[(1, 1), (2, 2)]),
    ]);
    let points = doc.all_timestamped_points().unwrap();
    assert_eq!(points.len(), 3);
    for (i, p) in points.iter().enumerate() {
        assert_eq!(p.position, (i + 1) as u64);
    }
    assert!(points[0].timestamp.seconds < points[1].timestamp.seconds);
    assert!(points[1].timestamp.seconds < points[2].timestamp.seconds);
    assert_eq!(points[0].quantity, 1);
    assert_eq!(points[2].quantity, 3);
}

#[test]
fn aggregation_of_empty_document_is_empty() {
    let doc = document(vec![]);
    assert_eq!(doc.all_timestamped_points().unwrap().len(), 0);
    let hollow = document(vec![period("2023-08-14T00:00Z", "PT60M", &[])]);
    assert_eq!(hollow.all_timestamped_points().unwrap().len(), 0);
}

#[test]
fn aggregation_is_idempotent_on_merged_input() {
    let doc = document(vec![
        period("2023-08-14T00:00Z", "PT60M", &[(1, 10), (2, 20)]),
        period("2023-08-14T01:00Z", "PT60M", &[(1, 5), (2, 30)]),
    ]);
    let once = doc.all_timestamped_points().unwrap();
    // feed the merged output back as a single hourly sub-series
    let refed = document(vec![period(
        "2023-08-14T00:00Z",
        "PT60M",
        &once
            .iter()
            .map(|p| (p.position as u32, p.quantity as i64))
            .collect::<Vec<_>>(),
    )]);
    let twice = refed.all_timestamped_points().unwrap();
    assert_eq!(once, twice);
}

#[test]
fn merge_sums_sorts_and_renumbers() {
    let tp = |seconds: i128, position: u64, quantity: i128| TimestampedPoint {
        timestamp: Timestamp { seconds },
        position,
        quantity,
    };
    let input = vec![tp(3600, 3, 5), tp(0, 1, 2), tp(3600, 7, 4), tp(-3600, 9, -1)];
    let merged = merge_points(&input);
    assert_eq!(
        merged,
        vec![tp(-3600, 1, -1), tp(0, 2, 2), tp(3600, 3, 9)]
    );
    // merging a merged sequence changes nothing
    assert_eq!(merge_points(&merged), merged);
}

#[test]
fn all_points_strips_positions() {
    let doc = document(vec![period("2023-08-14T00:00Z", "PT60M", &[(1, 10), (2, 20)])]);
    let pairs = doc.all_points().unwrap();
    assert_eq!(pairs.len(), 2);
    assert_eq!(pairs[0], (parse_timestamp("2023-08-14T00:00Z").unwrap(), 10));
    assert_eq!(pairs[1], (parse_timestamp("2023-08-14T01:00Z").unwrap(), 20));
}

#[test]
fn document_statistics() {
    let doc = document(vec![period(
        "2023-08-14T00:00Z",
        "PT60M",
        &[(1, 4933), (2, 4832), (3, 4911)],
    )]);
    assert_eq!(doc.total_forecast(), 14676);
    assert_eq!(doc.average_forecast(), 4892);
    assert_eq!(doc.min_max(), Some((4832, 4933)));

    let (mn, mx) = doc.min_max_with_time().unwrap().unwrap();
    assert_eq!(mn.quantity, 4832);
    assert_eq!(mn.timestamp, parse_timestamp("2023-08-14T01:00Z").unwrap());
    assert_eq!(mx.quantity, 4933);
    assert_eq!(mx.timestamp, parse_timestamp("2023-08-14T00:00Z").unwrap());

    let empty = document(vec![]);
    assert_eq!(empty.min_max(), None);
    assert!(empty.min_max_with_time().unwrap().is_none());
    assert_eq!(empty.average_forecast(), 0);
}

#[test]
fn well_formedness_check() {
    let doc = document(vec![period("2023-08-14T00:00Z", "PT60M", &[(1, 10)])]);
    assert!(doc.is_well_formed());
    let huge = document(vec![period("2023-08-14T00:00Z", "PT60M", &[(1, i64::MAX)])]);
    assert!(!huge.is_well_formed());
}
