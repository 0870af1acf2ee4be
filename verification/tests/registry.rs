//! The bidding-zone registry, the response envelope, and the upstream error
//! marker scan.

use entsoe_surplus::api::ApiResponse;
use entsoe_surplus::areas::{
    all_zones, get_primary_zone, get_zone_by_code, get_zones_by_country, list_countries,
    BiddingZone,
};
use entsoe_surplus::document::response_has_error_markers;

#[test]
fn registry_lookup_by_country() {
    let germany = get_zones_by_country("DE").unwrap();
    assert_eq!(germany.len(), 5);
    assert_eq!(germany[0].code, "10Y1001A1001A83F");
    assert_eq!(germany[1].tso.as_deref(), Some("50Hertz"));
    assert!(get_zones_by_country("XX").is_none());
}

#[test]
fn registry_lookup_by_code() {
    let cz = get_zone_by_code("10YCZ-CEPS-----N").unwrap();
    assert_eq!(cz.country_code, "CZ");
    assert_eq!(cz.name, "Czech Republic");
    assert!(get_zone_by_code("nope").is_none());
}

#[test]
fn registry_primary_zone_is_first_listed() {
    let de = get_primary_zone("DE").unwrap();
    assert_eq!(de.code, "10Y1001A1001A83F");
    assert!(de.tso.is_none());
    let be = get_primary_zone("BE").unwrap();
    assert_eq!(be.code, "10YBE----------2");
    assert!(get_primary_zone("ZZ").is_none());
}

#[test]
fn registry_countries_are_sorted_and_unique() {
    let countries = list_countries();
    for w in countries.windows(2) {
        assert!(w[0] < w[1]);
    }
    assert!(countries.iter().any(|c| c == "DE"));
    assert!(countries.iter().any(|c| c == "UA"));
    // 48 zones over 41 distinct countries
    assert_eq!(all_zones().len(), 48);
    assert_eq!(countries.len(), 41);
}

#[test]
fn zone_labels() {
    let plain = BiddingZone::new("10YBE----------2", "BE", "Belgium", None);
    assert_eq!(plain.label(), "Belgium (BE)");
    let with_tso = BiddingZone::new("10YDE-VE-------2", "DE", "Germany", Some("50Hertz"));
    assert_eq!(with_tso.label(), "Germany (DE) - 50Hertz");
}

#[test]
fn response_envelope() {
    let ok: ApiResponse<u32> = ApiResponse::success(7);
    assert!(ok.success);
    assert_eq!(ok.data, Some(7));
    assert!(ok.error.is_none());

    let bad: ApiResponse<u32> = ApiResponse::error("boom".to_string());
    assert!(!bad.success);
    assert!(bad.data.is_none());
    assert_eq!(bad.error.as_deref(), Some("boom"));
}

#[test]
fn upstream_error_markers() {
    assert!(response_has_error_markers("<xml><Reason>denied</Reason></xml>"));
    assert!(response_has_error_markers("<fault><code>999</code></fault>"));
    assert!(!response_has_error_markers("<GL_MarketDocument></GL_MarketDocument>"));
    assert!(!response_has_error_markers(""));
}
