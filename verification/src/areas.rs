//! The bidding-zone registry: a fixed, read-only table mapping countries to
//! their market areas, with lookup by country code or by area code.

use vstd::prelude::*;

use crate::text::{lemma_lex_total, lemma_lex_trans, lex_lt, str_eq, str_lt};

verus! {

/// One registry row: area code, country code, display name, optional
/// transmission system operator.
pub type ZoneEntry = (Seq<char>, Seq<char>, Seq<char>, Option<Seq<char>>);

/// A bidding zone or control area.
#[derive(Debug, Clone)]
pub struct BiddingZone {
    pub code: String,
    pub country_code: String,
    pub name: String,
    pub tso: Option<String>,
}

impl BiddingZone {
    /// Build a zone from its four fields.
    pub fn new(code: &str, country_code: &str, name: &str, tso: Option<&str>) -> (z: BiddingZone)
        ensures
            z.code@ == code@,
            z.country_code@ == country_code@,
            z.name@ == name@,
            z.tso is Some <==> tso is Some,
            tso matches Some(t) ==> z.tso matches Some(u) && u@ == t@,
    {
        BiddingZone {
            code: code.to_owned(),
            country_code: country_code.to_owned(),
            name: name.to_owned(),
            tso: match tso {
                Some(t) => Some(t.to_owned()),
                None => None,
            },
        }
    }

    /// A human-readable label: the name, the country code in parentheses,
    /// and the operator after a dash where one is named.
    pub fn label(&self) -> (r: String)
        ensures
            self.tso is None ==> r@ == self.name@ + " ("@ + self.country_code@ + ")"@,
            self.tso matches Some(t) ==> r@ == self.name@ + " ("@ + self.country_code@ + ")"@
                + " - "@ + t@,
    {
        let mut s = self.name.clone();
        s.append(" (");
        s.append(self.country_code.as_str());
        s.append(")");
        match &self.tso {
            Some(t) => {
                s.append(" - ");
                s.append(t.as_str());
            },
            None => {},
        }
        s
    }
}

/// The registry rows, in registry order.
pub open spec fn zone_table() -> Seq<ZoneEntry> {
    seq![
        ("10YAL-KESH-----5"@, "AL"@, "Albania"@, None),
        ("10YAT-APG------L"@, "AT"@, "Austria"@, None),
        ("10Y1001A1001A51S"@, "BY"@, "Belarus"@, None),
        ("10YBE----------2"@, "BE"@, "Belgium"@, None),
        ("10YBA-JPCC-----D"@, "BA"@, "Bosnia and Herzegovina"@, None),
        ("10YCA-BULGARIA-R"@, "BG"@, "Bulgaria"@, None),
        ("10YHR-HEP------M"@, "HR"@, "Croatia"@, None),
        ("10YCY-1001A0003J"@, "CY"@, "Cyprus"@, None),
        ("10YCZ-CEPS-----N"@, "CZ"@, "Czech Republic"@, None),
        ("10Y1001A1001A796"@, "DK"@, "Denmark"@, None),
        ("10Y1001A1001A39I"@, "EE"@, "Estonia"@, None),
        ("10YFI-1--------U"@, "FI"@, "Finland"@, None),
        ("10YFR-RTE------C"@, "FR"@, "France"@, None),
        ("10Y1001A1001A83F"@, "DE"@, "Germany"@, None),
        ("10YDE-VE-------2"@, "DE"@, "Germany"@, Some("50Hertz"@)),
        ("10YDE-RWENET---I"@, "DE"@, "Germany"@, Some("Amprion"@)),
        ("10YDE-EON------1"@, "DE"@, "Germany"@, Some("TenneT"@)),
        ("10YDE-ENBW-----N"@, "DE"@, "Germany"@, Some("TransnetBW"@)),
        ("10YGR-HTSO-----Y"@, "GR"@, "Greece"@, None),
        ("10YHU-MAVIR----U"@, "HU"@, "Hungary"@, None),
        ("IS"@, "IS"@, "Iceland"@, None),
        ("10YIE-1001A00010"@, "IE"@, "Ireland"@, None),
        ("10Y1001A1001A016"@, "GB"@, "Northern Ireland"@, None),
        ("10YIT-GRTN-----B"@, "IT"@, "Italy"@, None),
        ("10Y1001A1001A885"@, "IT"@, "Italy"@, Some("Saco AC"@)),
        ("10Y1001A1001A893"@, "IT"@, "Italy"@, Some("Saco DC"@)),
        ("10Y1001A1001A50U"@, "RU"@, "Kaliningrad"@, None),
        ("10YLV-1001A00074"@, "LV"@, "Latvia"@, None),
        ("10YLT-1001A0008Q"@, "LT"@, "Lithuania"@, None),
        ("10YLU-CEGEDEL-NQ"@, "LU"@, "Luxembourg"@, None),
        ("10YMK-MEPSO----8"@, "MK"@, "North Macedonia"@, None),
        ("10Y1001A1001A93C"@, "MT"@, "Malta"@, None),
        ("10Y1001A1001A990"@, "MD"@, "Moldova"@, None),
        ("10YCS-CG-TSO---S"@, "ME"@, "Montenegro"@, None),
        ("10YNL----------L"@, "NL"@, "Netherlands"@, None),
        ("10YNO-0--------C"@, "NO"@, "Norway"@, None),
        ("10YPL-AREA-----S"@, "PL"@, "Poland"@, None),
        ("10YPT-REN------W"@, "PT"@, "Portugal"@, None),
        ("10YRO-TEL------P"@, "RO"@, "Romania"@, None),
        ("10Y1001A1001A49F"@, "RU"@, "Russia"@, None),
        ("10YCS-SERBIATSOV"@, "RS"@, "Serbia"@, None),
        ("10YSK-SEPS-----K"@, "SK"@, "Slovakia"@, None),
        ("10YSI-ELES-----O"@, "SI"@, "Slovenia"@, None),
        ("10YES-REE------0"@, "ES"@, "Spain"@, None),
        ("10YSE-1--------K"@, "SE"@, "Sweden"@, None),
        ("10YCH-SWISSGRIDZ"@, "CH"@, "Switzerland"@, None),
        ("10YTR-TEIAS----W"@, "TR"@, "Turkey"@, None),
        ("10Y1001C--00003F"@, "UA"@, "Ukraine"@, None),
    ]
}

/// `z` carries exactly the fields of the registry row `e`.
pub open spec fn zone_matches(z: BiddingZone, e: ZoneEntry) -> bool {
    &&& z.code@ == e.0
    &&& z.country_code@ == e.1
    &&& z.name@ == e.2
    &&& (z.tso is Some <==> e.3 is Some)
    &&& (z.tso matches Some(t) ==> e.3 matches Some(u) && t@ == u)
}

/// `v` carries exactly the registry rows `es`, in order.
pub open spec fn zones_match(v: Seq<BiddingZone>, es: Seq<ZoneEntry>) -> bool {
    v.len() == es.len() && forall|i: int|
        0 <= i < v.len() ==> zone_matches(#[trigger] v[i], es[i])
}

/// Some registry row carries the country code `c`.
pub open spec fn table_has_country(c: Seq<char>) -> bool {
    exists|k: int| 0 <= k < zone_table().len() && (#[trigger] zone_table()[k]).1 == c
}

/// Every zone of the registry, in registry order.
#[verifier::rlimit(100)]
pub fn all_zones() -> (r: Vec<BiddingZone>)
    ensures
        zones_match(r@, zone_table()),
{
    let mut v: Vec<BiddingZone> = Vec::new();
    v.push(BiddingZone::new("10YAL-KESH-----5", "AL", "Albania", None));
    v.push(BiddingZone::new("10YAT-APG------L", "AT", "Austria", None));
    v.push(BiddingZone::new("10Y1001A1001A51S", "BY", "Belarus", None));
    v.push(BiddingZone::new("10YBE----------2", "BE", "Belgium", None));
    v.push(BiddingZone::new("10YBA-JPCC-----D", "BA", "Bosnia and Herzegovina", None));
    v.push(BiddingZone::new("10YCA-BULGARIA-R", "BG", "Bulgaria", None));
    v.push(BiddingZone::new("10YHR-HEP------M", "HR", "Croatia", None));
    v.push(BiddingZone::new("10YCY-1001A0003J", "CY", "Cyprus", None));
    v.push(BiddingZone::new("10YCZ-CEPS-----N", "CZ", "Czech Republic", None));
    v.push(BiddingZone::new("10Y1001A1001A796", "DK", "Denmark", None));
    v.push(BiddingZone::new("10Y1001A1001A39I", "EE", "Estonia", None));
    v.push(BiddingZone::new("10YFI-1--------U", "FI", "Finland", None));
    v.push(BiddingZone::new("10YFR-RTE------C", "FR", "France", None));
    v.push(BiddingZone::new("10Y1001A1001A83F", "DE", "Germany", None));
    v.push(BiddingZone::new("10YDE-VE-------2", "DE", "Germany", Some("50Hertz")));
    v.push(BiddingZone::new("10YDE-RWENET---I", "DE", "Germany", Some("Amprion")));
    v.push(BiddingZone::new("10YDE-EON------1", "DE", "Germany", Some("TenneT")));
    v.push(BiddingZone::new("10YDE-ENBW-----N", "DE", "Germany", Some("TransnetBW")));
    v.push(BiddingZone::new("10YGR-HTSO-----Y", "GR", "Greece", None));
    v.push(BiddingZone::new("10YHU-MAVIR----U", "HU", "Hungary", None));
    v.push(BiddingZone::new("IS", "IS", "Iceland", None));
    v.push(BiddingZone::new("10YIE-1001A00010", "IE", "Ireland", None));
    v.push(BiddingZone::new("10Y1001A1001A016", "GB", "Northern Ireland", None));
    v.push(BiddingZone::new("10YIT-GRTN-----B", "IT", "Italy", None));
    v.push(BiddingZone::new("10Y1001A1001A885", "IT", "Italy", Some("Saco AC")));
    v.push(BiddingZone::new("10Y1001A1001A893", "IT", "Italy", Some("Saco DC")));
    v.push(BiddingZone::new("10Y1001A1001A50U", "RU", "Kaliningrad", None));
    v.push(BiddingZone::new("10YLV-1001A00074", "LV", "Latvia", None));
    v.push(BiddingZone::new("10YLT-1001A0008Q", "LT", "Lithuania", None));
    v.push(BiddingZone::new("10YLU-CEGEDEL-NQ", "LU", "Luxembourg", None));
    v.push(BiddingZone::new("10YMK-MEPSO----8", "MK", "North Macedonia", None));
    v.push(BiddingZone::new("10Y1001A1001A93C", "MT", "Malta", None));
    v.push(BiddingZone::new("10Y1001A1001A990", "MD", "Moldova", None));
    v.push(BiddingZone::new("10YCS-CG-TSO---S", "ME", "Montenegro", None));
    v.push(BiddingZone::new("10YNL----------L", "NL", "Netherlands", None));
    v.push(BiddingZone::new("10YNO-0--------C", "NO", "Norway", None));
    v.push(BiddingZone::new("10YPL-AREA-----S", "PL", "Poland", None));
    v.push(BiddingZone::new("10YPT-REN------W", "PT", "Portugal", None));
    v.push(BiddingZone::new("10YRO-TEL------P", "RO", "Romania", None));
    v.push(BiddingZone::new("10Y1001A1001A49F", "RU", "Russia", None));
    v.push(BiddingZone::new("10YCS-SERBIATSOV", "RS", "Serbia", None));
    v.push(BiddingZone::new("10YSK-SEPS-----K", "SK", "Slovakia", None));
    v.push(BiddingZone::new("10YSI-ELES-----O", "SI", "Slovenia", None));
    v.push(BiddingZone::new("10YES-REE------0", "ES", "Spain", None));
    v.push(BiddingZone::new("10YSE-1--------K", "SE", "Sweden", None));
    v.push(BiddingZone::new("10YCH-SWISSGRIDZ", "CH", "Switzerland", None));
    v.push(BiddingZone::new("10YTR-TEIAS----W", "TR", "Turkey", None));
    v.push(BiddingZone::new("10Y1001C--00003F", "UA", "Ukraine", None));
    v
}

/// A field-wise copy of a zone.
fn clone_zone(z: &BiddingZone) -> (r: BiddingZone)
    ensures
        r.code@ == z.code@,
        r.country_code@ == z.country_code@,
        r.name@ == z.name@,
        r.tso is Some <==> z.tso is Some,
        z.tso matches Some(t) ==> r.tso matches Some(u) && u@ == t@,
{
    BiddingZone {
        code: z.code.clone(),
        country_code: z.country_code.clone(),
        name: z.name.clone(),
        tso: match &z.tso {
            Some(t) => Some(t.clone()),
            None => None,
        },
    }
}

/// All bidding zones of a country, in registry order; nothing for a country
/// code the registry does not know.
pub fn get_zones_by_country(country_code: &str) -> (r: Option<Vec<BiddingZone>>)
    ensures
        r is Some <==> table_has_country(country_code@),
        r matches Some(v) ==> zones_match(
            v@,
            zone_table().filter(|e: ZoneEntry| e.1 == country_code@),
        ),
{
    broadcast use vstd::seq_lib::group_filter_ensures;

    let zones = all_zones();
    let ghost table = zone_table();
    let ghost pred = |e: ZoneEntry| e.1 == country_code@;
    let mut out: Vec<BiddingZone> = Vec::new();
    let mut i: usize = 0;
    while i < zones.len()
        invariant
            i <= zones@.len(),
            zones_match(zones@, table),
            table == zone_table(),
            pred == (|e: ZoneEntry| e.1 == country_code@),
            zones_match(out@, table.take(i as int).filter(pred)),
            out@.len() > 0 ==> table_has_country(country_code@),
        decreases zones@.len() - i,
    {
        proof {
            assert(table.take(i + 1) =~= table.take(i as int).push(table[i as int]));
            table.take(i as int).lemma_filter_push(table[i as int], pred);
        }
        let z = &zones[i];
        if str_eq(country_code, z.country_code.as_str()) {
            proof {
                assert((#[trigger] table[i as int]).1 == country_code@);
            }
            out.push(clone_zone(z));
        }
        i += 1;
    }
    proof {
        assert(table.take(table.len() as int) =~= table);
    }
    if out.len() == 0 {
        proof {
            assert forall|k: int|
                0 <= k < table.len() implies (#[trigger] table[k]).1 != country_code@ by {
                if table[k].1 == country_code@ {
                    assert(pred(table[k]));
                    assert(table.filter(pred).contains(table[k]));
                }
            }
        }
        None
    } else {
        Some(out)
    }
}

/// The zone carrying exactly this area code, if the registry knows one.
pub fn get_zone_by_code(area_code: &str) -> (r: Option<BiddingZone>)
    ensures
        r is Some <==> exists|k: int|
            0 <= k < zone_table().len() && (#[trigger] zone_table()[k]).0 == area_code@,
        r matches Some(z) ==> exists|k: int|
            0 <= k < zone_table().len() && (#[trigger] zone_table()[k]).0 == area_code@
                && zone_matches(z, zone_table()[k]),
{
    let zones = all_zones();
    let ghost table = zone_table();
    let mut i: usize = 0;
    while i < zones.len()
        invariant
            i <= zones@.len(),
            zones_match(zones@, table),
            table == zone_table(),
            forall|k: int| 0 <= k < i ==> (#[trigger] table[k]).0 != area_code@,
        decreases zones@.len() - i,
    {
        let z = &zones[i];
        if str_eq(area_code, z.code.as_str()) {
            return Some(clone_zone(z));
        }
        i += 1;
    }
    None
}

/// The primary bidding zone of a country: the first registry row carrying the
/// country code.
pub fn get_primary_zone(country_code: &str) -> (r: Option<BiddingZone>)
    ensures
        r is Some <==> table_has_country(country_code@),
        r matches Some(z) ==> exists|k: int|
            0 <= k < zone_table().len() && (#[trigger] zone_table()[k]).1 == country_code@
                && zone_matches(z, zone_table()[k]) && (forall|m: int|
                0 <= m < k ==> (#[trigger] zone_table()[m]).1 != country_code@),
{
    let zones = all_zones();
    let ghost table = zone_table();
    let mut i: usize = 0;
    while i < zones.len()
        invariant
            i <= zones@.len(),
            zones_match(zones@, table),
            table == zone_table(),
            forall|k: int| 0 <= k < i ==> (#[trigger] table[k]).1 != country_code@,
        decreases zones@.len() - i,
    {
        let z = &zones[i];
        if str_eq(country_code, z.country_code.as_str()) {
            return Some(clone_zone(z));
        }
        i += 1;
    }
    None
}

/// Some string of `v` reads as `c`.
pub open spec fn holds_string(v: Seq<String>, c: Seq<char>) -> bool {
    exists|i: int| 0 <= i < v.len() && (#[trigger] v[i])@ == c
}

/// Every country code the registry knows, each once, in ascending
/// lexicographic order.
pub fn list_countries() -> (r: Vec<String>)
    ensures
        forall|i: int, j: int|
            0 <= i < j < r@.len() ==> lex_lt((#[trigger] r@[i])@, (#[trigger] r@[j])@),
        forall|i: int| 0 <= i < r@.len() ==> table_has_country((#[trigger] r@[i])@),
        forall|k: int|
            0 <= k < zone_table().len() ==> holds_string(r@, (#[trigger] zone_table()[k]).1),
{
    let zones = all_zones();
    let ghost table = zone_table();
    let mut out: Vec<String> = Vec::new();
    let mut i: usize = 0;
    while i < zones.len()
        invariant
            i <= zones@.len(),
            zones_match(zones@, table),
            table == zone_table(),
            forall|a: int, b: int|
                0 <= a < b < out@.len() ==> lex_lt((#[trigger] out@[a])@, (#[trigger] out@[b])@),
            forall|a: int| 0 <= a < out@.len() ==> table_has_country((#[trigger] out@[a])@),
            forall|k: int| 0 <= k < i ==> holds_string(out@, (#[trigger] table[k]).1),
        decreases zones@.len() - i,
    {
        let ghost before = out@;
        let c = zones[i].country_code.clone();
        let mut j: usize = 0;
        while j < out.len() && str_lt(out[j].as_str(), c.as_str())
            invariant
                j <= out@.len(),
                out@ == before,
                c@ == zones@[i as int].country_code@,
                i < zones@.len(),
                forall|k: int| 0 <= k < j ==> lex_lt((#[trigger] out@[k])@, c@),
            decreases out@.len() - j,
        {
            j += 1;
        }
        let present = j < out.len() && str_eq(out[j].as_str(), c.as_str());
        if !present {
            proof {
                if j < before.len() {
                    lemma_lex_total(before[j as int]@, c@);
                }
            }
            out.insert(j, c);
            proof {
                before.insert_ensures(j as int, out@[j as int]);
                assert forall|a: int, b: int|
                    0 <= a < b < out@.len() implies lex_lt(
                    (#[trigger] out@[a])@,
                    (#[trigger] out@[b])@,
                ) by {
                    if b < j {
                    } else if a < j && b == j {
                    } else if a < j && b > j {
                        assert(out@[b] == before[b - 1]);
                    } else if a == j {
                        assert(out@[b] == before[b - 1]);
                        if j < before.len() && b - 1 > j {
                            lemma_lex_trans(out@[a]@, before[j as int]@, before[b - 1]@);
                        }
                    } else {
                        assert(out@[a] == before[a - 1]);
                        assert(out@[b] == before[b - 1]);
                    }
                }
                assert forall|a: int| 0 <= a < out@.len() implies table_has_country(
                    (#[trigger] out@[a])@,
                ) by {
                    if a < j {
                    } else if a == j {
                        assert(table[i as int].1 == out@[a]@);
                    } else {
                        assert(out@[a] == before[a - 1]);
                    }
                }
                assert forall|k: int| 0 <= k < i + 1 implies holds_string(
                    out@,
                    (#[trigger] table[k]).1,
                ) by {
                    if k < i {
                        let w = choose|w: int|
                            0 <= w < before.len() && (#[trigger] before[w])@ == table[k].1;
                        if w < j {
                            assert(out@[w]@ == table[k].1);
                        } else {
                            assert(out@[w + 1]@ == table[k].1);
                        }
                    } else {
                        assert(out@[j as int]@ == table[k].1);
                    }
                }
            }
        } else {
            proof {
                assert(out@[j as int]@ == c@);
                assert forall|k: int| 0 <= k < i + 1 implies holds_string(
                    out@,
                    (#[trigger] table[k]).1,
                ) by {
                    if k == i {
                        assert(out@[j as int]@ == table[k].1);
                    }
                }
            }
        }
        i += 1;
    }
    out
}

} // verus!
