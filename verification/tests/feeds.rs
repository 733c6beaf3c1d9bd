use vilya::cap::{cap_fields_from_items, normalize_cap, parse_cap_ring, parse_latlon};
use vilya::collect::{
    normalize_emsc, normalize_eonet, normalize_gdacs, normalize_nws, normalize_usgs, EmscFeature,
    EonetEvent, GdacsItem, NwsFeature, UsgsFeature,
};
use vilya::geo::Coord;
use vilya::ids::stable_id;
use vilya::rules::{load_and_compile, RuleRecord, RuleTable};
use vilya::store::EventTable;
use vilya::text::parse_micro_deg;
use vilya::times::{parse_ts, to_epoch};

fn usgs(id: Option<&str>, mag: Option<i64>) -> UsgsFeature {
    UsgsFeature {
        id: id.map(|s| s.to_string()),
        title: Some("M 7.2 somewhere".to_string()),
        mag_milli: mag,
        lon: Some(-120_140_000),
        lat: Some(38_470_000),
        raw: "{}".to_string(),
    }
}

#[test]
fn seismic_record_normalizes_magnitude_onto_unit_scale() {
    let r = normalize_usgs(usgs(Some("us1"), Some(7_200)));
    assert_eq!(r.id, "us1");
    assert_eq!(r.severity, 720);
    assert_eq!(r.confidence, 950);
    assert_eq!(r.class, "eq");
    assert_eq!(r.source_rank, 5);
    assert_eq!(r.lat, 38_470_000);
    assert_eq!(r.lon, -120_140_000);
}

#[test]
fn reingesting_a_seismic_record_keeps_one_row_and_advances_last_seen() {
    let mut events = EventTable::new();
    let created = events.upsert_replace(normalize_usgs(usgs(Some("us1"), Some(7_200))), 1000);
    assert!(created);
    let created = events.upsert_replace(normalize_usgs(usgs(Some("us1"), Some(7_200))), 2000);
    assert!(!created);
    assert_eq!(events.len(), 1);
    let row = events.get(&"us1".to_string()).unwrap();
    assert_eq!(row.severity, 720);
    assert_eq!(row.first_seen, 1000);
    assert_eq!(row.last_seen, 2000);
}

#[test]
fn missing_feed_id_generates_a_fresh_identifier() {
    let r = normalize_usgs(usgs(None, Some(1_000)));
    assert_eq!(r.id.len(), 36);
    let s = stable_id(Some(String::new()));
    assert_eq!(s.len(), 36);
    let kept = stable_id(Some("abc".to_string()));
    assert_eq!(kept, "abc");
}

#[test]
fn missing_magnitude_defaults_to_zero_severity() {
    let r = normalize_usgs(usgs(Some("us2"), None));
    assert_eq!(r.severity, 0);
}

#[test]
fn live_seismic_title_carries_magnitude_and_region() {
    let r = normalize_emsc(EmscFeature {
        id: Some("em1".to_string()),
        mag_milli: Some(7_250),
        region: Some("CENTRAL CALIFORNIA".to_string()),
        lon: Some(1),
        lat: Some(2),
        raw: "{}".to_string(),
    });
    assert_eq!(r.title, "EMSC M7.3 CENTRAL CALIFORNIA");
    assert_eq!(r.severity, 725);
    assert_eq!(r.source_rank, 4);
}

#[test]
fn catalog_record_takes_first_category_and_fixed_scores() {
    let r = normalize_eonet(EonetEvent {
        id: Some("eo1".to_string()),
        title: None,
        category: Some("wildfires".to_string()),
        lon: None,
        lat: None,
        raw: "{}".to_string(),
    });
    assert_eq!(r.title, "EONET event");
    assert_eq!(r.class, "wildfires");
    assert_eq!(r.severity, 600);
    assert_eq!(r.confidence, 800);
    assert_eq!(r.source_rank, 8);
    assert_eq!(r.lat, 0);
    assert_eq!(r.lon, 0);
}

#[test]
fn aggregator_record_is_low_priority() {
    let r = normalize_gdacs(GdacsItem {
        id: None,
        title: Some("Cyclone".to_string()),
        lon: Some(3),
        lat: Some(4),
        raw: "{}".to_string(),
    });
    assert_eq!(r.class, "alert");
    assert_eq!(r.severity, 500);
    assert_eq!(r.confidence, 900);
    assert_eq!(r.source_rank, 10);
}

fn nws(expires: Option<&str>) -> NwsFeature {
    NwsFeature {
        id: Some("n1".to_string()),
        headline: None,
        event: Some("Flood Warning".to_string()),
        severity: None,
        urgency: None,
        certainty: None,
        area_desc: None,
        effective: Some("2021-01-01T00:00:00Z".to_string()),
        onset: None,
        sent: None,
        expires: expires.map(|s| s.to_string()),
        rings: Vec::new(),
        polygon_json: None,
        raw: "{}".to_string(),
    }
}

#[test]
fn weather_alert_defaults_follow_the_contract() {
    let r = normalize_nws(nws(None), 5_000);
    assert_eq!(r.source, "nws");
    assert_eq!(r.severity, "Unknown");
    assert_eq!(r.urgency, "Unknown");
    assert_eq!(r.certainty, "Unknown");
    assert_eq!(r.headline, "");
    assert_eq!(r.onset, 1_609_459_200);
    assert_eq!(r.sent, 5_000);
    assert_eq!(r.expires, 8_600);
    assert_eq!(r.bbox.minx, -180_000_000);
    assert_eq!(r.bbox.maxy, 90_000_000);
}

#[test]
fn weather_alert_parses_rfc3339_expiry() {
    let r = normalize_nws(nws(Some("2021-01-01T01:00:00Z")), 5_000);
    assert_eq!(r.expires, 1_609_462_800);
}

#[test]
fn rfc3339_parsing_matches_unix_epoch() {
    assert_eq!(parse_ts("2021-01-01T00:00:00Z"), Some(1_609_459_200));
    assert_eq!(parse_ts("1970-01-01T00:00:00Z"), Some(0));
    assert_eq!(parse_ts("not a time"), None);
    assert_eq!(parse_ts(""), None);
    assert_eq!(to_epoch(Some("2021-01-01T00:00:00Z")), Some(1_609_459_200));
    assert_eq!(to_epoch(None), None);
}

#[test]
fn decimal_degrees_parse_to_micro_degrees() {
    assert_eq!(parse_micro_deg("38.47"), Some(38_470_000));
    assert_eq!(parse_micro_deg("-120.14"), Some(-120_140_000));
    assert_eq!(parse_micro_deg("7"), Some(7_000_000));
    assert_eq!(parse_micro_deg("0.1234567"), Some(123_456));
    assert_eq!(parse_micro_deg(""), None);
    assert_eq!(parse_micro_deg("1."), None);
    assert_eq!(parse_micro_deg(".5"), None);
    assert_eq!(parse_micro_deg("12a"), None);
    assert_eq!(parse_micro_deg("1e3"), None);
}

#[test]
fn vertex_pairs_parse_latitude_then_longitude() {
    let c = parse_latlon("38.47,-120.14").unwrap();
    assert_eq!(c.y, 38_470_000);
    assert_eq!(c.x, -120_140_000);
    assert_eq!(parse_latlon("38.47"), None);
    assert_eq!(parse_latlon("38.47,"), None);
}

#[test]
fn polygon_text_parses_and_auto_closes() {
    let ring = parse_cap_ring("38,-120 39,-120 39,-121").unwrap();
    assert_eq!(ring.len(), 4);
    assert_eq!(ring[0], Coord { x: -120_000_000, y: 38_000_000 });
    assert_eq!(ring[0], ring[3]);
    // Fewer than three usable vertices is no ring.
    assert!(parse_cap_ring("38,-120 39,-120").is_none());
    // Unparsable pairs are skipped.
    assert!(parse_cap_ring("38,-120 bogus 39,-120").is_none());
}

#[test]
fn cap_elements_fold_with_last_value_winning() {
    let items = vec![
        ("identifier".to_string(), "cap-1".to_string()),
        ("event".to_string(), "Flood".to_string()),
        ("severity".to_string(), "Moderate".to_string()),
        ("severity".to_string(), "Severe".to_string()),
        ("polygon".to_string(), "38,-120 39,-120 39,-121".to_string()),
        ("polygon".to_string(), "10,10 11,10 11,11".to_string()),
        ("other".to_string(), "ignored".to_string()),
    ];
    let f = cap_fields_from_items(&items);
    assert_eq!(f.identifier, "cap-1");
    assert_eq!(f.event, "Flood");
    assert_eq!(f.severity, "Severe");
    assert_eq!(f.headline, "");
    assert_eq!(f.polygons.len(), 2);
    assert_eq!(f.polygons[0], "38,-120 39,-120 39,-121");
}

#[test]
fn cap_alert_gets_bbox_from_polygons() {
    let items = vec![
        ("identifier".to_string(), "cap-1".to_string()),
        ("event".to_string(), "Flood".to_string()),
        ("polygon".to_string(), "38,-121 39,-120 38.5,-119.5".to_string()),
    ];
    let f = cap_fields_from_items(&items);
    let r = normalize_cap(f, "<alert/>".to_string(), None, 5_000);
    assert_eq!(r.id, "cap-1");
    assert_eq!(r.source, "cap");
    assert_eq!(r.severity, "Unknown");
    assert_eq!(r.bbox.minx, -121_000_000);
    assert_eq!(r.bbox.maxx, -119_500_000);
    assert_eq!(r.bbox.miny, 38_000_000);
    assert_eq!(r.bbox.maxy, 39_000_000);
    assert_eq!(r.onset, 5_000);
    assert_eq!(r.expires, 8_600);
}

#[test]
fn cap_alert_without_polygons_covers_the_world() {
    let items = vec![("identifier".to_string(), "cap-2".to_string())];
    let f = cap_fields_from_items(&items);
    let r = normalize_cap(f, String::new(), None, 0);
    assert_eq!(r.bbox.minx, -180_000_000);
    assert_eq!(r.bbox.maxx, 180_000_000);
}

#[test]
fn rule_compilation_replaces_the_whole_set() {
    let mut table = RuleTable::new();
    let first = vec![RuleRecord {
        id: "r0".to_string(),
        name: "old".to_string(),
        enabled: Some(true),
        target: "event".to_string(),
        where_json: "{}".to_string(),
    }];
    assert_eq!(load_and_compile(&mut table, Some(first), 100), 1);
    let second = vec![
        RuleRecord {
            id: "r1".to_string(),
            name: "quakes".to_string(),
            enabled: None,
            target: "event".to_string(),
            where_json: "{\"class\":\"eq\"}".to_string(),
        },
        RuleRecord {
            id: "r2".to_string(),
            name: "floods".to_string(),
            enabled: Some(false),
            target: "alert".to_string(),
            where_json: "{\"event\":\"Flood\"}".to_string(),
        },
    ];
    assert_eq!(load_and_compile(&mut table, Some(second), 200), 2);
    assert_eq!(table.len(), 2);
    // The prior set is gone.
    assert!(table.get(&"r0".to_string()).is_none());
    let r1 = table.get(&"r1".to_string()).unwrap();
    assert!(r1.enabled);
    assert_eq!(r1.updated_at, 200);
    let r2 = table.get(&"r2".to_string()).unwrap();
    assert!(!r2.enabled);
}

#[test]
fn absent_rule_configuration_is_a_no_op() {
    let mut table = RuleTable::new();
    assert_eq!(load_and_compile(&mut table, None, 100), 0);
    assert_eq!(table.len(), 0);
}
