use vilya::alerts::AlertTable;
use vilya::enrich::{apply_label, needs_label, EnrichQueue, LabelOutcome, LabelTable};
use vilya::geo::{bbox_or_world, BBox, Coord};
use vilya::merge::dedup_alert_into_events;
use vilya::model::{AlertRow, EventRecord};
use vilya::store::EventTable;
use vilya::units::{clamp_unit, severity_from_mag};

fn record(id: &str, severity: u32) -> EventRecord {
    EventRecord {
        id: id.to_string(),
        title: "t".to_string(),
        summary: "s".to_string(),
        class: "eq".to_string(),
        severity,
        confidence: 950,
        lat: 1_000_000,
        lon: 2_000_000,
        geo: None,
        source_rank: 5,
    }
}

fn alert(id: &str, event: &str, severity: &str, bbox: BBox, expires: i64) -> AlertRow {
    AlertRow {
        id: id.to_string(),
        source: "nws".to_string(),
        headline: "h".to_string(),
        event: event.to_string(),
        severity: severity.to_string(),
        urgency: "Unknown".to_string(),
        certainty: "Unknown".to_string(),
        onset: 100,
        sent: 100,
        expires,
        area_desc: String::new(),
        polygon: None,
        bbox,
        raw: String::new(),
        last_seen: 100,
    }
}

fn deg(d: i64) -> i64 {
    d * 1_000_000
}

#[test]
fn upsert_same_record_twice_keeps_one_row() {
    let mut events = EventTable::new();
    let created = events.upsert_replace(record("ev1", 500), 1000);
    assert!(created);
    assert_eq!(events.len(), 1);
    let created = events.upsert_replace(record("ev1", 500), 2000);
    assert!(!created);
    assert_eq!(events.len(), 1);
    let row = events.get(&"ev1".to_string()).unwrap();
    assert_eq!(row.first_seen, 1000);
    assert_eq!(row.last_seen, 2000);
}

#[test]
fn insert_if_absent_never_overwrites() {
    let mut events = EventTable::new();
    events.upsert_replace(record("ev1", 700), 1000);
    let created = events.upsert_ignore(record("ev1", 100), 2000);
    assert!(!created);
    let row = events.get(&"ev1".to_string()).unwrap();
    assert_eq!(row.severity, 700);
    assert_eq!(row.last_seen, 1000);
}

#[test]
fn severity_is_always_clamped() {
    assert_eq!(severity_from_mag(7_200), 720);
    assert_eq!(severity_from_mag(72_000), 1000);
    assert_eq!(severity_from_mag(-3_000), 0);
    assert_eq!(clamp_unit(2_000), 1000);
    assert_eq!(clamp_unit(-5), 0);
    assert_eq!(clamp_unit(421), 421);
}

#[test]
fn absent_geometry_gives_whole_world_box() {
    let rings: Vec<Vec<Coord>> = Vec::new();
    let b = bbox_or_world(&rings);
    assert_eq!(b.minx, -180_000_000);
    assert_eq!(b.miny, -90_000_000);
    assert_eq!(b.maxx, 180_000_000);
    assert_eq!(b.maxy, 90_000_000);
}

#[test]
fn degenerate_geometry_still_gives_valid_box() {
    let rings = vec![vec![Coord { x: deg(5), y: deg(7) }]];
    let b = bbox_or_world(&rings);
    assert_eq!(b.minx, deg(5));
    assert_eq!(b.maxx, deg(5));
    assert_eq!(b.miny, deg(7));
    assert_eq!(b.maxy, deg(7));
    assert!(b.minx <= b.maxx && b.miny <= b.maxy);
}

#[test]
fn dedup_creates_one_event_per_key_and_is_idempotent() {
    let mut alerts = AlertTable::new();
    let bx = BBox { minx: deg(10), miny: deg(20), maxx: deg(12), maxy: deg(22) };
    // Two severe alerts over the same spot and hazard name: one key.
    alerts.upsert_alert(alert("a1", "Flood", "Severe", bx, 10_000));
    alerts.upsert_alert(alert("a2", "Flood", "Extreme", bx, 10_000));
    // A third severe alert elsewhere: a second key.
    let far = BBox { minx: deg(50), miny: deg(50), maxx: deg(52), maxy: deg(52) };
    alerts.upsert_alert(alert("a3", "Flood", "Severe", far, 10_000));
    // A non-severe alert: never merged.
    alerts.upsert_alert(alert("a4", "Flood", "Minor", bx, 10_000));

    let mut events = EventTable::new();
    let created = dedup_alert_into_events(&alerts, &mut events);
    assert_eq!(created, 2);
    assert_eq!(events.len(), 2);
    // Re-running the engine over the same alerts creates nothing.
    let created = dedup_alert_into_events(&alerts, &mut events);
    assert_eq!(created, 0);
    assert_eq!(events.len(), 2);
}

#[test]
fn dedup_key_is_the_rounded_centroid() {
    let mut alerts = AlertTable::new();
    let bx = BBox { minx: deg(10), miny: deg(20), maxx: deg(30), maxy: deg(40) };
    alerts.upsert_alert(alert("a1", "Flood", "Severe", bx, 10_000));
    let mut events = EventTable::new();
    dedup_alert_into_events(&alerts, &mut events);
    let row = events.get(&"cap:Flood:20.00:30.00".to_string()).unwrap();
    assert_eq!(row.class, "alert");
    assert_eq!(row.severity, 900);
    assert_eq!(row.confidence, 900);
    assert_eq!(row.source_rank, 1);
    assert_eq!(row.first_seen, 100);
    assert_eq!(row.lon, deg(20));
    assert_eq!(row.lat, deg(30));
}

#[test]
fn labeled_event_is_never_relabeled() {
    let mut labels = LabelTable::new();
    let mut events = EventTable::new();
    events.upsert_replace(record("ev1", 100), 1000);
    let id = "ev1".to_string();

    let mut external_calls = 0;
    for _ in 0..2 {
        if needs_label(&labels, &id) {
            external_calls += 1;
            let resp = Some(LabelOutcome {
                class: "flood".to_string(),
                confidence: 800,
                severity: 400,
                entities: vec!["somewhere".to_string()],
            });
            apply_label(&mut labels, &mut events, &id, resp);
        }
    }
    assert_eq!(external_calls, 1);
    let row = labels.get(&id).unwrap();
    assert_eq!(row.class, "flood");
    assert_eq!(row.severity, 400);
}

#[test]
fn label_severity_propagates_monotonically() {
    let mut labels = LabelTable::new();
    let mut events = EventTable::new();
    events.upsert_replace(record("ev1", 700), 1000);
    let id = "ev1".to_string();

    // A weaker label never lowers the event's severity.
    let weak = Some(LabelOutcome {
        class: "storm".to_string(),
        confidence: 900,
        severity: 200,
        entities: Vec::new(),
    });
    apply_label(&mut labels, &mut events, &id, weak);
    assert_eq!(events.get(&id).unwrap().severity, 700);

    // A stronger label raises it exactly to the label's severity.
    let strong = Some(LabelOutcome {
        class: "storm".to_string(),
        confidence: 900,
        severity: 900,
        entities: Vec::new(),
    });
    apply_label(&mut labels, &mut events, &id, strong);
    assert_eq!(events.get(&id).unwrap().severity, 900);
}

#[test]
fn failed_classification_falls_back_to_default_label() {
    let mut labels = LabelTable::new();
    let mut events = EventTable::new();
    events.upsert_replace(record("ev1", 100), 1000);
    let id = "ev1".to_string();
    apply_label(&mut labels, &mut events, &id, None);
    let row = labels.get(&id).unwrap();
    assert_eq!(row.class, "other");
    assert_eq!(row.confidence, 500);
    assert_eq!(row.severity, 300);
    assert!(row.entities.is_empty());
    // The fallback severity still propagates monotonically.
    assert_eq!(events.get(&id).unwrap().severity, 300);
}

#[test]
fn range_query_returns_overlapping_unexpired_alerts() {
    let mut alerts = AlertTable::new();
    let a = BBox { minx: deg(0), miny: deg(0), maxx: deg(10), maxy: deg(10) };
    let b = BBox { minx: deg(20), miny: deg(20), maxx: deg(30), maxy: deg(30) };
    alerts.upsert_alert(alert("a", "Flood", "Severe", a, 10_000));
    alerts.upsert_alert(alert("b", "Storm", "Extreme", b, 10_000));

    let q1 = BBox { minx: deg(5), miny: deg(5), maxx: deg(15), maxy: deg(15) };
    let r1 = alerts.query_alerts(&q1, 0);
    assert_eq!(r1.len(), 1);
    assert_eq!(r1[0].id, "a");

    let q2 = BBox { minx: -deg(1), miny: -deg(1), maxx: deg(31), maxy: deg(31) };
    let r2 = alerts.query_alerts(&q2, 0);
    assert_eq!(r2.len(), 2);
    // Ordered by categorical severity: Extreme before Severe.
    assert_eq!(r2[0].id, "b");
    assert_eq!(r2[1].id, "a");
}

#[test]
fn range_query_excludes_expired_alerts() {
    let mut alerts = AlertTable::new();
    let a = BBox { minx: deg(0), miny: deg(0), maxx: deg(10), maxy: deg(10) };
    alerts.upsert_alert(alert("a", "Flood", "Severe", a, 500));
    let q = BBox { minx: deg(0), miny: deg(0), maxx: deg(10), maxy: deg(10) };
    assert_eq!(alerts.query_alerts(&q, 501).len(), 0);
    assert_eq!(alerts.query_alerts(&q, 500).len(), 1);
}

#[test]
fn range_query_orders_equal_severity_by_onset() {
    let mut alerts = AlertTable::new();
    let bx = BBox { minx: deg(0), miny: deg(0), maxx: deg(10), maxy: deg(10) };
    let mut early = alert("early", "Flood", "Severe", bx, 10_000);
    early.onset = 100;
    let mut late = alert("late", "Flood", "Severe", bx, 10_000);
    late.onset = 200;
    alerts.upsert_alert(early);
    alerts.upsert_alert(late);
    let q = BBox { minx: deg(0), miny: deg(0), maxx: deg(10), maxy: deg(10) };
    let r = alerts.query_alerts(&q, 0);
    assert_eq!(r[0].id, "late");
    assert_eq!(r[1].id, "early");
}

#[test]
fn alert_upsert_replaces_whole_row() {
    let mut alerts = AlertTable::new();
    let bx = BBox { minx: deg(0), miny: deg(0), maxx: deg(10), maxy: deg(10) };
    alerts.upsert_alert(alert("a", "Flood", "Minor", bx, 10_000));
    let bx2 = BBox { minx: deg(1), miny: deg(1), maxx: deg(2), maxy: deg(2) };
    alerts.upsert_alert(alert("a", "Storm", "Severe", bx2, 20_000));
    assert_eq!(alerts.len(), 1);
    let row = alerts.get(&"a".to_string()).unwrap();
    assert_eq!(row.event, "Storm");
    assert_eq!(row.severity, "Severe");
    assert_eq!(row.bbox.maxx, deg(2));
    assert_eq!(row.expires, 20_000);
}

#[test]
fn queue_drops_on_overflow_and_preserves_order() {
    let mut q = EnrichQueue::new(2);
    assert!(q.enqueue("a".to_string()));
    assert!(q.enqueue("b".to_string()));
    assert!(!q.enqueue("c".to_string()));
    assert_eq!(q.len(), 2);
    assert_eq!(q.dequeue(), Some("a".to_string()));
    assert_eq!(q.dequeue(), Some("b".to_string()));
    assert_eq!(q.dequeue(), None);
}

#[test]
fn range_query_caps_the_result_size() {
    let mut alerts = AlertTable::new();
    let bx = BBox { minx: deg(0), miny: deg(0), maxx: deg(10), maxy: deg(10) };
    for i in 0..510 {
        alerts.upsert_alert(alert(&format!("a{}", i), "Flood", "Severe", bx, 10_000));
    }
    let q = BBox { minx: deg(0), miny: deg(0), maxx: deg(10), maxy: deg(10) };
    let r = alerts.query_alerts(&q, 0);
    assert_eq!(r.len(), 500);
}
