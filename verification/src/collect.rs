//! Per-source normalization: each collector's parsed fields become one
//! normalized record with the documented defaults, fixed confidence and
//! source rank.
//!
//! The network fetch and the feed-format decoding live outside; they hand
//! these functions plain optional fields, and every missing field gets the
//! default the source's contract documents.

use vstd::prelude::*;
use vstd::string::StringExecFns;
use crate::geo::{
    all_points, bbox_or_world, clamp_box, rings_view, spec_clamp_box, tight_box, BBox, Coord,
};
use crate::ids::stable_id;
use crate::model::{AlertRow, EventRecord};
use crate::text::{fixed1_of, push_fixed1};
use crate::times::{epoch_or, parse_ts, rfc3339_epoch, spec_epoch_or};
use crate::units::{spec_severity_from_mag, severity_from_mag};

verus! {

/// The string an optional field stands for, under the given default.
pub open spec fn str_or(o: Option<String>, d: Seq<char>) -> Seq<char> {
    match o {
        Some(s) => s@,
        None => d,
    }
}

/// The id contract every collector honors: the feed-native id when present
/// and non-empty, otherwise a freshly generated 36-character identifier.
pub open spec fn id_ok(native: Option<String>, id: Seq<char>) -> bool {
    match native {
        Some(s) => if s@.len() > 0 {
            id == s@
        } else {
            id.len() == 36
        },
        None => id.len() == 36,
    }
}

/// The integer an optional field stands for, under the given default.
pub open spec fn i64_or(o: Option<i64>, d: i64) -> i64 {
    match o {
        Some(v) => v,
        None => d,
    }
}

/// Unwraps an optional string field onto its documented default.
fn unwrap_str(o: Option<String>, d: &str) -> (r: String)
    ensures
        r@ == str_or(o, d@),
{
    match o {
        Some(s) => s,
        None => d.to_owned(),
    }
}

/// Unwraps an optional integer field onto its documented default.
fn unwrap_i64(o: Option<i64>, d: i64) -> (r: i64)
    ensures
        r == i64_or(o, d),
{
    match o {
        Some(v) => v,
        None => d,
    }
}

/// One feature of the seismic summary feed, parsed: magnitude in
/// milli-units, coordinates in micro-degrees, the raw feature serialized.
pub struct UsgsFeature {
    pub id: Option<String>,
    pub title: Option<String>,
    pub mag_milli: Option<i64>,
    pub lon: Option<i64>,
    pub lat: Option<i64>,
    pub raw: String,
}

/// Normalizes a seismic summary feature: class `eq`, severity magnitude/10
/// clamped, fixed confidence 0.95, source rank 5. Stored by full-row
/// replace.
pub fn normalize_usgs(f: UsgsFeature) -> (r: EventRecord)
    ensures
        r.wf(),
        id_ok(f.id, r.id@),
        r.title@ == str_or(f.title, "USGS event"@),
        r.summary@ == str_or(f.title, "USGS event"@),
        r.class@ == "eq"@,
        r.severity == spec_severity_from_mag(i64_or(f.mag_milli, 0) as int),
        r.confidence == 950,
        r.lat == i64_or(f.lat, 0),
        r.lon == i64_or(f.lon, 0),
        r.geo matches Some(g) && g == f.raw,
        r.source_rank == 5,
{
    let title = unwrap_str(f.title, "USGS event");
    EventRecord {
        id: stable_id(f.id),
        summary: title.clone(),
        title,
        class: "eq".to_owned(),
        severity: severity_from_mag(unwrap_i64(f.mag_milli, 0)),
        confidence: 950,
        lat: unwrap_i64(f.lat, 0),
        lon: unwrap_i64(f.lon, 0),
        geo: Some(f.raw),
        source_rank: 5,
    }
}

/// One message feature of the live seismic stream, parsed.
pub struct EmscFeature {
    pub id: Option<String>,
    pub mag_milli: Option<i64>,
    pub region: Option<String>,
    pub lon: Option<i64>,
    pub lat: Option<i64>,
    pub raw: String,
}

/// The magnitude rounded half away from zero to tenths, for display.
pub open spec fn mag_tenths(m: int) -> int {
    if m >= 0 {
        (m + 50) / 100
    } else {
        -(((-m) + 50) / 100)
    }
}

/// The title of a live seismic record: the magnitude to one decimal and
/// the reporting region.
pub open spec fn emsc_title(m: int, region: Seq<char>) -> Seq<char> {
    "EMSC M"@ + fixed1_of(mag_tenths(m)) + " "@ + region
}

/// Normalizes a live-stream seismic feature: like the summary feed but
/// with source rank 4 and a synthesized title. Stored by full-row replace.
pub fn normalize_emsc(f: EmscFeature) -> (r: EventRecord)
    requires
        i64_or(f.mag_milli, 0) > i64::MIN + 50,
        i64_or(f.mag_milli, 0) < i64::MAX - 50,
    ensures
        r.wf(),
        id_ok(f.id, r.id@),
        r.title@ == emsc_title(i64_or(f.mag_milli, 0) as int, str_or(f.region, ""@)),
        r.summary@ == r.title@,
        r.class@ == "eq"@,
        r.severity == spec_severity_from_mag(i64_or(f.mag_milli, 0) as int),
        r.confidence == 950,
        r.lat == i64_or(f.lat, 0),
        r.lon == i64_or(f.lon, 0),
        r.geo matches Some(g) && g == f.raw,
        r.source_rank == 4,
{
    let mag = unwrap_i64(f.mag_milli, 0);
    let tenths: i64 = if mag >= 0 {
        (mag + 50) / 100
    } else {
        -(((-mag) + 50) / 100)
    };
    proof {
        reveal_strlit("EMSC M");
        reveal_strlit(" ");
    }
    let mut title: String = "EMSC M".to_owned();
    push_fixed1(&mut title, tenths);
    title.append(" ");
    let region = unwrap_str(f.region, "");
    title.append(region.as_str());
    proof {
        reveal_strlit("");
        assert(title@ =~= emsc_title(mag as int, str_or(f.region, ""@)));
    }
    EventRecord {
        id: stable_id(f.id),
        summary: title.clone(),
        title,
        class: "eq".to_owned(),
        severity: severity_from_mag(mag),
        confidence: 950,
        lat: unwrap_i64(f.lat, 0),
        lon: unwrap_i64(f.lon, 0),
        geo: Some(f.raw),
        source_rank: 4,
    }
}

/// One record of the global hazard catalog, parsed.
pub struct EonetEvent {
    pub id: Option<String>,
    pub title: Option<String>,
    pub category: Option<String>,
    pub lon: Option<i64>,
    pub lat: Option<i64>,
    pub raw: String,
}

/// Normalizes a global-catalog record: fixed severity 0.6, confidence 0.8,
/// source rank 8, class from the first category. Stored by full-row
/// replace.
pub fn normalize_eonet(f: EonetEvent) -> (r: EventRecord)
    ensures
        r.wf(),
        id_ok(f.id, r.id@),
        r.title@ == str_or(f.title, "EONET event"@),
        r.summary@ == str_or(f.title, "EONET event"@),
        r.class@ == str_or(f.category, "natural"@),
        r.severity == 600,
        r.confidence == 800,
        r.lat == i64_or(f.lat, 0),
        r.lon == i64_or(f.lon, 0),
        r.geo matches Some(g) && g == f.raw,
        r.source_rank == 8,
{
    let title = unwrap_str(f.title, "EONET event");
    EventRecord {
        id: stable_id(f.id),
        summary: title.clone(),
        title,
        class: unwrap_str(f.category, "natural"),
        severity: 600,
        confidence: 800,
        lat: unwrap_i64(f.lat, 0),
        lon: unwrap_i64(f.lon, 0),
        geo: Some(f.raw),
        source_rank: 8,
    }
}

/// One item of the multi-hazard aggregator feed, parsed.
pub struct GdacsItem {
    pub id: Option<String>,
    pub title: Option<String>,
    pub lon: Option<i64>,
    pub lat: Option<i64>,
    pub raw: String,
}

/// Normalizes an aggregator item: fixed severity 0.5, confidence 0.9,
/// source rank 10, class `alert`. Stored by insert-if-absent: this
/// lower-confidence source never overwrites an existing record.
pub fn normalize_gdacs(f: GdacsItem) -> (r: EventRecord)
    ensures
        r.wf(),
        id_ok(f.id, r.id@),
        r.title@ == str_or(f.title, "GDACS event"@),
        r.summary@ == str_or(f.title, "GDACS event"@),
        r.class@ == "alert"@,
        r.severity == 500,
        r.confidence == 900,
        r.lat == i64_or(f.lat, 0),
        r.lon == i64_or(f.lon, 0),
        r.geo matches Some(g) && g == f.raw,
        r.source_rank == 10,
{
    let title = unwrap_str(f.title, "GDACS event");
    EventRecord {
        id: stable_id(f.id),
        summary: title.clone(),
        title,
        class: "alert".to_owned(),
        severity: 500,
        confidence: 900,
        lat: unwrap_i64(f.lat, 0),
        lon: unwrap_i64(f.lon, 0),
        geo: Some(f.raw),
        source_rank: 10,
    }
}

/// One weather-alert feature, parsed: categorical fields, RFC 3339
/// timestamp texts, and the polygon rings in micro-degrees.
pub struct NwsFeature {
    pub id: Option<String>,
    pub headline: Option<String>,
    pub event: Option<String>,
    pub severity: Option<String>,
    pub urgency: Option<String>,
    pub certainty: Option<String>,
    pub area_desc: Option<String>,
    pub effective: Option<String>,
    pub onset: Option<String>,
    pub sent: Option<String>,
    pub expires: Option<String>,
    /// Outer rings of the alert geometry, already in micro-degrees; empty
    /// when the feature carries no usable geometry.
    pub rings: Vec<Vec<Coord>>,
    /// The serialized geometry, kept as an opaque payload.
    pub polygon_json: Option<String>,
    pub raw: String,
}

/// The onset of a weather alert: the `effective` timestamp when it parses,
/// else the `onset` timestamp, else the poll time.
pub open spec fn nws_onset(effective: Option<String>, onset: Option<String>, now: i64) -> i64 {
    match effective {
        Some(e) => match rfc3339_epoch(e@) {
            Some(t) => t as i64,
            None => spec_epoch_or(onset, now),
        },
        None => spec_epoch_or(onset, now),
    }
}

/// Normalizes a weather-alert feature into a full alert row: categorical
/// fields default to `Unknown`, missing expiry defaults to one hour past
/// the poll time, and the bounding box is the clamped tight box of the
/// geometry, or the whole-world box when there is none.
pub fn normalize_nws(f: NwsFeature, now: i64) -> (r: AlertRow)
    requires
        now <= i64::MAX - 3600,
    ensures
        r.wf(),
        id_ok(f.id, r.id@),
        r.source@ == "nws"@,
        r.headline@ == str_or(f.headline, ""@),
        r.event@ == str_or(f.event, ""@),
        r.severity@ == str_or(f.severity, "Unknown"@),
        r.urgency@ == str_or(f.urgency, "Unknown"@),
        r.certainty@ == str_or(f.certainty, "Unknown"@),
        r.area_desc@ == str_or(f.area_desc, ""@),
        r.onset == nws_onset(f.effective, f.onset, now),
        r.sent == spec_epoch_or(f.sent, now),
        r.expires == spec_epoch_or(f.expires, (now + 3600) as i64),
        all_points(rings_view(f.rings@)).len() == 0 ==> r.bbox == BBox::spec_world(),
        all_points(rings_view(f.rings@)).len() > 0 ==> (exists|b: BBox|
            tight_box(all_points(rings_view(f.rings@)), b) && r.bbox == spec_clamp_box(b)),
        r.polygon == f.polygon_json,
        r.raw == f.raw,
        r.last_seen == now,
{
    let onset = match &f.effective {
        Some(e) => match parse_ts(e.as_str()) {
            Some(t) => t,
            None => epoch_or(&f.onset, now),
        },
        None => epoch_or(&f.onset, now),
    };
    let sent = epoch_or(&f.sent, now);
    let expires = epoch_or(&f.expires, now + 3600);
    let raw_box = bbox_or_world(&f.rings);
    let bbox = clamp_box(&raw_box);
    proof {
        if all_points(rings_view(f.rings@)).len() == 0 {
            assert(spec_clamp_box(BBox::spec_world()) == BBox::spec_world());
        }
    }
    AlertRow {
        id: stable_id(f.id),
        source: "nws".to_owned(),
        headline: unwrap_str(f.headline, ""),
        event: unwrap_str(f.event, ""),
        severity: unwrap_str(f.severity, "Unknown"),
        urgency: unwrap_str(f.urgency, "Unknown"),
        certainty: unwrap_str(f.certainty, "Unknown"),
        onset,
        sent,
        expires,
        area_desc: unwrap_str(f.area_desc, ""),
        polygon: f.polygon_json,
        bbox,
        raw: f.raw,
        last_seen: now,
    }
}

} // verus!
