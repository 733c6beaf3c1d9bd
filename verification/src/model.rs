//! Row types of the store: events, alerts, enrichment labels and rules.

use vstd::prelude::*;
use crate::geo::BBox;
use crate::units::valid_unit;

verus! {

/// A normalized record as a collector hands it to the store: everything of
/// an event except the sighting timestamps, which the store maintains.
pub struct EventRecord {
    /// Stable identifier: feed-native, or freshly generated.
    pub id: String,
    pub title: String,
    pub summary: String,
    /// Hazard class, e.g. `"eq"` for seismic records.
    pub class: String,
    /// Normalized severity, per-mille.
    pub severity: u32,
    /// Fixed per-source confidence, per-mille.
    pub confidence: u32,
    /// Latitude in micro-degrees.
    pub lat: i64,
    /// Longitude in micro-degrees.
    pub lon: i64,
    /// Raw geometry payload, opaque to the pipeline.
    pub geo: Option<String>,
    /// Source priority; lower is more authoritative.
    pub source_rank: u32,
}

impl EventRecord {
    /// Severity and confidence stay on the normalized scale.
    pub open spec fn wf(self) -> bool {
        valid_unit(self.severity) && valid_unit(self.confidence)
    }
}

/// A stored event row: a record plus the sighting timestamps.
pub struct EventRow {
    pub id: String,
    pub title: String,
    pub summary: String,
    pub class: String,
    pub severity: u32,
    pub confidence: u32,
    pub lat: i64,
    pub lon: i64,
    pub geo: Option<String>,
    pub source_rank: u32,
    /// Set when the id is first stored; never overwritten afterwards.
    pub first_seen: i64,
    /// Time of the most recent sighting.
    pub last_seen: i64,
}

impl EventRow {
    /// Severity and confidence stay on the normalized scale.
    pub open spec fn wf(self) -> bool {
        valid_unit(self.severity) && valid_unit(self.confidence)
    }
}

/// The row that a record becomes under the given sighting timestamps.
pub open spec fn row_of(rec: EventRecord, first_seen: i64, last_seen: i64) -> EventRow {
    EventRow {
        id: rec.id,
        title: rec.title,
        summary: rec.summary,
        class: rec.class,
        severity: rec.severity,
        confidence: rec.confidence,
        lat: rec.lat,
        lon: rec.lon,
        geo: rec.geo,
        source_rank: rec.source_rank,
        first_seen,
        last_seen,
    }
}

/// A stored alert row. Alerts are restated in full on every feed poll, so
/// an upsert replaces the whole row.
pub struct AlertRow {
    pub id: String,
    /// Name of the originating feed.
    pub source: String,
    pub headline: String,
    /// Hazard type, in the feed's own vocabulary.
    pub event: String,
    /// Categorical severity, feed-defined; `"Unknown"` when absent.
    pub severity: String,
    pub urgency: String,
    pub certainty: String,
    pub onset: i64,
    pub sent: i64,
    pub expires: i64,
    pub area_desc: String,
    /// Serialized polygon geometry, if the feed gave one.
    pub polygon: Option<String>,
    /// Bounding box of the geometry; whole-world when none is usable.
    pub bbox: BBox,
    /// Raw payload as received.
    pub raw: String,
    pub last_seen: i64,
}

impl AlertRow {
    /// The stored bounding box is always valid and lies within the
    /// whole-world box.
    pub open spec fn wf(self) -> bool {
        self.bbox.valid() && crate::geo::box_in_world(self.bbox)
    }

    /// Copies the row field by field.
    pub fn duplicate(&self) -> (r: AlertRow)
        ensures
            r == *self,
    {
        AlertRow {
            id: self.id.clone(),
            source: self.source.clone(),
            headline: self.headline.clone(),
            event: self.event.clone(),
            severity: self.severity.clone(),
            urgency: self.urgency.clone(),
            certainty: self.certainty.clone(),
            onset: self.onset,
            sent: self.sent,
            expires: self.expires,
            area_desc: self.area_desc.clone(),
            polygon: match &self.polygon {
                Some(p) => Some(p.clone()),
                None => None,
            },
            bbox: self.bbox,
            raw: self.raw.clone(),
            last_seen: self.last_seen,
        }
    }
}

/// Rank of a categorical alert severity; the range ordering of the common
/// vocabulary, with everything unrecognized at the bottom.
pub open spec fn severity_rank(s: Seq<char>) -> int {
    if s == "Extreme"@ {
        4int
    } else if s == "Severe"@ {
        3int
    } else if s == "Moderate"@ {
        2int
    } else if s == "Minor"@ {
        1int
    } else {
        0int
    }
}

/// An alert is severe when its categorical severity is Severe or Extreme.
pub open spec fn spec_is_severe(s: Seq<char>) -> bool {
    s == "Severe"@ || s == "Extreme"@
}

/// Computes the rank of a categorical severity.
pub fn severity_rank_of(s: &String) -> (r: u32)
    ensures
        r == severity_rank(s@),
{
    let extreme: String = "Extreme".to_owned();
    let severe: String = "Severe".to_owned();
    let moderate: String = "Moderate".to_owned();
    let minor: String = "Minor".to_owned();
    if *s == extreme {
        4
    } else if *s == severe {
        3
    } else if *s == moderate {
        2
    } else if *s == minor {
        1
    } else {
        0
    }
}

/// Tests whether a categorical severity qualifies for the dedup engine.
pub fn is_severe(s: &String) -> (r: bool)
    ensures
        r == spec_is_severe(s@),
{
    let severe: String = "Severe".to_owned();
    let extreme: String = "Extreme".to_owned();
    *s == severe || *s == extreme
}

/// An enrichment label stored for one event.
pub struct LabelRow {
    /// The labeled event; at most one label per event.
    pub event_id: String,
    /// Classifier-assigned hazard class.
    pub class: String,
    /// Classifier confidence, per-mille.
    pub confidence: u32,
    /// Classifier severity, per-mille; propagated into the event.
    pub severity: u32,
    /// Key proper nouns or locations the classifier extracted.
    pub entities: Vec<String>,
}

impl LabelRow {
    /// Confidence and severity stay on the normalized scale.
    pub open spec fn wf(self) -> bool {
        valid_unit(self.confidence) && valid_unit(self.severity)
    }
}

/// A compiled declarative rule.
pub struct RuleRow {
    pub id: String,
    pub name: String,
    pub enabled: bool,
    /// Serialized condition tree, opaque to the compiler.
    pub spec_json: String,
    /// Time of the compilation that produced this row.
    pub updated_at: i64,
}

} // verus!
