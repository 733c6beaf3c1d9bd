//! The generic public-alert collector: a flat stream of XML text elements
//! folded into one alert's fields, and polygon vertex text parsed into
//! rings and a bounding box.
//!
//! The XML tokenizer hands this module a flat list of (element name, text)
//! pairs; everything after that — which element wins, how vertices parse,
//! when a ring counts, how the box falls back — is specified and verified
//! here.

use vstd::prelude::*;
use vstd::string::StrSliceExecFns;
use crate::geo::{
    all_points, bbox_or_world, clamp_box, rings_view, spec_clamp_box, tight_box, BBox, Coord,
};
use crate::ids::stable_id;
use crate::model::AlertRow;
use crate::text::micro_deg_of;
use crate::times::spec_epoch_or;

verus! {

/// The flat field set of one public-alert document.
pub struct CapFields {
    pub identifier: String,
    pub headline: String,
    pub event: String,
    pub severity: String,
    pub urgency: String,
    pub certainty: String,
    pub area_desc: String,
    pub sent: String,
    pub effective: String,
    pub expires: String,
    /// Each `polygon` element's vertex text, in document order.
    pub polygons: Vec<String>,
}

/// The text of the last element with the given name, or empty.
pub open spec fn last_text(items: Seq<(String, String)>, name: Seq<char>) -> Seq<char>
    decreases items.len(),
{
    if items.len() == 0 {
        Seq::empty()
    } else if items.last().0@ == name {
        items.last().1@
    } else {
        last_text(items.drop_last(), name)
    }
}

/// The texts of every `polygon` element, in document order.
pub open spec fn poly_texts(items: Seq<(String, String)>) -> Seq<Seq<char>>
    decreases items.len(),
{
    if items.len() == 0 {
        Seq::empty()
    } else if items.last().0@ == "polygon"@ {
        poly_texts(items.drop_last()).push(items.last().1@)
    } else {
        poly_texts(items.drop_last())
    }
}

/// Unfolds `last_text` and `poly_texts` one step at a prefix boundary.
proof fn lemma_cap_take(items: Seq<(String, String)>, name: Seq<char>, n: int)
    requires
        0 < n <= items.len(),
    ensures
        last_text(items.take(n), name) == if items[n - 1].0@ == name {
            items[n - 1].1@
        } else {
            last_text(items.take(n - 1), name)
        },
        poly_texts(items.take(n)) == if items[n - 1].0@ == "polygon"@ {
            poly_texts(items.take(n - 1)).push(items[n - 1].1@)
        } else {
            poly_texts(items.take(n - 1))
        },
{
    assert(items.take(n).drop_last() =~= items.take(n - 1));
    assert(items.take(n).last() == items[n - 1]);
}

/// Folds a flat stream of (element name, text) pairs into the alert's
/// fields: for each scalar field the last occurrence wins, every `polygon`
/// element accumulates.
#[verifier::rlimit(100)]
pub fn cap_fields_from_items(items: &Vec<(String, String)>) -> (r: CapFields)
    ensures
        r.identifier@ == last_text(items@, "identifier"@),
        r.headline@ == last_text(items@, "headline"@),
        r.event@ == last_text(items@, "event"@),
        r.severity@ == last_text(items@, "severity"@),
        r.urgency@ == last_text(items@, "urgency"@),
        r.certainty@ == last_text(items@, "certainty"@),
        r.area_desc@ == last_text(items@, "areaDesc"@),
        r.sent@ == last_text(items@, "sent"@),
        r.effective@ == last_text(items@, "effective"@),
        r.expires@ == last_text(items@, "expires"@),
        r.polygons@.map_values(|p: String| p@) == poly_texts(items@),
{
    let n_identifier: String = "identifier".to_owned();
    let n_headline: String = "headline".to_owned();
    let n_event: String = "event".to_owned();
    let n_severity: String = "severity".to_owned();
    let n_urgency: String = "urgency".to_owned();
    let n_certainty: String = "certainty".to_owned();
    let n_area: String = "areaDesc".to_owned();
    let n_sent: String = "sent".to_owned();
    let n_effective: String = "effective".to_owned();
    let n_expires: String = "expires".to_owned();
    let n_polygon: String = "polygon".to_owned();
    let mut r = CapFields {
        identifier: String::new(),
        headline: String::new(),
        event: String::new(),
        severity: String::new(),
        urgency: String::new(),
        certainty: String::new(),
        area_desc: String::new(),
        sent: String::new(),
        effective: String::new(),
        expires: String::new(),
        polygons: Vec::new(),
    };
    let mut i: usize = 0;
    proof {
        assert(items@.take(0) =~= Seq::<(String, String)>::empty());
        assert(r.polygons@.map_values(|p: String| p@) =~= poly_texts(items@.take(0)));
    }
    while i < items.len()
        invariant
            0 <= i <= items@.len(),
            n_identifier@ == "identifier"@,
            n_headline@ == "headline"@,
            n_event@ == "event"@,
            n_severity@ == "severity"@,
            n_urgency@ == "urgency"@,
            n_certainty@ == "certainty"@,
            n_area@ == "areaDesc"@,
            n_sent@ == "sent"@,
            n_effective@ == "effective"@,
            n_expires@ == "expires"@,
            n_polygon@ == "polygon"@,
            r.identifier@ == last_text(items@.take(i as int), "identifier"@),
            r.headline@ == last_text(items@.take(i as int), "headline"@),
            r.event@ == last_text(items@.take(i as int), "event"@),
            r.severity@ == last_text(items@.take(i as int), "severity"@),
            r.urgency@ == last_text(items@.take(i as int), "urgency"@),
            r.certainty@ == last_text(items@.take(i as int), "certainty"@),
            r.area_desc@ == last_text(items@.take(i as int), "areaDesc"@),
            r.sent@ == last_text(items@.take(i as int), "sent"@),
            r.effective@ == last_text(items@.take(i as int), "effective"@),
            r.expires@ == last_text(items@.take(i as int), "expires"@),
            r.polygons@.map_values(|p: String| p@) == poly_texts(items@.take(i as int)),
        decreases items@.len() - i,
    {
        let name = &items[i].0;
        let text = &items[i].1;
        proof {
            lemma_cap_take(items@, "identifier"@, i + 1);
            lemma_cap_take(items@, "headline"@, i + 1);
            lemma_cap_take(items@, "event"@, i + 1);
            lemma_cap_take(items@, "severity"@, i + 1);
            lemma_cap_take(items@, "urgency"@, i + 1);
            lemma_cap_take(items@, "certainty"@, i + 1);
            lemma_cap_take(items@, "areaDesc"@, i + 1);
            lemma_cap_take(items@, "sent"@, i + 1);
            lemma_cap_take(items@, "effective"@, i + 1);
            lemma_cap_take(items@, "expires"@, i + 1);
        }
        if *name == n_identifier {
            r.identifier = text.clone();
        }
        if *name == n_headline {
            r.headline = text.clone();
        }
        if *name == n_event {
            r.event = text.clone();
        }
        if *name == n_severity {
            r.severity = text.clone();
        }
        if *name == n_urgency {
            r.urgency = text.clone();
        }
        if *name == n_certainty {
            r.certainty = text.clone();
        }
        if *name == n_area {
            r.area_desc = text.clone();
        }
        if *name == n_sent {
            r.sent = text.clone();
        }
        if *name == n_effective {
            r.effective = text.clone();
        }
        if *name == n_expires {
            r.expires = text.clone();
        }
        if *name == n_polygon {
            let ghost before = r.polygons@;
            r.polygons.push(text.clone());
            proof {
                assert(r.polygons@.map_values(|p: String| p@) =~= before.map_values(
                    |p: String| p@,
                ).push(text@));
            }
        }
        proof {
            assert(r.polygons@.map_values(|p: String| p@) =~= poly_texts(items@.take(i + 1)));
        }
        i += 1;
    }
    proof {
        assert(items@.take(items@.len() as int) =~= items@);
    }
    r
}

/// What str::split_whitespace yields for a string: a function of the text
/// alone.
pub uninterp spec fn ws_tokens(s: Seq<char>) -> Seq<Seq<char>>;

/// Relies on str::split_whitespace: splits on Unicode whitespace into the
/// maximal non-whitespace tokens, a function of the text alone.
#[verifier::external_body]
fn split_ws(s: &str) -> (r: Vec<String>)
    ensures
        r@.map_values(|t: String| t@) == ws_tokens(s@),
{
    s.split_whitespace().map(|t| t.to_owned()).collect()
}

/// Index of the first comma, or the length when there is none.
pub open spec fn find_comma(s: Seq<char>) -> int
    decreases s.len(),
{
    if s.len() == 0 {
        0int
    } else if s[0] == ',' {
        0int
    } else {
        1 + find_comma(s.skip(1))
    }
}

/// A scan that stops at the first comma finds `find_comma`.
proof fn lemma_find_comma(s: Seq<char>, j: int)
    requires
        0 <= j <= s.len(),
        forall|k: int| 0 <= k < j ==> s[k] != ',',
        j == s.len() || s[j] == ',',
    ensures
        find_comma(s) == j,
    decreases j,
{
    if j > 0 {
        assert(forall|k: int| 0 <= k < j - 1 ==> s.skip(1)[k] == s[k + 1]);
        lemma_find_comma(s.skip(1), j - 1);
    }
}

/// The vertex a `lat,lon` pair stands for: both halves must parse as
/// decimal degrees; the vertex is (lon, lat) in micro-degrees.
pub open spec fn latlon_of(s: Seq<char>) -> Option<Coord> {
    let c = find_comma(s);
    if c == s.len() {
        None
    } else {
        match (micro_deg_of(s.take(c)), micro_deg_of(s.skip(c + 1))) {
            (Some(la), Some(lo)) => Some(Coord { x: lo as i64, y: la as i64 }),
            _ => None,
        }
    }
}

/// Parses one `lat,lon` vertex; `None` exactly on text outside the pair
/// grammar.
pub fn parse_latlon(s: &str) -> (r: Option<Coord>)
    ensures
        r == latlon_of(s@),
{
    let n = s.unicode_len();
    let mut c: usize = 0;
    while c < n && s.get_char(c) != ','
        invariant
            0 <= c <= n,
            n == s@.len(),
            forall|k: int| 0 <= k < c ==> s@[k] != ',',
        decreases n - c,
    {
        c += 1;
    }
    proof {
        lemma_find_comma(s@, c as int);
    }
    if c == n {
        return None;
    }
    let lat_part = s.substring_char(0, c);
    let lon_part = s.substring_char(c + 1, n);
    proof {
        assert(lat_part@ =~= s@.take(c as int));
        assert(lon_part@ =~= s@.skip(c + 1));
    }
    let la = match crate::text::parse_micro_deg(lat_part) {
        Some(v) => v,
        None => {
            return None;
        },
    };
    let lo = match crate::text::parse_micro_deg(lon_part) {
        Some(v) => v,
        None => {
            return None;
        },
    };
    Some(Coord { x: lo, y: la })
}

/// The vertices a polygon text stands for: each whitespace token that
/// parses as a `lat,lon` pair, in order; unparsable tokens are skipped.
pub open spec fn ring_of(toks: Seq<Seq<char>>) -> Seq<Coord>
    decreases toks.len(),
{
    if toks.len() == 0 {
        Seq::empty()
    } else {
        match latlon_of(toks.last()) {
            Some(p) => ring_of(toks.drop_last()).push(p),
            None => ring_of(toks.drop_last()),
        }
    }
}

/// A ring closed the way stored polygons are: when the first and last
/// vertices differ, the first is appended again.
pub open spec fn close_ring(r: Seq<Coord>) -> Seq<Coord> {
    if r.len() > 0 && r.last() != r[0] {
        r.push(r[0])
    } else {
        r
    }
}

/// Unfolds `ring_of` one step at a prefix boundary.
proof fn lemma_ring_take(toks: Seq<Seq<char>>, n: int)
    requires
        0 < n <= toks.len(),
    ensures
        ring_of(toks.take(n)) == match latlon_of(toks[n - 1]) {
            Some(p) => ring_of(toks.take(n - 1)).push(p),
            None => ring_of(toks.take(n - 1)),
        },
{
    assert(toks.take(n).drop_last() =~= toks.take(n - 1));
    assert(toks.take(n).last() == toks[n - 1]);
}

/// Parses one polygon's vertex text into a closed ring: at least three
/// vertices must parse, and the ring is auto-closed when its ends differ.
pub fn parse_cap_ring(text: &str) -> (r: Option<Vec<Coord>>)
    ensures
        ({
            let pts = ring_of(ws_tokens(text@));
            match r {
                Some(ring) => pts.len() >= 3 && ring@ == close_ring(pts),
                None => pts.len() < 3,
            }
        }),
{
    let toks = split_ws(text);
    let ghost tseq = ws_tokens(text@);
    let mut pts: Vec<Coord> = Vec::new();
    let mut i: usize = 0;
    proof {
        assert(tseq.take(0) =~= Seq::<Seq<char>>::empty());
    }
    while i < toks.len()
        invariant
            0 <= i <= toks@.len(),
            toks@.map_values(|t: String| t@) == tseq,
            tseq.len() == toks@.len(),
            pts@ == ring_of(tseq.take(i as int)),
        decreases toks@.len() - i,
    {
        proof {
            lemma_ring_take(tseq, i + 1);
            assert(tseq[i as int] == toks@[i as int]@);
        }
        match parse_latlon(toks[i].as_str()) {
            Some(p) => {
                pts.push(p);
            },
            None => {},
        }
        i += 1;
    }
    proof {
        assert(tseq.take(tseq.len() as int) =~= tseq);
    }
    if pts.len() < 3 {
        return None;
    }
    let first = pts[0];
    let last = pts[pts.len() - 1];
    if !(first.x == last.x && first.y == last.y) {
        pts.push(first);
        proof {
            assert(pts@ =~= close_ring(ring_of(tseq)));
        }
    }
    Some(pts)
}

/// The closed rings a list of polygon texts stands for: each text whose
/// ring has at least three vertices contributes its closed ring.
pub open spec fn cap_rings_of(ps: Seq<Seq<char>>) -> Seq<Seq<Coord>>
    decreases ps.len(),
{
    if ps.len() == 0 {
        Seq::empty()
    } else {
        let pts = ring_of(ws_tokens(ps.last()));
        if pts.len() >= 3 {
            cap_rings_of(ps.drop_last()).push(close_ring(pts))
        } else {
            cap_rings_of(ps.drop_last())
        }
    }
}

/// Unfolds `cap_rings_of` one step at a prefix boundary.
proof fn lemma_cap_rings_take(ps: Seq<Seq<char>>, n: int)
    requires
        0 < n <= ps.len(),
    ensures
        cap_rings_of(ps.take(n)) == ({
            let pts = ring_of(ws_tokens(ps[n - 1]));
            if pts.len() >= 3 {
                cap_rings_of(ps.take(n - 1)).push(close_ring(pts))
            } else {
                cap_rings_of(ps.take(n - 1))
            }
        }),
{
    assert(ps.take(n).drop_last() =~= ps.take(n - 1));
    assert(ps.take(n).last() == ps[n - 1]);
}

/// Parses every polygon text of an alert into closed rings and computes
/// their bounding box: the clamped tight box of all vertices, or the
/// whole-world box when no ring qualifies.
pub fn cap_polygons_bbox(polys: &Vec<String>) -> (r: (Vec<Vec<Coord>>, BBox))
    ensures
        rings_view(r.0@) == cap_rings_of(polys@.map_values(|p: String| p@)),
        r.1.valid(),
        crate::geo::box_in_world(r.1),
        all_points(rings_view(r.0@)).len() == 0 ==> r.1 == BBox::spec_world(),
        all_points(rings_view(r.0@)).len() > 0 ==> (exists|b: BBox|
            tight_box(all_points(rings_view(r.0@)), b) && r.1 == spec_clamp_box(b)),
{
    let ghost pseq = polys@.map_values(|p: String| p@);
    let mut rings: Vec<Vec<Coord>> = Vec::new();
    let mut i: usize = 0;
    proof {
        assert(pseq.take(0) =~= Seq::<Seq<char>>::empty());
        assert(rings_view(rings@) =~= cap_rings_of(pseq.take(0)));
    }
    while i < polys.len()
        invariant
            0 <= i <= polys@.len(),
            pseq == polys@.map_values(|p: String| p@),
            pseq.len() == polys@.len(),
            rings_view(rings@) == cap_rings_of(pseq.take(i as int)),
        decreases polys@.len() - i,
    {
        proof {
            lemma_cap_rings_take(pseq, i + 1);
            assert(pseq[i as int] == polys@[i as int]@);
        }
        let ghost before = rings@;
        match parse_cap_ring(polys[i].as_str()) {
            Some(ring) => {
                rings.push(ring);
                proof {
                    assert(rings_view(rings@) =~= rings_view(before).push(rings@.last()@));
                }
            },
            None => {},
        }
        i += 1;
    }
    proof {
        assert(pseq.take(pseq.len() as int) =~= pseq);
    }
    let raw_box = bbox_or_world(&rings);
    let bbox = clamp_box(&raw_box);
    proof {
        if all_points(rings_view(rings@)).len() == 0 {
            assert(spec_clamp_box(BBox::spec_world()) == BBox::spec_world());
        }
    }
    (rings, bbox)
}

/// Normalizes a folded public-alert document into a full alert row:
/// categorical fields default to `Unknown` when empty, timestamps fall
/// back to the poll time (expiry to one hour past it), and the box comes
/// from the polygon texts.
pub fn normalize_cap(f: CapFields, raw: String, polygon_json: Option<String>, now: i64) -> (r:
    AlertRow)
    requires
        now <= i64::MAX - 3600,
    ensures
        r.wf(),
        f.identifier@.len() > 0 ==> r.id@ == f.identifier@,
        f.identifier@.len() == 0 ==> r.id@.len() == 36,
        r.source@ == "cap"@,
        r.headline == f.headline,
        r.event == f.event,
        r.severity@ == (if f.severity@.len() == 0 {
            "Unknown"@
        } else {
            f.severity@
        }),
        r.urgency@ == (if f.urgency@.len() == 0 {
            "Unknown"@
        } else {
            f.urgency@
        }),
        r.certainty@ == (if f.certainty@.len() == 0 {
            "Unknown"@
        } else {
            f.certainty@
        }),
        r.area_desc == f.area_desc,
        r.onset == spec_epoch_or(Some(f.effective), now),
        r.sent == spec_epoch_or(Some(f.sent), now),
        r.expires == spec_epoch_or(Some(f.expires), (now + 3600) as i64),
        ({
            let rings = cap_rings_of(f.polygons@.map_values(|p: String| p@));
            &&& all_points(rings).len() == 0 ==> r.bbox == BBox::spec_world()
            &&& all_points(rings).len() > 0 ==> (exists|b: BBox|
                tight_box(all_points(rings), b) && r.bbox == spec_clamp_box(b))
        }),
        r.polygon == polygon_json,
        r.raw == raw,
        r.last_seen == now,
{
    let onset = crate::times::epoch_or(&Some(f.effective), now);
    let sent = crate::times::epoch_or(&Some(f.sent), now);
    let expires = crate::times::epoch_or(&Some(f.expires), now + 3600);
    let (_rings, bbox) = cap_polygons_bbox(&f.polygons);
    let id = if f.identifier.as_str().unicode_len() > 0 {
        f.identifier
    } else {
        stable_id(None)
    };
    let severity = default_unknown(f.severity);
    let urgency = default_unknown(f.urgency);
    let certainty = default_unknown(f.certainty);
    AlertRow {
        id,
        source: "cap".to_owned(),
        headline: f.headline,
        event: f.event,
        severity,
        urgency,
        certainty,
        onset,
        sent,
        expires,
        area_desc: f.area_desc,
        polygon: polygon_json,
        bbox,
        raw,
        last_seen: now,
    }
}

/// An empty categorical field stands for `Unknown`.
fn default_unknown(s: String) -> (r: String)
    ensures
        r@ == (if s@.len() == 0 {
            "Unknown"@
        } else {
            s@
        }),
{
    if s.as_str().unicode_len() == 0 {
        "Unknown".to_owned()
    } else {
        s
    }
}

} // verus!
