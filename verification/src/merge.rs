//! The merge/dedup engine: folds severe alerts into canonical events.
//!
//! Each Severe or Extreme alert yields a dedup key from its hazard name and
//! its bounding-box centroid rounded to hundredths of a degree. One event is
//! created per distinct key, by insert-if-absent, so re-running the engine
//! over the same alerts never creates anything new.

use vstd::prelude::*;
use vstd::string::StringExecFns;
use crate::alerts::AlertTable;
use crate::model::{spec_is_severe, is_severe, AlertRow, EventRecord, EventRow};
use crate::store::EventTable;
use crate::text::{fixed2_of, push_fixed2};

verus! {

/// Centroid of two micro-degree edges, in micro-degrees, rounded toward
/// negative infinity.
pub open spec fn centroid_micro(a: int, b: int) -> int {
    (a + b + 720000000) / 2 - 360000000
}

/// Centroid of two micro-degree edges, rounded half-up to hundredths of a
/// degree: the fixed dedup precision.
pub open spec fn centroid_centi(a: int, b: int) -> int {
    (a + b + 10000 + 720000000) / 20000 - 36000
}

/// Computes the micro-degree centroid of two in-world edges.
fn centroid_micro_of(a: i64, b: i64) -> (r: i64)
    requires
        -360000000 <= a <= 360000000,
        -360000000 <= b <= 360000000,
    ensures
        r == centroid_micro(a as int, b as int),
{
    let t: i64 = a + b + 720000000;
    t / 2 - 360000000
}

/// Computes the rounded centi-degree centroid of two in-world edges.
fn centroid_centi_of(a: i64, b: i64) -> (r: i64)
    requires
        -360000000 <= a <= 360000000,
        -360000000 <= b <= 360000000,
    ensures
        r == centroid_centi(a as int, b as int),
{
    let t: i64 = a + b + 10000 + 720000000;
    t / 20000 - 36000
}

/// The dedup key of an alert: its hazard name and its rounded centroid,
/// rendered with two fraction digits.
pub open spec fn merge_key_of(a: AlertRow) -> Seq<char> {
    "cap:"@ + a.event@ + ":"@ + fixed2_of(centroid_centi(a.bbox.minx as int, a.bbox.maxx as int))
        + ":"@ + fixed2_of(centroid_centi(a.bbox.miny as int, a.bbox.maxy as int))
}

/// Builds the dedup key string of an alert.
pub fn build_merge_key(a: &AlertRow) -> (r: String)
    requires
        a.wf(),
    ensures
        r@ == merge_key_of(*a),
{
    proof {
        reveal_strlit("cap:");
        reveal_strlit(":");
    }
    let mut s: String = "cap:".to_owned();
    s.append(a.event.as_str());
    s.append(":");
    push_fixed2(&mut s, centroid_centi_of(a.bbox.minx, a.bbox.maxx));
    s.append(":");
    push_fixed2(&mut s, centroid_centi_of(a.bbox.miny, a.bbox.maxy));
    proof {
        assert(s@ =~= merge_key_of(*a));
    }
    s
}

/// The canonical event row the engine creates for a severe alert: keyed by
/// the dedup key, titled by the hazard name, placed at the exact centroid,
/// first and last seen at the alert's onset.
pub open spec fn canonical_event(a: AlertRow, r: EventRow) -> bool {
    &&& r.id@ == merge_key_of(a)
    &&& r.title@ == a.event@
    &&& r.summary@ == a.event@
    &&& r.class@ == "alert"@
    &&& r.severity == 900
    &&& r.confidence == 900
    &&& r.lat == centroid_micro(a.bbox.miny as int, a.bbox.maxy as int)
    &&& r.lon == centroid_micro(a.bbox.minx as int, a.bbox.maxx as int)
    &&& r.geo is None
    &&& r.source_rank == 1
    &&& r.first_seen == a.onset
    &&& r.last_seen == a.onset
}

/// Folds every Severe or Extreme alert into a canonical event, creating one
/// event per distinct dedup key by insert-if-absent. Returns the number of
/// events created; the engine is idempotent, so a second run over the same
/// alerts returns zero and changes nothing.
#[verifier::rlimit(100)]
pub fn dedup_alert_into_events(alerts: &AlertTable, events: &mut EventTable) -> (created: usize)
    requires
        alerts.wf(),
        old(events).wf(),
    ensures
        final(events).wf(),
        // Existing events are never touched.
        forall|k: Seq<char>|
            #[trigger] old(events).view().contains_key(k) ==> final(events).view().contains_key(k)
                && final(events).view()[k] == old(events).view()[k],
        // Every severe alert's key is stored afterwards.
        forall|i: int|
            0 <= i < alerts.rows_seq().len() && spec_is_severe(
                (#[trigger] alerts.rows_seq()[i]).severity@,
            ) ==> final(events).view().contains_key(merge_key_of(alerts.rows_seq()[i])),
        // Nothing else was added, and what was added is canonical.
        forall|k: Seq<char>|
            #[trigger] final(events).view().contains_key(k) ==> old(events).view().contains_key(k)
                || (exists|i: int|
                0 <= i < alerts.rows_seq().len() && spec_is_severe(
                    (#[trigger] alerts.rows_seq()[i]).severity@,
                ) && merge_key_of(alerts.rows_seq()[i]) == k && canonical_event(
                    alerts.rows_seq()[i],
                    final(events).view()[k],
                )),
        // The count is the number of rows the run added.
        final(events).rows_seq().len() == old(events).rows_seq().len() + created,
        // Idempotence: nothing is created exactly when every severe
        // alert's key was already stored.
        (created == 0) <==> (forall|i: int|
            0 <= i < alerts.rows_seq().len() && spec_is_severe(
                (#[trigger] alerts.rows_seq()[i]).severity@,
            ) ==> old(events).view().contains_key(merge_key_of(alerts.rows_seq()[i]))),
        created == 0 ==> final(events).view() == old(events).view(),
{
    let ghost m0 = old(events).view();
    let ghost rows = alerts.rows_seq();
    let mut created: usize = 0;
    let mut i: usize = 0;
    let n = alerts.len();
    while i < n
        invariant
            alerts.wf(),
            events.wf(),
            n == rows.len(),
            rows == alerts.rows_seq(),
            m0 == old(events).view(),
            0 <= i <= n,
            created <= i,
            forall|k: Seq<char>|
                #[trigger] m0.contains_key(k) ==> events.view().contains_key(k)
                    && events.view()[k] == m0[k],
            forall|j: int|
                0 <= j < i && spec_is_severe((#[trigger] rows[j]).severity@)
                    ==> events.view().contains_key(merge_key_of(rows[j])),
            forall|k: Seq<char>|
                #[trigger] events.view().contains_key(k) ==> m0.contains_key(k) || (exists|j: int|
                    0 <= j < i && spec_is_severe((#[trigger] rows[j]).severity@) && merge_key_of(
                        rows[j],
                    ) == k && canonical_event(rows[j], events.view()[k])),
            events.rows_seq().len() == old(events).rows_seq().len() + created,
            created == 0 ==> events.view() == m0,
            created > 0 ==> exists|j: int|
                0 <= j < i && spec_is_severe((#[trigger] rows[j]).severity@) && !m0.contains_key(
                    merge_key_of(rows[j]),
                ),
        decreases n - i,
    {
        let a = alerts.row_at(i);
        if is_severe(&a.severity) {
            let key = build_merge_key(a);
            let rec = EventRecord {
                id: key,
                title: a.event.clone(),
                summary: a.event.clone(),
                class: "alert".to_owned(),
                severity: 900,
                confidence: 900,
                lat: centroid_micro_of(a.bbox.miny, a.bbox.maxy),
                lon: centroid_micro_of(a.bbox.minx, a.bbox.maxx),
                geo: None,
                source_rank: 1,
            };
            let ghost pre = events.view();
            let ghost recv = rec;
            let was_new = events.upsert_ignore(rec, a.onset);
            proof {
                if was_new {
                    assert(events.view() == pre.insert(
                        recv.id@,
                        crate::model::row_of(recv, a.onset, a.onset),
                    ));
                    assert forall|k: Seq<char>| m0.contains_key(k) implies events.view(
                    ).contains_key(k) && events.view()[k] == m0[k] by {
                        assert(pre.contains_key(k) && pre[k] == m0[k]);
                        assert(!pre.contains_key(recv.id@));
                    }
                } else {
                    assert(events.view() == pre);
                }
                assert(canonical_event(rows[i as int], crate::model::row_of(recv, a.onset, a.onset)));
            }
            if was_new {
                created += 1;
            }
        }
        i += 1;
    }
    created
}

/// Splitting at the last separator is unambiguous when the tail holds no
/// separator.
proof fn lemma_colon_split(p1: Seq<char>, t1: Seq<char>, p2: Seq<char>, t2: Seq<char>)
    requires
        p1 + seq![':'] + t1 == p2 + seq![':'] + t2,
        forall|i: int| 0 <= i < t1.len() ==> #[trigger] t1[i] != ':',
        forall|i: int| 0 <= i < t2.len() ==> #[trigger] t2[i] != ':',
    ensures
        p1 == p2,
        t1 == t2,
{
    let s = p1 + seq![':'] + t1;
    assert(s.len() == p1.len() + 1 + t1.len());
    assert(s.len() == p2.len() + 1 + t2.len());
    assert(s[p1.len() as int] == ':');
    assert((p2 + seq![':'] + t2)[p2.len() as int] == ':');
    if t1.len() > t2.len() {
        // The reading-2 separator would sit inside the colon-free tail 1.
        let j = p2.len() as int;
        assert(s[j] == t1[j - p1.len() - 1]);
        assert(false);
    }
    if t2.len() > t1.len() {
        let j = p1.len() as int;
        assert((p2 + seq![':'] + t2)[j] == t2[j - p2.len() - 1]);
        assert(false);
    }
    assert(p1.len() == p2.len());
    assert forall|i: int| 0 <= i < p1.len() implies p1[i] == p2[i] by {
        assert(s[i] == p1[i]);
        assert((p2 + seq![':'] + t2)[i] == p2[i]);
    }
    assert(p1 =~= p2);
    assert forall|i: int| 0 <= i < t1.len() implies t1[i] == t2[i] by {
        assert(s[p1.len() + 1 + i] == t1[i]);
        assert((p2 + seq![':'] + t2)[p2.len() + 1 + i] == t2[i]);
    }
    assert(t1 =~= t2);
}

/// Equal dedup keys come from the same hazard name and the same rounded
/// centroid: distinct (name, rounded-centroid) pairs never collide, so the
/// engine keeps exactly one canonical event per pair.
pub proof fn law_merge_key_injective(a: AlertRow, b: AlertRow)
    requires
        merge_key_of(a) == merge_key_of(b),
    ensures
        a.event@ == b.event@,
        centroid_centi(a.bbox.minx as int, a.bbox.maxx as int) == centroid_centi(
            b.bbox.minx as int,
            b.bbox.maxx as int,
        ),
        centroid_centi(a.bbox.miny as int, a.bbox.maxy as int) == centroid_centi(
            b.bbox.miny as int,
            b.bbox.maxy as int,
        ),
{
    reveal_strlit("cap:");
    reveal_strlit(":");
    let cxa = centroid_centi(a.bbox.minx as int, a.bbox.maxx as int);
    let cya = centroid_centi(a.bbox.miny as int, a.bbox.maxy as int);
    let cxb = centroid_centi(b.bbox.minx as int, b.bbox.maxx as int);
    let cyb = centroid_centi(b.bbox.miny as int, b.bbox.maxy as int);
    let dxa = fixed2_of(cxa);
    let dya = fixed2_of(cya);
    let dxb = fixed2_of(cxb);
    let dyb = fixed2_of(cyb);
    crate::text::lemma_fixed2_no_colon(cxa);
    crate::text::lemma_fixed2_no_colon(cya);
    crate::text::lemma_fixed2_no_colon(cxb);
    crate::text::lemma_fixed2_no_colon(cyb);
    assert(":"@ =~= seq![':']);
    let pa = "cap:"@ + a.event@ + ":"@ + dxa;
    let pb = "cap:"@ + b.event@ + ":"@ + dxb;
    assert(merge_key_of(a) =~= pa + seq![':'] + dya);
    assert(merge_key_of(b) =~= pb + seq![':'] + dyb);
    lemma_colon_split(pa, dya, pb, dyb);
    crate::text::lemma_fixed2_injective(cya, cyb);
    let na = "cap:"@ + a.event@;
    let nb = "cap:"@ + b.event@;
    assert(pa =~= na + seq![':'] + dxa);
    assert(pb =~= nb + seq![':'] + dxb);
    lemma_colon_split(na, dxa, nb, dxb);
    crate::text::lemma_fixed2_injective(cxa, cxb);
    assert(na.len() == nb.len());
    assert(a.event@.len() == b.event@.len());
    assert forall|i: int| 0 <= i < a.event@.len() implies a.event@[i] == b.event@[i] by {
        assert(na[4 + i] == a.event@[i]);
        assert(nb[4 + i] == b.event@[i]);
    }
    assert(a.event@ =~= b.event@);
}

} // verus!
