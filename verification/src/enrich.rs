//! Asynchronous enrichment: a bounded queue of event ids, the idempotence
//! guard, and the label-application step with monotonic severity
//! propagation.
//!
//! The external classification call itself is outside work; the caller runs
//! it between `needs_label` and `apply_label`, and hands `apply_label`
//! either the parsed structured response or `None` for any transport,
//! status or parse failure.

use vstd::prelude::*;
use crate::model::{EventRow, LabelRow};
use crate::store::EventTable;
use crate::units::valid_unit;

verus! {

/// No two label rows share an event id.
pub open spec fn unique_label_ids(rows: Seq<LabelRow>) -> bool {
    forall|i: int, j: int|
        0 <= i < j < rows.len() ==> #[trigger] rows[i].event_id@ != #[trigger] rows[j].event_id@
}

/// The map a sequence of label rows stands for.
pub open spec fn label_map(rows: Seq<LabelRow>) -> Map<Seq<char>, LabelRow>
    decreases rows.len(),
{
    if rows.len() == 0 {
        Map::empty()
    } else {
        label_map(rows.drop_last()).insert(rows.last().event_id@, rows.last())
    }
}

/// An id that no row carries is not in the map.
proof fn lemma_label_map_absent(rows: Seq<LabelRow>, k: Seq<char>)
    requires
        forall|i: int| 0 <= i < rows.len() ==> #[trigger] rows[i].event_id@ != k,
    ensures
        !label_map(rows).contains_key(k),
    decreases rows.len(),
{
    if rows.len() > 0 {
        lemma_label_map_absent(rows.drop_last(), k);
    }
}

/// Every row is in the map under its id, when ids are unique.
proof fn lemma_label_map_present(rows: Seq<LabelRow>, i: int)
    requires
        unique_label_ids(rows),
        0 <= i < rows.len(),
    ensures
        label_map(rows).contains_key(rows[i].event_id@),
        label_map(rows)[rows[i].event_id@] == rows[i],
    decreases rows.len(),
{
    if i == rows.len() - 1 {
    } else {
        assert(rows.drop_last()[i] == rows[i]);
        lemma_label_map_present(rows.drop_last(), i);
    }
}

/// Appending a fresh row inserts it into the map.
proof fn lemma_label_map_push(rows: Seq<LabelRow>, r: LabelRow)
    ensures
        label_map(rows.push(r)) == label_map(rows).insert(r.event_id@, r),
{
    assert(rows.push(r).drop_last() =~= rows);
    assert(rows.push(r).last() == r);
}

/// Replacing a row in place, under the same id, updates the map entry.
proof fn lemma_label_map_update(rows: Seq<LabelRow>, i: int, r: LabelRow)
    requires
        unique_label_ids(rows),
        0 <= i < rows.len(),
        r.event_id@ == rows[i].event_id@,
    ensures
        label_map(rows.update(i, r)) =~= label_map(rows).insert(r.event_id@, r),
    decreases rows.len(),
{
    let upd = rows.update(i, r);
    if i == rows.len() - 1 {
        assert(upd.drop_last() =~= rows.drop_last());
        assert(upd.last() == r);
    } else {
        let last = rows.last();
        assert(upd.drop_last() =~= rows.drop_last().update(i, r));
        assert(upd.last() == last);
        assert(rows.drop_last()[i] == rows[i]);
        lemma_label_map_update(rows.drop_last(), i, r);
        assert(last.event_id@ != r.event_id@);
        assert(label_map(rows.drop_last()).insert(r.event_id@, r).insert(last.event_id@, last)
            =~= label_map(rows.drop_last()).insert(last.event_id@, last).insert(r.event_id@, r));
    }
}

/// The label table: at most one label per event id.
pub struct LabelTable {
    rows: Vec<LabelRow>,
}

impl LabelTable {
    /// The stored rows, in insertion order.
    pub closed spec fn rows_seq(self) -> Seq<LabelRow> {
        self.rows@
    }

    /// The table as a map from event id to label row.
    pub open spec fn view(self) -> Map<Seq<char>, LabelRow> {
        label_map(self.rows_seq())
    }

    /// Ids are unique and every row is well-formed.
    pub open spec fn wf(self) -> bool {
        unique_label_ids(self.rows_seq()) && forall|i: int|
            0 <= i < self.rows_seq().len() ==> (#[trigger] self.rows_seq()[i]).wf()
    }

    /// Creates an empty table.
    pub fn new() -> (r: LabelTable)
        ensures
            r.wf(),
            r.view() == Map::<Seq<char>, LabelRow>::empty(),
    {
        LabelTable { rows: Vec::new() }
    }

    /// Index of the row with the given event id, if any.
    fn find(&self, id: &String) -> (r: Option<usize>)
        ensures
            match r {
                Some(i) => i < self.rows_seq().len() && self.rows_seq()[i as int].event_id@
                    == id@,
                None => forall|i: int|
                    0 <= i < self.rows_seq().len() ==> (#[trigger] self.rows_seq()[i]).event_id@
                        != id@,
            },
    {
        let mut i: usize = 0;
        while i < self.rows.len()
            invariant
                0 <= i <= self.rows.len(),
                forall|k: int| 0 <= k < i ==> (#[trigger] self.rows@[k]).event_id@ != id@,
            decreases self.rows.len() - i,
        {
            if self.rows[i].event_id == *id {
                return Some(i);
            }
            i += 1;
        }
        None
    }

    /// The label stored for the given event, if any.
    pub fn get(&self, id: &String) -> (r: Option<&LabelRow>)
        requires
            self.wf(),
        ensures
            match r {
                Some(row) => self.view().contains_key(id@) && *row == self.view()[id@],
                None => !self.view().contains_key(id@),
            },
    {
        match self.find(id) {
            Some(i) => {
                proof {
                    lemma_label_map_present(self.rows_seq(), i as int);
                }
                Some(&self.rows[i])
            },
            None => {
                proof {
                    lemma_label_map_absent(self.rows_seq(), id@);
                }
                None
            },
        }
    }

    /// Full-row replace keyed by event id.
    pub fn upsert_label(&mut self, row: LabelRow) -> (created: bool)
        requires
            old(self).wf(),
            row.wf(),
        ensures
            final(self).wf(),
            final(self).view() == old(self).view().insert(row.event_id@, row),
            created <==> !old(self).view().contains_key(row.event_id@),
    {
        let ghost pre = self.rows@;
        match self.find(&row.event_id) {
            Some(i) => {
                proof {
                    lemma_label_map_present(pre, i as int);
                    lemma_label_map_update(pre, i as int, row);
                }
                self.rows.set(i, row);
                false
            },
            None => {
                proof {
                    lemma_label_map_absent(pre, row.event_id@);
                    lemma_label_map_push(pre, row);
                }
                self.rows.push(row);
                true
            },
        }
    }
}

/// An event still needs enrichment when no label is stored for it.
pub open spec fn spec_needs_label(m: Map<Seq<char>, LabelRow>, id: Seq<char>) -> bool {
    !m.contains_key(id)
}

/// The idempotence guard of the enrichment worker: true exactly when the
/// event has no stored label, so the external classifier is consulted at
/// most once per event id.
pub fn needs_label(labels: &LabelTable, id: &String) -> (r: bool)
    requires
        labels.wf(),
    ensures
        r == spec_needs_label(labels.view(), id@),
{
    match labels.get(id) {
        Some(_) => false,
        None => true,
    }
}

/// A parsed classification response: what the external service answered,
/// already shaped.
pub struct LabelOutcome {
    pub class: String,
    /// Classifier confidence, per-mille.
    pub confidence: u32,
    /// Classifier severity, per-mille.
    pub severity: u32,
    pub entities: Vec<String>,
}

impl LabelOutcome {
    /// Confidence and severity stay on the normalized scale.
    pub open spec fn wf(self) -> bool {
        valid_unit(self.confidence) && valid_unit(self.severity)
    }
}

/// Confidence of the fallback label, per-mille.
pub const FALLBACK_CONFIDENCE: u32 = 500;

/// Severity of the fallback label, per-mille.
pub const FALLBACK_SEVERITY: u32 = 300;

/// The severity a response propagates: the classifier's value, or the
/// fallback severity when the call failed or its answer did not parse.
pub open spec fn response_severity(resp: Option<LabelOutcome>) -> u32 {
    match resp {
        Some(l) => l.severity,
        None => FALLBACK_SEVERITY,
    }
}

/// The event row after a monotonic severity bump.
pub open spec fn bumped_row(prior: EventRow, sev: u32) -> EventRow {
    EventRow {
        severity: if prior.severity >= sev {
            prior.severity
        } else {
            sev
        },
        ..prior
    }
}

/// Persists a classification result for one event and propagates its
/// severity into the event monotonically: a label never lowers an event's
/// severity. A failed or unparsable response (`None`) stores the fixed
/// low-confidence fallback label instead of failing.
pub fn apply_label(
    labels: &mut LabelTable,
    events: &mut EventTable,
    event_id: &String,
    resp: Option<LabelOutcome>,
)
    requires
        old(labels).wf(),
        old(events).wf(),
        resp matches Some(l) ==> l.wf(),
    ensures
        final(labels).wf(),
        final(events).wf(),
        // The label row that was stored, keyed by this event id.
        final(labels).view().contains_key(event_id@),
        ({
            let r = final(labels).view()[event_id@];
            &&& r.event_id@ == event_id@
            &&& match resp {
                Some(l) => r.class == l.class && r.confidence == l.confidence && r.severity
                    == l.severity && r.entities == l.entities,
                None => r.class@ == "other"@ && r.confidence == FALLBACK_CONFIDENCE && r.severity
                    == FALLBACK_SEVERITY && r.entities@.len() == 0,
            }
        }),
        final(labels).view() == old(labels).view().insert(
            event_id@,
            final(labels).view()[event_id@],
        ),
        // Monotonic propagation into the event, when it exists.
        old(events).view().contains_key(event_id@) ==> final(events).view() == old(
            events,
        ).view().insert(
            event_id@,
            bumped_row(old(events).view()[event_id@], response_severity(resp)),
        ),
        !old(events).view().contains_key(event_id@) ==> final(events).view() == old(
            events,
        ).view(),
{
    let ghost sev_spec = response_severity(resp);
    let row = match resp {
        Some(l) => LabelRow {
            event_id: event_id.clone(),
            class: l.class,
            confidence: l.confidence,
            severity: l.severity,
            entities: l.entities,
        },
        None => LabelRow {
            event_id: event_id.clone(),
            class: "other".to_owned(),
            confidence: FALLBACK_CONFIDENCE,
            severity: FALLBACK_SEVERITY,
            entities: Vec::new(),
        },
    };
    let sev = row.severity;
    labels.upsert_label(row);
    events.bump_severity(event_id, sev);
}

/// Once a label is stored for an event, the guard refuses to enrich it
/// again: re-running the enrichment step cannot reach the external call.
pub proof fn law_label_idempotent(
    before: Map<Seq<char>, LabelRow>,
    after: Map<Seq<char>, LabelRow>,
    id: Seq<char>,
    row: LabelRow,
)
    requires
        after == before.insert(id, row),
    ensures
        !spec_needs_label(after, id),
{
}

/// Severity propagation is monotone in both arguments: applying a label
/// never lowers an event's severity, and raises it exactly to the label's
/// severity when that is higher.
pub proof fn law_severity_monotonic(prior: EventRow, sev: u32)
    ensures
        bumped_row(prior, sev).severity >= prior.severity,
        bumped_row(prior, sev).severity >= sev,
        sev <= prior.severity ==> bumped_row(prior, sev).severity == prior.severity,
        sev > prior.severity ==> bumped_row(prior, sev).severity == sev,
{
}

/// The bounded queue of event ids awaiting enrichment: non-blocking
/// enqueue that drops on overflow, one sequential consumer.
pub struct EnrichQueue {
    items: Vec<String>,
    cap: usize,
}

impl EnrichQueue {
    /// The queued ids, oldest first.
    pub closed spec fn ids(self) -> Seq<String> {
        self.items@
    }

    /// The fixed capacity the queue was created with.
    pub closed spec fn capacity(self) -> usize {
        self.cap
    }

    /// The queue never holds more than its capacity.
    pub open spec fn wf(self) -> bool {
        self.ids().len() <= self.capacity()
    }

    /// Creates an empty queue with the given capacity.
    pub fn new(cap: usize) -> (r: EnrichQueue)
        ensures
            r.wf(),
            r.ids().len() == 0,
            r.capacity() == cap,
    {
        EnrichQueue { items: Vec::new(), cap }
    }

    /// Number of queued ids.
    pub fn len(&self) -> (r: usize)
        ensures
            r == self.ids().len(),
    {
        self.items.len()
    }

    /// Best-effort enqueue: appends when there is room, otherwise drops the
    /// id and reports the drop. Never blocks the producer.
    pub fn enqueue(&mut self, id: String) -> (accepted: bool)
        requires
            old(self).wf(),
        ensures
            final(self).wf(),
            final(self).capacity() == old(self).capacity(),
            accepted <==> old(self).ids().len() < old(self).capacity(),
            accepted ==> final(self).ids() == old(self).ids().push(id),
            !accepted ==> final(self).ids() == old(self).ids(),
    {
        if self.items.len() < self.cap {
            self.items.push(id);
            true
        } else {
            false
        }
    }

    /// Takes the oldest queued id, if any: the single consumer's step.
    pub fn dequeue(&mut self) -> (r: Option<String>)
        requires
            old(self).wf(),
        ensures
            final(self).wf(),
            final(self).capacity() == old(self).capacity(),
            match r {
                Some(id) => old(self).ids().len() > 0 && id == old(self).ids()[0]
                    && final(self).ids() == old(self).ids().skip(1),
                None => old(self).ids().len() == 0 && final(self).ids() == old(self).ids(),
            },
    {
        let ghost pre = self.items@;
        if self.items.len() == 0 {
            None
        } else {
            let id = self.items.remove(0);
            proof {
                assert(self.items@ =~= pre.skip(1));
            }
            Some(id)
        }
    }
}

} // verus!
