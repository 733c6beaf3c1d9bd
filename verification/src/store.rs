//! The event side of the store: rows keyed by id, with the upsert policies
//! the collectors rely on.
//!
//! The table is modeled as a map from id to row. `upsert_replace` is the
//! write path of authoritative sources: it replaces every descriptive field
//! but preserves `first_seen`. `upsert_ignore` is the write path of
//! lower-confidence aggregators: it never overwrites an existing row.

use vstd::prelude::*;
use crate::model::{row_of, EventRecord, EventRow};

verus! {

/// No two rows share an id.
pub open spec fn unique_event_ids(rows: Seq<EventRow>) -> bool {
    forall|i: int, j: int|
        0 <= i < j < rows.len() ==> #[trigger] rows[i].id@ != #[trigger] rows[j].id@
}

/// The map a sequence of rows stands for: each id to its row (later rows
/// win, though well-formed tables never repeat an id).
pub open spec fn event_map(rows: Seq<EventRow>) -> Map<Seq<char>, EventRow>
    decreases rows.len(),
{
    if rows.len() == 0 {
        Map::empty()
    } else {
        event_map(rows.drop_last()).insert(rows.last().id@, rows.last())
    }
}

/// An id that no row carries is not in the map.
pub proof fn lemma_event_map_absent(rows: Seq<EventRow>, k: Seq<char>)
    requires
        forall|i: int| 0 <= i < rows.len() ==> #[trigger] rows[i].id@ != k,
    ensures
        !event_map(rows).contains_key(k),
    decreases rows.len(),
{
    if rows.len() > 0 {
        lemma_event_map_absent(rows.drop_last(), k);
    }
}

/// Every row is in the map under its id, when ids are unique.
pub proof fn lemma_event_map_present(rows: Seq<EventRow>, i: int)
    requires
        unique_event_ids(rows),
        0 <= i < rows.len(),
    ensures
        event_map(rows).contains_key(rows[i].id@),
        event_map(rows)[rows[i].id@] == rows[i],
    decreases rows.len(),
{
    if i == rows.len() - 1 {
    } else {
        assert(rows.drop_last()[i] == rows[i]);
        lemma_event_map_present(rows.drop_last(), i);
    }
}

/// The map's domain is exactly the set of stored ids.
pub proof fn lemma_event_map_dom(rows: Seq<EventRow>, k: Seq<char>)
    requires
        unique_event_ids(rows),
    ensures
        event_map(rows).contains_key(k) <==> exists|i: int|
            0 <= i < rows.len() && #[trigger] rows[i].id@ == k,
{
    if event_map(rows).contains_key(k) {
        if forall|i: int| 0 <= i < rows.len() ==> #[trigger] rows[i].id@ != k {
            lemma_event_map_absent(rows, k);
        }
    } else {
        if exists|i: int| 0 <= i < rows.len() && #[trigger] rows[i].id@ == k {
            let i = choose|i: int| 0 <= i < rows.len() && #[trigger] rows[i].id@ == k;
            lemma_event_map_present(rows, i);
        }
    }
}

/// Appending a fresh row inserts it into the map.
pub proof fn lemma_event_map_push(rows: Seq<EventRow>, r: EventRow)
    ensures
        event_map(rows.push(r)) == event_map(rows).insert(r.id@, r),
{
    assert(rows.push(r).drop_last() =~= rows);
    assert(rows.push(r).last() == r);
}

/// Replacing a row in place, under the same id, updates the map entry.
pub proof fn lemma_event_map_update(rows: Seq<EventRow>, i: int, r: EventRow)
    requires
        unique_event_ids(rows),
        0 <= i < rows.len(),
        r.id@ == rows[i].id@,
    ensures
        event_map(rows.update(i, r)) =~= event_map(rows).insert(r.id@, r),
    decreases rows.len(),
{
    let upd = rows.update(i, r);
    if i == rows.len() - 1 {
        assert(upd.drop_last() =~= rows.drop_last());
        assert(upd.last() == r);
        assert(event_map(upd) == event_map(rows.drop_last()).insert(r.id@, r));
        assert(event_map(rows).insert(r.id@, r) =~= event_map(rows.drop_last()).insert(
            r.id@,
            r,
        ));
    } else {
        let last = rows.last();
        assert(upd.drop_last() =~= rows.drop_last().update(i, r));
        assert(upd.last() == last);
        assert(rows.drop_last()[i] == rows[i]);
        lemma_event_map_update(rows.drop_last(), i, r);
        assert(last.id@ != r.id@);
        assert(event_map(upd) == event_map(rows.drop_last().update(i, r)).insert(
            last.id@,
            last,
        ));
        assert(event_map(rows.drop_last().update(i, r)) =~= event_map(
            rows.drop_last(),
        ).insert(r.id@, r));
        assert(event_map(rows.drop_last()).insert(r.id@, r).insert(last.id@, last)
            =~= event_map(rows.drop_last()).insert(last.id@, last).insert(r.id@, r));
    }
}

/// The event table: one row per event id.
pub struct EventTable {
    rows: Vec<EventRow>,
}

/// The map an `upsert_replace` leaves behind: the record's fields under its
/// id, with `first_seen` carried over from any prior row and `last_seen`
/// advanced to `now`.
pub open spec fn upsert_replace_model(
    m: Map<Seq<char>, EventRow>,
    rec: EventRecord,
    now: i64,
) -> Map<Seq<char>, EventRow> {
    let first = if m.contains_key(rec.id@) {
        m[rec.id@].first_seen
    } else {
        now
    };
    m.insert(rec.id@, row_of(rec, first, now))
}

/// The map an `upsert_ignore` leaves behind: unchanged when the id is
/// already stored, otherwise the new row under its id.
pub open spec fn upsert_ignore_model(
    m: Map<Seq<char>, EventRow>,
    rec: EventRecord,
    now: i64,
) -> Map<Seq<char>, EventRow> {
    if m.contains_key(rec.id@) {
        m
    } else {
        m.insert(rec.id@, row_of(rec, now, now))
    }
}

impl EventTable {
    /// The stored rows, in insertion order.
    pub closed spec fn rows_seq(self) -> Seq<EventRow> {
        self.rows@
    }

    /// The table as a map from id to row.
    pub open spec fn view(self) -> Map<Seq<char>, EventRow> {
        event_map(self.rows_seq())
    }

    /// Ids are unique and every row is well-formed.
    pub open spec fn wf(self) -> bool {
        unique_event_ids(self.rows_seq()) && forall|i: int|
            0 <= i < self.rows_seq().len() ==> (#[trigger] self.rows_seq()[i]).wf()
    }

    /// Creates an empty table.
    pub fn new() -> (r: EventTable)
        ensures
            r.wf(),
            r.view() == Map::<Seq<char>, EventRow>::empty(),
            r.rows_seq().len() == 0,
    {
        EventTable { rows: Vec::new() }
    }

    /// Number of stored rows.
    pub fn len(&self) -> (r: usize)
        ensures
            r == self.rows_seq().len(),
    {
        self.rows.len()
    }

    /// The row at the given position, in insertion order.
    pub fn row_at(&self, i: usize) -> (r: &EventRow)
        requires
            i < self.rows_seq().len(),
        ensures
            *r == self.rows_seq()[i as int],
    {
        &self.rows[i]
    }

    /// Index of the row with the given id, if any.
    fn find(&self, id: &String) -> (r: Option<usize>)
        ensures
            match r {
                Some(i) => i < self.rows_seq().len() && self.rows_seq()[i as int].id@ == id@,
                None => forall|i: int|
                    0 <= i < self.rows_seq().len() ==> (#[trigger] self.rows_seq()[i]).id@ != id@,
            },
    {
        let mut i: usize = 0;
        while i < self.rows.len()
            invariant
                0 <= i <= self.rows.len(),
                forall|k: int| 0 <= k < i ==> (#[trigger] self.rows@[k]).id@ != id@,
            decreases self.rows.len() - i,
        {
            if self.rows[i].id == *id {
                return Some(i);
            }
            i += 1;
        }
        None
    }

    /// The row stored for the given id, if any.
    pub fn get(&self, id: &String) -> (r: Option<&EventRow>)
        requires
            self.wf(),
        ensures
            match r {
                Some(row) => self.view().contains_key(id@) && *row == self.view()[id@],
                None => !self.view().contains_key(id@),
            },
    {
        match self.find(id) {
            Some(i) => {
                proof {
                    lemma_event_map_present(self.rows_seq(), i as int);
                }
                Some(&self.rows[i])
            },
            None => {
                proof {
                    lemma_event_map_absent(self.rows_seq(), id@);
                }
                None
            },
        }
    }

    /// Full-row replace keyed by id: the write path of authoritative
    /// sources. `first_seen` of an existing row is preserved; every other
    /// field comes from the record; `last_seen` advances to `now`. Returns
    /// true when a new row was created.
    pub fn upsert_replace(&mut self, rec: EventRecord, now: i64) -> (created: bool)
        requires
            old(self).wf(),
            rec.wf(),
        ensures
            final(self).wf(),
            final(self).view() == upsert_replace_model(old(self).view(), rec, now),
            created <==> !old(self).view().contains_key(rec.id@),
            final(self).rows_seq().len() == old(self).rows_seq().len() + if created {
                1int
            } else {
                0int
            },
    {
        let ghost pre = self.rows@;
        match self.find(&rec.id) {
            Some(i) => {
                proof {
                    lemma_event_map_present(pre, i as int);
                }
                let first = self.rows[i].first_seen;
                let row = EventRow {
                    id: rec.id,
                    title: rec.title,
                    summary: rec.summary,
                    class: rec.class,
                    severity: rec.severity,
                    confidence: rec.confidence,
                    lat: rec.lat,
                    lon: rec.lon,
                    geo: rec.geo,
                    source_rank: rec.source_rank,
                    first_seen: first,
                    last_seen: now,
                };
                proof {
                    lemma_event_map_update(pre, i as int, row);
                }
                self.rows.set(i, row);
                false
            },
            None => {
                proof {
                    lemma_event_map_absent(pre, rec.id@);
                }
                let row = EventRow {
                    id: rec.id,
                    title: rec.title,
                    summary: rec.summary,
                    class: rec.class,
                    severity: rec.severity,
                    confidence: rec.confidence,
                    lat: rec.lat,
                    lon: rec.lon,
                    geo: rec.geo,
                    source_rank: rec.source_rank,
                    first_seen: now,
                    last_seen: now,
                };
                proof {
                    lemma_event_map_push(pre, row);
                }
                self.rows.push(row);
                true
            },
        }
    }

    /// Insert-if-absent keyed by id: the write path of lower-confidence
    /// aggregators. An existing row, whatever its source, is left exactly
    /// as it was. Returns true when a new row was created.
    pub fn upsert_ignore(&mut self, rec: EventRecord, now: i64) -> (created: bool)
        requires
            old(self).wf(),
            rec.wf(),
        ensures
            final(self).wf(),
            final(self).view() == upsert_ignore_model(old(self).view(), rec, now),
            created <==> !old(self).view().contains_key(rec.id@),
            final(self).rows_seq().len() == old(self).rows_seq().len() + if created {
                1int
            } else {
                0int
            },
    {
        let ghost pre = self.rows@;
        match self.find(&rec.id) {
            Some(i) => {
                proof {
                    lemma_event_map_present(pre, i as int);
                }
                false
            },
            None => {
                proof {
                    lemma_event_map_absent(pre, rec.id@);
                }
                let row = EventRow {
                    id: rec.id,
                    title: rec.title,
                    summary: rec.summary,
                    class: rec.class,
                    severity: rec.severity,
                    confidence: rec.confidence,
                    lat: rec.lat,
                    lon: rec.lon,
                    geo: rec.geo,
                    source_rank: rec.source_rank,
                    first_seen: now,
                    last_seen: now,
                };
                proof {
                    lemma_event_map_push(pre, row);
                }
                self.rows.push(row);
                true
            },
        }
    }

    /// Raises the severity of the given event to at least `sev`, never
    /// lowering it: the monotonic propagation step of enrichment. Returns
    /// true when the event exists.
    pub fn bump_severity(&mut self, id: &String, sev: u32) -> (found: bool)
        requires
            old(self).wf(),
            sev <= crate::units::UNIT_MAX,
        ensures
            final(self).wf(),
            found <==> old(self).view().contains_key(id@),
            !found ==> final(self).view() == old(self).view(),
            found ==> {
                let prior = old(self).view()[id@];
                let bumped = EventRow {
                    severity: if prior.severity >= sev {
                        prior.severity
                    } else {
                        sev
                    },
                    ..prior
                };
                final(self).view() == old(self).view().insert(id@, bumped)
            },
    {
        let ghost pre = self.rows@;
        match self.find(id) {
            Some(i) => {
                proof {
                    lemma_event_map_present(pre, i as int);
                }
                let prior = &self.rows[i];
                let new_sev = if prior.severity >= sev {
                    prior.severity
                } else {
                    sev
                };
                let row = EventRow {
                    id: prior.id.clone(),
                    title: prior.title.clone(),
                    summary: prior.summary.clone(),
                    class: prior.class.clone(),
                    severity: new_sev,
                    confidence: prior.confidence,
                    lat: prior.lat,
                    lon: prior.lon,
                    geo: match &prior.geo {
                        Some(g) => Some(g.clone()),
                        None => None,
                    },
                    source_rank: prior.source_rank,
                    first_seen: prior.first_seen,
                    last_seen: prior.last_seen,
                };
                proof {
                    lemma_event_map_update(pre, i as int, row);
                }
                self.rows.set(i, row);
                true
            },
            None => {
                proof {
                    lemma_event_map_absent(pre, id@);
                }
                false
            },
        }
    }
}

/// Ingesting the same record twice stores exactly one row: the second
/// replace-upsert adds no key, preserves `first_seen` from the first
/// ingestion, and advances `last_seen` to the later sighting.
pub proof fn law_idempotent_upsert(
    m0: Map<Seq<char>, EventRow>,
    rec: EventRecord,
    now1: i64,
    now2: i64,
)
    requires
        !m0.contains_key(rec.id@),
    ensures
        ({
            let m1 = upsert_replace_model(m0, rec, now1);
            let m2 = upsert_replace_model(m1, rec, now2);
            &&& m1.contains_key(rec.id@)
            &&& m2.dom() == m1.dom()
            &&& m1[rec.id@].first_seen == now1
            &&& m1[rec.id@].last_seen == now1
            &&& m2[rec.id@].first_seen == now1
            &&& m2[rec.id@].last_seen == now2
        }),
{
    let m1 = upsert_replace_model(m0, rec, now1);
    let m2 = upsert_replace_model(m1, rec, now2);
    assert(m2.dom() =~= m1.dom());
}

} // verus!
