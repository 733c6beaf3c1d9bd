//! The alert side of the store: full-row upserts keyed by id, a spatial
//! index kept in lockstep with the rows, and the bounding-box range query.
//!
//! Every write touches the row and its index entry together, so a query
//! against the index only ever addresses alert rows that exist; that
//! lockstep is part of the table's well-formedness and every method
//! preserves it.

use vstd::prelude::*;
use crate::geo::BBox;
use crate::model::{severity_rank, AlertRow};

verus! {

/// Most rows a range query returns, to cap response size.
pub const QUERY_LIMIT: usize = 500;

/// No two rows share an id.
pub open spec fn unique_alert_ids(rows: Seq<AlertRow>) -> bool {
    forall|i: int, j: int|
        0 <= i < j < rows.len() ==> #[trigger] rows[i].id@ != #[trigger] rows[j].id@
}

/// The map a sequence of rows stands for: each id to its row.
pub open spec fn alert_map(rows: Seq<AlertRow>) -> Map<Seq<char>, AlertRow>
    decreases rows.len(),
{
    if rows.len() == 0 {
        Map::empty()
    } else {
        alert_map(rows.drop_last()).insert(rows.last().id@, rows.last())
    }
}

/// An id that no row carries is not in the map.
pub proof fn lemma_alert_map_absent(rows: Seq<AlertRow>, k: Seq<char>)
    requires
        forall|i: int| 0 <= i < rows.len() ==> #[trigger] rows[i].id@ != k,
    ensures
        !alert_map(rows).contains_key(k),
    decreases rows.len(),
{
    if rows.len() > 0 {
        lemma_alert_map_absent(rows.drop_last(), k);
    }
}

/// Every row is in the map under its id, when ids are unique.
pub proof fn lemma_alert_map_present(rows: Seq<AlertRow>, i: int)
    requires
        unique_alert_ids(rows),
        0 <= i < rows.len(),
    ensures
        alert_map(rows).contains_key(rows[i].id@),
        alert_map(rows)[rows[i].id@] == rows[i],
    decreases rows.len(),
{
    if i == rows.len() - 1 {
    } else {
        assert(rows.drop_last()[i] == rows[i]);
        lemma_alert_map_present(rows.drop_last(), i);
    }
}

/// Appending a fresh row inserts it into the map.
pub proof fn lemma_alert_map_push(rows: Seq<AlertRow>, r: AlertRow)
    ensures
        alert_map(rows.push(r)) == alert_map(rows).insert(r.id@, r),
{
    assert(rows.push(r).drop_last() =~= rows);
    assert(rows.push(r).last() == r);
}

/// Replacing a row in place, under the same id, updates the map entry.
pub proof fn lemma_alert_map_update(rows: Seq<AlertRow>, i: int, r: AlertRow)
    requires
        unique_alert_ids(rows),
        0 <= i < rows.len(),
        r.id@ == rows[i].id@,
    ensures
        alert_map(rows.update(i, r)) =~= alert_map(rows).insert(r.id@, r),
    decreases rows.len(),
{
    let upd = rows.update(i, r);
    if i == rows.len() - 1 {
        assert(upd.drop_last() =~= rows.drop_last());
        assert(upd.last() == r);
    } else {
        let last = rows.last();
        assert(upd.drop_last() =~= rows.drop_last().update(i, r));
        assert(upd.last() == last);
        assert(rows.drop_last()[i] == rows[i]);
        lemma_alert_map_update(rows.drop_last(), i, r);
        assert(last.id@ != r.id@);
        assert(alert_map(rows.drop_last()).insert(r.id@, r).insert(last.id@, last)
            =~= alert_map(rows.drop_last()).insert(last.id@, last).insert(r.id@, r));
    }
}

/// One spatial-index entry: the bounding box of the alert row it is keyed
/// to. Never written except together with that row.
pub struct IndexEntry {
    pub id: String,
    pub bbox: BBox,
}

/// The alert table: one row per alert id, and one index entry per row.
pub struct AlertTable {
    rows: Vec<AlertRow>,
    index: Vec<IndexEntry>,
}

/// A row answers a range query when its box overlaps the query box and it
/// has not expired before the given threshold.
pub open spec fn qualifies(a: AlertRow, q: BBox, min_expires: i64) -> bool {
    a.bbox.spec_overlaps(q) && a.expires >= min_expires
}

/// Number of rows that answer the query.
pub open spec fn count_qualifying(rows: Seq<AlertRow>, q: BBox, min_expires: i64) -> int
    decreases rows.len(),
{
    if rows.len() == 0 {
        0int
    } else {
        count_qualifying(rows.drop_last(), q, min_expires) + if qualifies(
            rows.last(),
            q,
            min_expires,
        ) {
            1int
        } else {
            0int
        }
    }
}

/// Unfolds `count_qualifying` one step at a prefix boundary.
proof fn lemma_count_take(rows: Seq<AlertRow>, q: BBox, min_expires: i64, n: int)
    requires
        0 < n <= rows.len(),
    ensures
        count_qualifying(rows.take(n), q, min_expires) == count_qualifying(
            rows.take(n - 1),
            q,
            min_expires,
        ) + if qualifies(rows[n - 1], q, min_expires) {
            1int
        } else {
            0int
        },
{
    assert(rows.take(n).drop_last() =~= rows.take(n - 1));
    assert(rows.take(n).last() == rows[n - 1]);
}

/// The count never exceeds the number of rows.
proof fn lemma_count_bound(rows: Seq<AlertRow>, q: BBox, min_expires: i64)
    ensures
        0 <= count_qualifying(rows, q, min_expires) <= rows.len(),
    decreases rows.len(),
{
    if rows.len() > 0 {
        lemma_count_bound(rows.drop_last(), q, min_expires);
    }
}

/// `a` may stand no later than `b` in a query result: higher categorical
/// severity first, later onset first among equals.
pub open spec fn ordered_pair(a: AlertRow, b: AlertRow) -> bool {
    severity_rank(a.severity@) > severity_rank(b.severity@) || (severity_rank(a.severity@)
        == severity_rank(b.severity@) && a.onset >= b.onset)
}

/// Descending severity, then descending onset.
pub open spec fn sorted_desc(s: Seq<AlertRow>) -> bool {
    forall|i: int, j: int| 0 <= i < j < s.len() ==> ordered_pair(#[trigger] s[i], #[trigger] s[j])
}

impl AlertTable {
    /// The stored rows, in insertion order.
    pub closed spec fn rows_seq(self) -> Seq<AlertRow> {
        self.rows@
    }

    /// The spatial-index entries, in the same order as the rows.
    pub closed spec fn index_seq(self) -> Seq<IndexEntry> {
        self.index@
    }

    /// The table as a map from id to row.
    pub open spec fn view(self) -> Map<Seq<char>, AlertRow> {
        alert_map(self.rows_seq())
    }

    /// Ids are unique, rows are well-formed, and the index mirrors the
    /// rows exactly: same length, same ids, same boxes.
    pub open spec fn wf(self) -> bool {
        &&& unique_alert_ids(self.rows_seq())
        &&& forall|i: int| 0 <= i < self.rows_seq().len() ==> (#[trigger] self.rows_seq()[i]).wf()
        &&& self.index_seq().len() == self.rows_seq().len()
        &&& forall|i: int|
            0 <= i < self.rows_seq().len() ==> (#[trigger] self.index_seq()[i]).id@
                == self.rows_seq()[i].id@ && self.index_seq()[i].bbox == self.rows_seq()[i].bbox
    }

    /// Creates an empty table.
    pub fn new() -> (r: AlertTable)
        ensures
            r.wf(),
            r.view() == Map::<Seq<char>, AlertRow>::empty(),
            r.rows_seq().len() == 0,
    {
        AlertTable { rows: Vec::new(), index: Vec::new() }
    }

    /// Number of stored rows.
    pub fn len(&self) -> (r: usize)
        ensures
            r == self.rows_seq().len(),
    {
        self.rows.len()
    }

    /// The row at the given position, in insertion order.
    pub fn row_at(&self, i: usize) -> (r: &AlertRow)
        requires
            i < self.rows_seq().len(),
        ensures
            *r == self.rows_seq()[i as int],
    {
        &self.rows[i]
    }

    /// Index of the row with the given id, if any.
    fn find(&self, id: &String) -> (r: Option<usize>)
        ensures
            match r {
                Some(i) => i < self.rows_seq().len() && self.rows_seq()[i as int].id@ == id@,
                None => forall|i: int|
                    0 <= i < self.rows_seq().len() ==> (#[trigger] self.rows_seq()[i]).id@ != id@,
            },
    {
        let mut i: usize = 0;
        while i < self.rows.len()
            invariant
                0 <= i <= self.rows.len(),
                forall|k: int| 0 <= k < i ==> (#[trigger] self.rows@[k]).id@ != id@,
            decreases self.rows.len() - i,
        {
            if self.rows[i].id == *id {
                return Some(i);
            }
            i += 1;
        }
        None
    }

    /// The row stored for the given id, if any.
    pub fn get(&self, id: &String) -> (r: Option<&AlertRow>)
        requires
            self.wf(),
        ensures
            match r {
                Some(row) => self.view().contains_key(id@) && *row == self.view()[id@],
                None => !self.view().contains_key(id@),
            },
    {
        match self.find(id) {
            Some(i) => {
                proof {
                    lemma_alert_map_present(self.rows_seq(), i as int);
                }
                Some(&self.rows[i])
            },
            None => {
                proof {
                    lemma_alert_map_absent(self.rows_seq(), id@);
                }
                None
            },
        }
    }

    /// Full-row replace keyed by id; the feed restates the complete alert
    /// each time. The row and its spatial-index entry are written together,
    /// so the index never diverges from the rows. Returns true when a new
    /// row was created.
    pub fn upsert_alert(&mut self, row: AlertRow) -> (created: bool)
        requires
            old(self).wf(),
            row.wf(),
        ensures
            final(self).wf(),
            final(self).view() == alert_map(old(self).rows_seq()).insert(row.id@, row),
            created <==> !old(self).view().contains_key(row.id@),
            final(self).rows_seq().len() == old(self).rows_seq().len() + if created {
                1int
            } else {
                0int
            },
    {
        let ghost pre = self.rows@;
        let entry = IndexEntry { id: row.id.clone(), bbox: row.bbox };
        match self.find(&row.id) {
            Some(i) => {
                proof {
                    lemma_alert_map_present(pre, i as int);
                    lemma_alert_map_update(pre, i as int, row);
                }
                self.rows.set(i, row);
                self.index.set(i, entry);
                false
            },
            None => {
                proof {
                    lemma_alert_map_absent(pre, row.id@);
                    lemma_alert_map_push(pre, row);
                }
                self.rows.push(row);
                self.index.push(entry);
                true
            },
        }
    }

    /// Range query: every stored alert whose box overlaps the query box and
    /// whose expiry is at or after the threshold, ordered by descending
    /// categorical severity then descending onset, capped at `QUERY_LIMIT`
    /// rows. When at most `QUERY_LIMIT` rows qualify, the result holds every
    /// one of them.
    #[verifier::rlimit(100)]
    pub fn query_alerts(&self, qbox: &BBox, min_expires: i64) -> (r: Vec<AlertRow>)
        requires
            self.wf(),
        ensures
            r@.len() <= QUERY_LIMIT,
            sorted_desc(r@),
            forall|j: int|
                0 <= j < r@.len() ==> qualifies(#[trigger] r@[j], *qbox, min_expires)
                    && self.view().contains_key(r@[j].id@) && self.view()[r@[j].id@] == r@[j],
            forall|j1: int, j2: int|
                0 <= j1 < j2 < r@.len() ==> #[trigger] r@[j1].id@ != #[trigger] r@[j2].id@,
            count_qualifying(self.rows_seq(), *qbox, min_expires) <= QUERY_LIMIT ==> r@.len()
                == count_qualifying(self.rows_seq(), *qbox, min_expires) && (forall|k: int|
                0 <= k < self.rows_seq().len() && qualifies(
                    #[trigger] self.rows_seq()[k],
                    *qbox,
                    min_expires,
                ) ==> exists|j: int| 0 <= j < r@.len() && #[trigger] r@[j] == self.rows_seq()[k]),
            count_qualifying(self.rows_seq(), *qbox, min_expires) > QUERY_LIMIT ==> r@.len()
                == QUERY_LIMIT,
    {
        let ghost rows = self.rows@;
        let ghost q = *qbox;
        let mut out: Vec<AlertRow> = Vec::new();
        let mut i: usize = 0;
        proof {
            lemma_query_init(rows, q, min_expires);
        }
        while i < self.rows.len()
            invariant
                self.wf(),
                rows == self.rows@,
                q == *qbox,
                0 <= i <= rows.len(),
                sorted_desc(out@),
                out@.len() == count_qualifying(rows.take(i as int), q, min_expires),
                from_qualifying(out@, rows, i as int, q, min_expires),
                covers_qualifying(out@, rows, i as int, q, min_expires),
                distinct_ids(out@),
            decreases self.rows.len() - i,
        {
            // The index drives the spatial test; the row itself supplies
            // the expiry. Well-formedness keeps the two in lockstep.
            let overlap = self.index[i].bbox.overlaps(qbox);
            proof {
                lemma_count_take(rows, q, min_expires, i + 1);
                assert(self.index_seq()[i as int].bbox == rows[i as int].bbox);
            }
            if overlap && self.rows[i].expires >= min_expires {
                let x = self.rows[i].duplicate();
                let ghost old_out = out@;
                // Find the insertion point that keeps the result ordered.
                let mut pos: usize = 0;
                while pos < out.len() && severity_rank_gte(&out[pos], &x)
                    invariant
                        0 <= pos <= out@.len(),
                        out@ == old_out,
                        forall|k: int| 0 <= k < pos ==> ordered_pair(#[trigger] out@[k], x),
                    decreases out@.len() - pos,
                {
                    pos += 1;
                }
                proof {
                    lemma_sorted_insert(old_out, pos as int, x);
                }
                out.insert(pos, x);
                proof {
                    lemma_step_members(old_out, out@, pos as int, x, rows, i as int, q, min_expires);
                    lemma_step_complete(old_out, out@, pos as int, x, rows, i as int, q, min_expires);
                    lemma_step_distinct(old_out, out@, pos as int, x, rows, i as int, q, min_expires);
                }
            } else {
                proof {
                    lemma_query_skip_step(out@, rows, i as int, q, min_expires);
                }
            }
            i += 1;
        }
        proof {
            assert(rows.take(rows.len() as int) =~= rows);
            lemma_count_bound(rows, q, min_expires);
        }
        let ghost full = out@;
        // Bound the response size.
        if out.len() > QUERY_LIMIT {
            out.truncate(QUERY_LIMIT);
            proof {
                assert(out@ =~= full.subrange(0, QUERY_LIMIT as int));
                lemma_query_truncate(full, out@, rows, q, min_expires);
            }
        }
        proof {
            lemma_query_post(out@, rows, q, min_expires);
            if count_qualifying(rows, q, min_expires) <= QUERY_LIMIT {
                lemma_query_covers_post(out@, rows, q, min_expires);
            }
        }
        out
    }
}

/// `x` equals one of the first `n` rows, and that row qualifies.
spec fn member_upto(x: AlertRow, rows: Seq<AlertRow>, n: int, q: BBox, t: i64) -> bool {
    exists|k: int| 0 <= k < n && #[trigger] rows[k] == x && qualifies(rows[k], q, t)
}

/// `x` appears somewhere in `out`.
spec fn covered_in(x: AlertRow, out: Seq<AlertRow>) -> bool {
    exists|j: int| 0 <= j < out.len() && #[trigger] out[j] == x
}

/// Every accumulator element equals a qualifying row among the first `n`.
#[verifier::opaque]
spec fn from_qualifying(out: Seq<AlertRow>, rows: Seq<AlertRow>, n: int, q: BBox, t: i64) -> bool {
    forall|j: int| 0 <= j < out.len() ==> member_upto(#[trigger] out[j], rows, n, q, t)
}

/// Every qualifying row among the first `n` appears in the accumulator.
#[verifier::opaque]
spec fn covers_qualifying(out: Seq<AlertRow>, rows: Seq<AlertRow>, n: int, q: BBox, t: i64) -> bool {
    forall|k: int|
        0 <= k < n && qualifies(#[trigger] rows[k], q, t) ==> covered_in(rows[k], out)
}

/// No two accumulator elements share an id.
#[verifier::opaque]
spec fn distinct_ids(out: Seq<AlertRow>) -> bool {
    forall|j1: int, j2: int|
        0 <= j1 < j2 < out.len() ==> #[trigger] out[j1].id@ != #[trigger] out[j2].id@
}

/// The empty accumulator satisfies every query invariant.
proof fn lemma_query_init(rows: Seq<AlertRow>, q: BBox, t: i64)
    ensures
        from_qualifying(Seq::<AlertRow>::empty(), rows, 0, q, t),
        covers_qualifying(Seq::<AlertRow>::empty(), rows, 0, q, t),
        distinct_ids(Seq::<AlertRow>::empty()),
{
    reveal(from_qualifying);
    reveal(covers_qualifying);
    reveal(distinct_ids);
}

/// A row that does not qualify extends the window without changing the
/// accumulator.
proof fn lemma_query_skip_step(out: Seq<AlertRow>, rows: Seq<AlertRow>, i: int, q: BBox, t: i64)
    requires
        0 <= i < rows.len(),
        !qualifies(rows[i], q, t),
        from_qualifying(out, rows, i, q, t),
        covers_qualifying(out, rows, i, q, t),
    ensures
        from_qualifying(out, rows, i + 1, q, t),
        covers_qualifying(out, rows, i + 1, q, t),
{
    reveal(from_qualifying);
    reveal(covers_qualifying);
    assert forall|j: int| 0 <= j < out.len() implies member_upto(
        #[trigger] out[j],
        rows,
        i + 1,
        q,
        t,
    ) by {
        assert(member_upto(out[j], rows, i, q, t));
        let k = choose|k: int| 0 <= k < i && #[trigger] rows[k] == out[j] && qualifies(rows[k], q, t);
        assert(0 <= k < i + 1 && rows[k] == out[j] && qualifies(rows[k], q, t));
    }
}

/// Inserting the qualifying row `rows[i]` keeps the membership invariant.
proof fn lemma_step_members(
    old_out: Seq<AlertRow>,
    new_out: Seq<AlertRow>,
    pos: int,
    x: AlertRow,
    rows: Seq<AlertRow>,
    i: int,
    q: BBox,
    t: i64,
)
    requires
        0 <= pos <= old_out.len(),
        new_out == old_out.insert(pos, x),
        0 <= i < rows.len(),
        x == rows[i],
        qualifies(rows[i], q, t),
        from_qualifying(old_out, rows, i, q, t),
    ensures
        from_qualifying(new_out, rows, i + 1, q, t),
{
    reveal(from_qualifying);
    old_out.insert_ensures(pos, x);
    assert forall|j: int| 0 <= j < new_out.len() implies member_upto(
        #[trigger] new_out[j],
        rows,
        i + 1,
        q,
        t,
    ) by {
        if j == pos {
            assert(rows[i] == new_out[j] && qualifies(rows[i], q, t));
        } else {
            let j0 = if j < pos { j } else { j - 1 };
            assert(new_out[j] == old_out[j0]);
            assert(member_upto(old_out[j0], rows, i, q, t));
            let k = choose|k: int|
                0 <= k < i && #[trigger] rows[k] == old_out[j0] && qualifies(rows[k], q, t);
            assert(0 <= k < i + 1 && rows[k] == new_out[j] && qualifies(rows[k], q, t));
        }
    }
}

/// Inserting the qualifying row `rows[i]` keeps the covering invariant.
proof fn lemma_step_complete(
    old_out: Seq<AlertRow>,
    new_out: Seq<AlertRow>,
    pos: int,
    x: AlertRow,
    rows: Seq<AlertRow>,
    i: int,
    q: BBox,
    t: i64,
)
    requires
        0 <= pos <= old_out.len(),
        new_out == old_out.insert(pos, x),
        0 <= i < rows.len(),
        x == rows[i],
        qualifies(rows[i], q, t),
        covers_qualifying(old_out, rows, i, q, t),
    ensures
        covers_qualifying(new_out, rows, i + 1, q, t),
{
    reveal(covers_qualifying);
    old_out.insert_ensures(pos, x);
    assert forall|k: int|
        0 <= k < i + 1 && qualifies(#[trigger] rows[k], q, t) implies covered_in(
        rows[k],
        new_out,
    ) by {
        if k == i {
            assert(new_out[pos] == rows[k]);
        } else {
            assert(covered_in(rows[k], old_out));
            let j0 = choose|j: int| 0 <= j < old_out.len() && #[trigger] old_out[j] == rows[k];
            if j0 < pos {
                assert(new_out[j0] == rows[k]);
            } else {
                assert(new_out[j0 + 1] == rows[k]);
            }
        }
    }
}

/// Inserting the qualifying row `rows[i]` keeps ids pairwise distinct.
proof fn lemma_step_distinct(
    old_out: Seq<AlertRow>,
    new_out: Seq<AlertRow>,
    pos: int,
    x: AlertRow,
    rows: Seq<AlertRow>,
    i: int,
    q: BBox,
    t: i64,
)
    requires
        0 <= pos <= old_out.len(),
        new_out == old_out.insert(pos, x),
        0 <= i < rows.len(),
        x == rows[i],
        unique_alert_ids(rows),
        from_qualifying(old_out, rows, i, q, t),
        distinct_ids(old_out),
    ensures
        distinct_ids(new_out),
{
    reveal(from_qualifying);
    reveal(distinct_ids);
    old_out.insert_ensures(pos, x);
    // A fresh row's id differs from every id already in the accumulator.
    assert forall|j: int| 0 <= j < old_out.len() implies old_out[j].id@ != x.id@ by {
        assert(member_upto(old_out[j], rows, i, q, t));
        let k = choose|k: int| 0 <= k < i && #[trigger] rows[k] == old_out[j] && qualifies(rows[k], q, t);
        assert(rows[k].id@ != rows[i].id@);
    }
    assert forall|j1: int, j2: int| 0 <= j1 < j2 < new_out.len() implies #[trigger] new_out[j1].id@
        != #[trigger] new_out[j2].id@ by {
        if j1 == pos {
            assert(new_out[j2] == old_out[j2 - 1]);
        } else if j2 == pos {
            assert(new_out[j1] == old_out[j1]);
        } else {
            let o1 = if j1 < pos { j1 } else { j1 - 1 };
            let o2 = if j2 < pos { j2 } else { j2 - 1 };
            assert(new_out[j1] == old_out[o1] && new_out[j2] == old_out[o2]);
        }
    }
}

/// Truncating the accumulator keeps membership and distinctness.
proof fn lemma_query_truncate(
    full: Seq<AlertRow>,
    cut: Seq<AlertRow>,
    rows: Seq<AlertRow>,
    q: BBox,
    t: i64,
)
    requires
        cut.len() <= full.len(),
        forall|j: int| 0 <= j < cut.len() ==> #[trigger] cut[j] == full[j],
        sorted_desc(full),
        from_qualifying(full, rows, rows.len() as int, q, t),
        distinct_ids(full),
    ensures
        sorted_desc(cut),
        from_qualifying(cut, rows, rows.len() as int, q, t),
        distinct_ids(cut),
{
    reveal(from_qualifying);
    reveal(distinct_ids);
    assert forall|j: int| 0 <= j < cut.len() implies member_upto(
        #[trigger] cut[j],
        rows,
        rows.len() as int,
        q,
        t,
    ) by {
        assert(member_upto(full[j], rows, rows.len() as int, q, t));
    }
}

/// At the end of the scan, the membership invariant yields the per-element
/// clauses of the query contract.
proof fn lemma_query_post(out: Seq<AlertRow>, rows: Seq<AlertRow>, q: BBox, t: i64)
    requires
        unique_alert_ids(rows),
        from_qualifying(out, rows, rows.len() as int, q, t),
        distinct_ids(out),
    ensures
        forall|j: int|
            0 <= j < out.len() ==> qualifies(#[trigger] out[j], q, t) && alert_map(
                rows,
            ).contains_key(out[j].id@) && alert_map(rows)[out[j].id@] == out[j],
        forall|j1: int, j2: int|
            0 <= j1 < j2 < out.len() ==> #[trigger] out[j1].id@ != #[trigger] out[j2].id@,
{
    reveal(from_qualifying);
    reveal(distinct_ids);
    assert forall|j: int| 0 <= j < out.len() implies qualifies(#[trigger] out[j], q, t)
        && alert_map(rows).contains_key(out[j].id@) && alert_map(rows)[out[j].id@] == out[j] by {
        assert(member_upto(out[j], rows, rows.len() as int, q, t));
        let k = choose|k: int|
            0 <= k < rows.len() && #[trigger] rows[k] == out[j] && qualifies(rows[k], q, t);
        lemma_alert_map_present(rows, k);
    }
}

/// At the end of the scan, the covering invariant yields the completeness
/// clause of the query contract.
proof fn lemma_query_covers_post(out: Seq<AlertRow>, rows: Seq<AlertRow>, q: BBox, t: i64)
    requires
        covers_qualifying(out, rows, rows.len() as int, q, t),
    ensures
        forall|k: int|
            0 <= k < rows.len() && qualifies(#[trigger] rows[k], q, t) ==> exists|j: int|
                0 <= j < out.len() && #[trigger] out[j] == rows[k],
{
    reveal(covers_qualifying);
    assert forall|k: int|
        0 <= k < rows.len() && qualifies(#[trigger] rows[k], q, t) implies exists|j: int|
        0 <= j < out.len() && #[trigger] out[j] == rows[k] by {
        assert(covered_in(rows[k], out));
    }
}

/// Inserting at a position that respects the order keeps the result sorted.
proof fn lemma_sorted_insert(s: Seq<AlertRow>, pos: int, x: AlertRow)
    requires
        sorted_desc(s),
        0 <= pos <= s.len(),
        forall|k: int| 0 <= k < pos ==> ordered_pair(#[trigger] s[k], x),
        pos < s.len() ==> !ordered_pair(s[pos], x),
    ensures
        sorted_desc(s.insert(pos, x)),
{
    s.insert_ensures(pos, x);
    let t = s.insert(pos, x);
    assert forall|j1: int, j2: int| 0 <= j1 < j2 < t.len() implies ordered_pair(
        #[trigger] t[j1],
        #[trigger] t[j2],
    ) by {
        if j1 == pos && j2 > pos {
            assert(t[j2] == s[j2 - 1]);
            if pos < j2 - 1 {
                assert(ordered_pair(s[pos], s[j2 - 1]));
            }
        } else if j1 < pos && j2 > pos {
            assert(t[j1] == s[j1] && t[j2] == s[j2 - 1]);
        } else if j1 > pos {
            assert(t[j1] == s[j1 - 1] && t[j2] == s[j2 - 1]);
        }
    }
}

/// True when `a` may stand no later than `b` in a query result.
fn severity_rank_gte(a: &AlertRow, b: &AlertRow) -> (r: bool)
    ensures
        r == ordered_pair(*a, *b),
{
    let ra = crate::model::severity_rank_of(&a.severity);
    let rb = crate::model::severity_rank_of(&b.severity);
    ra > rb || (ra == rb && a.onset >= b.onset)
}

} // verus!
