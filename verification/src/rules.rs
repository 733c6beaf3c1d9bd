//! The rule compiler: validated declarative rule records replace the whole
//! compiled set, stamped with the compile time.
//!
//! Absence of a rule configuration is not an error: it compiles zero rules
//! and leaves the stored set untouched.

use vstd::prelude::*;
use crate::model::RuleRow;

verus! {

/// One declarative rule definition, as the configuration states it: the
/// condition tree is already serialized and stays opaque here.
pub struct RuleRecord {
    pub id: String,
    pub name: String,
    /// Rules are enabled unless the configuration says otherwise.
    pub enabled: Option<bool>,
    pub target: String,
    /// The serialized condition tree.
    pub where_json: String,
}

/// The compiled row a record becomes under the given compile time.
pub open spec fn rule_row_of(rec: RuleRecord, now: i64) -> RuleRow {
    RuleRow {
        id: rec.id,
        name: rec.name,
        enabled: match rec.enabled {
            Some(b) => b,
            None => true,
        },
        spec_json: rec.where_json,
        updated_at: now,
    }
}

/// The compiled set a record list stands for: one row per id, later
/// records winning.
pub open spec fn rule_map_of(recs: Seq<RuleRecord>, now: i64) -> Map<Seq<char>, RuleRow>
    decreases recs.len(),
{
    if recs.len() == 0 {
        Map::empty()
    } else {
        rule_map_of(recs.drop_last(), now).insert(
            recs.last().id@,
            rule_row_of(recs.last(), now),
        )
    }
}

/// No two rows share an id.
pub open spec fn unique_rule_ids(rows: Seq<RuleRow>) -> bool {
    forall|i: int, j: int|
        0 <= i < j < rows.len() ==> #[trigger] rows[i].id@ != #[trigger] rows[j].id@
}

/// The map a sequence of rule rows stands for.
pub open spec fn rule_map(rows: Seq<RuleRow>) -> Map<Seq<char>, RuleRow>
    decreases rows.len(),
{
    if rows.len() == 0 {
        Map::empty()
    } else {
        rule_map(rows.drop_last()).insert(rows.last().id@, rows.last())
    }
}

/// An id that no row carries is not in the map.
proof fn lemma_rule_map_absent(rows: Seq<RuleRow>, k: Seq<char>)
    requires
        forall|i: int| 0 <= i < rows.len() ==> #[trigger] rows[i].id@ != k,
    ensures
        !rule_map(rows).contains_key(k),
    decreases rows.len(),
{
    if rows.len() > 0 {
        lemma_rule_map_absent(rows.drop_last(), k);
    }
}

/// Appending a fresh row inserts it into the map.
proof fn lemma_rule_map_push(rows: Seq<RuleRow>, r: RuleRow)
    ensures
        rule_map(rows.push(r)) == rule_map(rows).insert(r.id@, r),
{
    assert(rows.push(r).drop_last() =~= rows);
    assert(rows.push(r).last() == r);
}

/// Replacing a row in place, under the same id, updates the map entry.
proof fn lemma_rule_map_update(rows: Seq<RuleRow>, i: int, r: RuleRow)
    requires
        unique_rule_ids(rows),
        0 <= i < rows.len(),
        r.id@ == rows[i].id@,
    ensures
        rule_map(rows.update(i, r)) =~= rule_map(rows).insert(r.id@, r),
    decreases rows.len(),
{
    let upd = rows.update(i, r);
    if i == rows.len() - 1 {
        assert(upd.drop_last() =~= rows.drop_last());
        assert(upd.last() == r);
    } else {
        let last = rows.last();
        assert(upd.drop_last() =~= rows.drop_last().update(i, r));
        assert(upd.last() == last);
        assert(rows.drop_last()[i] == rows[i]);
        lemma_rule_map_update(rows.drop_last(), i, r);
        assert(last.id@ != r.id@);
        assert(rule_map(rows.drop_last()).insert(r.id@, r).insert(last.id@, last)
            =~= rule_map(rows.drop_last()).insert(last.id@, last).insert(r.id@, r));
    }
}

/// The compiled rule set: one row per rule id.
pub struct RuleTable {
    rows: Vec<RuleRow>,
}

impl RuleTable {
    /// The stored rows, in insertion order.
    pub closed spec fn rows_seq(self) -> Seq<RuleRow> {
        self.rows@
    }

    /// The table as a map from rule id to compiled row.
    pub open spec fn view(self) -> Map<Seq<char>, RuleRow> {
        rule_map(self.rows_seq())
    }

    /// Ids are unique.
    pub open spec fn wf(self) -> bool {
        unique_rule_ids(self.rows_seq())
    }

    /// Creates an empty table.
    pub fn new() -> (r: RuleTable)
        ensures
            r.wf(),
            r.view() == Map::<Seq<char>, RuleRow>::empty(),
    {
        RuleTable { rows: Vec::new() }
    }

    /// Number of compiled rules.
    pub fn len(&self) -> (r: usize)
        ensures
            r == self.rows_seq().len(),
    {
        self.rows.len()
    }

    /// Index of the row with the given id, if any.
    fn find(&self, id: &String) -> (r: Option<usize>)
        ensures
            match r {
                Some(i) => i < self.rows_seq().len() && self.rows_seq()[i as int].id@ == id@,
                None => forall|i: int|
                    0 <= i < self.rows_seq().len() ==> (#[trigger] self.rows_seq()[i]).id@ != id@,
            },
    {
        let mut i: usize = 0;
        while i < self.rows.len()
            invariant
                0 <= i <= self.rows.len(),
                forall|k: int| 0 <= k < i ==> (#[trigger] self.rows@[k]).id@ != id@,
            decreases self.rows.len() - i,
        {
            if self.rows[i].id == *id {
                return Some(i);
            }
            i += 1;
        }
        None
    }

    /// The compiled row stored for the given id, if any.
    pub fn get(&self, id: &String) -> (r: Option<&RuleRow>)
        requires
            self.wf(),
        ensures
            match r {
                Some(row) => self.view().contains_key(id@) && *row == self.view()[id@],
                None => !self.view().contains_key(id@),
            },
    {
        match self.find(id) {
            Some(i) => {
                proof {
                    lemma_rule_map_present(self.rows_seq(), i as int);
                }
                Some(&self.rows[i])
            },
            None => {
                proof {
                    lemma_rule_map_absent(self.rows_seq(), id@);
                }
                None
            },
        }
    }
}

/// Every row is in the map under its id, when ids are unique.
proof fn lemma_rule_map_present(rows: Seq<RuleRow>, i: int)
    requires
        unique_rule_ids(rows),
        0 <= i < rows.len(),
    ensures
        rule_map(rows).contains_key(rows[i].id@),
        rule_map(rows)[rows[i].id@] == rows[i],
    decreases rows.len(),
{
    if i == rows.len() - 1 {
    } else {
        assert(rows.drop_last()[i] == rows[i]);
        lemma_rule_map_present(rows.drop_last(), i);
    }
}

/// Unfolds `rule_map_of` one step at a prefix boundary.
proof fn lemma_rule_map_of_take(recs: Seq<RuleRecord>, now: i64, n: int)
    requires
        0 < n <= recs.len(),
    ensures
        rule_map_of(recs.take(n), now) == rule_map_of(recs.take(n - 1), now).insert(
            recs[n - 1].id@,
            rule_row_of(recs[n - 1], now),
        ),
{
    assert(recs.take(n).drop_last() =~= recs.take(n - 1));
    assert(recs.take(n).last() == recs[n - 1]);
}

/// Compiles a loaded rule configuration: validated records replace the
/// entire stored set, each stamped with the compile time, rules enabled
/// unless stated otherwise, later records winning on a repeated id. An
/// absent configuration (`None`) is a no-op that compiles zero rules.
/// Returns the number of records compiled.
pub fn load_and_compile(table: &mut RuleTable, records: Option<Vec<RuleRecord>>, now: i64) -> (n:
    usize)
    requires
        old(table).wf(),
    ensures
        final(table).wf(),
        match records {
            Some(recs) => final(table).view() == rule_map_of(recs@, now) && n == recs@.len(),
            None => final(table).view() == old(table).view() && n == 0,
        },
{
    let recs = match records {
        Some(r) => r,
        None => {
            return 0;
        },
    };
    let ghost rseq = recs@;
    let mut remaining = recs;
    table.rows.clear();
    let n = remaining.len();
    let ghost i: int = 0;
    proof {
        assert(rseq.take(0) =~= Seq::<RuleRecord>::empty());
        assert(remaining@ =~= rseq.skip(0));
    }
    while remaining.len() > 0
        invariant
            table.wf(),
            0 <= i <= rseq.len(),
            rseq.len() == n,
            remaining@ == rseq.skip(i),
            table.view() == rule_map_of(rseq.take(i), now),
        decreases remaining.len(),
    {
        let rec = remaining.remove(0);
        proof {
            assert(rseq.skip(i)[0] == rseq[i]);
            assert(remaining@ =~= rseq.skip(i + 1));
            lemma_rule_map_of_take(rseq, now, i + 1);
        }
        let row = RuleRow {
            id: rec.id,
            name: rec.name,
            enabled: match rec.enabled {
                Some(b) => b,
                None => true,
            },
            spec_json: rec.where_json,
            updated_at: now,
        };
        let ghost pre = table.rows_seq();
        match table.find(&row.id) {
            Some(j) => {
                proof {
                    lemma_rule_map_update(pre, j as int, row);
                }
                table.rows.set(j, row);
            },
            None => {
                proof {
                    lemma_rule_map_push(pre, row);
                }
                table.rows.push(row);
            },
        }
        proof {
            i = i + 1;
        }
    }
    proof {
        assert(rseq.take(rseq.len() as int) =~= rseq);
    }
    n
}

} // verus!