//! How often each identifier has been launched, as read from the usage
//! table.

use crate::text::same_text;
use vstd::prelude::*;

verus! {

/// One row of the usage table: an identifier and the launches counted
/// for it.
#[derive(Debug, Clone)]
pub struct UsageRow {
    pub path: String,
    pub count: i32,
}

/// The counts that a sequence of rows gives: each identifier with the count
/// of the last row that names it.
pub open spec fn counts_of(rows: Seq<UsageRow>) -> Map<Seq<char>, i32>
    decreases rows.len(),
{
    if rows.len() == 0 {
        Map::empty()
    } else {
        counts_of(rows.drop_last()).insert(rows.last().path@, rows.last().count)
    }
}

/// The launches counted for `path`: none for an identifier without a row.
pub open spec fn count_in(counts: Map<Seq<char>, i32>, path: Seq<char>) -> i32 {
    if counts.contains_key(path) {
        counts[path]
    } else {
        0
    }
}

/// The launches counted for each identifier.
pub struct UsageMap {
    rows: Vec<UsageRow>,
}

impl View for UsageMap {
    type V = Map<Seq<char>, i32>;

    closed spec fn view(&self) -> Map<Seq<char>, i32> {
        counts_of(self.rows@)
    }
}

/// Rows before `upto` decide the count of an identifier that no later row
/// names.
proof fn lemma_later_rows_apart(rows: Seq<UsageRow>, path: Seq<char>, upto: int)
    requires
        0 <= upto <= rows.len(),
        forall|k: int| upto <= k < rows.len() ==> (#[trigger] rows[k]).path@ != path,
    ensures
        counts_of(rows).contains_key(path) == counts_of(rows.take(upto)).contains_key(path),
        counts_of(rows).contains_key(path) ==> counts_of(rows)[path] == counts_of(
            rows.take(upto),
        )[path],
    decreases rows.len() - upto,
{
    if upto < rows.len() {
        let shorter = rows.drop_last();
        assert(rows.last() == rows[rows.len() - 1]);
        assert forall|k: int| upto <= k < shorter.len() implies (#[trigger] shorter[k]).path@
            != path by {
            assert(shorter[k] == rows[k]);
        }
        lemma_later_rows_apart(shorter, path, upto);
        assert(shorter.take(upto) =~= rows.take(upto));
    } else {
        assert(rows.take(upto) =~= rows);
    }
}

impl UsageMap {
    /// No identifier has been launched.
    pub fn new() -> (usage: Self)
        ensures
            usage@ == Map::<Seq<char>, i32>::empty(),
    {
        UsageMap { rows: Vec::new() }
    }

    /// Sets the count of `path`, in place of an earlier one.
    pub fn insert(&mut self, path: String, count: i32)
        ensures
            final(self)@ == old(self)@.insert(path@, count),
    {
        self.rows.push(UsageRow { path, count });
        assert(self.rows@.drop_last() =~= old(self).rows@);
    }

    /// The count of `path`, if the table has a row for it.
    pub fn get(&self, path: &str) -> (count: Option<i32>)
        ensures
            count == if self@.contains_key(path@) {
                Some(self@[path@])
            } else {
                None
            },
    {
        let mut i: usize = self.rows.len();
        while i > 0
            invariant
                i <= self.rows@.len(),
                forall|k: int| i <= k < self.rows@.len() ==> (#[trigger] self.rows@[k]).path@ != path@,
            decreases i,
        {
            i -= 1;
            if same_text(self.rows[i].path.as_str(), path) {
                proof {
                    lemma_later_rows_apart(self.rows@, path@, i + 1);
                    assert(self.rows@.take(i + 1).drop_last() =~= self.rows@.take(i as int));
                    assert(self.rows@.take(i + 1).last() == self.rows@[i as int]);
                }
                return Some(self.rows[i].count);
            }
        }
        proof {
            lemma_later_rows_apart(self.rows@, path@, 0);
        }
        None
    }

    /// The launches counted for `path`: none if the table has no row for it.
    pub fn count_for(&self, path: &str) -> (count: i32)
        ensures
            count == count_in(self@, path@),
    {
        match self.get(path) {
            Some(count) => count,
            None => 0,
        }
    }
}

/// The counts that the rows of the usage table give.
pub fn usage_from_rows(rows: Vec<UsageRow>) -> (usage: UsageMap)
    ensures
        usage@ == counts_of(rows@),
{
    UsageMap { rows }
}

} // verus!
