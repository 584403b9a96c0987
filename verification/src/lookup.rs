//! The lookup accessor: a lazy, restartable, filtered scan over an
//! association table.  Each table row carries its tag as a stable
//! type-identity token; the accessor yields, in table order, exactly the rows
//! whose token equals the requested one.  A fresh cursor starts at the top of
//! the table and shares no position state with any other cursor.

use vstd::prelude::*;

use crate::registry::{Entry, EntryModel};

verus! {

pub open spec fn table_view(s: Seq<Entry>) -> Seq<EntryModel> {
    s.map_values(|e: Entry| e@)
}

/// The indices of the rows whose tag is the requested one, in table order.
pub open spec fn matching_indices(table: Seq<EntryModel>, tg: Seq<char>) -> Seq<int>
    decreases table,
{
    if table.len() == 0 {
        Seq::<int>::empty()
    } else {
        let r = matching_indices(table.drop_last(), tg);
        if table.last().tag == tg {
            r.push(table.len() - 1)
        } else {
            r
        }
    }
}

/// If no row in `[a, b)` matches, the matching indices of the first `b` rows
/// are those of the first `a` rows.
pub proof fn lemma_matching_skip(table: Seq<EntryModel>, tg: Seq<char>, a: int, b: int)
    requires
        0 <= a <= b <= table.len(),
        forall|k: int| a <= k < b ==> (#[trigger] table[k]).tag != tg,
    ensures
        matching_indices(table.take(b), tg) == matching_indices(table.take(a), tg),
    decreases b - a,
{
    if b > a {
        assert(table.take(b).drop_last() =~= table.take(b - 1));
        assert(table.take(b).last() == table[b - 1]);
        lemma_matching_skip(table, tg, a, b - 1);
    }
}

/// A restartable cursor over an association table.  Creating a new cursor
/// restarts the scan: cursors are independent and share no position state.
pub struct LookupCursor {
    pub pos: usize,
}

impl LookupCursor {
    /// A fresh cursor, positioned at the top of the table.
    pub fn new() -> (r: LookupCursor)
        ensures
            r.pos == 0,
    {
        LookupCursor { pos: 0 }
    }

    /// Advances to the next row whose tag matches and yields its index, or
    /// exhausts the table and yields nothing.  Rows are never skipped and
    /// never yielded twice: every matching row between the old position and
    /// the result is the result itself.
    pub fn next(&mut self, table: &Vec<Entry>, tag: &String) -> (r: Option<usize>)
        ensures
            match r {
                Some(j) => {
                    &&& old(self).pos as int <= j as int
                    &&& (j as int) < table@.len()
                    &&& table@[j as int]@.tag == tag@
                    &&& forall|k: int|
                        old(self).pos as int <= k < j as int ==> (#[trigger] table@[k])@.tag
                            != tag@
                    &&& final(self).pos == j as int + 1
                },
                None => {
                    &&& forall|k: int|
                        old(self).pos as int <= k < table@.len() ==> (#[trigger] table@[k])@.tag
                            != tag@
                    &&& final(self).pos == table@.len()
                },
            },
    {
        let mut j = self.pos;
        while j < table.len()
            invariant
                old(self).pos as int <= j as int,
                j as int <= table@.len() || old(self).pos as int > table@.len(),
                forall|k: int|
                    old(self).pos as int <= k < j as int && k < table@.len() ==> (
                    #[trigger] table@[k])@.tag != tag@,
            decreases table@.len() - j as int,
        {
            if table[j].tag == *tag {
                self.pos = j + 1;
                return Some(j);
            }
            j += 1;
        }
        self.pos = table.len();
        None
    }
}

/// Drains a fresh cursor over the whole table: the result is exactly the
/// sequence of matching row indices, in table order.  A tag present in no
/// row yields the empty sequence.
pub fn lookup_indices(table: &Vec<Entry>, tag: &String) -> (r: Vec<usize>)
    ensures
        r@.map_values(|u: usize| u as int) == matching_indices(table_view(table@), tag@),
{
    let ghost tv = table_view(table@);
    let mut cur = LookupCursor::new();
    let mut out: Vec<usize> = Vec::new();
    loop
        invariant_except_break
            tv == table_view(table@),
            tv.len() == table@.len(),
            cur.pos as int <= tv.len(),
            out@.map_values(|u: usize| u as int) == matching_indices(
                tv.take(cur.pos as int),
                tag@,
            ),
        ensures
            out@.map_values(|u: usize| u as int) == matching_indices(tv, tag@),
        decreases tv.len() - cur.pos as int,
    {
        let ghost oldpos = cur.pos as int;
        match cur.next(table, tag) {
            Some(j) => {
                out.push(j);
                proof {
                    lemma_matching_skip(tv, tag@, oldpos, j as int);
                    assert(tv.take(j as int + 1).drop_last() =~= tv.take(j as int));
                    assert(tv.take(j as int + 1).last() == tv[j as int]);
                    assert(out@.map_values(|u: usize| u as int) =~= matching_indices(
                        tv.take(j as int + 1),
                        tag@,
                    ));
                }
            },
            None => {
                proof {
                    lemma_matching_skip(tv, tag@, oldpos, tv.len() as int);
                    assert(tv.take(tv.len() as int) =~= tv);
                }
                break;
            },
        }
    }
    out
}

} // verus!
