//! The todont entity and the verified store that holds its rows.

use vstd::prelude::*;

verus! {

/// A stored row: a server-assigned id, a description and a completion flag.
#[derive(Debug)]
pub struct Todont {
    pub id: i64,
    pub description: String,
    pub done: bool,
}

impl Clone for Todont {
    fn clone(&self) -> (r: Self)
        ensures
            r == *self,
    {
        Todont { id: self.id, description: self.description.clone(), done: self.done }
    }
}

/// What a caller submits when creating or updating a row: everything of a
/// [`Todont`] except the id, which the store assigns.
#[derive(Debug)]
pub struct InputTodont {
    pub description: String,
    pub done: bool,
}

impl Clone for InputTodont {
    fn clone(&self) -> (r: Self)
        ensures
            r == *self,
    {
        InputTodont { description: self.description.clone(), done: self.done }
    }
}

/// The row that a create or update request with input `input` stores under id
/// `id`.
pub open spec fn row_from(id: i64, input: InputTodont) -> Todont {
    Todont { id, description: input.description, done: input.done }
}

/// Whether some row of `rows` carries the id `id`.
pub open spec fn has_id(rows: Seq<Todont>, id: i64) -> bool {
    exists|i: int| 0 <= i < rows.len() && rows[i].id == id
}

/// Whether no two rows of `rows` share an id.
pub open spec fn unique_ids(rows: Seq<Todont>) -> bool {
    forall|i: int, j: int| 0 <= i < j < rows.len() ==> rows[i].id != rows[j].id
}

/// The first row of `rows` carrying the id `id`, if any: what a get-by-id
/// returns.
pub open spec fn lookup(rows: Seq<Todont>, id: i64) -> Option<Todont>
    decreases rows.len(),
{
    if rows.len() == 0 {
        None
    } else if rows[0].id == id {
        Some(rows[0])
    } else {
        lookup(rows.drop_first(), id)
    }
}

/// The table after inserting the row for `input` under the fresh id `id`: the
/// new row goes at the end.
pub open spec fn created(rows: Seq<Todont>, id: i64, input: InputTodont) -> Seq<Todont> {
    rows.push(row_from(id, input))
}

/// The table after a full-replace update with `t`: every row whose id is
/// `t.id` becomes `t`, every other row stays; a table without that id stays
/// whole.
pub open spec fn updated(rows: Seq<Todont>, t: Todont) -> Seq<Todont> {
    Seq::new(rows.len(), |i: int| if rows[i].id == t.id { t } else { rows[i] })
}

/// The table after deleting the id `id`: the rows carrying it are gone, the
/// rest keep their order; a table without that id stays whole.
pub open spec fn deleted(rows: Seq<Todont>, id: i64) -> Seq<Todont>
    decreases rows.len(),
{
    if rows.len() == 0 {
        rows
    } else if rows.last().id == id {
        deleted(rows.drop_last(), id)
    } else {
        deleted(rows.drop_last(), id).push(rows.last())
    }
}

/// The largest id a table carries, or 0 for an empty table.
pub open spec fn max_id(rows: Seq<Todont>) -> int
    decreases rows.len(),
{
    if rows.len() == 0 {
        0
    } else if rows.last().id >= max_id(rows.drop_last()) {
        rows.last().id as int
    } else {
        max_id(rows.drop_last())
    }
}

/// Whether a sequence of rows can stand as a table: ids unique, at least 1,
/// and small enough that one more id can still be assigned.
pub open spec fn valid_rows(rows: Seq<Todont>) -> bool {
    &&& unique_ids(rows)
    &&& forall|i: int| 0 <= i < rows.len() ==> 1 <= #[trigger] rows[i].id
    &&& max_id(rows) < i64::MAX
}

/// No id in a table exceeds the table's `max_id`.
pub proof fn lemma_max_id_ge(rows: Seq<Todont>, k: int)
    requires
        0 <= k < rows.len(),
    ensures
        rows[k].id <= max_id(rows),
    decreases rows.len(),
{
    if k < rows.len() - 1 {
        lemma_max_id_ge(rows.drop_last(), k);
        assert(rows.drop_last()[k] == rows[k]);
    }
}

/// Scanning past a prefix in which no row carries `id` does not change what
/// `lookup` finds.
proof fn lemma_lookup_skip(rows: Seq<Todont>, id: i64, i: int)
    requires
        0 <= i <= rows.len(),
        forall|j: int| 0 <= j < i ==> rows[j].id != id,
    ensures
        lookup(rows, id) == lookup(rows.skip(i), id),
    decreases i,
{
    if i > 0 {
        assert(rows[0].id != id);
        assert(forall|j: int| 0 <= j < i - 1 ==> rows.drop_first()[j].id != id) by {
            assert(forall|j: int| 0 <= j < i - 1 ==> rows.drop_first()[j] == rows[j + 1]);
        }
        lemma_lookup_skip(rows.drop_first(), id, i - 1);
        assert(rows.drop_first().skip(i - 1) =~= rows.skip(i));
    } else {
        assert(rows.skip(0) =~= rows);
    }
}

/// The table of todonts: rows in insertion order, plus the id that the next
/// insert will assign. Ids are unique, at least 1, and always below the next
/// id, so an assigned id is never reused.
pub struct TodontStore {
    rows: Vec<Todont>,
    next_id: i64,
}

impl View for TodontStore {
    type V = Seq<Todont>;

    closed spec fn view(&self) -> Seq<Todont> {
        self.rows@
    }
}

impl TodontStore {
    /// The id the next successful create will assign.
    pub closed spec fn spec_next_id(self) -> i64 {
        self.next_id
    }

    /// The store's invariant: ids are unique and every id lies in
    /// `1 ..= next id - 1`.
    pub open spec fn wf(self) -> bool {
        &&& unique_ids(self@)
        &&& 1 <= self.spec_next_id()
        &&& forall|i: int| 0 <= i < self@.len() ==> 1 <= #[trigger] self@[i].id < self.spec_next_id()
    }

    /// An empty table whose first assigned id will be 1.
    pub fn new() -> (s: Self)
        ensures
            s.wf(),
            s@ == Seq::<Todont>::empty(),
            s.spec_next_id() == 1,
    {
        TodontStore { rows: Vec::new(), next_id: 1 }
    }

    /// Every row, in table order.
    pub fn get_all(&self) -> (r: Vec<Todont>)
        ensures
            r@ == self@,
    {
        let mut r: Vec<Todont> = Vec::new();
        let mut i: usize = 0;
        while i < self.rows.len()
            invariant
                i <= self.rows.len(),
                r@ == self@.take(i as int),
            decreases self.rows.len() - i,
        {
            r.push(self.rows[i].clone());
            assert(self@.take(i + 1 as int) =~= self@.take(i as int).push(self@[i as int]));
            i = i + 1;
        }
        assert(self@.take(self.rows.len() as int) =~= self@);
        r
    }

    /// The first row carrying `id`, or `None` when no row does.
    pub fn get_one(&self, id: i64) -> (r: Option<Todont>)
        ensures
            r == lookup(self@, id),
    {
        let mut i: usize = 0;
        while i < self.rows.len()
            invariant
                i <= self.rows.len(),
                forall|j: int| 0 <= j < i ==> self@[j].id != id,
            decreases self.rows.len() - i,
        {
            if self.rows[i].id == id {
                proof {
                    lemma_lookup_skip(self@, id, i as int);
                    assert(self@.skip(i as int)[0] == self@[i as int]);
                }
                return Some(self.rows[i].clone());
            }
            i = i + 1;
        }
        proof {
            lemma_lookup_skip(self@, id, self.rows.len() as int);
            assert(self@.skip(self.rows.len() as int) =~= Seq::<Todont>::empty());
        }
        None
    }

    /// Rebuild a store from rows read back from persistent storage: accepted
    /// exactly when the rows can stand as a table, with the table as given
    /// and the next id one above the largest present.
    pub fn from_rows(rows: Vec<Todont>) -> (r: Option<TodontStore>)
        ensures
            match r {
                Some(s) => {
                    &&& valid_rows(rows@)
                    &&& s.wf()
                    &&& s@ == rows@
                    &&& s.spec_next_id() == max_id(rows@) + 1
                },
                None => !valid_rows(rows@),
            },
    {
        let mut max: i64 = 0;
        let mut i: usize = 0;
        while i < rows.len()
            invariant
                i <= rows.len(),
                unique_ids(rows@.take(i as int)),
                forall|k: int| 0 <= k < i ==> 1 <= #[trigger] rows@[k].id < i64::MAX,
                0 <= max < i64::MAX,
                max as int == max_id(rows@.take(i as int)),
            decreases rows.len() - i,
        {
            let id = rows[i].id;
            if id < 1 {
                return None;
            }
            if id == i64::MAX {
                proof {
                    lemma_max_id_ge(rows@, i as int);
                }
                return None;
            }
            let mut j: usize = 0;
            while j < i
                invariant
                    j <= i,
                    i < rows@.len(),
                    id == rows@[i as int].id,
                    forall|l: int| 0 <= l < j ==> rows@[l].id != id,
                decreases i - j,
            {
                if rows[j].id == id {
                    proof {
                        assert(rows@[j as int].id == rows@[i as int].id);
                        assert(!unique_ids(rows@));
                    }
                    return None;
                }
                j = j + 1;
            }
            proof {
                assert(rows@.take(i + 1).drop_last() =~= rows@.take(i as int));
                assert(rows@.take(i + 1).last() == rows@[i as int]);
                assert forall|k: int, l: int| 0 <= k < l < i + 1 implies #[trigger] rows@.take(
                    i + 1,
                )[k].id != #[trigger] rows@.take(i + 1)[l].id by {
                    if l < i {
                        assert(rows@.take(i as int)[k].id != rows@.take(i as int)[l].id);
                    } else {
                        assert(rows@[k].id != id);
                    }
                }
            }
            if id > max {
                max = id;
            }
            proof {
                assert(max as int == max_id(rows@.take(i + 1)));
            }
            i = i + 1;
        }
        proof {
            assert(rows@.take(rows@.len() as int) =~= rows@);
            assert forall|k: int| 0 <= k < rows@.len() implies #[trigger] rows@[k].id
                <= max as int by {
                lemma_max_id_ge(rows@, k);
            }
        }
        Some(TodontStore { rows, next_id: max + 1 })
    }

    /// The id the next create will assign, as a value a caller can test.
    pub fn next_id(&self) -> (r: i64)
        ensures
            r == self.spec_next_id(),
    {
        self.next_id
    }

    /// Insert a new row built from `input`; the store assigns and returns the
    /// id, which no present row carries.
    pub fn create_todont(&mut self, input: InputTodont) -> (id: i64)
        requires
            old(self).wf(),
            old(self).spec_next_id() < i64::MAX,
        ensures
            final(self).wf(),
            id == old(self).spec_next_id(),
            !has_id(old(self)@, id),
            final(self)@ == created(old(self)@, id, input),
            final(self).spec_next_id() == id + 1,
    {
        let id = self.next_id;
        self.next_id = self.next_id + 1;
        self.rows.push(Todont { id, description: input.description, done: input.done });
        proof {
            assert(self@ =~= created(old(self)@, id, input));
            assert forall|i: int, j: int| 0 <= i < j < self@.len() implies self@[i].id
                != self@[j].id by {
                if j < self@.len() - 1 {
                    assert(old(self)@[i].id != old(self)@[j].id);
                } else {
                    assert(old(self)@[i].id < id);
                }
            }
        }
        id
    }

    /// Full-replace update: the row whose id is `todont.id`, if any, becomes
    /// `todont`; with no such row the table is untouched and no error is
    /// raised.
    pub fn update_todont(&mut self, todont: Todont)
        requires
            old(self).wf(),
        ensures
            final(self).wf(),
            final(self)@ == updated(old(self)@, todont),
            final(self).spec_next_id() == old(self).spec_next_id(),
    {
        let mut i: usize = 0;
        while i < self.rows.len()
            invariant
                i <= self.rows.len(),
                *self == *old(self),
                old(self).wf(),
                forall|j: int| 0 <= j < i ==> self@[j].id != todont.id,
            decreases self.rows.len() - i,
        {
            if self.rows[i].id == todont.id {
                let ghost prev = self@;
                let ghost at = i as int;
                self.rows.set(i, todont);
                proof {
                    assert forall|k: int| 0 <= k < prev.len() && k != at implies prev[k].id
                        != prev[at].id by {
                        if k < at {
                            assert(prev[k].id != prev[at].id);
                        } else {
                            assert(prev[at].id != prev[k].id);
                        }
                    }
                    assert(self@ =~= updated(prev, todont));
                }
                return ;
            }
            i = i + 1;
        }
        proof {
            assert(self@ =~= updated(self@, todont));
        }
    }

    /// Delete by id: the row carrying `id`, if any, is removed; with no such
    /// row the table is untouched and no error is raised.
    pub fn delete_todont(&mut self, id: i64)
        requires
            old(self).wf(),
        ensures
            final(self).wf(),
            final(self)@ == deleted(old(self)@, id),
            final(self).spec_next_id() == old(self).spec_next_id(),
    {
        let mut kept: Vec<Todont> = Vec::new();
        let mut i: usize = 0;
        while i < self.rows.len()
            invariant
                i <= self.rows.len(),
                *self == *old(self),
                kept@ == deleted(self@.take(i as int), id),
            decreases self.rows.len() - i,
        {
            if self.rows[i].id != id {
                kept.push(self.rows[i].clone());
            }
            proof {
                assert(self@.take(i + 1).drop_last() =~= self@.take(i as int));
                assert(self@.take(i + 1).last() == self@[i as int]);
                assert(kept@ == deleted(self@.take(i + 1), id));
            }
            i = i + 1;
        }
        proof {
            assert(self@.take(self.rows.len() as int) =~= self@);
        }
        self.rows = kept;
        proof {
            lemma_deleted_membership(old(self)@, id);
            assert forall|k: int| 0 <= k < self@.len() implies 1 <= #[trigger] self@[k].id
                < self.spec_next_id() by {
                assert(old(self)@.contains(self@[k]));
                let j = choose|j: int|
                    0 <= j < old(self)@.len() && old(self)@[j] == self@[k];
                assert(1 <= old(self)@[j].id < old(self).spec_next_id());
            }
        }
    }
}

/// A row pushed under an id that no present row carries is what `lookup`
/// finds for that id afterwards.
proof fn lemma_lookup_fresh_push(rows: Seq<Todont>, t: Todont)
    requires
        forall|i: int| 0 <= i < rows.len() ==> rows[i].id != t.id,
    ensures
        lookup(rows.push(t), t.id) == Some(t),
    decreases rows.len(),
{
    if rows.len() == 0 {
        assert(rows.push(t)[0] == t);
    } else {
        assert(rows.push(t)[0] == rows[0]);
        assert(rows.push(t).drop_first() =~= rows.drop_first().push(t));
        assert(forall|i: int| 0 <= i < rows.drop_first().len() ==> rows.drop_first()[i].id
            != t.id) by {
            assert(forall|i: int| 0 <= i < rows.drop_first().len() ==> rows.drop_first()[i]
                == rows[i + 1]);
        }
        lemma_lookup_fresh_push(rows.drop_first(), t);
    }
}

/// What `lookup` finds after a full-replace update: the updated row under its
/// own id when the table carried that id, and nothing otherwise.
pub proof fn lemma_lookup_updated(rows: Seq<Todont>, t: Todont)
    ensures
        lookup(updated(rows, t), t.id) == if has_id(rows, t.id) {
            Some(t)
        } else {
            None
        },
    decreases rows.len(),
{
    let u = updated(rows, t);
    if rows.len() == 0 {
        assert(!has_id(rows, t.id));
    } else {
        assert(u.len() == rows.len());
        assert(u.drop_first() =~= updated(rows.drop_first(), t));
        lemma_lookup_updated(rows.drop_first(), t);
        if rows[0].id == t.id {
            assert(u[0] == t);
            assert(has_id(rows, t.id));
        } else {
            assert(u[0] == rows[0]);
            assert(has_id(rows, t.id) == has_id(rows.drop_first(), t.id)) by {
                if has_id(rows, t.id) {
                    let i = choose|i: int| 0 <= i < rows.len() && rows[i].id == t.id;
                    assert(rows.drop_first()[i - 1].id == t.id);
                }
                if has_id(rows.drop_first(), t.id) {
                    let i = choose|i: int|
                        0 <= i < rows.drop_first().len() && rows.drop_first()[i].id == t.id;
                    assert(rows[i + 1].id == t.id);
                }
            }
        }
    }
}

/// A full-replace update leaves what `lookup` finds under every other id
/// unchanged.
pub proof fn lemma_update_preserves_others(rows: Seq<Todont>, t: Todont, other: i64)
    requires
        other != t.id,
    ensures
        lookup(updated(rows, t), other) == lookup(rows, other),
    decreases rows.len(),
{
    let u = updated(rows, t);
    if rows.len() > 0 {
        assert(u.drop_first() =~= updated(rows.drop_first(), t));
        lemma_update_preserves_others(rows.drop_first(), t, other);
        assert(u[0] == if rows[0].id == t.id {
            t
        } else {
            rows[0]
        });
    }
}

/// Creating a todont and then listing shows it: the new table is the old one
/// with one more row at the end, carrying the assigned id and the submitted
/// description and done flag.
pub proof fn lemma_create_then_list(rows: Seq<Todont>, id: i64, input: InputTodont)
    ensures
        created(rows, id, input).len() == rows.len() + 1,
        created(rows, id, input).last() == row_from(id, input),
        created(rows, id, input).contains(row_from(id, input)),
        forall|i: int| 0 <= i < rows.len() ==> created(rows, id, input)[i] == rows[i],
{
    assert(created(rows, id, input)[rows.len() as int] == row_from(id, input));
}

/// Round trip: after creating a todont under a fresh id, fetching that id
/// returns exactly the submitted description and done flag.
pub proof fn lemma_create_round_trip(rows: Seq<Todont>, id: i64, input: InputTodont)
    requires
        !has_id(rows, id),
    ensures
        lookup(created(rows, id, input), id) == Some(row_from(id, input)),
        lookup(created(rows, id, input), id)->Some_0.description == input.description,
        lookup(created(rows, id, input), id)->Some_0.done == input.done,
{
    lemma_lookup_fresh_push(rows, row_from(id, input));
}

/// Updating an id the table carries changes what a subsequent get returns:
/// the fetched row is the submitted one.
pub proof fn lemma_update_then_get(rows: Seq<Todont>, t: Todont)
    requires
        has_id(rows, t.id),
    ensures
        lookup(updated(rows, t), t.id) == Some(t),
{
    lemma_lookup_updated(rows, t);
}

/// Deleting an id makes a subsequent get of it return nothing.
pub proof fn lemma_delete_then_get(rows: Seq<Todont>, id: i64)
    ensures
        lookup(deleted(rows, id), id) == None::<Todont>,
{
    lemma_deleted_membership(rows, id);
    let d = deleted(rows, id);
    lemma_lookup_skip(d, id, d.len() as int);
    assert(d.skip(d.len() as int) =~= Seq::<Todont>::empty());
}

/// An update under an id the table does not carry changes nothing: no row is
/// created and no row is touched.
pub proof fn lemma_update_absent_is_noop(rows: Seq<Todont>, t: Todont)
    requires
        !has_id(rows, t.id),
    ensures
        updated(rows, t) == rows,
{
    assert(updated(rows, t) =~= rows);
}

/// A delete of an id the table does not carry changes nothing: no row is
/// created and no row is touched.
pub proof fn lemma_delete_absent_is_noop(rows: Seq<Todont>, id: i64)
    requires
        !has_id(rows, id),
    ensures
        deleted(rows, id) == rows,
    decreases rows.len(),
{
    if rows.len() > 0 {
        let prefix = rows.drop_last();
        assert(!has_id(prefix, id)) by {
            if has_id(prefix, id) {
                let i = choose|i: int| 0 <= i < prefix.len() && prefix[i].id == id;
                assert(rows[i].id == id);
            }
        }
        lemma_delete_absent_is_noop(prefix, id);
        assert(rows.last().id != id) by {
            assert(rows[rows.len() - 1] == rows.last());
        }
        assert(deleted(rows, id) =~= rows);
    }
}

/// Every row that survives a delete stood in the table before, under another
/// id than the deleted one; and deleting never makes two rows share an id.
pub proof fn lemma_deleted_membership(rows: Seq<Todont>, id: i64)
    ensures
        deleted(rows, id).len() <= rows.len(),
        forall|k: int| 0 <= k < deleted(rows, id).len() ==> rows.contains(
            #[trigger] deleted(rows, id)[k],
        ) && deleted(rows, id)[k].id != id,
        unique_ids(rows) ==> unique_ids(deleted(rows, id)),
    decreases rows.len(),
{
    if rows.len() > 0 {
        let prefix = rows.drop_last();
        lemma_deleted_membership(prefix, id);
        assert forall|k: int| 0 <= k < deleted(prefix, id).len() implies rows.contains(
            #[trigger] deleted(prefix, id)[k],
        ) by {
            let e = deleted(prefix, id)[k];
            let j = choose|j: int| 0 <= j < prefix.len() && prefix[j] == e;
            assert(rows[j] == e);
        }
        if unique_ids(rows) {
            assert(unique_ids(prefix)) by {
                assert forall|i: int, j: int| 0 <= i < j < prefix.len() implies prefix[i].id
                    != prefix[j].id by {
                    assert(rows[i].id != rows[j].id);
                }
            }
            if rows.last().id != id {
                let d = deleted(prefix, id).push(rows.last());
                assert forall|i: int, j: int| 0 <= i < j < d.len() implies d[i].id != d[j].id by {
                    if j < d.len() - 1 {
                        assert(deleted(prefix, id)[i].id != deleted(prefix, id)[j].id);
                    } else {
                        let e = deleted(prefix, id)[i];
                        assert(prefix.contains(e));
                        let m = choose|m: int| 0 <= m < prefix.len() && prefix[m] == e;
                        assert(rows[m].id != rows[rows.len() - 1].id);
                    }
                }
            }
        }
    }
}

} // verus!
