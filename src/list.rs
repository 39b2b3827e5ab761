use vstd::prelude::*;

verus! {

/// Rows whose ids strictly increase from first to last.
pub open spec fn ids_increasing(rows: Seq<(usize, usize)>) -> bool {
    forall|i: int, j: int| 0 <= i < j < rows.len() ==> rows[i].0 < rows[j].0
}

/// The rows a list of `n` counters starts with: row `i` has id `i` and count `i + 1`.
pub open spec fn initial_rows(n: nat) -> Seq<(usize, usize)> {
    Seq::new(n, |i: int| (i as usize, (i + 1) as usize))
}

/// A list of counters, each row an `(id, count)` pair, together with the id
/// that the next row added will take.
pub struct CounterList {
    rows: Vec<(usize, usize)>,
    next_id: usize,
}

impl View for CounterList {
    /// The rows, first to last.
    type V = Seq<(usize, usize)>;

    closed spec fn view(&self) -> Seq<(usize, usize)> {
        self.rows@
    }
}

/// The rows with every row of id `id` left out, the others in their order.
pub open spec fn without_id(rows: Seq<(usize, usize)>, id: usize) -> Seq<(usize, usize)> {
    rows.filter(other_than(id))
}

/// Holds of the rows whose id is not `id`.
pub open spec fn other_than(id: usize) -> spec_fn((usize, usize)) -> bool {
    |r: (usize, usize)| r.0 != id
}

/// The rows with the count of each row of id `id` one higher.
pub open spec fn counted_up(rows: Seq<(usize, usize)>, id: usize) -> Seq<(usize, usize)> {
    rows.map_values(|r: (usize, usize)| if r.0 == id { (r.0, (r.1 + 1) as usize) } else { r })
}

/// Whether some row has id `id`.
pub open spec fn has_id(rows: Seq<(usize, usize)>, id: usize) -> bool {
    exists|i: int| 0 <= i < rows.len() && rows[i].0 == id
}

impl CounterList {
    #[verifier::type_invariant]
    closed spec fn inv(&self) -> bool {
        self.wf()
    }

    /// The id that the next row added will take.
    pub closed spec fn upcoming_id(&self) -> nat {
        self.next_id as nat
    }

    /// Ids strictly increase along the list, so that no two rows share one,
    /// and each is below the id that comes next.
    pub open spec fn wf(&self) -> bool {
        &&& ids_increasing(self@)
        &&& forall|i: int| 0 <= i < self@.len() ==> self@[i].0 < self.upcoming_id()
    }

    /// A list of `initial_length` counters: row `i` has id `i` and count
    /// `i + 1`; the next id is `initial_length`.
    pub fn new(initial_length: usize) -> (r: Self)
        ensures
            r.wf(),
            r@ == initial_rows(initial_length as nat),
            r.upcoming_id() == initial_length,
    {
        let mut rows: Vec<(usize, usize)> = Vec::new();
        let mut id: usize = 0;
        while id < initial_length
            invariant
                id <= initial_length,
                rows@ == initial_rows(id as nat),
            decreases initial_length - id,
        {
            rows.push((id, id + 1));
            id = id + 1;
            assert(rows@ =~= initial_rows(id as nat));
        }
        CounterList { rows, next_id: initial_length }
    }

    /// Adds a row at the end whose id is the next id and whose count is one
    /// more than that id, then moves the next id on by one. Where the count
    /// would not fit in a `usize` nothing changes and the result is `false`.
    pub fn add_counter(&mut self) -> (added: bool)
        ensures
            final(self).wf(),
            added == (old(self).upcoming_id() < usize::MAX),
            added ==> final(self)@ == old(self)@.push(
                (old(self).upcoming_id() as usize, (old(self).upcoming_id() + 1) as usize),
            ),
            added ==> final(self).upcoming_id() == old(self).upcoming_id() + 1,
            !added ==> *final(self) == *old(self),
    {
        proof {
            use_type_invariant(&*self);
        }
        if self.next_id == usize::MAX {
            return false;
        }
        let id = self.next_id;
        let mut rows: Vec<(usize, usize)> = Vec::new();
        std::mem::swap(&mut rows, &mut self.rows);
        rows.push((id, id + 1));
        *self = CounterList { rows, next_id: id + 1 };
        true
    }

    /// Removes the row of id `id`, if there is one; the other rows keep their
    /// order and the next id stays as it was.
    pub fn remove(&mut self, id: usize)
        ensures
            final(self).wf(),
            final(self)@ == without_id(old(self)@, id),
            final(self).upcoming_id() == old(self).upcoming_id(),
            !has_id(final(self)@, id),
    {
        proof {
            use_type_invariant(&*self);
        }
        let ghost pred = other_than(id);
        assert(forall|r: (usize, usize)| #[trigger] pred(r) == (r.0 != id));
        let ghost rows0 = self.rows@;
        let mut kept: Vec<(usize, usize)> = Vec::new();
        let mut i: usize = 0;
        while i < self.rows.len()
            invariant
                self.rows@ == rows0,
                self.wf(),
                forall|r: (usize, usize)| #[trigger] pred(r) == (r.0 != id),
                i <= rows0.len(),
                kept@ == rows0.take(i as int).filter(pred),
                ids_increasing(kept@),
                forall|k: int| 0 <= k < kept@.len() ==> #[trigger] kept@[k].0 < self.next_id,
                forall|k: int, j: int|
                    0 <= k < kept@.len() && i <= j < rows0.len() ==> #[trigger] kept@[k].0
                        < #[trigger] rows0[j].0,
            decreases rows0.len() - i,
        {
            let row = self.rows[i];
            let ghost before = kept@;
            proof {
                assert(rows0.take(i + 1) =~= rows0.take(i as int).push(row));
                rows0.take(i as int).lemma_filter_push(row, pred);
            }
            if row.0 != id {
                kept.push(row);
                proof {
                    assert forall|k: int, j: int|
                        0 <= k < kept@.len() && i + 1 <= j < rows0.len() implies #[trigger] kept@[k].0
                            < #[trigger] rows0[j].0 by {
                        if k < before.len() {
                            assert(before[k] == kept@[k]);
                        }
                    }
                }
            }
            assert(kept@ == rows0.take(i + 1).filter(pred));
            i = i + 1;
        }
        assert(rows0.take(rows0.len() as int) =~= rows0);
        proof {
            assert forall|k: int| 0 <= k < kept@.len() implies kept@[k].0 != id by {
                rows0.lemma_filter_pred(pred, k);
            }
        }
        self.rows = kept;
    }

    /// The index of the row of id `id`, if there is one.
    fn position(&self, id: usize) -> (r: Option<usize>)
        ensures
            match r {
                Some(i) => i < self@.len() && self@[i as int].0 == id,
                None => !has_id(self@, id),
            },
    {
        let mut i: usize = 0;
        while i < self.rows.len()
            invariant
                i <= self@.len(),
                forall|k: int| 0 <= k < i ==> #[trigger] self@[k].0 != id,
            decreases self@.len() - i,
        {
            if self.rows[i].0 == id {
                return Some(i);
            }
            i = i + 1;
        }
        None
    }

    /// The count of the row of id `id`, or `None` where no row has that id.
    pub fn count_of(&self, id: usize) -> (r: Option<usize>)
        ensures
            r.is_some() == has_id(self@, id),
            forall|i: int| 0 <= i < self@.len() && self@[i].0 == id ==> r == Some(self@[i].1),
    {
        proof {
            use_type_invariant(&*self);
        }
        match self.position(id) {
            Some(i) => Some(self.rows[i].1),
            None => None,
        }
    }

    /// Counts the row of id `id` up by one. Where no row has that id, or its
    /// count would not fit in a `usize`, nothing changes and the result is
    /// `false`.
    pub fn increment(&mut self, id: usize) -> (done: bool)
        ensures
            final(self).wf(),
            done == exists|i: int|
                0 <= i < old(self)@.len() && #[trigger] old(self)@[i].0 == id && old(self)@[i].1
                    < usize::MAX,
            done ==> final(self)@ == counted_up(old(self)@, id),
            final(self).upcoming_id() == old(self).upcoming_id(),
            !done ==> *final(self) == *old(self),
    {
        proof {
            use_type_invariant(&*self);
        }
        match self.position(id) {
            Some(i) => {
                let (row_id, count) = self.rows[i];
                if count == usize::MAX {
                    return false;
                }
                let ghost rows0 = self@;
                let mut rows: Vec<(usize, usize)> = Vec::new();
                std::mem::swap(&mut rows, &mut self.rows);
                rows.set(i, (row_id, count + 1));
                *self = CounterList { rows, next_id: self.next_id };
                proof {
                    assert forall|k: int| 0 <= k < rows0.len() && k != i implies #[trigger] rows0[k].0
                        != id by {
                        if k < i {
                            assert(rows0[k].0 < rows0[i as int].0);
                        } else {
                            assert(rows0[i as int].0 < rows0[k].0);
                        }
                    }
                    assert(self@ =~= counted_up(rows0, id));
                }
                true
            },
            None => false,
        }
    }

    /// The rows, first to last.
    pub fn rows(&self) -> (r: &Vec<(usize, usize)>)
        ensures
            r@ == self@,
    {
        &self.rows
    }

    /// The number of rows.
    pub fn len(&self) -> (r: usize)
        ensures
            r == self@.len(),
    {
        self.rows.len()
    }

    /// The id that the next row added will take.
    pub fn next_id(&self) -> (r: usize)
        ensures
            r == self.upcoming_id(),
    {
        self.next_id
    }
}

/// A sequence whose every row has an id other than `id` loses nothing when
/// rows of that id are left out.
proof fn lemma_without_absent(rows: Seq<(usize, usize)>, id: usize)
    requires
        !has_id(rows, id),
    ensures
        without_id(rows, id) == rows,
    decreases rows.len(),
{
    reveal(Seq::filter);
    if rows.len() > 0 {
        lemma_without_absent(rows.drop_last(), id);
        assert(rows.drop_last().push(rows.last()) =~= rows);
    }
}

/// Removing the row that `add_counter` has just added gives back the rows
/// from before.
pub proof fn lemma_remove_undoes_add(before: CounterList, added: CounterList, after: CounterList)
    requires
        before.wf(),
        before.upcoming_id() < usize::MAX,
        added@ == before@.push(
            (before.upcoming_id() as usize, (before.upcoming_id() + 1) as usize),
        ),
        after@ == without_id(added@, before.upcoming_id() as usize),
    ensures
        after@ == before@,
{
    let id = before.upcoming_id() as usize;
    before@.lemma_filter_push((id, (id + 1) as usize), other_than(id));
    lemma_without_absent(before@, id);
}

} // verus!
