//! The rows that a window aggregation program keeps around the one it
//! works on: those it already wrote out, to look behind, and those it read
//! ahead, to look forward. The program writes each row out once the rows it
//! must see ahead of it have come in.
use vstd::prelude::*;

verus! {

/// The cells of a row, as a specification sees them.
pub open spec fn cells_view(cells: Seq<Vec<u8>>) -> Seq<Seq<u8>> {
    cells.map_values(|c: Vec<u8>| c@)
}

/// Rows with their indices, as a specification sees them.
pub open spec fn rows_view(rows: Seq<(usize, Vec<Vec<u8>>)>) -> Seq<(usize, Seq<Seq<u8>>)> {
    rows.map_values(|r: (usize, Vec<Vec<u8>>)| (r.0, cells_view(r.1@)))
}

pub open spec fn min_nat(a: nat, b: nat) -> nat {
    if a < b {
        a
    } else {
        b
    }
}

/// The rows around the one a window program works on.
pub struct WindowBuffers {
    past_capacity: usize,
    past: Vec<(usize, Vec<Vec<u8>>)>,
    future_capacity: usize,
    future: Vec<(usize, Vec<Vec<u8>>)>,
    fed: Ghost<Seq<(usize, Seq<Seq<u8>>)>>,
    emitted: Ghost<nat>,
}

fn copy_cells(cells: &Vec<Vec<u8>>) -> (r: Vec<Vec<u8>>)
    ensures
        cells_view(r@) == cells_view(cells@),
{
    let mut r: Vec<Vec<u8>> = Vec::new();
    let mut i: usize = 0;
    while i < cells.len()
        invariant
            i <= cells@.len(),
            r@.len() == i,
            forall|j: int| 0 <= j < i ==> (#[trigger] r@[j])@ == cells@[j]@,
        decreases cells@.len() - i,
    {
        r.push(cells[i].clone());
        i += 1;
    }
    assert(cells_view(r@) =~= cells_view(cells@));
    r
}

impl WindowBuffers {
    /// Every row that came in, in order.
    pub closed spec fn fed(&self) -> Seq<(usize, Seq<Seq<u8>>)> {
        self.fed@
    }

    /// How many rows were written out.
    pub closed spec fn emitted(&self) -> nat {
        self.emitted@
    }

    /// How many rows it keeps behind.
    pub closed spec fn past_capacity(&self) -> nat {
        self.past_capacity as nat
    }

    /// How many rows it keeps ahead, the one it works on included; zero
    /// when it looks at no row ahead.
    pub closed spec fn future_capacity(&self) -> nat {
        self.future_capacity as nat
    }

    pub closed spec fn wf(&self) -> bool {
        &&& self.emitted@ <= self.fed@.len()
        &&& self.future_capacity == 0 ==> self.future@.len() == 0 && self.emitted@
            == self.fed@.len()
        &&& self.future_capacity > 0 ==> {
            &&& rows_view(self.future@) == self.fed@.subrange(
                self.emitted@ as int,
                self.fed@.len() as int,
            )
            &&& self.future@.len() <= self.future_capacity
            &&& self.future@.len() < self.future_capacity ==> self.emitted@ == 0
        }
        &&& self.past@.len() == min_nat(self.emitted@, self.past_capacity as nat)
        &&& forall|i: int|
            0 <= i < self.past@.len() ==> rows_view(self.past@)[i] == self.fed@[self.emitted@
                - 1 - i]
    }

    proof fn lemma_future_len(&self)
        requires
            self.wf(),
        ensures
            self.future_capacity > 0 ==> self.future@.len() == self.fed@.len() - self.emitted@,
            self.future_capacity > 0 ==> (self.future@.len() < self.future_capacity
                <==> self.fed@.len() < self.future_capacity),
    {
        if self.future_capacity > 0 {
            assert(rows_view(self.future@).len() == self.future@.len());
        }
    }

    /// Buffers for a program whose aggregations look at most `max_past` rows
    /// behind and `max_future` rows ahead.
    pub fn new(max_past: usize, max_future: usize) -> (r: Self)
        requires
            max_future < usize::MAX,
        ensures
            r.wf(),
            r.fed() == Seq::<(usize, Seq<Seq<u8>>)>::empty(),
            r.emitted() == 0,
            r.past_capacity() == max_past,
            r.future_capacity() == if max_future > 0 {
                max_future + 1
            } else {
                0
            },
    {
        let r = WindowBuffers {
            past_capacity: max_past,
            past: Vec::new(),
            future_capacity: if max_future > 0 {
                max_future + 1
            } else {
                0
            },
            future: Vec::new(),
            fed: Ghost(Seq::empty()),
            emitted: Ghost(0),
        };
        assert(rows_view(r.future@) =~= r.fed@.subrange(0, 0));
        r
    }

    /// Whether the next row only goes into the rows ahead, the program
    /// having yet to read as many as it must see ahead of the first.
    pub fn is_filling(&self) -> (r: bool)
        requires
            self.wf(),
        ensures
            r == (self.future_capacity() > 0 && self.fed().len() < self.future_capacity()),
    {
        proof {
            self.lemma_future_len();
        }
        self.future_capacity > 0 && self.future.len() < self.future_capacity
    }

    /// Keeps a row among those ahead, while they fill up.
    pub fn fill(&mut self, index: usize, record: &Vec<Vec<u8>>)
        requires
            old(self).wf(),
            old(self).future_capacity() > 0,
            old(self).fed().len() < old(self).future_capacity(),
        ensures
            final(self).wf(),
            final(self).fed() == old(self).fed().push((index, cells_view(record@))),
            final(self).emitted() == old(self).emitted(),
            final(self).past_capacity() == old(self).past_capacity(),
            final(self).future_capacity() == old(self).future_capacity(),
    {
        let ghost old_future = self.future@;
        self.future.push((index, copy_cells(record)));
        self.fed = Ghost(self.fed@.push((index, cells_view(record@))));
        proof {
            assert(rows_view(self.future@) =~= rows_view(old_future).push(
                (index, cells_view(record@)),
            ));
            assert(self.fed@.subrange(self.emitted@ as int, self.fed@.len() as int)
                =~= old(self).fed@.subrange(
                old(self).emitted@ as int,
                old(self).fed@.len() as int,
            ).push((index, cells_view(record@))));
            assert forall|i: int| 0 <= i < self.past@.len() implies rows_view(self.past@)[i]
                == self.fed@[self.emitted@ - 1 - i] by {
                assert(rows_view(old(self).past@)[i] == old(self).fed@[old(self).emitted@ - 1 - i]);
            }
        }
    }

    /// The row the program works on, when it reads rows ahead: the first of
    /// those not written out yet. Without rows ahead, it works on the row
    /// that just came in.
    pub fn working_row(&self) -> (r: Option<&(usize, Vec<Vec<u8>>)>)
        requires
            self.wf(),
            !(self.future_capacity() > 0 && self.fed().len() < self.future_capacity()),
        ensures
            self.future_capacity() == 0 ==> r is None,
            self.future_capacity() > 0 ==> (r matches Some(row) && (row.0, cells_view(row.1@))
                == self.fed()[self.emitted() as int]),
    {
        proof {
            self.lemma_future_len();
        }
        if self.future_capacity > 0 {
            proof {
                assert(rows_view(self.future@)[0] == self.fed@[self.emitted@ as int]);
            }
            Some(&self.future[0])
        } else {
            None
        }
    }

    /// The row `n` rows behind the one the program works on, if it came in.
    pub fn lag(&self, n: usize) -> (r: Option<&(usize, Vec<Vec<u8>>)>)
        requires
            self.wf(),
            1 <= n <= self.past_capacity(),
        ensures
            n <= self.emitted() ==> (r matches Some(row) && (row.0, cells_view(row.1@))
                == self.fed()[self.emitted() - n]),
            n > self.emitted() ==> r is None,
    {
        if n - 1 < self.past.len() {
            proof {
                assert(rows_view(self.past@)[n - 1] == self.fed@[self.emitted@ - 1 - (n - 1)]);
            }
            Some(&self.past[n - 1])
        } else {
            None
        }
    }

    /// The row `n` rows ahead of the one the program works on, if it came
    /// in.
    pub fn lead(&self, n: usize) -> (r: Option<&(usize, Vec<Vec<u8>>)>)
        requires
            self.wf(),
            self.future_capacity() > 0,
            n < self.future_capacity(),
            !(self.fed().len() < self.future_capacity()),
        ensures
            r matches Some(row) && (row.0, cells_view(row.1@)) == self.fed()[self.emitted() + n],
    {
        proof {
            self.lemma_future_len();
            assert(rows_view(self.future@)[n as int] == self.fed@[self.emitted@ + n]);
        }
        Some(&self.future[n])
    }

    /// Takes in a row once the program worked on the row it writes out:
    /// the first of those ahead, which the new row joins, or else the new
    /// row itself. The row written out becomes the nearest of those behind.
    pub fn advance(&mut self, index: usize, record: &Vec<Vec<u8>>) -> (r: (usize, Vec<Vec<u8>>))
        requires
            old(self).wf(),
            !(old(self).future_capacity() > 0 && old(self).fed().len() < old(
                self,
            ).future_capacity()),
        ensures
            final(self).wf(),
            final(self).fed() == old(self).fed().push((index, cells_view(record@))),
            final(self).emitted() == old(self).emitted() + 1,
            (r.0, cells_view(r.1@)) == final(self).fed()[old(self).emitted() as int],
            final(self).past_capacity() == old(self).past_capacity(),
            final(self).future_capacity() == old(self).future_capacity(),
    {
        let ghost e = self.emitted@;
        let ghost fed0 = self.fed@;
        proof {
            self.lemma_future_len();
        }
        let new_fed = Ghost(self.fed@.push((index, cells_view(record@))));
        let emitted_row = if self.future_capacity > 0 {
            let ghost old_future = self.future@;
            let front = self.future.remove(0);
            let ghost mid = self.future@;
            let copy = copy_cells(record);
            self.future.push((index, copy));
            proof {
                assert(rows_view(old_future)[0] == fed0[e as int]);
                assert(mid == old_future.subrange(1, old_future.len() as int));
                assert(rows_view(old_future) == fed0.subrange(e as int, fed0.len() as int));
                assert forall|i: int| 0 <= i < mid.len() implies rows_view(mid)[i] == fed0[e + 1 + i] by {
                    assert(mid[i] == old_future[i + 1]);
                    assert(rows_view(old_future)[i + 1] == fed0[e + i + 1]);
                }
                assert(rows_view(mid) =~= fed0.subrange((e + 1) as int, fed0.len() as int));
                assert(self.future@ == mid.push((index, copy)));
                assert(rows_view(self.future@) =~= rows_view(mid).push((index, cells_view(record@))));
                assert(rows_view(self.future@) =~= new_fed@.subrange((e + 1) as int, new_fed@.len() as int));
            }
            front
        } else {
            (index, copy_cells(record))
        };
        self.fed = new_fed;
        self.emitted = Ghost(e + 1);
        if self.past_capacity > 0 {
            let ghost old_past = self.past@;
            if self.past.len() >= self.past_capacity {
                self.past.pop();
            }
            let ghost kept = self.past@;
            self.past.insert(0, (emitted_row.0, copy_cells(&emitted_row.1)));
            proof {
                assert forall|i: int| 0 <= i < self.past@.len() implies rows_view(self.past@)[i]
                    == self.fed@[self.emitted@ - 1 - i] by {
                    if i > 0 {
                        assert(self.past@[i] == kept[i - 1]);
                        assert(kept[i - 1] == old_past[i - 1]);
                        assert(rows_view(old_past)[i - 1] == fed0[e - 1 - (i - 1)]);
                    }
                }
            }
        }
        emitted_row
    }

    /// How many rows came in that were not written out yet: what is left
    /// to flush at the end.
    pub fn pending(&self) -> (r: usize)
        requires
            self.wf(),
        ensures
            r == self.fed().len() - self.emitted(),
    {
        proof {
            self.lemma_future_len();
        }
        self.future.len()
    }

    /// Forgets every row, to start on a new group of rows.
    pub fn clear(&mut self)
        requires
            old(self).wf(),
        ensures
            final(self).wf(),
            final(self).fed() == Seq::<(usize, Seq<Seq<u8>>)>::empty(),
            final(self).emitted() == 0,
            final(self).past_capacity() == old(self).past_capacity(),
            final(self).future_capacity() == old(self).future_capacity(),
    {
        self.past = Vec::new();
        self.future = Vec::new();
        self.fed = Ghost(Seq::empty());
        self.emitted = Ghost(0);
        assert(rows_view(self.future@) =~= self.fed@.subrange(0, 0));
    }
}

} // verus!
