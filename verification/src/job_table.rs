//! A table that keeps jobs under tickets.

use vstd::prelude::*;

verus! {

/// Jobs kept under tickets.  A ticket is free again once its job was taken out.
pub struct JobTable<J> {
    slots: Vec<Option<J>>,
    free: Vec<u64>,
}

impl<J> View for JobTable<J> {
    type V = Map<u64, J>;

    closed spec fn view(&self) -> Map<u64, J> {
        Map::new(
            |ticket: u64| ticket < self.slots@.len() && self.slots@[ticket as int] is Some,
            |ticket: u64| self.slots@[ticket as int]->0,
        )
    }
}

impl<J> JobTable<J> {
    /// The tickets on the free list are distinct and name empty slots.
    pub closed spec fn wf(&self) -> bool {
        &&& self.free@.no_duplicates()
        &&& forall|i: int|
            #![trigger self.free@[i]]
            0 <= i < self.free@.len() ==> self.free@[i] < self.slots@.len()
                && self.slots@[self.free@[i] as int] is None
    }

    /// An empty table.
    pub fn new() -> (table: Self)
        ensures
            table.wf(),
            table@ == Map::<u64, J>::empty(),
    {
        let table = JobTable { slots: Vec::new(), free: Vec::new() };
        assert(table@ =~= Map::<u64, J>::empty());
        table
    }

    /// Stores a job under a ticket that no other job has.
    pub fn insert(&mut self, job: J) -> (ticket: u64)
        requires
            old(self).wf(),
        ensures
            final(self).wf(),
            !old(self)@.contains_key(ticket),
            final(self)@ == old(self)@.insert(ticket, job),
    {
        match self.free.pop() {
            Some(ticket) => {
                let ghost before = self.free@.push(ticket);
                assert(before[before.len() - 1] == ticket);
                self.slots[ticket as usize] = Some(job);
                assert forall|i: int|
                    #![trigger self.free@[i]]
                    0 <= i < self.free@.len() implies self.free@[i] < self.slots@.len()
                    && self.slots@[self.free@[i] as int] is None by {
                    assert(before[i] == self.free@[i]);
                }
                assert(self@ =~= old(self)@.insert(ticket, job));
                ticket
            },
            None => {
                let ticket: u64 = self.slots.len() as u64;
                self.slots.push(Some(job));
                assert(self@ =~= old(self)@.insert(ticket, job));
                ticket
            },
        }
    }

    /// Takes out the job that has this ticket.
    pub fn remove(&mut self, ticket: u64) -> (job: J)
        requires
            old(self).wf(),
            old(self)@.contains_key(ticket),
        ensures
            final(self).wf(),
            job == old(self)@[ticket],
            final(self)@ == old(self)@.remove(ticket),
    {
        assert(ticket < self.slots.len());
        let mut slot: Option<J> = None;
        std::mem::swap(&mut slot, &mut self.slots[ticket as usize]);
        self.free.push(ticket);
        assert(self@ =~= old(self)@.remove(ticket));
        slot.unwrap()
    }
}

} // verus!
