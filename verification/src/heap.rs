//! A binary max-heap of jobs with priorities.

use std::cmp::Ordering;
use vstd::multiset::Multiset;
use vstd::prelude::*;
use vstd::std_specs::cmp::{PartialEqSpec, PartialOrdSpec};

verus! {

/// A job with what decides when its turn comes.
pub struct PriorityJob<J> {
    /// Higher value = higher urgency.
    pub priority: i64,
    /// Sequence number assigned at submission time.  Within the same priority
    /// level, the lower number wins.
    pub seq: u64,
    /// The job.
    pub job: J,
}

impl<J> PriorityJob<J> {
    /// Whether this job may run before the other: its priority is higher, or
    /// it is the same and the sequence number is not higher.
    pub open spec fn at_least(self, other: Self) -> bool {
        self.priority > other.priority || (self.priority == other.priority && self.seq
            <= other.seq)
    }

    /// The order by urgency: the greater of two jobs runs first.
    pub open spec fn urgency_order(self, other: Self) -> Ordering {
        if self.priority == other.priority && self.seq == other.seq {
            Ordering::Equal
        } else if self.at_least(other) {
            Ordering::Greater
        } else {
            Ordering::Less
        }
    }

    /// Compare by priority first, and by sequence number, the lower the
    /// greater, within the same priority.
    pub fn cmp(&self, other: &Self) -> (order: Ordering)
        ensures
            order == self.urgency_order(*other),
    {
        if self.priority < other.priority {
            Ordering::Less
        } else if self.priority > other.priority {
            Ordering::Greater
        } else if other.seq < self.seq {
            Ordering::Less
        } else if other.seq > self.seq {
            Ordering::Greater
        } else {
            Ordering::Equal
        }
    }
}

impl<J> PartialEq for PriorityJob<J> {
    fn eq(&self, other: &Self) -> (equal: bool) {
        self.priority == other.priority && self.seq == other.seq
    }
}

impl<J> vstd::std_specs::cmp::PartialEqSpecImpl for PriorityJob<J> {
    open spec fn obeys_eq_spec() -> bool {
        true
    }

    open spec fn eq_spec(&self, other: &Self) -> bool {
        self.priority == other.priority && self.seq == other.seq
    }
}

impl<J> Eq for PriorityJob<J> {

}

impl<J> PartialOrd for PriorityJob<J> {
    fn partial_cmp(&self, other: &Self) -> (order: Option<Ordering>) {
        Some(self.cmp(other))
    }
}

impl<J> vstd::std_specs::cmp::PartialOrdSpecImpl for PriorityJob<J> {
    open spec fn obeys_partial_cmp_spec() -> bool {
        true
    }

    open spec fn partial_cmp_spec(&self, other: &Self) -> Option<Ordering> {
        Some(self.urgency_order(*other))
    }
}

/// The parent of a place in the heap.
spec fn parent(place: int) -> int {
    (place - 1) / 2
}

/// Whether no item is more urgent than its parent.
spec fn heaped<J>(items: Seq<PriorityJob<J>>) -> bool {
    forall|place: int|
        0 < place < items.len() ==> items[parent(place)].at_least(#[trigger] items[place])
}

/// The items with those at two places exchanged.
spec fn exchanged<T>(items: Seq<T>, i: int, j: int) -> Seq<T> {
    items.update(i, items[j]).update(j, items[i])
}

fn exchange<T>(items: &mut Vec<T>, i: usize, j: usize)
    requires
        i < j < old(items)@.len(),
    ensures
        final(items)@ == exchanged(old(items)@, i as int, j as int),
        final(items)@.to_multiset() == old(items)@.to_multiset(),
{
    let ghost before = items@;
    {
        let (low, high) = items.as_mut_slice().split_at_mut(j);
        std::mem::swap(&mut low[i], &mut high[0]);
    }
    proof {
        assert(items@ =~= exchanged(before, i as int, j as int));
        let half = before.update(i as int, before[j as int]);
        vstd::seq_lib::to_multiset_update(before, i as int, before[j as int]);
        vstd::seq_lib::to_multiset_update(half, j as int, before[i as int]);
        before.to_multiset_ensures();
        assert(before.contains(before[i as int]));
        assert(before.contains(before[j as int]));
        assert(items@.to_multiset() =~= before.to_multiset());
    }
}

/// The root is at least as urgent as every item.
proof fn lemma_root_first<J>(items: Seq<PriorityJob<J>>, place: int)
    requires
        heaped(items),
        0 <= place < items.len(),
    ensures
        items[0].at_least(items[place]),
    decreases place,
{
    if place > 0 {
        lemma_root_first(items, parent(place));
        assert(items[parent(place)].at_least(items[place]));
    }
}

/// Whether `top` is one of the items, and none of them is more urgent.
pub open spec fn is_top<J>(items: Multiset<PriorityJob<J>>, top: PriorityJob<J>) -> bool {
    &&& items.contains(top)
    &&& forall|item: PriorityJob<J>| #[trigger] items.contains(item) ==> top.at_least(item)
}

/// A binary max-heap of jobs.
pub struct JobHeap<J> {
    items: Vec<PriorityJob<J>>,
}

impl<J> View for JobHeap<J> {
    type V = Multiset<PriorityJob<J>>;

    closed spec fn view(&self) -> Multiset<PriorityJob<J>> {
        self.items@.to_multiset()
    }
}

impl<J> JobHeap<J> {
    /// No item is more urgent than its parent.
    pub closed spec fn wf(&self) -> bool {
        heaped(self.items@)
    }

    /// An empty heap.
    pub fn new() -> (heap: Self)
        ensures
            heap.wf(),
            heap@ == Multiset::<PriorityJob<J>>::empty(),
    {
        let heap = JobHeap { items: Vec::new() };
        proof {
            heap.items@.to_multiset_ensures();
            assert(heap@ =~= Multiset::<PriorityJob<J>>::empty());
        }
        heap
    }

    /// Add an item.
    pub fn push(&mut self, item: PriorityJob<J>)
        requires
            old(self).wf(),
        ensures
            final(self).wf(),
            final(self)@ == old(self)@.insert(item),
    {
        proof {
            self.items@.to_multiset_ensures();
        }
        let mut place: usize = self.items.len();
        self.items.push(item);
        let ghost contents = self.items@.to_multiset();
        while place > 0
            invariant
                place < self.items@.len(),
                self.items@.to_multiset() == contents,
                // Only the item at `place` may be more urgent than its parent.
                forall|k: int|
                    0 < k < self.items@.len() && k != place ==> self.items@[parent(k)].at_least(
                        #[trigger] self.items@[k],
                    ),
                forall|k: int|
                    0 < k < self.items@.len() && parent(k) == place && place > 0
                        ==> self.items@[parent(place as int)].at_least(#[trigger] self.items@[k]),
            ensures
                self.items@.to_multiset() == contents,
                heaped(self.items@),
            decreases place,
        {
            let above: usize = (place - 1) / 2;
            if self.items[above] >= self.items[place] {
                break;
            }
            exchange(&mut self.items, above, place);
            place = above;
        }
    }

    /// Take out a most urgent item.
    pub fn pop(&mut self) -> (top: Option<PriorityJob<J>>)
        requires
            old(self).wf(),
        ensures
            final(self).wf(),
            top is None <==> old(self)@.len() == 0,
            top is None ==> final(self)@ == old(self)@,
            top matches Some(item) ==> is_top(old(self)@, item) && final(self)@ == old(
                self,
            )@.remove(item),
    {
        let ghost before = self.items@;
        proof {
            before.to_multiset_ensures();
        }
        if self.items.len() == 0 {
            return None;
        }
        let top = self.items.swap_remove(0);
        proof {
            assert forall|item: PriorityJob<J>| #[trigger] old(self)@.contains(
                item,
            ) implies top.at_least(item) by {
                let place = before.index_of(item);
                lemma_root_first(before, place);
            }
            assert(before.contains(top));
            let rest = before.drop_last();
            assert(before.remove(before.len() - 1) =~= rest);
            if before.len() > 1 {
                assert(self.items@ =~= rest.update(0, before.last()));
                vstd::seq_lib::to_multiset_update(rest, 0, before.last());
                rest.to_multiset_ensures();
                assert(rest.contains(rest[0]));
                assert(self.items@.to_multiset() =~= before.to_multiset().remove(top));
            } else {
                assert(self.items@ =~= rest);
            }
            assert forall|k: int|
                0 < k < self.items@.len() && parent(k) != 0 implies self.items@[parent(
                k,
            )].at_least(#[trigger] self.items@[k]) by {
                assert(before[parent(k)].at_least(before[k]));
            }
        }
        let ghost contents = self.items@.to_multiset();
        let count: usize = self.items.len();
        let mut place: usize = 0;
        while place < count / 2
            invariant
                count == self.items@.len(),
                self.items@.to_multiset() == contents,
                // Only the children of `place` may be more urgent than it.
                forall|k: int|
                    0 < k < count && parent(k) != place ==> self.items@[parent(k)].at_least(
                        #[trigger] self.items@[k],
                    ),
                forall|k: int|
                    0 < k < count && parent(k) == place && place > 0 ==> self.items@[parent(
                        place as int,
                    )].at_least(#[trigger] self.items@[k]),
            ensures
                self.items@.to_multiset() == contents,
                heaped(self.items@),
            decreases count - place,
        {
            let left: usize = 2 * place + 1;
            let right: usize = left + 1;
            let child: usize = if right < count && self.items[right] > self.items[left] {
                right
            } else {
                left
            };
            assert(parent(left as int) == place && parent(right as int) == place);
            if self.items[place] >= self.items[child] {
                break;
            }
            exchange(&mut self.items, place, child);
            place = child;
        }
        Some(top)
    }

    /// Whether there is no item.
    pub fn is_empty(&self) -> (empty: bool)
        ensures
            empty == (self@.len() == 0),
    {
        proof {
            self.items@.to_multiset_ensures();
        }
        self.items.len() == 0
    }
}

/// Of two jobs the one with the higher priority is the greater; with the same
/// priority the one with the lower number is; and only jobs that have both the
/// same compare as equal.
pub proof fn law_urgency_decides<J>(one: &PriorityJob<J>, other: &PriorityJob<J>, order: Ordering)
    requires
        call_ensures(PriorityJob::<J>::cmp, (one, other), order),
    ensures
        one.priority > other.priority ==> order is Greater,
        one.priority < other.priority ==> order is Less,
        one.priority == other.priority && one.seq < other.seq ==> order is Greater,
        one.priority == other.priority && one.seq > other.seq ==> order is Less,
        one.priority == other.priority && one.seq == other.seq ==> order is Equal,
{
}

/// The operators compare as [`PriorityJob::cmp`] does.
pub proof fn law_operators_agree<J>(one: PriorityJob<J>, other: PriorityJob<J>)
    ensures
        PriorityJob::<J>::obeys_eq_spec(),
        PriorityJob::<J>::obeys_partial_cmp_spec(),
        one.eq_spec(&other) <==> one.priority == other.priority && one.seq == other.seq,
        one.partial_cmp_spec(&other) == Some(Ordering::Greater) <==> one.priority > other.priority
            || (one.priority == other.priority && one.seq < other.seq),
        one.partial_cmp_spec(&other) == Some(Ordering::Less) <==> one.priority < other.priority || (
        one.priority == other.priority && one.seq > other.seq),
        one.partial_cmp_spec(&other) == Some(Ordering::Equal) <==> one.eq_spec(&other),
{
}

/// What was pushed is what is added, and nothing else changes.
pub proof fn law_push_adds_the_item<J>(heap: &mut JobHeap<J>, item: PriorityJob<J>)
    requires
        call_ensures(JobHeap::<J>::push, (heap, item), ()),
    ensures
        final(heap)@.count(item) == old(heap)@.count(item) + 1,
        forall|other: PriorityJob<J>|
            other != item ==> #[trigger] final(heap)@.count(other) == old(heap)@.count(other),
{
}

/// What is popped was in the heap and leaves it, nothing else does, and no item
/// had a higher priority, or the same and a lower number.  Nothing comes out if
/// and only if the heap is empty.
pub proof fn law_pop_takes_the_most_urgent<J>(
    heap: &mut JobHeap<J>,
    top: Option<PriorityJob<J>>,
)
    requires
        call_ensures(JobHeap::<J>::pop, (heap,), top),
    ensures
        top is None <==> old(heap)@.len() == 0,
        top is None ==> final(heap)@ == old(heap)@,
        top matches Some(item) ==> {
            &&& old(heap)@.count(item) == final(heap)@.count(item) + 1
            &&& forall|other: PriorityJob<J>|
                other != item ==> #[trigger] final(heap)@.count(other) == old(heap)@.count(other)
            &&& forall|other: PriorityJob<J>| #[trigger]
                old(heap)@.count(other) > 0 ==> other.priority <= item.priority && (
                other.priority == item.priority ==> item.seq <= other.seq)
        },
{
    if let Some(item) = top {
        assert(heap@.contains(item));
        assert forall|other: PriorityJob<J>| #[trigger] heap@.count(other) > 0 implies other.priority
            <= item.priority && (other.priority == item.priority ==> item.seq <= other.seq) by {
            assert(heap@.contains(other));
        }
    }
}

} // verus!
