//! What a worker is about, and what it is told to do.

use vstd::prelude::*;

verus! {

/// What a worker is about.
#[derive(Debug, Clone, Copy, PartialEq, Eq, Structural)]
pub enum Phase {
    /// About to ask what to do.
    Ready,
    /// It asked, was told to wait, and has not been woken.
    Waiting,
    /// It runs a job.
    Running,
    /// It has left.
    Exited,
}

/// What a worker does next.
pub enum WorkerAction<J> {
    /// Run this job.
    Run(J),
    /// Wait until something changes, and ask again.
    Wait,
    /// Leave for good.
    Exit,
}

/// How many of the workers are in a phase.
pub open spec fn count_of<P>(phases: Seq<P>, phase: P) -> nat
    decreases phases.len(),
{
    if phases.len() == 0 {
        0
    } else {
        count_of(phases.drop_last(), phase) + if phases.last() == phase {
            1nat
        } else {
            0
        }
    }
}

/// Whether all of the workers are in a phase.
pub open spec fn all_are<P>(phases: Seq<P>, phase: P) -> bool {
    forall|id: int| 0 <= id < phases.len() ==> #[trigger] phases[id] == phase
}

/// The number of workers in a phase after one of them changed its phase.
pub(crate) proof fn lemma_count_update<P>(phases: Seq<P>, id: int, to: P, phase: P)
    requires
        0 <= id < phases.len(),
    ensures
        count_of(phases.update(id, to), phase) + if phases[id] == phase {
            1int
        } else {
            0
        } == count_of(phases, phase) + if to == phase {
            1int
        } else {
            0
        },
        count_of(phases, phase) <= phases.len(),
        count_of(phases.update(id, to), phase) <= phases.len(),
        phases[id] == phase ==> count_of(phases, phase) > 0,
    decreases phases.len(),
{
    let after = phases.update(id, to);
    lemma_count_bound(after, phase);
    if id == phases.len() - 1 {
        assert(after.drop_last() =~= phases.drop_last());
        lemma_count_bound(phases.drop_last(), phase);
    } else {
        lemma_count_update(phases.drop_last(), id, to, phase);
        assert(after.drop_last() =~= phases.drop_last().update(id, to));
    }
}

/// All workers are in a phase if and only if as many are as there are.
pub(crate) proof fn lemma_count_all<P>(phases: Seq<P>, phase: P)
    ensures
        count_of(phases, phase) == phases.len() <==> all_are(phases, phase),
    decreases phases.len(),
{
    if phases.len() > 0 {
        let front = phases.drop_last();
        lemma_count_all(front, phase);
        lemma_count_bound(front, phase);
        if count_of(phases, phase) == phases.len() {
            assert forall|id: int| 0 <= id < phases.len() implies #[trigger] phases[id] == phase by {
                if id < phases.len() - 1 {
                    assert(front[id] == phase);
                }
            }
        } else if all_are(phases, phase) {
            assert(phases.last() == phase);
            assert(forall|id: int| 0 <= id < front.len() ==> #[trigger] front[id] == phases[id]);
        }
    }
}

/// A phase in which a worker is, is counted; one that counts has a worker.
pub(crate) proof fn lemma_count_some<P>(phases: Seq<P>, phase: P)
    ensures
        count_of(phases, phase) > 0 <==> exists|id: int|
            0 <= id < phases.len() && #[trigger] phases[id] == phase,
    decreases phases.len(),
{
    if phases.len() > 0 {
        let front = phases.drop_last();
        lemma_count_some(front, phase);
        if phases.last() == phase {
            assert(phases[phases.len() - 1] == phase);
        } else if count_of(front, phase) > 0 {
            let id = choose|id: int| 0 <= id < front.len() && #[trigger] front[id] == phase;
            assert(phases[id] == phase);
        } else if exists|id: int| 0 <= id < phases.len() && #[trigger] phases[id] == phase {
            let id = choose|id: int| 0 <= id < phases.len() && #[trigger] phases[id] == phase;
            assert(front[id] == phase);
        }
    }
}

/// No more workers are in a phase than there are.
pub(crate) proof fn lemma_count_bound<P>(phases: Seq<P>, phase: P)
    ensures
        count_of(phases, phase) <= phases.len(),
    decreases phases.len(),
{
    if phases.len() > 0 {
        lemma_count_bound(phases.drop_last(), phase);
    }
}

/// Workers in different phases are different workers.
pub(crate) proof fn lemma_counts_disjoint<P>(phases: Seq<P>, one: P, other: P)
    requires
        one != other,
    ensures
        count_of(phases, one) + count_of(phases, other) <= phases.len(),
    decreases phases.len(),
{
    if phases.len() > 0 {
        lemma_counts_disjoint(phases.drop_last(), one, other);
    }
}

/// When all workers are in one phase, none is in another.
pub(crate) proof fn lemma_count_initial<P>(phases: Seq<P>, phase: P, other: P)
    requires
        all_are(phases, phase),
        phase != other,
    ensures
        count_of(phases, other) == 0,
    decreases phases.len(),
{
    if phases.len() > 0 {
        assert(phases.last() == phase);
        assert(forall|id: int| 0 <= id < phases.drop_last().len() ==> #[trigger] phases.drop_last()[id] == phases[id]);
        lemma_count_initial(phases.drop_last(), phase, other);
    }
}

} // verus!
