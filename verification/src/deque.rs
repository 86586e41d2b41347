//! The two `crossbeam_deque` queues that carry job tickets.
//!
//! Both queues are reached through `&mut`, so while a call runs nobody else
//! holds the queue.  Under that condition each queue is a sequence, and the
//! contracts below say what a call does to it.

use crossbeam_deque::{Injector, Steal, Worker};
use vstd::prelude::*;

verus! {

/// `crossbeam_deque::Injector`, with nothing known of its inside.
#[verifier::external_type_specification]
#[verifier::external_body]
#[verifier::reject_recursive_types(T)]
pub struct ExInjector<T>(Injector<T>);

/// `crossbeam_deque::Worker`, with nothing known of its inside.
#[verifier::external_type_specification]
#[verifier::external_body]
#[verifier::reject_recursive_types(T)]
pub struct ExWorker<T>(Worker<T>);

/// The tickets in an injector, oldest first.
pub uninterp spec fn injected(queue: Injector<u64>) -> Seq<u64>;

/// The tickets in a worker queue, from its front to its back.
pub uninterp spec fn queued(queue: Worker<u64>) -> Seq<u64>;

/// Whether a worker queue is of the LIFO flavour and has no stealer handle
/// left, so that `&mut` to it is the only way to its tickets.
pub uninterp spec fn sole_lifo(queue: Worker<u64>) -> bool;

/// What one attempt to steal came to.
pub enum Attempt {
    /// The queue held nothing.
    Empty,
    /// This ticket was taken out.
    Taken(u64),
    /// The attempt lost a race and changed nothing.
    Lost,
}

/// `Injector::new`: the new injector is empty.
#[verifier::external_body]
pub(crate) fn new_injector() -> (queue: Injector<u64>)
    ensures
        injected(queue) == Seq::<u64>::empty(),
{
    Injector::new()
}

/// `Injector::push`: the ticket becomes the youngest.  The 64-bit position that
/// the injector keeps inside would have to run out for it to fail.
#[verifier::external_body]
pub(crate) fn inject(queue: &mut Injector<u64>, ticket: u64)
    ensures
        injected(*final(queue)) == injected(*old(queue)).push(ticket),
{
    queue.push(ticket)
}

/// `Worker::new_lifo`: the new queue is empty, of the LIFO flavour and without
/// stealer.
#[verifier::external_body]
pub(crate) fn new_lifo() -> (queue: Worker<u64>)
    ensures
        queued(queue) == Seq::<u64>::empty(),
        sole_lifo(queue),
{
    Worker::new_lifo()
}

/// `Worker::pop` on a LIFO queue: the ticket at the back comes out.
#[verifier::external_body]
pub(crate) fn pop(queue: &mut Worker<u64>) -> (ticket: Option<u64>)
    requires
        sole_lifo(*old(queue)),
    ensures
        sole_lifo(*final(queue)),
        queued(*old(queue)).len() == 0 ==> ticket is None && queued(*final(queue)) == queued(
            *old(queue),
        ),
        queued(*old(queue)).len() > 0 ==> ticket == Some(queued(*old(queue)).last()) && queued(
            *final(queue),
        ) == queued(*old(queue)).drop_last(),
{
    queue.pop()
}

/// `Worker::stealer` and `Stealer::steal`: the ticket at the front comes out.
/// The stealer is dropped before the call returns.  `steal` gives up only when
/// another holder of the queue moves its front in between, which `&mut` rules
/// out.
#[verifier::external_body]
pub(crate) fn steal(queue: &mut Worker<u64>) -> (attempt: Attempt)
    requires
        sole_lifo(*old(queue)),
    ensures
        sole_lifo(*final(queue)),
        queued(*old(queue)).len() == 0 ==> attempt is Empty && queued(*final(queue)) == queued(
            *old(queue),
        ),
        queued(*old(queue)).len() > 0 ==> attempt == Attempt::Taken(queued(*old(queue)).first())
            && queued(*final(queue)) == queued(*old(queue)).drop_first(),
{
    match queue.stealer().steal() {
        Steal::Empty => Attempt::Empty,
        Steal::Success(ticket) => Attempt::Taken(ticket),
        Steal::Retry => Attempt::Lost,
    }
}

/// What `Injector::steal_batch_and_pop` leaves behind when it moves `count`
/// tickets: the oldest is handed out, and the others land at the back of the
/// LIFO queue, youngest first, so that they are popped oldest first.
pub open spec fn batch_moved(
    injected_before: Seq<u64>,
    queued_before: Seq<u64>,
    count: int,
    ticket: u64,
    injected_after: Seq<u64>,
    queued_after: Seq<u64>,
) -> bool {
    &&& 1 <= count <= injected_before.len()
    &&& ticket == injected_before.first()
    &&& injected_after == injected_before.skip(count)
    &&& queued_after == queued_before + injected_before.subrange(1, count).reverse()
}

/// `Injector::steal_batch_and_pop` into a LIFO queue: an empty injector stays
/// as it is; from another one a run of the oldest tickets moves over, how long
/// a run is left open, or the attempt is lost, because the exchange inside may
/// fail for no reason, and nothing changes.
#[verifier::external_body]
fn steal_batch_and_pop(source: &mut Injector<u64>, dest: &mut Worker<u64>) -> (attempt:
    Attempt)
    requires
        sole_lifo(*old(dest)),
    ensures
        sole_lifo(*final(dest)),
        attempt is Empty <==> injected(*old(source)).len() == 0,
        attempt !is Taken ==> injected(*final(source)) == injected(*old(source)) && queued(
            *final(dest),
        ) == queued(*old(dest)),
        attempt matches Attempt::Taken(ticket) ==> exists|count: int| #[trigger]
            batch_moved(
                injected(*old(source)),
                queued(*old(dest)),
                count,
                ticket,
                injected(*final(source)),
                queued(*final(dest)),
            ),
{
    match source.steal_batch_and_pop(dest) {
        Steal::Empty => Attempt::Empty,
        Steal::Success(ticket) => Attempt::Taken(ticket),
        Steal::Retry => Attempt::Lost,
    }
}

/// Whether an attempt to draw a batch from `injector` may be lost.
pub closed spec fn lost_draw(injector: Injector<u64>) -> bool {
    exists|source: &mut Injector<u64>, dest: &mut Worker<u64>| #[trigger]
        call_ensures(steal_batch_and_pop, (source, dest), Attempt::Lost) && *source == injector
}

/// Draw a batch of tickets from the injector `source` for the queue `dest`.
pub(crate) fn draw_tickets(source: &mut Injector<u64>, dest: &mut Worker<u64>) -> (attempt: Attempt)
    requires
        sole_lifo(*old(dest)),
    ensures
        sole_lifo(*final(dest)),
        attempt is Empty <==> injected(*old(source)).len() == 0,
        attempt is Lost ==> lost_draw(*old(source)),
        attempt !is Taken ==> injected(*final(source)) == injected(*old(source)) && queued(
            *final(dest),
        ) == queued(*old(dest)),
        attempt matches Attempt::Taken(ticket) ==> exists|count: int| #[trigger]
            batch_moved(
                injected(*old(source)),
                queued(*old(dest)),
                count,
                ticket,
                injected(*final(source)),
                queued(*final(dest)),
            ),
{
    let attempt = steal_batch_and_pop(source, dest);
    assert(attempt is Lost ==> attempt == Attempt::Lost);
    attempt
}

/// A draw counts as lost only if the injector itself was drawn from, and it lost.
proof fn law_lost_draw_was_made(injector: Injector<u64>)
    requires
        lost_draw(injector),
    ensures
        exists|source: &mut Injector<u64>, dest: &mut Worker<u64>| #[trigger]
            call_ensures(steal_batch_and_pop, (source, dest), Attempt::Lost) && *source == injector,
{
}

} // verus!
