//! The queue on which the outcomes of the fetches come back to the manager.

use vstd::prelude::*;
use crate::chunk::ArrivalView;
use crate::chunk::ChunkArrival;
use crate::chunk::ChunkManager;
use crate::chunk::RESULT_QUEUE_CAPACITY;
use crate::chunk::arrival_views;

verus! {

/// `crossbeam_channel::Receiver`, the end of a queue at which messages come
/// out. The proofs see nothing of what is inside.
#[verifier::external_type_specification]
#[verifier::external_body]
#[verifier::reject_recursive_types(T)]
pub struct ExReceiver<T>(crossbeam_channel::Receiver<T>);

/// `crossbeam_channel::Sender`, the end of a queue at which messages go
/// in. The proofs see nothing of what is inside.
#[verifier::external_type_specification]
#[verifier::external_body]
#[verifier::reject_recursive_types(T)]
pub struct ExSender<T>(crossbeam_channel::Sender<T>);

/// The number of outcomes that the queue behind a receiver holds at most.
pub uninterp spec fn queue_limit(receiver: crossbeam_channel::Receiver<ChunkArrival>) -> nat;

/// Calls `crossbeam_channel::bounded`, which makes a queue that holds at
/// most `capacity` messages and hands out its two ends: a sender blocks
/// while the queue is full. The contract records the capacity.
#[verifier::external_body]
fn bounded_queue(capacity: usize) -> (ends: (
    crossbeam_channel::Sender<ChunkArrival>,
    crossbeam_channel::Receiver<ChunkArrival>,
))
    requires
        capacity <= RESULT_QUEUE_CAPACITY,
    ensures
        queue_limit(ends.1) == capacity,
{
    crossbeam_channel::bounded(capacity)
}

/// Makes the queue on which the outcomes of the fetches come back: it holds
/// at most [`RESULT_QUEUE_CAPACITY`] outcomes, so that fetches wait while
/// the manager falls behind.
pub fn result_queue() -> (ends: (
    crossbeam_channel::Sender<ChunkArrival>,
    crossbeam_channel::Receiver<ChunkArrival>,
))
    ensures
        queue_limit(ends.1) == RESULT_QUEUE_CAPACITY,
{
    bounded_queue(RESULT_QUEUE_CAPACITY)
}

/// Calls `Receiver::try_recv`, which hands out a message that waits in the
/// queue without blocking, and fails when none waits or every sender is
/// gone; both failures become `None`. What comes out depends on what the
/// senders have done, so the contract promises nothing of it.
#[verifier::external_body]
fn try_receive(receiver: &crossbeam_channel::Receiver<ChunkArrival>) -> (arrival: Option<
    ChunkArrival,
>) {
    receiver.try_recv().ok()
}

/// Takes the outcomes that wait in the queue, at most `limit` of them, in
/// the order in which they come out, until none waits. It never blocks.
pub fn drain_receiver(receiver: &crossbeam_channel::Receiver<ChunkArrival>, limit: usize) -> (arrivals:
    Vec<ChunkArrival>)
    ensures
        arrivals@.len() <= limit,
{
    let mut arrivals: Vec<ChunkArrival> = Vec::new();
    let mut taken: usize = 0;
    while taken < limit
        invariant
            taken <= limit,
            arrivals@.len() == taken,
        decreases limit - taken,
    {
        let received = try_receive(receiver);
        if !keep_arrival(&mut arrivals, received) {
            return arrivals;
        }
        taken = taken + 1;
    }
    arrivals
}

/// One step of draining the queue, for what the queue has handed out: an
/// outcome joins the list at its end, and the draining goes on; when the
/// queue has handed out nothing, the list stays as it is and the draining
/// is over.
pub fn keep_arrival(arrivals: &mut Vec<ChunkArrival>, received: Option<ChunkArrival>) -> (more:
    bool)
    ensures
        more == received.is_some(),
        final(arrivals)@ == (match received {
            Some(arrival) => old(arrivals)@.push(arrival),
            None => old(arrivals)@,
        }),
{
    match received {
        Some(arrival) => {
            arrivals.push(arrival);
            true
        },
        None => false,
    }
}

/// Reception: takes the outcomes that wait in the queue, at most `limit` of
/// them, and lets the manager take up each in turn. Returns how many tiles
/// joined the waiting ones. Whatever the queue held, the manager is in the
/// state that some list of at most `limit` outcomes leads to.
pub fn read_tile_map_receiver(
    manager: &mut ChunkManager,
    receiver: &crossbeam_channel::Receiver<ChunkArrival>,
    limit: usize,
) -> (promoted: usize)
    requires
        old(manager).wf(),
    ensures
        final(manager).wf(),
        promoted <= limit,
        exists|arrivals: Seq<ArrivalView>|
            arrivals.len() <= limit && final(manager)@ == #[trigger] old(manager)@.after_arrivals(
                arrivals,
                arrivals.len(),
            ),
{
    let arrivals = drain_receiver(receiver, limit);
    let ghost views = arrival_views(arrivals@);
    let promoted = manager.receive_chunks(arrivals);
    assert(manager@ == old(manager)@.after_arrivals(views, views.len()));
    promoted
}

} // verus!
