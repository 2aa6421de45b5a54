//! The history of forks of a step solve: the states from which a new path
//! can be tried after the solver gets blocked. The oldest fork (the lowest
//! decision level) is tried first.

use vstd::prelude::*;
use priority_queue::PriorityQueue;
use std::cmp::Reverse;

verus! {

#[verifier::external_type_specification]
#[verifier::external_body]
#[verifier::reject_recursive_types(I)]
#[verifier::reject_recursive_types(P)]
#[verifier::reject_recursive_types(H)]
pub struct ExPriorityQueue<I, P, H>(PriorityQueue<I, P, H>);

#[verifier::external_type_specification]
#[verifier::external_body]
#[verifier::reject_recursive_types(T)]
pub struct ExReverse<T>(Reverse<T>);

/// The queue type that holds forks: fork ids with their levels as reversed
/// priorities.
pub type ForkQueue = PriorityQueue<u64, Reverse<u64>>;

/// The forks held by a history queue: each fork's id mapped to its decision
/// level.
pub uninterp spec fn queued_forks(q: ForkQueue) -> Map<u64, u64>;

/// `PriorityQueue::new`: an empty queue.
#[verifier::external_body]
fn queue_new() -> (r: ForkQueue)
    ensures
        queued_forks(r).dom() == Set::<u64>::empty(),
{
    PriorityQueue::new()
}

/// `PriorityQueue::push`: the fork is held with the given level, replacing
/// the level it had if it was already held.
#[verifier::external_body]
fn queue_push(q: &mut ForkQueue, id: u64, level: u64)
    ensures
        queued_forks(*final(q)) == queued_forks(*old(q)).insert(id, level),
{
    q.push(id, Reverse(level));
}

/// `PriorityQueue::pop`: removes and returns a fork of the greatest priority,
/// which under `Reverse` is a fork of the lowest level; `None` when the queue
/// is empty. Which of several forks of that level comes out is left open.
#[verifier::external_body]
fn queue_pop(q: &mut ForkQueue) -> (r: Option<(u64, u64)>)
    ensures
        r is None <==> queued_forks(*old(q)).dom().len() == 0,
        r is None ==> queued_forks(*final(q)) == queued_forks(*old(q)),
        r matches Some((id, level)) ==> {
            &&& queued_forks(*old(q)).contains_key(id)
            &&& queued_forks(*old(q))[id] == level
            &&& forall|k: u64| #[trigger] queued_forks(*old(q)).contains_key(k)
                ==> level <= queued_forks(*old(q))[k]
            &&& queued_forks(*final(q)) == queued_forks(*old(q)).remove(id)
        },
{
    match q.pop() {
        Some((id, Reverse(level))) => Some((id, level)),
        None => None,
    }
}

/// Taking the oldest fork out of the forks `before` leaves `after` and gives
/// `taken`: nothing when there was no fork (and nothing changes), else a fork
/// of the lowest level, which is removed.
pub open spec fn takes_oldest(before: Map<u64, u64>, after: Map<u64, u64>, taken: Option<u64>) -> bool {
    &&& taken is None <==> before.dom().len() == 0
    &&& taken is None ==> after == before
    &&& taken matches Some(id) ==> {
        &&& before.contains_key(id)
        &&& forall|k: u64| #[trigger] before.contains_key(k) ==> before[id] <= before[k]
        &&& after == before.remove(id)
    }
}

/// The forks of a step solve, by id, with their decision levels.
pub struct SolverHistory {
    queue: ForkQueue,
}

impl SolverHistory {
    /// The forks held, each id mapped to its decision level.
    pub closed spec fn forks(&self) -> Map<u64, u64> {
        queued_forks(self.queue)
    }

    /// An empty history.
    pub fn new() -> (h: Self)
        ensures
            h.forks().dom() == Set::<u64>::empty(),
    {
        SolverHistory { queue: queue_new() }
    }

    /// Record a fork at the given decision level.
    pub fn push(&mut self, id: u64, level: u64)
        ensures
            final(self).forks() == old(self).forks().insert(id, level),
    {
        queue_push(&mut self.queue, id, level);
    }

    /// Take out the oldest fork: one of the lowest decision level. `None`
    /// when no fork is left, which leads the solve to its dead state.
    pub fn take_oldest(&mut self) -> (r: Option<u64>)
        ensures
            takes_oldest(old(self).forks(), final(self).forks(), r),
    {
        match queue_pop(&mut self.queue) {
            Some((id, _level)) => Some(id),
            None => None,
        }
    }
}

} // verus!
