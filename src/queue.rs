//! The FIFO queue of the `queues` crate, as the pool stores its endpoints.
use vstd::prelude::*;

verus! {

#[verifier::external_type_specification]
#[verifier::external_body]
#[verifier::reject_recursive_types(T)]
pub struct ExQueue<T: Clone>(queues::Queue<T>);

/// What a queue of strings holds, oldest first.
pub uninterp spec fn queue_items(q: queues::Queue<String>) -> Seq<Seq<char>>;

/// Relies on `queues::Queue::new`: the new queue holds nothing.
#[verifier::external_body]
pub(crate) fn queue_new() -> (r: queues::Queue<String>)
    ensures
        queue_items(r) == Seq::<Seq<char>>::empty(),
{
    queues::Queue::new()
}

/// Relies on `IsQueue::add` of `queues::Queue`: the value is pushed at the
/// back, and the call always answers `Ok(None)`.
#[verifier::external_body]
pub(crate) fn queue_add(q: &mut queues::Queue<String>, v: String)
    ensures
        queue_items(*final(q)) == queue_items(*old(q)).push(v@),
{
    let _ = queues::IsQueue::add(q, v);
}

/// Relies on `IsQueue::remove` of `queues::Queue`: it takes the oldest value
/// off the front, and fails (leaving the queue alone) only when it is empty.
#[verifier::external_body]
pub(crate) fn queue_remove(q: &mut queues::Queue<String>) -> (r: Option<String>)
    ensures
        queue_items(*old(q)).len() == 0 ==> r is None && queue_items(*final(q)) == queue_items(
            *old(q),
        ),
        queue_items(*old(q)).len() > 0 ==> r is Some && r->0@ == queue_items(*old(q))[0]
            && queue_items(*final(q)) == queue_items(*old(q)).drop_first(),
{
    queues::IsQueue::remove(q).ok()
}

/// Relies on `IsQueue::size` of `queues::Queue`: the number of values held.
#[verifier::external_body]
pub(crate) fn queue_size(q: &queues::Queue<String>) -> (r: usize)
    ensures
        r == queue_items(*q).len(),
{
    queues::IsQueue::size(q)
}

} // verus!
