//! Trusted interface to the bounded, lock-free queues the kernel shares
//! with interrupt handlers.
//!
//! Both the executor's ready queue (task identifiers) and the keyboard
//! bridge's scancode queue (raw bytes) are crossbeam `ArrayQueue`s: bounded
//! first-in-first-out queues whose push and pop never allocate and never
//! block, which is what makes them safe to touch from interrupt context.
//! The queue's contents are named by uninterpreted sequence functions, and
//! each operation the kernel uses gets a wrapper whose contract states what
//! crossbeam's source shows: `push` appends at the tail unless the queue is
//! full, `pop` takes the head, and the capacity fixed at construction never
//! changes.

use crossbeam_queue::ArrayQueue;
use vstd::prelude::*;

verus! {

#[verifier::external_type_specification]
#[verifier::external_body]
#[verifier::reject_recursive_types(T)]
pub struct ExArrayQueue<T>(ArrayQueue<T>);

/// The task identifiers in a ready queue, oldest first.
pub uninterp spec fn id_queue_items(q: ArrayQueue<u64>) -> Seq<u64>;

/// The capacity a ready queue was created with.
pub uninterp spec fn id_queue_capacity(q: ArrayQueue<u64>) -> usize;

/// The scancodes in a scancode queue, oldest first.
pub uninterp spec fn byte_queue_items(q: ArrayQueue<u8>) -> Seq<u8>;

/// The capacity a scancode queue was created with.
pub uninterp spec fn byte_queue_capacity(q: ArrayQueue<u8>) -> usize;

/// Relies on crossbeam's `ArrayQueue::new`: a fresh bounded queue with the
/// given capacity, holding nothing. `new` panics on a zero capacity (and
/// on absurdly large ones), so those are excluded.
#[verifier::external_body]
pub fn id_queue_new(cap: usize) -> (q: ArrayQueue<u64>)
    requires
        1 <= cap <= 65536,
    ensures
        id_queue_items(q) == Seq::<u64>::empty(),
        id_queue_capacity(q) == cap,
{
    ArrayQueue::new(cap)
}

/// Relies on crossbeam's `ArrayQueue::push`: appends the value at the tail
/// if the queue is not full, and otherwise hands it back, changing nothing.
#[verifier::external_body]
pub fn id_queue_push(q: &mut ArrayQueue<u64>, v: u64) -> (r: bool)
    ensures
        id_queue_capacity(*final(q)) == id_queue_capacity(*old(q)),
        id_queue_items(*old(q)).len() < id_queue_capacity(*old(q)) ==> (r && id_queue_items(
            *final(q),
        ) == id_queue_items(*old(q)).push(v)),
        id_queue_items(*old(q)).len() >= id_queue_capacity(*old(q)) ==> (!r && id_queue_items(
            *final(q),
        ) == id_queue_items(*old(q))),
{
    q.push(v).is_ok()
}

/// Relies on crossbeam's `ArrayQueue::pop`: takes the oldest element, or
/// nothing from an empty queue.
#[verifier::external_body]
pub fn id_queue_pop(q: &mut ArrayQueue<u64>) -> (r: Option<u64>)
    ensures
        id_queue_capacity(*final(q)) == id_queue_capacity(*old(q)),
        id_queue_items(*old(q)).len() == 0 ==> (r is None && id_queue_items(*final(q))
            == id_queue_items(*old(q))),
        id_queue_items(*old(q)).len() > 0 ==> (r == Some(id_queue_items(*old(q))[0])
            && id_queue_items(*final(q)) == id_queue_items(*old(q)).drop_first()),
{
    q.pop()
}

/// Relies on crossbeam's `ArrayQueue::is_empty`: whether the queue holds
/// nothing.
#[verifier::external_body]
pub fn id_queue_is_empty(q: &ArrayQueue<u64>) -> (r: bool)
    ensures
        r <==> id_queue_items(*q).len() == 0,
{
    q.is_empty()
}

/// Relies on crossbeam's `ArrayQueue::len`: how many elements the queue
/// holds.
#[verifier::external_body]
pub fn id_queue_len(q: &ArrayQueue<u64>) -> (r: usize)
    ensures
        r == id_queue_items(*q).len(),
{
    q.len()
}

/// Relies on crossbeam's `ArrayQueue::new`, as `id_queue_new` does.
#[verifier::external_body]
pub fn byte_queue_new(cap: usize) -> (q: ArrayQueue<u8>)
    requires
        1 <= cap <= 65536,
    ensures
        byte_queue_items(q) == Seq::<u8>::empty(),
        byte_queue_capacity(q) == cap,
{
    ArrayQueue::new(cap)
}

/// Relies on crossbeam's `ArrayQueue::push`, as `id_queue_push` does.
#[verifier::external_body]
pub fn byte_queue_push(q: &mut ArrayQueue<u8>, v: u8) -> (r: bool)
    ensures
        byte_queue_capacity(*final(q)) == byte_queue_capacity(*old(q)),
        byte_queue_items(*old(q)).len() < byte_queue_capacity(*old(q)) ==> (r && byte_queue_items(
            *final(q),
        ) == byte_queue_items(*old(q)).push(v)),
        byte_queue_items(*old(q)).len() >= byte_queue_capacity(*old(q)) ==> (!r && byte_queue_items(
            *final(q),
        ) == byte_queue_items(*old(q))),
{
    q.push(v).is_ok()
}

/// Relies on crossbeam's `ArrayQueue::pop`, as `id_queue_pop` does.
#[verifier::external_body]
pub fn byte_queue_pop(q: &mut ArrayQueue<u8>) -> (r: Option<u8>)
    ensures
        byte_queue_capacity(*final(q)) == byte_queue_capacity(*old(q)),
        byte_queue_items(*old(q)).len() == 0 ==> (r is None && byte_queue_items(*final(q))
            == byte_queue_items(*old(q))),
        byte_queue_items(*old(q)).len() > 0 ==> (r == Some(byte_queue_items(*old(q))[0])
            && byte_queue_items(*final(q)) == byte_queue_items(*old(q)).drop_first()),
{
    q.pop()
}

} // verus!
