//! Cooperative multitasking: suspendable computations and the task wrapper
//! the executors schedule.
//!
//! A task is one unit of cooperative work: advanced one step at a time, it
//! reports after each step whether it has completed or suspended itself to
//! wait for a wake. The kernel's concrete computations are a tagged
//! variant: the keyboard-processing task, and a computation that yields a
//! fixed number of times before completing. A task identifier is drawn
//! from a monotonic generator and, once assigned, is never reused.

use crate::task::executor::TaskWaker;
use crate::task::keyboard::{
    decoded_output, decoder_after_all, KeyboardDecoder, KeypressTask, ScancodeStream,
};
use vstd::prelude::*;

pub mod executor;
pub mod keyboard;
pub mod queue;
pub mod simple_executor;

verus! {

/// What one step of a computation reports: completion with a value, or
/// suspension until a wake handle is invoked.
pub enum Poll<T> {
    Ready(T),
    Pending,
}

/// Identifier of one task, unique for the life of the kernel.
#[derive(Debug, Clone, Copy, PartialEq, Eq, Structural)]
pub struct TaskId(u64);

/// Monotonic source of task identifiers. The kernel owns exactly one,
/// created at boot, so no identifier is ever handed out twice.
pub struct TaskIdGen {
    next: u64,
}

impl TaskIdGen {
    /// The identifier the next call of `TaskId::new` will assign.
    pub closed spec fn spec_next(self) -> u64 {
        self.next
    }

    /// A generator that starts at identifier zero.
    pub fn new() -> (r: TaskIdGen)
        ensures
            r.spec_next() == 0,
    {
        TaskIdGen { next: 0 }
    }
}

impl TaskId {
    /// The identifier as a number.
    pub closed spec fn spec_value(self) -> u64 {
        self.0
    }

    /// The identifier as a number, for queue entries and lookups.
    pub fn value(&self) -> (r: u64)
        ensures
            r == self.spec_value(),
    {
        self.0
    }

    /// Draw a fresh identifier, advancing the generator so the same
    /// number is never assigned again.
    pub fn new(gen: &mut TaskIdGen) -> (r: TaskId)
        requires
            old(gen).spec_next() < u64::MAX,
        ensures
            r.spec_value() == old(gen).spec_next(),
            final(gen).spec_next() == old(gen).spec_next() + 1,
    {
        let id = TaskId(gen.next);
        gen.next = gen.next + 1;
        id
    }
}

/// Identifiers assigned by successive draws from one generator differ:
/// the generator only moves forward, so an identifier is never reused.
pub proof fn lemma_task_ids_never_reused(
    g0: TaskIdGen,
    g1: TaskIdGen,
    g2: TaskIdGen,
    id1: TaskId,
    id2: TaskId,
)
    requires
        // first draw: g0 to g1 assigning id1; a later draw from any state
        // g2 the generator reached afterwards assigns id2
        id1.spec_value() == g0.spec_next(),
        g1.spec_next() == g0.spec_next() + 1,
        g1.spec_next() <= g2.spec_next(),
        id2.spec_value() == g2.spec_next(),
    ensures
        id1.spec_value() != id2.spec_value(),
{
}

/// A computation that suspends a fixed number of times and then
/// completes. The simplest cooperative citizen: each poll before the last
/// parks it until its wake handle is invoked.
pub struct YieldTask {
    remaining: u64,
    finished: bool,
}

impl YieldTask {
    /// How many more times this computation will suspend.
    pub closed spec fn spec_remaining(self) -> u64 {
        self.remaining
    }

    /// Whether the computation has reported completion.
    pub closed spec fn spec_finished(self) -> bool {
        self.finished
    }

    /// Steps this computation can still take before it completes.
    pub open spec fn spec_measure(self) -> nat {
        (self.spec_remaining() + (if self.spec_finished() {
            0int
        } else {
            1int
        })) as nat
    }

    /// A computation that will suspend `n` times, then complete.
    pub fn new(n: u64) -> (r: YieldTask)
        ensures
            r.spec_remaining() == n,
            !r.spec_finished(),
    {
        YieldTask { remaining: n, finished: false }
    }

    /// Advance one step: suspend while yields remain, then complete.
    pub fn step(&mut self) -> (r: Poll<()>)
        requires
            !old(self).spec_finished(),
        ensures
            (r is Ready) <==> final(self).spec_finished(),
            old(self).spec_remaining() > 0 ==> (r is Pending && final(self).spec_remaining()
                == old(self).spec_remaining() - 1 && !final(self).spec_finished()),
            old(self).spec_remaining() == 0 ==> (r is Ready && final(self).spec_finished()
                && final(self).spec_remaining() == 0),
            final(self).spec_measure() + 1 == old(self).spec_measure(),
            r is Ready ==> final(self).spec_measure() == 0,
    {
        if self.remaining > 0 {
            self.remaining = self.remaining - 1;
            Poll::Pending
        } else {
            self.finished = true;
            Poll::Ready(())
        }
    }
}

/// The concrete suspendable computations of this kernel.
pub enum Computation {
    /// Drains the scancode queue, decoding keypresses.
    Keypresses(KeypressTask),
    /// Suspends a fixed number of times, then completes.
    Yield(YieldTask),
}

impl Computation {
    /// Whether the computation has reported completion. The keyboard task
    /// consumes an endless stream and never completes.
    pub open spec fn done(self) -> bool {
        match self {
            Computation::Keypresses(k) => false,
            Computation::Yield(y) => y.spec_finished(),
        }
    }

    /// Whether the computation completes after a bounded number of steps.
    pub open spec fn bounded(self) -> bool {
        self is Yield
    }

    /// Steps a bounded computation can still take.
    pub open spec fn spec_measure(self) -> nat {
        match self {
            Computation::Keypresses(k) => 0,
            Computation::Yield(y) => y.spec_measure(),
        }
    }
}

/// One suspendable unit of cooperative work, owned by an executor's task
/// table from spawn until it reports completion.
pub struct Task {
    id: TaskId,
    computation: Computation,
}

impl Task {
    /// Identifier number of the task.
    pub closed spec fn spec_id(self) -> u64 {
        self.id.spec_value()
    }

    /// Whether the task's computation has reported completion.
    pub open spec fn done(self) -> bool {
        self.spec_computation().done()
    }

    /// The task's computation.
    pub closed spec fn spec_computation(self) -> Computation {
        self.computation
    }

    /// Whether the computation completes after a bounded number of steps.
    pub open spec fn bounded(self) -> bool {
        self.spec_computation().bounded()
    }

    /// Steps a bounded task can still take.
    pub open spec fn spec_measure(self) -> nat {
        self.spec_computation().spec_measure()
    }

    /// The decoder state of a keyboard task; a task with a step bound
    /// carries none.
    pub closed spec fn spec_decoder(self) -> Option<KeyboardDecoder> {
        match self.computation {
            Computation::Keypresses(k) => Some(k.spec_decoder()),
            Computation::Yield(y) => None,
        }
    }

    /// Wrap a computation as a task under a fresh identifier.
    pub fn new(gen: &mut TaskIdGen, computation: Computation) -> (t: Task)
        requires
            old(gen).spec_next() < u64::MAX,
        ensures
            t.spec_id() == old(gen).spec_next(),
            final(gen).spec_next() == old(gen).spec_next() + 1,
            t.spec_computation() == computation,
            t.done() == computation.done(),
    {
        Task { id: TaskId::new(gen), computation }
    }

    /// The identifier as a number, for table lookups.
    pub fn id_value(&self) -> (r: u64)
        ensures
            r == self.spec_id(),
    {
        self.id.value()
    }

    /// Identifier of the task, for wake handles.
    pub fn task_id(&self) -> (r: TaskId)
        ensures
            r.spec_value() == self.spec_id(),
    {
        self.id
    }

    /// Advance the task's computation exactly one step. `waker` is the
    /// handle the computation may register to be woken later; the
    /// scancode bridge and the decoded-character sink are the state a
    /// step may read and extend.
    pub fn poll(
        &mut self,
        waker: TaskWaker,
        scancodes: &mut ScancodeStream,
        out: &mut Vec<char>,
    ) -> (r: Poll<()>)
        requires
            !old(self).done(),
        ensures
            final(self).spec_id() == old(self).spec_id(),
            (r is Ready) <==> final(self).done(),
            old(out)@.is_prefix_of(final(out)@),
            final(self).bounded() == old(self).bounded(),
            old(self).bounded() ==> final(self).spec_measure() + 1 == old(self).spec_measure(),
            (r is Ready && old(self).bounded()) ==> final(self).spec_measure() == 0,
            old(self).bounded() ==> (*final(scancodes) == *old(scancodes) && final(out)@ == old(out)@),
            // a keyboard task's step drains the queue, registers the wake
            // handle, and emits exactly the drained bytes' characters
            !old(self).bounded() ==> (r is Pending && final(scancodes).spec_items().len() == 0
                && final(scancodes).spec_waker() == Some(waker) && final(scancodes).spec_capacity()
                == old(scancodes).spec_capacity() && (old(self).spec_decoder() matches Some(kb)
                ==> (final(out)@ == old(out)@ + decoded_output(kb, old(scancodes).spec_items())
                    && final(self).spec_decoder() == (Some(decoder_after_all(
                    kb,
                    old(scancodes).spec_items(),
                )))))),
    {
        match &mut self.computation {
            Computation::Keypresses(k) => k.step(waker, scancodes, out),
            Computation::Yield(y) => y.step(),
        }
    }
}

} // verus!
