//! The kernel's executor: a table of spawned tasks and a bounded ready
//! queue of task identifiers.
//!
//! Interrupt handlers and wake handles push identifiers onto the ready
//! queue; the executor drains it, polling each named task exactly one
//! step, and removes a task the moment it reports completion — a
//! completed task is never polled again, because only table members are
//! polled and no completed task stays in the table. When the ready queue
//! is empty the kernel checks that emptiness with interrupts disabled and
//! halts the processor until the next interrupt; that sleep is a hardware
//! operation and lives outside this crate, deciding by [`Executor::is_idle`].

use crate::task::keyboard::{decoded_output, decoder_after_all, ScancodeStream};
use crate::task::queue::{
    id_queue_capacity, id_queue_is_empty, id_queue_items, id_queue_len, id_queue_new,
    id_queue_pop, id_queue_push,
};
use crate::task::{Poll, Task, TaskId};
use crossbeam_queue::ArrayQueue;
use vstd::prelude::*;

verus! {

/// Capacity of the ready queue: bounded so wake handles never allocate.
/// Exceeding it on spawn or wake is a fatal configuration error.
pub const TASK_QUEUE_SIZE: usize = 100;

/// A wake handle: names exactly one task, and invoking it re-enqueues
/// the identifier of that task on the executor's ready queue. It may be
/// invoked from any context, including interrupt handlers, since
/// enqueuing neither blocks nor allocates.
#[derive(Debug, Clone, Copy, PartialEq, Eq, Structural)]
pub struct TaskWaker {
    task_id: TaskId,
}

impl TaskWaker {
    /// The identifier of the task this handle wakes.
    pub closed spec fn spec_task_id(self) -> u64 {
        self.task_id.spec_value()
    }

    /// A wake handle for the given task.
    pub fn new_waker(task_id: TaskId) -> (w: TaskWaker)
        ensures
            w.spec_task_id() == task_id.spec_value(),
    {
        TaskWaker { task_id }
    }
}


/// How many times an identifier occurs among the drained entries: the
/// number of polls the drain owes the task carrying it.
pub open spec fn drained_count(drained: Seq<u64>, id: u64) -> int {
    drained.filter(|x: u64| x == id).len() as int
}

/// Draining one more identifier raises exactly its own count by one.
proof fn lemma_drained_count_push(drained: Seq<u64>, v: u64, id: u64)
    ensures
        drained_count(drained.push(v), id) == drained_count(drained, id) + (if v == id {
            1int
        } else {
            0int
        }),
{
    reveal(Seq::filter);
    let pred = |x: u64| x == id;
    assert(drained.push(v).drop_last() =~= drained);
    assert(drained.push(v).last() == v);
    if pred(v) {
        assert(drained.push(v).filter(pred) == drained.filter(pred).push(v));
    } else {
        assert(drained.push(v).filter(pred) == drained.filter(pred));
    }
}

/// An identifier the sequence holds is drained at least once.
proof fn lemma_drained_count_contains(s: Seq<u64>, x: u64)
    requires
        s.contains(x),
    ensures
        drained_count(s, x) >= 1,
    decreases s.len(),
{
    reveal(Seq::filter);
    assert(s.len() > 0);
    if s.last() == x {
        assert(drained_count(s.drop_last(), x) >= 0);
    } else {
        assert(s.drop_last().contains(x)) by {
            let j = choose|j: int| 0 <= j < s.len() && s[j] == x;
            assert(j != s.len() - 1);
            assert(s.drop_last()[j] == x);
        }
        lemma_drained_count_contains(s.drop_last(), x);
    }
}

/// An identifier the sequence does not hold is never drained.
proof fn lemma_drained_count_absent(s: Seq<u64>, x: u64)
    requires
        !s.contains(x),
    ensures
        drained_count(s, x) == 0,
    decreases s.len(),
{
    reveal(Seq::filter);
    if s.len() > 0 {
        assert(!s.drop_last().contains(x)) by {
            if s.drop_last().contains(x) {
                let j = choose|j: int| 0 <= j < s.drop_last().len() && s.drop_last()[j] == x;
                assert(s[j] == x);
            }
        }
        lemma_drained_count_absent(s.drop_last(), x);
        assert(s.last() != x) by {
            if s.last() == x {
                assert(s[s.len() - 1] == x);
            }
        }
    }
}

/// A prefix drains an identifier at most as often as the whole.
proof fn lemma_drained_count_take_le(s: Seq<u64>, k: int, x: u64)
    requires
        0 <= k <= s.len(),
    ensures
        drained_count(s.take(k), x) <= drained_count(s, x),
    decreases s.len() - k,
{
    if k == s.len() {
        assert(s.take(k) =~= s);
    } else {
        assert(s.drop_last().take(k) =~= s.take(k));
        lemma_drained_count_take_le(s.drop_last(), k, x);
        reveal(Seq::filter);
        assert(drained_count(s, x) >= drained_count(s.drop_last(), x));
    }
}

/// The drain names exactly one endless task: entry `i` of the old table
/// is endless, its identifier is drained exactly once, and no other
/// endless table task's identifier is drained at all.
pub open spec fn sole_keyboard_drain(orig_tasks: Seq<Task>, ready: Seq<u64>, i: int) -> bool {
    &&& 0 <= i < orig_tasks.len()
    &&& !orig_tasks[i].bounded()
    &&& drained_count(ready, orig_tasks[i].spec_id()) == 1
    &&& forall|i2: int|
        0 <= i2 < orig_tasks.len() && i2 != i && !(#[trigger] orig_tasks[i2].bounded())
            ==> drained_count(ready, orig_tasks[i2].spec_id()) == 0
}

/// How a table task relates to the task it was when a drain began, after
/// its identifier has been drained `polls` times: the same identifier and
/// kind of computation; untouched while never drained; each drained
/// occurrence of the identifier of a present task is exactly one poll,
/// and a poll advances a computation with a step bound by exactly one
/// step, so the measure drops by exactly the drained occurrences.
pub open spec fn task_descended(orig: Task, cur: Task, polls: int) -> bool {
    &&& cur.spec_id() == orig.spec_id()
    &&& cur.bounded() == orig.bounded()
    &&& (polls == 0 ==> cur == orig)
    &&& (cur.bounded() ==> cur.spec_measure() + polls == orig.spec_measure())
}

/// The task descends from some task of the table as it stood when the
/// drain began, where `drained` holds the identifiers drained so far.
pub open spec fn descended_from(orig_tasks: Seq<Task>, drained: Seq<u64>, cur: Task) -> bool {
    exists|i: int|
        0 <= i < orig_tasks.len() && #[trigger] task_descended(
            orig_tasks[i],
            cur,
            drained_count(drained, cur.spec_id()),
        )
}

/// Draining an identifier of some other task changes nothing about this
/// one's descent.
proof fn lemma_descended_stable(orig_tasks: Seq<Task>, drained: Seq<u64>, id: u64, t: Task)
    requires
        descended_from(orig_tasks, drained, t),
        t.spec_id() != id,
    ensures
        descended_from(orig_tasks, drained.push(id), t),
{
    let i = choose|i: int|
        0 <= i < orig_tasks.len() && #[trigger] task_descended(
            orig_tasks[i],
            t,
            drained_count(drained, t.spec_id()),
        );
    lemma_drained_count_push(drained, id, t.spec_id());
    assert(task_descended(orig_tasks[i], t, drained_count(drained.push(id), t.spec_id())));
}

/// Draining the identifier of this very task and polling it one step
/// keeps it a descendant: the step preserves identifier and kind, and
/// advances a bounded computation by exactly one step.
proof fn lemma_descended_step(
    orig_tasks: Seq<Task>,
    drained: Seq<u64>,
    id: u64,
    before: Task,
    stepped: Task,
)
    requires
        descended_from(orig_tasks, drained, before),
        before.spec_id() == id,
        stepped.spec_id() == before.spec_id(),
        stepped.bounded() == before.bounded(),
        before.bounded() ==> stepped.spec_measure() + 1 == before.spec_measure(),
    ensures
        descended_from(orig_tasks, drained.push(id), stepped),
{
    let i = choose|i: int|
        0 <= i < orig_tasks.len() && #[trigger] task_descended(
            orig_tasks[i],
            before,
            drained_count(drained, before.spec_id()),
        );
    lemma_drained_count_push(drained, id, id);
    assert(drained_count(drained, id) >= 0);
    if drained_count(drained, before.spec_id()) == 0 {
        assert(before == orig_tasks[i]);
    }
    assert(task_descended(orig_tasks[i], stepped, drained_count(drained.push(id), id)));
}

/// The executor: the task table and the ready queue.
pub struct Executor {
    tasks: Vec<Task>,
    task_queue: ArrayQueue<u64>,
}

impl Executor {
    /// The spawned tasks still running or suspended.
    pub closed spec fn spec_tasks(self) -> Seq<Task> {
        self.tasks@
    }

    /// The identifiers waiting to be polled, oldest first.
    pub closed spec fn spec_ready(self) -> Seq<u64> {
        id_queue_items(self.task_queue)
    }

    /// The ready queue's fixed capacity.
    pub closed spec fn spec_capacity(self) -> usize {
        id_queue_capacity(self.task_queue)
    }

    /// Whether a task with this identifier is in the table.
    pub open spec fn contains_id(self, id: u64) -> bool {
        exists|i: int|
            0 <= i < self.spec_tasks().len() && #[trigger] self.spec_tasks()[i].spec_id() == id
    }

    /// Table identifiers are unique, and no completed task stays in the
    /// table — so no task is ever polled after reporting completion.
    pub open spec fn wf(self) -> bool {
        &&& forall|i: int, j: int|
            0 <= i < j < self.spec_tasks().len() ==> #[trigger] self.spec_tasks()[i].spec_id()
                != #[trigger] self.spec_tasks()[j].spec_id()
        &&& forall|i: int| 0 <= i < self.spec_tasks().len() ==> !(#[trigger] self.spec_tasks()[i].done())
    }

    /// An executor with no tasks and an empty ready queue.
    pub fn new() -> (r: Executor)
        ensures
            r.wf(),
            r.spec_tasks().len() == 0,
            r.spec_ready().len() == 0,
            r.spec_capacity() == TASK_QUEUE_SIZE,
    {
        Executor { tasks: Vec::new(), task_queue: id_queue_new(TASK_QUEUE_SIZE) }
    }

    /// How many tasks the table holds.
    pub fn task_count(&self) -> (r: usize)
        ensures
            r == self.spec_tasks().len(),
    {
        self.tasks.len()
    }

    /// How many identifiers wait in the ready queue; callers test this
    /// against the capacity before spawning or waking.
    pub fn ready_len(&self) -> (r: usize)
        ensures
            r == self.spec_ready().len(),
    {
        id_queue_len(&self.task_queue)
    }

    /// Whether the ready queue is empty: the decision behind sleeping.
    /// The kernel calls this with interrupts disabled and halts only if
    /// it holds, so a wake racing the check cannot be missed.
    pub fn is_idle(&self) -> (r: bool)
        ensures
            r <==> self.spec_ready().len() == 0,
    {
        id_queue_is_empty(&self.task_queue)
    }

    /// Add a task to the table and mark it ready. An identifier
    /// collision is structurally impossible under monotonic assignment
    /// and a full ready queue is a fatal configuration error, so both
    /// are excluded rather than handled.
    pub fn spawn(&mut self, task: Task)
        requires
            old(self).wf(),
            !task.done(),
            !old(self).contains_id(task.spec_id()),
            old(self).spec_ready().len() < old(self).spec_capacity(),
        ensures
            final(self).wf(),
            final(self).spec_tasks() == old(self).spec_tasks().push(task),
            final(self).spec_ready() == old(self).spec_ready().push(task.spec_id()),
            final(self).spec_capacity() == old(self).spec_capacity(),
    {
        let id = task.id_value();
        self.tasks.push(task);
        let pushed = id_queue_push(&mut self.task_queue, id);
        proof {
            assert(pushed);
            assert(self.spec_tasks() == old(self).spec_tasks().push(task));
            assert forall|i: int, j: int|
                0 <= i < j < self.spec_tasks().len() implies #[trigger] self.spec_tasks()[i].spec_id()
                != #[trigger] self.spec_tasks()[j].spec_id() by {
                if j == self.spec_tasks().len() - 1 {
                    assert(old(self).spec_tasks()[i].spec_id() != task.spec_id());
                }
            }
            assert forall|i: int|
                0 <= i < self.spec_tasks().len() implies !(#[trigger] self.spec_tasks()[i].done()) by {
                if i < self.spec_tasks().len() - 1 {
                    assert(!old(self).spec_tasks()[i].done());
                } else {
                    assert(self.spec_tasks()[i] == task);
                }
            }
            assert(self.wf());
        }
    }

    /// Invoke a wake handle: re-enqueue the identifier of its task. Called by
    /// `add_scancode` on the interrupt path and by anything holding a
    /// handle; a full ready queue is a fatal configuration error, so it
    /// is excluded.
    pub fn wake(&mut self, waker: &TaskWaker)
        requires
            old(self).wf(),
            old(self).spec_ready().len() < old(self).spec_capacity(),
        ensures
            final(self).wf(),
            final(self).spec_tasks() == old(self).spec_tasks(),
            final(self).spec_ready() == old(self).spec_ready().push(waker.spec_task_id()),
            final(self).spec_capacity() == old(self).spec_capacity(),
    {
        let pushed = id_queue_push(&mut self.task_queue, waker.task_id.value());
        proof {
            assert(pushed);
            assert(self.spec_tasks() == old(self).spec_tasks());
            assert(self.wf());
        }
    }

    /// Index of the task with this identifier, if it is in the table.
    fn position_of(&self, id: u64) -> (r: Option<usize>)
        ensures
            (r matches Some(i) ==> i < self.spec_tasks().len() && self.spec_tasks()[i as int].spec_id()
                == id),
            r is None ==> !self.contains_id(id),
    {
        let mut i: usize = 0;
        while i < self.tasks.len()
            invariant
                i <= self.spec_tasks().len(),
                forall|k: int| 0 <= k < i ==> #[trigger] self.spec_tasks()[k].spec_id() != id,
            decreases self.spec_tasks().len() - i,
        {
            if self.tasks[i].id_value() == id {
                return Some(i);
            }
            i = i + 1;
        }
        None
    }

    /// Drain the ready queue: poll each named task that is still in the
    /// table exactly one step, removing it the moment it reports
    /// completion. Identifiers of departed tasks are skipped. Afterwards
    /// the ready queue is empty; a task whose identifier was never in the
    /// queue is untouched, every survivor descends from an old table task
    /// (advanced by exactly its identifier's drained occurrences), and a
    /// task that never completes is still in the table. A drained
    /// keyboard task empties the scancode queue, registers its wake
    /// handle, and — when it is the only one the drain names — extends
    /// the output by exactly the queued bytes' decoded characters.
    #[verifier::rlimit(60)]
    pub fn run_ready_tasks(&mut self, scancodes: &mut ScancodeStream, out: &mut Vec<char>)
        requires
            old(self).wf(),
        ensures
            final(self).wf(),
            final(self).spec_ready().len() == 0,
            final(self).spec_capacity() == old(self).spec_capacity(),
            forall|id: u64| #[trigger] final(self).contains_id(id) ==> old(self).contains_id(id),
            // a task whose identifier was not in the ready queue is untouched
            forall|i: int|
                (0 <= i < old(self).spec_tasks().len() && !old(self).spec_ready().contains(
                    old(self).spec_tasks()[i].spec_id(),
                ) ==> (exists|j: int|
                    0 <= j < final(self).spec_tasks().len() && #[trigger] final(self).spec_tasks()[j]
                        == old(self).spec_tasks()[i])),
            // every survivor descends from an old table task: same
            // identifier and kind, equal if its identifier was never
            // drained, at least one step further if it was
            forall|j: int|
                0 <= j < final(self).spec_tasks().len() ==> descended_from(
                    old(self).spec_tasks(),
                    old(self).spec_ready(),
                    #[trigger] final(self).spec_tasks()[j],
                ),
            // a task that never completes is never removed
            forall|i: int|
                (0 <= i < old(self).spec_tasks().len() && !(#[trigger] old(self).spec_tasks()[i].bounded())
                    ==> final(self).contains_id(old(self).spec_tasks()[i].spec_id())),
            // a bounded task leaves the table only by completing: each
            // drained occurrence of its identifier is one step, so its
            // whole measure must fit in the wakes the queue held for it
            forall|i: int|
                (0 <= i < old(self).spec_tasks().len() && (#[trigger] old(self).spec_tasks()[i].bounded())
                    && !final(self).contains_id(old(self).spec_tasks()[i].spec_id())
                    ==> old(self).spec_tasks()[i].spec_measure() <= drained_count(
                    old(self).spec_ready(),
                    old(self).spec_tasks()[i].spec_id(),
                )),
            old(out)@.is_prefix_of(final(out)@),
            final(scancodes).spec_capacity() == old(scancodes).spec_capacity(),
            // a drain that names no endless task leaves the output and
            // the scancode bridge untouched
            (forall|i: int|
                0 <= i < old(self).spec_tasks().len() && !(#[trigger] old(self).spec_tasks()[i].bounded())
                    ==> !old(self).spec_ready().contains(old(self).spec_tasks()[i].spec_id()))
                ==> (*final(scancodes) == *old(scancodes) && final(out)@ == old(out)@),
            // a drained identifier of an endless table task means that
            // task was polled: the drain leaves the scancode queue empty
            // with a wake handle registered
            (exists|i: int|
                0 <= i < old(self).spec_tasks().len() && !(#[trigger] old(self).spec_tasks()[i].bounded())
                    && old(self).spec_ready().contains(old(self).spec_tasks()[i].spec_id()))
                ==> (final(scancodes).spec_items().len() == 0 && (final(scancodes).spec_waker() is Some)),
            // when the drain names exactly one endless task, the whole
            // drain's output is that task's: the queued bytes decoded
            // from its decoder state, with its wake handle registered
            forall|i: int|
                #[trigger] sole_keyboard_drain(old(self).spec_tasks(), old(self).spec_ready(), i)
                    ==> ((old(self).spec_tasks()[i].spec_decoder() matches Some(kb) && final(out)@
                    == old(out)@ + decoded_output(kb, old(scancodes).spec_items()) && final(scancodes).spec_items().len() == 0 && (exists|w: TaskWaker|
                    final(scancodes).spec_waker() == Some(w) && w.spec_task_id() == old(self).spec_tasks()[i].spec_id()) && (exists|j: int|
                    0 <= j < final(self).spec_tasks().len() && (#[trigger] final(self).spec_tasks()[j]).spec_id() == old(self).spec_tasks()[i].spec_id() && final(self).spec_tasks()[j].spec_decoder() == Some(
                        decoder_after_all(kb, old(scancodes).spec_items()),
                    )))),
    {
        let ghost done_count: int = 0;
        proof {
            // at entry the table is untouched: every old task is present
            assert forall|i: int| 0 <= i < old(self).spec_tasks().len() implies self.contains_id(
                old(self).spec_tasks()[i].spec_id(),
            ) by {
                assert(self.spec_tasks()[i].spec_id() == old(self).spec_tasks()[i].spec_id());
            }
            // at entry nothing is drained at all
            assert forall|x: u64| #[trigger] drained_count(
                old(self).spec_ready().take(0),
                x,
            ) == 0 by {
                assert(old(self).spec_ready().take(0) =~= Seq::<u64>::empty());
                assert(!Seq::<u64>::empty().contains(x));
                lemma_drained_count_absent(Seq::<u64>::empty(), x);
            }
            // at entry nothing is drained: every task descends from itself
            assert(old(self).spec_ready().take(0) =~= Seq::<u64>::empty());
            assert forall|j: int| 0 <= j < self.spec_tasks().len() implies descended_from(
                old(self).spec_tasks(),
                old(self).spec_ready().take(0),
                #[trigger] self.spec_tasks()[j],
            ) by {
                assert(drained_count(old(self).spec_ready().take(0), self.spec_tasks()[j].spec_id())
                    == 0) by {
                    reveal(Seq::filter);
                    assert(old(self).spec_ready().take(0) =~= Seq::<u64>::empty());
                    assert(Seq::<u64>::empty().filter(
                        |x: u64| x == self.spec_tasks()[j].spec_id(),
                    ) =~= Seq::<u64>::empty());
                }
                assert(task_descended(
                    old(self).spec_tasks()[j],
                    self.spec_tasks()[j],
                    drained_count(
                        old(self).spec_ready().take(0),
                        self.spec_tasks()[j].spec_id(),
                    ),
                ));
            }
        }
        while !id_queue_is_empty(&self.task_queue)
            invariant
                old(self).wf(),
                self.wf(),
                self.spec_capacity() == old(self).spec_capacity(),
                self.spec_ready() == old(self).spec_ready().skip(done_count),
                0 <= done_count <= old(self).spec_ready().len(),
                forall|id: u64| #[trigger] self.contains_id(id) ==> old(self).contains_id(id),
                forall|i: int|
                    (0 <= i < old(self).spec_tasks().len() && !old(self).spec_ready().contains(
                        old(self).spec_tasks()[i].spec_id(),
                    ) ==> (exists|j: int|
                        0 <= j < self.spec_tasks().len() && #[trigger] self.spec_tasks()[j] == old(self).spec_tasks()[i])),
                forall|j: int|
                    0 <= j < self.spec_tasks().len() ==> descended_from(
                        old(self).spec_tasks(),
                        old(self).spec_ready().take(done_count),
                        #[trigger] self.spec_tasks()[j],
                    ),
                forall|i: int|
                    (0 <= i < old(self).spec_tasks().len() && !(#[trigger] old(self).spec_tasks()[i].bounded())
                        ==> self.contains_id(old(self).spec_tasks()[i].spec_id())),
                forall|i: int|
                    (0 <= i < old(self).spec_tasks().len() && (#[trigger] old(self).spec_tasks()[i].bounded())
                        && !self.contains_id(old(self).spec_tasks()[i].spec_id())
                        ==> old(self).spec_tasks()[i].spec_measure() <= drained_count(
                        old(self).spec_ready().take(done_count),
                        old(self).spec_tasks()[i].spec_id(),
                    )),
                (forall|i: int|
                    0 <= i < old(self).spec_tasks().len() && !(#[trigger] old(self).spec_tasks()[i].bounded())
                        ==> drained_count(
                        old(self).spec_ready().take(done_count),
                        old(self).spec_tasks()[i].spec_id(),
                    ) == 0) ==> (*scancodes == *old(scancodes) && out@ == old(out)@),
                forall|i: int|
                    (0 <= i < old(self).spec_tasks().len() && !(#[trigger] old(self).spec_tasks()[i].bounded())
                        && drained_count(
                        old(self).spec_ready().take(done_count),
                        old(self).spec_tasks()[i].spec_id(),
                    ) >= 1) ==> (scancodes.spec_items().len() == 0 && (scancodes.spec_waker() is Some)),
                forall|i: int|
                    #[trigger] sole_keyboard_drain(old(self).spec_tasks(), old(self).spec_ready(), i)
                        ==> (if drained_count(
                        old(self).spec_ready().take(done_count),
                        old(self).spec_tasks()[i].spec_id(),
                    ) == 0 {
                        out@ == old(out)@ && *scancodes == *old(scancodes)
                    } else {
                        (old(self).spec_tasks()[i].spec_decoder() matches Some(kb) && out@ == old(out)@ + decoded_output(kb, old(scancodes).spec_items())
                            && scancodes.spec_items().len() == 0 && (exists|w: TaskWaker|
                            scancodes.spec_waker() == Some(w) && w.spec_task_id() == old(self).spec_tasks()[i].spec_id()) && (exists|j: int|
                            0 <= j < self.spec_tasks().len() && (#[trigger] self.spec_tasks()[j]).spec_id() == old(self).spec_tasks()[i].spec_id() && self.spec_tasks()[j].spec_decoder()
                                == Some(decoder_after_all(kb, old(scancodes).spec_items()))))
                    }),
                old(out)@.is_prefix_of(out@),
                scancodes.spec_capacity() == old(scancodes).spec_capacity(),
            decreases self.spec_ready().len(),
        {
            let ghost self0 = *self;
            let ghost dc0 = done_count;
            let id = match id_queue_pop(&mut self.task_queue) {
                Some(i) => i,
                None => {
                    proof {
                        assert(false);
                    }
                    return ;
                },
            };
            let ghost out_before = out@;
            proof {
                assert(self.spec_tasks() == self0.spec_tasks());
                // the popped identifier is an entry of the original ready
                // queue, so tasks outside that queue are not the one
                // being polled
                assert(id == old(self).spec_ready()[dc0]);
                assert(old(self).spec_ready().contains(id));
                assert(self0.spec_ready().skip(1) =~= old(self).spec_ready().skip(dc0 + 1));
                done_count = done_count + 1;
                assert(old(self).spec_ready().take(done_count) =~= old(self).spec_ready().take(
                    dc0,
                ).push(id));
                assert forall|tid: u64|
                    #[trigger] drained_count(old(self).spec_ready().take(done_count), tid)
                        == drained_count(old(self).spec_ready().take(dc0), tid) + (if tid == id {
                        1int
                    } else {
                        0int
                    }) by {
                    lemma_drained_count_push(old(self).spec_ready().take(dc0), id, tid);
                }
                assert(drained_count(old(self).spec_ready().take(done_count), id) >= 1);
                lemma_drained_count_take_le(old(self).spec_ready(), done_count, id);
            }
            match self.position_of(id) {
                None => {
                    proof {
                        assert forall|id2: u64| #[trigger] self.contains_id(id2) implies old(self).contains_id(id2) by {
                            let k = choose|k: int|
                                0 <= k < self.spec_tasks().len()
                                    && #[trigger] self.spec_tasks()[k].spec_id() == id2;
                            assert(self0.spec_tasks()[k].spec_id() == id2);
                            assert(self0.contains_id(id2));
                        }
                        assert forall|i: int|
                            0 <= i < old(self).spec_tasks().len() && !old(self).spec_ready().contains(old(self).spec_tasks()[i].spec_id()) implies (
                        exists|j: int|
                            0 <= j < self.spec_tasks().len() && #[trigger] self.spec_tasks()[j]
                                == old(self).spec_tasks()[i]) by {
                            let j0 = choose|j: int|
                                0 <= j < self0.spec_tasks().len()
                                    && #[trigger] self0.spec_tasks()[j] == old(self).spec_tasks()[i];
                            assert(self.spec_tasks()[j0] == old(self).spec_tasks()[i]);
                        }
                        // no table task carries the drained identifier, so
                        // every descent is unchanged by it
                        assert forall|j: int| 0 <= j < self.spec_tasks().len() implies
                            descended_from(
                            old(self).spec_tasks(),
                            old(self).spec_ready().take(done_count),
                            #[trigger] self.spec_tasks()[j],
                        ) by {
                            assert(self.spec_tasks()[j].spec_id() != id) by {
                                if self.spec_tasks()[j].spec_id() == id {
                                    assert(self.contains_id(id));
                                }
                            }
                            assert(descended_from(
                                old(self).spec_tasks(),
                                old(self).spec_ready().take(dc0),
                                self0.spec_tasks()[j],
                            ));
                            lemma_descended_stable(
                                old(self).spec_tasks(),
                                old(self).spec_ready().take(dc0),
                                id,
                                self.spec_tasks()[j],
                            );
                        }
                        assert forall|i: int|
                            0 <= i < old(self).spec_tasks().len() && !(old(self).spec_tasks()[i].bounded()) implies self.contains_id(
                            old(self).spec_tasks()[i].spec_id(),
                        ) by {
                            let tid = old(self).spec_tasks()[i].spec_id();
                            assert(self0.contains_id(tid));
                            let k = choose|k: int|
                                0 <= k < self0.spec_tasks().len()
                                    && #[trigger] self0.spec_tasks()[k].spec_id() == tid;
                            assert(self.spec_tasks()[k].spec_id() == tid);
                        }
                        assert forall|i: int|
                            (0 <= i < old(self).spec_tasks().len() && (old(self).spec_tasks()[i].bounded()) && !self.contains_id(
                                old(self).spec_tasks()[i].spec_id(),
                            )) implies old(self).spec_tasks()[i].spec_measure() <= drained_count(
                            old(self).spec_ready().take(done_count),
                            old(self).spec_tasks()[i].spec_id(),
                        ) by {
                            let tid = old(self).spec_tasks()[i].spec_id();
                            assert(!self0.contains_id(tid)) by {
                                if self0.contains_id(tid) {
                                    let k = choose|k: int|
                                        0 <= k < self0.spec_tasks().len()
                                            && #[trigger] self0.spec_tasks()[k].spec_id() == tid;
                                    assert(self.spec_tasks()[k].spec_id() == tid);
                                }
                            }
                        }
                        // the skipped identifier belongs to no endless
                        // table task, so none of their counts moved and
                        // neither the output nor the bridge did
                        assert forall|i: int|
                            0 <= i < old(self).spec_tasks().len() && !(old(self).spec_tasks()[i].bounded()) implies old(
                            self,
                        ).spec_tasks()[i].spec_id() != id by {
                            let tid = old(self).spec_tasks()[i].spec_id();
                            assert(self0.contains_id(tid));
                            let k = choose|k: int|
                                0 <= k < self0.spec_tasks().len()
                                    && #[trigger] self0.spec_tasks()[k].spec_id() == tid;
                            if tid == id {
                                assert(self.spec_tasks()[k].spec_id() == id);
                                assert(self.contains_id(id));
                            }
                        }
                    }
                },
                Some(idx) => {
                    proof {
                        assert(!self.spec_tasks()[idx as int].done());
                    }
                    let waker = TaskWaker::new_waker(self.tasks[idx].task_id());
                    let t = &mut self.tasks[idx];
                    let polled = t.poll(waker, scancodes, out);
                    let ghost stepped = self.spec_tasks();
                    proof {
                        assert(stepped =~= self0.spec_tasks().update(
                            idx as int,
                            stepped[idx as int],
                        ));
                        assert(stepped[idx as int].spec_id() == self0.spec_tasks()[idx as int].spec_id());
                        assert(out_before.is_prefix_of(out@));
                        assert(old(out)@.is_prefix_of(out@)) by {
                            assert(out@.subrange(0, old(out)@.len() as int) =~= old(out)@);
                        }
                        // every descent survives this poll: the polled
                        // task steps, and no other task carries its
                        // identifier
                        assert forall|j: int| 0 <= j < stepped.len() implies descended_from(
                            old(self).spec_tasks(),
                            old(self).spec_ready().take(done_count),
                            #[trigger] stepped[j],
                        ) by {
                            assert(descended_from(
                                old(self).spec_tasks(),
                                old(self).spec_ready().take(dc0),
                                self0.spec_tasks()[j],
                            ));
                            if j == idx {
                                lemma_descended_step(
                                    old(self).spec_tasks(),
                                    old(self).spec_ready().take(dc0),
                                    id,
                                    self0.spec_tasks()[idx as int],
                                    stepped[idx as int],
                                );
                            } else {
                                assert(stepped[j] == self0.spec_tasks()[j]);
                                assert(self0.spec_tasks()[j].spec_id() != id);
                                lemma_descended_stable(
                                    old(self).spec_tasks(),
                                    old(self).spec_ready().take(dc0),
                                    id,
                                    stepped[j],
                                );
                            }
                        }
                    }
                    match polled {
                        Poll::Ready(_) => {
                            proof {
                                // a task that reports completion is a
                                // bounded computation: the endless
                                // keyboard task never completes
                                assert(stepped[idx as int].done());
                                assert(stepped[idx as int].bounded());
                            }
                            self.tasks.remove(idx);
                            proof {
                                assert(self.spec_tasks() =~= stepped.remove(idx as int));
                                assert forall|k: int|
                                    0 <= k < self.spec_tasks().len() implies #[trigger] self.spec_tasks()[k]
                                    == (if k < idx {
                                    stepped[k]
                                } else {
                                    stepped[k + 1]
                                }) by {}
                                assert forall|id2: u64| #[trigger] self.contains_id(id2) implies
                                    old(self).contains_id(id2) by {
                                    let k = choose|k: int|
                                        0 <= k < self.spec_tasks().len()
                                            && #[trigger] self.spec_tasks()[k].spec_id() == id2;
                                    if k < idx {
                                        assert(self0.spec_tasks()[k].spec_id() == id2);
                                    } else {
                                        assert(self0.spec_tasks()[k + 1].spec_id() == id2);
                                    }
                                    assert(self0.contains_id(id2));
                                }
                                assert(self.wf());
                                assert forall|i: int|
                                    0 <= i < old(self).spec_tasks().len() && !old(self).spec_ready().contains(old(self).spec_tasks()[i].spec_id()) implies (
                                exists|j: int|
                                    0 <= j < self.spec_tasks().len()
                                        && #[trigger] self.spec_tasks()[j] == old(self).spec_tasks()[i]) by {
                                    let j0 = choose|j: int|
                                        0 <= j < self0.spec_tasks().len()
                                            && #[trigger] self0.spec_tasks()[j] == old(self).spec_tasks()[i];
                                    // the identifier of the polled task came off the ready
                                    // queue, so it is not this untouched task
                                    assert(self0.spec_tasks()[idx as int].spec_id() == id);
                                    assert(j0 != idx);
                                    if j0 < idx {
                                        assert(self.spec_tasks()[j0] == old(self).spec_tasks()[i]);
                                    } else {
                                        assert(self.spec_tasks()[j0 - 1] == old(self).spec_tasks()[i]);
                                    }
                                }
                                assert forall|j: int| 0 <= j < self.spec_tasks().len() implies
                                    descended_from(
                                    old(self).spec_tasks(),
                                    old(self).spec_ready().take(done_count),
                                    #[trigger] self.spec_tasks()[j],
                                ) by {
                                    if j < idx {
                                        assert(self.spec_tasks()[j] == stepped[j]);
                                    } else {
                                        assert(self.spec_tasks()[j] == stepped[j + 1]);
                                    }
                                }
                                // the removed task was bounded, so the
                                // endless tasks all survive the removal
                                assert forall|i: int|
                                    0 <= i < old(self).spec_tasks().len() && !(old(self).spec_tasks()[i].bounded()) implies self.contains_id(
                                    old(self).spec_tasks()[i].spec_id(),
                                ) by {
                                    let tid = old(self).spec_tasks()[i].spec_id();
                                    assert(self0.contains_id(tid));
                                    let k = choose|k: int|
                                        0 <= k < self0.spec_tasks().len()
                                            && #[trigger] self0.spec_tasks()[k].spec_id() == tid;
                                    assert(k != idx) by {
                                        if k == idx {
                                            // the task at idx descends from
                                            // old task i, so it is endless
                                            // and cannot have completed
                                            assert(descended_from(
                                                old(self).spec_tasks(),
                                                old(self).spec_ready().take(dc0),
                                                self0.spec_tasks()[idx as int],
                                            ));
                                            let i2 = choose|i2: int|
                                                0 <= i2 < old(self).spec_tasks().len()
                                                    && #[trigger] task_descended(
                                                    old(self).spec_tasks()[i2],
                                                    self0.spec_tasks()[idx as int],
                                                    drained_count(
                                                        old(self).spec_ready().take(dc0),
                                                        self0.spec_tasks()[idx as int].spec_id(),
                                                    ),
                                                );
                                            assert(old(self).spec_tasks()[i2].spec_id() == tid);
                                            assert(i2 == i);
                                            assert(!self0.spec_tasks()[idx as int].bounded());
                                            assert(stepped[idx as int].bounded()
                                                == self0.spec_tasks()[idx as int].bounded());
                                            assert(false);
                                        }
                                    }
                                    if k < idx {
                                        assert(self.spec_tasks()[k].spec_id() == tid);
                                    } else {
                                        assert(self.spec_tasks()[k - 1].spec_id() == tid);
                                    }
                                }
                                assert forall|i: int|
                                    (0 <= i < old(self).spec_tasks().len() && (old(self).spec_tasks()[i].bounded()) && !self.contains_id(
                                        old(self).spec_tasks()[i].spec_id(),
                                    )) implies old(self).spec_tasks()[i].spec_measure()
                                    <= drained_count(
                                    old(self).spec_ready().take(done_count),
                                    old(self).spec_tasks()[i].spec_id(),
                                ) by {
                                    let tid = old(self).spec_tasks()[i].spec_id();
                                    if self0.contains_id(tid) {
                                        // the only identifier the table
                                        // lost is the completed task's
                                        let k = choose|k: int|
                                            0 <= k < self0.spec_tasks().len()
                                                && #[trigger] self0.spec_tasks()[k].spec_id()
                                                == tid;
                                        assert(k == idx) by {
                                            if k != idx {
                                                if k < idx {
                                                    assert(self.spec_tasks()[k].spec_id() == tid);
                                                } else {
                                                    assert(self.spec_tasks()[k - 1].spec_id()
                                                        == tid);
                                                }
                                                assert(self.contains_id(tid));
                                            }
                                        }
                                        assert(tid == id);
                                        // the completed step left measure
                                        // zero, so the whole measure fits
                                        // in the drained occurrences
                                        assert(descended_from(
                                            old(self).spec_tasks(),
                                            old(self).spec_ready().take(done_count),
                                            stepped[idx as int],
                                        ));
                                        let i2 = choose|i2: int|
                                            0 <= i2 < old(self).spec_tasks().len()
                                                && #[trigger] task_descended(
                                                old(self).spec_tasks()[i2],
                                                stepped[idx as int],
                                                drained_count(
                                                    old(self).spec_ready().take(done_count),
                                                    stepped[idx as int].spec_id(),
                                                ),
                                            );
                                        assert(old(self).spec_tasks()[i2].spec_id() == tid);
                                        assert(i2 == i) by {
                                            if i2 < i {
                                                assert(old(self).spec_tasks()[i2].spec_id() != old(self).spec_tasks()[i].spec_id());
                                            }
                                            if i < i2 {
                                                assert(old(self).spec_tasks()[i].spec_id() != old(self).spec_tasks()[i2].spec_id());
                                            }
                                        }
                                        assert(stepped[idx as int].bounded());
                                        assert(self0.spec_tasks()[idx as int].bounded());
                                        assert(stepped[idx as int].spec_measure() == 0);
                                    }
                                }
                            }
                        },
                        Poll::Pending => {
                            proof {
                                assert forall|id2: u64| #[trigger] self.contains_id(id2) implies
                                    old(self).contains_id(id2) by {
                                    let k = choose|k: int|
                                        0 <= k < self.spec_tasks().len()
                                            && #[trigger] self.spec_tasks()[k].spec_id() == id2;
                                    assert(self0.spec_tasks()[k].spec_id() == id2);
                                    assert(self0.contains_id(id2));
                                }
                                assert forall|i: int, j: int|
                                    0 <= i < j < self.spec_tasks().len() implies #[trigger] self.spec_tasks()[i].spec_id()
                                    != #[trigger] self.spec_tasks()[j].spec_id() by {
                                    assert(self.spec_tasks()[i].spec_id() == self0.spec_tasks()[i].spec_id());
                                    assert(self.spec_tasks()[j].spec_id() == self0.spec_tasks()[j].spec_id());
                                }
                                assert forall|i: int|
                                    0 <= i < self.spec_tasks().len() implies !(
                                #[trigger] self.spec_tasks()[i].done()) by {
                                    if i != idx {
                                        assert(self.spec_tasks()[i] == self0.spec_tasks()[i]);
                                    }
                                }
                                assert(self.wf());
                                assert forall|i: int|
                                    0 <= i < old(self).spec_tasks().len() && !old(self).spec_ready().contains(old(self).spec_tasks()[i].spec_id()) implies (
                                exists|j: int|
                                    0 <= j < self.spec_tasks().len()
                                        && #[trigger] self.spec_tasks()[j] == old(self).spec_tasks()[i]) by {
                                    let j0 = choose|j: int|
                                        0 <= j < self0.spec_tasks().len()
                                            && #[trigger] self0.spec_tasks()[j] == old(self).spec_tasks()[i];
                                    assert(self0.spec_tasks()[idx as int].spec_id() == id);
                                    assert(j0 != idx);
                                    assert(self.spec_tasks()[j0] == old(self).spec_tasks()[i]);
                                }
                                assert forall|i: int|
                                    0 <= i < old(self).spec_tasks().len() && !(old(self).spec_tasks()[i].bounded()) implies self.contains_id(
                                    old(self).spec_tasks()[i].spec_id(),
                                ) by {
                                    let tid = old(self).spec_tasks()[i].spec_id();
                                    assert(self0.contains_id(tid));
                                    let k = choose|k: int|
                                        0 <= k < self0.spec_tasks().len()
                                            && #[trigger] self0.spec_tasks()[k].spec_id() == tid;
                                    assert(self.spec_tasks()[k].spec_id() == tid);
                                }
                                assert forall|i: int|
                                    (0 <= i < old(self).spec_tasks().len() && (old(self).spec_tasks()[i].bounded()) && !self.contains_id(
                                        old(self).spec_tasks()[i].spec_id(),
                                    )) implies old(self).spec_tasks()[i].spec_measure()
                                    <= drained_count(
                                    old(self).spec_ready().take(done_count),
                                    old(self).spec_tasks()[i].spec_id(),
                                ) by {
                                    let tid = old(self).spec_tasks()[i].spec_id();
                                    assert(!self0.contains_id(tid)) by {
                                        if self0.contains_id(tid) {
                                            let k = choose|k: int|
                                                0 <= k < self0.spec_tasks().len()
                                                    && #[trigger] self0.spec_tasks()[k].spec_id()
                                                    == tid;
                                            assert(self.spec_tasks()[k].spec_id() == tid);
                                        }
                                    }
                                }
                            }
                        },
                    }
                },
            }
        }
        proof {
            assert(old(self).spec_ready().take(done_count) =~= old(self).spec_ready());
            // no endless identifier drained: their counts over the whole
            // queue are zero, so output and bridge are untouched
            if (forall|i: int|
                0 <= i < old(self).spec_tasks().len() && !(#[trigger] old(self).spec_tasks()[i].bounded())
                    ==> !old(self).spec_ready().contains(old(self).spec_tasks()[i].spec_id())) {
                assert forall|i: int|
                    0 <= i < old(self).spec_tasks().len() && !(old(self).spec_tasks()[i].bounded()) implies drained_count(
                    old(self).spec_ready().take(done_count),
                    old(self).spec_tasks()[i].spec_id(),
                ) == 0 by {
                    lemma_drained_count_absent(
                        old(self).spec_ready(),
                        old(self).spec_tasks()[i].spec_id(),
                    );
                }
            }
            // some endless identifier drained: its count is positive
            if (exists|i: int|
                0 <= i < old(self).spec_tasks().len() && !(#[trigger] old(self).spec_tasks()[i].bounded())
                    && old(self).spec_ready().contains(old(self).spec_tasks()[i].spec_id())) {
                let i = choose|i: int|
                    0 <= i < old(self).spec_tasks().len() && !(#[trigger] old(self).spec_tasks()[i].bounded())
                        && old(self).spec_ready().contains(old(self).spec_tasks()[i].spec_id());
                lemma_drained_count_contains(
                    old(self).spec_ready(),
                    old(self).spec_tasks()[i].spec_id(),
                );
                assert(drained_count(
                    old(self).spec_ready().take(done_count),
                    old(self).spec_tasks()[i].spec_id(),
                ) >= 1);
            }
            assert forall|j: int| 0 <= j < self.spec_tasks().len() implies descended_from(
                old(self).spec_tasks(),
                old(self).spec_ready(),
                #[trigger] self.spec_tasks()[j],
            ) by {
                assert(descended_from(
                    old(self).spec_tasks(),
                    old(self).spec_ready().take(done_count),
                    self.spec_tasks()[j],
                ));
            }
        }
    }

}

/// No task is ever polled after it reports completion: the executor
/// polls only tasks of its table, and a well-formed table holds no
/// completed task — `run_ready_tasks` removes a task the moment its poll
/// reports completion.
pub proof fn lemma_no_completed_task_in_table(e: Executor, i: int)
    requires
        e.wf(),
        0 <= i < e.spec_tasks().len(),
    ensures
        !e.spec_tasks()[i].done(),
{
}

} // verus!
