//! A minimal executor that busy-polls its tasks in round-robin order
//! until every one has completed, with no wake notifications and no
//! sleeping.
//!
//! Because it re-polls suspended tasks immediately instead of waiting for
//! a wake, running it to completion demands tasks that finish after a
//! bounded number of steps; the endless keyboard task belongs on the
//! waking executor instead.

use crate::task::executor::TaskWaker;
use crate::task::keyboard::ScancodeStream;
use crate::task::{Poll, Task};
use std::collections::VecDeque;
use vstd::prelude::*;

verus! {

/// Total steps the queued tasks can still take; the measure that shrinks
/// with every poll of a bounded task.
pub open spec fn queue_measure(s: Seq<Task>) -> nat
    decreases s.len(),
{
    if s.len() == 0 {
        0
    } else {
        s[0].spec_measure() + queue_measure(s.drop_first())
    }
}

/// Appending a task adds its measure.
pub proof fn lemma_queue_measure_push(s: Seq<Task>, t: Task)
    ensures
        queue_measure(s.push(t)) == queue_measure(s) + t.spec_measure(),
    decreases s.len(),
{
    if s.len() == 0 {
        assert(s.push(t).drop_first() =~= Seq::<Task>::empty());
        assert(queue_measure(Seq::<Task>::empty()) == 0);
        assert(s.push(t)[0] == t);
        assert(queue_measure(s.push(t)) == t.spec_measure() + queue_measure(
            Seq::<Task>::empty(),
        ));
    } else {
        assert(s.push(t).drop_first() =~= s.drop_first().push(t));
        lemma_queue_measure_push(s.drop_first(), t);
        assert(s.push(t)[0] == s[0]);
        assert(queue_measure(s.push(t)) == s[0].spec_measure() + queue_measure(
            s.drop_first().push(t),
        ));
    }
}

/// The simple executor: a queue of tasks polled in turn.
pub struct SimpleExecutor {
    task_queue: VecDeque<Task>,
}

impl SimpleExecutor {
    /// The queued tasks, next to be polled first.
    pub closed spec fn spec_tasks(self) -> Seq<Task> {
        self.task_queue@
    }

    /// An executor with no tasks.
    pub fn new() -> (r: SimpleExecutor)
        ensures
            r.spec_tasks().len() == 0,
    {
        SimpleExecutor { task_queue: VecDeque::new() }
    }

    /// Add a task to the back of the queue.
    pub fn spawn(&mut self, task: Task)
        ensures
            final(self).spec_tasks() == old(self).spec_tasks().push(task),
    {
        self.task_queue.push_back(task)
    }

    /// Poll the queued tasks in turn, re-queuing each one that suspends,
    /// until all have completed. A task that suspends is re-polled
    /// without waiting for any wake, so every queued task must complete
    /// after a bounded number of steps for this loop to be finite.
    pub fn run(&mut self, scancodes: &mut ScancodeStream, out: &mut Vec<char>)
        requires
            forall|i: int|
                0 <= i < old(self).spec_tasks().len() ==> ((#[trigger] old(self).spec_tasks()[i].bounded())
                    && !old(self).spec_tasks()[i].done()),
        ensures
            final(self).spec_tasks().len() == 0,
            *final(scancodes) == *old(scancodes),
            final(out)@ == old(out)@,
    {
        while self.task_queue.len() > 0
            invariant
                forall|i: int|
                    0 <= i < self.spec_tasks().len() ==> ((#[trigger] self.spec_tasks()[i].bounded())
                        && !self.spec_tasks()[i].done()),
                *scancodes == *old(scancodes),
                out@ == old(out)@,
            decreases queue_measure(self.spec_tasks()),
        {
            let ghost before = self.spec_tasks();
            let mut task = match self.task_queue.pop_front() {
                Some(t) => t,
                None => {
                    proof {
                        assert(false);
                    }
                    return ;
                },
            };
            proof {
                assert(task == before[0]);
                assert(self.spec_tasks() =~= before.drop_first());
                assert(task.bounded() && !task.done());
            }
            let waker = TaskWaker::new_waker(task.task_id());
            let polled = task.poll(waker, scancodes, out);
            match polled {
                Poll::Ready(_) => {
                    proof {
                        // the completed task's measure leaves the total
                        assert(queue_measure(before) == before[0].spec_measure() + queue_measure(
                            self.spec_tasks(),
                        ));
                    }
                },
                Poll::Pending => {
                    let ghost rest = self.spec_tasks();
                    self.task_queue.push_back(task);
                    proof {
                        lemma_queue_measure_push(rest, task);
                        assert(queue_measure(before) == before[0].spec_measure() + queue_measure(
                            rest,
                        ));
                        assert(task.spec_measure() < before[0].spec_measure());
                    }
                },
            }
        }
    }
}

} // verus!
