use rust_os::task::executor::{Executor, TaskWaker, TASK_QUEUE_SIZE};
use rust_os::task::keyboard::{
    add_scancode, print_keypresses, KeyboardDecoder, Key, ScancodePush, ScancodeStream,
    SCANCODE_QUEUE_SIZE,
};
use rust_os::task::keyboard::{decode_scancode, handle_key};
use rust_os::task::simple_executor::SimpleExecutor;
use rust_os::task::{Computation, Task, TaskId, TaskIdGen, YieldTask};

fn yield_task(gen: &mut TaskIdGen, yields: u64) -> Task {
    Task::new(gen, Computation::Yield(YieldTask::new(yields)))
}

#[test]
fn task_ids_are_assigned_monotonically() {
    let mut gen = TaskIdGen::new();
    let a = TaskId::new(&mut gen);
    let b = TaskId::new(&mut gen);
    let c = TaskId::new(&mut gen);
    assert_eq!(a.value(), 0);
    assert_eq!(b.value(), 1);
    assert_eq!(c.value(), 2);
}

#[test]
fn executor_runs_n_suspending_tasks_to_exactly_n_completions() {
    let mut gen = TaskIdGen::new();
    let mut executor = Executor::new();
    let mut stream = ScancodeStream::new();
    let mut out: Vec<char> = Vec::new();
    let n: usize = 5;
    let mut ids = Vec::new();
    for _ in 0..n {
        let task = yield_task(&mut gen, 1);
        ids.push(task.task_id());
        executor.spawn(task);
    }
    assert_eq!(executor.task_count(), n);
    // first drain: every task suspends once, waiting on its wake handle
    executor.run_ready_tasks(&mut stream, &mut out);
    assert_eq!(executor.task_count(), n);
    assert!(executor.is_idle());
    // wake each task; the next drain completes all of them and the
    // table returns to empty
    for id in &ids {
        executor.wake(&TaskWaker::new_waker(*id));
    }
    executor.run_ready_tasks(&mut stream, &mut out);
    assert_eq!(executor.task_count(), 0);
    assert!(executor.is_idle());
}

#[test]
fn waking_a_completed_task_polls_nothing() {
    let mut gen = TaskIdGen::new();
    let mut executor = Executor::new();
    let mut stream = ScancodeStream::new();
    let mut out: Vec<char> = Vec::new();
    let task = yield_task(&mut gen, 0);
    let id = task.task_id();
    executor.spawn(task);
    executor.run_ready_tasks(&mut stream, &mut out);
    assert_eq!(executor.task_count(), 0);
    // a stale wake handle re-enqueues the identifier, but the departed
    // task is skipped, never polled again
    executor.wake(&TaskWaker::new_waker(id));
    executor.run_ready_tasks(&mut stream, &mut out);
    assert_eq!(executor.task_count(), 0);
}

#[test]
fn executor_queue_capacity_is_fixed() {
    assert_eq!(TASK_QUEUE_SIZE, 100);
    let executor = Executor::new();
    assert!(executor.is_idle());
}

#[test]
fn simple_executor_completes_all_tasks() {
    let mut gen = TaskIdGen::new();
    let mut simple = SimpleExecutor::new();
    let mut stream = ScancodeStream::new();
    let mut out: Vec<char> = Vec::new();
    simple.spawn(yield_task(&mut gen, 3));
    simple.spawn(yield_task(&mut gen, 0));
    simple.spawn(yield_task(&mut gen, 7));
    simple.run(&mut stream, &mut out);
    assert!(out.is_empty());
}

#[test]
fn keyboard_bridge_decodes_one_character_per_make_event() {
    let mut gen = TaskIdGen::new();
    let mut executor = Executor::new();
    let mut stream = ScancodeStream::new();
    let mut out: Vec<char> = Vec::new();
    executor.spawn(Task::new(&mut gen, print_keypresses()));
    // the task drains the empty queue, parks, and registers its handle
    executor.run_ready_tasks(&mut stream, &mut out);
    assert_eq!(executor.task_count(), 1);
    assert!(out.is_empty());
    // the handler enqueues the make and break bytes for 'a' while the
    // task is parked; the first enqueue wakes it
    assert!(matches!(add_scancode(&mut stream, &mut executor, 0x1e), ScancodePush::Queued));
    assert!(matches!(add_scancode(&mut stream, &mut executor, 0x9e), ScancodePush::Queued));
    assert!(!executor.is_idle());
    executor.run_ready_tasks(&mut stream, &mut out);
    // exactly one printable character: the make event decodes to 'a',
    // the break event produces no output
    assert_eq!(out, vec!['a']);
    // the task parked again, awaiting the next key
    assert_eq!(executor.task_count(), 1);
}

#[test]
fn scancode_queue_overflow_drops_the_byte() {
    let mut executor = Executor::new();
    let mut stream = ScancodeStream::new();
    for _ in 0..SCANCODE_QUEUE_SIZE {
        assert!(matches!(add_scancode(&mut stream, &mut executor, 0x1e), ScancodePush::Queued));
    }
    // the queue is full: the byte is dropped and the caller is told, so
    // it can log a warning and continue
    assert!(matches!(add_scancode(&mut stream, &mut executor, 0x1e), ScancodePush::Dropped));
}

#[test]
fn decoder_maps_make_to_unicode_and_break_to_nothing() {
    let mut decoder = KeyboardDecoder::new();
    let make = decode_scancode(&mut decoder, 0x1e);
    assert_eq!(make, Some(Key::Unicode('a')));
    let brk = decode_scancode(&mut decoder, 0x9e);
    assert_eq!(brk, None);
}

#[test]
fn handle_key_prints_unicode_only() {
    assert_eq!(handle_key(Some(Key::Unicode('x'))), Some('x'));
    assert_eq!(handle_key(Some(Key::Raw(72))), None);
    assert_eq!(handle_key(None), None);
}

#[test]
fn only_woken_tasks_are_polled_again() {
    let mut gen = TaskIdGen::new();
    let mut executor = Executor::new();
    let mut stream = ScancodeStream::new();
    let mut out: Vec<char> = Vec::new();
    let first = yield_task(&mut gen, 1);
    let second = yield_task(&mut gen, 1);
    let first_id = first.task_id();
    executor.spawn(first);
    executor.spawn(second);
    executor.run_ready_tasks(&mut stream, &mut out);
    assert_eq!(executor.task_count(), 2);
    // waking only the first task completes only the first task
    executor.wake(&TaskWaker::new_waker(first_id));
    executor.run_ready_tasks(&mut stream, &mut out);
    assert_eq!(executor.task_count(), 1);
}
