//! The keyboard bridge: a bounded scancode queue between the keyboard
//! interrupt handler and the keyboard-processing task, and the decoding
//! of scancodes into printable characters.
//!
//! The interrupt handler reads one byte from the keyboard controller's
//! data port (a hardware operation, outside this crate) and hands it to
//! [`add_scancode`], which enqueues it without blocking or allocating —
//! when the queue is full the byte is dropped and the caller is told, so
//! it can log a warning and carry on. Enqueuing a byte invokes the wake
//! handle the processing task registered, so the executor polls that task
//! again. The task drains the queue, decoding bytes with the `pc_keyboard`
//! crate: scancode set 1, the US 104-key layout, control combinations
//! handled as ordinary keys.

use crate::task::executor::{Executor, TaskWaker};
use crate::task::queue::{
    byte_queue_capacity, byte_queue_items, byte_queue_new, byte_queue_pop, byte_queue_push,
};
use crate::task::Poll;
use crossbeam_queue::ArrayQueue;
use pc_keyboard::layouts::Us104Key;
use pc_keyboard::{DecodedKey, HandleControl, Keyboard, ScancodeSet1};
use vstd::prelude::*;

verus! {

/// Capacity of the scancode queue: bounded so pushes never allocate.
pub const SCANCODE_QUEUE_SIZE: usize = 100;

/// The scancode decoder: pc_keyboard's `Keyboard` for scancode set 1 and
/// the US 104-key layout. The decoder type carries trait bounds Verus
/// refuses to declare, so it is held opaquely in this one field; all use
/// goes through the trusted wrappers below.
#[verifier::external_body]
pub struct KeyboardDecoder {
    inner: Keyboard<Us104Key, ScancodeSet1>,
}

/// What a scancode decoded to: a printable character, or a key with no
/// printable equivalent, carried as its raw key-code number.
#[derive(Debug, Clone, Copy, PartialEq, Eq, Structural)]
pub enum Key {
    Unicode(char),
    Raw(u8),
}

impl KeyboardDecoder {
    /// A fresh decoder, as the keyboard interrupt path constructs once at
    /// boot.
    pub fn new() -> (r: KeyboardDecoder) {
        kb_new()
    }
}

/// Relies on pc_keyboard's `Keyboard::new`: a fresh decoder for scancode
/// set 1 and the US 104-key layout, handling control combinations as
/// ordinary keys.
#[verifier::external_body]
fn kb_new() -> (r: KeyboardDecoder) {
    KeyboardDecoder { inner: Keyboard::new(ScancodeSet1::new(), Us104Key, HandleControl::Ignore) }
}

/// The key one scancode completes from a given decoder state, if any —
/// what pc_keyboard's `add_byte` and `process_keyevent` produce for the
/// byte. The decode is a pure state machine, a function of the decoder
/// state and the byte alone, so its result carries a name.
pub uninterp spec fn decoded_key_of(kb: KeyboardDecoder, code: u8) -> Option<Key>;

/// The decoder state after consuming one scancode.
pub uninterp spec fn decoder_after(kb: KeyboardDecoder, code: u8) -> KeyboardDecoder;

/// Relies on pc_keyboard's `Keyboard::add_byte` and
/// `Keyboard::process_keyevent`: one scancode advances the decoder and
/// completes a key under the current modifier state, or none. Both
/// results are functions of the decoder state and the byte alone, and
/// the contract names them; the key's variants are carried over one for
/// one, and a protocol error counts as no key, as the kernel's handler
/// treats it.
#[verifier::external_body]
fn kb_decode(kb: &mut KeyboardDecoder, code: u8) -> (r: Option<Key>)
    ensures
        *final(kb) == decoder_after(*old(kb), code),
        r == decoded_key_of(*old(kb), code),
{
    let ev = match kb.inner.add_byte(code) {
        Ok(ev) => ev,
        Err(_) => None,
    };
    match ev.and_then(|ev| kb.inner.process_keyevent(ev)) {
        Some(DecodedKey::Unicode(c)) => Some(Key::Unicode(c)),
        Some(DecodedKey::RawKey(k)) => Some(Key::Raw(k as u8)),
        None => None,
    }
}

/// The characters the keyboard task emits while draining `codes` from
/// decoder state `kb`: each byte advances the decoder, and each byte
/// that completes a printable key appends exactly its character — break
/// and raw events contribute nothing.
pub open spec fn decoded_output(kb: KeyboardDecoder, codes: Seq<u8>) -> Seq<char>
    decreases codes.len(),
{
    if codes.len() == 0 {
        Seq::empty()
    } else {
        let rest = decoded_output(decoder_after(kb, codes[0]), codes.drop_first());
        match decoded_key_of(kb, codes[0]) {
            Some(Key::Unicode(c)) => seq![c] + rest,
            _ => rest,
        }
    }
}

/// The decoder state after draining `codes`.
pub open spec fn decoder_after_all(kb: KeyboardDecoder, codes: Seq<u8>) -> KeyboardDecoder
    decreases codes.len(),
{
    if codes.len() == 0 {
        kb
    } else {
        decoder_after_all(decoder_after(kb, codes[0]), codes.drop_first())
    }
}

/// What the kernel does with a decoded key: a printable character goes to
/// the output, a break event or raw key produces no output.
pub fn handle_key(key: Option<Key>) -> (r: Option<char>)
    ensures
        r == (match key {
            Some(Key::Unicode(c)) => Some(c),
            _ => None::<char>,
        }),
{
    match key {
        Some(Key::Unicode(c)) => Some(c),
        _ => None,
    }
}

/// The decoding step of the keyboard path: advance the decoder by one
/// scancode and report exactly the key that byte completes.
pub fn decode_scancode(kb: &mut KeyboardDecoder, code: u8) -> (r: Option<Key>)
    ensures
        *final(kb) == decoder_after(*old(kb), code),
        r == decoded_key_of(*old(kb), code),
{
    kb_decode(kb, code)
}

/// Outcome of offering one scancode to the queue.
#[derive(Debug, Clone, Copy, PartialEq, Eq, Structural)]
pub enum ScancodePush {
    /// The byte was enqueued; any registered wake handle was invoked.
    Queued,
    /// The queue was full: the byte was dropped, and the caller should
    /// log a warning and continue.
    Dropped,
}

/// The rendezvous between the keyboard interrupt handler and the
/// keyboard-processing task: a bounded queue of raw scancodes, plus the
/// wake handle the task registered when it last found the queue empty.
pub struct ScancodeStream {
    queue: ArrayQueue<u8>,
    waker: Option<TaskWaker>,
}

impl ScancodeStream {
    /// The scancodes waiting to be processed, oldest first.
    pub closed spec fn spec_items(self) -> Seq<u8> {
        byte_queue_items(self.queue)
    }

    /// The queue's fixed capacity.
    pub closed spec fn spec_capacity(self) -> usize {
        byte_queue_capacity(self.queue)
    }

    /// The wake handle registered by the processing task, if any.
    pub closed spec fn spec_waker(self) -> Option<TaskWaker> {
        self.waker
    }

    /// An empty scancode queue with no registered wake handle. The kernel
    /// creates exactly one, during its explicit boot sequence.
    pub fn new() -> (r: ScancodeStream)
        ensures
            r.spec_items() == Seq::<u8>::empty(),
            r.spec_capacity() == SCANCODE_QUEUE_SIZE,
            r.spec_waker() is None,
    {
        ScancodeStream { queue: byte_queue_new(SCANCODE_QUEUE_SIZE), waker: None }
    }

    /// Pull the next scancode: the oldest queued byte, if one is waiting.
    /// On an empty queue the caller's wake handle is registered and the
    /// pull reports pending; the next `add_scancode` will invoke the
    /// handle, so the suspended task is polled again.
    pub fn poll_next(&mut self, waker: TaskWaker) -> (r: Poll<Option<u8>>)
        ensures
            final(self).spec_capacity() == old(self).spec_capacity(),
            old(self).spec_items().len() > 0 ==> (r == Poll::Ready(Some(old(self).spec_items()[0]))
                && final(self).spec_items() == old(self).spec_items().drop_first() && final(self).spec_waker() == old(self).spec_waker()),
            old(self).spec_items().len() == 0 ==> (r is Pending && final(self).spec_items() == old(self).spec_items() && final(self).spec_waker() == Some(waker)),
    {
        match byte_queue_pop(&mut self.queue) {
            Some(code) => Poll::Ready(Some(code)),
            None => {
                // Register the wake handle so the next enqueue resumes
                // the task. Under single ownership no enqueue can
                // intervene between the failed pop and the registration,
                // so no second look at the queue is needed.
                self.waker = Some(waker);
                Poll::Pending
            },
        }
    }
}

/// Called on the keyboard interrupt path with the byte read from the
/// controller: enqueue it without blocking or allocating, and invoke the
/// registered wake handle, if any. A full queue drops the byte and
/// reports it, so the handler can log a warning; it must never block.
pub fn add_scancode(stream: &mut ScancodeStream, executor: &mut Executor, scancode: u8) -> (r:
    ScancodePush)
    requires
        old(executor).wf(),
        old(executor).spec_ready().len() < old(executor).spec_capacity(),
    ensures
        final(executor).wf(),
        final(executor).spec_tasks() == old(executor).spec_tasks(),
        final(executor).spec_capacity() == old(executor).spec_capacity(),
        final(stream).spec_capacity() == old(stream).spec_capacity(),
        old(stream).spec_items().len() >= old(stream).spec_capacity() ==> (r is Dropped && final(stream).spec_items() == old(stream).spec_items() && final(stream).spec_waker() == old(stream).spec_waker() && *final(executor) == *old(executor)),
        old(stream).spec_items().len() < old(stream).spec_capacity() ==> (r is Queued && final(stream).spec_items() == old(stream).spec_items().push(scancode) && (final(stream).spec_waker() is None) && (match old(stream).spec_waker() {
            Some(w) => final(executor).spec_ready() == old(executor).spec_ready().push(
                w.spec_task_id(),
            ),
            None => final(executor).spec_ready() == old(executor).spec_ready(),
        })),
{
    if byte_queue_push(&mut stream.queue, scancode) {
        match stream.waker.take() {
            Some(w) => {
                executor.wake(&w);
            },
            None => {},
        }
        ScancodePush::Queued
    } else {
        ScancodePush::Dropped
    }
}

/// The keyboard-processing task's state: the scancode decoder. The task
/// itself — pull scancodes, decode them, emit printable characters — is
/// its `step`.
pub struct KeypressTask {
    keyboard: KeyboardDecoder,
}

impl KeypressTask {
    /// The task's decoder state.
    pub closed spec fn spec_decoder(self) -> KeyboardDecoder {
        self.keyboard
    }

    /// A keyboard task with a fresh decoder.
    pub fn new() -> (r: KeypressTask) {
        KeypressTask { keyboard: kb_new() }
    }

    /// One executor step of the keyboard task: drain the scancode queue,
    /// decoding each byte and appending to `out` exactly the characters
    /// the drained bytes complete; when the queue runs dry, register the
    /// wake handle and suspend. The stream never ends, so the task never
    /// completes.
    pub fn step(
        &mut self,
        waker: TaskWaker,
        scancodes: &mut ScancodeStream,
        out: &mut Vec<char>,
    ) -> (r: Poll<()>)
        ensures
            r is Pending,
            final(scancodes).spec_items().len() == 0,
            final(scancodes).spec_waker() == Some(waker),
            final(scancodes).spec_capacity() == old(scancodes).spec_capacity(),
            final(out)@ == old(out)@ + decoded_output(
                old(self).spec_decoder(),
                old(scancodes).spec_items(),
            ),
            final(self).spec_decoder() == decoder_after_all(
                old(self).spec_decoder(),
                old(scancodes).spec_items(),
            ),
    {
        loop
            invariant
                scancodes.spec_capacity() == old(scancodes).spec_capacity(),
                scancodes.spec_waker() == old(scancodes).spec_waker(),
                // what is already emitted plus what the rest of the queue
                // will emit never changes over the drain
                old(out)@ + decoded_output(old(self).spec_decoder(), old(scancodes).spec_items())
                    == out@ + decoded_output(self.spec_decoder(), scancodes.spec_items()),
                decoder_after_all(old(self).spec_decoder(), old(scancodes).spec_items())
                    == decoder_after_all(self.spec_decoder(), scancodes.spec_items()),
            decreases scancodes.spec_items().len(),
        {
            let ghost kb_before = self.spec_decoder();
            let ghost items_before = scancodes.spec_items();
            let ghost out_before = out@;
            match scancodes.poll_next(waker) {
                Poll::Ready(Some(code)) => {
                    proof {
                        assert(code == items_before[0]);
                        assert(scancodes.spec_items() == items_before.drop_first());
                    }
                    let key = decode_scancode(&mut self.keyboard, code);
                    match handle_key(key) {
                        Some(c) => {
                            out.push(c);
                            proof {
                                assert(out@ =~= out_before + seq![c]);
                                assert(out_before + (seq![c] + decoded_output(
                                    self.spec_decoder(),
                                    scancodes.spec_items(),
                                )) =~= out@ + decoded_output(
                                    self.spec_decoder(),
                                    scancodes.spec_items(),
                                ));
                            }
                        },
                        None => {},
                    }
                },
                Poll::Ready(None) => {
                    proof {
                        assert(false);
                    }
                    return Poll::Pending;
                },
                Poll::Pending => {
                    proof {
                        // the queue was empty: nothing is left to emit,
                        // and the drain's whole output stands in `out`
                        assert(decoded_output(self.spec_decoder(), items_before)
                            =~= Seq::<char>::empty());
                        assert(out@ + Seq::<char>::empty() =~= out@);
                        assert(decoder_after_all(self.spec_decoder(), items_before)
                            == self.spec_decoder());
                    }
                    return Poll::Pending;
                },
            }
        }
    }
}

/// The keyboard-processing computation, ready to spawn: it suspends
/// whenever the scancode queue is empty and never completes.
pub fn print_keypresses() -> (c: crate::task::Computation)
    ensures
        !c.done(),
        !c.bounded(),
{
    crate::task::Computation::Keypresses(KeypressTask::new())
}

} // verus!
