//! The scancode stream: a bounded lock-free byte queue filled by the
//! keyboard interrupt and drained by the keyboard task, with a registered
//! waker closing the race between an empty check and a concurrent push —
//! plus the layout decoder that turns scancodes into keys.

use vstd::prelude::*;
use crossbeam_queue::ArrayQueue;
use pc_keyboard::{layouts, HandleControl, Keyboard, ScancodeSet1};

verus! {

/// How many pending scancodes the queue can hold.
pub const SCANCODE_QUEUE_CAPACITY: usize = 100;

/// What a scancode queue holds, oldest first.
pub uninterp spec fn scancode_queue_contents(q: ScancodeQueue) -> Seq<u8>;

/// The fixed capacity a scancode queue was created with.
pub uninterp spec fn scancode_queue_capacity(q: ScancodeQueue) -> nat;

/// The bounded queue of raw scancodes.  It wraps the lock-free array queue
/// of an outside crate: pushes never block and never allocate, so the
/// interrupt handler may call them.
#[verifier::external_body]
pub struct ScancodeQueue {
    inner: ArrayQueue<u8>,
}

impl ScancodeQueue {
    /// Relies on crossbeam-queue's ArrayQueue::new: an empty bounded queue
    /// of the given (non-zero) capacity.
    #[verifier::external_body]
    fn new(capacity: usize) -> (r: ScancodeQueue)
        requires
            capacity >= 1,
        ensures
            scancode_queue_contents(r) == Seq::<u8>::empty(),
            scancode_queue_capacity(r) == capacity,
    {
        ScancodeQueue { inner: ArrayQueue::new(capacity) }
    }

    /// Relies on crossbeam-queue's ArrayQueue::push: appends at the back,
    /// failing exactly when the queue is at capacity.
    #[verifier::external_body]
    fn push(&mut self, byte: u8) -> (r: bool)
        ensures
            scancode_queue_capacity(*final(self)) == scancode_queue_capacity(*old(self)),
            r == (scancode_queue_contents(*old(self)).len() < scancode_queue_capacity(
                *old(self),
            )),
            r ==> scancode_queue_contents(*final(self)) == scancode_queue_contents(
                *old(self),
            ).push(byte),
            !r ==> scancode_queue_contents(*final(self)) == scancode_queue_contents(*old(self)),
    {
        self.inner.push(byte).is_ok()
    }

    /// Relies on crossbeam-queue's ArrayQueue::pop: takes the oldest
    /// element, or reports the queue empty.
    #[verifier::external_body]
    fn pop(&mut self) -> (r: Option<u8>)
        ensures
            scancode_queue_capacity(*final(self)) == scancode_queue_capacity(*old(self)),
            match r {
                Some(byte) => scancode_queue_contents(*old(self)).len() > 0 && byte
                    == scancode_queue_contents(*old(self))[0] && scancode_queue_contents(
                    *final(self),
                ) == scancode_queue_contents(*old(self)).drop_first(),
                None => scancode_queue_contents(*old(self)).len() == 0
                    && scancode_queue_contents(*final(self)) == scancode_queue_contents(
                    *old(self),
                ),
            },
    {
        self.inner.pop().ok()
    }
}

/// What one poll of the stream reports: the next scancode, or that none
/// is queued and the waker is registered.
#[derive(Debug, Clone, Copy, PartialEq, Eq, Structural)]
pub enum ScancodePoll {
    Ready(u8),
    Pending,
}

/// The scancode stream: the queue the interrupt handler fills, and whether
/// the consumer's waker is registered with the producer side.
pub struct ScancodeStream {
    pub queue: ScancodeQueue,
    pub waker_registered: bool,
}

impl ScancodeStream {
    /// The scancodes waiting to be read, oldest first.
    pub open spec fn scancodes(self) -> Seq<u8> {
        scancode_queue_contents(self.queue)
    }

    pub open spec fn wf(self) -> bool {
        scancode_queue_capacity(self.queue) == SCANCODE_QUEUE_CAPACITY
    }

    /// A fresh stream with an empty queue and no waker registered.
    pub fn new() -> (r: ScancodeStream)
        ensures
            r.wf(),
            r.scancodes() == Seq::<u8>::empty(),
            !r.waker_registered,
    {
        ScancodeStream { queue: ScancodeQueue::new(SCANCODE_QUEUE_CAPACITY), waker_registered: false }
    }

    /// Called by the keyboard interrupt handler with a byte read from the
    /// data port: never blocks, never allocates.  The byte is queued
    /// exactly when there is room — a full queue drops it — and a `true`
    /// result obliges the caller to fire the registered waker.
    pub fn add_scancode(&mut self, scancode: u8) -> (accepted: bool)
        requires
            old(self).wf(),
        ensures
            final(self).wf(),
            final(self).waker_registered == old(self).waker_registered,
            accepted == (old(self).scancodes().len() < SCANCODE_QUEUE_CAPACITY),
            accepted ==> final(self).scancodes() == old(self).scancodes().push(scancode),
            !accepted ==> final(self).scancodes() == old(self).scancodes(),
    {
        self.queue.push(scancode)
    }

    /// One poll of the stream: take the oldest scancode if any is queued.
    /// If none is, register the waker and check once more — closing the
    /// race with a producer pushing between the check and the registration
    /// — before reporting pending.
    pub fn poll_next(&mut self) -> (r: ScancodePoll)
        requires
            old(self).wf(),
        ensures
            final(self).wf(),
            old(self).scancodes().len() > 0 ==> {
                &&& r == ScancodePoll::Ready(old(self).scancodes()[0])
                &&& final(self).scancodes() == old(self).scancodes().drop_first()
                &&& final(self).waker_registered == old(self).waker_registered
            },
            old(self).scancodes().len() == 0 ==> {
                &&& r == ScancodePoll::Pending
                &&& final(self).scancodes() == old(self).scancodes()
                &&& final(self).waker_registered
            },
    {
        match self.queue.pop() {
            Some(scancode) => ScancodePoll::Ready(scancode),
            None => {
                self.waker_registered = true;
                match self.queue.pop() {
                    Some(scancode) => ScancodePoll::Ready(scancode),
                    None => ScancodePoll::Pending,
                }
            },
        }
    }
}

/// Every scancode the queue accepts is observed by the consumer: once a
/// push of `b` succeeded, polls keep finding the queue non-empty and drain
/// it in arrival order, and after exactly the bytes that were ahead of
/// `b`, `b` itself comes out.  In the terms of `add_scancode` and
/// `poll_next`: `k` earlier polls leave the queue at `s.push(b).skip(k)`,
/// whose head the next poll returns.
pub proof fn lemma_pushed_scancode_observed(s: Seq<u8>, b: u8, k: int)
    requires
        0 <= k <= s.len(),
    ensures
        s.push(b).skip(k).len() > 0,
        k < s.len() ==> s.push(b).skip(k)[0] == s[k],
        k == s.len() ==> s.push(b).skip(k)[0] == b,
        s.push(b).skip(k).drop_first() =~= s.push(b).skip(k + 1),
{
    assert(s.push(b).len() == s.len() + 1);
    assert(s.push(b).skip(k).len() == s.len() + 1 - k);
    assert(s.push(b).skip(k)[0] == s.push(b)[k]);
}

/// A key as the layout decodes it: a printable character, or a named
/// control key.
#[derive(Debug, Clone, PartialEq, Eq)]
pub enum Key {
    Unicode(char),
    Raw(String),
}

/// The scancode decoder: the layout state machine of an outside crate
/// (US 104-key layout, scancode set 1, control characters left alone).
/// What a byte decodes to depends on the modifier state accumulated so
/// far, so nothing is pinned about single calls; the callers take whatever
/// key comes back.
#[verifier::external_body]
pub struct KeyDecoder {
    inner: Keyboard<layouts::Us104Key, ScancodeSet1>,
}

/// Relies on pc-keyboard's Keyboard::new: a fresh decoder at the start of
/// the scancode state machine, with the crate's initial modifier state
/// (num lock engaged, nothing held).
#[verifier::external_body]
fn fresh_decoder() -> (r: KeyDecoder) {
    KeyDecoder { inner: Keyboard::new(layouts::Us104Key, ScancodeSet1, HandleControl::Ignore) }
}

/// Relies on pc-keyboard's Keyboard::add_byte: advances the scancode state
/// machine by one byte; a completed sequence yields a key event, an
/// incomplete or unknown one nothing.
#[verifier::external_body]
fn decoder_add_byte(d: &mut KeyDecoder, scancode: u8) -> (r: Option<pc_keyboard::KeyEvent>) {
    match d.inner.add_byte(scancode) {
        Ok(event) => event,
        Err(_) => None,
    }
}

/// Relies on pc-keyboard's Keyboard::process_keyevent: applies the
/// modifier state to a key event and hands back the decoded key, if the
/// event produces one; a named key is carried by its debug name.
#[verifier::external_body]
fn decoder_process_event(d: &mut KeyDecoder, event: pc_keyboard::KeyEvent) -> (r: Option<Key>) {
    match d.inner.process_keyevent(event) {
        Some(pc_keyboard::DecodedKey::Unicode(c)) => Some(Key::Unicode(c)),
        Some(pc_keyboard::DecodedKey::RawKey(code)) => Some(Key::Raw(format!("{:?}", code))),
        None => None,
    }
}

#[verifier::external_type_specification]
#[verifier::external_body]
pub struct ExKeyEvent(pc_keyboard::KeyEvent);

impl KeyDecoder {
    /// A fresh decoder with no state accumulated.
    pub fn new() -> (r: KeyDecoder) {
        fresh_decoder()
    }

    /// Feed one scancode through the decoder: the key it completes, if it
    /// completes one.
    pub fn decode(&mut self, scancode: u8) -> (r: Option<Key>) {
        match decoder_add_byte(self, scancode) {
            Some(event) => decoder_process_event(self, event),
            None => None,
        }
    }
}

} // verus!
