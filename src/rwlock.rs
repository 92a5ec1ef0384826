//! Reader-writer spin-locks in two encodings: one counter word, or a reader
//! count beside a writer flag.
use std::sync::atomic::{AtomicUsize, Ordering};
use vstd::prelude::*;

use crate::rw_model::{reader_step, RwPhase};

verus! {

/// Value of the counter word when nobody holds the lock.
pub const UNLOCKED: usize = 0;

/// Value of the counter word while a writer holds the lock.
pub const WRITE_LOCKED: usize = 1;

/// Readers that the counter word `s` records: `s - 1` above one, else none.
pub open spec fn readers_of(s: nat) -> nat {
    if s > 1 {
        (s - 1) as nat
    } else {
        0
    }
}

/// The counter word once one more reader joins the word `s`.
pub open spec fn admitted(s: nat) -> nat {
    if s == UNLOCKED {
        2
    } else {
        s + 1
    }
}

/// The counter word once one reader leaves the word `s`.
pub open spec fn released(s: nat) -> nat {
    if s == 2 {
        UNLOCKED as nat
    } else {
        (s - 1) as nat
    }
}

/// The counter word after one more reader is admitted to state `s`, or
/// `None` where a writer holds the lock or the word is full.
pub fn admit_reader(s: usize) -> (r: Option<usize>)
    ensures
        r is None <==> (s == WRITE_LOCKED || s == usize::MAX),
        r matches Some(t) ==> t == admitted(s as nat),
        r matches Some(t) ==> t > 1 && readers_of(t as nat) == readers_of(s as nat) + 1,
{
    if s == WRITE_LOCKED || s == usize::MAX {
        None
    } else if s == UNLOCKED {
        Some(2)
    } else {
        Some(s + 1)
    }
}

/// The counter word after one reader leaves state `s`, or `None` where `s`
/// records no reader.
pub fn release_reader(s: usize) -> (r: Option<usize>)
    ensures
        r is None <==> s <= 1,
        r matches Some(t) ==> t == released(s as nat),
        r matches Some(t) ==> t != WRITE_LOCKED && readers_of(t as nat) + 1 == readers_of(
            s as nat,
        ),
{
    if s <= 1 {
        None
    } else if s == 2 {
        Some(UNLOCKED)
    } else {
        Some(s - 1)
    }
}

/// Reader-writer lock over one counter word: zero is unlocked, one is held
/// by a writer, and `k` above one is held by `k - 1` readers.
///
/// A writer takes the word only from zero, so a steady stream of readers can
/// keep a writer waiting for ever.
pub struct CounterRwSpinLock {
    state: AtomicUsize,
}

impl CounterRwSpinLock {
    /// An unlocked lock.
    pub fn new() -> (r: CounterRwSpinLock) {
        CounterRwSpinLock { state: AtomicUsize::new(UNLOCKED) }
    }

    /// One attempt to admit a reader; true when this call was admitted.
    pub fn try_read(&self) -> (r: bool) {
        let s = self.state.load(Ordering::Relaxed);
        match admit_reader(s) {
            Some(t) => self.state.compare_exchange(s, t, Ordering::Acquire, Ordering::Relaxed).is_ok(),
            None => false,
        }
    }

    /// One attempt to let an admitted reader leave; true when it has left.
    pub fn try_read_release(&self) -> (r: bool) {
        let s = self.state.load(Ordering::Relaxed);
        match release_reader(s) {
            Some(t) => self.state.compare_exchange(s, t, Ordering::Release, Ordering::Relaxed).is_ok(),
            None => false,
        }
    }

    /// One attempt to take the word from unlocked to write-locked; true when
    /// this call took it.
    pub fn try_write(&self) -> (r: bool) {
        self.state.compare_exchange(UNLOCKED, WRITE_LOCKED, Ordering::Acquire, Ordering::Relaxed).is_ok()
    }

    /// Whether the word read unlocked; a waiting writer retries only then.
    pub fn is_unlocked(&self) -> (r: bool) {
        self.state.load(Ordering::Relaxed) == UNLOCKED
    }

    /// Gives the write lock back; only its holder may call this.
    pub fn write_release(&self) {
        self.state.store(UNLOCKED, Ordering::Release)
    }
}

/// Reader-writer lock over a reader count and a writer flag.
///
/// A reader announces itself and then checks the flag again; a writer raises
/// the flag and then waits for the count to drain. Both sides use
/// sequentially consistent operations for that handshake, so that at least
/// one of them sees the other.
pub struct RwSpinLock {
    readers: AtomicUsize,
    writer: AtomicUsize,
}

impl RwSpinLock {
    /// An unlocked lock: no reader, no writer.
    pub fn new() -> (r: RwSpinLock) {
        RwSpinLock { readers: AtomicUsize::new(0), writer: AtomicUsize::new(0) }
    }

    /// One pass of the reader's double check, each look at the flag decided
    /// by `reader_step`: where no writer is seen, count this reader in and
    /// look again; where a writer came in meanwhile, count it out. True when
    /// the reader was admitted.
    pub fn try_read(&self) -> (r: bool) {
        let first = reader_step(RwPhase::Idle, self.writer.load(Ordering::SeqCst) != 0);
        if first != RwPhase::SawFree {
            return false;
        }
        self.readers.fetch_add(1, Ordering::SeqCst);
        match reader_step(RwPhase::Announced, self.writer.load(Ordering::SeqCst) != 0) {
            RwPhase::Reading => true,
            _ => {
                self.readers.fetch_sub(1, Ordering::Release);
                false
            },
        }
    }

    /// Lets an admitted reader leave.
    pub fn read_release(&self) {
        self.readers.fetch_sub(1, Ordering::Release);
    }

    /// One attempt to raise the writer flag; true when this call raised it.
    pub fn try_claim_write(&self) -> (r: bool) {
        self.writer.compare_exchange(0, 1, Ordering::SeqCst, Ordering::Relaxed).is_ok()
    }

    /// Whether the reader count read zero; the writer that raised the flag
    /// enters only then.
    pub fn readers_drained(&self) -> (r: bool) {
        self.readers.load(Ordering::SeqCst) == 0
    }

    /// Lowers the writer flag; only the writer that raised it may call this.
    pub fn write_release(&self) {
        self.writer.store(0, Ordering::Release)
    }
}

} // verus!
