//! Exclusive spin-locks: the lock word, one acquisition attempt at a time,
//! and the waiting strategy that a caller follows between attempts.
use std::sync::atomic::{AtomicBool, AtomicUsize, Ordering};
use vstd::prelude::*;

use crate::backoff::{
    parks_at, park_counter, spin_count, Backoff, ParkingBackoff, WaitStep, BACKOFF_CAP,
};

verus! {

/// Relies on std::hint::spin_loop: it only signals a busy-wait to the
/// processor and has no effect on program state.
#[verifier::external_body]
fn spin_hint() {
    std::hint::spin_loop()
}

/// Issues `spins` busy-wait hints in a row.
pub fn pause(spins: u32) {
    for _i in 0..spins {
        spin_hint();
    }
}

/// How a thread waits after a failed acquisition attempt.
#[derive(Clone, Copy, Debug, PartialEq, Eq, Structural)]
pub enum Strategy {
    /// Retry at once.
    Spin,
    /// Issue one busy-wait hint, then retry.
    HintedSpin,
    /// Issue an exponentially growing number of hints, then retry.
    Backoff,
    /// Back off as above, and deschedule once the backoff reaches its cap.
    BackoffThenPark,
}

/// The waiting state of one thread that tries to take a lock.
pub struct Waiter {
    strategy: Strategy,
    backoff: Backoff,
    parking: ParkingBackoff,
    failures: Ghost<nat>,
}

impl Waiter {
    /// Failed attempts recorded so far.
    pub closed spec fn failures(&self) -> nat {
        self.failures@
    }

    pub closed spec fn strategy(&self) -> Strategy {
        self.strategy
    }

    /// The spin count of the exponential policy.
    pub closed spec fn backoff(&self) -> nat {
        self.backoff@
    }

    /// The counter of the backoff-then-park policy.
    pub closed spec fn park_counter(&self) -> nat {
        self.parking@
    }

    pub closed spec fn wf(&self) -> bool {
        &&& self.backoff.wf()
        &&& self.parking.wf()
        &&& self.strategy == Strategy::Backoff ==> self.backoff@ == spin_count(self.failures@)
        &&& self.strategy == Strategy::BackoffThenPark ==> self.parking@ == park_counter(
            self.failures@,
        )
    }

    /// A waiter that has seen no failure yet.
    pub fn new(strategy: Strategy) -> (r: Waiter)
        ensures
            r.wf(),
            r.strategy() == strategy,
            r.backoff() == 1,
            r.park_counter() == 1,
            r.failures() == 0,
    {
        Waiter {
            strategy,
            backoff: Backoff::new(),
            parking: ParkingBackoff::new(),
            failures: Ghost(0),
        }
    }

    /// Records a failed attempt and says how to wait before the next one.
    ///
    /// After failure `k` (counting from zero) the exponential strategy spins
    /// `spin_count(k)` times, and the backoff-then-park strategy spins
    /// `park_counter(k)` times and parks exactly where `parks_at(k)`.
    pub fn after_failure(&mut self) -> (r: WaitStep)
        requires
            old(self).wf(),
        ensures
            final(self).wf(),
            final(self).strategy() == old(self).strategy(),
            final(self).failures() == old(self).failures() + 1,
            old(self).strategy() == Strategy::Spin || old(self).strategy() == Strategy::HintedSpin
                ==> final(self).backoff() == old(self).backoff() && final(self).park_counter()
                == old(self).park_counter(),
            old(self).strategy() == Strategy::Spin ==> r.spins == 0 && !r.park,
            old(self).strategy() == Strategy::HintedSpin ==> r.spins == 1 && !r.park,
            old(self).strategy() == Strategy::Backoff ==> {
                &&& r.spins as nat == spin_count(old(self).failures())
                &&& r.spins as nat == old(self).backoff()
                &&& !r.park
                &&& final(self).backoff() == (if old(self).backoff() * 2 <= BACKOFF_CAP {
                    old(self).backoff() * 2
                } else {
                    BACKOFF_CAP as nat
                })
                &&& final(self).park_counter() == old(self).park_counter()
            },
            old(self).strategy() == Strategy::BackoffThenPark ==> {
                &&& r.spins as nat == park_counter(old(self).failures())
                &&& r.park == parks_at(old(self).failures())
                &&& r.spins as nat == old(self).park_counter()
                &&& r.park == (2 * old(self).park_counter() >= BACKOFF_CAP)
                &&& final(self).park_counter() == (if r.park {
                    1
                } else {
                    2 * old(self).park_counter()
                })
                &&& final(self).backoff() == old(self).backoff()
            },
    {
        self.failures = Ghost(self.failures@ + 1);
        match self.strategy {
            Strategy::Spin => WaitStep { spins: 0, park: false },
            Strategy::HintedSpin => WaitStep { spins: 1, park: false },
            Strategy::Backoff => {
                let spins = self.backoff.spins();
                self.backoff.grow();
                WaitStep { spins, park: false }
            },
            Strategy::BackoffThenPark => self.parking.on_failure(),
        }
    }
}

/// An exclusive lock word: unlocked or locked.
///
/// Taking it uses acquire ordering and giving it back uses release ordering,
/// so that what one holder wrote is visible to the next.
pub struct Mutex {
    locked: AtomicBool,
}

impl Mutex {
    /// An unlocked lock.
    pub fn new() -> (r: Mutex) {
        Mutex { locked: AtomicBool::new(false) }
    }

    /// One attempt to move the word from unlocked to locked; true when this
    /// call took the lock.
    pub fn try_acquire(&self) -> (r: bool) {
        self.locked.compare_exchange(false, true, Ordering::Acquire, Ordering::Relaxed).is_ok()
    }

    /// Gives the lock back; only its holder may call this.
    pub fn release(&self) {
        self.locked.store(false, Ordering::Release)
    }
}

/// The exclusive lock over an integer word: zero is unlocked, one locked.
pub struct SpinLock {
    locked: AtomicUsize,
}

impl SpinLock {
    /// An unlocked lock.
    pub fn new() -> (r: SpinLock) {
        SpinLock { locked: AtomicUsize::new(0) }
    }

    /// One attempt to move the word from zero to one; true when this call
    /// took the lock.
    pub fn try_acquire(&self) -> (r: bool) {
        self.locked.compare_exchange(0, 1, Ordering::Acquire, Ordering::Relaxed).is_ok()
    }

    /// Gives the lock back; only its holder may call this.
    pub fn release(&self) {
        self.locked.store(0, Ordering::Release)
    }
}

} // verus!
