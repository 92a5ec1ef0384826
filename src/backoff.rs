//! Waiting policies consumed by the acquisition loops.
use vstd::prelude::*;

verus! {

/// The largest number of hint-issuing iterations between two attempts.
pub const BACKOFF_CAP: u32 = 1024;

/// Number of spins that the exponential policy asks for before retry `k`
/// (counting from zero): it starts at one, doubles, and stops at the cap.
pub open spec fn spin_count(k: nat) -> nat
    decreases k,
{
    if k == 0 {
        1
    } else {
        let prev = spin_count((k - 1) as nat);
        if 2 * prev <= BACKOFF_CAP {
            2 * prev
        } else {
            BACKOFF_CAP as nat
        }
    }
}

/// Two to the power `i`.
pub open spec fn pow2(i: nat) -> nat
    decreases i,
{
    if i == 0 {
        1
    } else {
        2 * pow2((i - 1) as nat)
    }
}

/// Exponential capped backoff: the number of spins to make after a failed
/// attempt, doubled after each failure up to `BACKOFF_CAP`.
pub struct Backoff {
    spins: u32,
}

impl Backoff {
    pub closed spec fn view(&self) -> nat {
        self.spins as nat
    }

    pub closed spec fn wf(&self) -> bool {
        1 <= self.spins <= BACKOFF_CAP
    }

    /// A fresh policy, which asks for one spin.
    pub fn new() -> (r: Backoff)
        ensures
            r.wf(),
            r@ == spin_count(0),
    {
        Backoff { spins: 1 }
    }

    /// The number of spins to make after the current failure.
    pub fn spins(&self) -> (r: u32)
        ensures
            r as nat == self@,
    {
        self.spins
    }

    /// Records a failure: the spin count doubles, and stays at the cap once
    /// it has reached it.
    pub fn grow(&mut self)
        requires
            old(self).wf(),
        ensures
            final(self).wf(),
            old(self)@ * 2 <= BACKOFF_CAP ==> final(self)@ == old(self)@ * 2,
            old(self)@ * 2 > BACKOFF_CAP ==> final(self)@ == BACKOFF_CAP,
    {
        if self.spins <= BACKOFF_CAP / 2 {
            self.spins = self.spins * 2;
        } else {
            self.spins = BACKOFF_CAP;
        }
    }
}

/// Every spin count lies between one and the cap.
pub proof fn lemma_spin_count_bounded(k: nat)
    ensures
        1 <= spin_count(k) <= BACKOFF_CAP,
    decreases k,
{
    if k > 0 {
        lemma_spin_count_bounded((k - 1) as nat);
    }
}

/// The spin counts never decrease: for `i <= j`, retry `j` spins at least as
/// long as retry `i`, and never longer than the cap.
pub proof fn lemma_spin_count_monotone(i: nat, j: nat)
    requires
        i <= j,
    ensures
        spin_count(i) <= spin_count(j) <= BACKOFF_CAP,
    decreases j - i,
{
    lemma_spin_count_bounded(j);
    if i < j {
        lemma_spin_count_bounded((j - 1) as nat);
        lemma_spin_count_monotone(i, (j - 1) as nat);
    }
}

/// The spin counts are the powers of two 1, 2, 4, ..., 1024 for the first
/// eleven retries, and the cap for every retry after.
pub proof fn lemma_spin_count_shape(k: nat)
    ensures
        k <= 10 ==> spin_count(k) == pow2(k),
        k >= 10 ==> spin_count(k) == BACKOFF_CAP,
    decreases k,
{
    reveal_with_fuel(pow2, 11);
    reveal_with_fuel(spin_count, 11);
    if k > 10 {
        lemma_spin_count_shape((k - 1) as nat);
    }
}

/// What a waiting thread does after one failed attempt under the
/// backoff-then-park policy.
#[derive(Clone, Copy, Debug)]
pub struct WaitStep {
    /// Hint-issuing iterations to make first.
    pub spins: u32,
    /// Whether to deschedule the thread after those spins.
    pub park: bool,
}

/// Counter that the backoff-then-park policy holds before failure `k`
/// (counting from zero): it doubles after each failure and goes back to one
/// once it has reached the cap.
pub open spec fn park_counter(k: nat) -> nat
    decreases k,
{
    if k == 0 {
        1
    } else {
        let prev = park_counter((k - 1) as nat);
        if 2 * prev >= BACKOFF_CAP {
            1
        } else {
            2 * prev
        }
    }
}

/// Whether failure `k` of the backoff-then-park policy ends in a park.
pub open spec fn parks_at(k: nat) -> bool {
    2 * park_counter(k) >= BACKOFF_CAP
}

/// Backoff that escalates to descheduling: it spins like `Backoff`, and once
/// its doubled counter reaches the cap it parks the thread and starts over.
pub struct ParkingBackoff {
    counter: u32,
}

impl ParkingBackoff {
    pub closed spec fn view(&self) -> nat {
        self.counter as nat
    }

    pub closed spec fn wf(&self) -> bool {
        1 <= self.counter < BACKOFF_CAP
    }

    /// A fresh policy, with its counter at one.
    pub fn new() -> (r: ParkingBackoff)
        ensures
            r.wf(),
            r@ == park_counter(0),
    {
        ParkingBackoff { counter: 1 }
    }

    /// Records a failed attempt and says what to do before the next one:
    /// spin as many times as the counter says, then double it; where the
    /// doubled counter reaches the cap, park and reset the counter to one.
    pub fn on_failure(&mut self) -> (r: WaitStep)
        requires
            old(self).wf(),
        ensures
            final(self).wf(),
            r.spins as nat == old(self)@,
            r.park == (2 * old(self)@ >= BACKOFF_CAP),
            r.park ==> final(self)@ == 1,
            !r.park ==> final(self)@ == 2 * old(self)@,
    {
        let spins = self.counter;
        if self.counter >= BACKOFF_CAP / 2 {
            self.counter = 1;
            WaitStep { spins, park: true }
        } else {
            self.counter = self.counter * 2;
            WaitStep { spins, park: false }
        }
    }
}

/// The backoff-then-park counter runs through 1, 2, 4, ..., 512 and starts
/// over: before failure `k` it is two to the power `k % 10`.
pub proof fn lemma_park_counter_cycle(k: nat)
    ensures
        park_counter(k) == pow2(k % 10),
    decreases k,
{
    reveal_with_fuel(pow2, 11);
    if k > 0 {
        lemma_park_counter_cycle((k - 1) as nat);
        assert((k - 1) as nat % 10 == 9 ==> k % 10 == 0);
        assert((k - 1) as nat % 10 < 9 ==> k % 10 == (k - 1) as nat % 10 + 1);
    }
}

/// The backoff-then-park policy deschedules only once its counter has
/// reached the cap: no failure before the tenth parks, the tenth does, and
/// after each park the next nine failures only spin again.
pub proof fn lemma_park_only_at_cap(k: nat)
    ensures
        parks_at(k) <==> k % 10 == 9,
        k < 9 ==> !parks_at(k),
        parks_at(9),
{
    reveal_with_fuel(pow2, 11);
    lemma_park_counter_cycle(k);
    lemma_park_counter_cycle(9);
}

/// Hints issued over the first `k` failures of the exponential policy.
pub open spec fn total_spins(k: nat) -> nat
    decreases k,
{
    if k == 0 {
        0
    } else {
        total_spins((k - 1) as nat) + spin_count((k - 1) as nat)
    }
}

/// Over `k` failures the exponential policy issues at most the cap times `k`
/// hints.
pub proof fn lemma_total_spins_bounded(k: nat)
    ensures
        total_spins(k) <= BACKOFF_CAP * k,
    decreases k,
{
    if k > 0 {
        lemma_total_spins_bounded((k - 1) as nat);
        lemma_spin_count_bounded((k - 1) as nat);
    }
}

/// Parks among the first `k` failures of the backoff-then-park policy.
pub open spec fn parks_within(k: nat) -> nat
    decreases k,
{
    if k == 0 {
        0
    } else {
        parks_within((k - 1) as nat) + (if parks_at((k - 1) as nat) { 1nat } else { 0 })
    }
}

/// Over `k` failures the backoff-then-park policy parks `k / 10` times, and
/// never spins as long as the cap: between two parks it spins 1, 2, ..., 512.
pub proof fn lemma_parks_within(k: nat)
    ensures
        parks_within(k) == k / 10,
        park_counter(k) <= BACKOFF_CAP / 2,
    decreases k,
{
    reveal_with_fuel(pow2, 11);
    lemma_park_counter_cycle(k);
    let r = k % 10;
    assert(r == 0 || r == 1 || r == 2 || r == 3 || r == 4 || r == 5 || r == 6 || r == 7 || r == 8
        || r == 9);
    if k > 0 {
        lemma_parks_within((k - 1) as nat);
        lemma_park_only_at_cap((k - 1) as nat);
        assert(((k - 1) as nat) % 10 == 9 ==> k / 10 == ((k - 1) as nat) / 10 + 1);
        assert(((k - 1) as nat) % 10 != 9 ==> k / 10 == ((k - 1) as nat) / 10);
    }
}

} // verus!
