//! A model of the exclusive lock under every interleaving: `n` threads each
//! add one to a shared counter `m` times, each time inside the lock, reading
//! the counter and writing it back in two separate steps.
use vstd::prelude::*;

verus! {

/// Where one thread stands in its current increment.
#[derive(Clone, Copy, Debug, PartialEq, Eq, Structural)]
pub enum Phase {
    /// Not holding the lock.
    Idle,
    /// Holding the lock, counter not read yet.
    Holding,
    /// Holding the lock, having read the counter.
    Loaded(u64),
    /// Holding the lock, having written the counter back.
    Stored,
}

/// One thread: the increments it still has to make and where it stands.
#[derive(Clone, Copy)]
pub struct Worker {
    pub remaining: u64,
    pub phase: Phase,
}

/// A state of the whole system: the lock word, the counter, the threads.
pub struct RunState {
    pub locked: bool,
    pub value: u64,
    pub workers: Seq<Worker>,
}

pub open spec fn holds(w: Worker) -> bool {
    w.phase != Phase::Idle
}

/// The start: lock free, counter zero, `n` idle threads with `m` increments each.
pub open spec fn initial(n: nat, m: u64) -> RunState {
    RunState {
        locked: false,
        value: 0,
        workers: Seq::new(n, |i: int| Worker { remaining: m, phase: Phase::Idle }),
    }
}

/// The state after thread `t` takes one step: an idle thread with work left
/// tries to take the lock; a holder reads the counter, writes back what it
/// read plus one, then gives the lock back.
pub open spec fn next(s: RunState, t: int) -> RunState {
    if 0 <= t < s.workers.len() {
        let w = s.workers[t];
        match w.phase {
            Phase::Idle => if w.remaining > 0 && !s.locked {
                RunState {
                    locked: true,
                    workers: s.workers.update(t, Worker { phase: Phase::Holding, ..w }),
                    ..s
                }
            } else {
                s
            },
            Phase::Holding => RunState {
                workers: s.workers.update(t, Worker { phase: Phase::Loaded(s.value), ..w }),
                ..s
            },
            Phase::Loaded(v) => if v < u64::MAX {
                RunState {
                    value: (v + 1) as u64,
                    workers: s.workers.update(t, Worker { phase: Phase::Stored, ..w }),
                    ..s
                }
            } else {
                s
            },
            Phase::Stored => if w.remaining > 0 {
                RunState {
                    locked: false,
                    workers: s.workers.update(
                        t,
                        Worker { remaining: (w.remaining - 1) as u64, phase: Phase::Idle },
                    ),
                    ..s
                }
            } else {
                s
            },
        }
    } else {
        s
    }
}

/// The state after the threads of `schedule` take their steps in order.
pub open spec fn run(s: RunState, schedule: Seq<int>) -> RunState
    decreases schedule.len(),
{
    if schedule.len() == 0 {
        s
    } else {
        next(run(s, schedule.drop_last()), schedule.last())
    }
}

/// Every thread has made all its increments.
pub open spec fn finished(s: RunState) -> bool {
    forall|i: int| 0 <= i < s.workers.len() ==> #[trigger] s.workers[i].remaining == 0
}

/// No two threads hold the lock at once.
pub open spec fn exclusive(s: RunState) -> bool {
    forall|i: int, j: int|
        0 <= i < s.workers.len() && 0 <= j < s.workers.len() && holds(#[trigger] s.workers[i])
            && holds(#[trigger] s.workers[j]) ==> i == j
}

/// Increments a thread still owes, less the one it has written but not yet
/// released.
pub open spec fn owed(w: Worker) -> int {
    w.remaining - (if w.phase == Phase::Stored { 1int } else { 0 })
}

pub open spec fn total_owed(ws: Seq<Worker>) -> int
    decreases ws.len(),
{
    if ws.len() == 0 {
        0
    } else {
        total_owed(ws.drop_last()) + owed(ws.last())
    }
}

/// What holds in every reachable state: the lock word says whether somebody
/// holds the lock, at most one thread does, a thread that read the counter
/// read its current value, and the counter plus what is still owed is `n * m`.
pub open spec fn inv(s: RunState, n: nat, m: u64) -> bool {
    &&& s.workers.len() == n
    &&& exclusive(s)
    &&& s.locked <==> exists|i: int| 0 <= i < s.workers.len() && holds(#[trigger] s.workers[i])
    &&& forall|i: int|
        0 <= i < s.workers.len() ==> {
            &&& #[trigger] s.workers[i].remaining <= m
            &&& holds(s.workers[i]) ==> s.workers[i].remaining > 0
            &&& s.workers[i].phase matches Phase::Loaded(v) ==> v == s.value
        }
    &&& s.value + total_owed(s.workers) == n * m
}

proof fn lemma_total_owed_update(ws: Seq<Worker>, i: int, w: Worker)
    requires
        0 <= i < ws.len(),
    ensures
        total_owed(ws.update(i, w)) == total_owed(ws) - owed(ws[i]) + owed(w),
    decreases ws.len(),
{
    let u = ws.update(i, w);
    if i == ws.len() - 1 {
        assert(u.drop_last() =~= ws.drop_last());
    } else {
        lemma_total_owed_update(ws.drop_last(), i, w);
        assert(u.drop_last() =~= ws.drop_last().update(i, w));
    }
}

proof fn lemma_total_owed_nonneg(ws: Seq<Worker>)
    requires
        forall|i: int| 0 <= i < ws.len() ==> owed(#[trigger] ws[i]) >= 0,
    ensures
        total_owed(ws) >= 0,
        (forall|i: int| 0 <= i < ws.len() ==> #[trigger] ws[i].remaining == 0) ==> total_owed(ws)
            <= 0,
    decreases ws.len(),
{
    if ws.len() > 0 {
        lemma_total_owed_nonneg(ws.drop_last());
    }
}

proof fn lemma_total_owed_uniform(ws: Seq<Worker>, m: u64)
    requires
        forall|i: int| 0 <= i < ws.len() ==> #[trigger] ws[i] == (Worker { remaining: m, phase: Phase::Idle }),
    ensures
        total_owed(ws) == ws.len() * m,
    decreases ws.len(),
{
    if ws.len() > 0 {
        lemma_total_owed_uniform(ws.drop_last(), m);
        let k = ws.len() as int;
        assert((k - 1) * m + m == k * m) by (nonlinear_arith);
    }
}

/// The start satisfies the invariant.
pub proof fn lemma_initial_inv(n: nat, m: u64)
    ensures
        inv(initial(n, m), n, m),
{
    let s = initial(n, m);
    lemma_total_owed_uniform(s.workers, m);
}

/// Every step keeps the invariant.
pub proof fn lemma_next_inv(s: RunState, t: int, n: nat, m: u64)
    requires
        inv(s, n, m),
    ensures
        inv(next(s, t), n, m),
{
    let s2 = next(s, t);
    if 0 <= t < s.workers.len() {
        let w = s.workers[t];
        assert forall|i: int| 0 <= i < s.workers.len() implies owed(#[trigger] s.workers[i]) >= 0 by {
            assert(s.workers[i].remaining <= m);
        }
        match w.phase {
            Phase::Idle => {
                if w.remaining > 0 && !s.locked {
                    lemma_total_owed_update(s.workers, t, s2.workers[t]);
                    assert(holds(s2.workers[t]));
                }
            },
            Phase::Holding => {
                lemma_total_owed_update(s.workers, t, s2.workers[t]);
                assert(holds(s2.workers[t]));
            },
            Phase::Loaded(v) => {
                lemma_total_owed_update(s.workers, t, s2.workers[t]);
                let rest = s.workers.update(t, Worker { remaining: 0, phase: Phase::Idle });
                lemma_total_owed_update(s.workers, t, Worker { remaining: 0, phase: Phase::Idle });
                lemma_total_owed_nonneg(rest);
                assert(holds(s2.workers[t]));
            },
            Phase::Stored => {
                lemma_total_owed_update(s.workers, t, s2.workers[t]);
                assert forall|i: int| 0 <= i < s2.workers.len() implies !holds(
                    #[trigger] s2.workers[i],
                ) by {
                    if i != t {
                        assert(holds(s.workers[t]));
                    }
                }
            },
        }
    }
}

/// Every state reachable from the start satisfies the invariant.
pub proof fn lemma_run_inv(n: nat, m: u64, schedule: Seq<int>)
    ensures
        inv(run(initial(n, m), schedule), n, m),
    decreases schedule.len(),
{
    if schedule.len() == 0 {
        lemma_initial_inv(n, m);
    } else {
        lemma_run_inv(n, m, schedule.drop_last());
        lemma_next_inv(run(initial(n, m), schedule.drop_last()), schedule.last(), n, m);
    }
}

/// Mutual exclusion: under every interleaving, at most one thread holds the
/// lock at any time.
pub proof fn lemma_mutual_exclusion(n: nat, m: u64, schedule: Seq<int>)
    ensures
        exclusive(run(initial(n, m), schedule)),
{
    lemma_run_inv(n, m, schedule);
}

/// No lost updates: under every interleaving in which all `n` threads make
/// their `m` increments, the counter ends at exactly `n * m`.
pub proof fn lemma_no_lost_updates(n: nat, m: u64, schedule: Seq<int>)
    requires
        finished(run(initial(n, m), schedule)),
    ensures
        run(initial(n, m), schedule).value == n * m,
{
    let s = run(initial(n, m), schedule);
    lemma_run_inv(n, m, schedule);
    assert forall|i: int| 0 <= i < s.workers.len() implies owed(#[trigger] s.workers[i]) >= 0 by {
        assert(s.workers[i].remaining <= m);
    }
    lemma_total_owed_nonneg(s.workers);
}

/// While one thread holds the lock and takes no step, the steps of all the
/// others change nothing: every attempt to take the lock fails. A holder that
/// tries to take the lock again, and so never reaches its release, leaves
/// every thread waiting for ever.
pub proof fn lemma_holder_blocks_everyone(s: RunState, n: nat, m: u64, t: int, schedule: Seq<int>)
    requires
        inv(s, n, m),
        0 <= t < s.workers.len(),
        holds(s.workers[t]),
        forall|k: int| 0 <= k < schedule.len() ==> schedule[k] != t,
    ensures
        run(s, schedule) == s,
        s.locked,
    decreases schedule.len(),
{
    if schedule.len() > 0 {
        lemma_holder_blocks_everyone(s, n, m, t, schedule.drop_last());
        let u = schedule.last();
        if 0 <= u < s.workers.len() {
            assert(!holds(s.workers[u]));
        }
    }
}

/// One attempt by any thread to take the lock word: it succeeds, and sets
/// the word, only where the word is free.
pub open spec fn attempt(s: RunState) -> (RunState, bool) {
    if s.locked {
        (s, false)
    } else {
        (RunState { locked: true, ..s }, true)
    }
}

/// A run in which thread `t` holds the lock and, inside its critical
/// section, keeps trying to take the same lock again, while the other
/// threads of `schedule` take their steps; entries naming `t` are its
/// attempts.
pub open spec fn reentrant_run(s: RunState, t: int, schedule: Seq<int>) -> RunState
    decreases schedule.len(),
{
    if schedule.len() == 0 {
        s
    } else {
        let prev = reentrant_run(s, t, schedule.drop_last());
        if schedule.last() == t {
            attempt(prev).0
        } else {
            next(prev, schedule.last())
        }
    }
}

/// Re-entrant acquisition deadlocks: a holder that tries to take its own
/// lock again fails at every attempt, whatever the others do, and nothing
/// in the system changes, so its inner critical section never runs.
pub proof fn lemma_reentrant_acquire_deadlocks(
    s: RunState,
    n: nat,
    m: u64,
    t: int,
    schedule: Seq<int>,
)
    requires
        inv(s, n, m),
        0 <= t < s.workers.len(),
        holds(s.workers[t]),
    ensures
        reentrant_run(s, t, schedule) == s,
        !attempt(reentrant_run(s, t, schedule)).1,
    decreases schedule.len(),
{
    if schedule.len() > 0 {
        lemma_reentrant_acquire_deadlocks(s, n, m, t, schedule.drop_last());
        let u = schedule.last();
        if u != t && 0 <= u < s.workers.len() {
            assert(!holds(s.workers[u]));
        }
    }
}

/// The model run on a machine: the lock word, the counter and the threads.
pub struct IncrementRun {
    locked: bool,
    value: u64,
    workers: Vec<Worker>,
}

impl IncrementRun {
    pub closed spec fn view(&self) -> RunState {
        RunState { locked: self.locked, value: self.value, workers: self.workers@ }
    }

    /// The start of a run of `n` threads with `m` increments each.
    pub fn new(n: usize, m: u64) -> (r: IncrementRun)
        ensures
            r@ == initial(n as nat, m),
    {
        let mut workers: Vec<Worker> = Vec::new();
        let mut i: usize = 0;
        while i < n
            invariant
                i <= n,
                workers@ == Seq::new(i as nat, |k: int| Worker { remaining: m, phase: Phase::Idle }),
            decreases n - i,
        {
            workers.push(Worker { remaining: m, phase: Phase::Idle });
            i = i + 1;
            assert(workers@ =~= Seq::new(i as nat, |k: int| Worker { remaining: m, phase: Phase::Idle }));
        }
        IncrementRun { locked: false, value: 0, workers }
    }

    /// Thread `t` takes one step; a `t` out of range changes nothing.
    pub fn step(&mut self, t: usize)
        ensures
            final(self)@ == next(old(self)@, t as int),
    {
        if t >= self.workers.len() {
            return;
        }
        let w = self.workers[t];
        match w.phase {
            Phase::Idle => {
                if w.remaining > 0 && !self.locked {
                    self.locked = true;
                    self.workers.set(t, Worker { remaining: w.remaining, phase: Phase::Holding });
                }
            },
            Phase::Holding => {
                self.workers.set(t, Worker { remaining: w.remaining, phase: Phase::Loaded(self.value) });
            },
            Phase::Loaded(v) => {
                if v < u64::MAX {
                    self.value = v + 1;
                    self.workers.set(t, Worker { remaining: w.remaining, phase: Phase::Stored });
                }
            },
            Phase::Stored => {
                if w.remaining > 0 {
                    self.locked = false;
                    self.workers.set(t, Worker { remaining: w.remaining - 1, phase: Phase::Idle });
                }
            },
        }
    }

    /// The shared counter.
    pub fn value(&self) -> (r: u64)
        ensures
            r == self@.value,
    {
        self.value
    }

    /// Whether the lock word reads locked.
    pub fn is_locked(&self) -> (r: bool)
        ensures
            r == self@.locked,
    {
        self.locked
    }

    /// Whether every thread has made all its increments.
    pub fn is_finished(&self) -> (r: bool)
        ensures
            r == finished(self@),
    {
        let mut i: usize = 0;
        while i < self.workers.len()
            invariant
                i <= self.workers@.len(),
                forall|k: int| 0 <= k < i ==> #[trigger] self.workers@[k].remaining == 0,
            decreases self.workers@.len() - i,
        {
            if self.workers[i].remaining != 0 {
                return false;
            }
            i = i + 1;
        }
        true
    }
}

/// Runs `n` threads of `m` increments each under the interleaving
/// `schedule` (each entry names the thread that steps), and returns the
/// counter and whether every thread finished; where they all did, the
/// counter is `n * m`.
pub fn run_schedule(n: usize, m: u64, schedule: &Vec<usize>) -> (r: (u64, bool))
    ensures
        r.0 == run(initial(n as nat, m), schedule@.map_values(|t: usize| t as int)).value,
        r.1 == finished(run(initial(n as nat, m), schedule@.map_values(|t: usize| t as int))),
        r.1 ==> r.0 == n * m,
{
    let ghost sched = schedule@.map_values(|t: usize| t as int);
    let mut machine = IncrementRun::new(n, m);
    let mut i: usize = 0;
    while i < schedule.len()
        invariant
            i <= schedule@.len(),
            sched == schedule@.map_values(|t: usize| t as int),
            machine@ == run(initial(n as nat, m), sched.take(i as int)),
        decreases schedule@.len() - i,
    {
        machine.step(schedule[i]);
        assert(sched.take(i + 1).drop_last() =~= sched.take(i as int));
        i = i + 1;
    }
    assert(sched.take(schedule@.len() as int) =~= sched);
    proof {
        if finished(machine@) {
            lemma_no_lost_updates(n as nat, m, sched);
        }
    }
    (machine.value(), machine.is_finished())
}

} // verus!
