//! A model of the reader-writer locks under every interleaving of
//! sequentially consistent steps.
use vstd::prelude::*;

use crate::rwlock::{admitted, readers_of, released, UNLOCKED, WRITE_LOCKED};

verus! {

/// Where one thread of the split-counter lock stands.
#[derive(Clone, Copy, Debug, PartialEq, Eq, Structural)]
pub enum RwPhase {
    /// Holding nothing.
    Idle,
    /// A reader that saw the writer flag down.
    SawFree,
    /// A reader that counted itself in and has yet to look at the flag again.
    Announced,
    /// A reader admitted to shared access.
    Reading,
    /// A reader that saw a writer on its second look and counts itself out.
    BackingOut,
    /// A writer that raised the flag and waits for the count to drain.
    Draining,
    /// A writer with exclusive access, value not written yet.
    Writing,
    /// A writer with exclusive access that has written the value.
    Wrote,
}

/// A state of the split-counter lock, of the value it guards, and of its
/// threads.
pub struct RwState {
    pub value: u64,
    pub readers: nat,
    pub writer: bool,
    pub threads: Seq<RwPhase>,
}

/// A thread that is counted in the reader count.
pub open spec fn counted(p: RwPhase) -> bool {
    p == RwPhase::Announced || p == RwPhase::Reading || p == RwPhase::BackingOut
}

/// A thread that owns the writer flag.
pub open spec fn owns_flag(p: RwPhase) -> bool {
    p == RwPhase::Draining || writes(p)
}

/// A thread with exclusive access.
pub open spec fn writes(p: RwPhase) -> bool {
    p == RwPhase::Writing || p == RwPhase::Wrote
}

/// The value once a writer has added one to `v`, wrapping at the top.
pub open spec fn bumped(v: u64) -> u64 {
    if v == u64::MAX {
        0
    } else {
        (v + 1) as u64
    }
}

pub open spec fn count_counted(ps: Seq<RwPhase>) -> nat
    decreases ps.len(),
{
    if ps.len() == 0 {
        0
    } else {
        count_counted(ps.drop_last()) + (if counted(ps.last()) { 1nat } else { 0 })
    }
}

/// The start: value zero, count zero, flag down, `n` idle threads.
pub open spec fn rw_initial(n: nat) -> RwState {
    RwState { value: 0, readers: 0, writer: false, threads: Seq::new(n, |i: int| RwPhase::Idle) }
}

/// The state after thread `t` takes one step; an idle thread starts a write
/// where `write` holds and a read otherwise. A writer adds one to the value
/// in one step and gives the lock back in the next.
pub open spec fn rw_next(s: RwState, t: int, write: bool) -> RwState {
    if 0 <= t < s.threads.len() {
        let set = |p: RwPhase| s.threads.update(t, p);
        match s.threads[t] {
            RwPhase::Idle => if s.writer {
                s
            } else if write {
                RwState { writer: true, threads: set(RwPhase::Draining), ..s }
            } else {
                RwState { threads: set(RwPhase::SawFree), ..s }
            },
            RwPhase::SawFree => RwState {
                readers: s.readers + 1,
                threads: set(RwPhase::Announced),
                ..s
            },
            RwPhase::Announced => if s.writer {
                RwState { threads: set(RwPhase::BackingOut), ..s }
            } else {
                RwState { threads: set(RwPhase::Reading), ..s }
            },
            RwPhase::Reading | RwPhase::BackingOut => if s.readers > 0 {
                RwState { readers: (s.readers - 1) as nat, threads: set(RwPhase::Idle), ..s }
            } else {
                s
            },
            RwPhase::Draining => if s.readers == 0 {
                RwState { threads: set(RwPhase::Writing), ..s }
            } else {
                s
            },
            RwPhase::Writing => RwState { value: bumped(s.value), threads: set(RwPhase::Wrote), ..s },
            RwPhase::Wrote => RwState { writer: false, threads: set(RwPhase::Idle), ..s },
        }
    } else {
        s
    }
}

/// What a reader does after a look at the writer flag: from idle it goes on
/// only where the flag is down; once counted in it is admitted where the
/// flag is still down and backs out otherwise.
pub fn reader_step(p: RwPhase, writer_up: bool) -> (r: RwPhase)
    requires
        p == RwPhase::Idle || p == RwPhase::Announced,
    ensures
        p == RwPhase::Idle ==> r == (if writer_up { RwPhase::Idle } else { RwPhase::SawFree }),
        p == RwPhase::Announced ==> r == (if writer_up {
            RwPhase::BackingOut
        } else {
            RwPhase::Reading
        }),
        forall|s: RwState, t: int|
            0 <= t < s.threads.len() && s.threads[t] == p && s.writer == writer_up
                ==> #[trigger] rw_next(s, t, false).threads[t] == r,
{
    match p {
        RwPhase::Idle => if writer_up {
            RwPhase::Idle
        } else {
            RwPhase::SawFree
        },
        _ => if writer_up {
            RwPhase::BackingOut
        } else {
            RwPhase::Reading
        },
    }
}

/// The state after the steps of `schedule`, each a thread and whether it
/// starts a write.
pub open spec fn rw_run(s: RwState, schedule: Seq<(int, bool)>) -> RwState
    decreases schedule.len(),
{
    if schedule.len() == 0 {
        s
    } else {
        rw_next(rw_run(s, schedule.drop_last()), schedule.last().0, schedule.last().1)
    }
}

/// Shared and exclusive access never meet, and at most one thread owns the
/// writer flag.
pub open spec fn rw_exclusive(s: RwState) -> bool {
    &&& forall|i: int, j: int|
        0 <= i < s.threads.len() && 0 <= j < s.threads.len() && #[trigger] s.threads[i]
            == RwPhase::Reading ==> !writes(#[trigger] s.threads[j])
    &&& forall|i: int, j: int|
        0 <= i < s.threads.len() && 0 <= j < s.threads.len() && owns_flag(#[trigger] s.threads[i])
            && owns_flag(#[trigger] s.threads[j]) ==> i == j
}

/// What holds in every reachable state: the flag is up exactly when a thread
/// owns it, the count is the number of counted threads, and access is
/// exclusive.
pub open spec fn rw_inv(s: RwState) -> bool {
    &&& s.writer <==> exists|i: int| 0 <= i < s.threads.len() && owns_flag(#[trigger] s.threads[i])
    &&& s.readers == count_counted(s.threads)
    &&& rw_exclusive(s)
}

proof fn lemma_count_update(ps: Seq<RwPhase>, i: int, p: RwPhase)
    requires
        0 <= i < ps.len(),
    ensures
        count_counted(ps.update(i, p)) + (if counted(ps[i]) { 1int } else { 0 }) == count_counted(ps)
            + (if counted(p) { 1int } else { 0 }),
    decreases ps.len(),
{
    let u = ps.update(i, p);
    if i == ps.len() - 1 {
        assert(u.drop_last() =~= ps.drop_last());
    } else {
        lemma_count_update(ps.drop_last(), i, p);
        assert(u.drop_last() =~= ps.drop_last().update(i, p));
    }
}

proof fn lemma_count_zero(ps: Seq<RwPhase>, i: int)
    requires
        count_counted(ps) == 0,
        0 <= i < ps.len(),
    ensures
        !counted(ps[i]),
    decreases ps.len(),
{
    if i < ps.len() - 1 {
        lemma_count_zero(ps.drop_last(), i);
    }
}

proof fn lemma_count_positive(ps: Seq<RwPhase>, i: int)
    requires
        0 <= i < ps.len(),
        counted(ps[i]),
    ensures
        count_counted(ps) > 0,
    decreases ps.len(),
{
    if i < ps.len() - 1 {
        lemma_count_positive(ps.drop_last(), i);
    }
}

proof fn lemma_count_all_idle(n: nat)
    ensures
        count_counted(Seq::new(n, |i: int| RwPhase::Idle)) == 0,
    decreases n,
{
    if n > 0 {
        lemma_count_all_idle((n - 1) as nat);
        assert(Seq::new(n, |i: int| RwPhase::Idle).drop_last() =~= Seq::new(
            (n - 1) as nat,
            |i: int| RwPhase::Idle,
        ));
    }
}

/// Every step keeps the invariant.
pub proof fn lemma_rw_next_inv(s: RwState, t: int, write: bool)
    requires
        rw_inv(s),
    ensures
        rw_inv(rw_next(s, t, write)),
{
    let s2 = rw_next(s, t, write);
    if 0 <= t < s.threads.len() {
        let p = s.threads[t];
        lemma_count_update(s.threads, t, s2.threads[t]);
        if counted(p) {
            lemma_count_positive(s.threads, t);
        }
        match p {
            RwPhase::Idle => {
                if !s.writer && write {
                    assert(owns_flag(s2.threads[t]));
                }
            },
            RwPhase::Announced => {
                if !s.writer {
                    assert forall|j: int| 0 <= j < s2.threads.len() implies !writes(
                        #[trigger] s2.threads[j],
                    ) by {
                        if j != t {
                            assert(!owns_flag(s.threads[j]));
                        }
                    }
                }
            },
            RwPhase::Draining => {
                assert(owns_flag(s2.threads[t]));
                if s.readers == 0 {
                    assert forall|j: int| 0 <= j < s2.threads.len() implies #[trigger] s2.threads[j]
                        != RwPhase::Reading by {
                        if j != t {
                            lemma_count_zero(s.threads, j);
                        }
                    }
                }
            },
            RwPhase::Writing => {
                assert(owns_flag(s2.threads[t]));
            },
            RwPhase::Wrote => {
                assert forall|j: int| 0 <= j < s2.threads.len() implies !owns_flag(
                    #[trigger] s2.threads[j],
                ) by {
                    if j != t {
                        assert(owns_flag(s.threads[t]));
                    }
                }
            },
            _ => {},
        }
        if s.writer && !owns_flag(p) {
            let i = choose|i: int| 0 <= i < s.threads.len() && owns_flag(#[trigger] s.threads[i]);
            assert(owns_flag(s2.threads[i]));
        }
        if !s.writer && !owns_flag(s2.threads[t]) {
            assert forall|i: int| 0 <= i < s2.threads.len() implies !owns_flag(
                #[trigger] s2.threads[i],
            ) by {
                if i != t {
                    assert(!owns_flag(s.threads[i]));
                }
            }
        }
    }
}

/// Every state reachable from the start satisfies the invariant.
pub proof fn lemma_rw_run_inv(n: nat, schedule: Seq<(int, bool)>)
    ensures
        rw_inv(rw_run(rw_initial(n), schedule)),
    decreases schedule.len(),
{
    if schedule.len() == 0 {
        lemma_count_all_idle(n);
    } else {
        lemma_rw_run_inv(n, schedule.drop_last());
        lemma_rw_next_inv(
            rw_run(rw_initial(n), schedule.drop_last()),
            schedule.last().0,
            schedule.last().1,
        );
    }
}

/// Reader/writer exclusivity: under every interleaving, no reader holds
/// shared access while a writer holds exclusive access, and at most one
/// writer holds the flag.
pub proof fn lemma_rw_exclusivity(n: nat, schedule: Seq<(int, bool)>)
    ensures
        rw_exclusive(rw_run(rw_initial(n), schedule)),
{
    lemma_rw_run_inv(n, schedule);
}

/// No reader sees a write in progress: while a thread holds shared access,
/// whatever the other threads do, it keeps it and the guarded value does not
/// change, so readers admitted together all see the same value.
pub proof fn lemma_reader_sees_stable_value(s: RwState, r: int, schedule: Seq<(int, bool)>)
    requires
        rw_inv(s),
        0 <= r < s.threads.len(),
        s.threads[r] == RwPhase::Reading,
        forall|k: int| 0 <= k < schedule.len() ==> (#[trigger] schedule[k]).0 != r,
    ensures
        rw_inv(rw_run(s, schedule)),
        rw_run(s, schedule).threads.len() == s.threads.len(),
        rw_run(s, schedule).threads[r] == RwPhase::Reading,
        rw_run(s, schedule).value == s.value,
    decreases schedule.len(),
{
    if schedule.len() > 0 {
        let prev = schedule.drop_last();
        assert forall|k: int| 0 <= k < prev.len() implies (#[trigger] prev[k]).0 != r by {
            assert(prev[k] == schedule[k]);
        }
        lemma_reader_sees_stable_value(s, r, prev);
        let q = rw_run(s, prev);
        let (u, write) = schedule.last();
        assert(schedule.last() == schedule[schedule.len() - 1]);
        lemma_rw_next_inv(q, u, write);
        if 0 <= u < q.threads.len() {
            assert(!writes(q.threads[u]));
        }
    }
}

/// Readers do not block readers: read steps never raise the writer flag,
/// and while it is down a reader advances at each of its own steps, from
/// idle to admitted in three, whatever the other readers do.
pub proof fn lemma_readers_do_not_block(s: RwState, t: int, u: int)
    requires
        0 <= t < s.threads.len(),
        !s.writer,
        s.threads[t] == RwPhase::Idle || s.threads[t] == RwPhase::SawFree || s.threads[t]
            == RwPhase::Announced,
    ensures
        rw_next(s, u, false).writer == s.writer,
        s.threads[t] == RwPhase::Idle ==> rw_next(s, t, false).threads[t] == RwPhase::SawFree,
        s.threads[t] == RwPhase::SawFree ==> rw_next(s, t, false).threads[t] == RwPhase::Announced,
        s.threads[t] == RwPhase::Announced ==> rw_next(s, t, false).threads[t] == RwPhase::Reading,
{
}

/// In the split-counter lock, a writer that raised the flag is never
/// overtaken: whatever the other threads do, it keeps the flag, no thread
/// that was not already reading gets shared access, idle threads stay idle,
/// and only threads already counted in or about to count themselves in can
/// be counted in, so each backing-out reader holds the count up at most once.
pub proof fn lemma_split_writer_not_overtaken(s: RwState, w: int, schedule: Seq<(int, bool)>)
    requires
        rw_inv(s),
        0 <= w < s.threads.len(),
        s.threads[w] == RwPhase::Draining,
        forall|k: int| 0 <= k < schedule.len() ==> (#[trigger] schedule[k]).0 != w,
    ensures
        rw_inv(rw_run(s, schedule)),
        rw_run(s, schedule).threads.len() == s.threads.len(),
        rw_run(s, schedule).threads[w] == RwPhase::Draining,
        forall|i: int|
            0 <= i < s.threads.len() && #[trigger] rw_run(s, schedule).threads[i] == RwPhase::Reading
                ==> s.threads[i] == RwPhase::Reading,
        forall|i: int|
            0 <= i < s.threads.len() && i != w && (s.threads[i] == RwPhase::Idle || s.threads[i]
                == RwPhase::Draining) ==> #[trigger] rw_run(s, schedule).threads[i]
                == s.threads[i],
        forall|i: int|
            0 <= i < s.threads.len() && counted(#[trigger] rw_run(s, schedule).threads[i])
                ==> counted(s.threads[i]) || s.threads[i] == RwPhase::SawFree,
    decreases schedule.len(),
{
    if schedule.len() > 0 {
        let prev = schedule.drop_last();
        assert forall|k: int| 0 <= k < prev.len() implies (#[trigger] prev[k]).0 != w by {
            assert(prev[k] == schedule[k]);
        }
        lemma_split_writer_not_overtaken(s, w, prev);
        let r = rw_run(s, prev);
        let (u, write) = schedule.last();
        assert(schedule.last() == schedule[schedule.len() - 1]);
        lemma_rw_next_inv(r, u, write);
        assert(owns_flag(r.threads[w]));
    }
}

/// In the split-counter lock, a writer that raised the flag enters as soon
/// as every counted reader has left.
pub proof fn lemma_split_writer_enters_when_drained(s: RwState, w: int, write: bool)
    requires
        rw_inv(s),
        0 <= w < s.threads.len(),
        s.threads[w] == RwPhase::Draining,
        forall|i: int| 0 <= i < s.threads.len() ==> !counted(#[trigger] s.threads[i]),
    ensures
        rw_next(s, w, write).threads[w] == RwPhase::Writing,
{
    lemma_count_none(s.threads);
}

/// Writer progress in the split-counter lock: a writer that raised the flag
/// enters at its next step after any run of the others' steps that leaves
/// no thread counted in, that is, once the readers that were admitted or
/// counting themselves in have left.
pub proof fn lemma_split_writer_progress(
    s: RwState,
    w: int,
    schedule: Seq<(int, bool)>,
    write: bool,
)
    requires
        rw_inv(s),
        0 <= w < s.threads.len(),
        s.threads[w] == RwPhase::Draining,
        forall|k: int| 0 <= k < schedule.len() ==> (#[trigger] schedule[k]).0 != w,
        forall|i: int|
            0 <= i < s.threads.len() ==> !counted(#[trigger] rw_run(s, schedule).threads[i]),
    ensures
        rw_next(rw_run(s, schedule), w, write).threads[w] == RwPhase::Writing,
{
    lemma_split_writer_not_overtaken(s, w, schedule);
    let r = rw_run(s, schedule);
    assert forall|i: int| 0 <= i < r.threads.len() implies !counted(#[trigger] r.threads[i]) by {}
    lemma_split_writer_enters_when_drained(r, w, write);
}

proof fn lemma_count_none(ps: Seq<RwPhase>)
    requires
        forall|i: int| 0 <= i < ps.len() ==> !counted(#[trigger] ps[i]),
    ensures
        count_counted(ps) == 0,
    decreases ps.len(),
{
    if ps.len() > 0 {
        lemma_count_none(ps.drop_last());
    }
}

/// In the counter-word lock, readers that keep overlapping starve a writer:
/// one reader joining and another leaving bring the word back where it was,
/// and it never passes through unlocked, the only word a writer takes.
pub proof fn lemma_counter_writer_starves(s: nat)
    requires
        readers_of(s) >= 1,
    ensures
        admitted(s) != UNLOCKED,
        admitted(s) != WRITE_LOCKED,
        released(admitted(s)) == s,
        s != UNLOCKED,
{
}

proof fn lemma_count_below_len(ps: Seq<RwPhase>, i: int)
    requires
        0 <= i < ps.len(),
        !counted(ps[i]),
    ensures
        count_counted(ps) < ps.len(),
    decreases ps.len(),
{
    if i < ps.len() - 1 {
        lemma_count_below_len(ps.drop_last(), i);
        lemma_count_at_most_len(ps.drop_last());
    } else {
        lemma_count_at_most_len(ps.drop_last());
    }
}

proof fn lemma_count_at_most_len(ps: Seq<RwPhase>)
    ensures
        count_counted(ps) <= ps.len(),
    decreases ps.len(),
{
    if ps.len() > 0 {
        lemma_count_at_most_len(ps.drop_last());
    }
}

/// The split-counter model run on a machine.
pub struct RwRun {
    value: u64,
    readers: usize,
    writer: bool,
    threads: Vec<RwPhase>,
}

impl RwRun {
    pub closed spec fn view(&self) -> RwState {
        RwState {
            value: self.value,
            readers: self.readers as nat,
            writer: self.writer,
            threads: self.threads@,
        }
    }

    pub closed spec fn wf(&self) -> bool {
        rw_inv(self@)
    }

    /// The start of a run of `n` idle threads.
    pub fn new(n: usize) -> (r: RwRun)
        ensures
            r@ == rw_initial(n as nat),
            r.wf(),
    {
        let mut threads: Vec<RwPhase> = Vec::new();
        let mut i: usize = 0;
        while i < n
            invariant
                i <= n,
                threads@ == Seq::new(i as nat, |k: int| RwPhase::Idle),
            decreases n - i,
        {
            threads.push(RwPhase::Idle);
            i = i + 1;
            assert(threads@ =~= Seq::new(i as nat, |k: int| RwPhase::Idle));
        }
        let r = RwRun { value: 0, readers: 0, writer: false, threads };
        proof {
            lemma_rw_run_inv(n as nat, Seq::empty());
        }
        r
    }

    /// Thread `t` takes one step; an idle thread starts a write where `write`
    /// holds and a read otherwise. A `t` out of range changes nothing.
    pub fn step(&mut self, t: usize, write: bool)
        requires
            old(self).wf(),
        ensures
            final(self).wf(),
            final(self)@ == rw_next(old(self)@, t as int, write),
    {
        proof {
            lemma_rw_next_inv(self@, t as int, write);
        }
        if t >= self.threads.len() {
            return;
        }
        match self.threads[t] {
            RwPhase::Idle => {
                if !self.writer {
                    if write {
                        self.writer = true;
                        self.threads.set(t, RwPhase::Draining);
                    } else {
                        self.threads.set(t, RwPhase::SawFree);
                    }
                }
            },
            RwPhase::SawFree => {
                proof {
                    lemma_count_below_len(self.threads@, t as int);
                }
                self.readers = self.readers + 1;
                self.threads.set(t, RwPhase::Announced);
            },
            RwPhase::Announced => {
                if self.writer {
                    self.threads.set(t, RwPhase::BackingOut);
                } else {
                    self.threads.set(t, RwPhase::Reading);
                }
            },
            RwPhase::Reading | RwPhase::BackingOut => {
                if self.readers > 0 {
                    self.readers = self.readers - 1;
                    self.threads.set(t, RwPhase::Idle);
                }
            },
            RwPhase::Draining => {
                if self.readers == 0 {
                    self.threads.set(t, RwPhase::Writing);
                }
            },
            RwPhase::Writing => {
                self.value = self.value.wrapping_add(1);
                self.threads.set(t, RwPhase::Wrote);
            },
            RwPhase::Wrote => {
                self.writer = false;
                self.threads.set(t, RwPhase::Idle);
            },
        }
    }

    /// Where thread `t` stands.
    pub fn phase(&self, t: usize) -> (r: RwPhase)
        requires
            t < self@.threads.len(),
        ensures
            r == self@.threads[t as int],
    {
        self.threads[t]
    }

    /// The guarded value.
    pub fn value(&self) -> (r: u64)
        ensures
            r == self@.value,
    {
        self.value
    }

    /// The reader count.
    pub fn readers(&self) -> (r: usize)
        ensures
            r as nat == self@.readers,
    {
        self.readers
    }

    /// Whether the writer flag is up.
    pub fn writer_flag(&self) -> (r: bool)
        ensures
            r == self@.writer,
    {
        self.writer
    }
}

/// A state of the counter-word lock and of its threads, each idle, reading
/// or writing.
pub struct CounterState {
    pub word: nat,
    pub threads: Seq<RwPhase>,
}

/// The start: word unlocked, `n` idle threads.
pub open spec fn counter_initial(n: nat) -> CounterState {
    CounterState { word: UNLOCKED as nat, threads: Seq::new(n, |i: int| RwPhase::Idle) }
}

/// The state after thread `t` takes one step of the counter-word lock: an
/// idle reader joins unless a writer holds the word, an idle writer takes
/// the word only from unlocked, and holders leave.
pub open spec fn counter_next(s: CounterState, t: int, write: bool) -> CounterState {
    if 0 <= t < s.threads.len() {
        match s.threads[t] {
            RwPhase::Idle => if write {
                if s.word == UNLOCKED {
                    CounterState {
                        word: WRITE_LOCKED as nat,
                        threads: s.threads.update(t, RwPhase::Writing),
                    }
                } else {
                    s
                }
            } else if s.word != WRITE_LOCKED {
                CounterState { word: admitted(s.word), threads: s.threads.update(t, RwPhase::Reading) }
            } else {
                s
            },
            RwPhase::Reading => if s.word > 1 {
                CounterState { word: released(s.word), threads: s.threads.update(t, RwPhase::Idle) }
            } else {
                s
            },
            RwPhase::Writing => CounterState {
                word: UNLOCKED as nat,
                threads: s.threads.update(t, RwPhase::Idle),
            },
            _ => s,
        }
    } else {
        s
    }
}

pub open spec fn counter_run(s: CounterState, schedule: Seq<(int, bool)>) -> CounterState
    decreases schedule.len(),
{
    if schedule.len() == 0 {
        s
    } else {
        counter_next(counter_run(s, schedule.drop_last()), schedule.last().0, schedule.last().1)
    }
}

/// What holds in every reachable state of the counter-word lock: the word
/// counts the readers, it reads write-locked exactly while one thread
/// writes, and readers and a writer never hold it together.
pub open spec fn counter_inv(s: CounterState) -> bool {
    &&& forall|i: int|
        0 <= i < s.threads.len() ==> {
            let p = #[trigger] s.threads[i];
            p == RwPhase::Idle || p == RwPhase::Reading || p == RwPhase::Writing
        }
    &&& readers_of(s.word) == count_counted(s.threads)
    &&& s.word == WRITE_LOCKED <==> exists|i: int|
        0 <= i < s.threads.len() && #[trigger] s.threads[i] == RwPhase::Writing
    &&& forall|i: int, j: int|
        0 <= i < s.threads.len() && 0 <= j < s.threads.len() && #[trigger] s.threads[i]
            == RwPhase::Writing && #[trigger] s.threads[j] == RwPhase::Writing ==> i == j
    &&& forall|i: int, j: int|
        0 <= i < s.threads.len() && 0 <= j < s.threads.len() && #[trigger] s.threads[i]
            == RwPhase::Reading ==> #[trigger] s.threads[j] != RwPhase::Writing
}

/// Every step of the counter-word lock keeps its invariant.
pub proof fn lemma_counter_next_inv(s: CounterState, t: int, write: bool)
    requires
        counter_inv(s),
    ensures
        counter_inv(counter_next(s, t, write)),
{
    let s2 = counter_next(s, t, write);
    if 0 <= t < s.threads.len() {
        let p = s.threads[t];
        lemma_count_update(s.threads, t, s2.threads[t]);
        if counted(p) {
            lemma_count_positive(s.threads, t);
        }
        if p == RwPhase::Idle && write && s.word == UNLOCKED {
            assert forall|j: int| 0 <= j < s.threads.len() implies #[trigger] s.threads[j]
                != RwPhase::Reading by {
                if s.threads[j] == RwPhase::Reading {
                    lemma_count_positive(s.threads, j);
                }
            }
            assert(s2.threads[t] == RwPhase::Writing);
        }
        if p == RwPhase::Idle && !write && s.word != WRITE_LOCKED {
            assert forall|j: int| 0 <= j < s2.threads.len() implies #[trigger] s2.threads[j]
                != RwPhase::Writing by {
                if j != t {
                    assert(s.threads[j] != RwPhase::Writing);
                }
            }
        }
        if p == RwPhase::Writing {
            assert forall|j: int| 0 <= j < s2.threads.len() implies #[trigger] s2.threads[j]
                != RwPhase::Writing by {
                if j != t {
                    assert(s.threads[t] == RwPhase::Writing);
                }
            }
        }
        if s.word == WRITE_LOCKED && s2.word == WRITE_LOCKED {
            let i = choose|i: int| 0 <= i < s.threads.len() && #[trigger] s.threads[i] == RwPhase::Writing;
            assert(s2.threads[i] == RwPhase::Writing);
        }
    }
}

/// Reader/writer exclusivity of the counter-word lock: under every
/// interleaving, readers and a writer never hold it together, at most one
/// writer holds it, and while a writer holds it the word reads write-locked.
pub proof fn lemma_counter_exclusivity(n: nat, schedule: Seq<(int, bool)>)
    ensures
        counter_inv(counter_run(counter_initial(n), schedule)),
    decreases schedule.len(),
{
    if schedule.len() == 0 {
        lemma_count_all_idle(n);
    } else {
        lemma_counter_exclusivity(n, schedule.drop_last());
        lemma_counter_next_inv(
            counter_run(counter_initial(n), schedule.drop_last()),
            schedule.last().0,
            schedule.last().1,
        );
    }
}

/// In the counter-word lock a writer enters only from the unlocked word, so
/// only when no reader holds it.
pub proof fn lemma_counter_writer_enters_only_unlocked(s: CounterState, t: int)
    requires
        counter_inv(s),
        0 <= t < s.threads.len(),
        s.threads[t] == RwPhase::Idle,
        counter_next(s, t, true).threads[t] == RwPhase::Writing,
    ensures
        s.word == UNLOCKED,
        count_counted(s.threads) == 0,
        counter_next(s, t, true).word == WRITE_LOCKED,
{
}

} // verus!
