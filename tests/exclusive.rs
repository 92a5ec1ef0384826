use spinlocks::backoff::{WaitStep, BACKOFF_CAP};
use spinlocks::exclusive::{pause, Mutex, SpinLock, Strategy, Waiter};
use spinlocks::exclusive_model::{run_schedule, IncrementRun};

fn steps(w: &mut Waiter, k: usize) -> Vec<(u32, bool)> {
    (0..k)
        .map(|_| {
            let s: WaitStep = w.after_failure();
            (s.spins, s.park)
        })
        .collect()
}

#[test]
fn naive_and_hinted_spin_wait_steps() {
    let mut w = Waiter::new(Strategy::Spin);
    assert_eq!(steps(&mut w, 3), vec![(0, false); 3]);
    let mut w = Waiter::new(Strategy::HintedSpin);
    assert_eq!(steps(&mut w, 3), vec![(1, false); 3]);
}

#[test]
fn backoff_strategy_grows_to_cap() {
    let mut w = Waiter::new(Strategy::Backoff);
    let spins: Vec<u32> = steps(&mut w, 12).into_iter().map(|(s, p)| {
        assert!(!p);
        s
    }).collect();
    assert_eq!(spins, vec![1, 2, 4, 8, 16, 32, 64, 128, 256, 512, 1024, 1024]);
    assert!(spins.windows(2).all(|p| p[0] <= p[1]));
    assert!(spins.iter().all(|s| *s <= BACKOFF_CAP));
}

#[test]
fn park_strategy_parks_after_cap() {
    let mut w = Waiter::new(Strategy::BackoffThenPark);
    let got = steps(&mut w, 11);
    let parks: Vec<usize> = got.iter().enumerate().filter(|(_, s)| s.1).map(|(i, _)| i).collect();
    assert_eq!(parks, vec![9]);
    assert_eq!(got[9], (512, true));
    assert_eq!(got[10], (1, false));
}

#[test]
fn mutex_word_excludes_second_taker() {
    let m = Mutex::new();
    assert!(m.try_acquire());
    assert!(!m.try_acquire());
    m.release();
    assert!(m.try_acquire());
    pause(4);
}

#[test]
fn spin_lock_word_excludes_second_taker() {
    let l = SpinLock::new();
    assert!(l.try_acquire());
    assert!(!l.try_acquire());
    l.release();
    assert!(l.try_acquire());
}

#[test]
fn eight_threads_ten_thousand_increments_each() {
    let n: usize = 8;
    let m: u64 = 10_000;
    let mut run = IncrementRun::new(n, m);
    let mut seed: u64 = 0x2545_f491_4f6c_dd1d;
    let mut steps: u64 = 0;
    while !run.is_finished() {
        seed = seed.wrapping_mul(6364136223846793005).wrapping_add(1442695040888963407);
        run.step(((seed >> 33) % n as u64) as usize);
        steps += 1;
        assert!(steps < 100_000_000);
    }
    assert_eq!(run.value(), 80_000);
    assert!(!run.is_locked());
}

#[test]
fn round_robin_schedule_counts_every_increment() {
    let schedule: Vec<usize> = (0..3 * 2 * 4 * 3).map(|i| i % 3).collect();
    assert_eq!(run_schedule(3, 2, &schedule), (6, true));
}

#[test]
fn unfinished_schedule_gives_partial_count() {
    // Thread 0 takes the lock, thread 1 fails, thread 0 reads and writes.
    let schedule = vec![0, 1, 0, 0];
    assert_eq!(run_schedule(2, 1, &schedule), (1, false));
}

#[test]
fn holder_that_never_releases_blocks_all() {
    let mut run = IncrementRun::new(3, 2);
    run.step(0);
    assert!(run.is_locked());
    for i in 0..100 {
        run.step(1 + i % 2);
    }
    assert!(run.is_locked());
    assert_eq!(run.value(), 0);
    assert!(!run.is_finished());
}

#[test]
fn backoff_total_hints_within_cap_times_failures() {
    let mut w = Waiter::new(Strategy::Backoff);
    let mut total: u64 = 0;
    for k in 1..=40u64 {
        total += w.after_failure().spins as u64;
        assert!(total <= 1024 * k);
    }
    assert_eq!(total, 1023 + 30 * 1024);
}

#[test]
fn park_strategy_parks_once_per_ten_failures() {
    let mut w = Waiter::new(Strategy::BackoffThenPark);
    let got = steps(&mut w, 35);
    assert_eq!(got.iter().filter(|s| s.1).count(), 35 / 10);
    assert!(got.iter().all(|s| s.0 <= 512));
}
