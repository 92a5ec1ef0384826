use spinlocks::rw_model::{reader_step, RwPhase, RwRun};
use spinlocks::rwlock::{admit_reader, release_reader, CounterRwSpinLock, RwSpinLock, UNLOCKED, WRITE_LOCKED};

#[test]
fn split_word_write_then_read() {
    let lock = RwSpinLock::new();
    assert!(lock.try_claim_write());
    assert!(lock.readers_drained());
    assert!(!lock.try_read());
    lock.write_release();
    assert!(lock.try_read());
    assert!(!lock.readers_drained());
    lock.read_release();
    assert!(lock.readers_drained());
}

#[test]
fn reader_step_decisions() {
    assert_eq!(reader_step(RwPhase::Idle, false), RwPhase::SawFree);
    assert_eq!(reader_step(RwPhase::Idle, true), RwPhase::Idle);
    assert_eq!(reader_step(RwPhase::Announced, false), RwPhase::Reading);
    assert_eq!(reader_step(RwPhase::Announced, true), RwPhase::BackingOut);
}

#[test]
fn split_lock_writer_waits_for_readers_and_shuts_out_new_ones() {
    let lock = RwSpinLock::new();
    assert!(lock.try_read());
    assert!(lock.try_read());
    assert!(lock.try_claim_write());
    assert!(!lock.try_claim_write());
    assert!(!lock.readers_drained());
    assert!(!lock.try_read());
    lock.read_release();
    assert!(!lock.readers_drained());
    lock.read_release();
    assert!(lock.readers_drained());
    lock.write_release();
    assert!(lock.try_read());
}

#[test]
fn counter_lock_states() {
    let lock = CounterRwSpinLock::new();
    assert!(lock.is_unlocked());
    assert!(lock.try_read());
    assert!(!lock.try_write());
    assert!(lock.try_read());
    assert!(lock.try_read_release());
    assert!(lock.try_read_release());
    assert!(!lock.try_read_release());
    assert!(lock.try_write());
    assert!(!lock.try_read());
    lock.write_release();
    assert!(lock.is_unlocked());
}

#[test]
fn counter_word_transitions() {
    assert_eq!(admit_reader(UNLOCKED), Some(2));
    assert_eq!(admit_reader(2), Some(3));
    assert_eq!(admit_reader(WRITE_LOCKED), None);
    assert_eq!(admit_reader(usize::MAX), None);
    assert_eq!(release_reader(3), Some(2));
    assert_eq!(release_reader(2), Some(UNLOCKED));
    assert_eq!(release_reader(WRITE_LOCKED), None);
    assert_eq!(release_reader(UNLOCKED), None);
}

#[test]
fn counter_word_overlapping_readers_never_free_it() {
    let mut s = admit_reader(UNLOCKED).unwrap();
    for _ in 0..1000 {
        s = admit_reader(s).unwrap();
        assert_ne!(s, UNLOCKED);
        s = release_reader(s).unwrap();
        assert_ne!(s, UNLOCKED);
    }
    assert_eq!(s, 2);
}

#[test]
fn model_writer_blocks_readers() {
    let mut run = RwRun::new(2);
    // Thread 0 starts a write: flag up, count drained, value bumped.
    run.step(0, true);
    run.step(0, true);
    run.step(0, true);
    assert_eq!(run.phase(0), RwPhase::Wrote);
    assert_eq!(run.value(), 1);
    // A read issued while the write is in progress is held back.
    for _ in 0..10 {
        run.step(1, false);
        assert_eq!(run.phase(1), RwPhase::Idle);
    }
    run.step(0, false);
    assert_eq!(run.phase(0), RwPhase::Idle);
    // Once the write is done, a read gets in and sees it.
    run.step(1, false);
    run.step(1, false);
    run.step(1, false);
    assert_eq!(run.phase(1), RwPhase::Reading);
    assert_eq!(run.value(), 1);
}

#[test]
fn model_reader_in_progress_sees_old_value() {
    let mut run = RwRun::new(2);
    for _ in 0..3 {
        run.step(1, false);
    }
    assert_eq!(run.phase(1), RwPhase::Reading);
    for _ in 0..5 {
        run.step(0, true);
        assert_eq!(run.phase(0), RwPhase::Draining);
        assert_eq!(run.value(), 0);
    }
    run.step(1, false);
    run.step(0, true);
    run.step(0, true);
    assert_eq!(run.value(), 1);
}

#[test]
fn model_readers_run_together() {
    let n: usize = 5;
    let mut run = RwRun::new(n);
    for _ in 0..3 {
        for t in 0..n {
            run.step(t, false);
        }
    }
    for t in 0..n {
        assert_eq!(run.phase(t), RwPhase::Reading);
    }
    assert_eq!(run.readers(), 5);
}

#[test]
fn model_split_writer_enters_after_readers_leave() {
    let mut run = RwRun::new(4);
    for _ in 0..3 {
        run.step(0, false);
        run.step(1, false);
    }
    run.step(2, false);
    run.step(3, true);
    assert_eq!(run.phase(3), RwPhase::Draining);
    // A reader that saw the flag down before it went up backs out.
    run.step(2, false);
    run.step(2, false);
    assert_eq!(run.phase(2), RwPhase::BackingOut);
    run.step(3, true);
    assert_eq!(run.phase(3), RwPhase::Draining);
    run.step(0, false);
    run.step(1, false);
    run.step(2, false);
    for t in 0..3 {
        run.step(t, false);
        assert_eq!(run.phase(t), RwPhase::Idle);
    }
    run.step(3, true);
    assert_eq!(run.phase(3), RwPhase::Writing);
    assert!(run.writer_flag());
    assert_eq!(run.readers(), 0);
}
