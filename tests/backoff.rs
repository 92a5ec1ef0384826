use spinlocks::backoff::{Backoff, ParkingBackoff};

#[test]
fn backoff_doubles_up_to_cap() {
    let mut b = Backoff::new();
    let mut seen = Vec::new();
    for _ in 0..13 {
        seen.push(b.spins());
        b.grow();
    }
    assert_eq!(seen, vec![1, 2, 4, 8, 16, 32, 64, 128, 256, 512, 1024, 1024, 1024]);
}

#[test]
fn parking_backoff_parks_only_at_cap() {
    let mut p = ParkingBackoff::new();
    for i in 0..30u32 {
        let step = p.on_failure();
        assert_eq!(step.spins, 1u32 << (i % 10));
        assert_eq!(step.park, i % 10 == 9);
    }
}
