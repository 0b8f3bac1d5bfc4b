use mcbe_raknet_rs::time::{Duration, Instant};

#[test]
fn duration_units() {
    assert_eq!(Duration::from_secs(2).as_nanos(), 2_000_000_000);
    assert_eq!(Duration::from_millis(3).as_nanos(), 3_000_000);
    assert!(Duration::zero().is_zero());
    assert!(!Duration::from_nanos(1).is_zero());
}

#[test]
fn instant_arithmetic_saturates() {
    let t = Instant::from_nanos(10);
    assert_eq!(t.add_duration(Duration::from_nanos(5)), Instant::from_nanos(15));
    assert_eq!(
        Instant::from_nanos(u128::MAX - 1).add_duration(Duration::from_nanos(5)),
        Instant::from_nanos(u128::MAX)
    );
    assert_eq!(Instant::from_nanos(15).duration_since(t), Duration::from_nanos(5));
    assert_eq!(t.duration_since(Instant::from_nanos(15)), Duration::zero());
}

#[test]
fn clock_reads_after_the_epoch() {
    assert!(Instant::now().nanos > 0);
}
