use camserver::utils::Timer;

#[test]
fn mark_at_counts_from_start() {
    let t = Timer::starting_at(100);
    assert_eq!(t.mark_at(250), 150);
    assert_eq!(t.mark_at(100), 0);
    assert_eq!(t.mark_at(50), 0);
}

#[test]
fn mark_stays_within_a_second() {
    let mut t = Timer::new();
    assert!(t.mark() < 1000);
    t.reset();
    assert!(t.mark() < 1000);
}
