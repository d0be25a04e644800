use rts_engine::timespan::TimeSpan;

#[test]
fn timespan_new_carries_nanos() {
    let t = TimeSpan::new(1, 1_500_000_000);
    assert_eq!(t.as_secs(), 2);
    assert_eq!(t.subsec_nanos(), 500_000_000);
    assert_eq!(t.as_nanos(), 2_500_000_000);
}

#[test]
fn timespan_zero() {
    assert_eq!(TimeSpan::zero().as_nanos(), 0);
}

#[test]
fn timespan_checked_mul() {
    let t = TimeSpan::new(1, 500_000_000);
    assert_eq!(t.checked_mul(3), Some(TimeSpan::new(4, 500_000_000)));
    assert_eq!(TimeSpan::new(u64::MAX, 0).checked_mul(2), None);
    assert_eq!(TimeSpan::new(u64::MAX, 999_999_999).checked_mul(1), Some(TimeSpan::new(u64::MAX, 999_999_999)));
    assert_eq!(t.checked_mul(0), Some(TimeSpan::zero()));
}

#[test]
fn timespan_checked_add() {
    let a = TimeSpan::new(1, 600_000_000);
    let b = TimeSpan::new(2, 600_000_000);
    assert_eq!(a.checked_add(b), Some(TimeSpan::new(4, 200_000_000)));
    assert_eq!(TimeSpan::new(u64::MAX, 999_999_999).checked_add(TimeSpan::new(0, 1)), None);
}

#[test]
fn timespan_checked_div() {
    assert_eq!(TimeSpan::new(0, 10).checked_div(3), Some(TimeSpan::new(0, 3)));
    assert_eq!(TimeSpan::new(1, 2).checked_div(3), Some(TimeSpan::new(0, 333_333_334)));
    assert_eq!(TimeSpan::new(1, 0).checked_div(0), None);
}
