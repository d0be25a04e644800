use rts_engine::frame::ProfilerMap;
use rts_engine::timespan::TimeSpan;

#[test]
fn profiler_new_is_empty() {
    let p = ProfilerMap::new();
    assert!(p.get("total").is_none());
    assert!(p.entries().is_empty());
}

#[test]
fn profiler_add_then_get() {
    let mut p = ProfilerMap::new();
    p.add("total", TimeSpan::new(5, 0));
    p.add("grid", TimeSpan::new(0, 7));
    assert_eq!(p.get("total"), Some(&TimeSpan::new(5, 0)));
    assert_eq!(p.get("grid"), Some(&TimeSpan::new(0, 7)));
    p.add("total", TimeSpan::new(1, 1));
    assert_eq!(p.get("total"), Some(&TimeSpan::new(1, 1)));
    assert_eq!(p.get("grid"), Some(&TimeSpan::new(0, 7)));
    assert_eq!(p.entries().len(), 2);
}

#[test]
fn profiler_mix_new_name_takes_value() {
    let mut p = ProfilerMap::new();
    p.mix("frame_time", TimeSpan::new(0, 16), 20);
    assert_eq!(p.get("frame_time"), Some(&TimeSpan::new(0, 16)));
}

#[test]
fn profiler_mix_averages_down() {
    let mut p = ProfilerMap::new();
    p.add("interp", TimeSpan::new(0, 10));
    p.mix("interp", TimeSpan::new(0, 2), 3);
    // (10 * 3 + 2) / 4 = 8
    assert_eq!(p.get("interp"), Some(&TimeSpan::new(0, 8)));
    p.mix("interp", TimeSpan::new(0, 1), 1);
    // (8 * 1 + 1) / 2 = 4.5, rounded down
    assert_eq!(p.get("interp"), Some(&TimeSpan::new(0, 4)));
}

#[test]
fn profiler_mix_across_seconds() {
    let mut p = ProfilerMap::new();
    p.add("x", TimeSpan::new(1, 0));
    p.mix("x", TimeSpan::new(2, 0), 1);
    assert_eq!(p.get("x"), Some(&TimeSpan::new(1, 500_000_000)));
}

#[test]
fn profiler_mix_weight_zero_takes_new_value() {
    let mut p = ProfilerMap::new();
    p.add("x", TimeSpan::new(9, 9));
    p.mix("x", TimeSpan::new(0, 3), 0);
    assert_eq!(p.get("x"), Some(&TimeSpan::new(0, 3)));
}

#[test]
fn last_add_wins_over_earlier_calls() {
    let mut p = ProfilerMap::new();
    p.add("a", TimeSpan::new(1, 0));
    p.mix("a", TimeSpan::new(3, 0), 1);
    p.add("b", TimeSpan::new(0, 5));
    p.add("a", TimeSpan::new(0, 7));
    p.mix("b", TimeSpan::new(0, 15), 1);
    assert_eq!(p.get("a").map(|t| t.as_nanos()), Some(7));
    assert_eq!(p.get("b").map(|t| t.as_nanos()), Some(10));
    assert!(p.get("c").is_none());
}
