use rts_engine::utils::{pop_set, rand_id, rand_id_unsafe, time, Id, ID_CHARS, ID_SIZE};
use std::collections::HashSet;

struct Player;

#[test]
fn id_new_keeps_value() {
    let id: Id<Player> = Id::new(42);
    assert_eq!(id.value, 42);
}

#[test]
fn id_copies_compare_equal() {
    let a: Id<Player> = Id::new(7);
    let b = a.clone();
    let c = a;
    assert!(a == b);
    assert!(b == c);
    assert!(a != Id::new(8));
}

#[test]
fn id_hashes_by_value() {
    let mut set: HashSet<Id<Player>> = HashSet::new();
    set.insert(Id::new(3));
    set.insert(Id::new(3));
    set.insert(Id::new(4));
    assert_eq!(set.len(), 2);
    assert!(set.contains(&Id::new(4)));
}

#[test]
fn id_fmt_zero() {
    let id: Id<Player> = Id::new(0);
    assert_eq!(id.fmt("\"rts::frame::Player\""), "Player#GYHA61aHgyL");
}

#[test]
fn id_fmt_values() {
    let name = "\"rts::mobile::KBot\"";
    assert_eq!(Id::<Player>::new(1).fmt(name), "KBot#IjyptM6J04M");
    assert_eq!(Id::<Player>::new(255).fmt(name), "KBot#UvreOgdX2sh");
    assert_eq!(Id::<Player>::new(12345678901234567890).fmt(name), "KBot#fTfXA0PUi0e");
    assert_eq!(Id::<Player>::new(u64::MAX).fmt(name), "KBot#V6ZKC2AZMxh");
}

#[test]
fn id_fmt_without_path_keeps_opening_quote() {
    assert_eq!(Id::<Player>::new(0).fmt("\"Player\""), "\"Player#GYHA61aHgyL");
}

#[test]
fn id_fmt_splits_left_to_right() {
    assert_eq!(Id::<Player>::new(0).fmt("\"a:::b\""), ":b#GYHA61aHgyL");
}

#[test]
fn rand_id_unsafe_uses_alphabet() {
    for _ in 0..50 {
        let s = rand_id_unsafe();
        assert_eq!(s.chars().count(), ID_SIZE);
        assert!(s.chars().all(|c| ID_CHARS.contains(&c)));
    }
}

#[test]
fn id_chars_are_distinct_alphanumerics() {
    let set: HashSet<char> = ID_CHARS.iter().copied().collect();
    assert_eq!(set.len(), 62);
    assert!(ID_CHARS.iter().all(|c| c.is_ascii_alphanumeric()));
}

#[test]
fn rand_id_draws_values() {
    let a: Id<Player> = rand_id();
    let b: Id<Player> = rand_id();
    let c: Id<Player> = rand_id();
    assert!(a.value != b.value || b.value != c.value);
}

#[test]
fn pop_set_takes_a_member() {
    let mut set: HashSet<u64> = [1u64, 2, 3].iter().copied().collect();
    let x = pop_set(&mut set);
    assert!([1u64, 2, 3].contains(&x));
    assert_eq!(set.len(), 2);
    assert!(!set.contains(&x));
    let y = pop_set(&mut set);
    let z = pop_set(&mut set);
    assert!(set.is_empty());
    let mut all = vec![x, y, z];
    all.sort();
    assert_eq!(all, vec![1, 2, 3]);
}

#[test]
fn time_runs_the_closure() {
    let mut ran = 0;
    let d = time(|| {
        ran += 1;
        ran
    });
    assert_eq!(ran, 1);
    assert!(d.as_secs() < 60);
}
