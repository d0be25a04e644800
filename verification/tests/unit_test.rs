use rts_engine::unit::{Joint, Part, PartTree};
use rts_engine::utils::Id;

fn leaf(v: u64) -> PartTree {
    PartTree { id: Id::new(v), joint: Joint::Fix, children: vec![] }
}

fn node(v: u64, children: Vec<PartTree>) -> PartTree {
    PartTree { id: Id::new(v), joint: Joint::Fix, children }
}

fn id(v: u64) -> Id<Part> {
    Id::new(v)
}

// 1 ─┬─ 2 ─┬─ 4
//    │     └─ 5
//    └─ 3 ─── 6
fn sample() -> PartTree {
    node(1, vec![node(2, vec![leaf(4), leaf(5)]), node(3, vec![leaf(6)])])
}

#[test]
fn joint_next_cycles() {
    assert!(Joint::Fix.next() == Joint::AimWeapon0);
    assert!(Joint::AimWeapon0.next() == Joint::Fix);
    assert!(Joint::Fix.next().next() == Joint::Fix);
}

#[test]
fn joint_replace_with_next() {
    let mut j = Joint::Fix;
    j.replace_with_next();
    assert!(j == Joint::AimWeapon0);
    j.replace_with_next();
    assert!(j == Joint::Fix);
}

#[test]
fn find_node_finds_every_part() {
    let t = sample();
    for v in 1..=6u64 {
        assert_eq!(t.find_node(id(v)).map(|n| n.id.value), Some(v));
    }
    assert!(t.find_node(id(7)).is_none());
    assert_eq!(t.find_node(id(3)).unwrap().children.len(), 1);
}

#[test]
fn find_node_takes_first_in_preorder() {
    let mut a = leaf(9);
    a.joint = Joint::AimWeapon0;
    let b = leaf(9);
    let t = node(1, vec![node(2, vec![a]), b]);
    assert!(t.find_node(id(9)).unwrap().joint == Joint::AimWeapon0);
}

#[test]
fn find_node_mut_edits_in_place() {
    let mut t = sample();
    {
        let n = t.find_node_mut(id(5)).unwrap();
        n.joint = Joint::AimWeapon0;
        n.children.push(leaf(7));
    }
    assert!(t.find_node(id(5)).unwrap().joint == Joint::AimWeapon0);
    assert_eq!(t.find_node(id(7)).map(|n| n.id.value), Some(7));
    assert!(t.find_node(id(4)).unwrap().joint == Joint::Fix);
    assert!(t.find_node_mut(id(8)).is_none());
}

#[test]
fn find_node_mut_root() {
    let mut t = sample();
    t.find_node_mut(id(1)).unwrap().joint = Joint::AimWeapon0;
    assert!(t.joint == Joint::AimWeapon0);
}

#[test]
fn remove_node_direct_child() {
    let mut t = sample();
    let parent = t.remove_node(id(3));
    assert_eq!(parent.map(|p| p.value), Some(1));
    assert_eq!(t.children.len(), 1);
    assert!(t.find_node(id(3)).is_none());
    assert!(t.find_node(id(6)).is_none());
    assert!(t.find_node(id(5)).is_some());
}

#[test]
fn remove_node_nested() {
    let mut t = sample();
    let parent = t.remove_node(id(5));
    assert_eq!(parent.map(|p| p.value), Some(2));
    assert!(t.find_node(id(5)).is_none());
    assert_eq!(t.find_node(id(2)).unwrap().children.len(), 1);
}

#[test]
fn remove_node_absent_or_root() {
    let mut t = sample();
    assert!(t.remove_node(id(42)).is_none());
    assert!(t.remove_node(id(1)).is_none());
    assert_eq!(t.iter_values(), vec![1, 3, 6, 2, 5, 4]);
}

#[test]
fn remove_node_applies_to_every_subtree() {
    let mut t = node(1, vec![node(2, vec![leaf(9)]), node(3, vec![leaf(9)])]);
    let parent = t.remove_node(id(9));
    assert_eq!(parent.map(|p| p.value), Some(2));
    assert!(t.find_node(id(9)).is_none());
}

#[test]
fn remove_node_removes_only_first_direct_child() {
    let mut t = node(1, vec![leaf(9), leaf(9)]);
    assert_eq!(t.remove_node(id(9)).map(|p| p.value), Some(1));
    assert_eq!(t.children.len(), 1);
}

trait IterValues {
    fn iter_values(&self) -> Vec<u64>;
}

impl IterValues for PartTree {
    fn iter_values(&self) -> Vec<u64> {
        let mut it = self.iter();
        let mut out = vec![];
        while let Some(p) = it.next() {
            out.push(p.id.value);
        }
        out
    }
}

#[test]
fn iter_visits_last_child_first() {
    assert_eq!(sample().iter_values(), vec![1, 3, 6, 2, 5, 4]);
}

#[test]
fn iter_visits_every_part_once() {
    let mut v = sample().iter_values();
    v.sort();
    assert_eq!(v, vec![1, 2, 3, 4, 5, 6]);
}

#[test]
fn iter_single_part() {
    assert_eq!(leaf(3).iter_values(), vec![3]);
}

#[test]
fn add_child_attaches_under_the_parent() {
    let mut t = sample();
    assert!(t.add_child(id(5), leaf(7)));
    let five = t.find_node(id(5)).unwrap();
    assert_eq!(five.children.len(), 1);
    assert_eq!(five.children[0].id.value, 7);
    assert!(t.add_child(id(2), leaf(8)));
    let two = t.find_node(id(2)).unwrap();
    let ids: Vec<u64> = two.children.iter().map(|c| c.id.value).collect();
    assert_eq!(ids, vec![4, 5, 8]);
}

#[test]
fn add_child_without_parent_changes_nothing() {
    let mut t = sample();
    assert!(!t.add_child(id(42), leaf(7)));
    assert!(t.find_node(id(7)).is_none());
    assert_eq!(t.children.len(), 2);
}

#[test]
fn added_part_is_found_by_its_id() {
    let mut t = sample();
    assert!(t.add_child(id(3), node(9, vec![leaf(10)])));
    let found = t.find_node(id(9)).unwrap();
    assert_eq!(found.id.value, 9);
    assert_eq!(found.children.len(), 1);
    assert_eq!(found.children[0].id.value, 10);
}

#[test]
fn removing_an_absent_or_root_id_changes_nothing() {
    let mut t = sample();
    assert!(t.remove_node(id(42)).is_none());
    assert!(t.remove_node(id(1)).is_none());
    assert_eq!(t.iter_values(), vec![1, 3, 6, 2, 5, 4]);
}
