//! Index allocation and the shared counter.

use forke::inner::common::Common;
use forke::inner::counter::Counter;
use forke::inner::NodeInner;

#[test]
fn common_hands_out_rising_indices() {
    let mut c = Common::new();
    assert_eq!(c.indices_left(), u64::MAX);
    assert_eq!(c.next_node_index(), 0);
    assert_eq!(c.next_node_index(), 1);
    assert_eq!(c.next_node_index(), 2);
    assert_eq!(c.indices_left(), u64::MAX - 3);
}

#[test]
fn counter_is_shared_by_clones() {
    let c = Counter::new();
    let d = c.clone();
    assert_eq!(c.next(), Some(0));
    assert_eq!(d.next(), Some(1));
    assert_eq!(c.next(), Some(2));
}

#[test]
fn node_inner_takes_the_next_index() {
    let mut common = Common::new();
    let root = NodeInner::root(&mut common, 5u8);
    let mut child = NodeInner::child(0, &mut common, 6u8);
    assert_eq!(root.index, 0);
    assert_eq!(child.index, 1);
    assert_eq!(root.parent(), None);
    assert_eq!(child.parent(), Some(0));
    assert_eq!(*child.data(), 6);
    assert!(child.alive);
    child.insert_child(9, 3);
    assert_eq!(child.children.entries(), vec![(9, 3)]);
}

#[test]
fn counter_issue_withholds_the_last_value() {
    assert_eq!(Counter::issue(0), Some(0));
    assert_eq!(Counter::issue(41), Some(41));
    assert_eq!(Counter::issue(u64::MAX - 1), Some(u64::MAX - 1));
    assert_eq!(Counter::issue(u64::MAX), None);
}
