//! The children map: entries, and the switch of representation with size.

use forke::inner::map::{ChildrenMap, DEMOTE_AT, PROMOTE_AT};
use forke::inner::multiplicity::Multiplicity;

fn sorted(mut v: Vec<(u64, usize)>) -> Vec<(u64, usize)> {
    v.sort();
    v
}

#[test]
fn children_map_single_then_many() {
    let mut m = ChildrenMap::new();
    assert!(matches!(m, ChildrenMap::Empty));
    m.insert(5, 50);
    assert!(matches!(m, ChildrenMap::Single { index: 5, handle: 50 }));
    m.insert(3, 30);
    assert!(matches!(m, ChildrenMap::Many(_)));
    // A `Many` map lists its entries by rising index.
    assert_eq!(m.entries(), vec![(3, 30), (5, 50)]);
}

#[test]
fn children_map_remove() {
    let mut m = ChildrenMap::new();
    assert_eq!(m.remove(&1), None);
    m.insert(1, 10);
    assert_eq!(m.remove(&2), None);
    assert_eq!(m.remove(&1), Some(10));
    assert!(matches!(m, ChildrenMap::Empty));

    m.insert(1, 10);
    m.insert(2, 20);
    m.insert(3, 30);
    assert_eq!(m.remove(&2), Some(20));
    assert!(matches!(m, ChildrenMap::Many(_)));
    assert_eq!(m.remove(&3), Some(30));
    assert!(matches!(m, ChildrenMap::Single { index: 1, handle: 10 }));
    assert_eq!(m.remove(&3), None);
}

#[test]
fn children_map_promotes_and_demotes_with_hysteresis() {
    let mut m = ChildrenMap::new();
    // Insert in an order that is not sorted, so that the sorted store has
    // work to do when the map comes back from a hash map.
    let keys: Vec<u64> = (0..40u64).map(|i| (i * 17) % 40).collect();
    for (n, k) in keys.iter().enumerate() {
        m.insert(*k, *k as usize + 100);
        if n + 1 <= PROMOTE_AT && n + 1 >= 2 {
            assert!(matches!(m, ChildrenMap::Many(_)), "{} entries", n + 1);
        }
        if n + 1 > PROMOTE_AT {
            assert!(matches!(m, ChildrenMap::Huge(_)), "{} entries", n + 1);
        }
    }
    assert_eq!(
        sorted(m.entries()),
        (0..40u64).map(|k| (k, k as usize + 100)).collect::<Vec<_>>()
    );

    // Shrinking below the promotion point keeps the hash map until the
    // demotion point.
    let mut left: Vec<u64> = (0..40).collect();
    while left.len() >= DEMOTE_AT {
        let k = left.remove(0);
        assert_eq!(m.remove(&k), Some(k as usize + 100));
        if left.len() >= DEMOTE_AT {
            assert!(matches!(m, ChildrenMap::Huge(_)), "{} entries", left.len());
        }
    }
    assert!(matches!(m, ChildrenMap::Many(_)));
    assert_eq!(left.len(), DEMOTE_AT - 1);
    // Back in the sorted store, the entries come out by rising index.
    assert_eq!(
        m.entries(),
        left.iter().map(|k| (*k, *k as usize + 100)).collect::<Vec<_>>()
    );
}

#[test]
fn multiplicity_counts() {
    assert!(matches!(Multiplicity::<u8>::from_iter(vec![]), Multiplicity::Empty));
    assert!(matches!(Multiplicity::from_iter(vec![7u8]), Multiplicity::Single(7)));
    assert!(matches!(Multiplicity::from_iter(vec![7u8, 8]), Multiplicity::Multiple));
    assert_eq!(Multiplicity::from_iter(vec![9u8]).into_single(), Some(9));
    assert_eq!(Multiplicity::from_iter(vec![9u8, 1, 2]).into_single(), None);
}
