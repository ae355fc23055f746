//! Node creation, data access, forking, dropping and merging, on the tree
//! that holds the nodes.

use std::sync::atomic::{AtomicBool, Ordering::Relaxed};
use std::sync::{Arc, Mutex};

use forke::{Merge, Tree};

/// Per-node payload that records drops and merges where a test can still
/// see them after the node is gone.
#[derive(Debug)]
struct Payload {
    id: u64,
    dropped: Arc<AtomicBool>,
    merged_into_me: Arc<Mutex<Vec<u64>>>,
}

/// What a test keeps of a `Payload`.
#[derive(Debug, Clone)]
struct Obs {
    id: u64,
    dropped: Arc<AtomicBool>,
    merged_into_me: Arc<Mutex<Vec<u64>>>,
}

impl Payload {
    fn pair(id: u64) -> (Self, Obs) {
        let t = Payload {
            id,
            dropped: Arc::new(AtomicBool::new(false)),
            merged_into_me: Arc::new(Mutex::new(Vec::new())),
        };
        let o = Obs {
            id,
            dropped: t.dropped.clone(),
            merged_into_me: t.merged_into_me.clone(),
        };
        (t, o)
    }
}

impl Drop for Payload {
    fn drop(&mut self) {
        self.dropped.store(true, Relaxed);
    }
}

impl Merge for Payload {
    fn merge(parent: &mut Self, child: Self) {
        parent.merged_into_me.lock().unwrap().push(child.id);
    }
}

impl Obs {
    fn is_dropped(&self) -> bool {
        self.dropped.load(Relaxed)
    }

    fn merges(&self) -> Vec<u64> {
        self.merged_into_me.lock().unwrap().clone()
    }
}

#[test]
fn root_create_and_drop() {
    let (data, obs) = Payload::pair(0);
    let (mut tree, root) = Tree::root(data);
    assert!(!obs.is_dropped());
    tree.drop_node(root);
    assert!(obs.is_dropped());
    assert!(!tree.contains(root));
}

#[test]
fn root_has_no_parent() {
    let (tree, root) = Tree::root(vec![0u8]);
    assert!(tree.parent(root).is_none());
}

#[test]
fn root_guard_read() {
    let (data, obs) = Payload::pair(7);
    let (tree, root) = Tree::root(data);
    assert_eq!(tree.data(root).id, obs.id);
}

#[test]
fn root_guard_write() {
    let (mut tree, root) = Tree::root(vec![1u32]);
    tree.data_mut(root).push(2);
    assert_eq!(*tree.data(root), vec![1, 2]);
}

#[test]
fn fork_single_child() {
    let (mut tree, root) = Tree::root(vec![1u32]);
    let child = tree.fork(root, vec![2]);
    assert_eq!(*tree.data(child), vec![2]);
    assert_eq!(*tree.data(tree.parent(child).unwrap()), vec![1]);
}

#[test]
fn fork_many() {
    let (mut tree, root) = Tree::root(String::new());
    let children = tree.fork_many(root, vec!["a".into(), "b".into(), "c".into()]);
    assert_eq!(children.len(), 3);
    assert_eq!(*tree.data(children[0]), "a");
    assert_eq!(*tree.data(children[1]), "b");
    assert_eq!(*tree.data(children[2]), "c");

    assert!(tree.parent(children[0]).is_some());
    assert!(tree.parent(children[1]).is_some());
    assert!(tree.parent(children[2]).is_some());
}

#[test]
fn many_children_grow_and_shrink_transitions() {
    // The children map switches representation as it grows and shrinks
    // (single entry, sorted vec, hash map). Crossing those boundaries in
    // both directions must not panic or lose children.
    let (mut tree, root) = Tree::root(vec![0u32]);

    let mut children: Vec<usize> = (1..=40u32).map(|i| tree.fork(root, vec![i])).collect();
    let survivor = children.pop().unwrap();

    for c in children {
        tree.drop_node(c);
    }

    assert_eq!(*tree.data(survivor), vec![40]);
    assert_eq!(*tree.data(tree.parent(survivor).unwrap()), vec![0]);

    // Root collapse merges downward into the survivor.
    tree.drop_node(root);
    assert_eq!(*tree.data(survivor), vec![0, 40]);
    assert!(tree.parent(survivor).is_none());
}

#[test]
fn collapse_keeps_the_parent_data_object() {
    let (rd, ro) = Payload::pair(1);
    let (md, mo) = Payload::pair(2);
    let (ld, lo) = Payload::pair(3);

    let (mut tree, root) = Tree::root(rd);
    let mid = tree.fork(root, md);
    let leaf = tree.fork(mid, ld);

    tree.drop_node(mid);
    // mid's data absorbed leaf's, and took leaf's place.
    assert_eq!(mo.merges(), vec![lo.id]);
    assert!(lo.is_dropped());
    assert!(!mo.is_dropped());
    assert_eq!(tree.data(leaf).id, mo.id);
    assert_eq!(tree.data(tree.parent(leaf).unwrap()).id, ro.id);

    tree.drop_node(leaf);
    tree.drop_node(root);
    assert!(ro.is_dropped());
    assert!(mo.is_dropped());
}

#[test]
fn root_owned_guard() {
    let (data, obs) = Payload::pair(3);
    let (tree, root) = Tree::root(data);
    assert_eq!(tree.data(root).id, obs.id);
    assert!(tree.parent(root).is_none());
}

#[test]
fn root_owned_write_guard() {
    let (mut tree, root) = Tree::root(vec![10u32]);
    {
        let data = tree.data_mut(root);
        data.push(20);
        assert_eq!(*data, vec![10, 20]);
    }
    assert_eq!(*tree.data(root), vec![10, 20]);
}

#[test]
fn fork_n() {
    let (mut tree, root) = Tree::root(String::new());
    let children = tree.fork_many(root, vec!["a".into(), "b".into(), "c".into()]);
    let [child0, child1, child2] = [children[0], children[1], children[2]];
    assert_eq!(tree.data(child0), "a");
    assert_eq!(tree.data(child1), "b");
    assert_eq!(tree.data(child2), "c");

    assert!(tree.parent(child0).is_some());
    assert!(tree.parent(child1).is_some());
    assert!(tree.parent(child2).is_some());
}

#[test]
fn fork_many_empty_and_unconsumed() {
    let (mut tree, root) = Tree::root(vec![0u32]);

    assert_eq!(tree.fork_many(root, Vec::<Vec<u32>>::new()).len(), 0);

    let child = tree.fork(root, vec![2]);
    assert_eq!(*tree.data(child), vec![2]);
}

#[test]
fn fork_many_keeps_order_and_parent() {
    let (mut tree, root) = Tree::root(vec![0u32]);
    let first = tree.fork(root, vec![1]);
    let rest = tree.fork_many(root, vec![vec![2], vec![3]]);
    assert_eq!(rest.len(), 2);
    assert_eq!(*tree.data(rest[0]), vec![2]);
    assert_eq!(*tree.data(rest[1]), vec![3]);
    assert_eq!(tree.parent(rest[0]), Some(root));
    assert_eq!(tree.parent(rest[1]), Some(root));
    assert_ne!(rest[0], first);
    assert_ne!(rest[1], first);
    assert!(tree.is_alive(rest[0]) && tree.is_alive(rest[1]));
}

#[test]
fn large_large_linear_chain_no_leak() {
    // Build a long chain, then drop from root down.
    // The cascade should merge everything cleanly.
    let (mut tree, root) = Tree::root(vec![0u32]);
    let mut nodes = vec![root];
    for i in 1..1000 {
        let child = tree.fork(*nodes.last().unwrap(), vec![i]);
        nodes.push(child);
    }

    let leaf_ref = nodes[999];
    assert_eq!(tree.data(leaf_ref), &vec![999]);

    // Drop all but the leaf, oldest first.
    let leaf = nodes.pop().unwrap();
    for node in nodes {
        tree.drop_node(node);
    }

    // Leaf should now be the root with all data merged into it.
    assert!(tree.parent(leaf).is_none());
    assert_eq!(*tree.data(leaf), (0..1000).collect::<Vec<u32>>());
    tree.drop_node(leaf);
    assert!(!tree.contains(leaf));
}

#[test]
fn large_large_star_no_leak() {
    let (data, root_obs) = Payload::pair(0);
    let (mut tree, root) = Tree::root(data);
    let mut observers = Vec::new();
    let children: Vec<usize> = (1..=1000)
        .map(|i| {
            let (d, o) = Payload::pair(i);
            observers.push(o);
            tree.fork(root, d)
        })
        .collect();
    tree.drop_node(root);
    assert!(tree.contains(root));
    assert!(!tree.is_alive(root));

    // Drop all children.
    for child in children {
        tree.drop_node(child);
    }
    assert!(root_obs.is_dropped());
    assert!(observers.iter().all(|o| o.is_dropped()));
}

#[test]
fn large_grow_and_shrink_repeatedly() {
    // Grow a tree, then tear it down, multiple times.
    for _ in 0..50 {
        let (mut tree, root) = Tree::root(vec![0u32]);
        let mut nodes: Vec<usize> = vec![];
        for i in 0..200 {
            let parent = if nodes.is_empty() {
                root
            } else {
                nodes[nodes.len() / 2]
            };
            nodes.push(tree.fork(parent, vec![i]));
        }
        tree.drop_node(root);
        // Drop in reverse.
        while let Some(n) = nodes.pop() {
            tree.drop_node(n);
        }
        assert!(!tree.contains(root));
    }
}

#[test]
fn large_fork_many_then_drop_all() {
    let (mut tree, root) = Tree::root(vec![0u32]);
    for _ in 0..20 {
        let children = tree.fork_many(root, (0..100).map(|i| vec![i]).collect());
        for child in children {
            tree.drop_node(child);
        }
    }
    assert_eq!(*tree.data(root), vec![0]);
    tree.drop_node(root);
    assert!(!tree.contains(root));
}

#[test]
fn freed_slots_are_reused() {
    let (mut tree, root) = Tree::root(vec![0u32]);
    let a = tree.fork(root, vec![1]);
    tree.drop_node(a);
    assert!(!tree.contains(a));
    let b = tree.fork(root, vec![2]);
    assert_eq!(a, b);
    assert_eq!(*tree.data(b), vec![2]);
}

#[test]
fn drop_with_two_children_keeps_the_node_dead() {
    let (mut tree, root) = Tree::root(vec![0u32]);
    let mid = tree.fork(root, vec![1]);
    let a = tree.fork(mid, vec![2]);
    let b = tree.fork(mid, vec![3]);
    tree.drop_node(mid);
    assert!(tree.contains(mid));
    assert!(!tree.is_alive(mid));
    assert_eq!(tree.parent(a), Some(mid));
    assert_eq!(*tree.data(mid), vec![1]);

    // Dropping one child leaves the dead node a single child: it folds
    // into the other one.
    tree.drop_node(a);
    assert!(!tree.contains(a));
    assert!(!tree.contains(mid));
    assert_eq!(tree.parent(b), Some(root));
    assert_eq!(*tree.data(b), vec![1, 3]);
}

#[test]
fn drop_leaf_under_live_parent_stops() {
    let (mut tree, root) = Tree::root(vec![0u32]);
    let mid = tree.fork(root, vec![1]);
    let leaf = tree.fork(mid, vec![2]);
    tree.drop_node(leaf);
    assert!(!tree.contains(leaf));
    assert!(tree.contains(mid) && tree.is_alive(mid));
    assert_eq!(tree.parent(mid), Some(root));
    assert_eq!(*tree.data(mid), vec![1]);
}

#[test]
fn readme_cascade() {
    // A has children B and C; B has D and E; E has F, G and H.
    // Dropping B and E marks them dead; dropping D removes D, which leaves
    // B with the single child E: B folds into E.
    let (mut tree, a) = Tree::root(vec!["a"]);
    let b = tree.fork(a, vec!["b"]);
    let c = tree.fork(a, vec!["c"]);
    let d = tree.fork(b, vec!["d"]);
    let e = tree.fork(b, vec!["e"]);
    let f = tree.fork(e, vec!["f"]);
    let g = tree.fork(e, vec!["g"]);
    let h = tree.fork(e, vec!["h"]);

    tree.drop_node(b);
    tree.drop_node(e);
    assert!(tree.contains(b) && tree.contains(d) && tree.contains(e));

    tree.drop_node(d);
    assert!(!tree.contains(d));
    assert!(!tree.contains(b));
    assert_eq!(*tree.data(e), vec!["b", "e"]);
    assert_eq!(tree.parent(e), Some(a));
    assert!(!tree.is_alive(e));
    for x in [f, g, h] {
        assert_eq!(tree.parent(x), Some(e));
    }
    // A still has two children, C and B+E.
    assert_eq!(tree.parent(c), Some(a));
    assert!(tree.is_alive(a));
}
