//! The examples of the documentation, on the tree.

use forke::{Merge, Tree};

/// Per-node data: an append-only log of events.
#[derive(Debug, Default)]
struct Events(Vec<String>);

impl Merge for Events {
    fn merge(parent: &mut Self, child: Self) {
        parent.0.extend(child.0);
    }
}

#[test]
fn quick_start() {
    let (mut tree, root) = Tree::root(Events::default());
    let child = tree.fork(root, Events(vec!["created".into()]));
    let grandchild = tree.fork(child, Events(vec!["init".into()]));

    assert_eq!(tree.data(grandchild).0, vec!["init"]);

    // Search walks the path to the root.
    let has_created = tree.search(grandchild, |e| {
        e.0.contains(&"created".to_string()).then_some(true)
    });
    assert_eq!(has_created, Some(true));

    // Dropping `child` merges its events into `grandchild`.
    tree.drop_node(child);
    assert_eq!(tree.data(grandchild).0, vec!["created", "init"]);
    assert_eq!(tree.parent(grandchild), Some(root));
}

#[test]
fn fork_example() {
    let (mut tree, parent) = Tree::root(vec![1]);
    let child = tree.fork(parent, vec![2]);
    assert_eq!(*tree.data(child), vec![2]);
}

#[test]
fn fork_n_example() {
    let (mut tree, parent) = Tree::root(vec![0]);
    let children = tree.fork_many(parent, vec![vec![1], vec![2], vec![3]]);
    assert_eq!(*tree.data(children[0]), vec![1]);
    assert_eq!(*tree.data(children[1]), vec![2]);
    assert_eq!(*tree.data(children[2]), vec![3]);
}

#[test]
fn guard_example() {
    let (tree, root) = Tree::root(vec![1, 2, 3]);
    assert_eq!(tree.data(root), &vec![1, 2, 3]);
}

#[test]
fn search_example() {
    let (mut tree, root) = Tree::root(vec![1, 2]);
    let child = tree.fork(root, vec![3]);
    let found = tree.search(child, |v| (v.len() == 2).then_some("parent length"));
    assert_eq!(found, Some("parent length"));
}
