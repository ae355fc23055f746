//! Traversal and search from a node up to the root.

use forke::walk::TraverseIter;
use forke::Tree;

#[test]
fn traverse_iter_root_to_leaf() {
    let (mut tree, root) = Tree::root(vec![1u32]);
    let mid = tree.fork(root, vec![2]);
    let leaf = tree.fork(mid, vec![3]);

    let collected: Vec<Vec<u32>> = tree
        .traverse(leaf)
        .into_iter()
        .map(|s| tree.data(s).clone())
        .collect();
    assert_eq!(collected, vec![vec![3], vec![2], vec![1]]);
}

#[test]
fn traverse_ref_iter() {
    let (mut tree, root) = Tree::root(vec![10u32]);
    let child = tree.fork(root, vec![20]);
    let leaf = tree.fork(child, vec![30]);

    let collected: Vec<&Vec<u32>> = tree
        .traverse(leaf)
        .into_iter()
        .map(|s| tree.data(s))
        .collect();
    assert_eq!(collected, vec![&vec![30], &vec![20], &vec![10]]);
}

#[test]
fn traverse_step_by_step() {
    let (mut tree, root) = Tree::root(vec![1u32]);
    let mid = tree.fork(root, vec![2]);
    let leaf = tree.fork(mid, vec![3]);

    let mut iter = TraverseIter::new(leaf);
    assert_eq!(iter.next(&tree), Some(leaf));
    assert_eq!(iter.next(&tree), Some(mid));
    assert_eq!(iter.next(&tree), Some(root));
    assert_eq!(iter.next(&tree), None);
    assert_eq!(iter.next(&tree), None);
}

#[test]
fn traversal_after_a_fold_is_one_shorter() {
    let (mut tree, root) = Tree::root(vec![1u32]);
    let mid = tree.fork(root, vec![2]);
    let leaf = tree.fork(mid, vec![3]);

    assert_eq!(tree.traverse(leaf).len(), 3);

    // mid is dead with a single child: it folds into leaf.
    tree.drop_node(mid);

    assert_eq!(tree.traverse(leaf).len(), 2);
    assert_eq!(tree.data(leaf), &vec![2, 3]);
}

#[test]
fn repeated_traversals_yield_the_whole_path() {
    // Repeated traversals each yield the whole path.
    let (mut tree, root) = Tree::root(vec![1u32]);
    let mid = tree.fork(root, vec![2]);
    let leaf = tree.fork(mid, vec![3]);

    for _ in 0..3 {
        let collected: Vec<&Vec<u32>> = tree
            .traverse(leaf)
            .into_iter()
            .map(|s| tree.data(s))
            .collect();
        assert_eq!(collected, vec![&vec![3], &vec![2], &vec![1]]);
    }
}

#[test]
fn dropping_a_single_child_middle_node_leaves_the_root_alone() {
    let (mut tree, root) = Tree::root(vec![1u32]);
    let mid = tree.fork(root, vec![2]);
    let leaf = tree.fork(mid, vec![3]);

    tree.drop_node(mid);
    assert_eq!(tree.data(leaf), &vec![2, 3]);
    assert_eq!(tree.parent(leaf), Some(root));
    assert_eq!(tree.data(root), &vec![1]);
    assert_eq!(tree.parent(root), None);
    assert!(!tree.contains(mid));
}

#[test]
fn traverse_skips_nothing_after_a_drop() {
    // A dead node with two children stays on the path.
    let (mut tree, root) = Tree::root(vec![1u32]);
    let mid = tree.fork(root, vec![2]);
    let a = tree.fork(mid, vec![3]);
    let _b = tree.fork(mid, vec![4]);
    tree.drop_node(mid);
    assert_eq!(tree.traverse(a), vec![a, mid, root]);
}

#[test]
fn search_finds_in_ancestor() {
    let (mut tree, root) = Tree::root(vec![100u32]);
    let child = tree.fork(root, vec![]);
    let leaf = tree.fork(child, vec![]);

    let found = tree.search(leaf, |v| if v.contains(&100) { Some(true) } else { None });
    assert_eq!(found, Some(true));
}

#[test]
fn search_returns_none() {
    let (tree, root) = Tree::root(vec![1u32]);
    let found = tree.search(root, |v| if v.contains(&999) { Some(true) } else { None });
    assert!(found.is_none());
}

#[test]
fn search_returns_the_nearest_match() {
    let (mut tree, root) = Tree::root(vec![5u32]);
    let mid = tree.fork(root, vec![5, 6]);
    let leaf = tree.fork(mid, vec![]);
    let found = tree.search(leaf, |v| if v.contains(&5) { Some(v.len()) } else { None });
    assert_eq!(found, Some(2));
}

#[test]
fn guard_recursive_search() {
    let (mut tree, root) = Tree::root(vec![42u32]);
    let child = tree.fork(root, vec![]);
    let leaf = tree.fork(child, vec![]);

    let found = tree.search(leaf, |v| if v.contains(&42) { Some(42) } else { None });
    assert_eq!(found, Some(42));
}

#[test]
fn guard_recursive_search_none() {
    let (tree, root) = Tree::root(vec![1u32]);
    let found = tree.search(root, |v| if v.contains(&999) { Some(true) } else { None });
    assert!(found.is_none());
}

#[test]
fn owned_guard_search_found_on_self() {
    let (tree, root) = Tree::root(vec![7u32]);
    let found = tree.search(root, |v| if v.contains(&7) { Some(7) } else { None });
    assert_eq!(found, Some(7));
}

#[test]
fn owned_guard_search_found_in_ancestor() {
    let (mut tree, root) = Tree::root(vec![7u32]);
    let child = tree.fork(root, vec![]);
    let found = tree.search(child, |v| if v.contains(&7) { Some(7) } else { None });
    assert_eq!(found, Some(7));
}

#[test]
fn owned_guard_search_none() {
    let (mut tree, root) = Tree::root(vec![1u32]);
    let child = tree.fork(root, vec![]);
    let found = tree.search(child, |v| if v.contains(&999) { Some(true) } else { None });
    assert!(found.is_none());
}

#[test]
fn repeated_searches_agree() {
    let (mut tree, root) = Tree::root(vec![42u32]);
    let a = tree.fork(root, vec![]);
    let b = tree.fork(a, vec![]);
    let f = |v: &Vec<u32>| v.first().copied();
    assert_eq!(tree.search(b, f), Some(42));
    assert_eq!(tree.search(b, f), tree.search(b, f));
}

#[test]
fn a_new_tree_has_used_one_index() {
    let (mut tree, root) = Tree::root(vec![0u32]);
    assert_eq!(tree.indices_left(), u64::MAX - 1);
    tree.fork(root, vec![1]);
    assert_eq!(tree.indices_left(), u64::MAX - 2);
}
