//! Merging of the remaining kinds of data, and the inverse merge.

use std::collections::BTreeMap;
use std::marker::PhantomData;

use forke::{Merge, MergeInv};

#[test]
fn merge_inv_folds_the_parent_first() {
    let mut child = vec![3, 4];
    let parent = vec![1, 2];
    <Vec<_> as MergeInv>::merge_inv(&mut child, parent);
    assert_eq!(child, vec![1, 2, 3, 4]);
}

#[test]
fn merge_inv_on_strings() {
    let mut child = String::from("world");
    MergeInv::merge_inv(&mut child, String::from("hello "));
    assert_eq!(child, "hello world");
}

#[test]
fn merge_tuple_componentwise() {
    let mut parent = (vec![1], String::from("a"), Some(vec![1u8]));
    Merge::merge(&mut parent, (vec![2], String::from("b"), None));
    assert_eq!(parent, (vec![1, 2], String::from("ab"), Some(vec![1u8])));
}

#[test]
fn merge_single_and_wide_tuples() {
    let mut one = (vec![1],);
    Merge::merge(&mut one, (vec![2],));
    assert_eq!(one, (vec![1, 2],));

    let mut wide = ((), (), (), (), (), (), (), (), (), (), (), (), (), (), (), vec![0]);
    Merge::merge(&mut wide, ((), (), (), (), (), (), (), (), (), (), (), (), (), (), (), vec![1]));
    assert_eq!(wide.15, vec![0, 1]);
}

#[test]
fn merge_array_elementwise() {
    let mut parent = [vec![1], vec![2], vec![3]];
    Merge::merge(&mut parent, [vec![4], vec![], vec![6]]);
    assert_eq!(parent, [vec![1, 4], vec![2], vec![3, 6]]);
}

#[test]
fn merge_box_and_unit() {
    let mut parent = Box::new(vec![1]);
    Merge::merge(&mut parent, Box::new(vec![2]));
    assert_eq!(*parent, vec![1, 2]);

    let mut unit = ();
    Merge::merge(&mut unit, ());

    let mut marker: PhantomData<u8> = PhantomData;
    Merge::merge(&mut marker, PhantomData);
}

#[test]
fn merge_nested_option_of_map() {
    let mut parent = Some(BTreeMap::from([(1, String::from("a"))]));
    Merge::merge(&mut parent, Some(BTreeMap::from([(1, String::from("b")), (2, String::from("c"))])));
    let map = parent.unwrap();
    assert_eq!(map[&1], "ab");
    assert_eq!(map[&2], "c");
}
