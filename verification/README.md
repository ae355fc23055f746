# forke

A tree whose dropped nodes fold their data into what remains, verified
with Verus.

When a node's handle is dropped and the node has at most one child, it
leaves the tree: a leaf is discarded, and a node with one child is folded
into that child through `Merge`. If that leaves a dead parent with a single
child, the parent folds in turn.

## Layout

- `src/tree.rs`: the tree (`Tree<T>`), nodes held in slots; forking,
  dropping with its cascade, the path to the root, and the laws that
  every operation keeps the tree well formed and keeps live ancestors.
- `src/walk.rs`: walking from a node to the root, and search.
- `src/merge.rs`, `src/merge_maps.rs`: the `Merge` trait and its impls
  for std types, each with a statement of what a merge leaves.
- `src/inner/`: the children map (a single entry, a sorted vector map,
  or a hash map, by size), index allocation, and a shared counter.
- `app/`: thread-safe node handles and guards around one lock per tree.
- `tests/`: the tests, run against the compiled library.
