use microbench::entry::{BenchLoop, Entry, EntryTree};

fn entry(name: &'static str, module: &'static str, full_path: &'static str) -> Entry {
    Entry {
        name,
        module,
        full_path,
        file: "bench.rs",
        line: 1,
        ignore: false,
        bench_loop: BenchLoop::Runtime,
    }
}

#[test]
fn module_components_split_on_separator() {
    let e = entry("x", "a::b", "a::b::x");
    let parts = e.module_components();
    assert_eq!(parts, vec!["a", "b"]);

    let e = entry("x", "alpha", "alpha::x");
    assert_eq!(e.module_components(), vec!["alpha"]);
}

#[test]
fn sorting_key_is_path_then_location() {
    let e = entry("x", "a::b", "a::b::x");
    assert_eq!(e.sorting_key(), ("a::b::x", "bench.rs", 1));
}

#[test]
fn tree_merges_shared_prefixes() {
    let e1 = entry("x", "a::b", "a::b::x");
    let e2 = entry("y", "a::b", "a::b::y");
    let e3 = entry("z", "a::c", "a::c::z");
    let entries = vec![&e1, &e2, &e3];
    let tree = EntryTree::from_entries(&entries);

    // Exactly one root parent named `a`.
    assert_eq!(tree.len(), 1);
    let root = &tree[0];
    assert!(matches!(root, EntryTree::Parent { .. }));
    assert_eq!(root.name(), "a");

    // Two parents `b` and `c` under it.
    let kids = root.children();
    assert_eq!(kids.len(), 2);
    assert_eq!(kids[0].name(), "b");
    assert_eq!(kids[1].name(), "c");
    assert!(matches!(kids[0], EntryTree::Parent { .. }));
    assert!(matches!(kids[1], EntryTree::Parent { .. }));

    // `b` has the leaves `x` and `y`; `c` has the leaf `z`.
    let b_kids = kids[0].children();
    assert_eq!(b_kids.len(), 2);
    assert!(matches!(b_kids[0], EntryTree::Leaf(_)));
    assert!(matches!(b_kids[1], EntryTree::Leaf(_)));
    assert_eq!(b_kids[0].name(), "x");
    assert_eq!(b_kids[1].name(), "y");
    let c_kids = kids[1].children();
    assert_eq!(c_kids.len(), 1);
    assert!(matches!(c_kids[0], EntryTree::Leaf(_)));
    assert_eq!(c_kids[0].name(), "z");
}

#[test]
fn max_name_span_counts_depth() {
    let e1 = entry("x", "a::b", "a::b::x");
    let e2 = entry("y", "a::b", "a::b::y");
    let e3 = entry("z", "a::c", "a::c::z");
    let entries = vec![&e1, &e2, &e3];
    let tree = EntryTree::from_entries(&entries);
    // Deepest nodes are the leaves: name length 1 plus 2 levels * 4.
    assert_eq!(EntryTree::max_name_span(&tree, 0), 9);
    assert_eq!(EntryTree::max_name_span(&tree, 1), 13);
}

#[test]
fn max_name_span_of_empty_tree_is_zero() {
    let entries: Vec<&Entry> = Vec::new();
    let tree = EntryTree::from_entries(&entries);
    assert_eq!(EntryTree::max_name_span(&tree, 3), 0);
}
