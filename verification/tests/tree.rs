use apter_tree::{ApterTree, ApterTreeNodeRef};

#[test]
fn it_works() {
    let mut tree = ApterTree::<&'static str>::new("ROOT");
    let a = tree.push_child(tree.root(), "A");
    tree.push_child(tree.root(), "B");
    tree.push_child(tree.root(), "C");
    let a1 = tree.push_child(a, "A1");
    let a2 = tree.push_child(a, "A2");
    let a3 = tree.push_child(a, "A3");
    println!("{:?}", tree);
    let mut children: Vec<ApterTreeNodeRef> = Vec::new();
    let mut scan = tree.scan_children(a);
    while let Some(n) = scan.next() {
        children.push(n);
    }
    assert_eq!(children, vec![a1, a2, a3]);
}

#[test]
fn fresh_tree_reads() {
    let tree = ApterTree::new("v");
    assert_eq!(tree.len(), 1);
    assert_eq!(*tree.val(tree.root()), "v");
    assert_eq!(tree.parent(tree.root()), None);
}

#[test]
fn with_capacity_same_as_new() {
    let tree = ApterTree::with_capacity(42u64, 100);
    assert_eq!(tree.len(), 1);
    assert_eq!(*tree.val(tree.root()), 42u64);
    assert_eq!(tree.parent(tree.root()), None);
}

#[test]
fn push_positions_successive() {
    let mut tree = ApterTree::new(0u32);
    let r1 = tree.push_child(tree.root(), 1u32);
    let r2 = tree.push_child(tree.root(), 2u32);
    let r3 = tree.push_child(r1, 3u32);
    let r4 = tree.push_child(r3, 4u32);
    assert_eq!(format!("{:?}", r1), "ApterTreeNodeRef(1)");
    assert_eq!(format!("{:?}", r2), "ApterTreeNodeRef(2)");
    assert_eq!(format!("{:?}", r3), "ApterTreeNodeRef(3)");
    assert_eq!(format!("{:?}", r4), "ApterTreeNodeRef(4)");
    assert_ne!(r1, r2);
    assert_ne!(r2, r3);
    assert_ne!(r3, r4);
}

#[test]
fn pushed_node_stable_under_later_pushes() {
    let mut tree = ApterTree::new("root");
    let p = tree.push_child(tree.root(), "p");
    let n = tree.push_child(p, "n");
    tree.push_child(tree.root(), "x");
    tree.push_child(p, "y");
    let q = tree.push_child(n, "z");
    tree.push_child(q, "w");
    assert_eq!(tree.parent(n), Some(p));
    assert_eq!(*tree.val(n), "n");
}

#[test]
fn scan_children_yields_exactly_the_children() {
    let mut tree = ApterTree::new(0u8);
    let a = tree.push_child(tree.root(), 1u8);
    let b = tree.push_child(tree.root(), 2u8);
    let c = tree.push_child(a, 3u8);
    let d = tree.push_child(tree.root(), 4u8);
    let e = tree.push_child(a, 5u8);

    let mut root_children: Vec<ApterTreeNodeRef> = Vec::new();
    let mut scan = tree.scan_children(tree.root());
    while let Some(n) = scan.next() {
        root_children.push(n);
    }
    assert_eq!(root_children, vec![a, b, d]);
    for n in &root_children {
        assert_eq!(tree.parent(*n), Some(tree.root()));
    }

    let mut a_children: Vec<ApterTreeNodeRef> = Vec::new();
    let mut scan = tree.scan_children(a);
    while let Some(n) = scan.next() {
        a_children.push(n);
    }
    assert_eq!(a_children, vec![c, e]);

    let mut b_children: Vec<ApterTreeNodeRef> = Vec::new();
    let mut scan = tree.scan_children(b);
    while let Some(n) = scan.next() {
        b_children.push(n);
    }
    assert_eq!(b_children, Vec::new());
}

#[test]
fn reads_are_idempotent() {
    let mut tree = ApterTree::new("root");
    let a = tree.push_child(tree.root(), "a");
    let b = tree.push_child(a, "b");
    assert_eq!(tree.len(), tree.len());
    assert_eq!(*tree.val(a), *tree.val(a));
    assert_eq!(*tree.val(b), *tree.val(b));
    assert_eq!(tree.parent(a), tree.parent(a));
    assert_eq!(tree.parent(b), tree.parent(b));
    assert_eq!(tree.parent(tree.root()), tree.parent(tree.root()));
}

#[test]
fn exhausted_enumerator_stays_exhausted() {
    let mut tree = ApterTree::new(0i32);
    let a = tree.push_child(tree.root(), 1i32);
    tree.push_child(a, 2i32);
    let mut scan = tree.scan_children(a);
    assert!(scan.next().is_some());
    assert_eq!(scan.next(), None);
    for _ in 0..10 {
        assert_eq!(scan.next(), None);
    }
}

#[test]
fn val_mut_changes_only_that_node() {
    let mut tree = ApterTree::new(10u32);
    let a = tree.push_child(tree.root(), 20u32);
    let b = tree.push_child(tree.root(), 30u32);
    *tree.val_mut(a) = 99u32;
    assert_eq!(*tree.val(a), 99u32);
    assert_eq!(*tree.val(tree.root()), 10u32);
    assert_eq!(*tree.val(b), 30u32);
    assert_eq!(tree.len(), 3);
    assert_eq!(tree.parent(a), Some(tree.root()));
}

#[test]
fn end_to_end() {
    let mut tree = ApterTree::new("ROOT");
    let root = tree.root();
    let a = tree.push_child(root, "A");
    let b = tree.push_child(root, "B");
    let c = tree.push_child(root, "C");
    let a1 = tree.push_child(a, "A1");
    let a2 = tree.push_child(a, "A2");
    let a3 = tree.push_child(a, "A3");

    assert_eq!(tree.len(), 7);
    assert_eq!(tree.parent(a), Some(root));

    let mut root_children: Vec<ApterTreeNodeRef> = Vec::new();
    let mut scan = tree.scan_children(root);
    while let Some(n) = scan.next() {
        root_children.push(n);
    }
    assert_eq!(root_children, vec![a, b, c]);

    let mut a_children: Vec<ApterTreeNodeRef> = Vec::new();
    let mut scan = tree.scan_children(a);
    while let Some(n) = scan.next() {
        a_children.push(n);
    }
    assert_eq!(a_children, vec![a1, a2, a3]);

    let mut b_children: Vec<ApterTreeNodeRef> = Vec::new();
    let mut scan = tree.scan_children(b);
    while let Some(n) = scan.next() {
        b_children.push(n);
    }
    assert_eq!(b_children, Vec::new());
}
