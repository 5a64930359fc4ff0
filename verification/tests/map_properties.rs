use algods::BinarySearchTree;

fn create_tree() -> BinarySearchTree<String> {
    let mut tree = BinarySearchTree::new();
    for key in [44, 17, 88, 32, 65, 97, 28, 54, 82, 29, 76, 80, 78] {
        tree.put(key, key.to_string());
    }
    tree
}

#[test]
fn size_counts_distinct_keys() {
    let mut tree = BinarySearchTree::new();
    assert_eq!(0, tree.size());
    tree.put(5, "a");
    tree.put(2, "b");
    tree.put(9, "c");
    assert_eq!(3, tree.size());
    tree.put(2, "d");
    assert_eq!(3, tree.size());
    assert_eq!(Some("d"), tree.remove(&2));
    assert_eq!(2, tree.size());
    assert_eq!(None, tree.remove(&2));
    assert_eq!(2, tree.size());
    assert_eq!(Some("a"), tree.remove(&5));
    assert_eq!(Some("c"), tree.remove(&9));
    assert_eq!(0, tree.size());
}

#[test]
fn put_get_round_trip() {
    let mut tree = BinarySearchTree::new();
    tree.put(7, 700);
    assert_eq!(Some(&700), tree.get(&7));
    tree.put(-3, -300);
    assert_eq!(Some(&-300), tree.get(&-3));
}

#[test]
fn put_overwrites_in_place() {
    let mut tree = BinarySearchTree::new();
    tree.put(1, "one");
    tree.put(1, "uno");
    assert_eq!(Some(&"uno"), tree.get(&1));
    assert_eq!(1, tree.size());
}

#[test]
fn absent_keys_are_not_found() {
    let mut tree = BinarySearchTree::<i64>::new();
    assert_eq!(None, tree.get(&11));
    assert_eq!(None, tree.remove(&11));
    tree.put(11, 1);
    assert_eq!(Some(1), tree.remove(&11));
    assert_eq!(None, tree.remove(&11));
    assert_eq!(None, tree.get(&11));
}

#[test]
fn in_order_keys_stay_increasing() {
    let mut tree = create_tree();
    tree.remove(&44);
    tree.remove(&97);
    tree.put(50, "50".to_string());
    tree.put(1, "1".to_string());
    let keys = tree.in_order_keys();
    assert!(keys.windows(2).all(|w| w[0] < w[1]));
    assert_eq!(keys.len(), tree.size());
}

#[test]
fn removal_keeps_remaining_keys_reachable() {
    let mut tree = create_tree();
    assert_eq!(Some("65".to_string()), tree.remove(&65));
    for key in [44, 17, 88, 32, 97, 28, 54, 82, 29, 76, 80, 78] {
        assert_eq!(Some(&key.to_string()), tree.get(&key));
    }
    assert_eq!(None, tree.get(&65));
    assert_eq!(12, tree.size());
}

#[test]
fn remove_root_repeatedly() {
    let mut tree = create_tree();
    let mut expected: Vec<i64> = vec![17, 28, 29, 32, 44, 54, 65, 76, 78, 80, 82, 88, 97];
    while let Some(&first) = expected.first() {
        assert_eq!(Some(first.to_string()), tree.remove(&first));
        expected.remove(0);
        assert_eq!(expected, tree.in_order_keys());
    }
    assert_eq!(0, tree.size());
}
