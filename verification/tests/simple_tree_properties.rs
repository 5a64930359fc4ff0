use algods::BinaryTree;
use algods::TraverseDirection;

#[test]
fn add_overwrites_an_existing_key() {
    let mut tree = BinaryTree::new();
    tree.add(3, "three");
    tree.add(3, "tres");
    assert_eq!(Some(&"tres"), tree.get(3));
    assert_eq!(vec![3], tree.traverse(TraverseDirection::LNR));
}

#[test]
fn remove_from_empty_tree() {
    let mut tree = BinaryTree::<i64>::new();
    assert_eq!(None, tree.remove(1));
    assert_eq!(Vec::<i64>::new(), tree.traverse(TraverseDirection::LNR));
}

#[test]
fn remove_root_with_two_children() {
    let mut tree = BinaryTree::new();
    for key in [50, 30, 70, 20, 40, 60, 80] {
        tree.add(key, key);
    }
    assert_eq!(Some(50), tree.remove(50));
    assert_eq!(vec![20, 30, 40, 60, 70, 80], tree.traverse(TraverseDirection::LNR));
    assert_eq!(Some(&60), tree.get(60));
}
