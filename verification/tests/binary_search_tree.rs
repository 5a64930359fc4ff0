use algods::BinarySearchTree;

fn add_number(tree: &mut BinarySearchTree<String>, value: i64) {
    tree.put(value, value.to_string());
}

fn create_tree() -> BinarySearchTree<String> {
    let mut tree = BinarySearchTree::new();
    let tree_ref = &mut tree;
    add_number(tree_ref, 44);
    add_number(tree_ref, 17);
    add_number(tree_ref, 88);
    add_number(tree_ref, 32);
    add_number(tree_ref, 65);
    add_number(tree_ref, 97);
    add_number(tree_ref, 28);
    add_number(tree_ref, 54);
    add_number(tree_ref, 82);
    add_number(tree_ref, 29);
    add_number(tree_ref, 76);
    add_number(tree_ref, 80);
    add_number(tree_ref, 78);
    tree
}

#[test]
fn create() {
    let tree = BinarySearchTree::<String>::new();
    assert_eq!(0, tree.size());
}

#[test]
fn add1() {
    let mut tree = BinarySearchTree::new();
    tree.put(20, "twenty".to_string());
    tree.put(10, "ten".to_string());
    assert_eq!(2, tree.size());

    assert_eq!(Some(&"twenty".to_string()), tree.get(&20));
    assert_eq!(Some(&"ten".to_string()), tree.get(&10));
}

#[test]
fn get_mut1() {
    let mut tree = BinarySearchTree::new();
    tree.put(20, "twenty".to_string());
    tree.put(10, "ten".to_string());
    assert_eq!(2, tree.size());

    assert_eq!(Some(&"ten".to_string()), tree.get(&10));

    *tree.get_mut(&10).unwrap() = "smth".to_string();

    assert_eq!(Some(&"smth".to_string()), tree.get(&10));
}

#[test]
fn remove1() {
    let mut tree = BinarySearchTree::new();
    tree.put(20, "twenty".to_string());
    tree.put(10, "ten".to_string());
    assert_eq!(2, tree.size());

    let val = tree.remove(&10);
    assert_eq!(Some("ten".to_string()), val);
    assert_eq!(None, tree.get(&10));
    assert_eq!(1, tree.size());
}

#[test]
fn binary_search_tree_remove_with_left() {
    let mut tree = create_tree();
    let expected = vec![17, 28, 29, 44, 54, 65, 76, 78, 80, 82, 88, 97];

    assert_eq!(tree.remove(&32), Some("32".to_string()));
    assert_eq!(expected, tree.in_order_keys());
}

#[test]
fn binary_search_tree_remove_with_right() {
    let mut tree = create_tree();
    let expected = vec![28, 29, 32, 44, 54, 65, 76, 78, 80, 82, 88, 97];

    assert_eq!(tree.remove(&17), Some("17".to_string()));
    assert_eq!(expected, tree.in_order_keys());
}

#[test]
fn binary_search_tree_remove_with_both() {
    let mut tree = create_tree();
    let expected = vec![17, 28, 29, 32, 44, 54, 76, 78, 80, 82, 88, 97];
    assert_eq!(Some("65".to_string()), tree.remove(&65));

    assert_eq!(expected, tree.in_order_keys());
}

#[test]
fn binary_search_tree_get() {
    let tree = create_tree();
    assert_eq!(Some(&54.to_string()), tree.get(&54));
}

#[test]
fn binary_search_tree_add() {
    let mut tree = BinarySearchTree::new();
    assert_eq!(None, tree.get(&1));
    tree.put(1, 4000);
    assert_eq!(Some(&4000), tree.get(&1));
}
