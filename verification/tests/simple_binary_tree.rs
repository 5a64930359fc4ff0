use algods::BinaryTree;
use algods::TraverseDirection;

fn add_number(tree: &mut BinaryTree<String>, value: i64) {
    tree.add(value, value.to_string());
}

fn create_tree() -> BinaryTree<String> {
    let mut tree = BinaryTree::new();
    let tree_ref = &mut tree;
    add_number(tree_ref, 44);
    add_number(tree_ref, 17);
    add_number(tree_ref, 88);
    add_number(tree_ref, 32);
    add_number(tree_ref, 65);
    add_number(tree_ref, 97);
    add_number(tree_ref, 28);
    add_number(tree_ref, 54);
    add_number(tree_ref, 82);
    add_number(tree_ref, 29);
    add_number(tree_ref, 76);
    add_number(tree_ref, 80);
    add_number(tree_ref, 78);
    tree
}

#[test]
fn simple_binary_tree_remove_with_left() {
    let mut tree = create_tree();
    let expected = vec![17, 28, 29, 44, 54, 65, 76, 78, 80, 82, 88, 97];

    assert_eq!(tree.remove(32), Some("32".to_string()));
    assert_eq!(expected, tree.traverse(TraverseDirection::LNR));
}

#[test]
fn simple_binary_tree_remove_with_right() {
    let mut tree = create_tree();
    let expected = vec![28, 29, 32, 44, 54, 65, 76, 78, 80, 82, 88, 97];

    assert_eq!(tree.remove(17), Some("17".to_string()));
    assert_eq!(expected, tree.traverse(TraverseDirection::LNR));
}

#[test]
fn simple_binary_tree_remove_with_both() {
    let mut tree = create_tree();
    let expected = vec![17, 28, 29, 32, 44, 54, 76, 78, 80, 82, 88, 97];
    assert_eq!(Some("65".to_string()), tree.remove(65));

    assert_eq!(expected, tree.traverse(TraverseDirection::LNR));
}

#[test]
fn simple_binary_tree_get() {
    let tree = create_tree();
    assert_eq!(Some(&54.to_string()), tree.get(54));
}

#[test]
fn simple_binary_tree_add() {
    let mut tree = BinaryTree::new();
    assert_eq!(None, tree.get(1));
    tree.add(1, 4000);
    assert_eq!(Some(&4000), tree.get(1));
}

#[test]
fn traverse_inorder() {
    let tree = create_tree();
    let expected = vec![17, 28, 29, 32, 44, 54, 65, 76, 78, 80, 82, 88, 97];

    assert_eq!(expected, tree.traverse(TraverseDirection::LNR));
}

#[test]
fn traverse_postorder() {
    let tree = create_tree();
    let expected = vec![29, 28, 32, 17, 54, 78, 80, 76, 82, 65, 97, 88, 44];

    assert_eq!(expected, tree.traverse(TraverseDirection::LRN));
}

#[test]
fn traverse_preorder() {
    let tree = create_tree();
    let expected = vec![44, 17, 32, 28, 29, 88, 65, 54, 82, 76, 80, 78, 97];

    assert_eq!(expected, tree.traverse(TraverseDirection::NLR));
}
