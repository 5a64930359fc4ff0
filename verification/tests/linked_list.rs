use algods::LinkedList;
use algods::types::ReadonlySeq;
use algods::types::Sequence;
use algods::types::Stack;

#[test]
fn create_new() {
    let list = LinkedList::<i32>::new();
    assert_eq!(0, list.size());
    assert_eq!(None, list.get(0));
}

#[test]
fn create_from() {
    let list = LinkedList::from_value(1000);
    assert_eq!(1, list.size());
    assert_eq!(Some(&1000), list.get(0));
}

#[test]
fn index_of() {
    let mut list = LinkedList::new();
    list.push(1);
    list.push(2);
    list.push(3);
    assert_eq!(Some(1usize), list.index_of(&2));
}

#[test]
fn test() {
    let mut list = LinkedList::new();
    list.push(1);
    list.push(2);
    assert_eq!(Ok(()), list.insert(0, 10));
    println!("{:?}", list);
}
