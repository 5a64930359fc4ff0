use algods::LinkedList;
use algods::types::Queue;
use algods::types::ReadonlySeq;
use algods::types::SeqError;
use algods::types::Sequence;
use algods::types::Stack;

#[test]
fn queue_is_first_in_first_out() {
    let mut list = LinkedList::new();
    list.enqueue(1);
    list.enqueue(2);
    list.enqueue(3);
    assert_eq!(Some(&1), Queue::peek(&list));
    assert_eq!(Some(1), list.dequeue());
    assert_eq!(Some(2), list.dequeue());
    assert_eq!(Some(3), list.dequeue());
    assert_eq!(None, list.dequeue());
}

#[test]
fn stack_is_last_in_first_out() {
    let mut list = LinkedList::new();
    list.push(1);
    list.push(2);
    list.push(3);
    assert_eq!(Some(&3), Stack::peek(&list));
    assert_eq!(Some(3), list.pop());
    assert_eq!(Some(2), list.pop());
    assert_eq!(Some(1), list.pop());
    assert_eq!(None, list.pop());
}

#[test]
fn insert_past_the_end_is_out_of_bound() {
    let mut list = LinkedList::new();
    list.push(1);
    assert_eq!(Err(SeqError::OutOfBound), list.insert(2, 9));
    assert_eq!(Ok(()), list.insert(1, 9));
    assert_eq!(Some(&9), list.get(1));
    assert_eq!(2, list.size());
}

#[test]
fn insert_into_empty_list_at_zero() {
    let mut list = LinkedList::new();
    assert_eq!(Ok(()), list.insert(0, 5));
    assert_eq!(Some(&5), list.get(0));
    assert_eq!(Err(SeqError::OutOfBound), list.insert(2, 6));
}

#[test]
fn remove_at_returns_the_indexed_element() {
    let mut list = LinkedList::new();
    list.enqueue(10);
    list.enqueue(20);
    list.enqueue(30);
    assert_eq!(Some(20), list.remove_at(1));
    assert_eq!(Some(&30), list.get(1));
    assert_eq!(None, list.remove_at(2));
    assert_eq!(2, list.size());
}

#[test]
fn get_mut_rewrites_one_element() {
    let mut list = LinkedList::new();
    list.enqueue(10);
    list.enqueue(20);
    *list.get_mut(1).unwrap() = 99;
    assert_eq!(Some(&10), list.get(0));
    assert_eq!(Some(&99), list.get(1));
    assert!(list.get_mut(2).is_none());
}

#[test]
fn index_of_misses_absent_values() {
    let mut list = LinkedList::new();
    assert_eq!(None, list.index_of(&7));
    list.push(7);
    list.push(7);
    assert_eq!(Some(0usize), list.index_of(&7));
    assert!(!list.is_empty());
    assert!(LinkedList::<i32>::new().is_empty());
}
