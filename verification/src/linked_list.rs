use vstd::prelude::*;
use vstd::std_specs::cmp::PartialEqSpec;

use crate::types::Queue;
use crate::types::ReadonlySeq;
use crate::types::SeqError;
use crate::types::Sequence;
use crate::types::Stack;

verus! {

/// One cell of the list: a value and the owned tail.
#[derive(Debug)]
struct Node<T> {
    value: T,
    next: Option<Box<Node<T>>>,
}

/// A singly linked list, front at the head.  It serves as a stack, a queue
/// and an indexable sequence.
#[derive(Debug)]
pub struct LinkedList<T> {
    head: Option<Box<Node<T>>>,
}

/// The elements of a list tail, in order.
spec fn seq_of<T>(sub: Option<Box<Node<T>>>) -> Seq<T>
    decreases sub,
{
    match sub {
        None => Seq::empty(),
        Some(n) => seq![n.value] + seq_of(n.next),
    }
}

impl<T> View for LinkedList<T> {
    type V = Seq<T>;

    closed spec fn view(&self) -> Seq<T> {
        seq_of(self.head)
    }
}

impl<T> LinkedList<T> {
    pub fn new() -> (list: Self)
        ensures
            list@ == Seq::<T>::empty(),
    {
        LinkedList { head: None }
    }

    pub fn from_value(value: T) -> (list: Self)
        ensures
            list@ =~= seq![value],
    {
        let list = LinkedList { head: Some(Box::new(Node { value, next: None })) };
        proof {
            assert(seq_of(None::<Box<Node<T>>>) =~= Seq::<T>::empty());
            assert(seq_of(list.head) =~= seq![value]);
        }
        list
    }
}

impl<T> Queue<T> for LinkedList<T> {
    open spec fn queue_view(&self) -> Seq<T> {
        self.view()
    }

    fn peek(&self) -> (r: Option<&T>) {
        match &self.head {
            None => None,
            Some(n) => Some(&n.value),
        }
    }

    fn enqueue(&mut self, value: T) {
        push_back(&mut self.head, value);
    }

    fn dequeue(&mut self) -> (r: Option<T>) {
        match self.head.take() {
            None => None,
            Some(b) => {
                let n = *b;
                self.head = n.next;
                proof {
                    assert(self@ =~= old(self)@.drop_first());
                }
                Some(n.value)
            }
        }
    }
}

impl<T> Stack<T> for LinkedList<T> {
    open spec fn stack_view(&self) -> Seq<T> {
        self.view()
    }

    fn peek(&self) -> (r: Option<&T>) {
        Queue::peek(self)
    }

    fn push(&mut self, value: T) {
        self.head = Some(Box::new(Node { value, next: self.head.take() }));
        proof {
            assert(self@ =~= seq![value] + old(self)@);
        }
    }

    fn pop(&mut self) -> (r: Option<T>) {
        Queue::dequeue(self)
    }
}

impl<T> ReadonlySeq<T> for LinkedList<T> {
    open spec fn seq_view(&self) -> Seq<T> {
        self.view()
    }

    fn get(&self, index: usize) -> (r: Option<&T>) {
        get_at(&self.head, index)
    }

    fn index_of(&self, value: &T) -> (r: Option<usize>) where T: Eq {
        index_from(&self.head, value)
    }

    fn size(&self) -> (n: usize) {
        count(&self.head)
    }

    fn is_empty(&self) -> (r: bool) {
        self.head.is_none()
    }
}

impl<T> Sequence<T> for LinkedList<T> {
    fn insert(&mut self, index: usize, value: T) -> (r: Result<(), SeqError>) {
        insert_at(&mut self.head, index, value)
    }

    fn remove_at(&mut self, index: usize) -> (r: Option<T>) {
        remove_at_in(&mut self.head, index)
    }

    fn get_mut(&mut self, index: usize) -> (r: Option<&mut T>) {
        at_mut(&mut self.head, index)
    }
}

/// Appends a value behind the last cell.
fn push_back<T>(sub: &mut Option<Box<Node<T>>>, value: T)
    ensures
        seq_of(*final(sub)) == seq_of(*old(sub)).push(value),
    decreases *old(sub),
{
    match sub.take() {
        None => {
            *sub = Some(Box::new(Node { value, next: None }));
            proof {
                assert(seq_of(*sub) =~= seq_of(*old(sub)).push(value));
            }
        }
        Some(mut n) => {
            push_back(&mut n.next, value);
            *sub = Some(n);
            proof {
                assert(seq_of(*sub) =~= seq_of(*old(sub)).push(value));
            }
        }
    }
}

/// The element `index` cells in, if the tail is that long.
fn get_at<'a, T>(sub: &'a Option<Box<Node<T>>>, index: usize) -> (r: Option<&'a T>)
    ensures
        r == (if (index as int) < seq_of(*sub).len() {
            Some(&seq_of(*sub)[index as int])
        } else {
            None::<&T>
        }),
    decreases *sub,
{
    match sub {
        None => None,
        Some(n) => {
            if index == 0 {
                Some(&n.value)
            } else {
                get_at(&n.next, index - 1)
            }
        }
    }
}

/// The position of the first element equal to `value`, by the `Eq` of the
/// element type.
fn index_from<T: Eq>(sub: &Option<Box<Node<T>>>, value: &T) -> (r: Option<usize>)
    requires
        seq_of(*sub).len() <= usize::MAX,
    ensures
        r matches Some(i) ==> (i as int) < seq_of(*sub).len(),
        T::obeys_eq_spec() ==> match r {
            Some(i) => seq_of(*sub)[i as int].eq_spec(value) && (forall|j: int|
                0 <= j < i ==> !seq_of(*sub)[j].eq_spec(value)),
            None => forall|j: int| 0 <= j < seq_of(*sub).len() ==> !seq_of(*sub)[j].eq_spec(value),
        },
    decreases *sub,
{
    match sub {
        None => None,
        Some(n) => {
            proof {
                assert(seq_of(*sub)[0] == n.value);
                assert forall|j: int| 0 <= j < seq_of(n.next).len() implies seq_of(*sub)[j + 1]
                    == seq_of(n.next)[j] by {}
            }
            if n.value == *value {
                Some(0)
            } else {
                match index_from(&n.next, value) {
                    None => None,
                    Some(i) => Some(i + 1),
                }
            }
        }
    }
}

/// The number of cells.
fn count<T>(sub: &Option<Box<Node<T>>>) -> (n: usize)
    requires
        seq_of(*sub).len() <= usize::MAX,
    ensures
        n == seq_of(*sub).len(),
    decreases *sub,
{
    match sub {
        None => 0,
        Some(n) => 1 + count(&n.next),
    }
}

/// Splices a value in front of the cell `index` steps in; an index past the
/// end is refused and leaves the tail alone.
fn insert_at<T>(sub: &mut Option<Box<Node<T>>>, index: usize, value: T) -> (r: Result<(), SeqError>)
    ensures
        index <= seq_of(*old(sub)).len() ==> r is Ok && seq_of(*final(sub)) == seq_of(
            *old(sub),
        ).insert(index as int, value),
        index > seq_of(*old(sub)).len() ==> r == Err::<(), SeqError>(SeqError::OutOfBound)
            && seq_of(*final(sub)) == seq_of(*old(sub)),
    decreases *old(sub),
{
    if index == 0 {
        *sub = Some(Box::new(Node { value, next: sub.take() }));
        proof {
            assert(seq_of(*sub) =~= seq_of(*old(sub)).insert(0, value));
        }
        Ok(())
    } else {
        match sub.take() {
            None => Err(SeqError::OutOfBound),
            Some(mut n) => {
                let r = insert_at(&mut n.next, index - 1, value);
                *sub = Some(n);
                proof {
                    if index <= seq_of(*old(sub)).len() {
                        assert(seq_of(*sub) =~= seq_of(*old(sub)).insert(index as int, value));
                    }
                }
                r
            }
        }
    }
}

/// Unlinks the cell `index` steps in and returns its value, if the tail is
/// that long.
fn remove_at_in<T>(sub: &mut Option<Box<Node<T>>>, index: usize) -> (r: Option<T>)
    ensures
        (index as int) < seq_of(*old(sub)).len() ==> r == Some(seq_of(*old(sub))[index as int])
            && seq_of(*final(sub)) == seq_of(*old(sub)).remove(index as int),
        (index as int) >= seq_of(*old(sub)).len() ==> r is None && seq_of(*final(sub)) == seq_of(
            *old(sub),
        ),
    decreases *old(sub),
{
    match sub.take() {
        None => None,
        Some(b) => {
            if index == 0 {
                let n = *b;
                *sub = n.next;
                proof {
                    assert(seq_of(*sub) =~= seq_of(*old(sub)).remove(0));
                }
                Some(n.value)
            } else {
                let mut n = b;
                let r = remove_at_in(&mut n.next, index - 1);
                *sub = Some(n);
                proof {
                    if (index as int) < seq_of(*old(sub)).len() {
                        assert(seq_of(*sub) =~= seq_of(*old(sub)).remove(index as int));
                    }
                }
                r
            }
        }
    }
}

/// Write access to the element `index` cells in, if the tail is that long.
/// Only that element can change through the returned reference.
fn at_mut<'a, T>(sub: &'a mut Option<Box<Node<T>>>, index: usize) -> (r: Option<&'a mut T>)
    ensures
        (index as int) >= seq_of(*old(sub)).len() ==> r is None && *final(sub) == *old(sub),
        (index as int) < seq_of(*old(sub)).len() ==> r is Some && *r.unwrap() == seq_of(
            *old(sub),
        )[index as int] && seq_of(*final(sub)) =~= seq_of(*old(sub)).update(
            index as int,
            *final(r.unwrap()),
        ),
    decreases *old(sub),
{
    match sub {
        None => None,
        Some(n) => {
            if index == 0 {
                Some(&mut n.value)
            } else {
                at_mut(&mut n.next, index - 1)
            }
        }
    }
}


} // verus!
