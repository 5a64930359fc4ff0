use vstd::prelude::*;
use vstd::std_specs::cmp::PartialEqSpec;

verus! {

/// The one failure of the sequence contract: an index beyond the current
/// size.
#[derive(Debug, PartialEq, Eq)]
pub enum SeqError {
    OutOfBound,
}

/// First-in-first-out access to an ordered container.
pub trait Queue<T> {
    /// The stored elements, front first.
    spec fn queue_view(&self) -> Seq<T>;

    /// The front element, if any.
    fn peek(&self) -> (r: Option<&T>)
        ensures
            r == (if self.queue_view().len() == 0 {
                None::<&T>
            } else {
                Some(&self.queue_view()[0])
            }),
    ;

    /// Adds an element at the back.
    fn enqueue(&mut self, value: T)
        ensures
            final(self).queue_view() == old(self).queue_view().push(value),
    ;

    /// Removes and returns the front element, if any.
    fn dequeue(&mut self) -> (r: Option<T>)
        ensures
            old(self).queue_view().len() == 0 ==> r is None && final(self).queue_view()
                == old(self).queue_view(),
            old(self).queue_view().len() > 0 ==> r == Some(old(self).queue_view()[0])
                && final(self).queue_view() == old(self).queue_view().drop_first(),
    ;
}

/// Last-in-first-out access to an ordered container.
pub trait Stack<T> {
    /// The stored elements, top first.
    spec fn stack_view(&self) -> Seq<T>;

    /// The top element, if any.
    fn peek(&self) -> (r: Option<&T>)
        ensures
            r == (if self.stack_view().len() == 0 {
                None::<&T>
            } else {
                Some(&self.stack_view()[0])
            }),
    ;

    /// Adds an element on top.
    fn push(&mut self, value: T)
        ensures
            final(self).stack_view() == seq![value] + old(self).stack_view(),
    ;

    /// Removes and returns the top element, if any.
    fn pop(&mut self) -> (r: Option<T>)
        ensures
            old(self).stack_view().len() == 0 ==> r is None && final(self).stack_view()
                == old(self).stack_view(),
            old(self).stack_view().len() > 0 ==> r == Some(old(self).stack_view()[0])
                && final(self).stack_view() == old(self).stack_view().drop_first(),
    ;
}

/// Read access to an ordered container by position.
pub trait ReadonlySeq<T> {
    /// The stored elements, in order.
    spec fn seq_view(&self) -> Seq<T>;

    /// The element at `index`, or nothing when `index` is past the end.
    fn get(&self, index: usize) -> (r: Option<&T>)
        ensures
            r == (if (index as int) < self.seq_view().len() {
                Some(&self.seq_view()[index as int])
            } else {
                None::<&T>
            }),
    ;

    /// The position of the first element equal to `value`, if any.
    fn index_of(&self, value: &T) -> (r: Option<usize>) where T: Eq
        requires
            self.seq_view().len() <= usize::MAX,
        ensures
            T::obeys_eq_spec() ==> match r {
                Some(i) => (i as int) < self.seq_view().len() && self.seq_view()[i as int].eq_spec(
                    value,
                ) && (forall|j: int|
                    0 <= j < i ==> !self.seq_view()[j].eq_spec(value)),
                None => forall|j: int|
                    0 <= j < self.seq_view().len() ==> !self.seq_view()[j].eq_spec(value),
            },
    ;

    /// The number of stored elements.
    fn size(&self) -> (n: usize)
        requires
            self.seq_view().len() <= usize::MAX,
        ensures
            n == self.seq_view().len(),
    ;

    /// Whether nothing is stored.
    fn is_empty(&self) -> (r: bool)
        ensures
            r <==> self.seq_view().len() == 0,
    ;
}

/// Mutable access to an ordered container by position.
pub trait Sequence<T>: ReadonlySeq<T> {
    /// Places `value` at `index`, shifting what follows; an index past the
    /// current size is refused.
    fn insert(&mut self, index: usize, value: T) -> (r: Result<(), SeqError>)
        ensures
            index <= old(self).seq_view().len() ==> r is Ok && final(self).seq_view()
                == old(self).seq_view().insert(index as int, value),
            index > old(self).seq_view().len() ==> r == Err::<(), SeqError>(SeqError::OutOfBound)
                && final(self).seq_view() == old(self).seq_view(),
    ;

    /// Removes and returns the element at `index`, if any.
    fn remove_at(&mut self, index: usize) -> (r: Option<T>)
        ensures
            (index as int) < old(self).seq_view().len() ==> r == Some(
                old(self).seq_view()[index as int],
            ) && final(self).seq_view() == old(self).seq_view().remove(index as int),
            (index as int) >= old(self).seq_view().len() ==> r is None && final(self).seq_view()
                == old(self).seq_view(),
    ;

    /// Write access to the element at `index`, if any.
    fn get_mut(&mut self, index: usize) -> (r: Option<&mut T>)
        ensures
            (index as int) >= old(self).seq_view().len() ==> r is None && final(self).seq_view()
                == old(self).seq_view(),
            (index as int) < old(self).seq_view().len() ==> r is Some && *r.unwrap()
                == old(self).seq_view()[index as int] && final(self).seq_view()
                == old(self).seq_view().update(index as int, *final(r.unwrap())),
    ;
}

/// Read access to a keyed store.
pub trait ReadonlyMap<K, V> {
    /// The stored entries.
    spec fn map_view(&self) -> Map<K, V>;

    /// Validity of the store's internal structure.
    spec fn map_inv(&self) -> bool;

    /// The value stored under `key`, if any.
    fn get(&self, key: &K) -> (r: Option<&V>)
        requires
            self.map_inv(),
        ensures
            r == (if self.map_view().contains_key(*key) {
                Some(&self.map_view()[*key])
            } else {
                None::<&V>
            }),
    ;

    /// The number of stored keys.
    fn size(&self) -> (n: usize)
        requires
            self.map_inv(),
        ensures
            n == self.map_view().dom().len(),
    ;
}

/// Mutable access to a keyed store.
pub trait MutableMap<K, V>: ReadonlyMap<K, V> {
    /// Write access to the value stored under `key`, if any.
    fn get_mut(&mut self, key: &K) -> (r: Option<&mut V>)
        requires
            old(self).map_inv(),
        ensures
            !old(self).map_view().contains_key(*key) ==> r is None && final(self).map_view()
                == old(self).map_view() && final(self).map_inv(),
            old(self).map_view().contains_key(*key) ==> r is Some && *r.unwrap()
                == old(self).map_view()[*key] && final(self).map_view()
                == old(self).map_view().insert(*key, *final(r.unwrap())) && final(self).map_inv(),
    ;

    /// Stores `value` under `key`, replacing any previous value.
    fn put(&mut self, key: K, value: V)
        requires
            old(self).map_inv(),
            old(self).map_view().dom().len() < usize::MAX,
        ensures
            final(self).map_inv(),
            final(self).map_view() == old(self).map_view().insert(key, value),
    ;

    /// Removes and returns the value stored under `key`, if any.
    fn remove(&mut self, key: &K) -> (r: Option<V>)
        requires
            old(self).map_inv(),
        ensures
            final(self).map_inv(),
            final(self).map_view() == old(self).map_view().remove(*key),
            r == (if old(self).map_view().contains_key(*key) {
                Some(old(self).map_view()[*key])
            } else {
                None::<V>
            }),
    ;
}

} // verus!
