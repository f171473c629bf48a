//! The shared handle: one list state behind a lock.

use std::sync::Arc;
use vstd::prelude::*;
use vstd::rwlock::{RwLock, RwLockPredicate};
use super::nodes::DoublyLinkedNodes;
use super::sequence::{
    all_applied, draining, lemma_drained_after, lemma_one_more_applied, Operation,
};
use super::text::listing;

verus! {

/// The list state under the lock, beside the record of what was done to
/// the list since it was made.
struct Guarded<T> {
    nodes: DoublyLinkedNodes<T>,
    done: Ghost<Seq<Operation<T>>>,
}

/// What the lock admits: a consistent list state that holds what the
/// recorded operations have made of the list's first contents.
pub ghost struct Consistent<T> {
    /// What the list held when it was made.
    pub initial: Seq<T>,
}

impl<T> RwLockPredicate<Guarded<T>> for Consistent<T> {
    closed spec fn inv(self, guarded: Guarded<T>) -> bool {
        guarded.nodes.wf() && guarded.nodes@ == all_applied(self.initial, guarded.done@)
    }
}

/// Thread safe doubly linked list.
///
/// A handle is cheap to clone, and all clones act on one list. Every
/// operation takes the list's lock, runs the operation of
/// [`DoublyLinkedNodes`] of the same name on the state, and releases the
/// lock, so the operations of all handles happen one after another, and
/// the list always holds what a run of operations has made of what it held
/// when it was made. What an operation finds under the lock depends on
/// what the other handles did before; what it does to the state it finds
/// is the contract of the operation it runs.
pub struct DoublyLinkedList<T>(Arc<RwLock<Guarded<T>, Consistent<T>>>);

/// Another handle on what `shared` points to.
///
/// Calls `Arc::clone`, which returns a pointer to the same allocation: the
/// two handles hold the same value.
#[verifier::external_body]
fn share<T>(shared: &Arc<T>) -> (handle: Arc<T>)
    ensures
        handle == shared,
{
    Arc::clone(shared)
}

impl<T> DoublyLinkedList<T> {
    /// What the list held when it was made, from left to right. All
    /// handles of one list agree on it.
    pub closed spec fn initial(&self) -> Seq<T> {
        self.0.pred().initial
    }

    /// The handle of a new, empty list.
    pub fn new() -> (list: Self)
        ensures
            list.initial() == Seq::<T>::empty(),
    {
        let guarded = Guarded { nodes: DoublyLinkedNodes::new(), done: Ghost(Seq::empty()) };
        DoublyLinkedList(Arc::new(RwLock::new(guarded, Ghost(Consistent { initial: Seq::empty() }))))
    }

    /// Adds `value` at the left end.
    pub fn push_left(&self, value: T) {
        let ghost pushed = Operation::PushLeft(value);
        let (mut guarded, lock) = self.0.acquire_write();
        proof {
            lemma_one_more_applied(self.initial(), guarded.done@, pushed);
        }
        guarded.nodes.push_left(value);
        guarded.done = Ghost(guarded.done@.push(pushed));
        lock.release_write(guarded);
    }

    /// Adds `value` at the right end.
    pub fn push_right(&self, value: T) {
        let ghost pushed = Operation::PushRight(value);
        let (mut guarded, lock) = self.0.acquire_write();
        proof {
            lemma_one_more_applied(self.initial(), guarded.done@, pushed);
        }
        guarded.nodes.push_right(value);
        guarded.done = Ghost(guarded.done@.push(pushed));
        lock.release_write(guarded);
    }

    /// Removes the leftmost value and returns it; `None` if the list is empty.
    pub fn pop_left(&self) -> Option<T> {
        let (mut guarded, lock) = self.0.acquire_write();
        proof {
            lemma_one_more_applied(self.initial(), guarded.done@, Operation::PopLeft);
        }
        let value = guarded.nodes.pop_left();
        guarded.done = Ghost(guarded.done@.push(Operation::PopLeft));
        lock.release_write(guarded);
        value
    }

    /// Removes the rightmost value and returns it; `None` if the list is empty.
    pub fn pop_right(&self) -> Option<T> {
        let (mut guarded, lock) = self.0.acquire_write();
        proof {
            lemma_one_more_applied(self.initial(), guarded.done@, Operation::PopRight);
        }
        let value = guarded.nodes.pop_right();
        guarded.done = Ghost(guarded.done@.push(Operation::PopRight));
        lock.release_write(guarded);
        value
    }

    /// Runs one operation and returns what it hands out: the value of a
    /// pop, nothing for a push.
    pub fn apply(&self, operation: Operation<T>) -> (value: Option<T>)
        ensures
            operation.is_push() ==> value is None,
    {
        let ghost applied = operation;
        let (mut guarded, lock) = self.0.acquire_write();
        proof {
            lemma_one_more_applied(self.initial(), guarded.done@, applied);
        }
        let value = guarded.nodes.apply(operation);
        guarded.done = Ghost(guarded.done@.push(applied));
        lock.release_write(guarded);
        value
    }

    /// The next value from the left, removed from the list; `None` if the list is empty.
    pub fn next(&mut self) -> Option<T> {
        self.pop_left()
    }

    /// The handle of a new list that holds `values` from left to right.
    pub fn from_iter(values: Vec<T>) -> (list: Self)
        ensures
            list.initial() == values@,
    {
        let ghost initial = values@;
        let guarded = Guarded {
            nodes: DoublyLinkedNodes::from_iter(values),
            done: Ghost(Seq::empty()),
        };
        DoublyLinkedList(Arc::new(RwLock::new(guarded, Ghost(Consistent { initial }))))
    }

    /// Empties the list and returns its values from left to right.
    pub fn drain(&self) -> Vec<T> {
        let (mut guarded, lock) = self.0.acquire_write();
        proof {
            lemma_drained_after(self.initial(), guarded.done@);
        }
        let ghost pops = draining(guarded.nodes@);
        let values = guarded.nodes.drain();
        guarded.done = Ghost(guarded.done@ + pops);
        lock.release_write(guarded);
        values
    }

    /// The number of values in the list at the moment of the call.
    pub fn len(&self) -> usize {
        let lock = self.0.acquire_read();
        let length = lock.borrow().nodes.len();
        lock.release_read();
        length
    }

    /// The listing of the list at the moment of the call: the type's name
    /// and, in square brackets, how each value reads, from left to right.
    pub fn fmt(&self) -> (text: String) where T: core::fmt::Debug
        ensures
            exists|texts: Seq<Seq<char>>| text@ == #[trigger] listing(texts),
    {
        let lock = self.0.acquire_read();
        let text = lock.borrow().nodes.fmt();
        lock.release_read();
        text
    }
}

impl<T> Clone for DoublyLinkedList<T> {
    /// Another handle on the same list.
    fn clone(&self) -> (handle: Self)
        ensures
            handle == *self,
    {
        DoublyLinkedList(share(&self.0))
    }
}

impl<T> Default for DoublyLinkedList<T> {
    /// The handle of a new, empty list.
    fn default() -> (list: Self)
        ensures
            list.initial() == Seq::<T>::empty(),
    {
        Self::new()
    }
}

} // verus!
