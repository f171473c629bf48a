//! The list as a sequence of values: what each operation does to it, and the
//! laws that relate the operations.

use vstd::prelude::*;

verus! {

/// The sequence after `value` has been pushed at the left end.
pub open spec fn pushed_left<T>(items: Seq<T>, value: T) -> Seq<T> {
    seq![value] + items
}

/// The sequence after `value` has been pushed at the right end.
pub open spec fn pushed_right<T>(items: Seq<T>, value: T) -> Seq<T> {
    items.push(value)
}

/// What a pop at the left end returns, and the sequence it leaves.
pub open spec fn popped_left<T>(items: Seq<T>) -> (Option<T>, Seq<T>) {
    if items.len() == 0 {
        (None, items)
    } else {
        (Some(items.first()), items.drop_first())
    }
}

/// What a pop at the right end returns, and the sequence it leaves.
pub open spec fn popped_right<T>(items: Seq<T>) -> (Option<T>, Seq<T>) {
    if items.len() == 0 {
        (None, items)
    } else {
        (Some(items.last()), items.drop_last())
    }
}

/// The sequence after each of `values`, in order, has been pushed at the left end.
pub open spec fn all_pushed_left<T>(items: Seq<T>, values: Seq<T>) -> Seq<T>
    decreases values.len(),
{
    if values.len() == 0 {
        items
    } else {
        all_pushed_left(pushed_left(items, values.first()), values.drop_first())
    }
}

/// The sequence after each of `values`, in order, has been pushed at the right end.
pub open spec fn all_pushed_right<T>(items: Seq<T>, values: Seq<T>) -> Seq<T>
    decreases values.len(),
{
    if values.len() == 0 {
        items
    } else {
        all_pushed_right(pushed_right(items, values.first()), values.drop_first())
    }
}

/// The values that come out when the sequence is popped from the left until
/// a pop returns nothing.
pub open spec fn drained<T>(items: Seq<T>) -> Seq<T>
    decreases items.len(),
{
    match popped_left(items).0 {
        Some(value) => seq![value] + drained(popped_left(items).1),
        None => Seq::empty(),
    }
}

/// The sequence after `count` pops at the left end.
pub open spec fn left_popped_times<T>(items: Seq<T>, count: nat) -> Seq<T>
    decreases count,
{
    if count == 0 {
        items
    } else {
        left_popped_times(popped_left(items).1, (count - 1) as nat)
    }
}

/// The sequence after `count` pops at the right end.
pub open spec fn right_popped_times<T>(items: Seq<T>, count: nat) -> Seq<T>
    decreases count,
{
    if count == 0 {
        items
    } else {
        right_popped_times(popped_right(items).1, (count - 1) as nat)
    }
}

/// One operation on the list.
pub enum Operation<T> {
    PushLeft(T),
    PushRight(T),
    PopLeft,
    PopRight,
}

impl<T> Operation<T> {
    /// Whether the operation is a push.
    pub open spec fn is_push(self) -> bool {
        self is PushLeft || self is PushRight
    }

    /// The sequence that the operation leaves.
    pub open spec fn applied(self, items: Seq<T>) -> Seq<T> {
        match self {
            Operation::PushLeft(value) => pushed_left(items, value),
            Operation::PushRight(value) => pushed_right(items, value),
            Operation::PopLeft => popped_left(items).1,
            Operation::PopRight => popped_right(items).1,
        }
    }

    /// Whether the operation is a pop that returns a value.
    pub open spec fn pops_value(self, items: Seq<T>) -> bool {
        match self {
            Operation::PopLeft => popped_left(items).0 is Some,
            Operation::PopRight => popped_right(items).0 is Some,
            _ => false,
        }
    }
}

/// The sequence after the operations have run in order.
pub open spec fn all_applied<T>(items: Seq<T>, operations: Seq<Operation<T>>) -> Seq<T>
    decreases operations.len(),
{
    if operations.len() == 0 {
        items
    } else {
        all_applied(operations.first().applied(items), operations.drop_first())
    }
}

/// How many of the operations are pushes.
pub open spec fn push_count<T>(operations: Seq<Operation<T>>) -> nat
    decreases operations.len(),
{
    if operations.len() == 0 {
        0
    } else {
        (if operations.first().is_push() {
            1nat
        } else {
            0nat
        }) + push_count(operations.drop_first())
    }
}

/// How many of the operations, run in order from `items`, are pops that
/// return a value.
pub open spec fn successful_pop_count<T>(items: Seq<T>, operations: Seq<Operation<T>>) -> nat
    decreases operations.len(),
{
    if operations.len() == 0 {
        0
    } else {
        (if operations.first().pops_value(items) {
            1nat
        } else {
            0nat
        }) + successful_pop_count(operations.first().applied(items), operations.drop_first())
    }
}

/// Pushing values at the right end appends them in order.
pub proof fn lemma_all_pushed_right<T>(items: Seq<T>, values: Seq<T>)
    ensures
        all_pushed_right(items, values) == items + values,
    decreases values.len(),
{
    if values.len() == 0 {
        assert(items + values =~= items);
    } else {
        lemma_all_pushed_right(pushed_right(items, values.first()), values.drop_first());
        assert(pushed_right(items, values.first()) + values.drop_first() =~= items + values);
    }
}

/// Pushing values at the left end prepends them in reverse order.
pub proof fn lemma_all_pushed_left<T>(items: Seq<T>, values: Seq<T>)
    ensures
        all_pushed_left(items, values) == values.reverse() + items,
    decreases values.len(),
{
    if values.len() == 0 {
        assert(values.reverse() + items =~= items);
    } else {
        lemma_all_pushed_left(pushed_left(items, values.first()), values.drop_first());
        assert(values.drop_first().reverse() + pushed_left(items, values.first())
            =~= values.reverse() + items);
    }
}

/// Draining hands the values out in their order from left to right.
pub proof fn lemma_drained<T>(items: Seq<T>)
    ensures
        drained(items) == items,
    decreases items.len(),
{
    if items.len() == 0 {
        assert(drained(items) =~= items);
    } else {
        lemma_drained(items.drop_first());
        assert(seq![items.first()] + items.drop_first() =~= items);
    }
}

/// Building a list from a sequence by pushes at the right end and draining
/// it from the left gives the sequence back, in its order.
pub proof fn lemma_build_then_drain<T>(values: Seq<T>)
    ensures
        drained(all_pushed_right(Seq::empty(), values)) == values,
{
    lemma_all_pushed_right(Seq::empty(), values);
    assert(Seq::<T>::empty() + values =~= values);
    lemma_drained(values);
}

/// After pushes at the left end of an empty list, draining from the left
/// gives the values in the reverse of the order in which they were pushed.
pub proof fn lemma_push_left_then_drain<T>(values: Seq<T>)
    ensures
        drained(all_pushed_left(Seq::empty(), values)) == values.reverse(),
{
    lemma_all_pushed_left(Seq::empty(), values);
    assert(values.reverse() + Seq::<T>::empty() =~= values.reverse());
    lemma_drained(values.reverse());
}

/// After pushes at the right end, draining from the left gives what the
/// list held before, followed by the pushed values in the order in which
/// they were pushed.
pub proof fn lemma_push_right_then_drain<T>(items: Seq<T>, values: Seq<T>)
    ensures
        drained(all_pushed_right(items, values)) == items + values,
{
    lemma_all_pushed_right(items, values);
    lemma_drained(items + values);
}

/// A pop at either end of an empty list returns nothing and leaves the list
/// empty, however often it is repeated.
pub proof fn lemma_pop_empty<T>(items: Seq<T>, count: nat)
    requires
        items.len() == 0,
    ensures
        popped_left(items) == (None::<T>, items),
        popped_right(items) == (None::<T>, items),
        left_popped_times(items, count) == items,
        right_popped_times(items, count) == items,
    decreases count,
{
    if count > 0 {
        lemma_pop_empty(items, (count - 1) as nat);
    }
}

/// After any run of operations the list holds as many values as it held
/// before, plus one for each push, minus one for each pop that returned a
/// value.
pub proof fn lemma_length_after<T>(items: Seq<T>, operations: Seq<Operation<T>>)
    ensures
        all_applied(items, operations).len() == items.len() + push_count(operations)
            - successful_pop_count(items, operations),
    decreases operations.len(),
{
    if operations.len() > 0 {
        lemma_length_after(operations.first().applied(items), operations.drop_first());
    }
}

/// After any run of operations on an empty list, the list holds as many
/// values as there were pushes, minus the pops that returned a value.
pub proof fn lemma_length_from_empty<T>(operations: Seq<Operation<T>>)
    ensures
        all_applied(Seq::<T>::empty(), operations).len() == push_count(operations)
            - successful_pop_count(Seq::<T>::empty(), operations),
{
    lemma_length_after(Seq::<T>::empty(), operations);
}

/// Running one more operation at the end is running it on what the
/// operations before it leave.
pub proof fn lemma_one_more_applied<T>(
    items: Seq<T>,
    operations: Seq<Operation<T>>,
    operation: Operation<T>,
)
    ensures
        all_applied(items, operations.push(operation)) == operation.applied(
            all_applied(items, operations),
        ),
    decreases operations.len(),
{
    let longer = operations.push(operation);
    if operations.len() == 0 {
        assert(longer.drop_first() =~= Seq::<Operation<T>>::empty());
        assert(all_applied(operation.applied(items), longer.drop_first()) == operation.applied(
            items,
        ));
    } else {
        assert(longer.first() == operations.first());
        assert(longer.drop_first() =~= operations.drop_first().push(operation));
        lemma_one_more_applied(
            operations.first().applied(items),
            operations.drop_first(),
            operation,
        );
    }
}

/// As many pops at the left end as the list holds values: the run that
/// drains it.
pub open spec fn draining<T>(items: Seq<T>) -> Seq<Operation<T>> {
    Seq::new(items.len(), |i: int| Operation::PopLeft)
}

/// Running the draining run after other operations leaves nothing.
pub proof fn lemma_drained_after<T>(items: Seq<T>, operations: Seq<Operation<T>>)
    ensures
        all_applied(items, operations + draining(all_applied(items, operations)))
            == Seq::<T>::empty(),
    decreases all_applied(items, operations).len(),
{
    let held = all_applied(items, operations);
    if held.len() == 0 {
        assert(operations + draining(held) =~= operations);
        assert(held =~= Seq::<T>::empty());
    } else {
        let popped = operations.push(Operation::PopLeft);
        lemma_one_more_applied(items, operations, Operation::PopLeft);
        lemma_drained_after(items, popped);
        assert(operations + draining(held) =~= popped + draining(held.drop_first()));
    }
}

} // verus!
