//! The list state: nothing, or the two boundary nodes of a chain and the
//! number of nodes in it.

use vstd::prelude::*;
use super::doubly_linked_node::{
    disconnect_left, disconnect_right, push_left, push_right, DoublyLinkedNode, NodeArena,
};
use super::text::{debug_text, lemma_listing_of_nothing, listing, listing_of};
use super::sequence::{
    all_pushed_right, drained, lemma_all_pushed_right, lemma_drained, popped_left, popped_right,
    pushed_left, pushed_right, Operation,
};

verus! {

/// The boundary nodes of the chain.
enum Ends {
    /// No node exists.
    Nothing,
    /// The leftmost and the rightmost node, which are one node when the
    /// chain has a single node, and the number of nodes.
    Something { first_node: usize, last_node: usize, length: usize },
}

/// The state of a list: its nodes and where the chain begins and ends.
pub struct DoublyLinkedNodes<T> {
    arena: NodeArena<T>,
    ends: Ends,
    /// The slots of the chain from left to right.
    order: Ghost<Seq<usize>>,
}

/// `order` lists the nodes of `nodes`, each once, so that each node's links
/// name its neighbours in `order`, and nothing at the two ends.
spec fn chained<T>(nodes: Map<usize, DoublyLinkedNode<T>>, order: Seq<usize>) -> bool {
    &&& order.no_duplicates()
    &&& forall|slot: usize| #[trigger] nodes.contains_key(slot) <==> order.contains(slot)
    &&& forall|k: int|
        0 <= k < order.len() ==> {
            &&& (#[trigger] nodes[order[k]]).prev_node == if k == 0 {
                None
            } else {
                Some(order[k - 1])
            }
            &&& nodes[order[k]].next_node == if k == order.len() - 1 {
                None
            } else {
                Some(order[k + 1])
            }
        }
}

/// Distinct numbers below a bound are at most as many as the bound.
proof fn lemma_distinct_below(order: Seq<usize>, bound: nat)
    requires
        order.no_duplicates(),
        forall|k: int| 0 <= k < order.len() ==> (#[trigger] order[k]) < bound,
    ensures
        order.len() <= bound,
    decreases bound,
{
    if order.len() == 0 {
    } else if bound == 0 {
        assert(order[0] < bound);
    } else {
        let top = (bound - 1) as usize;
        if order.contains(top) {
            let at = choose|at: int| 0 <= at < order.len() && order[at] == top;
            let rest = order.remove(at);
            assert forall|k: int| 0 <= k < rest.len() implies (#[trigger] rest[k]) < bound - 1 by {
                if k < at {
                    assert(rest[k] == order[k]);
                } else {
                    assert(rest[k] == order[k + 1]);
                }
            }
            assert(rest.no_duplicates()) by {
                assert forall|i: int, j: int|
                    0 <= i < rest.len() && 0 <= j < rest.len() && i != j implies rest[i]
                    != rest[j] by {
                    let i0 = if i < at { i } else { i + 1 };
                    let j0 = if j < at { j } else { j + 1 };
                    assert(rest[i] == order[i0]);
                    assert(rest[j] == order[j0]);
                }
            }
            lemma_distinct_below(rest, (bound - 1) as nat);
        } else {
            assert forall|k: int| 0 <= k < order.len() implies (#[trigger] order[k]) < bound
                - 1 by {
                assert(order.contains(order[k]));
            }
            lemma_distinct_below(order, (bound - 1) as nat);
        }
    }
}

impl<T> DoublyLinkedNodes<T> {
    /// The values from left to right.
    pub closed spec fn view(&self) -> Seq<T> {
        Seq::new(self.order@.len(), |k: int| self.arena@[self.order@[k]].value)
    }

    /// The chain is consistent: the arena holds exactly its nodes, linked
    /// in both directions, and the boundary nodes and the count are those
    /// of the chain.
    pub closed spec fn wf(&self) -> bool {
        &&& self.arena.wf()
        &&& chained(self.arena@, self.order@)
        &&& match self.ends {
            Ends::Nothing => self.order@.len() == 0,
            Ends::Something { first_node, last_node, length } => {
                &&& length >= 1
                &&& length == self.order@.len()
                &&& first_node == self.order@[0]
                &&& last_node == self.order@[length - 1]
            },
        }
    }

    /// The chain has no more nodes than the arena has slots, and their
    /// number fits a `usize`.
    proof fn lemma_length_bounded(&self)
        requires
            chained(self.arena@, self.order@),
        ensures
            self.order@.len() <= self.arena.capacity() <= usize::MAX,
    {
        self.arena.lemma_keys_below_capacity();
        assert forall|k: int| 0 <= k < self.order@.len() implies (#[trigger] self.order@[k])
            < self.arena.capacity() by {
            assert(self.order@.contains(self.order@[k]));
            assert(self.arena@.contains_key(self.order@[k]));
        }
        lemma_distinct_below(self.order@, self.arena.capacity());
    }

    /// The state without nodes.
    pub fn new() -> (nodes: Self)
        ensures
            nodes.wf(),
            nodes@ == Seq::<T>::empty(),
    {
        let nodes = DoublyLinkedNodes {
            arena: NodeArena::new(),
            ends: Ends::Nothing,
            order: Ghost(Seq::empty()),
        };
        assert(nodes@ =~= Seq::<T>::empty());
        nodes
    }

    /// The number of nodes.
    pub fn len(&self) -> (length: usize)
        requires
            self.wf(),
        ensures
            length == self@.len(),
    {
        match self.ends {
            Ends::Nothing => 0,
            Ends::Something { first_node: _, last_node: _, length } => length,
        }
    }

    /// Adds a node holding `value` at the left end.
    pub fn push_left(&mut self, value: T)
        requires
            old(self).wf(),
        ensures
            final(self).wf(),
            final(self)@ == pushed_left(old(self)@, value),
    {
        match self.ends {
            Ends::Nothing => {
                let node = self.arena.insert(
                    DoublyLinkedNode { prev_node: None, next_node: None, value },
                );
                self.ends = Ends::Something { first_node: node, last_node: node, length: 1 };
                self.order = Ghost(Seq::empty().push(node));
                proof {
                    assert(self.order@[0] == node);
                    assert(self@ =~= pushed_left(old(self)@, value));
                }
            },
            Ends::Something { first_node, last_node, length } => {
                let node = push_left(&mut self.arena, first_node, value);
                self.order = Ghost(Seq::empty().push(node) + old(self).order@);
                proof {
                    let before = old(self).order@;
                    let after = self.order@;
                    assert(before.contains(first_node));
                    assert(forall|k: int| 0 < k < after.len() ==> after[k] == before[k - 1]);
                    assert(after[0] == node);
                    assert forall|slot: usize| #[trigger]
                        self.arena@.contains_key(slot) <==> after.contains(slot) by {
                        if slot == node {
                            assert(after[0] == slot);
                        } else if before.contains(slot) {
                            let k = choose|k: int| 0 <= k < before.len() && before[k] == slot;
                            assert(after[k + 1] == slot);
                        }
                    }
                    assert forall|k: int| 0 < k < after.len() implies after[k] != node by {
                        assert(before.contains(before[k - 1]));
                    }
                    assert(chained(self.arena@, after));
                    self.lemma_length_bounded();
                    assert(self@ =~= pushed_left(old(self)@, value));
                }
                self.ends = Ends::Something { first_node: node, last_node, length: length + 1 };
            },
        }
    }

    /// Adds a node holding `value` at the right end.
    pub fn push_right(&mut self, value: T)
        requires
            old(self).wf(),
        ensures
            final(self).wf(),
            final(self)@ == pushed_right(old(self)@, value),
    {
        match self.ends {
            Ends::Nothing => {
                let node = self.arena.insert(
                    DoublyLinkedNode { prev_node: None, next_node: None, value },
                );
                self.ends = Ends::Something { first_node: node, last_node: node, length: 1 };
                self.order = Ghost(Seq::empty().push(node));
                proof {
                    assert(self.order@[0] == node);
                    assert(self@ =~= pushed_right(old(self)@, value));
                }
            },
            Ends::Something { first_node, last_node, length } => {
                let node = push_right(&mut self.arena, last_node, value);
                self.order = Ghost(old(self).order@.push(node));
                proof {
                    let before = old(self).order@;
                    let after = self.order@;
                    assert(before.contains(last_node));
                    assert(forall|k: int| 0 <= k < before.len() ==> after[k] == before[k]);
                    assert(after[before.len() as int] == node);
                    assert forall|slot: usize| #[trigger]
                        self.arena@.contains_key(slot) <==> after.contains(slot) by {
                        if slot == node {
                            assert(after[before.len() as int] == slot);
                        } else if before.contains(slot) {
                            let k = choose|k: int| 0 <= k < before.len() && before[k] == slot;
                            assert(after[k] == slot);
                        }
                    }
                    assert forall|k: int| 0 <= k < before.len() implies after[k] != node by {
                        assert(before.contains(before[k]));
                    }
                    assert(chained(self.arena@, after));
                    self.lemma_length_bounded();
                    assert(self@ =~= pushed_right(old(self)@, value));
                }
                self.ends = Ends::Something { first_node, last_node: node, length: length + 1 };
            },
        }
    }

    /// Removes the leftmost node and returns its value; `None` if there is
    /// no node.
    pub fn pop_left(&mut self) -> (value: Option<T>)
        requires
            old(self).wf(),
        ensures
            final(self).wf(),
            value == popped_left(old(self)@).0,
            final(self)@ == popped_left(old(self)@).1,
    {
        match self.ends {
            Ends::Nothing => {
                proof {
                    assert(self@ =~= Seq::<T>::empty());
                }
                None
            },
            Ends::Something { first_node, last_node, length } => {
                let ghost before = self.order@;
                proof {
                    assert(before.contains(first_node));
                }
                if length == 1 {
                    proof {
                        assert forall|slot: usize| #[trigger]
                            self.arena@.contains_key(slot) implies slot == first_node by {
                            assert(before.contains(slot));
                        }
                        assert(self.arena@[before[0]].prev_node is None);
                    }
                    let node = self.arena.reclaim(first_node);
                    self.ends = Ends::Nothing;
                    self.order = Ghost(Seq::empty());
                    proof {
                        assert(self@ =~= popped_left(old(self)@).1);
                    }
                    Some(node.value)
                } else {
                    proof {
                        assert(self.arena@[before[0]].next_node == Some(before[1]));
                        assert(before.contains(before[1]));
                    }
                    let second = disconnect_right(&mut self.arena, first_node);
                    let ghost after = before.drop_first();
                    proof {
                        assert forall|slot: usize| #[trigger]
                            self.arena@.contains_key(slot) implies self.arena@[slot].prev_node
                            != Some(first_node) && self.arena@[slot].next_node != Some(
                            first_node,
                        ) by {
                            assert(before.contains(slot));
                            let k = choose|k: int| 0 <= k < before.len() && before[k] == slot;
                            assert(old(self).arena@[before[k]].prev_node == if k == 0 {
                                None
                            } else {
                                Some(before[k - 1])
                            });
                        }
                    }
                    let node = self.arena.reclaim(first_node);
                    self.ends = Ends::Something {
                        first_node: second.unwrap(),
                        last_node,
                        length: length - 1,
                    };
                    self.order = Ghost(after);
                    proof {
                        assert(forall|k: int| 0 <= k < after.len() ==> after[k] == before[k + 1]);
                        assert forall|slot: usize| #[trigger]
                            self.arena@.contains_key(slot) <==> after.contains(slot) by {
                            if before.contains(slot) && slot != first_node {
                                let k = choose|k: int| 0 <= k < before.len() && before[k] == slot;
                                assert(after[k - 1] == slot);
                            }
                            if after.contains(slot) {
                                let k = choose|k: int| 0 <= k < after.len() && after[k] == slot;
                                assert(before[k + 1] == slot);
                                assert(before.contains(slot));
                            }
                        }
                        assert forall|k: int| 0 <= k < after.len() implies {
                            &&& (#[trigger] self.arena@[after[k]]).prev_node == if k == 0 {
                                None
                            } else {
                                Some(after[k - 1])
                            }
                            &&& self.arena@[after[k]].next_node == if k == after.len() - 1 {
                                None
                            } else {
                                Some(after[k + 1])
                            }
                        } by {
                            assert(after[k] == before[k + 1]);
                            assert(old(self).arena@[before[k + 1]].next_node == if k + 1
                                == before.len() - 1 {
                                None
                            } else {
                                Some(before[k + 2])
                            });
                        }
                        assert(chained(self.arena@, after));
                        assert(self@ =~= popped_left(old(self)@).1);
                    }
                    Some(node.value)
                }
            },
        }
    }

    /// Removes the rightmost node and returns its value; `None` if there is
    /// no node.
    pub fn pop_right(&mut self) -> (value: Option<T>)
        requires
            old(self).wf(),
        ensures
            final(self).wf(),
            value == popped_right(old(self)@).0,
            final(self)@ == popped_right(old(self)@).1,
    {
        match self.ends {
            Ends::Nothing => {
                proof {
                    assert(self@ =~= Seq::<T>::empty());
                }
                None
            },
            Ends::Something { first_node, last_node, length } => {
                let ghost before = self.order@;
                let ghost last = before.len() - 1;
                proof {
                    assert(before.contains(last_node));
                }
                if length == 1 {
                    proof {
                        assert forall|slot: usize| #[trigger]
                            self.arena@.contains_key(slot) implies slot == last_node by {
                            assert(before.contains(slot));
                        }
                        assert(self.arena@[before[0]].prev_node is None);
                    }
                    let node = self.arena.reclaim(last_node);
                    self.ends = Ends::Nothing;
                    self.order = Ghost(Seq::empty());
                    proof {
                        assert(self@ =~= popped_right(old(self)@).1);
                    }
                    Some(node.value)
                } else {
                    proof {
                        assert(self.arena@[before[last]].prev_node == Some(before[last - 1]));
                        assert(before.contains(before[last - 1]));
                    }
                    let second = disconnect_left(&mut self.arena, last_node);
                    let ghost after = before.drop_last();
                    proof {
                        assert forall|slot: usize| #[trigger]
                            self.arena@.contains_key(slot) implies self.arena@[slot].prev_node
                            != Some(last_node) && self.arena@[slot].next_node != Some(
                            last_node,
                        ) by {
                            assert(before.contains(slot));
                            let k = choose|k: int| 0 <= k < before.len() && before[k] == slot;
                            assert(old(self).arena@[before[k]].next_node == if k == last {
                                None
                            } else {
                                Some(before[k + 1])
                            });
                        }
                    }
                    let node = self.arena.reclaim(last_node);
                    self.ends = Ends::Something {
                        first_node,
                        last_node: second.unwrap(),
                        length: length - 1,
                    };
                    self.order = Ghost(after);
                    proof {
                        assert(forall|k: int| 0 <= k < after.len() ==> after[k] == before[k]);
                        assert forall|slot: usize| #[trigger]
                            self.arena@.contains_key(slot) <==> after.contains(slot) by {
                            if before.contains(slot) && slot != last_node {
                                let k = choose|k: int| 0 <= k < before.len() && before[k] == slot;
                                assert(after[k] == slot);
                            }
                            if after.contains(slot) {
                                let k = choose|k: int| 0 <= k < after.len() && after[k] == slot;
                                assert(before[k] == slot);
                                assert(before.contains(slot));
                            }
                        }
                        assert forall|k: int| 0 <= k < after.len() implies {
                            &&& (#[trigger] self.arena@[after[k]]).prev_node == if k == 0 {
                                None
                            } else {
                                Some(after[k - 1])
                            }
                            &&& self.arena@[after[k]].next_node == if k == after.len() - 1 {
                                None
                            } else {
                                Some(after[k + 1])
                            }
                        } by {
                            assert(after[k] == before[k]);
                            assert(old(self).arena@[before[k]].prev_node == if k == 0 {
                                None
                            } else {
                                Some(before[k - 1])
                            });
                        }
                        assert(chained(self.arena@, after));
                        assert(self@ =~= popped_right(old(self)@).1);
                    }
                    Some(node.value)
                }
            },
        }
    }

    /// Runs one operation and returns what it hands out: the value of a
    /// pop, nothing for a push.
    pub fn apply(&mut self, operation: Operation<T>) -> (value: Option<T>)
        requires
            old(self).wf(),
        ensures
            final(self).wf(),
            final(self)@ == operation.applied(old(self)@),
            value == match operation {
                Operation::PopLeft => popped_left(old(self)@).0,
                Operation::PopRight => popped_right(old(self)@).0,
                _ => None,
            },
    {
        match operation {
            Operation::PushLeft(value) => {
                self.push_left(value);
                None
            },
            Operation::PushRight(value) => {
                self.push_right(value);
                None
            },
            Operation::PopLeft => self.pop_left(),
            Operation::PopRight => self.pop_right(),
        }
    }

    /// The state that holds `values` from left to right, built by pushing
    /// each at the right end.
    pub fn from_iter(values: Vec<T>) -> (nodes: Self)
        ensures
            nodes.wf(),
            nodes@ == values@,
            nodes@ == all_pushed_right(Seq::empty(), values@),
    {
        let mut nodes = Self::new();
        let ghost wanted = values@;
        for value in iter: values
            invariant
                nodes.wf(),
                iter.seq() == wanted,
                nodes@ == wanted.take(iter.index() as int),
        {
            nodes.push_right(value);
            proof {
                assert(nodes@ =~= wanted.take(iter.index() + 1));
            }
        }
        proof {
            assert(nodes@ =~= wanted);
            lemma_all_pushed_right(Seq::empty(), wanted);
            assert(Seq::<T>::empty() + wanted =~= wanted);
        }
        nodes
    }

    /// Pops from the left until nothing is left, and returns the values in
    /// the order in which they came out.
    pub fn drain(&mut self) -> (values: Vec<T>)
        requires
            old(self).wf(),
        ensures
            final(self).wf(),
            final(self)@ == Seq::<T>::empty(),
            values@ == old(self)@,
            values@ == drained(old(self)@),
    {
        let mut values: Vec<T> = Vec::new();
        loop
            invariant
                self.wf(),
                values@ + self@ == old(self)@,
            ensures
                self@.len() == 0,
            decreases self@.len(),
        {
            let ghost rest = self@;
            match self.pop_left() {
                Some(value) => {
                    values.push(value);
                    proof {
                        assert(values@ + self@ =~= values@.drop_last() + rest);
                    }
                },
                None => {
                    break ;
                },
            }
        }
        proof {
            assert(values@ =~= values@ + self@);
            assert(self@ =~= Seq::<T>::empty());
            lemma_drained(old(self)@);
        }
        values
    }

    /// The values from left to right, read in place: the walk starts at
    /// the leftmost node and follows the right links.
    pub fn values(&self) -> (values: Vec<&T>)
        requires
            self.wf(),
        ensures
            values@.len() == self@.len(),
            forall|k: int| 0 <= k < values@.len() ==> *(#[trigger] values@[k]) == self@[k],
    {
        let mut values: Vec<&T> = Vec::new();
        match self.ends {
            Ends::Nothing => (),
            Ends::Something { first_node, last_node: _, length } => {
                let mut node = first_node;
                proof {
                    assert(self.order@.contains(self.order@[0]));
                }
                let mut i: usize = 0;
                while i < length - 1
                    invariant
                        self.wf(),
                        length == self.order@.len(),
                        i < length,
                        node == self.order@[i as int],
                        values@.len() == i,
                        forall|k: int| 0 <= k < i ==> *(#[trigger] values@[k]) == self@[k],
                    decreases length - i,
                {
                    proof {
                        assert(self.order@.contains(self.order@[i as int]));
                        assert(self.arena@[self.order@[i as int]].next_node == Some(
                            self.order@[i + 1],
                        ));
                    }
                    let current = self.arena.get(node);
                    values.push(&current.value);
                    node = current.next_node.unwrap();
                    i += 1;
                }
                proof {
                    assert(self.order@.contains(self.order@[length - 1]));
                }
                values.push(&self.arena.get(node).value);
            },
        }
        values
    }

    /// The listing of the list: the type's name and, in square brackets,
    /// how each value reads, from left to right.
    pub fn fmt(&self) -> (text: String) where T: core::fmt::Debug
        requires
            self.wf(),
        ensures
            exists|texts: Seq<Seq<char>>|
                texts.len() == self@.len() && text@ == #[trigger] listing(texts),
            self@.len() == 0 ==> text@ == "DoublyLinkedList []"@,
    {
        let values = self.values();
        let mut texts: Vec<String> = Vec::new();
        for i in 0..values.len()
            invariant
                texts@.len() == i,
        {
            texts.push(debug_text(values[i]));
        }
        let text = listing_of(&texts);
        proof {
            assert(texts.deep_view().len() == self@.len());
            if self@.len() == 0 {
                assert(texts.deep_view() =~= Seq::<Seq<char>>::empty());
                lemma_listing_of_nothing();
            }
        }
        text
    }
}

} // verus!
