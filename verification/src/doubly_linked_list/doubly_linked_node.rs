//! Nodes, the arena that stores them, and the primitives that rewire the
//! links at a boundary.

use vstd::prelude::*;

verus! {

/// A node: a value and the slots of its two neighbours.
pub struct DoublyLinkedNode<T> {
    /// Slot of the left neighbour; `None` at the left boundary.
    pub prev_node: Option<usize>,
    /// Slot of the right neighbour; `None` at the right boundary.
    pub next_node: Option<usize>,
    /// The payload.
    pub value: T,
}

impl<T> DoublyLinkedNode<T> {
    /// The same node with its left link replaced.
    pub open spec fn with_prev(self, link: Option<usize>) -> Self {
        DoublyLinkedNode { prev_node: link, next_node: self.next_node, value: self.value }
    }

    /// The same node with its right link replaced.
    pub open spec fn with_next(self, link: Option<usize>) -> Self {
        DoublyLinkedNode { prev_node: self.prev_node, next_node: link, value: self.value }
    }
}

/// No node of `nodes` links to `slot`: whoever holds `slot` is its only owner.
pub open spec fn sole_owner<T>(nodes: Map<usize, DoublyLinkedNode<T>>, slot: usize) -> bool {
    forall|j: usize| #[trigger]
        nodes.contains_key(j) ==> nodes[j].prev_node != Some(slot) && nodes[j].next_node != Some(
            slot,
        )
}

/// Storage for nodes. A slot is either occupied by a node or vacant; vacant
/// slots are remembered and reused before the arena grows.
pub struct NodeArena<T> {
    slots: Vec<Option<DoublyLinkedNode<T>>>,
    free: Vec<usize>,
}

impl<T> NodeArena<T> {
    /// The occupied slots and the node in each.
    pub closed spec fn view(&self) -> Map<usize, DoublyLinkedNode<T>> {
        Map::new(
            |i: usize| i < self.slots@.len() && self.slots@[i as int] is Some,
            |i: usize| self.slots@[i as int].unwrap(),
        )
    }

    /// The number of slots, occupied or vacant.
    pub closed spec fn capacity(&self) -> nat {
        self.slots@.len()
    }

    /// The free list names exactly the vacant slots, each once.
    pub closed spec fn wf(&self) -> bool {
        &&& self.free@.no_duplicates()
        &&& forall|k: int|
            0 <= k < self.free@.len() ==> (#[trigger] self.free@[k]) < self.slots@.len()
                && self.slots@[self.free@[k] as int] is None
        &&& forall|i: usize|
            i < self.slots@.len() && (#[trigger] self.slots@[i as int]) is None
                ==> self.free@.contains(i)
    }

    /// Every occupied slot lies below the capacity, which fits a `usize`.
    pub proof fn lemma_keys_below_capacity(&self)
        ensures
            self.capacity() <= usize::MAX,
            forall|i: usize| #[trigger] self@.contains_key(i) ==> i < self.capacity(),
    {
        assert(self.slots@.len() == self.slots.len());
    }

    /// An arena without slots.
    pub fn new() -> (arena: Self)
        ensures
            arena.wf(),
            arena@ == Map::<usize, DoublyLinkedNode<T>>::empty(),
    {
        let arena = NodeArena { slots: Vec::new(), free: Vec::new() };
        assert(arena@ =~= Map::<usize, DoublyLinkedNode<T>>::empty());
        arena
    }

    /// Stores `node` in a slot that was vacant and returns that slot.
    pub fn insert(&mut self, node: DoublyLinkedNode<T>) -> (slot: usize)
        requires
            old(self).wf(),
        ensures
            final(self).wf(),
            !old(self)@.contains_key(slot),
            final(self)@ == old(self)@.insert(slot, node),
    {
        match self.free.pop() {
            Some(slot) => {
                proof {
                    let k = old(self).free@.len() - 1;
                    assert(old(self).free@[k] == slot);
                }
                self.slots[slot] = Some(node);
                proof {
                    assert(self@ =~= old(self)@.insert(slot, node));
                    assert forall|i: usize|
                        i < self.slots@.len() && (#[trigger] self.slots@[i as int]) is None
                        implies self.free@.contains(i) by {
                        assert(old(self).slots@[i as int] is None);
                        assert(old(self).free@.contains(i));
                        let k = choose|k: int|
                            0 <= k < old(self).free@.len() && old(self).free@[k] == i;
                        assert(self.free@[k] == i);
                    }
                }
                slot
            },
            None => {
                self.slots.push(Some(node));
                let slot = self.slots.len() - 1;
                proof {
                    assert(self@ =~= old(self)@.insert(slot, node));
                    assert forall|i: usize|
                        i < self.slots@.len() && (#[trigger] self.slots@[i as int]) is None
                        implies self.free@.contains(i) by {
                        assert(old(self).slots@[i as int] is None);
                    }
                }
                slot
            },
        }
    }

    /// Vacates `slot` and hands its node out. The caller states that no node
    /// still links to the slot.
    pub fn reclaim(&mut self, slot: usize) -> (node: DoublyLinkedNode<T>)
        requires
            old(self).wf(),
            old(self)@.contains_key(slot),
            sole_owner(old(self)@, slot),
        ensures
            final(self).wf(),
            node == old(self)@[slot],
            final(self)@ == old(self)@.remove(slot),
    {
        let mut taken: Option<DoublyLinkedNode<T>> = None;
        std::mem::swap(&mut self.slots[slot], &mut taken);
        self.free.push(slot);
        proof {
            assert(self@ =~= old(self)@.remove(slot));
            assert forall|i: usize|
                i < self.slots@.len() && (#[trigger] self.slots@[i as int]) is None
                implies self.free@.contains(i) by {
                if i == slot {
                    assert(self.free@[old(self).free@.len() as int] == slot);
                } else {
                    assert(old(self).slots@[i as int] is None);
                    assert(old(self).free@.contains(i));
                    let k = choose|k: int|
                        0 <= k < old(self).free@.len() && old(self).free@[k] == i;
                    assert(self.free@[k] == i);
                }
            }
        }
        taken.unwrap()
    }

    /// The node in an occupied slot.
    pub fn get(&self, slot: usize) -> (node: &DoublyLinkedNode<T>)
        requires
            self@.contains_key(slot),
        ensures
            *node == self@[slot],
    {
        self.slots[slot].as_ref().unwrap()
    }

    /// Replaces the left link of the node in `slot` and returns the link it had.
    pub fn swap_prev(&mut self, slot: usize, link: Option<usize>) -> (previous: Option<usize>)
        requires
            old(self).wf(),
            old(self)@.contains_key(slot),
        ensures
            final(self).wf(),
            previous == old(self)@[slot].prev_node,
            final(self)@ == old(self)@.insert(slot, old(self)@[slot].with_prev(link)),
    {
        let mut previous = link;
        match &mut self.slots[slot] {
            Some(node) => {
                std::mem::swap(&mut node.prev_node, &mut previous);
            },
            None => {},
        }
        proof {
            assert(self@ =~= old(self)@.insert(slot, old(self)@[slot].with_prev(link)));
        }
        previous
    }

    /// Replaces the right link of the node in `slot` and returns the link it had.
    pub fn swap_next(&mut self, slot: usize, link: Option<usize>) -> (previous: Option<usize>)
        requires
            old(self).wf(),
            old(self)@.contains_key(slot),
        ensures
            final(self).wf(),
            previous == old(self)@[slot].next_node,
            final(self)@ == old(self)@.insert(slot, old(self)@[slot].with_next(link)),
    {
        let mut previous = link;
        match &mut self.slots[slot] {
            Some(node) => {
                std::mem::swap(&mut node.next_node, &mut previous);
            },
            None => {},
        }
        proof {
            assert(self@ =~= old(self)@.insert(slot, old(self)@[slot].with_next(link)));
        }
        previous
    }
}

/// Links a new node holding `value` to the left of `node` and returns its slot.
///
/// Whatever `node` had as its left link (nothing, at a boundary) becomes the
/// new node's left link; the new node's right link is `node`, and `node`'s
/// left link is the new node.
pub fn push_left<T>(arena: &mut NodeArena<T>, node: usize, value: T) -> (new_node: usize)
    requires
        old(arena).wf(),
        old(arena)@.contains_key(node),
    ensures
        final(arena).wf(),
        !old(arena)@.contains_key(new_node),
        final(arena)@ == old(arena)@.insert(
            node,
            old(arena)@[node].with_prev(Some(new_node)),
        ).insert(
            new_node,
            (DoublyLinkedNode {
                prev_node: old(arena)@[node].prev_node,
                next_node: Some(node),
                value,
            }),
        ),
{
    let prev_node = arena.swap_prev(node, None);
    let new_node = arena.insert(DoublyLinkedNode { prev_node, next_node: Some(node), value });
    let _ = arena.swap_prev(node, Some(new_node));
    proof {
        assert(arena@ =~= old(arena)@.insert(
            node,
            old(arena)@[node].with_prev(Some(new_node)),
        ).insert(
            new_node,
            (DoublyLinkedNode {
                prev_node: old(arena)@[node].prev_node,
                next_node: Some(node),
                value,
            }),
        ));
    }
    new_node
}

/// Links a new node holding `value` to the right of `node` and returns its slot.
///
/// Whatever `node` had as its right link (nothing, at a boundary) becomes the
/// new node's right link; the new node's left link is `node`, and `node`'s
/// right link is the new node.
pub fn push_right<T>(arena: &mut NodeArena<T>, node: usize, value: T) -> (new_node: usize)
    requires
        old(arena).wf(),
        old(arena)@.contains_key(node),
    ensures
        final(arena).wf(),
        !old(arena)@.contains_key(new_node),
        final(arena)@ == old(arena)@.insert(
            node,
            old(arena)@[node].with_next(Some(new_node)),
        ).insert(
            new_node,
            (DoublyLinkedNode {
                prev_node: Some(node),
                next_node: old(arena)@[node].next_node,
                value,
            }),
        ),
{
    let next_node = arena.swap_next(node, None);
    let new_node = arena.insert(DoublyLinkedNode { prev_node: Some(node), next_node, value });
    let _ = arena.swap_next(node, Some(new_node));
    proof {
        assert(arena@ =~= old(arena)@.insert(
            node,
            old(arena)@[node].with_next(Some(new_node)),
        ).insert(
            new_node,
            (DoublyLinkedNode {
                prev_node: Some(node),
                next_node: old(arena)@[node].next_node,
                value,
            }),
        ));
    }
    new_node
}

/// The arena after `node` has let go of its left neighbour and that
/// neighbour, if there was one, of its right neighbour.
pub open spec fn left_disconnected<T>(
    nodes: Map<usize, DoublyLinkedNode<T>>,
    node: usize,
) -> Map<usize, DoublyLinkedNode<T>> {
    let cleared = nodes.insert(node, nodes[node].with_prev(None));
    match nodes[node].prev_node {
        Some(left) => cleared.insert(left, cleared[left].with_next(None)),
        None => cleared,
    }
}

/// The arena after `node` has let go of its right neighbour and that
/// neighbour, if there was one, of its left neighbour.
pub open spec fn right_disconnected<T>(
    nodes: Map<usize, DoublyLinkedNode<T>>,
    node: usize,
) -> Map<usize, DoublyLinkedNode<T>> {
    let cleared = nodes.insert(node, nodes[node].with_next(None));
    match nodes[node].next_node {
        Some(right) => cleared.insert(right, cleared[right].with_prev(None)),
        None => cleared,
    }
}

/// Cuts the link between `node` and its left neighbour, on both sides, and
/// returns the neighbour's slot; `None` if `node` had no left neighbour.
pub fn disconnect_left<T>(arena: &mut NodeArena<T>, node: usize) -> (left: Option<usize>)
    requires
        old(arena).wf(),
        old(arena)@.contains_key(node),
        old(arena)@[node].prev_node matches Some(l) ==> old(arena)@.contains_key(l),
    ensures
        final(arena).wf(),
        left == old(arena)@[node].prev_node,
        final(arena)@ == left_disconnected(old(arena)@, node),
{
    let old_node = arena.swap_prev(node, None);
    match old_node {
        Some(old_node) => {
            let _ = arena.swap_next(old_node, None);
            Some(old_node)
        },
        None => None,
    }
}

/// Cuts the link between `node` and its right neighbour, on both sides, and
/// returns the neighbour's slot; `None` if `node` had no right neighbour.
pub fn disconnect_right<T>(arena: &mut NodeArena<T>, node: usize) -> (right: Option<usize>)
    requires
        old(arena).wf(),
        old(arena)@.contains_key(node),
        old(arena)@[node].next_node matches Some(r) ==> old(arena)@.contains_key(r),
    ensures
        final(arena).wf(),
        right == old(arena)@[node].next_node,
        final(arena)@ == right_disconnected(old(arena)@, node),
{
    let old_node = arena.swap_next(node, None);
    match old_node {
        Some(old_node) => {
            let _ = arena.swap_prev(old_node, None);
            Some(old_node)
        },
        None => None,
    }
}

} // verus!
