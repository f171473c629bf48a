use incubator::doubly_linked_list::sequence::Operation;
use incubator::DoublyLinkedList;

#[test]
fn format() {
    let d: DoublyLinkedList<u8> = DoublyLinkedList::new();
    assert_eq!("DoublyLinkedList []", d.fmt());
    d.push_right(0);
    assert_eq!("DoublyLinkedList [0]", d.fmt());
    d.push_right(1);
    assert_eq!("DoublyLinkedList [0, 1]", d.fmt());
}

#[test]
fn iters() {
    let d = DoublyLinkedList::<u8>::from_iter(vec![1, 2, 3, 4]);
    assert_eq!(vec![1, 2, 3, 4], d.drain());
}

#[test]
fn pushes_and_pops_at_both_ends() {
    let d: DoublyLinkedList<i64> = DoublyLinkedList::new();
    for v in 1..5 {
        d.push_right(v);
    }
    d.push_left(0);
    assert_eq!(d.fmt(), "DoublyLinkedList [0, 1, 2, 3, 4]");
    assert_eq!(d.pop_left(), Some(0));
    assert_eq!(d.pop_right(), Some(4));
    assert_eq!(d.fmt(), "DoublyLinkedList [1, 2, 3]");
}

#[test]
fn empty_list_renders_as_name_and_brackets() {
    let d: DoublyLinkedList<String> = DoublyLinkedList::default();
    assert_eq!(d.fmt(), "DoublyLinkedList []");
}

#[test]
fn pop_on_empty_list_is_none_every_time() {
    let d: DoublyLinkedList<u32> = DoublyLinkedList::new();
    for _ in 0..5 {
        assert_eq!(d.pop_left(), None);
        assert_eq!(d.pop_right(), None);
    }
    assert_eq!(d.len(), 0);
    d.push_left(7);
    assert_eq!(d.pop_right(), Some(7));
    for _ in 0..3 {
        assert_eq!(d.pop_right(), None);
        assert_eq!(d.pop_left(), None);
    }
}

#[test]
fn left_pushes_drain_in_reverse() {
    let d: DoublyLinkedList<u16> = DoublyLinkedList::new();
    for v in [10, 20, 30, 40, 50] {
        d.push_left(v);
    }
    assert_eq!(d.drain(), vec![50, 40, 30, 20, 10]);
    assert_eq!(d.len(), 0);
}

#[test]
fn right_pushes_drain_in_order() {
    let d: DoublyLinkedList<u16> = DoublyLinkedList::new();
    for v in [10, 20, 30, 40, 50] {
        d.push_right(v);
    }
    assert_eq!(d.drain(), vec![10, 20, 30, 40, 50]);
}

#[test]
fn clones_share_one_list() {
    let a: DoublyLinkedList<&str> = DoublyLinkedList::new();
    let b = a.clone();
    a.push_right("x");
    b.push_right("y");
    assert_eq!(a.len(), 2);
    assert_eq!(b.fmt(), "DoublyLinkedList [\"x\", \"y\"]");
    assert_eq!(b.pop_left(), Some("x"));
    assert_eq!(a.pop_left(), Some("y"));
    assert_eq!(b.pop_left(), None);
}

#[test]
fn next_takes_from_the_left() {
    let mut d = DoublyLinkedList::from_iter(vec!['a', 'b', 'c']);
    assert_eq!(d.next(), Some('a'));
    assert_eq!(d.next(), Some('b'));
    assert_eq!(d.next(), Some('c'));
    assert_eq!(d.next(), None);
    assert_eq!(d.next(), None);
}

#[test]
fn count_is_pushes_minus_successful_pops() {
    let d: DoublyLinkedList<u8> = DoublyLinkedList::new();
    let mut pushes = 0usize;
    let mut pops = 0usize;
    let operations = vec![
        Operation::PopLeft,
        Operation::PushLeft(1),
        Operation::PushRight(2),
        Operation::PopRight,
        Operation::PopRight,
        Operation::PopRight,
        Operation::PushLeft(3),
        Operation::PushLeft(4),
        Operation::PopLeft,
        Operation::PushRight(5),
    ];
    for operation in operations {
        let is_push = matches!(operation, Operation::PushLeft(_) | Operation::PushRight(_));
        let value = d.apply(operation);
        if is_push {
            pushes += 1;
            assert_eq!(value, None);
        } else if value.is_some() {
            pops += 1;
        }
        assert_eq!(d.len(), pushes - pops);
    }
    assert_eq!(pushes, 5);
    assert_eq!(pops, 3);
    assert_eq!(d.fmt(), "DoublyLinkedList [3, 5]");
}

#[test]
fn slots_are_reused_through_many_rounds() {
    let d: DoublyLinkedList<usize> = DoublyLinkedList::new();
    for round in 0..50 {
        for v in 0..7 {
            if v % 2 == 0 {
                d.push_left(round * 10 + v);
            } else {
                d.push_right(round * 10 + v);
            }
        }
        assert_eq!(d.len(), 7);
        assert_eq!(d.pop_left(), Some(round * 10 + 6));
        assert_eq!(d.pop_right(), Some(round * 10 + 5));
        assert_eq!(
            d.drain(),
            vec![round * 10 + 4, round * 10 + 2, round * 10, round * 10 + 1, round * 10 + 3]
        );
    }
}

#[test]
fn two_handles_push_to_opposite_ends() {
    let dll: DoublyLinkedList<(u8, i32)> = DoublyLinkedList::new();
    let left = dll.clone();
    let right = dll.clone();
    // the two take turns in runs of uneven length
    let mut pushed_left = 0;
    let mut pushed_right = 0;
    let mut turn = 0;
    while pushed_left < 10 || pushed_right < 10 {
        for _ in 0..(turn % 3 + 1) {
            if turn % 2 == 0 && pushed_left < 10 {
                left.push_left((1, pushed_left));
                pushed_left += 1;
            } else if pushed_right < 10 {
                right.push_right((2, pushed_right));
                pushed_right += 1;
            }
        }
        turn += 1;
    }
    assert_eq!(dll.len(), 20);
    let values = dll.drain();
    let expected: Vec<(u8, i32)> = (0..10)
        .rev()
        .map(|i| (1, i))
        .chain((0..10).map(|i| (2, i)))
        .collect();
    assert_eq!(values, expected);
    assert_eq!(left.pop_left(), None);
    assert_eq!(right.pop_right(), None);
}
