use incubator::solver::{Solver, Trinity};

fn trinity(a: i32, b: i32, c: i32) -> Trinity<i32> {
    Trinity { a, b, c }
}

#[test]
fn rotate_moves_each_value_one_place_on() {
    let mut t = Trinity { a: 'a', b: 'b', c: 'c' };
    t.rotate();
    assert_eq!(t, Trinity { a: 'b', b: 'c', c: 'a' });
    t.rotate();
    assert_eq!(t, Trinity { a: 'c', b: 'a', c: 'b' });
    t.rotate();
    assert_eq!(t, Trinity { a: 'a', b: 'b', c: 'c' });
}

#[test]
fn resolve_drops_the_rotations_of_the_expected_triple() {
    let mut s = Solver {
        expected: trinity(1, 2, 3),
        unsolved: vec![trinity(1, 2, 3), trinity(2, 1, 3), trinity(2, 3, 1), trinity(3, 1, 2)],
    };
    s.resolve();
    assert_eq!(s.unsolved, vec![trinity(2, 1, 3)]);
    assert_eq!(s.expected, trinity(1, 2, 3));
    s.resolve();
    assert_eq!(s.unsolved, vec![trinity(2, 1, 3)]);
}

#[test]
fn resolve_keeps_the_others_in_their_order() {
    let mut s = Solver {
        expected: trinity(7, 7, 8),
        unsolved: vec![
            trinity(8, 7, 7),
            trinity(7, 8, 8),
            trinity(7, 8, 7),
            trinity(1, 2, 3),
            trinity(7, 7, 8),
            trinity(8, 8, 7),
            trinity(1, 2, 3),
        ],
    };
    s.resolve();
    assert_eq!(
        s.unsolved,
        vec![trinity(7, 8, 8), trinity(1, 2, 3), trinity(8, 8, 7), trinity(1, 2, 3)]
    );
    let mut none: Solver<i32> = Solver { expected: trinity(0, 0, 0), unsolved: vec![] };
    none.resolve();
    assert!(none.unsolved.is_empty());
}

#[test]
fn same_compares_place_by_place() {
    assert!(trinity(1, 2, 3).is_same(&trinity(1, 2, 3)));
    assert!(!trinity(1, 2, 3).is_same(&trinity(1, 2, 4)));
    assert!(!trinity(1, 2, 3).is_same(&trinity(1, 0, 3)));
    assert!(!trinity(1, 2, 3).is_same(&trinity(3, 1, 2)));
}
