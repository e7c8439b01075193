use solar_system_sim::scalar::Scalar;
use solar_system_sim::search::{
    after_grid, cached_slot, final_choice, first_dips, grid, hours_to_scan, join_arms, node_at,
    phase_slot, AfterGrid, Arm, Bracket, DualResult, Node, Slot,
};

fn s(x: f64) -> Scalar {
    Scalar { bits: x.to_bits() }
}

fn scalars(x: &[f64]) -> Vec<Scalar> {
    x.iter().map(|&v| s(v)).collect()
}

#[test]
fn a_grid_goes_row_by_row() {
    let g = grid(2, 3, Node::Start);
    let row = |i| Node::Part { index: i, of: 1 };
    let column = |j| Node::Part { index: j, of: 2 };
    let expected: Vec<(Node, Node)> =
        (0..2).flat_map(|i| (0..3).map(move |j| (row(i), column(j)))).collect();
    assert_eq!(g, expected);
}

#[test]
fn a_node_alone_stands_where_told() {
    assert_eq!(grid(1, 2, Node::Middle)[1], (Node::Middle, Node::Part { index: 1, of: 1 }));
    assert_eq!(node_at(0, 1, Node::Start), Node::Start);
    assert!(grid(0, 5, Node::Start).is_empty());
    assert_eq!(grid(10, 36, Node::Start).len(), 360);
}

#[test]
fn each_pair_of_nodes_is_in_the_grid_once() {
    let g = grid(4, 5, Node::Start);
    for (i, a) in g.iter().enumerate() {
        for b in &g[i + 1..] {
            assert_ne!(a, b);
        }
    }
}

#[test]
fn what_follows_a_grid_scan() {
    assert_eq!(after_grid(true, 10), AfterGrid::Stop);
    assert_eq!(after_grid(false, 0), AfterGrid::Stop);
    assert_eq!(after_grid(false, 2), AfterGrid::Keep);
    assert_eq!(after_grid(false, 3), AfterGrid::Refine);
    assert_eq!(final_choice(Some(1), 2), 1);
    assert_eq!(final_choice(None, 2), 2);
}

#[test]
fn hours_scanned_for_perigees() {
    assert_eq!(hours_to_scan(20), 585 * 24);
    assert_eq!(hours_to_scan(0), 120);
}

#[test]
fn dips_are_less_than_both_neighbours() {
    let x = scalars(&[3.0, 1.0, 2.0, 2.0, 1.5, 1.5, 4.0, 0.0, 1.0]);
    assert_eq!(first_dips(&x, 10), vec![1, 7]);
    assert_eq!(first_dips(&x, 1), vec![1]);
    assert_eq!(first_dips(&x, 0), Vec::<usize>::new());
    assert_eq!(first_dips(&scalars(&[1.0, 2.0, 3.0]), 5), Vec::<usize>::new());
    assert_eq!(first_dips(&scalars(&[]), 5), Vec::<usize>::new());
    assert_eq!(first_dips(&scalars(&[1.0]), 5), Vec::<usize>::new());
}

#[test]
fn dips_are_never_neighbours() {
    let x: Vec<Scalar> = (0..100).map(|i| s(((i * 7919) % 31) as f64)).collect();
    let d = first_dips(&x, 100);
    assert!(!d.is_empty());
    assert!(d.windows(2).all(|w| w[0] + 2 <= w[1]));
}

#[test]
fn a_bracket_drops_its_worse_end() {
    let b = Bracket { low: 0, high: 9 }.narrowed(3, 6, s(1.0), s(2.0));
    assert_eq!((b.low, b.high), (0, 6));
    let b = Bracket { low: 0, high: 9 }.narrowed(3, 6, s(2.0), s(2.0));
    assert_eq!((b.low, b.high), (3, 9));
}

#[test]
fn samples_are_found_by_their_step() {
    assert_eq!(cached_slot(0, 0), Slot::Empty);
    assert_eq!(cached_slot(0, 1), Slot::Last(0));
    assert_eq!(cached_slot(3, 5), Slot::Between(3));
    assert_eq!(cached_slot(4, 5), Slot::Last(4));
    assert_eq!(cached_slot(usize::MAX, 5), Slot::Last(4));
}

#[test]
fn phases_lie_between_perigees() {
    assert_eq!(phase_slot(0, 2), Some(Slot::Between(0)));
    assert_eq!(phase_slot(1, 2), Some(Slot::Last(1)));
    assert_eq!(phase_slot(2, 2), None);
    assert_eq!(phase_slot(0, 0), None);
}

#[test]
fn an_arm_goes_on_from_the_last_solution() {
    let mut arm = Arm::new(Some(10));
    assert_eq!(arm.start(), Some(10));
    arm.record(None);
    assert_eq!(arm.start(), Some(10));
    arm.record(Some(11));
    assert_eq!(arm.start(), Some(11));
    arm.record(None);
    assert_eq!(arm.start(), Some(11));
    assert_eq!(arm.into_found(), vec![None, Some(11), None]);
}

#[test]
fn an_arm_without_a_seed_finds_nothing() {
    let mut arm: Arm<i32> = Arm::new(None);
    assert_eq!(arm.start(), None);
    arm.record(None);
    assert_eq!(arm.start(), None);
    assert_eq!(arm.into_found(), vec![None]);
}

#[test]
fn arms_are_joined_around_the_seed() {
    let map = join_arms(
        DualResult { east: Some(0), west: Some(100) },
        &vec![Some(1), Some(2)],
        &vec![Some(-1), None],
        &vec![Some(101), None],
        &vec![Some(99), Some(98)],
    );
    let east: Vec<Option<i32>> = map.iter().map(|r| r.east).collect();
    let west: Vec<Option<i32>> = map.iter().map(|r| r.west).collect();
    assert_eq!(east, vec![None, Some(-1), Some(0), Some(1), Some(2)]);
    assert_eq!(west, vec![Some(98), Some(99), Some(100), Some(101), None]);
}
