use solar_system_sim::ranking::{is_better, sort_by_cost, Nearest, Scored};
use solar_system_sim::scalar::Scalar;

fn s(x: f64) -> Scalar {
    Scalar { bits: x.to_bits() }
}

fn sorted(costs: &[f64]) -> Vec<usize> {
    let items = costs.iter().enumerate().map(|(i, &c)| Scored { cost: s(c), item: i }).collect();
    sort_by_cost(items).into_iter().map(|x| x.item).collect()
}

#[test]
fn costs_are_sorted_from_the_best() {
    assert_eq!(sorted(&[3.0, 1.0, 2.0]), vec![1, 2, 0]);
    assert_eq!(sorted(&[]), Vec::<usize>::new());
    assert_eq!(sorted(&[f64::INFINITY, -1.0]), vec![1, 0]);
}

#[test]
fn equal_costs_keep_their_order() {
    assert_eq!(sorted(&[2.0, 1.0, 2.0, 1.0, 2.0]), vec![1, 3, 0, 2, 4]);
    assert_eq!(sorted(&[0.0, -0.0, 0.0]), vec![0, 1, 2]);
}

#[test]
fn what_is_no_number_comes_last() {
    assert_eq!(sorted(&[f64::NAN, 1.0, f64::NAN, f64::INFINITY]), vec![1, 3, 0, 2]);
    assert!(is_better(&s(f64::INFINITY), &s(f64::NAN)));
    assert!(!is_better(&s(f64::NAN), &s(f64::NAN)));
}

#[test]
fn sorting_agrees_with_a_stable_sort() {
    let costs: Vec<f64> = (0..200).map(|i| ((i * 37) % 23) as f64).collect();
    let mut expected: Vec<usize> = (0..200).collect();
    expected.sort_by(|&a, &b| costs[a].partial_cmp(&costs[b]).unwrap());
    assert_eq!(sorted(&costs), expected);
}

#[test]
fn the_first_of_the_nearest_is_found() {
    let mut n = Nearest::new();
    assert!(n.result().is_none());
    assert!(n.offer(0, Some(s(5.0))));
    assert!(!n.offer(1, None));
    assert!(n.offer(2, Some(s(3.0))));
    assert!(!n.offer(3, Some(s(3.0))));
    assert!(!n.offer(4, Some(s(f64::NAN))));
    let (place, distance) = n.result().unwrap();
    assert_eq!((place, distance), (2, s(3.0)));
    assert_eq!(n.distance(), s(3.0));
}

#[test]
fn nothing_near_is_no_result() {
    let mut n = Nearest::new();
    assert!(!n.offer(0, Some(s(f64::INFINITY))));
    assert!(!n.offer(1, Some(s(f64::MAX))));
    assert!(!n.offer(2, None));
    assert!(n.result().is_none());
    assert_eq!(n.distance(), s(f64::MAX));
}
