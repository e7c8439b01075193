use solar_system_sim::nelder_mead::{Phase, Search, Vertex, SMALL_ANGLE_BITS, SMALL_SPEED_BITS};
use solar_system_sim::scalar::Scalar;

fn s(x: f64) -> Scalar {
    Scalar { bits: x.to_bits() }
}

fn v(name: u32, cost: f64) -> Vertex<u32, u32> {
    Vertex { point: name, cost: s(cost), result: Some(name) }
}

fn points(t: &Search<u32, u32>) -> (u32, u32, u32) {
    (t.best.point, t.middle.point, t.worst.point)
}

fn small() -> (Scalar, Scalar) {
    (Scalar { bits: SMALL_ANGLE_BITS }, Scalar { bits: SMALL_SPEED_BITS })
}

fn begun() -> Search<u32, u32> {
    Search::new(v(1, 3.0), v(2, 1.0), v(3, 2.0), 10).begun(false)
}

#[test]
fn bounds_of_a_small_triangle() {
    assert_eq!(small(), (s(0.1), s(0.001)));
}

#[test]
fn a_round_starts_with_the_vertices_in_order() {
    let t = begun();
    assert_eq!(points(&t), (2, 3, 1));
    assert!(matches!(t.phase, Phase::Reflect));
}

#[test]
fn equal_vertices_keep_their_order() {
    let t = Search::new(v(1, 2.0), v(2, 2.0), v(3, 1.0), 10).begun(false);
    assert_eq!(points(&t), (3, 1, 2));
}

#[test]
fn a_cancelled_search_ends_with_the_best() {
    let t = Search::new(v(1, 3.0), v(2, 1.0), v(3, 2.0), 10).begun(true);
    assert!(matches!(t.phase, Phase::Done));
    assert_eq!(t.finish().result, Some(2));
}

#[test]
fn a_search_without_rounds_ends_at_once() {
    let t = Search::new(v(1, 3.0), v(2, 1.0), v(3, 2.0), 0).begun(false);
    assert_eq!(t.finish().point, 2);
}

#[test]
fn a_reflection_that_is_best_is_expanded() {
    let t = begun().reflected(v(4, 0.5));
    assert!(matches!(t.phase, Phase::Expand(_)));
    let t = t.expanded(v(5, 0.25));
    assert_eq!(points(&t), (2, 3, 5));
    let t = begun().reflected(v(4, 0.5)).expanded(v(5, 0.5));
    assert_eq!(points(&t), (2, 3, 4));
}

#[test]
fn a_fair_reflection_is_taken() {
    let t = begun().reflected(v(4, 1.5));
    assert_eq!(points(&t), (2, 3, 4));
    assert!(matches!(t.phase, Phase::Measure));
}

#[test]
fn a_poor_reflection_is_contracted() {
    let t = begun().reflected(v(4, 2.0));
    assert!(matches!(t.phase, Phase::Contract));
    let t = t.contracted(v(5, 2.5));
    assert_eq!(points(&t), (2, 3, 5));
}

#[test]
fn a_poor_contraction_shrinks_the_triangle() {
    let t = begun().reflected(v(4, f64::INFINITY)).contracted(v(5, 3.0));
    assert!(matches!(t.phase, Phase::Shrink));
    let t = t.shrunk(v(6, 9.0), v(7, 8.0));
    assert_eq!(points(&t), (2, 6, 7));
}

#[test]
fn a_small_triangle_ends_the_search() {
    let (a, b) = small();
    let t = begun().reflected(v(4, 1.5)).measured(s(0.09), s(0.0009), a, b);
    assert!(matches!(t.phase, Phase::Done));
    assert_eq!(points(&t), (2, 4, 3));
    let t = begun().reflected(v(4, 1.5)).measured(s(0.1), s(0.0009), a, b);
    assert!(matches!(t.phase, Phase::Begin));
    assert_eq!(t.iteration, 1);
}

#[test]
fn a_whole_search_ends_and_loses_no_ground() {
    let f = |x: f64, y: f64| (x - 1.0) * (x - 1.0) + (y + 2.0) * (y + 2.0);
    let mk = |p: (f64, f64)| Vertex { point: p, cost: s(f(p.0, p.1)), result: None::<()> };
    let start = [(5.0, 5.0), (6.0, 5.0), (5.0, 6.0)];
    let mut t = Search::new(mk(start[0]), mk(start[1]), mk(start[2]), 200);
    let (a, b) = small();
    let mut events = 0;
    loop {
        events += 1;
        assert!(events <= 6 * 200 + 5 + 1);
        let (p, q, w) = (t.best.point, t.middle.point, t.worst.point);
        let c = ((p.0 + q.0) / 2.0, (p.1 + q.1) / 2.0);
        let along = |k: f64| (c.0 + k * (c.0 - w.0), c.1 + k * (c.1 - w.1));
        let half = |z: (f64, f64)| (p.0 + 0.5 * (z.0 - p.0), p.1 + 0.5 * (z.1 - p.1));
        t = match t.phase {
            Phase::Begin => t.begun(false),
            Phase::Reflect => t.reflected(mk(along(1.0))),
            Phase::Expand(_) => t.expanded(mk(along(2.0))),
            Phase::Contract => t.contracted(mk(along(-0.5))),
            Phase::Shrink => t.shrunk(mk(half(q)), mk(half(w))),
            Phase::Measure => {
                let (dx, dy) = ((p.0 - w.0).abs(), (p.1 - w.1).abs());
                t.measured(s(dx), s(dy), a, b)
            }
            Phase::Done => break,
        };
    }
    let best = t.finish();
    for p in start {
        assert!(f64::from_bits(best.cost.bits) <= f(p.0, p.1));
    }
    assert!((best.point.0 - 1.0).abs() < 0.2 && (best.point.1 + 2.0).abs() < 0.2);
}
