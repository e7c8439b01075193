use solar_system_sim::epoch::UtcInstant;
use solar_system_sim::scalar::Scalar;
use solar_system_sim::trail::{
    best_body, can_hover, click_picks, click_step, clicked_body, closest_place, hits,
    hover_change, hover_step, hovers, is_click, lookup_body_trail, places_since, reference_places,
    trail_cutoff, trail_dimmed, trail_drawn, trail_transform, turn_kind, BodyTrails, TrailFrame,
    TrailPoint, TrailTransform, TurnKind, LEAST_SINE_BITS,
};

fn s(x: f64) -> Scalar {
    Scalar { bits: x.to_bits() }
}

fn at(n: i128) -> UtcInstant {
    UtcInstant { utc_nanos: n }
}

fn trail(epochs: &[i128]) -> Vec<TrailPoint<u32>> {
    epochs.iter().map(|&e| TrailPoint { epoch: at(e), state: 0 }).collect()
}

#[test]
fn a_time_is_looked_up_going_forward() {
    let t = trail(&[10, 20, 30]);
    let mut hint = 0;
    assert_eq!(lookup_body_trail(&t, at(5), &mut hint), Some(0));
    assert_eq!(lookup_body_trail(&t, at(20), &mut hint), Some(1));
    assert_eq!(lookup_body_trail(&t, at(29), &mut hint), Some(1));
    assert_eq!(lookup_body_trail(&t, at(99), &mut hint), Some(2));
    assert_eq!(hint, 2);
    assert_eq!(lookup_body_trail(&t, at(5), &mut hint), Some(2));
}

#[test]
fn nothing_is_found_in_an_empty_trail() {
    let mut hint = 7;
    assert_eq!(lookup_body_trail(&trail(&[]), at(5), &mut hint), None);
    assert_eq!(hint, 7);
}

#[test]
fn a_hint_only_saves_work() {
    let t = trail(&[10, 20, 20, 30, 40]);
    let mut hint = 0;
    for time in [0, 10, 15, 20, 25, 30, 39, 40, 41] {
        let mut fresh = 0;
        let expected = lookup_body_trail(&t, at(time), &mut fresh);
        assert_eq!(lookup_body_trail(&t, at(time), &mut hint), expected);
    }
}

#[test]
fn points_are_held_against_the_last_reference_point() {
    let r = reference_places(&trail(&[5, 15, 25, 45]), &trail(&[10, 20, 30]));
    assert_eq!(r, vec![Some(0), Some(0), Some(1), Some(2)]);
    assert_eq!(reference_places(&trail(&[5]), &trail(&[])), vec![None]);
}

#[test]
fn the_closest_approach_is_the_first_of_the_least() {
    assert_eq!(closest_place(&vec![s(3.0), s(1.0), s(1.0)]), Some((1, s(1.0))));
    assert_eq!(closest_place(&vec![]), None);
    assert_eq!(closest_place(&vec![s(f64::NAN), s(f64::INFINITY)]), Some((0, s(f64::MAX))));
}

#[test]
fn the_best_body_is_the_first_of_the_least() {
    assert_eq!(best_body(&vec![None, Some(s(2.0)), Some(s(1.0)), Some(s(1.0))]), Some(2));
    assert_eq!(best_body(&vec![None, None]), None);
    assert_eq!(best_body(&vec![Some(s(f64::MAX))]), Some(0));
}

#[test]
fn old_points_and_points_between_steps_are_passed_over() {
    let t = trail(&[10, 20, 30, 40, 50]);
    assert_eq!(places_since(&t, at(20), 1), vec![1, 2, 3, 4]);
    assert_eq!(places_since(&t, at(20), 2), vec![2, 4]);
    assert_eq!(places_since(&t, at(51), 1), Vec::<usize>::new());
}

#[test]
fn long_trails_are_looked_at_in_larger_steps() {
    assert_eq!((click_step(1000), click_step(1001)), (1, 10));
    assert_eq!((hover_step(500), hover_step(501)), (3, 20));
}

#[test]
fn a_trail_is_hit_within_thirty_pixels() {
    assert!(hits(s(29.9)));
    assert!(!hits(s(30.0)));
    assert!(!hits(s(f64::NAN)));
}

#[test]
fn a_drag_of_more_than_five_pixels_is_no_click() {
    assert!(is_click(s(0.0)));
    assert!(is_click(s(5.0)));
    assert!(!is_click(s(5.000001)));
    assert!(is_click(s(f64::NAN)));
}

#[test]
fn a_click_takes_the_nearest_body() {
    let d = vec![Some(s(20.0)), None, Some(s(10.0)), Some(s(10.0))];
    assert_eq!(clicked_body(&d, &vec![0, 0, 1, 2]), Some(1));
    assert_eq!(clicked_body(&vec![Some(s(30.0))], &vec![0]), None);
    assert_eq!(clicked_body(&vec![None], &vec![0]), None);
    assert_eq!(clicked_body(&vec![], &vec![]), None);
}

#[test]
fn points_are_transformed_by_the_frame() {
    let far = s(384_400.0);
    assert_eq!(trail_transform(TrailFrame::J2000, far, far), TrailTransform::AsIs);
    assert_eq!(trail_transform(TrailFrame::MoonCentered, s(0.0), far), TrailTransform::Shift);
    assert_eq!(trail_transform(TrailFrame::Synodic, far, far), TrailTransform::Turn);
    assert_eq!(trail_transform(TrailFrame::Pulsating, far, s(1.0)), TrailTransform::TurnAndScale);
    assert_eq!(trail_transform(TrailFrame::Pulsating, s(0.5), far), TrailTransform::AsIs);
    assert_eq!(trail_transform(TrailFrame::Synodic, far, s(0.5)), TrailTransform::AsIs);
}

#[test]
fn a_tiny_turn_has_no_axis() {
    assert_eq!(LEAST_SINE_BITS, 1e-12f64.to_bits());
    assert_eq!(turn_kind(s(1e-12), s(1.0)), TurnKind::AboutAxis);
    assert_eq!(turn_kind(s(1e-12), s(-1.0)), TurnKind::AboutAxis);
    assert_eq!(turn_kind(s(9e-13), s(1.0)), TurnKind::NoTurn);
    assert_eq!(turn_kind(s(0.0), s(-0.0)), TurnKind::NoTurn);
    assert_eq!(turn_kind(s(f64::NAN), s(-1.0)), TurnKind::AboutAxis);
}

#[test]
fn opposite_directions_are_half_a_turn_apart() {
    assert_eq!(turn_kind(s(0.0), s(-1.0)), TurnKind::HalfTurn);
    assert_eq!(turn_kind(s(9e-13), s(-1.0)), TurnKind::HalfTurn);
}

#[test]
fn with_trails_off_nothing_is_picked() {
    assert!(!click_picks(0, s(0.0)));
    assert!(click_picks(3600, s(5.0)));
    assert!(!click_picks(3600, s(5.5)));
    assert!(!can_hover(0, 3));
    assert!(!can_hover(3600, 0));
    assert!(can_hover(3600, 1));
}

#[test]
fn the_cursor_changes_only_on_the_edge() {
    assert_eq!(hover_change(false, true), Some(true));
    assert_eq!(hover_change(true, false), Some(false));
    assert_eq!(hover_change(true, true), None);
    assert_eq!(hover_change(false, false), None);
}

#[test]
fn trails_are_drawn_after_a_second() {
    assert!(trail_drawn(3600, 2, s(1.0)));
    assert!(!trail_drawn(0, 2, s(1.0)));
    assert!(!trail_drawn(3600, 1, s(1.0)));
    assert!(!trail_drawn(3600, 2, s(0.5)));
}

#[test]
fn trails_of_others_are_dimmed() {
    assert!(!trail_dimmed(None, 1));
    assert!(!trail_dimmed(Some(1), 1));
    assert!(trail_dimmed(Some(0), 1));
}

#[test]
fn trails_of_the_moon_go_forward() {
    let mut t = BodyTrails::new();
    assert!(t.wants(at(10)));
    t.record(at(10), 0, Some(1));
    assert!(!t.wants(at(10)));
    assert!(!t.rewind(at(10)));
    assert!(t.wants(at(20)));
    t.record(at(20), 0, None);
    assert_eq!((t.earth.len(), t.moon.len()), (2, 1));
    assert!(t.wants(at(20)));
    t.record(at(20), 0, Some(2));
    assert_eq!((t.earth.len(), t.moon.len()), (3, 2));
    assert!(t.rewind(at(15)));
    assert_eq!((t.earth.len(), t.moon.len()), (0, 0));
    assert!(!t.rewind(at(15)));
}

#[test]
fn trails_start_a_duration_back() {
    assert_eq!(trail_cutoff(at(5_000_000_000), 3), at(2_000_000_000));
}

#[test]
fn the_cursor_hovers_where_any_point_is_near() {
    assert!(!hovers(&vec![]));
    assert!(!hovers(&vec![None, Some(s(30.0)), Some(s(f64::NAN)), Some(s(f64::INFINITY))]));
    assert!(hovers(&vec![None, Some(s(40.0)), Some(s(29.9)), None]));
    assert!(hovers(&vec![Some(s(0.0)), Some(s(99.0))]));
}
