use solar_system_sim::bodies::{AnalysisState, BodyColor, OrbitalDisplay, UserBodies};
use solar_system_sim::epoch::UtcInstant;
use solar_system_sim::orbit::AnalysisRef;
use solar_system_sim::scalar::Scalar;

fn at(utc_nanos: i128) -> UtcInstant {
    UtcInstant { utc_nanos }
}

fn now() -> Scalar {
    Scalar { bits: 2.5f64.to_bits() }
}

#[test]
fn bodies_are_added_behind_each_other_in_six_colors() {
    let mut bodies: UserBodies<char, u32> = UserBodies::new();
    for i in 0..8 {
        let color = bodies.next_color();
        assert_eq!(color, BodyColor::Palette(i % 6));
        assert_eq!(bodies.add(format!("b{i}"), Some('c'), color, at(7), Some(9), now()), i);
    }
    assert_eq!(bodies.bodies.len(), 8);
    assert_eq!(bodies.bodies[3].name, "b3");
    assert_eq!(bodies.bodies[3].trail.len(), 1);
    assert_eq!((bodies.bodies[3].trail[0].epoch, bodies.bodies[3].trail[0].state), (at(7), 9));
    assert_eq!(bodies.bodies[3].spawned, now());
}

#[test]
fn a_body_without_a_craft_has_no_trail() {
    let mut bodies: UserBodies<char, u32> = UserBodies::new();
    bodies.add("lost".to_string(), None, BodyColor::Pole(1), at(7), None, now());
    assert!(bodies.bodies[0].craft.is_none());
    assert!(bodies.bodies[0].trail.is_empty());
    assert_eq!(bodies.bodies[0].color, BodyColor::Pole(1));
}

#[test]
fn a_body_moves_on_and_loses_only_its_trail() {
    let mut bodies: UserBodies<char, u32> = UserBodies::new();
    bodies.add("a".to_string(), Some('x'), BodyColor::Equator(2), at(1), Some(10), now());
    bodies.bodies[0].moved('y', at(2), 20);
    let trail: Vec<(i128, u32)> =
        bodies.bodies[0].trail.iter().map(|p| (p.epoch.utc_nanos, p.state)).collect();
    assert_eq!(trail, vec![(1, 10), (2, 20)]);
    assert_eq!(bodies.bodies[0].craft, Some('y'));
    bodies.clear_trails();
    assert!(bodies.bodies[0].trail.is_empty());
    assert_eq!(bodies.bodies[0].craft, Some('y'));
    assert_eq!(bodies.bodies[0].name, "a");
}

#[test]
fn the_selection_settles_on_a_body() {
    let mut a: AnalysisState<u32> = AnalysisState::new();
    assert_eq!((a.selected_body, a.reference), (None, AnalysisRef::Earth));
    assert_eq!(a.display, OrbitalDisplay::Keplerian);
    a.settle(3);
    assert_eq!(a.selected_body, Some(0));
    a.select(2);
    a.found(Some(5));
    a.settle(3);
    assert_eq!((a.selected_body, a.closest_approach), (Some(2), Some(5)));
    a.settle(2);
    assert_eq!((a.selected_body, a.closest_approach), (Some(1), Some(5)));
}

#[test]
fn what_was_found_belongs_to_a_body_and_a_reference() {
    let mut a: AnalysisState<u32> = AnalysisState::new();
    a.select(1);
    a.found(Some(5));
    a.clicked(Some(1));
    a.clicked(None);
    a.refer_to(AnalysisRef::Earth);
    assert_eq!((a.selected_body, a.closest_approach), (Some(1), Some(5)));
    a.refer_to(AnalysisRef::Moon);
    assert_eq!((a.reference, a.closest_approach), (AnalysisRef::Moon, None));
    a.found(Some(6));
    a.clicked(Some(0));
    assert_eq!((a.selected_body, a.closest_approach), (Some(0), None));
    a.found_best(Some((4, 8)));
    assert_eq!((a.selected_body, a.closest_approach), (Some(4), Some(8)));
    a.found_best(None);
    assert_eq!((a.selected_body, a.closest_approach), (Some(4), Some(8)));
    a.forget();
    assert_eq!((a.selected_body, a.closest_approach), (None, None));
    assert_eq!(a.reference, AnalysisRef::Moon);
}
