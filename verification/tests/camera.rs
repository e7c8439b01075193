use solar_system_sim::bodies::{BodyColor, UserBodies};
use solar_system_sim::camera::{
    camera_plan, clamp_distance, clamp_elevation, clamp_fraction, projection_change, Anchor,
    CameraAim, CameraEndpoint, CameraOrigin, CameraPlan, CameraUp, ProjectionChange,
    ProjectionKind,
};
use solar_system_sim::epoch::default_epoch;
use solar_system_sim::lagrange::LagrangeId;
use solar_system_sim::scalar::Scalar;

fn s(x: f64) -> Scalar {
    Scalar { bits: x.to_bits() }
}

fn bodies(names: &[&str]) -> UserBodies<(), ()> {
    let mut b = UserBodies::new();
    for n in names {
        let color = b.next_color();
        b.add(n.to_string(), None, color, default_epoch(), None, s(0.0));
    }
    b
}

#[test]
fn endpoints_have_names() {
    let b = bodies(&["LEO"]);
    let name = |e: CameraEndpoint| e.display_name(&b.bodies);
    assert_eq!(name(CameraEndpoint::Free), "Free");
    assert_eq!(name(CameraEndpoint::MoonEML1), "Moon-EML1");
    assert_eq!(name(CameraEndpoint::EML5), "EML5");
    assert_eq!(name(CameraEndpoint::Satellite(0)), "LEO");
    assert_eq!(name(CameraEndpoint::Satellite(12)), "Sat 12");
}

#[test]
fn targets_are_cycled() {
    let on = |e| CameraEndpoint::cycle(e, 2, true);
    let back = |e| CameraEndpoint::cycle(e, 2, false);
    assert_eq!(on(CameraEndpoint::Earth), CameraEndpoint::Moon);
    assert_eq!(on(CameraEndpoint::Moon), CameraEndpoint::MoonEML1);
    assert_eq!(on(CameraEndpoint::EML5), CameraEndpoint::Satellite(0));
    assert_eq!(on(CameraEndpoint::Satellite(1)), CameraEndpoint::Earth);
    assert_eq!(back(CameraEndpoint::Earth), CameraEndpoint::Satellite(1));
    assert_eq!(on(CameraEndpoint::Free), CameraEndpoint::Moon);
    assert_eq!(on(CameraEndpoint::Satellite(9)), CameraEndpoint::Moon);
    assert_eq!(CameraEndpoint::cycle(CameraEndpoint::EML5, 0, true), CameraEndpoint::Earth);
}

#[test]
fn a_cycle_is_undone_and_goes_round() {
    let all = CameraEndpoint::choices(3);
    assert_eq!(all.len(), 12);
    assert_eq!(all[0], CameraEndpoint::Free);
    let mut e = CameraEndpoint::EML3;
    for _ in 0..11 {
        let next = CameraEndpoint::cycle(e, 3, true);
        assert_eq!(CameraEndpoint::cycle(next, 3, false), e);
        assert!(all[1..].contains(&next));
        e = next;
    }
    assert_eq!(e, CameraEndpoint::EML3);
}

#[test]
fn positions_come_from_anchors() {
    assert_eq!(CameraEndpoint::Free.anchor(1), Anchor::Nowhere);
    assert_eq!(CameraEndpoint::Earth.anchor(1), Anchor::Origin);
    assert_eq!(CameraEndpoint::MoonEML1.anchor(1), Anchor::MidwayToL1);
    assert_eq!(CameraEndpoint::EML4.anchor(1), Anchor::Point(LagrangeId::L4));
    assert_eq!(CameraEndpoint::Satellite(0).anchor(1), Anchor::Body(0));
    assert_eq!(CameraEndpoint::Satellite(1).anchor(1), Anchor::Nowhere);
}

#[test]
fn never_are_both_ends_free() {
    let aim = CameraAim { from: CameraEndpoint::Free, to: CameraEndpoint::EML1 };
    assert_eq!(aim.orbit_center(), CameraEndpoint::EML1);
    assert!(aim.is_orbit());
    assert_eq!(aim.mode_hint(), "Orbit (drag + scroll)");
    let swapped = aim.look_at(CameraEndpoint::Free);
    assert_eq!(swapped, CameraAim { from: CameraEndpoint::Earth, to: CameraEndpoint::Free });
    assert_eq!(swapped.orbit_center(), CameraEndpoint::Earth);
    let back = swapped.stand_on(CameraEndpoint::Free);
    assert_eq!(back, CameraAim { from: CameraEndpoint::Free, to: CameraEndpoint::Earth });
    let fixed = back.stand_on(CameraEndpoint::Moon);
    assert!(!fixed.is_orbit());
    assert_eq!(fixed.orbit_center(), CameraEndpoint::Earth);
    assert_eq!(fixed.mode_hint(), "Fixed");
}

#[test]
fn choices_have_labels() {
    let labels: Vec<&str> = CameraUp::all().iter().map(|u| u.label()).collect();
    assert_eq!(labels, vec!["Free", "Earth North", "Moon Orbit", "Ecliptic North"]);
    assert_eq!(CameraOrigin::Fraction.label(), "Fraction");
    assert_eq!(CameraOrigin::DistToTo.label(), "km to To");
    assert_eq!(CameraOrigin::DistFromFrom.label(), "km from From");
}

#[test]
fn the_camera_is_placed_by_what_has_a_position() {
    let near = s(0.001f32 as f64);
    assert_eq!(camera_plan(true, true, s(1.0)), CameraPlan::Along);
    assert_eq!(camera_plan(true, true, near), CameraPlan::RoundFrom);
    assert_eq!(camera_plan(true, false, s(1.0)), CameraPlan::RoundFrom);
    assert_eq!(camera_plan(false, true, s(1.0)), CameraPlan::RoundTo);
    assert_eq!(camera_plan(false, false, s(1.0)), CameraPlan::RoundEarth);
}

#[test]
fn the_camera_stays_within_its_limits() {
    for x in [-2.0, -1.5, 0.3, 1.5, 9.0, f64::INFINITY] {
        assert_eq!(f64::from_bits(clamp_elevation(s(x)).bits), x.clamp(-1.5, 1.5));
    }
    for x in [-1.0, 4.9, 5.0, 500.0, 3000.0, 3000.5] {
        assert_eq!(f64::from_bits(clamp_distance(s(x)).bits), x.clamp(5.0, 3000.0));
    }
    for x in [-0.1, 0.0, 0.25, 1.0, 1.1] {
        assert_eq!(f64::from_bits(clamp_fraction(s(x)).bits), x.clamp(0.0, 1.0));
    }
    assert!(f64::from_bits(clamp_distance(s(f64::NAN)).bits).is_nan());
}

#[test]
fn the_projection_follows_the_choice() {
    let p = |perspective, kind| projection_change(perspective, kind);
    assert_eq!(p(true, ProjectionKind::Perspective), ProjectionChange::Keep);
    assert_eq!(p(true, ProjectionKind::Orthographic), ProjectionChange::MakePerspective);
    assert_eq!(p(false, ProjectionKind::Orthographic), ProjectionChange::Rescale);
    assert_eq!(p(false, ProjectionKind::Other), ProjectionChange::MakeOrthographic);
}

#[test]
fn bodies_get_the_colors_in_turn() {
    let b = bodies(&["a", "b", "c", "d", "e", "f", "g"]);
    assert_eq!(b.bodies[0].color, BodyColor::Palette(0));
    assert_eq!(b.bodies[5].color, BodyColor::Palette(5));
    assert_eq!(b.bodies[6].color, BodyColor::Palette(0));
}
