use solar_system_sim::camera::CameraEndpoint;
use solar_system_sim::epoch::{default_epoch, UtcInstant};
use solar_system_sim::scalar::Scalar;
use solar_system_sim::simulation::{
    format_speed, format_trail, length_unit, next_trail_length, nice_step, trail_options,
    KeyAction, LengthUnit, SimulationState, SpeedReadout,
};
use solar_system_sim::trail::TrailFrame;

fn s(x: f64) -> Scalar {
    Scalar { bits: x.to_bits() }
}

fn at(n: i128) -> UtcInstant {
    UtcInstant { utc_nanos: n }
}

fn value(x: Scalar) -> f64 {
    f64::from_bits(x.bits)
}

fn press(state: &mut SimulationState, key: &str) -> KeyAction {
    state.key_pressed(key, 0, at(42))
}

#[test]
fn the_state_at_the_start() {
    let d = SimulationState::default();
    assert_eq!(d.epoch, default_epoch());
    assert_eq!(value(d.speed), 3600.0);
    assert_eq!((value(d.camera_distance), value(d.camera_elevation)), (500.0, 1.5));
    assert_eq!((d.camera.from, d.camera.to), (CameraEndpoint::Free, CameraEndpoint::EML1));
    assert!(d.paused && d.perspective && d.show_lagrange && !d.show_stars);
    assert!(d.main_panel_open && d.opt_panel_open);
    assert_eq!((d.trail_duration, d.trail_frame), (86_400, TrailFrame::Pulsating));
    assert_eq!(d.orbit_center(), CameraEndpoint::EML1);
}

#[test]
fn time_is_sped_up_and_slowed_down() {
    let mut d = SimulationState::default();
    assert_eq!(press(&mut d, "+"), KeyAction::Nothing);
    assert_eq!(value(d.speed), 7200.0);
    press(&mut d, "=");
    assert_eq!(value(d.speed), 14_400.0);
    press(&mut d, "-");
    press(&mut d, "-");
    assert_eq!(value(d.speed), 3600.0);
    for _ in 0..20 {
        press(&mut d, "-");
    }
    assert_eq!(value(d.speed), 1.0);
    press(&mut d, "+");
    assert_eq!(value(d.speed), 2.0);
}

#[test]
fn switches_undo_themselves() {
    let start = SimulationState::default();
    for key in ["p", "l", "s", "h"] {
        let mut d = start;
        press(&mut d, key);
        assert_ne!(d, start);
        press(&mut d, key);
        assert_eq!(d, start);
    }
}

#[test]
fn keys_that_ask_for_more() {
    let mut d = SimulationState::default();
    assert_eq!(press(&mut d, "l"), KeyAction::ShowMarkers(false));
    assert_eq!(press(&mut d, "s"), KeyAction::ShowStars(true));
    d.perspective = false;
    press(&mut d, "s");
    assert_eq!(press(&mut d, "s"), KeyAction::ShowStars(false));
    assert_eq!(press(&mut d, "g"), KeyAction::ToggleRecording);
    assert_eq!(press(&mut d, "f"), KeyAction::Screenshot);
    d.main_panel_open = false;
    assert_eq!(press(&mut d, "M"), KeyAction::OpenAddBodyMenu);
    assert!(d.main_panel_open);
}

#[test]
fn other_keys_do_nothing() {
    let mut d = SimulationState::default();
    for key in ["", "x", "pp", "P", "ä", "1"] {
        assert_eq!(press(&mut d, key), KeyAction::Nothing);
        assert_eq!(d, SimulationState::default());
    }
}

#[test]
fn targets_are_cycled_by_keys() {
    let mut d = SimulationState::default();
    press(&mut d, "c");
    assert_eq!(d.camera.to, CameraEndpoint::EML2);
    press(&mut d, "v");
    press(&mut d, "v");
    assert_eq!(d.camera.to, CameraEndpoint::MoonEML1);
}

#[test]
fn reset_waits_until_the_bodies_are_gone() {
    let mut d = SimulationState::default();
    d.key_pressed("p", 1, at(42));
    let moved = d;
    d.key_pressed("r", 1, at(42));
    assert_eq!(d, moved);
    d.key_pressed("r", 0, at(42));
    assert_eq!(d, SimulationState::at_start(at(42)));
}

#[test]
fn trail_lengths_follow_one_another() {
    let lengths: Vec<u32> = trail_options().iter().map(|o| o.0).collect();
    assert_eq!(lengths, vec![0, 3600, 7200, 21_600, 86_400, 172_800, 259_200, 604_800]);
    let by_key = [0, 3600, 7200, 21_600, 86_400, 259_200, 604_800];
    for i in 0..7 {
        assert_eq!(next_trail_length(by_key[i]), by_key[(i + 1) % 7]);
        assert!(lengths.contains(&by_key[i]));
    }
    assert_eq!(next_trail_length(172_800), 259_200);
    assert_eq!(next_trail_length(3599), 7200);
    assert_eq!(next_trail_length(3598), 3600);
    assert_eq!(next_trail_length(u32::MAX), 0);
    let mut d = SimulationState::default();
    press(&mut d, "t");
    assert_eq!(d.trail_duration, 259_200);
}

#[test]
fn trail_lengths_are_named_as_they_are_shown() {
    for (seconds, label) in trail_options() {
        assert_eq!(format_trail(seconds), label);
    }
    let labels: Vec<&str> = trail_options().iter().map(|o| o.1).collect();
    assert_eq!(labels, vec!["OFF", "1h", "2h", "6h", "1d", "2d", "3d", "7d"]);
}

#[test]
fn trail_lengths_are_rounded() {
    for d in [1u32, 29, 30, 31, 90, 150, 3599] {
        assert_eq!(format_trail(d), format!("{:.0}m", d as f64 / 60.0));
    }
    for d in [3600u32, 5400, 9000, 86_399] {
        assert_eq!(format_trail(d), format!("{:.0}h", d as f64 / 3600.0));
    }
    for d in [129_600u32, 216_000, 604_800, u32::MAX] {
        assert_eq!(format_trail(d), format!("{:.0}d", d as f64 / 86_400.0));
    }
}

#[test]
fn speeds_are_shown_in_their_unit() {
    assert!(matches!(format_speed(s(1.0), true), SpeedReadout::Paused));
    assert!(matches!(format_speed(s(86_400.0), false), SpeedReadout::Days));
    assert!(matches!(format_speed(s(f64::INFINITY), false), SpeedReadout::Days));
    assert!(matches!(format_speed(s(86_399.0), false), SpeedReadout::Hours));
    assert!(matches!(format_speed(s(3600.0), false), SpeedReadout::Hours));
    match format_speed(s(112.5), false) {
        SpeedReadout::Times(text) => assert_eq!(text, "112x"),
        _ => panic!("expected a multiple"),
    }
}

#[test]
fn time_stands_still_while_paused() {
    let mut d = SimulationState::default();
    d.tick(at(1));
    assert_eq!(d.epoch, default_epoch());
    press(&mut d, "p");
    d.tick(at(1));
    assert_eq!(d.epoch, at(1));
}

#[test]
fn the_mouse_moves_a_camera_that_orbits() {
    let mut d = SimulationState::default();
    d.turn(s(0.25), s(2.0));
    assert_eq!((value(d.camera_azimuth), value(d.camera_elevation)), (0.25, 1.5));
    d.zoom(s(1.0));
    assert_eq!(value(d.camera_distance), 5.0);
    d.camera = d.camera.stand_on(CameraEndpoint::Moon);
    let fixed = d;
    d.turn(s(1.0), s(0.0));
    d.zoom(s(100.0));
    assert_eq!(d, fixed);
}

#[test]
fn steps_are_the_nearest_ones() {
    for (x, step) in [(1.0, 1), (1.49, 1), (1.5, 2), (3.49, 2), (3.5, 5), (7.49, 5), (7.5, 10), (9.9, 10)] {
        assert_eq!(nice_step(s(x)), step);
        let gap = |n: f64| (x - n).abs();
        assert!([1.0, 2.0, 5.0, 10.0].iter().all(|&n| gap(step as f64) <= gap(n)));
    }
    assert_eq!(nice_step(s(f64::NAN)), 10);
}

#[test]
fn lengths_have_units() {
    assert_eq!(length_unit(s(1e6)), LengthUnit::Millions);
    assert_eq!(length_unit(s(999_999.0)), LengthUnit::Thousands);
    assert_eq!(length_unit(s(1000.0)), LengthUnit::Thousands);
    assert_eq!(length_unit(s(999.0)), LengthUnit::Kilometres);
    assert_eq!(LengthUnit::Millions.suffix(), "M km");
    assert_eq!(LengthUnit::Thousands.suffix(), "k km");
    assert_eq!(LengthUnit::Kilometres.suffix(), " km");
}

#[test]
fn time_is_stopped_and_stays_stopped() {
    let mut d = SimulationState { paused: false, ..SimulationState::default() };
    d.stop_time();
    assert_eq!(d, SimulationState::default());
    d.stop_time();
    assert_eq!(d, SimulationState::default());
}

#[test]
fn keys_undo_each_other() {
    for (first, second) in [("p", "p"), ("l", "l"), ("s", "s"), ("h", "h"), ("+", "-"), ("=", "-")] {
        let mut d = SimulationState::default();
        press(&mut d, first);
        assert_ne!(d, SimulationState::default());
        press(&mut d, second);
        assert_eq!(d, SimulationState::default());
    }
}

#[test]
fn keys_work_with_any_number_of_bodies() {
    let mut d = SimulationState::default();
    d.camera.to = CameraEndpoint::Earth;
    d.key_pressed("v", usize::MAX, at(0));
    assert_eq!(d.camera.to, CameraEndpoint::Satellite(usize::MAX - 1));
    d.key_pressed("c", usize::MAX, at(0));
    assert_eq!(d.camera.to, CameraEndpoint::Earth);
}
