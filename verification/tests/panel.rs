use solar_system_sim::bodies::{Moved, OrbitalDisplay, UserBody};
use solar_system_sim::camera::{CameraEndpoint, CameraOrigin, CameraUp};
use solar_system_sim::epoch::{default_epoch, UtcInstant};
use solar_system_sim::menu::AddBodyEntry;
use solar_system_sim::orbit::AnalysisRef;
use solar_system_sim::panel::{
    pause_hint, reset_hint, PanelAction, PanelEvent, Session, ViewEvent,
};
use solar_system_sim::scalar::Scalar;
use solar_system_sim::simulation::SimulationState;
use solar_system_sim::trail::TrailFrame;

type S = Session<u8, u32, char>;

fn s(x: f64) -> Scalar {
    Scalar { bits: x.to_bits() }
}

fn with_body() -> S {
    let mut t = S::new(default_epoch());
    let color = t.bodies.next_color();
    let epoch = t.sim.epoch;
    t.bodies.add("LEO".to_string(), Some(1), color, epoch, Some(7), s(0.0));
    t
}

fn view(t: &mut S, e: ViewEvent) -> PanelAction {
    t.panel_event(PanelEvent::View(e))
}

#[test]
fn a_session_offers_what_fits() {
    let t = S::new(default_epoch());
    let o = t.offers(3);
    assert!(o.reset && !o.clear_bodies && o.perigee && !o.analysis && !o.origin);
    assert!(!o.main_tab && !o.optimizers_tab && !o.fan && !o.lunar);
    assert!(!t.offers(0).perigee);
    let mut t = with_body();
    let o = t.offers(3);
    assert!(!o.reset && o.clear_bodies && !o.perigee && o.analysis);
    t.panel_event(PanelEvent::SelectEntry(16));
    assert!(t.offers(0).fan && t.offers(0).lunar);
    view(&mut t, ViewEvent::CloseMain);
    view(&mut t, ViewEvent::StandOn(CameraEndpoint::Moon));
    assert!(t.offers(0).main_tab && t.offers(0).origin);
}

#[test]
fn the_view_is_changed_by_buttons() {
    let mut t = S::new(default_epoch());
    assert!(matches!(view(&mut t, ViewEvent::ShowLagrange(false)), PanelAction::ShowMarkers(false)));
    view(&mut t, ViewEvent::TogglePause);
    view(&mut t, ViewEvent::TrailLength(7200));
    view(&mut t, ViewEvent::Frame(TrailFrame::Synodic));
    view(&mut t, ViewEvent::ShowStars(true));
    view(&mut t, ViewEvent::Up(CameraUp::EclipticNorth));
    view(&mut t, ViewEvent::Perspective(false));
    view(&mut t, ViewEvent::Origin(CameraOrigin::DistToTo));
    view(&mut t, ViewEvent::OriginValue(s(12.0)));
    view(&mut t, ViewEvent::CloseOptimizers);
    assert!(!t.sim.paused && !t.sim.show_lagrange && t.sim.show_stars && !t.sim.perspective);
    assert_eq!((t.sim.trail_duration, t.sim.trail_frame), (7200, TrailFrame::Synodic));
    assert_eq!((t.sim.camera_up, t.sim.camera_origin), (CameraUp::EclipticNorth, CameraOrigin::DistToTo));
    assert_eq!(t.sim.camera_origin_value, s(12.0));
    assert!(!t.sim.opt_panel_open);
    view(&mut t, ViewEvent::OpenOptimizers);
    view(&mut t, ViewEvent::LookAt(CameraEndpoint::Free));
    assert_eq!((t.sim.camera.from, t.sim.camera.to), (CameraEndpoint::Earth, CameraEndpoint::Free));
    t.panel_event(PanelEvent::Reset);
    assert_eq!(t.sim, SimulationState::at_start(default_epoch()));
}

#[test]
fn speed_and_epoch_are_changed_by_buttons() {
    let mut t = S::new(default_epoch());
    t.panel_event(PanelEvent::Faster);
    assert_eq!(t.sim.speed, s(7200.0));
    t.panel_event(PanelEvent::Slower);
    assert_eq!(t.sim.speed, s(3600.0));
    let e = UtcInstant { utc_nanos: 5 };
    t.panel_event(PanelEvent::GoTo(e));
    assert_eq!(t.sim.epoch, e);
}

#[test]
fn clearing_takes_all_bodies_out() {
    let mut t = with_body();
    t.settle_selection();
    assert_eq!(t.analysis.selected_body, Some(0));
    t.panel_event(PanelEvent::FoundInTrail(Some('x')));
    assert!(matches!(t.panel_event(PanelEvent::ClearBodies), PanelAction::RemoveBodies));
    assert!(t.bodies.bodies.is_empty());
    assert_eq!((t.analysis.selected_body, t.analysis.closest_approach), (None, None));
    t.settle_selection();
    assert_eq!(t.analysis.selected_body, None);
}

#[test]
fn another_body_or_reference_drops_the_approach() {
    let mut t = with_body();
    t.bodies.add("B".to_string(), None, solar_system_sim::bodies::BodyColor::Pole(1), default_epoch(), None, s(0.0));
    t.panel_event(PanelEvent::SelectBody(1));
    t.panel_event(PanelEvent::FoundInTrail(Some('x')));
    t.panel_event(PanelEvent::SelectBody(1));
    assert_eq!(t.analysis.closest_approach, Some('x'));
    t.panel_event(PanelEvent::ReferTo(AnalysisRef::Earth));
    assert_eq!(t.analysis.closest_approach, Some('x'));
    t.panel_event(PanelEvent::ReferTo(AnalysisRef::Moon));
    assert_eq!(t.analysis.closest_approach, None);
    t.panel_event(PanelEvent::FoundBest(Some((0, 'y'))));
    assert_eq!((t.analysis.selected_body, t.analysis.closest_approach), (Some(0), Some('y')));
    t.panel_event(PanelEvent::FoundBest(None));
    assert_eq!(t.analysis.closest_approach, Some('y'));
    t.analysis.clicked(None);
    assert_eq!(t.analysis.closest_approach, Some('y'));
    t.analysis.clicked(Some(1));
    assert_eq!((t.analysis.selected_body, t.analysis.closest_approach), (Some(1), None));
    t.panel_event(PanelEvent::Display(OrbitalDisplay::Euclidean));
    assert_eq!(t.analysis.display, OrbitalDisplay::Euclidean);
    assert!(t.bodies.bodies[1].trail.is_empty());
}

#[test]
fn a_selection_beyond_the_bodies_becomes_the_last() {
    let mut t = with_body();
    t.analysis.selected_body = Some(9);
    t.settle_selection();
    assert_eq!(t.analysis.selected_body, Some(0));
}

#[test]
fn recording_and_pictures_by_key_and_button() {
    let mut t = S::new(default_epoch());
    match t.key_pressed("f") {
        PanelAction::Screenshot(name) => assert_eq!(name, "screenshot_0.png"),
        _ => panic!("expected a picture"),
    }
    match t.panel_event(PanelEvent::Snap) {
        PanelAction::Screenshot(name) => assert_eq!(name, "screenshot_1.png"),
        _ => panic!("expected a picture"),
    }
    assert!(matches!(t.key_pressed("g"), PanelAction::RecordingStarted));
    assert!(matches!(t.panel_event(PanelEvent::ToggleRecording), PanelAction::RecordingStopped(None)));
    assert!(matches!(t.key_pressed("m"), PanelAction::OpenAddBodyMenu));
    assert!(matches!(t.key_pressed("l"), PanelAction::ShowMarkers(false)));
    assert!(matches!(t.key_pressed("s"), PanelAction::ShowStars(true)));
    assert!(matches!(t.key_pressed("+"), PanelAction::Nothing));
    assert_eq!(t.sim.speed, s(7200.0));
}

#[test]
fn bodies_hold_the_epoch() {
    let mut t = with_body();
    t.sim.epoch = UtcInstant { utc_nanos: 5 };
    t.key_pressed("r");
    assert_eq!(t.sim.epoch, UtcInstant { utc_nanos: 5 });
}

#[test]
fn the_selected_entry_is_added() {
    let mut t = S::new(default_epoch());
    t.panel_event(PanelEvent::SelectEntry(2));
    assert!(matches!(t.panel_event(PanelEvent::AddBodies), PanelAction::Add(AddBodyEntry::Orbit(2))));
}

#[test]
fn trails_are_dropped_when_time_goes_back() {
    let mut t = with_body();
    assert!(t.arrive());
    let now = t.sim.epoch;
    t.trails.record(now, 0, Some(1));
    assert!(!t.arrive());
    assert_eq!(t.bodies.bodies[0].trail.len(), 1);
    t.sim.epoch = UtcInstant { utc_nanos: now.utc_nanos - 1 };
    assert!(t.arrive());
    assert!(t.trails.moon.is_empty() && t.trails.earth.is_empty());
    assert!(t.bodies.bodies[0].trail.is_empty());
    assert_eq!(t.bodies.bodies[0].name, "LEO");
}

fn moved(craft: u8, nanos: i128, state: u32) -> Option<Moved<u8, u32>> {
    Some(Moved { craft, epoch: UtcInstant { utc_nanos: nanos }, state })
}

fn trail_states(t: &S, body: usize) -> Vec<u32> {
    t.bodies.bodies[body].trail.iter().map(|p| p.state).collect()
}

#[test]
fn no_body_moves_while_time_stands_still() {
    let mut t = with_body();
    t.sim.stop_time();
    assert!(!t.bodies_move());
    t.move_bodies(vec![moved(2, 9, 8)]);
    assert_eq!(t.bodies.bodies[0].craft, Some(1));
    assert_eq!(trail_states(&t, 0), vec![7]);
    t.key_pressed("p");
    assert!(t.bodies_move());
    t.move_bodies(vec![moved(2, 9, 8)]);
    assert_eq!(t.bodies.bodies[0].craft, Some(2));
    assert_eq!(trail_states(&t, 0), vec![7, 8]);
    assert_eq!(t.bodies.bodies[0].trail[1].epoch, UtcInstant { utc_nanos: 9 });
}

#[test]
fn each_body_goes_where_its_own_propagation_went() {
    let mut t = with_body();
    t.sim.paused = false;
    let color = t.bodies.next_color();
    t.bodies.add("B".to_string(), None, color, t.sim.epoch, None, s(0.0));
    t.bodies.add("C".to_string(), Some(3), color, t.sim.epoch, Some(5), s(0.0));
    t.bodies.add("D".to_string(), Some(4), color, t.sim.epoch, Some(6), s(0.0));
    t.move_bodies(vec![moved(11, 1, 21), None, None, moved(14, 2, 24)]);
    let crafts: Vec<Option<u8>> = t.bodies.bodies.iter().map(|b| b.craft).collect();
    assert_eq!(crafts, vec![Some(11), None, Some(3), Some(14)]);
    assert_eq!(trail_states(&t, 0), vec![7, 21]);
    assert_eq!(trail_states(&t, 1), Vec::<u32>::new());
    assert_eq!(trail_states(&t, 2), vec![5]);
    assert_eq!(trail_states(&t, 3), vec![6, 24]);
    assert_eq!(t.bodies.bodies[3].name, "D");
}

#[test]
fn the_trail_of_the_moon_ends_at_the_epoch() {
    let mut t = with_body();
    t.sim.stop_time();
    for (nanos, moon, expected) in
        [(5, 1, vec![5]), (9, 2, vec![5, 9]), (9, 3, vec![5, 9]), (7, 4, vec![7])]
    {
        t.sim.epoch = UtcInstant { utc_nanos: nanos };
        if t.arrive() {
            t.record_motion(0, Some(moon));
        }
        t.move_bodies(vec![moved(2, 9, 8)]);
        let epochs: Vec<i128> = t.trails.moon.iter().map(|p| p.epoch.utc_nanos).collect();
        assert_eq!(epochs, expected);
        assert_eq!(t.trails.earth.len(), expected.len());
        assert_eq!(t.bodies.bodies[0].craft, Some(1));
    }
    assert_eq!(t.trails.moon[0].state, 4);
    assert!(t.bodies.bodies[0].trail.is_empty());
    t.sim.epoch = UtcInstant { utc_nanos: 8 };
    assert!(t.arrive());
    t.record_motion(0, None);
    assert_eq!((t.trails.earth.len(), t.trails.moon.len()), (2, 1));
}

#[test]
fn a_propagated_body_leaves_a_trail() {
    let mut t = with_body();
    let body: &mut UserBody<u8, u32> = &mut t.bodies.bodies[0];
    body.moved(2, UtcInstant { utc_nanos: 9 }, 8);
    assert_eq!((body.craft, body.trail.len(), body.trail[1].state), (Some(2), 2, 8));
}

#[test]
fn hints_tell_the_keys() {
    assert_eq!(pause_hint(true), "Play (P)");
    assert_eq!(pause_hint(false), "Pause (P)");
    assert_eq!(reset_hint(true), "Clear bodies first");
    assert_eq!(reset_hint(false), "Reset (R)");
}

#[test]
fn only_offered_buttons_are_accepted() {
    let empty = S::new(default_epoch());
    assert!(empty.is_accepted(&PanelEvent::Reset));
    assert!(empty.is_accepted(&PanelEvent::GoTo(UtcInstant { utc_nanos: 5 })));
    assert!(!empty.is_accepted(&PanelEvent::ClearBodies));
    assert!(!empty.is_accepted(&PanelEvent::SelectBody(0)));
    assert!(!empty.is_accepted(&PanelEvent::FoundBest(Some((0, 'x')))));
    assert!(empty.is_accepted(&PanelEvent::FoundBest(None)));
    assert!(empty.is_accepted(&PanelEvent::SelectEntry(16)));
    assert!(!empty.is_accepted(&PanelEvent::SelectEntry(17)));
    let mut one = with_body();
    assert!(!one.is_accepted(&PanelEvent::Reset));
    assert!(!one.is_accepted(&PanelEvent::GoTo(UtcInstant { utc_nanos: 5 })));
    assert!(one.is_accepted(&PanelEvent::ClearBodies));
    assert!(one.is_accepted(&PanelEvent::SelectBody(0)));
    assert!(one.is_accepted(&PanelEvent::FoundBest(Some((0, 'x')))));
    assert!(one.is_accepted(&PanelEvent::Snap));
    one.recording.screenshot_counter = u32::MAX;
    assert!(!one.is_accepted(&PanelEvent::Snap));
    assert!(one.is_accepted(&PanelEvent::Faster));
}

#[test]
fn with_a_body_no_event_changes_the_epoch() {
    let mut t = with_body();
    let epoch = t.sim.epoch;
    for key in ["p", "r", "t", "c", "h", "+", "m", "g", "f"] {
        t.key_pressed(key);
        assert_eq!(t.sim.epoch, epoch);
    }
    t.panel_event(PanelEvent::Faster);
    t.panel_event(PanelEvent::AddBodies);
    t.panel_event(PanelEvent::ClearBodies);
    assert_eq!(t.sim.epoch, epoch);
    t.panel_event(PanelEvent::GoTo(UtcInstant { utc_nanos: 5 }));
    assert_eq!(t.sim.epoch.utc_nanos, 5);
}
