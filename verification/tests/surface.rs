use solar_system_sim::epoch::default_epoch;
use solar_system_sim::scalar::Scalar;
use solar_system_sim::simulation::SimulationState;
use solar_system_sim::surface::{
    extent, first_least, surface_defaults, SurfaceOptMode, SurfaceOptimizerMsg,
    SurfaceOptimizerState,
};
use solar_system_sim::trail::TrailFrame;

type State = SurfaceOptimizerState<u32, char, i32>;

fn s(x: f64) -> Scalar {
    Scalar { bits: x.to_bits() }
}

#[test]
fn a_launch_ends_the_search_for_one() {
    let mut o = State::new();
    o.start_single(&mut SimulationState::default());
    assert!(o.running && o.listening && o.mode == SurfaceOptMode::Single);
    assert_eq!(o.progress_text(), "Computing trajectory...");
    o.poll(vec![SurfaceOptimizerMsg::SingleResult(5, 'l')]);
    assert!(!o.running && !o.listening);
    assert_eq!((o.single_result, o.display_strip), (Some(5), Some('l')));
}

#[test]
fn a_map_is_made_point_by_point() {
    let mut o = State::new();
    o.start_map(&mut SimulationState::default(), 36, 18);
    assert_eq!(o.progress_text(), "Map: 0/648");
    o.poll(vec![SurfaceOptimizerMsg::MapProgress { done: 12, total: 648 }]);
    assert_eq!(o.progress_text(), "Map: 12/648");
    assert!(o.running);
    o.poll(vec![
        SurfaceOptimizerMsg::MapFinished(vec![1, 2]),
        SurfaceOptimizerMsg::MapProgress { done: 648, total: 648 },
    ]);
    assert!(!o.running && !o.listening);
    assert_eq!(o.map_results, Some(vec![1, 2]));
    assert_eq!(o.progress_done, 648);
    o.clear_map();
    assert_eq!(o.map_results, None);
}

#[test]
fn a_search_for_one_keeps_the_map_and_the_other_way_round() {
    let mut o = State::new();
    o.start_map(&mut SimulationState::default(), 2, 2);
    o.poll(vec![SurfaceOptimizerMsg::MapFinished(vec![1])]);
    o.start_single(&mut SimulationState::default());
    assert_eq!(o.map_results, Some(vec![1]));
    o.poll(vec![SurfaceOptimizerMsg::SingleResult(5, 'l')]);
    o.start_map(&mut SimulationState::default(), 2, 2);
    assert_eq!((o.single_result, o.display_strip, o.map_results.is_none()), (Some(5), Some('l'), true));
    o.cancel();
    assert!(!o.running && !o.listening);
}

#[test]
fn the_line_follows_the_frame() {
    let mut o = State::new();
    assert!(!o.needs_strip(TrailFrame::Synodic));
    o.change_frame(TrailFrame::Synodic, None);
    assert_eq!((o.trail_frame, o.display_strip), (TrailFrame::Synodic, None));
    o.start_single(&mut SimulationState::default());
    o.poll(vec![SurfaceOptimizerMsg::SingleResult(5, 'l')]);
    assert!(!o.needs_strip(TrailFrame::Synodic));
    assert!(o.needs_strip(TrailFrame::J2000));
    o.change_frame(TrailFrame::J2000, Some('m'));
    assert_eq!(o.display_strip, Some('m'));
}

#[test]
fn the_best_point_is_the_first_of_the_least() {
    assert_eq!(first_least(&vec![s(2.0), s(1.0), s(1.0)]), Some(1));
    assert_eq!(first_least(&vec![]), None);
}

#[test]
fn the_extent_starts_from_its_own_bounds() {
    assert_eq!(extent(&vec![s(2.0), s(f64::NAN), s(7.0)]), (s(2.0), s(7.0)));
    assert_eq!(extent(&vec![]), (s(f64::MAX), s(0.0)));
    assert_eq!(extent(&vec![s(-1.0)]), (s(-1.0), s(0.0)));
}

#[test]
fn the_search_unless_told_otherwise() {
    let d = surface_defaults();
    assert_eq!((d.longitude_deg, d.latitude_deg, d.angle_limit_deg), (180, 0, 30));
    assert_eq!((d.grid_speeds, d.grid_angles, d.nm_max_iter), (10, 10, 100));
    assert_eq!((d.map_longitudes, d.map_latitudes, d.integration_time_days), (36, 18, 10));
}

#[test]
fn both_searches_stop_time() {
    let mut sim = SimulationState { paused: false, ..SimulationState::default() };
    let mut o = State::new();
    o.start_single(&mut sim);
    assert_eq!(sim, SimulationState::default());
    assert_eq!(o.opt_epoch, Some(default_epoch()));
    o.cancel();
    sim.paused = false;
    o.start_map(&mut sim, 2, 2);
    assert_eq!(sim, SimulationState::default());
}
