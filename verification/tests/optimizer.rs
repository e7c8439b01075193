use solar_system_sim::epoch::{default_epoch, UtcInstant};
use solar_system_sim::lagrange::LagrangeId;
use solar_system_sim::optimizer::{
    equator_defaults, leaders, pole_defaults, rank_color, OptimizerMsg, OptimizerOffers,
    OptimizerState,
};
use solar_system_sim::simulation::SimulationState;
use solar_system_sim::trail::TrailFrame;

type State = OptimizerState<u32, char>;

fn best(rank: usize, result: u32, strips: char) -> OptimizerMsg<u32, char> {
    OptimizerMsg::NewBest { rank, result, strips }
}

fn running() -> State {
    let mut o = State::new();
    o.start(&mut SimulationState::default());
    o
}

fn colors(o: &State) -> Vec<(usize, char)> {
    o.display_strips.iter().map(|c| (c.color, c.strips)).collect()
}

#[test]
fn a_new_optimizer_is_idle() {
    let o = State::new();
    assert!(!o.running && !o.listening && o.best_results.is_empty() && o.phase.is_empty());
    assert_eq!(o.trail_frame, TrailFrame::J2000);
    assert_eq!(
        o.offers(),
        OptimizerOffers { cancel: false, run: true, clear: false, results: false, adopt: false }
    );
}

#[test]
fn starting_clears_what_was_there() {
    let mut o = running();
    o.poll(TrailFrame::J2000, vec![best(0, 7, 'a'), OptimizerMsg::Finished(7)]);
    o.start(&mut SimulationState::default());
    assert!(o.running && o.listening && o.best_results.is_empty() && o.display_strips.is_empty());
    assert_eq!(o.phase, "Starting...");
    assert_eq!(o.final_result, None);
    assert_eq!(o.opt_epoch, Some(default_epoch()));
}

#[test]
fn the_three_best_are_kept() {
    let mut o = running();
    o.poll(TrailFrame::Synodic, vec![best(0, 10, 'a'), best(1, 11, 'b'), best(2, 12, 'c')]);
    assert_eq!(o.best_results, vec![10, 11, 12]);
    assert_eq!(colors(&o), vec![(0, 'a'), (1, 'b'), (2, 'c')]);
    o.poll(TrailFrame::Synodic, vec![best(0, 20, 'd'), best(3, 21, 'e')]);
    assert_eq!(o.best_results, vec![20, 11, 12]);
    assert_eq!(colors(&o), vec![(0, 'd'), (1, 'b'), (2, 'c')]);
    assert_eq!(o.trail_frame, TrailFrame::Synodic);
}

#[test]
fn a_rank_beyond_the_list_goes_behind_it() {
    let mut o = running();
    o.poll(TrailFrame::J2000, vec![best(2, 5, 'x')]);
    assert_eq!(colors(&o), vec![(2, 'x')]);
}

#[test]
fn progress_and_current_lines_are_shown() {
    let mut o = running();
    let phase = String::from("Grid scan");
    o.poll(
        TrailFrame::J2000,
        vec![OptimizerMsg::Current('q'), OptimizerMsg::Progress { phase, done: 3, total: 360 }],
    );
    assert_eq!(o.progress_text(), "Grid scan: 3/360");
    assert_eq!(o.current_strips, Some('q'));
    assert!(o.running);
}

#[test]
fn the_end_of_a_run_stops_the_listening() {
    let mut o = running();
    o.poll(TrailFrame::J2000, vec![OptimizerMsg::Finished(1), OptimizerMsg::Current('q')]);
    assert!(!o.running && !o.listening);
    assert_eq!(o.final_result, Some(1));
    assert_eq!(o.current_strips, None);
}

#[test]
fn no_reports_change_nothing() {
    let mut o = running();
    o.poll(TrailFrame::Synodic, vec![]);
    assert_eq!(o.trail_frame, TrailFrame::J2000);
}

#[test]
fn lines_are_made_anew_for_another_frame() {
    let mut o = running();
    assert!(!o.needs_strips(TrailFrame::Synodic));
    o.poll(TrailFrame::J2000, vec![best(0, 1, 'a'), best(1, 2, 'b')]);
    assert!(!o.needs_strips(TrailFrame::J2000));
    assert!(o.needs_strips(TrailFrame::Synodic));
    o.replace_strips(TrailFrame::Synodic, vec!['c', 'd']);
    assert_eq!(colors(&o), vec![(0, 'c'), (1, 'd')]);
    assert!(!o.needs_strips(TrailFrame::Synodic));
}

#[test]
fn a_cancelled_run_keeps_its_results() {
    let mut o = running();
    o.poll(TrailFrame::J2000, vec![best(0, 1, 'a')]);
    assert!(!o.can_clear());
    o.cancel();
    assert!(!o.running && !o.listening && o.can_clear());
    assert!(o.offers().adopt);
    o.clear_results();
    assert!(o.best_results.is_empty() && o.display_strips.is_empty() && !o.can_clear());
}

#[test]
fn results_are_adopted_in_the_order_of_the_requests() {
    let mut o = running();
    o.poll(TrailFrame::J2000, vec![best(0, 1, 'a'), best(1, 2, 'b'), OptimizerMsg::Finished(1)]);
    o.request_adoption(1);
    o.request_adoption(0);
    o.request_adoption(1);
    assert_eq!(o.take_adoptions(), vec![1, 0, 1]);
    assert_eq!(o.take_adoptions(), Vec::<usize>::new());
    o.request_adoption(1);
    o.clear_results();
    assert_eq!(o.take_adoptions(), Vec::<usize>::new());
    assert!(o.adopt_requests.is_empty());
}

#[test]
fn the_epoch_is_told() {
    let now = UtcInstant { utc_nanos: default_epoch().utc_nanos + 500_000_000 };
    assert_eq!(State::new().epoch_line(now), "Epoch: 2025-06-21T12:00:00.500000000 UTC (current)");
    assert_eq!(running().epoch_line(now), "Epoch: 2025-06-21T12:00:00 UTC");
}

#[test]
fn colors_repeat_and_leaders_are_three_at_most() {
    assert_eq!((rank_color(0), rank_color(4)), (0, 1));
    assert_eq!((leaders(2), leaders(3), leaders(99)), (2, 3, 3));
}

#[test]
fn searches_unless_told_otherwise() {
    let e = equator_defaults();
    assert_eq!((e.speed_min_m_s, e.speed_max_m_s, e.angle_limit_deg), (2300, 2500, 60));
    assert_eq!((e.grid_n_speed, e.grid_n_angle, e.nm_max_iter), (10, 36, 100));
    assert_eq!((e.max_prop_days, e.target), (7, LagrangeId::L1));
    let p = pole_defaults();
    assert_eq!((p.speed_min_m_s, p.speed_max_m_s, p.angle_limit_deg), (2200, 2500, 180));
    assert_eq!((p.max_prop_days, p.target), (20, LagrangeId::L3));
    assert_eq!((p.distance_weight, p.velocity_weight), (1, 0));
}

#[test]
fn a_run_starts_at_the_epoch_where_time_stops() {
    let mut sim = SimulationState::at_start(UtcInstant { utc_nanos: 42 });
    sim.key_pressed("p", 0, default_epoch());
    assert!(!sim.paused);
    let before = sim;
    let mut o = State::new();
    o.start(&mut sim);
    assert_eq!(o.opt_epoch, Some(UtcInstant { utc_nanos: 42 }));
    assert_eq!(sim, SimulationState { paused: true, ..before });
    o.cancel();
    o.start(&mut sim);
    assert!(sim.paused);
}
