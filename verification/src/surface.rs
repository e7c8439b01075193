//! The state of the optimizer of launches from any point of the lunar surface.

use crate::epoch::UtcInstant;
use crate::lagrange::LagrangeId;
use crate::scalar::{Scalar, MAX_BITS};
use crate::simulation::SimulationState;
use crate::text::{decimal, push_decimal};
use crate::trail::TrailFrame;
use vstd::prelude::*;
use vstd::string::StringExecFns;

verus! {

/// What the optimizer looks for.
#[derive(Clone, Copy, PartialEq, Eq, Structural, Debug)]
pub enum SurfaceOptMode {
    /// The best launch from one point.
    Single,
    /// The best launch from each point of a map.
    SurfaceMap,
}

/// What the optimizer reports. A launch comes with the line in which it is drawn.
pub enum SurfaceOptimizerMsg<R, S, P> {
    SingleResult(R, S),
    MapProgress { done: usize, total: usize },
    MapFinished(Vec<P>),
}

/// The state of the optimizer.
pub struct SurfaceOptimizerState<R, S, P> {
    pub running: bool,
    /// Whether reports are still waited for.
    pub listening: bool,
    pub single_result: Option<R>,
    pub display_strip: Option<S>,
    pub map_results: Option<Vec<P>>,
    pub progress_done: usize,
    pub progress_total: usize,
    pub opt_epoch: Option<UtcInstant>,
    /// The frame that the line has been made for.
    pub trail_frame: TrailFrame,
    pub mode: SurfaceOptMode,
}

/// What the state of the optimizer stands for.
#[verifier::ext_equal]
pub struct SurfaceView<R, S, P> {
    pub running: bool,
    pub listening: bool,
    pub single: Option<R>,
    pub strip: Option<S>,
    pub map: Option<Seq<P>>,
    pub done: int,
    pub total: int,
    pub epoch: Option<UtcInstant>,
    pub frame: TrailFrame,
    pub mode: SurfaceOptMode,
}

impl<R, S, P> SurfaceView<R, S, P> {
    /// The state after one report. A launch or a map ends the run.
    pub open spec fn told(self, m: SurfaceOptimizerMsg<R, S, P>) -> SurfaceView<R, S, P> {
        match m {
            SurfaceOptimizerMsg::SingleResult(result, strip) => SurfaceView {
                single: Some(result),
                strip: Some(strip),
                running: false,
                listening: false,
                ..self
            },
            SurfaceOptimizerMsg::MapProgress { done, total } => SurfaceView {
                done: done as int,
                total: total as int,
                ..self
            },
            SurfaceOptimizerMsg::MapFinished(points) => SurfaceView {
                map: Some(points@),
                running: false,
                listening: false,
                ..self
            },
        }
    }

    /// The state after a series of reports.
    pub open spec fn told_all(self, messages: Seq<SurfaceOptimizerMsg<R, S, P>>) -> SurfaceView<
        R,
        S,
        P,
    >
        decreases messages.len(),
    {
        if messages.len() == 0 {
            self
        } else {
            self.told_all(messages.drop_last()).told(messages.last())
        }
    }
}

impl<R, S, P> View for SurfaceOptimizerState<R, S, P> {
    type V = SurfaceView<R, S, P>;

    open spec fn view(&self) -> SurfaceView<R, S, P> {
        SurfaceView {
            running: self.running,
            listening: self.listening,
            single: self.single_result,
            strip: self.display_strip,
            map: match self.map_results {
                Some(points) => Some(points@),
                None => None,
            },
            done: self.progress_done as int,
            total: self.progress_total as int,
            epoch: self.opt_epoch,
            frame: self.trail_frame,
            mode: self.mode,
        }
    }
}

impl<R, S, P> SurfaceOptimizerState<R, S, P> {
    /// An optimizer that has never run.
    pub fn new() -> (r: Self)
        ensures
            r@ == (SurfaceView::<R, S, P> {
                running: false,
                listening: false,
                single: None,
                strip: None,
                map: None,
                done: 0,
                total: 0,
                epoch: None,
                frame: TrailFrame::J2000,
                mode: SurfaceOptMode::Single,
            }),
    {
        SurfaceOptimizerState {
            running: false,
            listening: false,
            single_result: None,
            display_strip: None,
            map_results: None,
            progress_done: 0,
            progress_total: 0,
            opt_epoch: None,
            trail_frame: TrailFrame::J2000,
            mode: SurfaceOptMode::Single,
        }
    }

    /// Whether the line has to be made anew for a frame.
    pub fn needs_strip(&self, frame: TrailFrame) -> (r: bool)
        ensures
            r == (frame != self@.frame && self@.single is Some),
    {
        frame != self.trail_frame && self.single_result.is_some()
    }

    /// Changes to a frame, with the line made for it where one is needed.
    pub fn change_frame(&mut self, frame: TrailFrame, strip: Option<S>)
        requires
            strip is Some <==> frame != old(self)@.frame && old(self)@.single is Some,
        ensures
            final(self)@ == (SurfaceView {
                frame,
                strip: if strip is Some {
                    strip
                } else {
                    old(self)@.strip
                },
                ..old(self)@
            }),
    {
        self.trail_frame = frame;
        match strip {
            Some(line) => {
                self.display_strip = Some(line);
            },
            None => {},
        }
    }

    /// Takes one report.
    fn tell(&mut self, m: SurfaceOptimizerMsg<R, S, P>)
        ensures
            final(self)@ == old(self)@.told(m),
    {
        match m {
            SurfaceOptimizerMsg::SingleResult(result, strip) => {
                self.display_strip = Some(strip);
                self.single_result = Some(result);
                self.running = false;
                self.listening = false;
            },
            SurfaceOptimizerMsg::MapProgress { done, total } => {
                self.progress_done = done;
                self.progress_total = total;
            },
            SurfaceOptimizerMsg::MapFinished(points) => {
                self.map_results = Some(points);
                self.running = false;
                self.listening = false;
            },
        }
    }

    /// Takes the reports of one frame.
    pub fn poll(&mut self, messages: Vec<SurfaceOptimizerMsg<R, S, P>>)
        requires
            old(self)@.listening,
        ensures
            final(self)@ == old(self)@.told_all(messages@),
    {
        let ghost all = messages@;
        let mut rest: Vec<SurfaceOptimizerMsg<R, S, P>> = messages;
        let ghost mut heard: int = 0;
        assert(all.take(0) =~= Seq::empty());
        while rest.len() > 0
            invariant
                0 <= heard <= all.len(),
                rest@ == all.skip(heard),
                self@ == old(self)@.told_all(all.take(heard)),
            decreases rest@.len(),
        {
            let message: SurfaceOptimizerMsg<R, S, P> = rest.remove(0);
            proof {
                assert(message == all[heard]);
                assert(all.skip(heard).remove(0) =~= all.skip(heard + 1));
                assert(all.take(heard + 1).drop_last() =~= all.take(heard));
                assert(all.take(heard + 1).last() == message);
                heard = heard + 1;
            }
            self.tell(message);
        }
        assert(all.take(heard) =~= all);
    }

    /// Starts to look for a launch from one point, at the epoch of the simulation,
    /// where time is stopped.
    pub fn start_single(&mut self, sim: &mut SimulationState)
        requires
            !old(self)@.running,
        ensures
            *final(sim) == (SimulationState { paused: true, ..*old(sim) }),
            final(self)@ == (SurfaceView {
                running: true,
                listening: true,
                single: None,
                strip: None,
                epoch: Some(old(sim).epoch),
                mode: SurfaceOptMode::Single,
                ..old(self)@
            }),
    {
        sim.stop_time();
        self.opt_epoch = Some(sim.epoch);
        self.mode = SurfaceOptMode::Single;
        self.running = true;
        self.listening = true;
        self.single_result = None;
        self.display_strip = None;
    }

    /// Starts to make a map of so many points, at the epoch of the simulation,
    /// where time is stopped.
    pub fn start_map(&mut self, sim: &mut SimulationState, longitudes: usize, latitudes: usize)
        requires
            !old(self)@.running,
            longitudes * latitudes <= usize::MAX,
        ensures
            *final(sim) == (SimulationState { paused: true, ..*old(sim) }),
            final(self)@ == (SurfaceView {
                running: true,
                listening: true,
                map: None,
                done: 0,
                total: longitudes * latitudes,
                epoch: Some(old(sim).epoch),
                mode: SurfaceOptMode::SurfaceMap,
                ..old(self)@
            }),
    {
        sim.stop_time();
        self.opt_epoch = Some(sim.epoch);
        self.mode = SurfaceOptMode::SurfaceMap;
        self.running = true;
        self.listening = true;
        self.map_results = None;
        self.progress_done = 0;
        self.progress_total = longitudes * latitudes;
    }

    /// Gives up a run.
    pub fn cancel(&mut self)
        requires
            old(self)@.running,
        ensures
            final(self)@ == (SurfaceView { running: false, listening: false, ..old(self)@ }),
    {
        self.running = false;
        self.listening = false;
    }

    /// Drops the map.
    pub fn clear_map(&mut self)
        ensures
            final(self)@ == (SurfaceView { map: None, ..old(self)@ }),
    {
        self.map_results = None;
    }

    /// How far the run is, in words.
    pub fn progress_text(&self) -> (r: String)
        ensures
            r@ == (match self@.mode {
                SurfaceOptMode::Single => "Computing trajectory..."@,
                SurfaceOptMode::SurfaceMap => "Map: "@ + decimal(self@.done as nat) + "/"@ + decimal(
                    self@.total as nat,
                ),
            }),
    {
        match self.mode {
            SurfaceOptMode::Single => String::from_str("Computing trajectory..."),
            SurfaceOptMode::SurfaceMap => {
                let mut out: String = String::from_str("Map: ");
                push_decimal(&mut out, self.progress_done as u64);
                out.append("/");
                push_decimal(&mut out, self.progress_total as u64);
                out
            },
        }
    }
}

/// A launch that comes in ends the run, whatever else is reported with it.
pub proof fn lemma_result_ends_the_run<R, S, P>(
    state: SurfaceView<R, S, P>,
    messages: Seq<SurfaceOptimizerMsg<R, S, P>>,
    i: int,
)
    requires
        0 <= i < messages.len(),
        messages[i] is SingleResult || messages[i] is MapFinished,
    ensures
        !state.told_all(messages).running,
        !state.told_all(messages).listening,
    decreases messages.len(),
{
    if i < messages.len() - 1 {
        lemma_result_ends_the_run(state, messages.drop_last(), i);
    }
}

/// The first of the least values.
pub fn first_least(values: &Vec<Scalar>) -> (r: Option<usize>)
    requires
        forall|i: int| 0 <= i < values@.len() ==> !(#[trigger] values@[i]).is_nan(),
    ensures
        r is None <==> values@.len() == 0,
        r matches Some(b) ==> b < values@.len() && (forall|i: int|
            0 <= i < values@.len() ==> values@[b as int].le(#[trigger] values@[i])) && (forall|
            i: int,
        | 0 <= i < b ==> values@[b as int].lt(#[trigger] values@[i])),
{
    if values.len() == 0 {
        return None;
    }
    let mut best: usize = 0;
    let mut i: usize = 1;
    while i < values.len()
        invariant
            1 <= i <= values@.len(),
            best < i,
            forall|k: int| 0 <= k < values@.len() ==> !(#[trigger] values@[k]).is_nan(),
            forall|k: int| 0 <= k < i ==> values@[best as int].le(#[trigger] values@[k]),
            forall|k: int| 0 <= k < best ==> values@[best as int].lt(#[trigger] values@[k]),
        decreases values@.len() - i,
    {
        if values[i].less(&values[best]) {
            best = i;
        }
        i = i + 1;
    }
    Some(best)
}

/// The least and the greatest of the distances on a map, on a scale that starts
/// at the greatest finite number and at zero. What is not a number is passed over.
pub fn extent(distances: &Vec<Scalar>) -> (r: (Scalar, Scalar))
    ensures
        !r.0.is_nan() && !r.1.is_nan(),
        r.0.bits == MAX_BITS || distances@.contains(r.0),
        r.1.value() == 0 || distances@.contains(r.1),
        r.0.le(Scalar { bits: MAX_BITS }),
        r.1.value() >= 0,
        forall|i: int| 0 <= i < distances@.len() ==> !(#[trigger] distances@[i]).lt(r.0),
        forall|i: int| 0 <= i < distances@.len() ==> !r.1.lt(#[trigger] distances@[i]),
{
    let mut least: Scalar = Scalar::max_finite();
    let mut greatest: Scalar = Scalar { bits: 0 };
    proof {
        crate::scalar::lemma_magnitude_zero();
    }
    let mut i: usize = 0;
    while i < distances.len()
        invariant
            i <= distances@.len(),
            !least.is_nan() && !greatest.is_nan(),
            least.bits == MAX_BITS || distances@.contains(least),
            greatest.value() == 0 || distances@.contains(greatest),
            least.le(Scalar { bits: MAX_BITS }),
            greatest.value() >= 0,
            forall|k: int| 0 <= k < i ==> !(#[trigger] distances@[k]).lt(least),
            forall|k: int| 0 <= k < i ==> !greatest.lt(#[trigger] distances@[k]),
        decreases distances@.len() - i,
    {
        let d: Scalar = distances[i];
        assert(distances@.contains(d));
        if d.less(&least) {
            least = d;
        }
        if greatest.less(&d) {
            greatest = d;
        }
        i = i + 1;
    }
    (least, greatest)
}

/// What the optimizer looks for unless told otherwise: angles in degrees, speeds
/// in metres per second, a time of flight in days, and the sizes of the searches.
#[derive(Clone, Copy, PartialEq, Eq, Structural, Debug)]
pub struct SurfaceDefaults {
    pub longitude_deg: u32,
    pub latitude_deg: u32,
    pub speed_min_m_s: u32,
    pub speed_max_m_s: u32,
    pub angle_limit_deg: u32,
    pub integration_time_days: u32,
    pub l_point: LagrangeId,
    pub grid_speeds: usize,
    pub grid_angles: usize,
    pub nm_max_iter: usize,
    pub map_longitudes: usize,
    pub map_latitudes: usize,
}

/// The search from the middle of the far side to the first Lagrange point.
pub fn surface_defaults() -> (r: SurfaceDefaults)
    ensures
        r == (SurfaceDefaults {
            longitude_deg: 180,
            latitude_deg: 0,
            speed_min_m_s: 2300,
            speed_max_m_s: 2500,
            angle_limit_deg: 30,
            integration_time_days: 10,
            l_point: LagrangeId::L1,
            grid_speeds: 10,
            grid_angles: 10,
            nm_max_iter: 100,
            map_longitudes: 36,
            map_latitudes: 18,
        }),
{
    SurfaceDefaults {
        longitude_deg: 180,
        latitude_deg: 0,
        speed_min_m_s: 2300,
        speed_max_m_s: 2500,
        angle_limit_deg: 30,
        integration_time_days: 10,
        l_point: LagrangeId::L1,
        grid_speeds: 10,
        grid_angles: 10,
        nm_max_iter: 100,
        map_longitudes: 36,
        map_latitudes: 18,
    }
}

/// What each report changes, and that it changes nothing else: a launch brings its
/// line, a map its points, and either ends the run; progress is noted.
pub proof fn lemma_what_surface_reports_change<R, S, P>(
    state: SurfaceView<R, S, P>,
    message: SurfaceOptimizerMsg<R, S, P>,
)
    ensures
        ({
            let after = state.told(message);
            match message {
                SurfaceOptimizerMsg::SingleResult(result, strip) => after == (SurfaceView {
                    single: Some(result),
                    strip: Some(strip),
                    running: false,
                    listening: false,
                    ..state
                }),
                SurfaceOptimizerMsg::MapProgress { done, total } => after == (SurfaceView {
                    done: done as int,
                    total: total as int,
                    ..state
                }),
                SurfaceOptimizerMsg::MapFinished(points) => after == (SurfaceView {
                    map: Some(points@),
                    running: false,
                    listening: false,
                    ..state
                }),
            }
        }),
{
}

/// Reports are taken one after the other, each on what those before it have left.
pub proof fn lemma_surface_reports_are_taken_in_order<R, S, P>(
    state: SurfaceView<R, S, P>,
    messages: Seq<SurfaceOptimizerMsg<R, S, P>>,
    last: SurfaceOptimizerMsg<R, S, P>,
)
    ensures
        state.told_all(Seq::empty()) == state,
        state.told_all(messages.push(last)) == state.told_all(messages).told(last),
{
    assert(messages.push(last).drop_last() =~= messages);
}

/// The state stands for what its fields hold, one for one.
pub proof fn lemma_surface_state_by_its_fields<R, S, P>(state: SurfaceOptimizerState<R, S, P>)
    ensures
        state@.running == state.running && state@.listening == state.listening,
        state@.single == state.single_result && state@.strip == state.display_strip,
        state.map_results is None <==> state@.map is None,
        state.map_results matches Some(points) ==> state@.map == Some(points@),
        state@.done == state.progress_done && state@.total == state.progress_total,
        state@.epoch == state.opt_epoch && state@.frame == state.trail_frame && state@.mode
            == state.mode,
{
}

} // verus!
