//! The state of an optimizer: what it has found so far and what is shown of it.
//!
//! The optimizer of launches from the equator and the one of launches from the
//! pole keep the same state. `R` is what an evaluation gives, `S` the lines in
//! which it is drawn.

use crate::epoch::{
    epoch_text, fraction_digits, scale_suffix, show_utc, CivilTime, UtcInstant,
};
use crate::lagrange::LagrangeId;
use crate::simulation::SimulationState;
use crate::text::{decimal, push_decimal};
use crate::trail::TrailFrame;
use vstd::prelude::*;
use vstd::string::StringExecFns;

verus! {

/// How many results are kept.
pub const KEPT: usize = 3;

/// How many colors the results have.
pub const COLORS: usize = 3;

/// What an optimizer reports while it runs. What has been evaluated comes with
/// the lines in which it is drawn.
pub enum OptimizerMsg<R, S> {
    /// An evaluation has just been completed.
    Current(S),
    /// A result belongs to the best ones, at a rank from zero on.
    NewBest { rank: usize, result: R, strips: S },
    /// So much of the work has been done.
    Progress { phase: String, done: usize, total: usize },
    /// The optimization is over.
    Finished(R),
}

/// The lines of a result, with the number of their color.
pub struct ColoredStrips<S> {
    pub color: usize,
    pub strips: S,
}

/// What the panel of an optimizer offers.
#[derive(Clone, Copy, PartialEq, Eq, Structural, Debug)]
pub struct OptimizerOffers {
    pub cancel: bool,
    pub run: bool,
    pub clear: bool,
    pub results: bool,
    pub adopt: bool,
}

/// The state of an optimizer.
pub struct OptimizerState<R, S> {
    pub running: bool,
    /// Whether reports are still waited for.
    pub listening: bool,
    pub best_results: Vec<R>,
    pub display_strips: Vec<ColoredStrips<S>>,
    pub phase: String,
    pub progress_done: usize,
    pub progress_total: usize,
    pub final_result: Option<R>,
    pub current_strips: Option<S>,
    /// The epoch at which the optimizer was started last.
    pub opt_epoch: Option<UtcInstant>,
    /// The frame that the lines have been made for.
    pub trail_frame: TrailFrame,
    /// The results that are to be added to the simulation.
    pub adopt_requests: Vec<usize>,
}

/// What the state of an optimizer stands for.
#[verifier::ext_equal]
pub struct OptimizerView<R, S> {
    pub running: bool,
    pub listening: bool,
    pub best: Seq<R>,
    pub strips: Seq<ColoredStrips<S>>,
    pub phase: Seq<char>,
    pub done: int,
    pub total: int,
    pub final_result: Option<R>,
    pub current: Option<S>,
    pub epoch: Option<UtcInstant>,
    pub frame: TrailFrame,
    pub requests: Seq<usize>,
}

/// A sequence with a value at a rank, or behind the others where the rank is
/// beyond them, cut to as many as are kept.
pub open spec fn placed<A>(s: Seq<A>, rank: int, a: A) -> Seq<A> {
    let t = if rank < s.len() {
        s.update(rank, a)
    } else {
        s.push(a)
    };
    if t.len() > KEPT {
        t.take(KEPT as int)
    } else {
        t
    }
}

/// The lines of results in the colors of their ranks.
pub open spec fn colored<S>(strips: Seq<S>) -> Seq<ColoredStrips<S>> {
    Seq::new(
        strips.len(),
        |i: int| ColoredStrips { color: (i % COLORS as int) as usize, strips: strips[i] },
    )
}

impl<R, S> OptimizerView<R, S> {
    pub open spec fn wf(self) -> bool {
        &&& self.best.len() == self.strips.len()
        &&& self.best.len() <= KEPT
        &&& forall|i: int| 0 <= i < self.strips.len() ==> (#[trigger] self.strips[i]).color < COLORS
    }

    /// The state after one report.
    pub open spec fn told(self, m: OptimizerMsg<R, S>) -> OptimizerView<R, S> {
        match m {
            OptimizerMsg::Current(strips) => OptimizerView { current: Some(strips), ..self },
            OptimizerMsg::NewBest { rank, result, strips } => OptimizerView {
                best: placed(self.best, rank as int, result),
                strips: placed(
                    self.strips,
                    rank as int,
                    ColoredStrips { color: (rank as int % COLORS as int) as usize, strips },
                ),
                ..self
            },
            OptimizerMsg::Progress { phase, done, total } => OptimizerView {
                phase: phase@,
                done: done as int,
                total: total as int,
                ..self
            },
            OptimizerMsg::Finished(best) => OptimizerView { final_result: Some(best), ..self },
        }
    }

    /// The state after a series of reports.
    pub open spec fn told_all(self, messages: Seq<OptimizerMsg<R, S>>) -> OptimizerView<R, S>
        decreases messages.len(),
    {
        if messages.len() == 0 {
            self
        } else {
            self.told_all(messages.drop_last()).told(messages.last())
        }
    }

    /// The state after the reports of one frame have been heard. The last report
    /// of all ends the run.
    pub open spec fn polled(self, frame: TrailFrame, messages: Seq<OptimizerMsg<R, S>>) -> (
        OptimizerView<R, S>
    ) {
        if messages.len() == 0 {
            self
        } else {
            let heard = OptimizerView { frame, ..self.told_all(messages) };
            if has_finished(messages) {
                OptimizerView { running: false, listening: false, current: None, ..heard }
            } else {
                heard
            }
        }
    }
}

/// Whether one of the reports says that the optimization is over.
pub open spec fn has_finished<R, S>(messages: Seq<OptimizerMsg<R, S>>) -> bool {
    exists|i: int| 0 <= i < messages.len() && (#[trigger] messages[i]) is Finished
}

/// The requests that name a result that is there, in order.
pub open spec fn served(requests: Seq<usize>, results: int) -> Seq<usize>
    decreases requests.len(),
{
    if requests.len() == 0 {
        Seq::empty()
    } else if requests.last() < results {
        served(requests.drop_last(), results).push(requests.last())
    } else {
        served(requests.drop_last(), results)
    }
}

/// The color of a rank.
pub fn rank_color(rank: usize) -> (r: usize)
    ensures
        r == rank as int % COLORS as int,
        r < COLORS,
{
    rank % COLORS
}

/// How many results of a sorted list are reported as the best ones.
pub fn leaders(results: usize) -> (r: usize)
    ensures
        r == (if results < KEPT {
            results as int
        } else {
            KEPT as int
        }),
{
    if results < KEPT {
        results
    } else {
        KEPT
    }
}

impl<R, S> View for OptimizerState<R, S> {
    type V = OptimizerView<R, S>;

    open spec fn view(&self) -> OptimizerView<R, S> {
        OptimizerView {
            running: self.running,
            listening: self.listening,
            best: self.best_results@,
            strips: self.display_strips@,
            phase: self.phase@,
            done: self.progress_done as int,
            total: self.progress_total as int,
            final_result: self.final_result,
            current: self.current_strips,
            epoch: self.opt_epoch,
            frame: self.trail_frame,
            requests: self.adopt_requests@,
        }
    }
}

impl<R, S> OptimizerState<R, S> {
    /// An optimizer that has never run.
    pub fn new() -> (r: Self)
        ensures
            r@.wf(),
            r@ == (OptimizerView::<R, S> {
                running: false,
                listening: false,
                best: Seq::empty(),
                strips: Seq::empty(),
                phase: Seq::empty(),
                done: 0,
                total: 0,
                final_result: None,
                current: None,
                epoch: None,
                frame: TrailFrame::J2000,
                requests: Seq::empty(),
            }),
    {
        let phase: String = String::new();
        OptimizerState {
            running: false,
            listening: false,
            best_results: Vec::new(),
            display_strips: Vec::new(),
            phase,
            progress_done: 0,
            progress_total: 0,
            final_result: None,
            current_strips: None,
            opt_epoch: None,
            trail_frame: TrailFrame::J2000,
            adopt_requests: Vec::new(),
        }
    }

    /// Whether the lines have to be made anew for a frame.
    pub fn needs_strips(&self, frame: TrailFrame) -> (r: bool)
        ensures
            r == (frame != self@.frame && self@.best.len() > 0),
    {
        frame != self.trail_frame && self.best_results.len() > 0
    }

    /// Takes the lines of all results, made for a frame.
    pub fn replace_strips(&mut self, frame: TrailFrame, strips: Vec<S>)
        requires
            old(self)@.wf(),
            strips@.len() == old(self)@.best.len(),
        ensures
            final(self)@.wf(),
            final(self)@ == (OptimizerView { frame, strips: colored(strips@), ..old(self)@ }),
    {
        let ghost all = strips@;
        let mut rest: Vec<S> = strips;
        let mut out: Vec<ColoredStrips<S>> = Vec::new();
        while rest.len() > 0
            invariant
                out@.len() + rest@.len() == all.len(),
                rest@ == all.skip(out@.len() as int),
                out@ == colored(all).take(out@.len() as int),
            decreases rest@.len(),
        {
            let ghost n = out@.len() as int;
            let color: usize = rank_color(out.len());
            let first: S = rest.remove(0);
            out.push(ColoredStrips { color, strips: first });
            proof {
                assert(all.skip(n).remove(0) =~= all.skip(n + 1));
                assert(all.skip(n)[0] == all[n]);
                assert(out@ =~= colored(all).take(n + 1));
            }
        }
        proof {
            assert(colored(all).take(out@.len() as int) =~= colored(all));
        }
        self.display_strips = out;
        self.trail_frame = frame;
    }

    /// Takes one report.
    fn tell(&mut self, m: OptimizerMsg<R, S>)
        requires
            old(self)@.wf(),
        ensures
            final(self)@.wf(),
            final(self)@ == old(self)@.told(m),
    {
        match m {
            OptimizerMsg::Current(strips) => {
                self.current_strips = Some(strips);
            },
            OptimizerMsg::NewBest { rank, result, strips } => {
                let color: usize = rank_color(rank);
                let lines: ColoredStrips<S> = ColoredStrips { color, strips };
                if rank < self.best_results.len() {
                    self.best_results.set(rank, result);
                    self.display_strips.set(rank, lines);
                } else {
                    self.best_results.push(result);
                    self.display_strips.push(lines);
                }
                if self.best_results.len() > KEPT {
                    self.best_results.truncate(KEPT);
                    self.display_strips.truncate(KEPT);
                }
                proof {
                    assert(self.best_results@ =~= placed(old(self)@.best, rank as int, result));
                    assert(self.display_strips@ =~= placed(
                        old(self)@.strips,
                        rank as int,
                        lines,
                    ));
                }
            },
            OptimizerMsg::Progress { phase, done, total } => {
                self.phase = phase;
                self.progress_done = done;
                self.progress_total = total;
            },
            OptimizerMsg::Finished(best) => {
                self.final_result = Some(best);
            },
        }
    }

    /// Takes the reports of one frame.
    pub fn poll(&mut self, frame: TrailFrame, messages: Vec<OptimizerMsg<R, S>>)
        requires
            old(self)@.wf(),
            old(self)@.listening,
        ensures
            final(self)@.wf(),
            final(self)@ == old(self)@.polled(frame, messages@),
    {
        let ghost all = messages@;
        if messages.len() == 0 {
            return;
        }
        let mut rest: Vec<OptimizerMsg<R, S>> = messages;
        let mut finished: bool = false;
        let ghost mut heard: int = 0;
        assert(all.take(0) =~= Seq::empty());
        while rest.len() > 0
            invariant
                0 <= heard <= all.len(),
                rest@ == all.skip(heard),
                self@.wf(),
                self@ == old(self)@.told_all(all.take(heard)),
                finished == has_finished(all.take(heard)),
            decreases rest@.len(),
        {
            let message: OptimizerMsg<R, S> = rest.remove(0);
            let over: bool = match &message {
                OptimizerMsg::Finished(_) => true,
                _ => false,
            };
            proof {
                assert(message == all[heard]);
                assert(all.skip(heard).remove(0) =~= all.skip(heard + 1));
                let now = all.take(heard + 1);
                assert(now.drop_last() =~= all.take(heard));
                assert(now.last() == message);
                assert(has_finished(now) == (has_finished(all.take(heard)) || over)) by {
                    if has_finished(all.take(heard)) {
                        let i = choose|i: int|
                            0 <= i < all.take(heard).len() && (#[trigger] all.take(heard)[i])
                                is Finished;
                        assert(now[i] is Finished);
                    }
                    if over {
                        assert(now[heard] is Finished);
                    }
                    if has_finished(now) {
                        let i = choose|i: int| 0 <= i < now.len() && (#[trigger] now[i]) is Finished;
                        if i < heard {
                            assert(all.take(heard)[i] is Finished);
                        }
                    }
                }
                heard = heard + 1;
            }
            self.tell(message);
            finished = finished || over;
        }
        assert(all.take(heard) =~= all);
        self.trail_frame = frame;
        if finished {
            self.running = false;
            self.listening = false;
            self.current_strips = None;
        }
    }

    /// Starts a run at the epoch of the simulation, where time is stopped. What an
    /// earlier run has found is dropped.
    pub fn start(&mut self, sim: &mut SimulationState)
        requires
            old(self)@.wf(),
            !old(self)@.running,
        ensures
            *final(sim) == (SimulationState { paused: true, ..*old(sim) }),
            final(self)@.wf(),
            final(self)@ == (OptimizerView {
                running: true,
                listening: true,
                best: Seq::empty(),
                strips: Seq::empty(),
                phase: "Starting..."@,
                done: 0,
                total: 0,
                final_result: None,
                epoch: Some(old(sim).epoch),
                ..old(self)@
            }),
    {
        sim.stop_time();
        self.opt_epoch = Some(sim.epoch);
        self.running = true;
        self.listening = true;
        self.best_results.clear();
        self.display_strips.clear();
        self.final_result = None;
        self.progress_done = 0;
        self.progress_total = 0;
        self.phase = String::from_str("Starting...");
    }

    /// Gives up a run. What it has found stays.
    pub fn cancel(&mut self)
        requires
            old(self)@.wf(),
            old(self)@.running,
        ensures
            final(self)@.wf(),
            final(self)@ == (OptimizerView { running: false, listening: false, ..old(self)@ }),
    {
        self.running = false;
        self.listening = false;
    }

    /// Whether there are results that may be dropped.
    pub fn can_clear(&self) -> (r: bool)
        ensures
            r == (self@.best.len() > 0 && !self@.running),
    {
        self.best_results.len() > 0 && !self.running
    }

    /// Drops the results of a run that is over.
    pub fn clear_results(&mut self)
        requires
            old(self)@.wf(),
            old(self)@.best.len() > 0 && !old(self)@.running,
        ensures
            final(self)@.wf(),
            final(self)@ == (OptimizerView {
                best: Seq::empty(),
                strips: Seq::empty(),
                final_result: None,
                ..old(self)@
            }),
    {
        self.best_results.clear();
        self.display_strips.clear();
        self.final_result = None;
    }

    /// Asks for a result to be added to the simulation.
    pub fn request_adoption(&mut self, result: usize)
        requires
            old(self)@.wf(),
            !old(self)@.running,
            result < old(self)@.best.len(),
        ensures
            final(self)@.wf(),
            final(self)@ == (OptimizerView {
                requests: old(self)@.requests.push(result),
                ..old(self)@
            }),
    {
        self.adopt_requests.push(result);
    }

    /// Takes the requests, in order, that name a result that is there. Without
    /// an epoch to launch at none is served. All are dropped.
    pub fn take_adoptions(&mut self) -> (r: Vec<usize>)
        requires
            old(self)@.wf(),
        ensures
            final(self)@.wf(),
            final(self)@ == (OptimizerView { requests: Seq::empty(), ..old(self)@ }),
            r@ == (if old(self)@.epoch is Some {
                served(old(self)@.requests, old(self)@.best.len() as int)
            } else {
                Seq::empty()
            }),
    {
        let mut out: Vec<usize> = Vec::new();
        let ghost all = self.adopt_requests@;
        let n: usize = self.best_results.len();
        if self.opt_epoch.is_some() {
            let mut i: usize = 0;
            while i < self.adopt_requests.len()
                invariant
                    i <= all.len(),
                    all == self.adopt_requests@,
                    n == self.best_results@.len(),
                    *self == *old(self),
                    out@ == served(all.take(i as int), n as int),
                decreases all.len() - i,
            {
                let request: usize = self.adopt_requests[i];
                proof {
                    assert(all.take(i + 1).drop_last() =~= all.take(i as int));
                    assert(all.take(i + 1).last() == request);
                }
                if request < n {
                    out.push(request);
                }
                i = i + 1;
            }
            assert(all.take(i as int) =~= all);
        }
        self.adopt_requests.clear();
        out
    }

    /// What the panel offers: to cancel, or to run; to drop the results, and to
    /// add one to the simulation.
    pub fn offers(&self) -> (r: OptimizerOffers)
        ensures
            r == (OptimizerOffers {
                cancel: self@.running,
                run: !self@.running,
                clear: self@.best.len() > 0 && !self@.running,
                results: self@.best.len() > 0,
                adopt: self@.best.len() > 0 && !self@.running,
            }),
    {
        let some: bool = self.best_results.len() > 0;
        OptimizerOffers {
            cancel: self.running,
            run: !self.running,
            clear: self.can_clear(),
            results: some,
            adopt: some && !self.running,
        }
    }

    /// How far the run is, in words.
    pub fn progress_text(&self) -> (r: String)
        ensures
            r@ == self@.phase + ": "@ + decimal(self@.done as nat) + "/"@ + decimal(
                self@.total as nat,
            ),
    {
        let mut out: String = String::new();
        out.append(self.phase.as_str());
        out.append(": ");
        push_decimal(&mut out, self.progress_done as u64);
        out.append("/");
        push_decimal(&mut out, self.progress_total as u64);
        assert(out@ =~= self@.phase + ": "@ + decimal(self@.done as nat) + "/"@ + decimal(
            self@.total as nat,
        ));
        out
    }

    /// The epoch of the last run, or the current one.
    pub open spec fn epoch_shown(&self, now: UtcInstant) -> UtcInstant {
        match self@.epoch {
            Some(epoch) => epoch,
            None => now,
        }
    }

    /// The epoch of the last run, or the current one, in words.
    pub fn epoch_line(&self, now: UtcInstant) -> (r: String)
        ensures
            r@ == (match self@.epoch {
                Some(epoch) => "Epoch: "@ + epoch_text(epoch.utc_nanos as int),
                None => "Epoch: "@ + epoch_text(now.utc_nanos as int) + " (current)"@,
            }),
            forall|c: CivilTime, n: nat|
                c.canonical() && n < 1_000_000_000 && self.epoch_shown(now).utc_nanos
                    == #[trigger] (c.nanos() + n) ==> r@ == (match self@.epoch {
                    Some(_) => "Epoch: "@ + (c.digits() + fraction_digits(n) + scale_suffix()),
                    None => "Epoch: "@ + (c.digits() + fraction_digits(n) + scale_suffix())
                        + " (current)"@,
                }),
    {
        let mut out: String = String::from_str("Epoch: ");
        match self.opt_epoch {
            Some(epoch) => {
                out.append(show_utc(epoch.utc_nanos).as_str());
            },
            None => {
                out.append(show_utc(now.utc_nanos).as_str());
                out.append(" (current)");
            },
        }
        out
    }
}

/// Reports that bring the best results in the order of their ranks give each
/// result the color of its place.
pub proof fn lemma_ranks_in_order_color_by_place<R, S>(
    state: OptimizerView<R, S>,
    rank: usize,
    result: R,
    strips: S,
)
    requires
        state.wf(),
        rank <= state.best.len(),
        rank < KEPT,
        forall|i: int|
            0 <= i < state.strips.len() ==> (#[trigger] state.strips[i]).color == i % COLORS as int,
    ensures
        ({
            let after = state.told(OptimizerMsg::NewBest { rank, result, strips });
            &&& after.wf()
            &&& after.best[rank as int] == result
            &&& forall|i: int|
                0 <= i < after.strips.len() ==> (#[trigger] after.strips[i]).color == i
                    % COLORS as int
            &&& forall|i: int|
                0 <= i < state.best.len() && i != rank ==> #[trigger] after.best[i]
                    == state.best[i]
        }),
{
}

/// However the reports come, no more than three results are kept, and each has
/// its lines.
pub proof fn lemma_reports_keep_the_state<R, S>(
    state: OptimizerView<R, S>,
    messages: Seq<OptimizerMsg<R, S>>,
)
    requires
        state.wf(),
    ensures
        state.told_all(messages).wf(),
        state.told_all(messages).running == state.running,
        state.told_all(messages).epoch == state.epoch,
        state.told_all(messages).requests == state.requests,
    decreases messages.len(),
{
    if messages.len() > 0 {
        lemma_reports_keep_the_state(state, messages.drop_last());
    }
}

/// What an optimizer searches unless told otherwise: speeds in metres per second,
/// angles in degrees, a time of flight in days, weights, and the size of the
/// search.
#[derive(Clone, Copy, PartialEq, Eq, Structural, Debug)]
pub struct OptimizerDefaults {
    pub speed_min_m_s: u32,
    pub speed_max_m_s: u32,
    pub angle_limit_deg: u32,
    pub max_prop_days: u32,
    pub distance_weight: u32,
    pub velocity_weight: u32,
    pub grid_n_speed: usize,
    pub grid_n_angle: usize,
    pub nm_max_iter: usize,
    pub target: LagrangeId,
}

/// The search from the equator: 2.3 to 2.5 km/s, 60 degrees to either side, for a
/// week, to the first Lagrange point.
pub fn equator_defaults() -> (r: OptimizerDefaults)
    ensures
        r == (OptimizerDefaults {
            speed_min_m_s: 2300,
            speed_max_m_s: 2500,
            angle_limit_deg: 60,
            max_prop_days: 7,
            distance_weight: 1,
            velocity_weight: 0,
            grid_n_speed: 10,
            grid_n_angle: 36,
            nm_max_iter: 100,
            target: LagrangeId::L1,
        }),
{
    OptimizerDefaults {
        speed_min_m_s: 2300,
        speed_max_m_s: 2500,
        angle_limit_deg: 60,
        max_prop_days: 7,
        distance_weight: 1,
        velocity_weight: 0,
        grid_n_speed: 10,
        grid_n_angle: 36,
        nm_max_iter: 100,
        target: LagrangeId::L1,
    }
}

/// The search from the pole: 2.2 to 2.5 km/s, in all directions, for twenty days,
/// to the third Lagrange point.
pub fn pole_defaults() -> (r: OptimizerDefaults)
    ensures
        r == (OptimizerDefaults {
            speed_min_m_s: 2200,
            speed_max_m_s: 2500,
            angle_limit_deg: 180,
            max_prop_days: 20,
            distance_weight: 1,
            velocity_weight: 0,
            grid_n_speed: 10,
            grid_n_angle: 36,
            nm_max_iter: 100,
            target: LagrangeId::L3,
        }),
{
    OptimizerDefaults {
        speed_min_m_s: 2200,
        speed_max_m_s: 2500,
        angle_limit_deg: 180,
        max_prop_days: 20,
        distance_weight: 1,
        velocity_weight: 0,
        grid_n_speed: 10,
        grid_n_angle: 36,
        nm_max_iter: 100,
        target: LagrangeId::L3,
    }
}

/// A result at a rank takes the place of the one that is there. Beyond the others it
/// is added as long as fewer than three are kept, and dropped where there are three.
pub proof fn lemma_results_by_rank<A>(s: Seq<A>, rank: int, a: A)
    requires
        s.len() <= 3,
        0 <= rank,
    ensures
        rank < s.len() ==> placed(s, rank, a) == s.update(rank, a),
        rank >= s.len() && s.len() < 3 ==> placed(s, rank, a) == s.push(a),
        rank >= s.len() && s.len() == 3 ==> placed(s, rank, a) == s,
{
    if rank >= s.len() && s.len() == 3 {
        assert(s.push(a).take(3) =~= s);
    }
}

/// What each report changes, and that it changes nothing else: the lines of the last
/// evaluation, a result with its lines in the color of its rank, the progress, or the
/// final result.
pub proof fn lemma_what_reports_change<R, S>(
    state: OptimizerView<R, S>,
    message: OptimizerMsg<R, S>,
)
    ensures
        ({
            let after = state.told(message);
            match message {
                OptimizerMsg::Current(strips) => after == (OptimizerView {
                    current: Some(strips),
                    ..state
                }),
                OptimizerMsg::NewBest { rank, result, strips } => after.best == placed(
                    state.best,
                    rank as int,
                    result,
                ) && (state.best.len() == state.strips.len() && state.best.len() <= 3 ==> {
                    &&& after.strips.len() == after.best.len()
                    &&& rank < state.strips.len() ==> after.strips[rank as int].strips == strips
                        && after.strips[rank as int].color == rank % 3
                    &&& state.strips.len() <= rank && state.strips.len() < 3 ==> after.strips.last()
                        == (ColoredStrips { color: (rank % 3) as usize, strips })
                    &&& forall|i: int|
                        0 <= i < state.strips.len() && i != rank ==> #[trigger] after.strips[i]
                            == state.strips[i]
                }) && state == (OptimizerView { best: state.best, strips: state.strips, ..after }),
                OptimizerMsg::Progress { phase, done, total } => after == (OptimizerView {
                    phase: phase@,
                    done: done as int,
                    total: total as int,
                    ..state
                }),
                OptimizerMsg::Finished(best) => after == (OptimizerView {
                    final_result: Some(best),
                    ..state
                }),
            }
        }),
{
}

/// Reports are taken one after the other, each on what those before it have left.
/// Without any nothing changes. With any, the frame of the lines is noted, and one
/// that says so, wherever it stands, ends the run.
pub proof fn lemma_reports_are_taken_in_order<R, S>(
    state: OptimizerView<R, S>,
    messages: Seq<OptimizerMsg<R, S>>,
    last: OptimizerMsg<R, S>,
    frame: TrailFrame,
    i: int,
)
    requires
        0 <= i < messages.len(),
    ensures
        state.told_all(Seq::empty()) == state,
        state.told_all(messages.push(last)) == state.told_all(messages).told(last),
        state.polled(frame, Seq::empty()) == state,
        state.polled(frame, messages).frame == frame,
        state.polled(frame, messages).best == state.told_all(messages).best,
        state.polled(frame, messages).strips == state.told_all(messages).strips,
        state.polled(frame, messages).final_result == state.told_all(messages).final_result,
        state.polled(frame, messages).phase == state.told_all(messages).phase,
        state.polled(frame, messages).done == state.told_all(messages).done,
        state.polled(frame, messages).total == state.told_all(messages).total,
        state.polled(frame, messages).epoch == state.told_all(messages).epoch,
        state.polled(frame, messages).requests == state.told_all(messages).requests,
        messages[i] is Finished ==> !state.polled(frame, messages).running && !state.polled(
            frame,
            messages,
        ).listening && state.polled(frame, messages).current is None,
        (forall|k: int| 0 <= k < messages.len() ==> !(#[trigger] messages[k] is Finished)) ==> {
            &&& state.polled(frame, messages).running == state.told_all(messages).running
            &&& state.polled(frame, messages).listening == state.told_all(messages).listening
            &&& state.polled(frame, messages).current == state.told_all(messages).current
        },
{
    assert(messages.push(last).drop_last() =~= messages);
}

/// The requests that are served are those for results that are there, all of them,
/// in the order in which they were made.
pub proof fn lemma_requests_for_results_are_served(requests: Seq<usize>, results: int)
    ensures
        served(requests, results) == requests.filter(|r: usize| r < results),
    decreases requests.len(),
{
    reveal(Seq::filter);
    if requests.len() > 0 {
        lemma_requests_for_results_are_served(requests.drop_last(), results);
    }
}

/// Lines made anew are those given, in their order, in the three colors in turn.
pub proof fn lemma_lines_are_colored_in_turn<S>(strips: Seq<S>, i: int)
    requires
        0 <= i < strips.len(),
    ensures
        colored(strips).len() == strips.len(),
        colored(strips)[i].strips == strips[i],
        colored(strips)[i].color == i % 3,
{
}

/// The state stands for what its fields hold, one for one.
pub proof fn lemma_state_by_its_fields<R, S>(state: OptimizerState<R, S>)
    ensures
        state@.running == state.running && state@.listening == state.listening,
        state@.best == state.best_results@ && state@.strips == state.display_strips@,
        state@.phase == state.phase@ && state@.done == state.progress_done && state@.total
            == state.progress_total,
        state@.final_result == state.final_result && state@.current == state.current_strips,
        state@.epoch == state.opt_epoch && state@.frame == state.trail_frame && state@.requests
            == state.adopt_requests@,
{
}

} // verus!
