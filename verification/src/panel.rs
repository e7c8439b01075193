//! The control panel: what it offers, and what its buttons do.

use crate::bodies::{AnalysisState, Moved, OrbitalDisplay, UserBodies};
use crate::camera::{CameraAim, CameraEndpoint, CameraOrigin, CameraUp};
use crate::epoch::UtcInstant;
use crate::menu::{entry_at, AddBodyEntry, AddBodyMenuState, ENTRY_COUNT};
use crate::orbit::AnalysisRef;
use crate::recording::{RecordingJob, RecordingState, Toggled};
use crate::scalar::Scalar;
use crate::simulation::{is_doubled, is_halved, KeyAction, SimulationState};
use crate::text::decimal;
use crate::trail::{epochs, strictly_in_time_order, BodyTrails, TrailFrame, TrailPoint};
use vstd::prelude::*;

verus! {

/// All that the panel and the keys act on. `C` is a craft, `S` a state of motion,
/// and `A` what is known of a closest approach.
pub struct Session<C, S, A> {
    pub sim: SimulationState,
    pub initial_epoch: UtcInstant,
    pub bodies: UserBodies<C, S>,
    pub trails: BodyTrails<S>,
    pub analysis: AnalysisState<A>,
    pub menu: AddBodyMenuState,
    pub recording: RecordingState,
}

/// A change of the view or of time.
#[derive(Clone, Copy, PartialEq, Eq, Structural, Debug)]
pub enum ViewEvent {
    TogglePause,
    TrailLength(u32),
    Frame(TrailFrame),
    ShowLagrange(bool),
    ShowStars(bool),
    StandOn(CameraEndpoint),
    LookAt(CameraEndpoint),
    Up(CameraUp),
    Perspective(bool),
    Origin(CameraOrigin),
    OriginValue(Scalar),
    OpenMain,
    CloseMain,
    OpenOptimizers,
    CloseOptimizers,
}

/// A button of the panel.
pub enum PanelEvent<A> {
    View(ViewEvent),
    Faster,
    Slower,
    Reset,
    /// To go to an epoch, given by a phase between perigees.
    GoTo(UtcInstant),
    ClearBodies,
    Snap,
    ToggleRecording,
    SelectEntry(usize),
    AddBodies,
    SelectBody(usize),
    ReferTo(AnalysisRef),
    Display(OrbitalDisplay),
    /// What a search through the trail of the selected body has found.
    FoundInTrail(Option<A>),
    /// The body with the closest approach of all, and that approach.
    FoundBest(Option<(usize, A)>),
}

/// What is left to do after an event.
pub enum PanelAction {
    Nothing,
    ShowMarkers(bool),
    ShowStars(bool),
    OpenAddBodyMenu,
    /// To take the bodies out of the scene.
    RemoveBodies,
    /// To save a picture under a name.
    Screenshot(String),
    RecordingStarted,
    /// To encode what was recorded, if anything was.
    RecordingStopped(Option<RecordingJob>),
    /// To add the bodies of an entry.
    Add(AddBodyEntry),
}

/// What the panel shows and offers.
#[derive(Clone, Copy, PartialEq, Eq, Structural, Debug)]
pub struct PanelOffers {
    /// A tab to open the main panel.
    pub main_tab: bool,
    /// A tab to open the panel of the optimizers.
    pub optimizers_tab: bool,
    pub reset: bool,
    pub clear_bodies: bool,
    pub perigee: bool,
    pub origin: bool,
    pub fan: bool,
    pub lunar: bool,
    pub analysis: bool,
}

impl SimulationState {
    /// The state after a change of the view or of time.
    pub open spec fn viewed(self, e: ViewEvent) -> SimulationState {
        match e {
            ViewEvent::TogglePause => SimulationState { paused: !self.paused, ..self },
            ViewEvent::TrailLength(s) => SimulationState { trail_duration: s, ..self },
            ViewEvent::Frame(frame) => SimulationState { trail_frame: frame, ..self },
            ViewEvent::ShowLagrange(on) => SimulationState { show_lagrange: on, ..self },
            ViewEvent::ShowStars(on) => SimulationState { show_stars: on, ..self },
            ViewEvent::StandOn(p) => SimulationState {
                camera: CameraAim {
                    from: p,
                    to: if p is Free && self.camera.to is Free {
                        CameraEndpoint::Earth
                    } else {
                        self.camera.to
                    },
                },
                ..self
            },
            ViewEvent::LookAt(p) => SimulationState {
                camera: CameraAim {
                    to: p,
                    from: if p is Free && self.camera.from is Free {
                        CameraEndpoint::Earth
                    } else {
                        self.camera.from
                    },
                },
                ..self
            },
            ViewEvent::Up(up) => SimulationState { camera_up: up, ..self },
            ViewEvent::Perspective(on) => SimulationState { perspective: on, ..self },
            ViewEvent::Origin(origin) => SimulationState { camera_origin: origin, ..self },
            ViewEvent::OriginValue(v) => SimulationState { camera_origin_value: v, ..self },
            ViewEvent::OpenMain => SimulationState { main_panel_open: true, ..self },
            ViewEvent::CloseMain => SimulationState { main_panel_open: false, ..self },
            ViewEvent::OpenOptimizers => SimulationState { opt_panel_open: true, ..self },
            ViewEvent::CloseOptimizers => SimulationState { opt_panel_open: false, ..self },
        }
    }

    /// Takes a change of the view or of time.
    pub fn view_event(&mut self, e: ViewEvent)
        requires
            old(self).wf(),
        ensures
            final(self).wf(),
            *final(self) == old(self).viewed(e),
            final(self).epoch == old(self).epoch && final(self).speed == old(self).speed,
    {
        match e {
            ViewEvent::TogglePause => {
                self.paused = !self.paused;
            },
            ViewEvent::TrailLength(s) => {
                self.trail_duration = s;
            },
            ViewEvent::Frame(frame) => {
                self.trail_frame = frame;
            },
            ViewEvent::ShowLagrange(on) => {
                self.show_lagrange = on;
            },
            ViewEvent::ShowStars(on) => {
                self.show_stars = on;
            },
            ViewEvent::StandOn(p) => {
                self.camera = self.camera.stand_on(p);
            },
            ViewEvent::LookAt(p) => {
                self.camera = self.camera.look_at(p);
            },
            ViewEvent::Up(up) => {
                self.camera_up = up;
            },
            ViewEvent::Perspective(on) => {
                self.perspective = on;
            },
            ViewEvent::Origin(origin) => {
                self.camera_origin = origin;
            },
            ViewEvent::OriginValue(v) => {
                self.camera_origin_value = v;
            },
            ViewEvent::OpenMain => {
                self.main_panel_open = true;
            },
            ViewEvent::CloseMain => {
                self.main_panel_open = false;
            },
            ViewEvent::OpenOptimizers => {
                self.opt_panel_open = true;
            },
            ViewEvent::CloseOptimizers => {
                self.opt_panel_open = false;
            },
        }
    }
}

impl<C, S, A> Session<C, S, A> {
    pub open spec fn wf(self) -> bool {
        &&& self.sim.wf()
        &&& self.trails.wf()
        &&& self.recording.wf()
        &&& self.recording.max_frames > 0
        &&& self.menu.selected < ENTRY_COUNT
    }

    /// Whether the panel offers a button, so that an event can come from it.
    pub open spec fn accepts(self, e: PanelEvent<A>) -> bool {
        match e {
            PanelEvent::Reset => self.bodies.bodies@.len() == 0,
            PanelEvent::GoTo(_) => self.bodies.bodies@.len() == 0,
            PanelEvent::ClearBodies => self.bodies.bodies@.len() > 0,
            PanelEvent::Snap => self.recording.screenshot_counter < u32::MAX,
            PanelEvent::SelectEntry(place) => place < ENTRY_COUNT,
            PanelEvent::SelectBody(body) => body < self.bodies.bodies@.len(),
            PanelEvent::FoundBest(Some(best)) => best.0 < self.bodies.bodies@.len(),
            _ => true,
        }
    }

    /// Whether the panel offers a button, so that an event can come from it.
    pub fn is_accepted(&self, e: &PanelEvent<A>) -> (r: bool)
        ensures
            r == self.accepts(*e),
    {
        let n: usize = self.bodies.bodies.len();
        match e {
            PanelEvent::Reset => n == 0,
            PanelEvent::GoTo(_) => n == 0,
            PanelEvent::ClearBodies => n > 0,
            PanelEvent::Snap => self.recording.screenshot_counter < u32::MAX,
            PanelEvent::SelectEntry(place) => *place < ENTRY_COUNT,
            PanelEvent::SelectBody(body) => *body < n,
            PanelEvent::FoundBest(Some(best)) => best.0 < n,
            _ => true,
        }
    }

    /// Whether nothing but what the panel of the simulation shows has changed.
    pub open spec fn differs_in_sim_from(self, other: Self) -> bool {
        &&& self.initial_epoch == other.initial_epoch
        &&& self.bodies == other.bodies
        &&& self.trails == other.trails
        &&& self.analysis == other.analysis
        &&& self.menu == other.menu
        &&& self.recording == other.recording
    }

    /// Whether nothing but the recorder has changed.
    pub open spec fn differs_in_recording_from(self, other: Self) -> bool {
        &&& self.sim == other.sim
        &&& self.initial_epoch == other.initial_epoch
        &&& self.bodies == other.bodies
        &&& self.trails == other.trails
        &&& self.analysis == other.analysis
        &&& self.menu == other.menu
    }

    /// Whether nothing but the analysis has changed.
    pub open spec fn differs_in_analysis_from(self, other: Self) -> bool {
        &&& self.sim == other.sim
        &&& self.initial_epoch == other.initial_epoch
        &&& self.bodies == other.bodies
        &&& self.trails == other.trails
        &&& self.menu == other.menu
        &&& self.recording == other.recording
    }

    /// A session that starts at an epoch.
    pub fn new(epoch: UtcInstant) -> (r: Self)
        ensures
            r.wf(),
            r.sim == SimulationState::start(epoch),
            r.initial_epoch == epoch,
            r.bodies.bodies@.len() == 0,
            r.trails.earth@.len() == 0 && r.trails.moon@.len() == 0,
            r.analysis == (AnalysisState::<A> {
                selected_body: None,
                reference: AnalysisRef::Earth,
                display: OrbitalDisplay::Keplerian,
                closest_approach: None,
            }),
            r.menu == (AddBodyMenuState {
                selected: 0,
                fan_count: 36,
                fan_speed_m_s: 2335,
                lunar_az_deg: 150,
                lunar_el_deg: 0,
            }),
            !r.recording.recording && r.recording.frames@.len() == 0,
            r.recording.frame_counter == 0 && r.recording.screenshot_counter == 0,
            r.recording.frame_skip == 6 && r.recording.max_frames == 3000,
            r.recording.gif_width == 0 && r.recording.gif_height == 0,
    {
        Session {
            sim: SimulationState::at_start(epoch),
            initial_epoch: epoch,
            bodies: UserBodies::new(),
            trails: BodyTrails::new(),
            analysis: AnalysisState::new(),
            menu: AddBodyMenuState::default(),
            recording: RecordingState::new(),
        }
    }

    /// What the panel shows and offers, with so many perigees known.
    pub fn offers(&self, perigees: usize) -> (r: PanelOffers)
        requires
            self.wf(),
        ensures
            r.main_tab == !self.sim.main_panel_open,
            r.optimizers_tab == !self.sim.opt_panel_open,
            r.reset == (self.bodies.bodies@.len() == 0),
            r.clear_bodies == (self.bodies.bodies@.len() > 0),
            r.perigee == (self.bodies.bodies@.len() == 0 && perigees > 0),
            r.origin == !self.sim.camera.orbits(),
            r.fan == (entry_at(self.menu.selected as int) is LagrangeFan || entry_at(
                self.menu.selected as int,
            ) is LunarFan),
            r.lunar == entry_at(self.menu.selected as int) is LunarFan,
            r.analysis == (self.bodies.bodies@.len() > 0),
    {
        let empty: bool = self.bodies.bodies.len() == 0;
        let entry: AddBodyEntry = self.menu.entry();
        PanelOffers {
            main_tab: !self.sim.main_panel_open,
            optimizers_tab: !self.sim.opt_panel_open,
            reset: empty,
            clear_bodies: !empty,
            perigee: empty && perigees > 0,
            origin: !self.sim.camera.is_orbit(),
            fan: entry.has_fan_config(),
            lunar: entry.has_lunar_config(),
            analysis: !empty,
        }
    }

    /// Takes an event of the panel. With bodies in the simulation none changes
    /// its epoch.
    pub fn panel_event(&mut self, e: PanelEvent<A>) -> (r: PanelAction)
        requires
            old(self).wf(),
            old(self).accepts(e),
        ensures
            final(self).wf(),
            old(self).bodies.bodies@.len() > 0 ==> final(self).sim.epoch == old(self).sim.epoch,
            match e {
                PanelEvent::View(v) => final(self).differs_in_sim_from(*old(self))
                    && final(self).sim == old(self).sim.viewed(v) && r == (match v {
                    ViewEvent::ShowLagrange(on) => PanelAction::ShowMarkers(on),
                    _ => PanelAction::Nothing,
                }),
                PanelEvent::Faster => final(self).differs_in_sim_from(*old(self)) && r is Nothing
                    && final(self).sim == (SimulationState {
                    speed: final(self).sim.speed,
                    ..old(self).sim
                }) && is_doubled(old(self).sim.speed, final(self).sim.speed),
                PanelEvent::Slower => final(self).differs_in_sim_from(*old(self)) && r is Nothing
                    && final(self).sim == (SimulationState {
                    speed: final(self).sim.speed,
                    ..old(self).sim
                }) && is_halved(old(self).sim.speed, final(self).sim.speed),
                PanelEvent::Reset => final(self).differs_in_sim_from(*old(self)) && r is Nothing
                    && final(self).sim == SimulationState::start(old(self).initial_epoch),
                PanelEvent::GoTo(epoch) => final(self).differs_in_sim_from(*old(self))
                    && r is Nothing && final(self).sim == (SimulationState {
                    epoch,
                    ..old(self).sim
                }),
                PanelEvent::ClearBodies => {
                    &&& r is RemoveBodies
                    &&& final(self).bodies.bodies@.len() == 0
                    &&& final(self).trails.earth@.len() == 0
                    &&& final(self).trails.moon@.len() == 0
                    &&& final(self).analysis == (AnalysisState {
                        selected_body: None,
                        closest_approach: None,
                        ..old(self).analysis
                    })
                    &&& final(self).sim == old(self).sim
                    &&& final(self).initial_epoch == old(self).initial_epoch
                    &&& final(self).menu == old(self).menu
                    &&& final(self).recording == old(self).recording
                },
                PanelEvent::Snap => {
                    &&& final(self).differs_in_recording_from(*old(self))
                    &&& final(self).recording == (RecordingState {
                        screenshot_counter: (old(self).recording.screenshot_counter + 1) as u32,
                        ..old(self).recording
                    })
                    &&& r matches PanelAction::Screenshot(name) && name@ == "screenshot_"@ + decimal(
                        old(self).recording.screenshot_counter as nat,
                    ) + ".png"@
                },
                PanelEvent::ToggleRecording => {
                    &&& final(self).differs_in_recording_from(*old(self))
                    &&& toggles(old(self).recording, final(self).recording, r)
                },
                PanelEvent::SelectEntry(place) => {
                    &&& r is Nothing
                    &&& final(self).menu == (AddBodyMenuState {
                        selected: place,
                        fan_speed_m_s: final(self).menu.fan_speed_m_s,
                        ..old(self).menu
                    })
                    &&& final(self).menu.fan_speed_m_s == (match entry_at(place as int) {
                        AddBodyEntry::LagrangeFan(_) => 100int,
                        AddBodyEntry::LunarFan => 2335,
                        _ => 0,
                    })
                    &&& final(self).sim == old(self).sim
                    &&& final(self).initial_epoch == old(self).initial_epoch
                    &&& final(self).bodies == old(self).bodies
                    &&& final(self).trails == old(self).trails
                    &&& final(self).analysis == old(self).analysis
                    &&& final(self).recording == old(self).recording
                },
                PanelEvent::AddBodies => *final(self) == *old(self) && r == PanelAction::Add(
                    entry_at(old(self).menu.selected as int),
                ),
                PanelEvent::SelectBody(body) => final(self).differs_in_analysis_from(*old(self))
                    && r is Nothing && final(self).analysis == (AnalysisState {
                    selected_body: Some(body),
                    closest_approach: if old(self).analysis.selected_body == Some(body) {
                        old(self).analysis.closest_approach
                    } else {
                        None
                    },
                    ..old(self).analysis
                }),
                PanelEvent::ReferTo(reference) => final(self).differs_in_analysis_from(*old(self))
                    && r is Nothing && final(self).analysis == (AnalysisState {
                    reference,
                    closest_approach: if reference == old(self).analysis.reference {
                        old(self).analysis.closest_approach
                    } else {
                        None
                    },
                    ..old(self).analysis
                }),
                PanelEvent::Display(display) => final(self).differs_in_analysis_from(*old(self))
                    && r is Nothing && final(self).analysis == (AnalysisState {
                    display,
                    ..old(self).analysis
                }),
                PanelEvent::FoundInTrail(approach) => final(self).differs_in_analysis_from(
                    *old(self),
                ) && r is Nothing && final(self).analysis == (AnalysisState {
                    closest_approach: approach,
                    ..old(self).analysis
                }),
                PanelEvent::FoundBest(best) => final(self).differs_in_analysis_from(*old(self))
                    && r is Nothing && final(self).analysis == (match best {
                    Some(b) => AnalysisState {
                        selected_body: Some(b.0),
                        closest_approach: Some(b.1),
                        ..old(self).analysis
                    },
                    None => old(self).analysis,
                }),
            },
    {
        match e {
            PanelEvent::View(v) => {
                self.sim.view_event(v);
                match v {
                    ViewEvent::ShowLagrange(on) => {
                        return PanelAction::ShowMarkers(on);
                    },
                    _ => {},
                }
            },
            PanelEvent::Faster => {
                self.sim.faster();
            },
            PanelEvent::Slower => {
                self.sim.slower();
            },
            PanelEvent::Reset => {
                self.sim.reset(self.initial_epoch);
            },
            PanelEvent::GoTo(epoch) => {
                self.sim.epoch = epoch;
            },
            PanelEvent::ClearBodies => {
                self.bodies.bodies.clear();
                self.trails.clear();
                self.analysis.forget();
                return PanelAction::RemoveBodies;
            },
            PanelEvent::Snap => {
                return PanelAction::Screenshot(self.recording.next_screenshot());
            },
            PanelEvent::ToggleRecording => {
                return self.toggle_recording();
            },
            PanelEvent::SelectEntry(place) => {
                self.menu.select(place);
            },
            PanelEvent::AddBodies => {
                return PanelAction::Add(self.menu.entry());
            },
            PanelEvent::SelectBody(body) => {
                self.analysis.select(body);
            },
            PanelEvent::ReferTo(reference) => {
                self.analysis.refer_to(reference);
            },
            PanelEvent::Display(display) => {
                self.analysis.display = display;
            },
            PanelEvent::FoundInTrail(approach) => {
                self.analysis.found(approach);
            },
            PanelEvent::FoundBest(best) => {
                self.analysis.found_best(best);
            },
        }
        PanelAction::Nothing
    }

    /// Starts a recording, or stops it and hands over what was recorded.
    fn toggle_recording(&mut self) -> (r: PanelAction)
        requires
            old(self).wf(),
        ensures
            final(self).wf(),
            final(self).differs_in_recording_from(*old(self)),
            toggles(old(self).recording, final(self).recording, r),
    {
        match self.recording.toggle() {
            Toggled::Started => PanelAction::RecordingStarted,
            Toggled::Stopped(job) => PanelAction::RecordingStopped(job),
        }
    }

    /// Takes a key. With bodies in the simulation none changes its epoch.
    pub fn key_pressed(&mut self, key: &str) -> (r: PanelAction)
        requires
            old(self).wf(),
            old(self).sim.key_action(key@) is Screenshot
                ==> old(self).recording.screenshot_counter < u32::MAX,
        ensures
            final(self).wf(),
            old(self).bodies.bodies@.len() > 0 ==> final(self).sim.epoch == old(self).sim.epoch,
            final(self).initial_epoch == old(self).initial_epoch,
            final(self).bodies == old(self).bodies,
            final(self).trails == old(self).trails,
            final(self).analysis == old(self).analysis,
            final(self).menu == old(self).menu,
            old(self).sim.presses_to(
                final(self).sim,
                key@,
                old(self).bodies.bodies@.len() as int,
                old(self).initial_epoch,
            ),
            match old(self).sim.key_action(key@) {
                KeyAction::Nothing => r is Nothing && final(self).recording == old(self).recording,
                KeyAction::ShowMarkers(on) => r == PanelAction::ShowMarkers(on)
                    && final(self).recording == old(self).recording,
                KeyAction::ShowStars(on) => r == PanelAction::ShowStars(on)
                    && final(self).recording == old(self).recording,
                KeyAction::OpenAddBodyMenu => r is OpenAddBodyMenu && final(self).recording == old(
                    self,
                ).recording,
                KeyAction::ToggleRecording => toggles(
                    old(self).recording,
                    final(self).recording,
                    r,
                ),
                KeyAction::Screenshot => {
                    &&& final(self).recording == (RecordingState {
                        screenshot_counter: (old(self).recording.screenshot_counter + 1) as u32,
                        ..old(self).recording
                    })
                    &&& r matches PanelAction::Screenshot(name) && name@ == "screenshot_"@ + decimal(
                        old(self).recording.screenshot_counter as nat,
                    ) + ".png"@
                },
            },
    {
        let satellites: usize = self.bodies.bodies.len();
        match self.sim.key_pressed(key, satellites, self.initial_epoch) {
            KeyAction::Nothing => PanelAction::Nothing,
            KeyAction::ShowMarkers(on) => PanelAction::ShowMarkers(on),
            KeyAction::ShowStars(on) => PanelAction::ShowStars(on),
            KeyAction::OpenAddBodyMenu => PanelAction::OpenAddBodyMenu,
            KeyAction::ToggleRecording => self.toggle_recording(),
            KeyAction::Screenshot => PanelAction::Screenshot(self.recording.next_screenshot()),
        }
    }

    /// Sees to it that a body is selected, as long as there is one: the first
    /// where none is, the last where the selection is beyond them.
    pub fn settle_selection(&mut self)
        requires
            old(self).wf(),
        ensures
            final(self).wf(),
            final(self).differs_in_analysis_from(*old(self)),
            old(self).bodies.bodies@.len() == 0 ==> final(self).analysis == old(self).analysis,
            old(self).bodies.bodies@.len() > 0 ==> final(self).analysis == (AnalysisState {
                selected_body: match old(self).analysis.selected_body {
                    None => Some(0),
                    Some(i) => if i < old(self).bodies.bodies@.len() {
                        Some(i)
                    } else {
                        Some((old(self).bodies.bodies@.len() - 1) as usize)
                    },
                },
                ..old(self).analysis
            }),
    {
        let n: usize = self.bodies.bodies.len();
        if n > 0 {
            self.analysis.settle(n);
        }
    }

    /// Whether nothing but the bodies and the trails has changed.
    pub open spec fn differs_in_motion_from(self, other: Self) -> bool {
        &&& self.sim == other.sim
        &&& self.initial_epoch == other.initial_epoch
        &&& self.analysis == other.analysis
        &&& self.menu == other.menu
        &&& self.recording == other.recording
    }

    /// Whether coming to the epoch of the simulation leads to another session: if
    /// time went back, all trails are dropped. Earth and Moon are wanted where the
    /// epoch is later than all that is recorded.
    pub open spec fn arrives_to(self, after: Self, wanted: bool) -> bool {
        &&& after.differs_in_motion_from(self)
        &&& after.bodies.bodies@.len() == self.bodies.bodies@.len()
        &&& wanted == after.trails.is_behind(self.sim.epoch)
        &&& if self.trails.is_ahead_of(self.sim.epoch) {
            &&& after.trails.earth@.len() == 0
            &&& after.trails.moon@.len() == 0
            &&& forall|i: int|
                0 <= i < after.bodies.bodies@.len() ==> (
                #[trigger] after.bodies.bodies@[i]).is_without_trail(self.bodies.bodies@[i])
        } else {
            &&& after.trails == self.trails
            &&& after.bodies == self.bodies
        }
    }

    /// Whether recording Earth and Moon leads to another session.
    pub open spec fn records_to(self, after: Self, earth: S, moon: Option<S>) -> bool {
        &&& after.differs_in_motion_from(self)
        &&& after.bodies == self.bodies
        &&& self.trails.records_to(after.trails, self.sim.epoch, earth, moon)
    }

    /// Whether propagations lead to another session: each body goes on, unless
    /// time stands still.
    pub open spec fn moves_to(self, after: Self, found: Seq<Option<Moved<C, S>>>) -> bool {
        &&& after.differs_in_motion_from(self)
        &&& after.trails == self.trails
        &&& after.bodies.bodies@.len() == self.bodies.bodies@.len()
        &&& if self.sim.paused {
            after.bodies == self.bodies
        } else {
            forall|i: int|
                0 <= i < after.bodies.bodies@.len() ==> self.bodies.bodies@[i].goes_on_to(
                    #[trigger] after.bodies.bodies@[i],
                    found[i],
                )
        }
    }

    /// Time has come to the epoch of the simulation. If it went back, all trails
    /// are dropped; tells whether Earth and Moon are to be recorded.
    pub fn arrive(&mut self) -> (r: bool)
        requires
            old(self).wf(),
        ensures
            final(self).wf(),
            old(self).arrives_to(*final(self), r),
    {
        let epoch: UtcInstant = self.sim.epoch;
        if self.trails.rewind(epoch) {
            self.bodies.clear_trails();
        }
        self.trails.wants(epoch)
    }

    /// Records Earth and, where it is known, the Moon at the epoch of the
    /// simulation.
    pub fn record_motion(&mut self, earth: S, moon: Option<S>)
        requires
            old(self).wf(),
            old(self).trails.is_behind(old(self).sim.epoch),
        ensures
            final(self).wf(),
            old(self).records_to(*final(self), earth, moon),
    {
        self.trails.record(self.sim.epoch, earth, moon);
    }

    /// Whether the bodies are to be propagated: time does not stand still.
    pub fn bodies_move(&self) -> (r: bool)
        ensures
            r == !self.sim.paused,
    {
        !self.sim.paused
    }

    /// Takes the bodies on to where propagations have brought them. While time
    /// stands still they stay as they are.
    pub fn move_bodies(&mut self, found: Vec<Option<Moved<C, S>>>)
        requires
            old(self).wf(),
            !old(self).sim.paused ==> old(self).bodies.can_take(found@),
        ensures
            final(self).wf(),
            old(self).moves_to(*final(self), found@),
    {
        if self.bodies_move() {
            self.bodies.take_on(found);
        }
    }
}

/// The points that the trail of a body gets when its propagation has found
/// something: none while time stands still.
pub open spec fn new_points<C, S>(paused: bool, found: Option<Moved<C, S>>) -> Seq<TrailPoint<S>> {
    match found {
        Some(m) => if paused {
            Seq::empty()
        } else {
            seq![TrailPoint { epoch: m.epoch, state: m.state }]
        },
        None => Seq::empty(),
    }
}

/// Whenever time has come to an epoch and the Moon is known, the trail of the Moon
/// goes forward in time and ends there. If time went back, it and the trail of
/// Earth hold that one point, and of the trail of a body none of the points is
/// left; else all points stay. While time stands still no craft changes, and no
/// trail of a body gets a point.
pub proof fn lemma_trails_end_at_the_epoch<C, S, A>(
    before: Session<C, S, A>,
    arrived: Session<C, S, A>,
    recorded: Session<C, S, A>,
    after: Session<C, S, A>,
    wanted: bool,
    earth: S,
    moon: S,
    found: Seq<Option<Moved<C, S>>>,
)
    requires
        before.wf(),
        before.arrives_to(arrived, wanted),
        wanted ==> arrived.records_to(recorded, earth, Some(moon)) && recorded.wf(),
        !wanted ==> recorded == arrived,
        recorded.moves_to(after, found),
    ensures
        strictly_in_time_order(epochs(after.trails.moon@)),
        after.trails.moon@.len() > 0,
        after.trails.moon@.last().epoch == before.sim.epoch,
        before.trails.is_ahead_of(before.sim.epoch) ==> {
            &&& after.trails.earth@ == seq![TrailPoint { epoch: before.sim.epoch, state: earth }]
            &&& after.trails.moon@ == seq![TrailPoint { epoch: before.sim.epoch, state: moon }]
            &&& forall|i: int|
                0 <= i < after.bodies.bodies@.len() ==> (
                #[trigger] after.bodies.bodies@[i]).trail@ == new_points(before.sim.paused, found[i])
        },
        !before.trails.is_ahead_of(before.sim.epoch) ==> {
            &&& before.trails.earth@.is_prefix_of(after.trails.earth@)
            &&& before.trails.moon@.is_prefix_of(after.trails.moon@)
            &&& forall|i: int|
                0 <= i < after.bodies.bodies@.len() ==> (
                #[trigger] after.bodies.bodies@[i]).trail@ == before.bodies.bodies@[i].trail@
                    + new_points(before.sim.paused, found[i])
        },
        before.sim.paused ==> forall|i: int|
            0 <= i < after.bodies.bodies@.len() ==> (#[trigger] after.bodies.bodies@[i]).craft
                == before.bodies.bodies@[i].craft,
{
    assert forall|i: int| 0 <= i < after.bodies.bodies@.len() implies (
    #[trigger] after.bodies.bodies@[i]).trail@ == arrived.bodies.bodies@[i].trail@ + new_points(
        before.sim.paused,
        found[i],
    ) && (before.sim.paused ==> after.bodies.bodies@[i].craft
        == before.bodies.bodies@[i].craft) by {
        assert(recorded.bodies.bodies@[i] == arrived.bodies.bodies@[i]);
    }
    if before.trails.is_ahead_of(before.sim.epoch) {
        assert forall|i: int| 0 <= i < after.bodies.bodies@.len() implies (
        #[trigger] after.bodies.bodies@[i]).trail@ == new_points(before.sim.paused, found[i]) by {
            assert(arrived.bodies.bodies@[i].is_without_trail(before.bodies.bodies@[i]));
        }
    }
}

/// Coming to an epoch and recording Earth and Moon change no craft: only
/// propagations do.
pub proof fn lemma_only_propagations_change_a_craft<C, S, A>(
    before: Session<C, S, A>,
    arrived: Session<C, S, A>,
    recorded: Session<C, S, A>,
    wanted: bool,
    earth: S,
    moon: Option<S>,
    i: int,
)
    requires
        before.arrives_to(arrived, wanted),
        arrived.records_to(recorded, earth, moon),
        0 <= i < before.bodies.bodies@.len(),
    ensures
        arrived.bodies.bodies@[i].craft == before.bodies.bodies@[i].craft,
        recorded.bodies.bodies@[i].craft == before.bodies.bodies@[i].craft,
        recorded.bodies.bodies@[i].trail@.len() <= before.bodies.bodies@[i].trail@.len(),
{
    assert(arrived.bodies.bodies@[i] == recorded.bodies.bodies@[i]);
}

/// Whether an action tells how toggling has changed the recorder.
pub open spec fn toggles(before: RecordingState, after: RecordingState, r: PanelAction) -> bool {
    match r {
        PanelAction::RecordingStarted => before.toggles_to(after, Toggled::Started),
        PanelAction::RecordingStopped(job) => before.toggles_to(after, Toggled::Stopped(job)),
        _ => false,
    }
}

/// The caption of the button that stops time or lets it run.
pub fn pause_hint(paused: bool) -> (r: &'static str)
    ensures
        r@ == (if paused {
            "Play (P)"@
        } else {
            "Pause (P)"@
        }),
{
    if paused {
        "Play (P)"
    } else {
        "Pause (P)"
    }
}

/// The caption of the button that resets time.
pub fn reset_hint(has_bodies: bool) -> (r: &'static str)
    ensures
        r@ == (if has_bodies {
            "Clear bodies first"@
        } else {
            "Reset (R)"@
        }),
{
    if has_bodies {
        "Clear bodies first"
    } else {
        "Reset (R)"
    }
}

/// What each change of the view or of time does, and that it does nothing else. Where
/// both ends of the view would be free, the other one goes to Earth.
pub proof fn lemma_what_views_do(before: SimulationState, e: ViewEvent)
    ensures
        ({
            let after = before.viewed(e);
            match e {
                ViewEvent::TogglePause => after == (SimulationState {
                    paused: !before.paused,
                    ..before
                }),
                ViewEvent::TrailLength(s) => after.trail_duration == s && before
                    == (SimulationState { trail_duration: before.trail_duration, ..after }),
                ViewEvent::Frame(frame) => after.trail_frame == frame && before
                    == (SimulationState { trail_frame: before.trail_frame, ..after }),
                ViewEvent::ShowLagrange(on) => after.show_lagrange == on && before
                    == (SimulationState { show_lagrange: before.show_lagrange, ..after }),
                ViewEvent::ShowStars(on) => after.show_stars == on && before == (SimulationState {
                    show_stars: before.show_stars,
                    ..after
                }),
                ViewEvent::StandOn(p) => after.camera.from == p && (p is Free
                    && before.camera.to is Free ==> after.camera.to is Earth) && (!(p is Free
                    && before.camera.to is Free) ==> after.camera.to == before.camera.to) && before
                    == (SimulationState { camera: before.camera, ..after }),
                ViewEvent::LookAt(p) => after.camera.to == p && (p is Free
                    && before.camera.from is Free ==> after.camera.from is Earth) && (!(p is Free
                    && before.camera.from is Free) ==> after.camera.from == before.camera.from)
                    && before == (SimulationState { camera: before.camera, ..after }),
                ViewEvent::Up(up) => after.camera_up == up && before == (SimulationState {
                    camera_up: before.camera_up,
                    ..after
                }),
                ViewEvent::Perspective(on) => after.perspective == on && before
                    == (SimulationState { perspective: before.perspective, ..after }),
                ViewEvent::Origin(origin) => after.camera_origin == origin && before
                    == (SimulationState { camera_origin: before.camera_origin, ..after }),
                ViewEvent::OriginValue(v) => after.camera_origin_value == v && before
                    == (SimulationState {
                    camera_origin_value: before.camera_origin_value,
                    ..after
                }),
                ViewEvent::OpenMain => after.main_panel_open && before == (SimulationState {
                    main_panel_open: before.main_panel_open,
                    ..after
                }),
                ViewEvent::CloseMain => !after.main_panel_open && before == (SimulationState {
                    main_panel_open: before.main_panel_open,
                    ..after
                }),
                ViewEvent::OpenOptimizers => after.opt_panel_open && before == (SimulationState {
                    opt_panel_open: before.opt_panel_open,
                    ..after
                }),
                ViewEvent::CloseOptimizers => !after.opt_panel_open && before == (SimulationState {
                    opt_panel_open: before.opt_panel_open,
                    ..after
                }),
            }
        }),
{
}

/// The panel offers to go to another epoch only without bodies, to clear bodies only
/// with some, to select what is there, and all else at any time but for a picture
/// that no number is left for.
pub proof fn lemma_what_the_panel_accepts<C, S, A>(s: Session<C, S, A>, e: PanelEvent<A>)
    ensures
        s.accepts(e) <==> {
            &&& e is Reset || e is GoTo ==> s.bodies.bodies@.len() == 0
            &&& e is ClearBodies ==> s.bodies.bodies@.len() > 0
            &&& e is Snap ==> s.recording.screenshot_counter < 0xFFFF_FFFF
            &&& e matches PanelEvent::SelectEntry(place) ==> place < 17
            &&& e matches PanelEvent::SelectBody(body) ==> body < s.bodies.bodies@.len()
            &&& e matches PanelEvent::FoundBest(best) ==> best is Some ==> (best->0).0
                < s.bodies.bodies@.len()
        },
{
}

/// What is said to differ in one part only is the same in every other part.
pub proof fn lemma_parts_of_a_session<C, S, A>(a: Session<C, S, A>, b: Session<C, S, A>)
    ensures
        a.differs_in_sim_from(b) <==> b == (Session { sim: b.sim, ..a }),
        a.differs_in_recording_from(b) <==> b == (Session { recording: b.recording, ..a }),
        a.differs_in_analysis_from(b) <==> b == (Session { analysis: b.analysis, ..a }),
        a.differs_in_motion_from(b) <==> b == (Session { bodies: b.bodies, trails: b.trails, ..a }),
{
}

/// Time that has come to an epoch drops all trails just if the last point of the Moon
/// is later than it, and asks for Earth and Moon where the epoch is later than what
/// is then there. Propagations move a body unless time stands still.
pub proof fn lemma_trails_are_dropped_when_time_goes_back<C, S, A>(
    before: Session<C, S, A>,
    arrived: Session<C, S, A>,
    after: Session<C, S, A>,
    wanted: bool,
    found: Seq<Option<Moved<C, S>>>,
    i: int,
)
    requires
        before.arrives_to(arrived, wanted),
        arrived.moves_to(after, found),
        0 <= i < before.bodies.bodies@.len(),
    ensures
        ({
            let moon = before.trails.moon@;
            let now = before.sim.epoch.utc_nanos;
            let back = moon.len() > 0 && moon.last().epoch.utc_nanos > now;
            &&& arrived.sim == before.sim && arrived.analysis == before.analysis
            &&& arrived.bodies.bodies@.len() == before.bodies.bodies@.len()
            &&& back ==> arrived.trails.moon@.len() == 0 && arrived.trails.earth@.len() == 0
                && arrived.bodies.bodies@[i].trail@.len() == 0
            &&& !back ==> arrived == before
            &&& arrived.bodies.bodies@[i].craft == before.bodies.bodies@[i].craft
            &&& arrived.bodies.bodies@[i].name == before.bodies.bodies@[i].name
            &&& wanted <==> back || moon.len() == 0 || moon.last().epoch.utc_nanos < now
        }),
        before.sim.paused ==> after.bodies == arrived.bodies,
        !before.sim.paused && found[i] is Some ==> after.bodies.bodies@[i].craft == Some(
            found[i]->0.craft,
        ) && after.bodies.bodies@[i].trail@.len() == arrived.bodies.bodies@[i].trail@.len() + 1
            && after.bodies.bodies@[i].trail@.last().epoch == found[i]->0.epoch
            && after.bodies.bodies@[i].trail@.last().state == found[i]->0.state,
        !before.sim.paused && found[i] is None ==> after.bodies.bodies@[i]
            == arrived.bodies.bodies@[i],
        after.trails == arrived.trails && after.sim == arrived.sim,
{
    if before.trails.is_ahead_of(before.sim.epoch) {
        assert(arrived.bodies.bodies@[i].is_without_trail(before.bodies.bodies@[i]));
    }
    if !before.sim.paused {
        assert(arrived.bodies.bodies@[i].goes_on_to(after.bodies.bodies@[i], found[i]));
    }
}

/// A recorder is toggled with an action that says so: a recording that was not there
/// has started, or one that was has stopped, with all its frames if it had any.
pub proof fn lemma_toggling_is_told(before: RecordingState, after: RecordingState, r: PanelAction)
    requires
        toggles(before, after, r),
    ensures
        after.recording == !before.recording,
        after.frames@.len() == 0,
        r is RecordingStarted <==> !before.recording,
        r is RecordingStopped <==> before.recording,
        r matches PanelAction::RecordingStopped(job) ==> (job is Some <==> before.frames@.len() > 0)
            && (job matches Some(j) ==> j.frames@ == before.frames@),
{
}

} // verus!
