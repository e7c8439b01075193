//! The state of the simulation: time, view and panels, and the keys that change it.

use crate::camera::{cycled, within_halves, CameraAim, CameraEndpoint, CameraOrigin, CameraUp};
use crate::camera::{clamp_distance, clamp_elevation};
use crate::constants::{DAY, HOUR, MINUTE};
use crate::epoch::{default_civil, default_epoch, UtcInstant};
use crate::scalar::{Scalar, INFINITY_BITS};
use crate::text::{decimal, push_decimal};
use crate::trail::TrailFrame;
use vstd::arithmetic::power2::pow2;
use vstd::prelude::*;
use vstd::string::{StrSliceExecFns, StringExecFns};

verus! {

/// Bits of the speed at the start: an hour per second.
pub const START_SPEED_BITS: u64 = 0x40AC_2000_0000_0000;

/// Bits of the distance of the camera at the start, 500.
pub const START_DISTANCE_BITS: u64 = 0x407F_4000_0000_0000;

/// Bits of the elevation of the camera at the start, 1.5: from above.
pub const START_ELEVATION_BITS: u64 = 0x3FF8_0000_0000_0000;

/// The state of the simulation.
#[derive(Clone, Copy, PartialEq, Eq, Structural, Debug)]
pub struct SimulationState {
    pub epoch: UtcInstant,
    /// Simulated seconds per second.
    pub speed: Scalar,
    pub paused: bool,
    pub camera: CameraAim,
    pub camera_up: CameraUp,
    pub camera_distance: Scalar,
    pub camera_azimuth: Scalar,
    pub camera_elevation: Scalar,
    pub camera_origin: CameraOrigin,
    pub camera_origin_value: Scalar,
    pub perspective: bool,
    pub show_lagrange: bool,
    pub show_stars: bool,
    /// How long trails are, in seconds.
    pub trail_duration: u32,
    pub trail_frame: TrailFrame,
    pub main_panel_open: bool,
    pub opt_panel_open: bool,
}

/// What a key asks for beside a change of the state.
#[derive(Clone, Copy, PartialEq, Eq, Structural, Debug)]
pub enum KeyAction {
    Nothing,
    /// To show the markers of the Lagrange points, or to hide them.
    ShowMarkers(bool),
    /// To show the stars, or to hide them.
    ShowStars(bool),
    /// To open the menu of bodies to add.
    OpenAddBodyMenu,
    ToggleRecording,
    Screenshot,
}

/// The lengths of trails to choose from, in seconds.
pub open spec fn trail_lengths() -> Seq<u32> {
    seq![0u32, 3600, 7200, 21_600, 86_400, 172_800, 259_200, 604_800]
}

/// The lengths of trails that the key goes through, in seconds: off, 1, 2 and 6
/// hours, 1, 3 and 7 days.
pub open spec fn key_lengths() -> Seq<u32> {
    seq![0u32, 3600, 7200, 21_600, 86_400, 259_200, 604_800]
}

/// The first length of the key that is longer by more than a second, from a place
/// on, or none at all.
pub open spec fn next_length_from(current: int, place: int) -> u32
    decreases key_lengths().len() - place,
{
    if place >= key_lengths().len() {
        0
    } else if key_lengths()[place] > current + 1 {
        key_lengths()[place]
    } else {
        next_length_from(current, place + 1)
    }
}

/// The length of trails that the key leads to.
pub open spec fn next_length(current: u32) -> u32 {
    next_length_from(current as int, 0)
}

/// The quotient, rounded to the nearest number, and to an even one from half way.
pub open spec fn rounded(n: nat, unit: nat) -> nat {
    let q = n / unit;
    let r = n % unit;
    if 2 * r < unit || (2 * r == unit && q % 2 == 0) {
        q
    } else {
        q + 1
    }
}

/// The length of a trail, in words.
pub open spec fn length_text(seconds: u32) -> Seq<char> {
    if seconds == 0 {
        "OFF"@
    } else if seconds >= DAY {
        decimal(rounded(seconds as nat, DAY as nat)) + "d"@
    } else if seconds >= HOUR {
        decimal(rounded(seconds as nat, HOUR as nat)) + "h"@
    } else {
        decimal(rounded(seconds as nat, MINUTE as nat)) + "m"@
    }
}

/// The quotient, rounded to the nearest number, and to an even one from half way.
fn round_quotient(n: u32, unit: u32) -> (r: u32)
    requires
        2 <= unit <= DAY,
    ensures
        r == rounded(n as nat, unit as nat),
{
    let q: u32 = n / unit;
    let rest: u32 = n % unit;
    assert(q <= n / 2) by (nonlinear_arith)
        requires
            q == n / unit,
            unit >= 2,
    ;
    if 2 * rest < unit || (2 * rest == unit && q % 2 == 0) {
        q
    } else {
        q + 1
    }
}

/// The length of a trail, in words.
pub fn format_trail(seconds: u32) -> (r: String)
    ensures
        r@ == length_text(seconds),
{
    if seconds == 0 {
        return String::from_str("OFF");
    }
    let mut out: String = String::new();
    if seconds >= DAY {
        push_decimal(&mut out, round_quotient(seconds, DAY) as u64);
        out.append("d");
        assert(out@ =~= decimal(rounded(seconds as nat, DAY as nat)) + "d"@);
    } else if seconds >= HOUR {
        push_decimal(&mut out, round_quotient(seconds, HOUR) as u64);
        out.append("h");
        assert(out@ =~= decimal(rounded(seconds as nat, HOUR as nat)) + "h"@);
    } else {
        push_decimal(&mut out, round_quotient(seconds, MINUTE) as u64);
        out.append("m");
        assert(out@ =~= decimal(rounded(seconds as nat, MINUTE as nat)) + "m"@);
    }
    out
}

/// The lengths of trails to choose from, with their names. Each is named as it is
/// shown once chosen.
pub fn trail_options() -> (r: [(u32, &'static str); 8])
    ensures
        forall|i: int|
            0 <= i < 8 ==> (#[trigger] r@[i]).0 == trail_lengths()[i] && r@[i].1@ == length_text(
                trail_lengths()[i],
            ),
{
    proof {
        reveal_strlit("1h");
        reveal_strlit("2h");
        reveal_strlit("6h");
        reveal_strlit("1d");
        reveal_strlit("2d");
        reveal_strlit("3d");
        reveal_strlit("7d");
        reveal_strlit("h");
        reveal_strlit("d");
        assert("1h"@ =~= decimal(1) + "h"@);
        assert("2h"@ =~= decimal(2) + "h"@);
        assert("6h"@ =~= decimal(6) + "h"@);
        assert("1d"@ =~= decimal(1) + "d"@);
        assert("2d"@ =~= decimal(2) + "d"@);
        assert("3d"@ =~= decimal(3) + "d"@);
        assert("7d"@ =~= decimal(7) + "d"@);
    }
    [
        (0, "OFF"),
        (3600, "1h"),
        (7200, "2h"),
        (21_600, "6h"),
        (86_400, "1d"),
        (172_800, "2d"),
        (259_200, "3d"),
        (604_800, "7d"),
    ]
}

/// The length of trails that the key leads to.
pub fn next_trail_length(current: u32) -> (r: u32)
    ensures
        r == next_length(current),
{
    let lengths: [u32; 7] = [0, 3600, 7200, 21_600, 86_400, 259_200, 604_800];
    let mut i: usize = 0;
    while i < 7
        invariant
            i <= 7,
            lengths@ == key_lengths(),
            next_length(current) == next_length_from(current as int, i as int),
        decreases 7 - i,
    {
        if lengths[i] as u64 > current as u64 + 1 {
            return lengths[i];
        }
        i = i + 1;
    }
    0
}

/// From one of the lengths of the key the next one follows, and behind the last
/// one the first. Each of them can be chosen from the list of lengths too.
pub proof fn lemma_trail_lengths_follow(place: int)
    requires
        0 <= place < 7,
    ensures
        next_length(key_lengths()[place]) == key_lengths()[(place + 1) % 7],
        trail_lengths().contains(key_lengths()[place]),
{
    reveal_with_fuel(next_length_from, 8);
    let lengths = key_lengths();
    let all = trail_lengths();
    if place == 0 {
        assert(next_length(lengths[0]) == lengths[1] && all[0] == lengths[0]);
    } else if place == 1 {
        assert(next_length(lengths[1]) == lengths[2] && all[1] == lengths[1]);
    } else if place == 2 {
        assert(next_length(lengths[2]) == lengths[3] && all[2] == lengths[2]);
    } else if place == 3 {
        assert(next_length(lengths[3]) == lengths[4] && all[3] == lengths[3]);
    } else if place == 4 {
        assert(next_length(lengths[4]) == lengths[5] && all[4] == lengths[4]);
    } else if place == 5 {
        assert(next_length(lengths[5]) == lengths[6] && all[6] == lengths[5]);
    } else {
        assert(next_length(lengths[6]) == lengths[0] && all[7] == lengths[6]);
    }
}

/// How the speed is shown.
pub enum SpeedReadout {
    Paused,
    /// In days per second.
    Days,
    /// In hours per second.
    Hours,
    /// As a multiple, in these words.
    Times(String),
}

/// How the speed is shown: in days from one day per second on, in hours from one
/// hour on, else as a multiple without its fraction.
pub fn format_speed(speed: Scalar, paused: bool) -> (r: SpeedReadout)
    requires
        speed.from_one_on() || speed.bits == INFINITY_BITS,
    ensures
        r is Paused <==> paused,
        r is Days <==> !paused && speed.reaches(DAY as int, 0),
        r is Hours <==> !paused && !speed.reaches(DAY as int, 0) && speed.reaches(HOUR as int, 0),
        r matches SpeedReadout::Times(text) ==> exists|n: nat|
            #![trigger decimal(n)]
            n * pow2(1074) <= speed.value() < (n + 1) * pow2(1074) && text@ == decimal(n) + "x"@,
{
    if paused {
        return SpeedReadout::Paused;
    }
    if speed.is_at_least(DAY, 0) {
        return SpeedReadout::Days;
    }
    if speed.is_at_least(HOUR, 0) {
        return SpeedReadout::Hours;
    }
    proof {
        lemma_less_than_an_hour(speed);
    }
    let n: u64 = speed.whole_part();
    let mut out: String = String::new();
    push_decimal(&mut out, n);
    out.append("x");
    assert(out@ =~= decimal(n as nat) + "x"@);
    SpeedReadout::Times(out)
}

proof fn lemma_less_than_an_hour(speed: Scalar)
    requires
        speed.from_one_on() || speed.bits == INFINITY_BITS,
        !speed.reaches(HOUR as int, 0),
    ensures
        speed.bits < START_SPEED_BITS,
        speed.from_one_on(),
{
    lemma_start_values();
    crate::scalar::lemma_magnitude_orders(START_SPEED_BITS as nat, speed.bits as nat);
    vstd::arithmetic::power2::lemma2_to64();
}

/// The bits of the values at the start stand for 3600, 500 and one and a half.
pub proof fn lemma_start_values()
    ensures
        (Scalar { bits: START_SPEED_BITS }).value() == 3600 * pow2(1074),
        (Scalar { bits: START_DISTANCE_BITS }).value() == 500 * pow2(1074),
        (Scalar { bits: START_ELEVATION_BITS }).value() * 2 == 3 * pow2(1074),
        (Scalar { bits: START_SPEED_BITS }).from_one_on(),
        !(Scalar { bits: START_DISTANCE_BITS }).is_nan(),
        !(Scalar { bits: START_ELEVATION_BITS }).is_nan(),
{
    vstd::arithmetic::power2::lemma2_to64();
    vstd::arithmetic::power2::lemma2_to64_rest();
    vstd::arithmetic::power2::lemma_pow2_pos(1074);
    let unit = pow2(1074) as int;
    let h = crate::scalar::HIDDEN_BIT as nat;
    vstd::arithmetic::power2::lemma_pow2_adds(41, 1033);
    let a = pow2(41) as int;
    let b = pow2(1033) as int;
    assert(START_SPEED_BITS as nat / h == 1034 && h + START_SPEED_BITS as nat % h == 3600 * a);
    assert((3600 * a) * b == 3600 * (a * b)) by (nonlinear_arith);
    vstd::arithmetic::power2::lemma_pow2_adds(44, 1030);
    let c = pow2(44) as int;
    let d = pow2(1030) as int;
    assert(START_DISTANCE_BITS as nat / h == 1031 && h + START_DISTANCE_BITS as nat % h == 500 * c);
    assert((500 * c) * d == 500 * (c * d)) by (nonlinear_arith);
    vstd::arithmetic::power2::lemma_pow2_adds(51, 1022);
    vstd::arithmetic::power2::lemma_pow2_unfold(1074);
    let e = pow2(51) as int;
    let f = pow2(1022) as int;
    assert(START_ELEVATION_BITS as nat / h == 1023 && h + START_ELEVATION_BITS as nat % h == 3 * e);
    assert(((3 * e) * f) * 2 == 3 * (2 * (e * f))) by (nonlinear_arith);
}

impl SimulationState {
    /// The state at the start, at a given epoch.
    pub open spec fn start(epoch: UtcInstant) -> SimulationState {
        SimulationState {
            epoch,
            speed: Scalar { bits: START_SPEED_BITS },
            paused: true,
            camera: CameraAim { from: CameraEndpoint::Free, to: CameraEndpoint::EML1 },
            camera_up: CameraUp::Free,
            camera_distance: Scalar { bits: START_DISTANCE_BITS },
            camera_azimuth: Scalar { bits: 0 },
            camera_elevation: Scalar { bits: START_ELEVATION_BITS },
            camera_origin: CameraOrigin::Fraction,
            camera_origin_value: Scalar { bits: 0 },
            perspective: true,
            show_lagrange: true,
            show_stars: false,
            trail_duration: DAY,
            trail_frame: TrailFrame::Pulsating,
            main_panel_open: true,
            opt_panel_open: true,
        }
    }

    /// Whether the speed is at least one, one end of the view is fixed, and the
    /// camera is within its limits.
    pub open spec fn wf(self) -> bool {
        &&& self.speed.from_one_on() || self.speed.bits == INFINITY_BITS
        &&& self.camera.wf()
        &&& self.camera_elevation.is_nan() || within_halves(self.camera_elevation, -3, 3)
        &&& self.camera_distance.is_nan() || within_halves(self.camera_distance, 10, 6000)
    }

    /// The state at the start, at a given epoch.
    pub fn at_start(epoch: UtcInstant) -> (r: SimulationState)
        ensures
            r == SimulationState::start(epoch),
            r.wf(),
    {
        proof {
            lemma_start_values();
            vstd::arithmetic::power2::lemma_pow2_pos(1074);
        }
        SimulationState {
            epoch,
            speed: Scalar { bits: START_SPEED_BITS },
            paused: true,
            camera: CameraAim { from: CameraEndpoint::Free, to: CameraEndpoint::EML1 },
            camera_up: CameraUp::Free,
            camera_distance: Scalar { bits: START_DISTANCE_BITS },
            camera_azimuth: Scalar { bits: 0 },
            camera_elevation: Scalar { bits: START_ELEVATION_BITS },
            camera_origin: CameraOrigin::Fraction,
            camera_origin_value: Scalar { bits: 0 },
            perspective: true,
            show_lagrange: true,
            show_stars: false,
            trail_duration: DAY,
            trail_frame: TrailFrame::Pulsating,
            main_panel_open: true,
            opt_panel_open: true,
        }
    }

    /// Goes back to the state at the start, at the epoch that it started from.
    pub fn reset(&mut self, initial_epoch: UtcInstant)
        ensures
            *final(self) == SimulationState::start(initial_epoch),
            final(self).wf(),
    {
        *self = SimulationState::at_start(initial_epoch);
    }

    /// The body that the camera goes round or looks at.
    pub fn orbit_center(&self) -> (r: CameraEndpoint)
        requires
            self.wf(),
        ensures
            r !is Free,
            r == (if self.camera.to is Free {
                self.camera.from
            } else {
                self.camera.to
            }),
    {
        self.camera.orbit_center()
    }

    /// Doubles the speed.
    pub fn faster(&mut self)
        requires
            old(self).wf(),
        ensures
            final(self).wf(),
            *final(self) == (SimulationState { speed: final(self).speed, ..*old(self) }),
            is_doubled(old(self).speed, final(self).speed),
    {
        self.speed = self.speed.doubled();
    }

    /// Halves the speed, down to one.
    pub fn slower(&mut self)
        requires
            old(self).wf(),
        ensures
            final(self).wf(),
            *final(self) == (SimulationState { speed: final(self).speed, ..*old(self) }),
            is_halved(old(self).speed, final(self).speed),
    {
        self.speed = self.speed.halved();
    }

    /// Time goes on to an epoch, unless it stands still.
    pub fn tick(&mut self, next: UtcInstant)
        ensures
            *final(self) == (if old(self).paused {
                *old(self)
            } else {
                SimulationState { epoch: next, ..*old(self) }
            }),
    {
        if !self.paused {
            self.epoch = next;
        }
    }

    /// Stops time where it is.
    pub fn stop_time(&mut self)
        ensures
            *final(self) == (SimulationState { paused: true, ..*old(self) }),
    {
        self.paused = true;
    }

    /// Turns the camera to an azimuth and an elevation, if it goes round a body.
    pub fn turn(&mut self, azimuth: Scalar, elevation: Scalar)
        requires
            old(self).wf(),
        ensures
            final(self).wf(),
            !old(self).camera.orbits() ==> *final(self) == *old(self),
            old(self).camera.orbits() ==> *final(self) == (SimulationState {
                camera_azimuth: azimuth,
                camera_elevation: final(self).camera_elevation,
                ..*old(self)
            }),
            old(self).camera.orbits() && within_halves(elevation, -3, 3)
                ==> final(self).camera_elevation == elevation,
            old(self).camera.orbits() && !elevation.is_nan() && elevation.value() * 2 < -3 * pow2(
                1074,
            ) ==> final(self).camera_elevation.value() * 2 == -3 * pow2(1074),
            old(self).camera.orbits() && !elevation.is_nan() && elevation.value() * 2 > 3 * pow2(
                1074,
            ) ==> final(self).camera_elevation.value() * 2 == 3 * pow2(1074),
            old(self).camera.orbits() && elevation.is_nan() ==> final(self).camera_elevation
                == elevation,
    {
        if self.camera.is_orbit() {
            self.camera_azimuth = azimuth;
            self.camera_elevation = clamp_elevation(elevation);
        }
    }

    /// Takes the camera to a distance, if it goes round a body.
    pub fn zoom(&mut self, distance: Scalar)
        requires
            old(self).wf(),
        ensures
            final(self).wf(),
            !old(self).camera.orbits() ==> *final(self) == *old(self),
            *final(self) == (SimulationState {
                camera_distance: final(self).camera_distance,
                ..*old(self)
            }),
            old(self).camera.orbits() && within_halves(distance, 10, 6000)
                ==> final(self).camera_distance == distance,
            old(self).camera.orbits() && !distance.is_nan() && distance.value() * 2 < 10 * pow2(
                1074,
            ) ==> final(self).camera_distance.value() * 2 == 10 * pow2(1074),
            old(self).camera.orbits() && !distance.is_nan() && distance.value() * 2 > 6000 * pow2(
                1074,
            ) ==> final(self).camera_distance.value() * 2 == 6000 * pow2(1074),
            old(self).camera.orbits() && distance.is_nan() ==> final(self).camera_distance
                == distance,
    {
        if self.camera.is_orbit() {
            self.camera_distance = clamp_distance(distance);
        }
    }

    /// The state, but for the speed, after a key. A key is a text of one character.
    pub open spec fn after_key(
        self,
        key: Seq<char>,
        satellites: int,
        initial_epoch: UtcInstant,
    ) -> SimulationState {
        if key.len() != 1 {
            self
        } else if key[0] == 'p' {
            SimulationState { paused: !self.paused, ..self }
        } else if key[0] == 'l' {
            SimulationState { show_lagrange: !self.show_lagrange, ..self }
        } else if key[0] == 's' {
            SimulationState { show_stars: !self.show_stars, ..self }
        } else if key[0] == 'm' || key[0] == 'M' {
            SimulationState { main_panel_open: true, ..self }
        } else if key[0] == 'c' {
            SimulationState {
                camera: CameraAim { to: cycled(self.camera.to, satellites, true), ..self.camera },
                ..self
            }
        } else if key[0] == 'v' {
            SimulationState {
                camera: CameraAim { to: cycled(self.camera.to, satellites, false), ..self.camera },
                ..self
            }
        } else if key[0] == 't' {
            SimulationState { trail_duration: next_length(self.trail_duration), ..self }
        } else if key[0] == 'r' && satellites == 0 {
            SimulationState::start(initial_epoch)
        } else if key[0] == 'h' {
            SimulationState {
                main_panel_open: !self.main_panel_open,
                opt_panel_open: !self.opt_panel_open,
                ..self
            }
        } else {
            self
        }
    }

    /// Whether a key leads to a state.
    pub open spec fn presses_to(
        self,
        after: SimulationState,
        key: Seq<char>,
        satellites: int,
        initial_epoch: UtcInstant,
    ) -> bool {
        if is_faster_key(key) {
            after == (SimulationState { speed: after.speed, ..self }) && is_doubled(
                self.speed,
                after.speed,
            )
        } else if is_slower_key(key) {
            after == (SimulationState { speed: after.speed, ..self }) && is_halved(
                self.speed,
                after.speed,
            )
        } else {
            after == self.after_key(key, satellites, initial_epoch)
        }
    }

    /// What a key asks for beside a change of the state.
    pub open spec fn key_action(self, key: Seq<char>) -> KeyAction {
        if key.len() != 1 {
            KeyAction::Nothing
        } else if key[0] == 'l' {
            KeyAction::ShowMarkers(!self.show_lagrange)
        } else if key[0] == 's' {
            KeyAction::ShowStars(!self.show_stars && self.perspective)
        } else if key[0] == 'm' || key[0] == 'M' {
            KeyAction::OpenAddBodyMenu
        } else if key[0] == 'g' {
            KeyAction::ToggleRecording
        } else if key[0] == 'f' {
            KeyAction::Screenshot
        } else {
            KeyAction::Nothing
        }
    }

    /// Takes a key. Keys change the state; some ask for more.
    pub fn key_pressed(&mut self, key: &str, satellites: usize, initial_epoch: UtcInstant) -> (r:
        KeyAction)
        requires
            old(self).wf(),
        ensures
            final(self).wf(),
            r == old(self).key_action(key@),
            old(self).presses_to(*final(self), key@, satellites as int, initial_epoch),
    {
        if key.unicode_len() != 1 {
            return KeyAction::Nothing;
        }
        let c: char = key.get_char(0);
        if c == '+' || c == '=' {
            self.faster();
        } else if c == '-' {
            self.slower();
        } else if c == 'p' {
            self.paused = !self.paused;
        } else if c == 'l' {
            self.show_lagrange = !self.show_lagrange;
            return KeyAction::ShowMarkers(self.show_lagrange);
        } else if c == 's' {
            self.show_stars = !self.show_stars;
            return KeyAction::ShowStars(
                crate::stars::stars_visible(self.show_stars, self.perspective),
            );
        } else if c == 'm' || c == 'M' {
            self.main_panel_open = true;
            return KeyAction::OpenAddBodyMenu;
        } else if c == 'c' || c == 'v' {
            let to: CameraEndpoint = CameraEndpoint::cycle(self.camera.to, satellites, c == 'c');
            self.camera = CameraAim { from: self.camera.from, to };
        } else if c == 't' {
            self.trail_duration = next_trail_length(self.trail_duration);
        } else if c == 'r' {
            if satellites == 0 {
                self.reset(initial_epoch);
            }
        } else if c == 'h' {
            self.main_panel_open = !self.main_panel_open;
            self.opt_panel_open = !self.opt_panel_open;
        } else if c == 'g' {
            return KeyAction::ToggleRecording;
        } else if c == 'f' {
            return KeyAction::Screenshot;
        }
        KeyAction::Nothing
    }
}

impl Default for SimulationState {
    /// The state at the start, at the epoch taken unless told otherwise.
    fn default() -> (r: SimulationState)
        ensures
            r == SimulationState::start(r.epoch),
            r.epoch.utc_nanos == default_civil().nanos(),
            r.wf(),
    {
        SimulationState::at_start(default_epoch())
    }
}

/// Whether a key speeds time up.
pub open spec fn is_faster_key(key: Seq<char>) -> bool {
    key.len() == 1 && (key[0] == '+' || key[0] == '=')
}

/// Whether a key slows time down.
pub open spec fn is_slower_key(key: Seq<char>) -> bool {
    key.len() == 1 && key[0] == '-'
}

/// Whether a speed is twice another one, or infinite where that is out of reach.
pub open spec fn is_doubled(before: Scalar, after: Scalar) -> bool {
    if before.bits <= crate::scalar::MAX_BITS - crate::scalar::HIDDEN_BIT {
        after.from_one_on() && after.value() == 2 * before.value()
    } else {
        after.bits == INFINITY_BITS
    }
}

/// Whether a speed is half another one, or one where that would be less.
pub open spec fn is_halved(before: Scalar, after: Scalar) -> bool {
    if before.bits == INFINITY_BITS {
        after == before
    } else if before.reaches(2, 0) {
        after.from_one_on() && 2 * after.value() == before.value()
    } else {
        after.bits == crate::scalar::ONE_BITS
    }
}

/// Slowing down undoes speeding up, as long as the speed is finite.
pub proof fn lemma_slower_undoes_faster(before: Scalar, between: Scalar, after: Scalar)
    requires
        before.from_one_on(),
        is_doubled(before, between),
        between.bits != INFINITY_BITS,
        is_halved(between, after),
    ensures
        after == before,
{
    vstd::arithmetic::power2::lemma2_to64();
    vstd::arithmetic::power2::lemma_pow2_pos(1074);
    crate::scalar::lemma_magnitude_orders(before.bits as nat, after.bits as nat);
    crate::scalar::lemma_magnitude_orders(after.bits as nat, before.bits as nat);
}

/// The keys that switch something on and off undo themselves.
pub proof fn lemma_switches_undo_themselves(
    state: SimulationState,
    key: Seq<char>,
    satellites: int,
    initial_epoch: UtcInstant,
)
    requires
        key.len() == 1,
        key[0] == 'p' || key[0] == 'l' || key[0] == 's' || key[0] == 'h',
    ensures
        state.after_key(key, satellites, initial_epoch).after_key(key, satellites, initial_epoch)
            == state,
{
}

/// Two keys undo each other: the same switch twice, or speeding up and slowing
/// down as long as the speed stays finite. The first of them alone changes nothing
/// but what is its own.
pub proof fn lemma_keys_undo_each_other(
    before: SimulationState,
    between: SimulationState,
    after: SimulationState,
    first: Seq<char>,
    second: Seq<char>,
    satellites: int,
    initial_epoch: UtcInstant,
)
    requires
        before.wf(),
        before.presses_to(between, first, satellites, initial_epoch),
        between.presses_to(after, second, satellites, initial_epoch),
        first.len() == 1,
        if first[0] == '+' || first[0] == '=' {
            is_slower_key(second) && between.speed.bits != INFINITY_BITS
        } else {
            second == first && (first[0] == 'p' || first[0] == 'l' || first[0] == 's' || first[0]
                == 'h')
        },
    ensures
        after == before,
        first[0] == 'p' ==> between == (SimulationState { paused: !before.paused, ..before }),
        first[0] == 'l' ==> between == (SimulationState {
            show_lagrange: !before.show_lagrange,
            ..before
        }),
        first[0] == 's' ==> between == (SimulationState {
            show_stars: !before.show_stars,
            ..before
        }),
        first[0] == 'h' ==> between == (SimulationState {
            main_panel_open: !before.main_panel_open,
            opt_panel_open: !before.opt_panel_open,
            ..before
        }),
        is_faster_key(first) ==> between == (SimulationState { speed: between.speed, ..before })
            && between.speed.value() == 2 * before.speed.value(),
{
    if is_faster_key(first) {
        lemma_slower_undoes_faster(before.speed, between.speed, after.speed);
    }
}

/// With bodies in the simulation no key changes its epoch.
pub proof fn lemma_bodies_hold_the_epoch(
    state: SimulationState,
    key: Seq<char>,
    satellites: int,
    initial_epoch: UtcInstant,
)
    requires
        satellites > 0,
    ensures
        state.after_key(key, satellites, initial_epoch).epoch == state.epoch,
{
}

/// A step of a scale: one, two, five or ten.
pub fn nice_step(x: Scalar) -> (r: u32)
    ensures
        r == (if x.under(3, 1) {
            1int
        } else if x.under(7, 1) {
            2
        } else if x.under(15, 1) {
            5
        } else {
            10
        }),
        !x.is_nan() ==> is_nearest_step(x.value(), pow2(1074) as int, r as int),
{
    proof {
        vstd::arithmetic::power2::lemma2_to64();
        vstd::arithmetic::power2::lemma_pow2_pos(1074);
        assert(pow2(1) == 2);
    }
    if x.is_under(3, 1) {
        1
    } else if x.is_under(7, 1) {
        2
    } else if x.is_under(15, 1) {
        5
    } else {
        10
    }
}

/// The distance between two numbers.
pub open spec fn gap(a: int, b: int) -> int {
    if a < b {
        b - a
    } else {
        a - b
    }
}

/// Whether no other step of a scale is nearer to a number, given the size of one.
pub open spec fn is_nearest_step(x: int, one: int, step: int) -> bool {
    &&& gap(x, step * one) <= gap(x, one)
    &&& gap(x, step * one) <= gap(x, 2 * one)
    &&& gap(x, step * one) <= gap(x, 5 * one)
    &&& gap(x, step * one) <= gap(x, 10 * one)
}

/// In what a length on the scale bar is given.
#[derive(Clone, Copy, PartialEq, Eq, Structural, Debug)]
pub enum LengthUnit {
    Kilometres,
    Thousands,
    Millions,
}

/// In what a length is given: in millions of kilometres from one million on, in
/// thousands from one thousand on.
pub fn length_unit(km: Scalar) -> (r: LengthUnit)
    ensures
        r is Millions <==> km.reaches(1_000_000, 0),
        r is Thousands <==> !km.reaches(1_000_000, 0) && km.reaches(1000, 0),
{
    if km.is_at_least(1_000_000, 0) {
        LengthUnit::Millions
    } else if km.is_at_least(1000, 0) {
        LengthUnit::Thousands
    } else {
        LengthUnit::Kilometres
    }
}

impl LengthUnit {
    /// What stands behind the number.
    pub fn suffix(&self) -> (r: &'static str)
        ensures
            r@ == (match *self {
                LengthUnit::Kilometres => " km"@,
                LengthUnit::Thousands => "k km"@,
                LengthUnit::Millions => "M km"@,
            }),
    {
        match self {
            LengthUnit::Kilometres => " km",
            LengthUnit::Thousands => "k km",
            LengthUnit::Millions => "M km",
        }
    }
}

/// The length of trails that the key leads to, by seconds: the least of its lengths
/// that is longer by more than one second, and none behind a week.
pub proof fn lemma_next_length_by_seconds(current: u32)
    ensures
        current < 3599 ==> next_length(current) == 3600,
        3599 <= current < 7199 ==> next_length(current) == 7200,
        7199 <= current < 21_599 ==> next_length(current) == 21_600,
        21_599 <= current < 86_399 ==> next_length(current) == 86_400,
        86_399 <= current < 259_199 ==> next_length(current) == 259_200,
        259_199 <= current < 604_799 ==> next_length(current) == 604_800,
        604_799 <= current ==> next_length(current) == 0,
{
    reveal_with_fuel(next_length_from, 8);
}

/// The lengths to choose from: none, 1, 2 and 6 hours, 1, 2, 3 and 7 days, the
/// shorter before the longer.
pub proof fn lemma_lengths_to_choose_from(length: u32)
    ensures
        trail_lengths().len() == 8,
        trail_lengths().contains(length) <==> length == 0 || length == 3600 || length == 2 * 3600
            || length == 6 * 3600 || length == 86_400 || length == 2 * 86_400 || length == 3 * 86_400
            || length == 7 * 86_400,
        forall|i: int, j: int|
            0 <= i < j < 8 ==> #[trigger] trail_lengths()[i] < #[trigger] trail_lengths()[j],
{
    let all = trail_lengths();
    assert(all[0] == 0 && all[1] == 3600 && all[2] == 7200 && all[3] == 21_600);
    assert(all[4] == 86_400 && all[5] == 172_800 && all[6] == 259_200 && all[7] == 604_800);
}

/// A rounded quotient is as near as half a unit, and even where it is just half a
/// unit away.
pub proof fn lemma_rounding_is_to_the_nearest(n: nat, unit: nat)
    requires
        unit > 0,
    ensures
        2 * n <= 2 * rounded(n, unit) * unit + unit,
        2 * rounded(n, unit) * unit <= 2 * n + unit,
        2 * n == 2 * rounded(n, unit) * unit + unit || 2 * rounded(n, unit) * unit == 2 * n + unit
            ==> rounded(n, unit) % 2 == 0,
{
    let q = n / unit;
    let r = n % unit;
    vstd::arithmetic::div_mod::lemma_fundamental_div_mod(n as int, unit as int);
    assert(q * unit == unit * q) by (nonlinear_arith);
    assert(2 * q * unit == 2 * (q * unit)) by (nonlinear_arith);
    assert(2 * (q + 1) * unit == 2 * (q * unit) + 2 * unit) by (nonlinear_arith);
}

/// The length of a trail in words is its number of days from one day on, of hours
/// from one hour on, and else of minutes, to the nearest, with the letter of the
/// unit behind it.
pub proof fn lemma_length_in_its_unit(seconds: u32)
    requires
        seconds > 0,
    ensures
        ({
            let text = length_text(seconds);
            let unit: int = if seconds >= 86_400 {
                86_400
            } else if seconds >= 3600 {
                3600
            } else {
                60
            };
            &&& text.last() == (if seconds >= 86_400 {
                'd'
            } else if seconds >= 3600 {
                'h'
            } else {
                'm'
            })
            &&& exists|k: nat|
                #![trigger decimal(k)]
                text.drop_last() == decimal(k) && 2 * seconds <= 2 * k * unit + unit && 2 * k * unit
                    <= 2 * seconds + unit
        }),
        length_text(0) == seq!['O', 'F', 'F'],
{
    reveal_strlit("OFF");
    reveal_strlit("d");
    reveal_strlit("h");
    reveal_strlit("m");
    assert("OFF"@ =~= seq!['O', 'F', 'F']);
    let unit: nat = if seconds >= DAY {
        DAY as nat
    } else if seconds >= HOUR {
        HOUR as nat
    } else {
        MINUTE as nat
    };
    let k = rounded(seconds as nat, unit);
    lemma_rounding_is_to_the_nearest(seconds as nat, unit);
    assert(length_text(seconds).drop_last() =~= decimal(k));
}

/// At the start time stands still, an hour is to go by in a second, the camera goes
/// round the first Lagrange point from above, trails are a day long and turn and
/// grow with the Moon, and both panels are open.
pub proof fn lemma_start_of_the_simulation(epoch: UtcInstant)
    ensures
        ({
            let s = SimulationState::start(epoch);
            &&& s.epoch == epoch
            &&& s.paused
            &&& s.speed.value() == 3600 * pow2(1074)
            &&& s.camera.from is Free && s.camera.to is EML1 && s.camera_up is Free
            &&& s.camera_distance.value() == 500 * pow2(1074)
            &&& s.camera_elevation.value() * 2 == 3 * pow2(1074)
            &&& s.camera_azimuth.value() == 0
            &&& s.camera_origin is Fraction && s.camera_origin_value.value() == 0
            &&& s.perspective && s.show_lagrange && !s.show_stars
            &&& s.trail_duration == 86_400 && s.trail_frame is Pulsating
            &&& s.main_panel_open && s.opt_panel_open
        }),
{
    lemma_start_values();
    crate::scalar::lemma_magnitude_zero();
}

/// What each key does to the state, and that it does nothing else: the switches
/// switch, the target goes on or back, the trails get another length, a reset leads
/// to the start unless there are bodies, and the speed is doubled or halved.
pub proof fn lemma_what_keys_do(
    before: SimulationState,
    after: SimulationState,
    key: char,
    satellites: int,
    initial_epoch: UtcInstant,
)
    requires
        before.wf(),
        before.presses_to(after, seq![key], satellites, initial_epoch),
    ensures
        key == 'p' ==> after == (SimulationState { paused: !before.paused, ..before }),
        key == 'l' ==> after == (SimulationState {
            show_lagrange: !before.show_lagrange,
            ..before
        }),
        key == 's' ==> after == (SimulationState { show_stars: !before.show_stars, ..before }),
        key == 'm' || key == 'M' ==> after == (SimulationState { main_panel_open: true, ..before }),
        key == 'h' ==> after == (SimulationState {
            main_panel_open: !before.main_panel_open,
            opt_panel_open: !before.opt_panel_open,
            ..before
        }),
        key == 'c' || key == 'v' ==> after == (SimulationState {
            camera: CameraAim {
                from: before.camera.from,
                to: cycled(before.camera.to, satellites, key == 'c'),
            },
            ..before
        }),
        key == 't' ==> after == (SimulationState {
            trail_duration: next_length(before.trail_duration),
            ..before
        }),
        key == 'r' && satellites != 0 ==> after == before,
        key == 'r' && satellites == 0 ==> after == SimulationState::start(initial_epoch),
        key == '+' || key == '=' ==> {
            &&& after == (SimulationState { speed: after.speed, ..before })
            &&& before.speed.bits <= 0x7FDF_FFFF_FFFF_FFFF ==> after.speed.bits != INFINITY_BITS
                && after.speed.value() == 2 * before.speed.value()
            &&& before.speed.bits > 0x7FDF_FFFF_FFFF_FFFF ==> after.speed.bits == INFINITY_BITS
        },
        key == '-' ==> {
            &&& after == (SimulationState { speed: after.speed, ..before })
            &&& before.speed.bits == INFINITY_BITS ==> after.speed == before.speed
            &&& before.speed.bits != INFINITY_BITS && before.speed.value() >= 2 * pow2(1074)
                ==> 2 * after.speed.value() == before.speed.value()
            &&& before.speed.bits != INFINITY_BITS && before.speed.value() < 2 * pow2(1074)
                ==> after.speed.value() == pow2(1074)
        },
        key != 'p' && key != 'l' && key != 's' && key != 'm' && key != 'M' && key != 'h' && key
            != 'c' && key != 'v' && key != 't' && key != 'r' && key != '+' && key != '=' && key
            != '-' ==> after == before,
{
    let text = seq![key];
    assert(text.len() == 1 && text[0] == key);
    crate::scalar::lemma_one();
    vstd::arithmetic::power2::lemma2_to64();
    if key == '+' || key == '=' {
        assert(is_faster_key(text));
    } else if key == '-' {
        assert(is_slower_key(text));
        assert(before.speed.value() * pow2(0) == before.speed.value()) by (nonlinear_arith)
            requires
                pow2(0) == 1,
        ;
    }
}

/// What the keys ask for: the markers and the stars are to be shown as they are
/// switched, the stars only in perspective; `m` opens the menu, `g` toggles the
/// recording, `f` takes a picture. No other key asks for anything, nor does a text
/// that is not one character, which changes nothing either.
pub proof fn lemma_what_keys_ask_for(
    state: SimulationState,
    key: char,
    text: Seq<char>,
    after: SimulationState,
    satellites: int,
    initial_epoch: UtcInstant,
)
    requires
        text.len() != 1,
        state.presses_to(after, text, satellites, initial_epoch),
    ensures
        ({
            let action = state.key_action(seq![key]);
            &&& key == 'l' ==> action == KeyAction::ShowMarkers(!state.show_lagrange)
            &&& key == 's' ==> action == KeyAction::ShowStars(
                !state.show_stars && state.perspective,
            )
            &&& action is OpenAddBodyMenu <==> key == 'm' || key == 'M'
            &&& action is ToggleRecording <==> key == 'g'
            &&& action is Screenshot <==> key == 'f'
            &&& action is ShowMarkers <==> key == 'l'
            &&& action is ShowStars <==> key == 's'
        }),
        state.key_action(text) is Nothing,
        after == state,
{
    let one = seq![key];
    assert(one.len() == 1 && one[0] == key);
}

} // verus!
