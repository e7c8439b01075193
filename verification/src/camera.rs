//! The camera: what it stands on, what it looks at, and how it is moved.

use crate::bodies::UserBody;
use crate::lagrange::LagrangeId;
use crate::scalar::{Scalar, UNIT_EXPONENT};
use crate::text::{decimal, push_decimal};
use vstd::arithmetic::power2::pow2;
use vstd::prelude::*;
use vstd::string::StringExecFns;

verus! {

/// A point in the scene that the camera can stand on or look at.
#[derive(Clone, Copy, PartialEq, Eq, Structural, Debug)]
pub enum CameraEndpoint {
    Free,
    Earth,
    Moon,
    MoonEML1,
    EML1,
    EML2,
    EML3,
    EML4,
    EML5,
    Satellite(usize),
}

/// What the position of an endpoint is taken from.
#[derive(Clone, Copy, PartialEq, Eq, Structural, Debug)]
pub enum Anchor {
    /// Nothing: the endpoint has no position.
    Nowhere,
    Origin,
    Moon,
    /// Half way between the Moon and the first Lagrange point.
    MidwayToL1,
    Point(LagrangeId),
    Body(usize),
}

/// How many fixed endpoints other than the free one there are.
pub const FIXED_TARGETS: usize = 8;

/// The endpoint at a place in the cycle of targets: first the fixed ones, then
/// the bodies.
pub open spec fn target(place: int) -> CameraEndpoint {
    if place == 0 {
        CameraEndpoint::Earth
    } else if place == 1 {
        CameraEndpoint::Moon
    } else if place == 2 {
        CameraEndpoint::MoonEML1
    } else if place == 3 {
        CameraEndpoint::EML1
    } else if place == 4 {
        CameraEndpoint::EML2
    } else if place == 5 {
        CameraEndpoint::EML3
    } else if place == 6 {
        CameraEndpoint::EML4
    } else if place == 7 {
        CameraEndpoint::EML5
    } else {
        CameraEndpoint::Satellite((place - 8) as usize)
    }
}

/// The place of an endpoint in the cycle of targets. One that is not in it
/// counts as the first.
pub open spec fn target_place(e: CameraEndpoint, satellites: int) -> int {
    match e {
        CameraEndpoint::Free => 0,
        CameraEndpoint::Earth => 0,
        CameraEndpoint::Moon => 1,
        CameraEndpoint::MoonEML1 => 2,
        CameraEndpoint::EML1 => 3,
        CameraEndpoint::EML2 => 4,
        CameraEndpoint::EML3 => 5,
        CameraEndpoint::EML4 => 6,
        CameraEndpoint::EML5 => 7,
        CameraEndpoint::Satellite(i) => if i < satellites {
            8 + i
        } else {
            0
        },
    }
}

/// The endpoint one place on in the cycle of targets, or one place back.
pub open spec fn cycled(e: CameraEndpoint, satellites: int, forward: bool) -> CameraEndpoint {
    let count = 8 + satellites;
    let place = target_place(e, satellites);
    if forward {
        target((place + 1) % count)
    } else {
        target((place + count - 1) % count)
    }
}

impl CameraEndpoint {
    /// Whether the endpoint is one of the targets.
    pub open spec fn is_target(self, satellites: int) -> bool {
        self !is Free && (self matches CameraEndpoint::Satellite(i) ==> i < satellites)
    }

    /// The endpoint at a place in the cycle of targets.
    fn target_at(place: usize) -> (r: CameraEndpoint)
        ensures
            r == target(place as int),
    {
        match place {
            0 => CameraEndpoint::Earth,
            1 => CameraEndpoint::Moon,
            2 => CameraEndpoint::MoonEML1,
            3 => CameraEndpoint::EML1,
            4 => CameraEndpoint::EML2,
            5 => CameraEndpoint::EML3,
            6 => CameraEndpoint::EML4,
            7 => CameraEndpoint::EML5,
            _ => CameraEndpoint::Satellite(place - FIXED_TARGETS),
        }
    }

    /// All endpoints that a menu offers: the free one, then all targets.
    pub fn choices(satellites: usize) -> (r: Vec<CameraEndpoint>)
        requires
            satellites + FIXED_TARGETS < usize::MAX,
        ensures
            r@.len() == satellites + FIXED_TARGETS + 1,
            r@[0] is Free,
            forall|i: int| 1 <= i < r@.len() ==> #[trigger] r@[i] == target(i - 1),
    {
        let mut out: Vec<CameraEndpoint> = Vec::new();
        out.push(CameraEndpoint::Free);
        let mut place: usize = 0;
        while place < satellites + FIXED_TARGETS
            invariant
                satellites + FIXED_TARGETS < usize::MAX,
                place <= satellites + FIXED_TARGETS,
                out@.len() == place + 1,
                out@[0] is Free,
                forall|i: int| 1 <= i < out@.len() ==> #[trigger] out@[i] == target(i - 1),
            decreases satellites + FIXED_TARGETS - place,
        {
            out.push(CameraEndpoint::target_at(place));
            place = place + 1;
        }
        out
    }

    /// The name of the endpoint. A body has its own name, and one that is not
    /// there its number.
    pub fn display_name<C, S>(&self, bodies: &Vec<UserBody<C, S>>) -> (r: String)
        ensures
            r@ == (match *self {
                CameraEndpoint::Free => "Free"@,
                CameraEndpoint::Earth => "Earth"@,
                CameraEndpoint::Moon => "Moon"@,
                CameraEndpoint::MoonEML1 => "Moon-EML1"@,
                CameraEndpoint::EML1 => "EML1"@,
                CameraEndpoint::EML2 => "EML2"@,
                CameraEndpoint::EML3 => "EML3"@,
                CameraEndpoint::EML4 => "EML4"@,
                CameraEndpoint::EML5 => "EML5"@,
                CameraEndpoint::Satellite(i) => if i < bodies@.len() {
                    bodies@[i as int].name@
                } else {
                    "Sat "@ + decimal(i as nat)
                },
            }),
    {
        match self {
            CameraEndpoint::Free => String::from_str("Free"),
            CameraEndpoint::Earth => String::from_str("Earth"),
            CameraEndpoint::Moon => String::from_str("Moon"),
            CameraEndpoint::MoonEML1 => String::from_str("Moon-EML1"),
            CameraEndpoint::EML1 => String::from_str("EML1"),
            CameraEndpoint::EML2 => String::from_str("EML2"),
            CameraEndpoint::EML3 => String::from_str("EML3"),
            CameraEndpoint::EML4 => String::from_str("EML4"),
            CameraEndpoint::EML5 => String::from_str("EML5"),
            CameraEndpoint::Satellite(i) => {
                if *i < bodies.len() {
                    String::from_str(bodies[*i].name.as_str())
                } else {
                    let mut out: String = String::from_str("Sat ");
                    push_decimal(&mut out, *i as u64);
                    out
                }
            },
        }
    }

    /// The next target, or the one before.
    pub fn cycle(current: CameraEndpoint, satellites: usize, forward: bool) -> (r: CameraEndpoint)
        ensures
            r == cycled(current, satellites as int, forward),
            r.is_target(satellites as int),
    {
        proof {
            lemma_next_places(target_place(current, satellites as int), 8 + satellites);
        }
        let place: usize = match current {
            CameraEndpoint::Free => 0,
            CameraEndpoint::Earth => 0,
            CameraEndpoint::Moon => 1,
            CameraEndpoint::MoonEML1 => 2,
            CameraEndpoint::EML1 => 3,
            CameraEndpoint::EML2 => 4,
            CameraEndpoint::EML3 => 5,
            CameraEndpoint::EML4 => 6,
            CameraEndpoint::EML5 => 7,
            CameraEndpoint::Satellite(i) => if i < satellites {
                return CameraEndpoint::beside_satellite(i, satellites, forward);
            } else {
                0
            },
        };
        if forward {
            if place < 7 {
                CameraEndpoint::target_at(place + 1)
            } else if satellites > 0 {
                CameraEndpoint::Satellite(0)
            } else {
                CameraEndpoint::Earth
            }
        } else if place > 0 {
            CameraEndpoint::target_at(place - 1)
        } else if satellites > 0 {
            CameraEndpoint::Satellite(satellites - 1)
        } else {
            CameraEndpoint::EML5
        }
    }

    /// The target behind a body in the cycle, or the one before it.
    fn beside_satellite(i: usize, satellites: usize, forward: bool) -> (r: CameraEndpoint)
        requires
            i < satellites,
        ensures
            r == cycled(CameraEndpoint::Satellite(i), satellites as int, forward),
            r.is_target(satellites as int),
    {
        proof {
            lemma_next_places(8 + i, 8 + satellites);
        }
        if forward {
            if i < satellites - 1 {
                CameraEndpoint::Satellite(i + 1)
            } else {
                CameraEndpoint::Earth
            }
        } else if i > 0 {
            CameraEndpoint::Satellite(i - 1)
        } else {
            CameraEndpoint::EML5
        }
    }

    /// What the position of the endpoint is taken from. A body that is not there
    /// has no position.
    pub fn anchor(&self, bodies: usize) -> (r: Anchor)
        ensures
            r == (match *self {
                CameraEndpoint::Free => Anchor::Nowhere,
                CameraEndpoint::Earth => Anchor::Origin,
                CameraEndpoint::Moon => Anchor::Moon,
                CameraEndpoint::MoonEML1 => Anchor::MidwayToL1,
                CameraEndpoint::EML1 => Anchor::Point(LagrangeId::L1),
                CameraEndpoint::EML2 => Anchor::Point(LagrangeId::L2),
                CameraEndpoint::EML3 => Anchor::Point(LagrangeId::L3),
                CameraEndpoint::EML4 => Anchor::Point(LagrangeId::L4),
                CameraEndpoint::EML5 => Anchor::Point(LagrangeId::L5),
                CameraEndpoint::Satellite(i) => if i < bodies {
                    Anchor::Body(i)
                } else {
                    Anchor::Nowhere
                },
            }),
    {
        match self {
            CameraEndpoint::Free => Anchor::Nowhere,
            CameraEndpoint::Earth => Anchor::Origin,
            CameraEndpoint::Moon => Anchor::Moon,
            CameraEndpoint::MoonEML1 => Anchor::MidwayToL1,
            CameraEndpoint::EML1 => Anchor::Point(LagrangeId::L1),
            CameraEndpoint::EML2 => Anchor::Point(LagrangeId::L2),
            CameraEndpoint::EML3 => Anchor::Point(LagrangeId::L3),
            CameraEndpoint::EML4 => Anchor::Point(LagrangeId::L4),
            CameraEndpoint::EML5 => Anchor::Point(LagrangeId::L5),
            CameraEndpoint::Satellite(i) => if *i < bodies {
                Anchor::Body(*i)
            } else {
                Anchor::Nowhere
            },
        }
    }
}

proof fn lemma_next_places(place: int, count: int)
    requires
        0 <= place < count,
    ensures
        (place + 1) % count == (if place + 1 < count {
            place + 1
        } else {
            0
        }),
        (place + count - 1) % count == (if place > 0 {
            place - 1
        } else {
            count - 1
        }),
{
    if place + 1 < count {
        vstd::arithmetic::div_mod::lemma_small_mod((place + 1) as nat, count as nat);
    } else {
        vstd::arithmetic::div_mod::lemma_mod_self_0(count);
    }
    if place > 0 {
        vstd::arithmetic::div_mod::lemma_mod_add_multiples_vanish(place - 1, count);
        vstd::arithmetic::div_mod::lemma_small_mod((place - 1) as nat, count as nat);
    } else {
        vstd::arithmetic::div_mod::lemma_small_mod((count - 1) as nat, count as nat);
    }
}

/// Each target has its own place in the cycle, and each place a target.
pub proof fn lemma_targets(place: int, e: CameraEndpoint, satellites: int)
    requires
        0 <= satellites <= usize::MAX,
        0 <= place < 8 + satellites,
    ensures
        target(place).is_target(satellites),
        target_place(target(place), satellites) == place,
        0 <= target_place(e, satellites) < 8 + satellites,
        e.is_target(satellites) ==> target(target_place(e, satellites)) == e,
{
}

/// Going on and then back, or back and then on, ends at the same target.
pub proof fn lemma_cycle_is_undone(e: CameraEndpoint, satellites: int)
    requires
        0 <= satellites <= usize::MAX,
        e.is_target(satellites),
    ensures
        cycled(cycled(e, satellites, true), satellites, false) == e,
        cycled(cycled(e, satellites, false), satellites, true) == e,
{
    let count = 8 + satellites;
    let place = target_place(e, satellites);
    lemma_targets(0, e, satellites);
    lemma_targets((place + 1) % count, e, satellites);
    lemma_targets((place + count - 1) % count, e, satellites);
    lemma_next_places(place, count);
    lemma_next_places((place + 1) % count, count);
    lemma_next_places((place + count - 1) % count, count);
}

/// The target after so many steps on.
pub open spec fn cycled_times(e: CameraEndpoint, satellites: int, times: nat) -> CameraEndpoint
    decreases times,
{
    if times == 0 {
        e
    } else {
        cycled(cycled_times(e, satellites, (times - 1) as nat), satellites, true)
    }
}

/// So many steps on lead that many places on in the cycle: each target is reached
/// from each, and as many steps as there are targets lead back.
pub proof fn lemma_cycle_goes_round(e: CameraEndpoint, satellites: int, times: nat)
    requires
        0 <= satellites <= usize::MAX,
        e.is_target(satellites),
    ensures
        cycled_times(e, satellites, times) == target(
            (target_place(e, satellites) + times) % (8 + satellites),
        ),
        times == 8 + satellites ==> cycled_times(e, satellites, times) == e,
    decreases times,
{
    let count = 8 + satellites;
    let place = target_place(e, satellites);
    lemma_targets(0, e, satellites);
    if times == 0 {
        vstd::arithmetic::div_mod::lemma_small_mod(place as nat, count as nat);
    } else {
        lemma_cycle_goes_round(e, satellites, (times - 1) as nat);
        let before = (place + times - 1) % count;
        vstd::arithmetic::div_mod::lemma_mod_bound(place + times - 1, count);
        lemma_targets(before, e, satellites);
        vstd::arithmetic::div_mod::lemma_add_mod_noop(place + times - 1, 1, count);
        vstd::arithmetic::div_mod::lemma_small_mod(1, count as nat);
    }
    if times == count {
        vstd::arithmetic::div_mod::lemma_mod_add_multiples_vanish(place, count);
        vstd::arithmetic::div_mod::lemma_small_mod(place as nat, count as nat);
    }
}

/// Which way is up for the camera.
#[derive(Clone, Copy, PartialEq, Eq, Structural, Debug)]
pub enum CameraUp {
    /// As the mouse turns it.
    Free,
    /// The celestial pole.
    EarthNorth,
    /// The normal of the Moon's orbit.
    MoonOrbitNormal,
    /// The pole of the ecliptic.
    EclipticNorth,
}

impl CameraUp {
    /// All choices, in order.
    pub fn all() -> (r: [CameraUp; 4])
        ensures
            r@ == seq![
                CameraUp::Free,
                CameraUp::EarthNorth,
                CameraUp::MoonOrbitNormal,
                CameraUp::EclipticNorth,
            ],
    {
        [
            CameraUp::Free,
            CameraUp::EarthNorth,
            CameraUp::MoonOrbitNormal,
            CameraUp::EclipticNorth,
        ]
    }

    /// The name of the choice.
    pub fn label(&self) -> (r: &'static str)
        ensures
            r@ == (match *self {
                CameraUp::Free => "Free"@,
                CameraUp::EarthNorth => "Earth North"@,
                CameraUp::MoonOrbitNormal => "Moon Orbit"@,
                CameraUp::EclipticNorth => "Ecliptic North"@,
            }),
    {
        match self {
            CameraUp::Free => "Free",
            CameraUp::EarthNorth => "Earth North",
            CameraUp::MoonOrbitNormal => "Moon Orbit",
            CameraUp::EclipticNorth => "Ecliptic North",
        }
    }
}

/// How the camera stands on the line between two endpoints.
#[derive(Clone, Copy, PartialEq, Eq, Structural, Debug)]
pub enum CameraOrigin {
    /// At a fraction of the way.
    Fraction,
    /// So many kilometres short of what it looks at.
    DistToTo,
    /// So many kilometres from where it stands.
    DistFromFrom,
}

impl CameraOrigin {
    /// The name of the choice.
    pub fn label(&self) -> (r: &'static str)
        ensures
            r@ == (match *self {
                CameraOrigin::Fraction => "Fraction"@,
                CameraOrigin::DistToTo => "km to To"@,
                CameraOrigin::DistFromFrom => "km from From"@,
            }),
    {
        match self {
            CameraOrigin::Fraction => "Fraction",
            CameraOrigin::DistToTo => "km to To",
            CameraOrigin::DistFromFrom => "km from From",
        }
    }
}

/// Where the camera stands and what it looks at. One of the two may be free.
#[derive(Clone, Copy, PartialEq, Eq, Structural, Debug)]
pub struct CameraAim {
    pub from: CameraEndpoint,
    pub to: CameraEndpoint,
}

impl CameraAim {
    pub open spec fn wf(self) -> bool {
        self.from !is Free || self.to !is Free
    }

    /// Whether the camera goes round a body.
    pub open spec fn orbits(self) -> bool {
        self.from is Free || self.to is Free
    }

    /// Stands elsewhere. If both would be free, the camera looks at Earth.
    pub fn stand_on(&self, e: CameraEndpoint) -> (r: CameraAim)
        requires
            self.wf(),
        ensures
            r.wf(),
            r.from == e,
            r.to == (if e is Free && self.to is Free {
                CameraEndpoint::Earth
            } else {
                self.to
            }),
    {
        if e == CameraEndpoint::Free && self.to == CameraEndpoint::Free {
            CameraAim { from: e, to: CameraEndpoint::Earth }
        } else {
            CameraAim { from: e, to: self.to }
        }
    }

    /// Looks elsewhere. If both would be free, the camera stands on Earth.
    pub fn look_at(&self, e: CameraEndpoint) -> (r: CameraAim)
        requires
            self.wf(),
        ensures
            r.wf(),
            r.to == e,
            r.from == (if e is Free && self.from is Free {
                CameraEndpoint::Earth
            } else {
                self.from
            }),
    {
        if e == CameraEndpoint::Free && self.from == CameraEndpoint::Free {
            CameraAim { from: CameraEndpoint::Earth, to: e }
        } else {
            CameraAim { from: self.from, to: e }
        }
    }

    /// The body that the camera goes round or looks at.
    pub fn orbit_center(&self) -> (r: CameraEndpoint)
        ensures
            self.from is Free ==> r == self.to,
            self.from !is Free && self.to is Free ==> r == self.from,
            self.from !is Free && self.to !is Free ==> r == self.to,
            self.wf() ==> r !is Free,
    {
        if self.from == CameraEndpoint::Free {
            self.to
        } else if self.to == CameraEndpoint::Free {
            self.from
        } else {
            self.to
        }
    }

    /// Whether the camera goes round a body, so that the mouse moves it.
    pub fn is_orbit(&self) -> (r: bool)
        ensures
            r == self.orbits(),
    {
        self.from == CameraEndpoint::Free || self.to == CameraEndpoint::Free
    }

    /// How the camera is moved, in words.
    pub fn mode_hint(&self) -> (r: &'static str)
        ensures
            r@ == (if self.orbits() {
                "Orbit (drag + scroll)"@
            } else {
                "Fixed"@
            }),
    {
        if self.is_orbit() {
            "Orbit (drag + scroll)"
        } else {
            "Fixed"
        }
    }
}

/// Bits of the square of the distance below which two endpoints count as one.
pub const SAME_PLACE_BITS: u64 = 0x3F50_624D_E000_0000;

/// How the camera is placed.
#[derive(Clone, Copy, PartialEq, Eq, Structural, Debug)]
pub enum CameraPlan {
    /// On the line from one endpoint to the other, looking at the latter.
    Along,
    /// Round the endpoint that it stands on.
    RoundFrom,
    /// Round the endpoint that it looks at.
    RoundTo,
    /// Round Earth.
    RoundEarth,
}

/// How the camera is placed, by the endpoints that have a position and the square
/// of the distance between the two.
pub fn camera_plan(from_placed: bool, to_placed: bool, distance_squared: Scalar) -> (r: CameraPlan)
    ensures
        r == (if from_placed && to_placed {
            if (Scalar { bits: SAME_PLACE_BITS }).lt(distance_squared) {
                CameraPlan::Along
            } else {
                CameraPlan::RoundFrom
            }
        } else if from_placed {
            CameraPlan::RoundFrom
        } else if to_placed {
            CameraPlan::RoundTo
        } else {
            CameraPlan::RoundEarth
        }),
{
    if from_placed && to_placed {
        let same_place: Scalar = Scalar { bits: SAME_PLACE_BITS };
        if same_place.less(&distance_squared) {
            CameraPlan::Along
        } else {
            CameraPlan::RoundFrom
        }
    } else if from_placed {
        CameraPlan::RoundFrom
    } else if to_placed {
        CameraPlan::RoundTo
    } else {
        CameraPlan::RoundEarth
    }
}

/// Whether a number is so many halves, exactly.
pub open spec fn is_halves(x: Scalar, halves: int) -> bool {
    !x.is_nan() && x.value() * 2 == halves * pow2(UNIT_EXPONENT as nat)
}

/// Whether a number lies between two numbers of halves.
pub open spec fn within_halves(x: Scalar, low: int, high: int) -> bool {
    !x.is_nan() && low * pow2(UNIT_EXPONENT as nat) <= x.value() * 2 && x.value() * 2 <= high * pow2(
        UNIT_EXPONENT as nat,
    )
}

/// A number of halves.
fn halves(n: u32) -> (r: Scalar)
    ensures
        is_halves(r, n as int),
{
    proof {
        vstd::arithmetic::power2::lemma2_to64();
        assert(pow2(1) == 2);
    }
    Scalar::of_parts(n, 1)
}

/// The elevation of the camera, kept between 1.5 down and 1.5 up.
pub fn clamp_elevation(x: Scalar) -> (r: Scalar)
    ensures
        within_halves(x, -3, 3) ==> r == x,
        !x.is_nan() && x.value() * 2 < -3 * pow2(UNIT_EXPONENT as nat) ==> is_halves(r, -3),
        !x.is_nan() && x.value() * 2 > 3 * pow2(UNIT_EXPONENT as nat) ==> is_halves(r, 3),
        !x.is_nan() ==> within_halves(r, -3, 3),
        x.is_nan() ==> r == x,
{
    let high: Scalar = halves(3);
    let low: Scalar = high.negated();
    proof {
        vstd::arithmetic::power2::lemma_pow2_pos(UNIT_EXPONENT as nat);
    }
    x.clamp(low, high)
}

/// The distance of the camera, kept between 5 and 3000.
pub fn clamp_distance(x: Scalar) -> (r: Scalar)
    ensures
        within_halves(x, 10, 6000) ==> r == x,
        !x.is_nan() && x.value() * 2 < 10 * pow2(UNIT_EXPONENT as nat) ==> is_halves(r, 10),
        !x.is_nan() && x.value() * 2 > 6000 * pow2(UNIT_EXPONENT as nat) ==> is_halves(r, 6000),
        !x.is_nan() ==> within_halves(r, 10, 6000),
        x.is_nan() ==> r == x,
{
    let low: Scalar = halves(10);
    let high: Scalar = halves(6000);
    proof {
        vstd::arithmetic::power2::lemma_pow2_pos(UNIT_EXPONENT as nat);
    }
    x.clamp(low, high)
}

/// The fraction of the way at which the camera stands, kept between 0 and 1.
pub fn clamp_fraction(x: Scalar) -> (r: Scalar)
    ensures
        within_halves(x, 0, 2) ==> r == x,
        !x.is_nan() && x.value() < 0 ==> is_halves(r, 0),
        !x.is_nan() && x.value() * 2 > 2 * pow2(UNIT_EXPONENT as nat) ==> is_halves(r, 2),
        !x.is_nan() ==> within_halves(r, 0, 2),
        x.is_nan() ==> r == x,
{
    let low: Scalar = halves(0);
    let high: Scalar = halves(2);
    proof {
        vstd::arithmetic::power2::lemma_pow2_pos(UNIT_EXPONENT as nat);
    }
    x.clamp(low, high)
}

/// What the projection of the camera is.
#[derive(Clone, Copy, PartialEq, Eq, Structural, Debug)]
pub enum ProjectionKind {
    Perspective,
    Orthographic,
    Other,
}

/// What is to be done to the projection of the camera.
#[derive(Clone, Copy, PartialEq, Eq, Structural, Debug)]
pub enum ProjectionChange {
    Keep,
    MakePerspective,
    MakeOrthographic,
    Rescale,
}

/// What is to be done to the projection of the camera: it is replaced where it is
/// not of the kind wanted, and an orthographic one follows the distance.
pub fn projection_change(perspective: bool, current: ProjectionKind) -> (r: ProjectionChange)
    ensures
        r == (if perspective {
            if current is Perspective {
                ProjectionChange::Keep
            } else {
                ProjectionChange::MakePerspective
            }
        } else if current is Orthographic {
            ProjectionChange::Rescale
        } else {
            ProjectionChange::MakeOrthographic
        }),
{
    if perspective {
        match current {
            ProjectionKind::Perspective => ProjectionChange::Keep,
            _ => ProjectionChange::MakePerspective,
        }
    } else {
        match current {
            ProjectionKind::Orthographic => ProjectionChange::Rescale,
            _ => ProjectionChange::MakeOrthographic,
        }
    }
}

/// The targets in the order of the cycle: Earth, Moon, the point between the Moon
/// and the first Lagrange point, the Lagrange points by number, and the bodies.
pub proof fn lemma_targets_in_order(body: usize)
    ensures
        target(0) is Earth && target(1) is Moon && target(2) is MoonEML1,
        target(3) is EML1 && target(4) is EML2 && target(5) is EML3 && target(6) is EML4
            && target(7) is EML5,
        target(8 + body) == CameraEndpoint::Satellite(body),
{
}

/// Going on from a target leads to the next one: along the fixed ones, from the last
/// of these to the first body, from body to body, and from the last of all to Earth.
/// What is no target counts as Earth.
pub proof fn lemma_next_target(satellites: int, body: usize, e: CameraEndpoint)
    requires
        0 <= satellites <= usize::MAX,
        body < satellites,
        !e.is_target(satellites),
    ensures
        cycled(CameraEndpoint::Earth, satellites, true) is Moon,
        cycled(CameraEndpoint::Moon, satellites, true) is MoonEML1,
        cycled(CameraEndpoint::MoonEML1, satellites, true) is EML1,
        cycled(CameraEndpoint::EML1, satellites, true) is EML2,
        cycled(CameraEndpoint::EML2, satellites, true) is EML3,
        cycled(CameraEndpoint::EML3, satellites, true) is EML4,
        cycled(CameraEndpoint::EML4, satellites, true) is EML5,
        cycled(CameraEndpoint::EML5, satellites, true) == CameraEndpoint::Satellite(0),
        cycled(CameraEndpoint::EML5, 0, true) is Earth,
        cycled(CameraEndpoint::Satellite(body), satellites, true) == (if body + 1 < satellites {
            CameraEndpoint::Satellite((body + 1) as usize)
        } else {
            CameraEndpoint::Earth
        }),
        cycled(e, satellites, true) is Moon,
        cycled(e, satellites, false) == CameraEndpoint::Satellite((satellites - 1) as usize),
        cycled(CameraEndpoint::Free, 0, true) is Moon,
        cycled(CameraEndpoint::Free, 0, false) is EML5,
{
    let count = 8 + satellites;
    lemma_next_places(0, count);
    lemma_next_places(1, count);
    lemma_next_places(2, count);
    lemma_next_places(3, count);
    lemma_next_places(4, count);
    lemma_next_places(5, count);
    lemma_next_places(6, count);
    lemma_next_places(7, count);
    lemma_next_places(8 + body, count);
    lemma_next_places(7, 8);
    lemma_next_places(0, 8);
}

/// Without bodies the cycle goes along the fixed targets, and from the last back to
/// Earth.
pub proof fn lemma_next_target_without_bodies(place: int)
    requires
        0 <= place < 8,
    ensures
        cycled(target(place), 0, true) == (if place == 7 {
            CameraEndpoint::Earth
        } else {
            target(place + 1)
        }),
        cycled(target(place), 0, false) == (if place == 0 {
            CameraEndpoint::EML5
        } else {
            target(place - 1)
        }),
{
    lemma_next_places(place, 8);
}

/// An endpoint is a target unless it is free or a body that is not there. The camera
/// goes round a body just if one of its endpoints is free.
pub proof fn lemma_targets_and_aims(e: CameraEndpoint, satellites: int, aim: CameraAim)
    ensures
        e.is_target(satellites) <==> match e {
            CameraEndpoint::Free => false,
            CameraEndpoint::Satellite(i) => i < satellites,
            _ => true,
        },
        aim.orbits() <==> aim.from is Free || aim.to is Free,
        aim.wf() <==> !(aim.from is Free && aim.to is Free),
{
}

/// A number lies between so many halves and so many others just if twice its value
/// does, with the ends; it is so many halves if it lies between these and these.
pub proof fn lemma_halves_by_value(x: Scalar, low: int, high: int)
    ensures
        within_halves(x, low, high) <==> !x.is_nan() && low * pow2(1074) <= 2 * x.value() <= high
            * pow2(1074),
        is_halves(x, low) <==> within_halves(x, low, low),
{
}

} // verus!
