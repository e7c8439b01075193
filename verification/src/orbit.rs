//! Orbits that can be asked for by name, and how an orbit is described.

use crate::constants::{
    DAY, EARTH_MU_E4, EARTH_RADIUS_M, MOON_MU_E4, MOON_RADIUS_M, MOON_SEMI_MAJOR_AXIS_M,
};
use crate::lagrange::LagrangeId;
use crate::scalar::Scalar;
use vstd::prelude::*;

verus! {

/// Reference frame of an orbit.
#[derive(Clone, Copy, PartialEq, Eq, Structural, Debug)]
pub enum ReferenceFrame {
    EarthJ2000,
    MoonJ2000,
}

/// Shape and size of an orbit, in metres from the centre of its frame.
#[derive(Clone, Copy, PartialEq, Eq, Structural, Debug)]
pub enum OrbitShape {
    Circle { radius_m: u64 },
    Ellipse { periapsis_m: u64, apoapsis_m: u64 },
    /// As far out as a Lagrange point, with an eccentricity in hundredths.
    ThroughPoint { point: LagrangeId, eccentricity_hundredths: u32 },
}

/// An orbit, its angles in tenths of a degree. The node and the anomaly are zero.
#[derive(Clone, Copy, PartialEq, Eq, Structural, Debug)]
pub struct OrbitPreset {
    pub shape: OrbitShape,
    pub inclination_tenths: u32,
    pub arg_periapsis_tenths: u32,
    pub frame: ReferenceFrame,
}

/// The number of orbits on the menu.
pub const PRESET_COUNT: usize = 6;

/// The orbits on the menu: low Earth orbit, geostationary transfer, lunar
/// transfer, low lunar orbit, and one each out to the first two Lagrange points.
pub open spec fn preset(index: int) -> OrbitPreset {
    let earth = EARTH_RADIUS_M as int;
    if index == 0 {
        OrbitPreset {
            shape: OrbitShape::Circle { radius_m: (earth + 400_000) as u64 },
            inclination_tenths: 516,
            arg_periapsis_tenths: 0,
            frame: ReferenceFrame::EarthJ2000,
        }
    } else if index == 1 {
        OrbitPreset {
            shape: OrbitShape::Ellipse {
                periapsis_m: (earth + 250_000) as u64,
                apoapsis_m: (earth + 35_786_000) as u64,
            },
            inclination_tenths: 285,
            arg_periapsis_tenths: 1800,
            frame: ReferenceFrame::EarthJ2000,
        }
    } else if index == 2 {
        OrbitPreset {
            shape: OrbitShape::Ellipse {
                periapsis_m: (earth + 200_000) as u64,
                apoapsis_m: (MOON_SEMI_MAJOR_AXIS_M * 95 / 100) as u64,
            },
            inclination_tenths: 285,
            arg_periapsis_tenths: 0,
            frame: ReferenceFrame::EarthJ2000,
        }
    } else if index == 3 {
        OrbitPreset {
            shape: OrbitShape::Circle { radius_m: (MOON_RADIUS_M + 100_000) as u64 },
            inclination_tenths: 900,
            arg_periapsis_tenths: 0,
            frame: ReferenceFrame::MoonJ2000,
        }
    } else {
        OrbitPreset {
            shape: OrbitShape::ThroughPoint {
                point: if index == 4 {
                    LagrangeId::L1
                } else {
                    LagrangeId::L2
                },
                eccentricity_hundredths: 2,
            },
            inclination_tenths: 50,
            arg_periapsis_tenths: 0,
            frame: ReferenceFrame::EarthJ2000,
        }
    }
}

/// The name that a body on one of the orbits gets.
pub open spec fn preset_name(index: int) -> Seq<char> {
    if index == 0 {
        "LEO"@
    } else if index == 1 {
        "GTO"@
    } else if index == 2 {
        "Lunar Transfer"@
    } else if index == 3 {
        "LLO"@
    } else if index == 4 {
        "EML1 Orbit"@
    } else {
        "EML2 Orbit"@
    }
}

/// How one of the orbits is called on the menu.
pub open spec fn preset_label(index: int) -> Seq<char> {
    if index == 0 {
        "LEO (400 km, 51.6°)"@
    } else if index == 1 {
        "GTO (250 x 35786 km)"@
    } else if index == 2 {
        "Lunar Transfer"@
    } else if index == 3 {
        "Low Lunar Orbit (100 km)"@
    } else if index == 4 {
        "EML1 Halo"@
    } else if index == 5 {
        "EML2 Halo"@
    } else {
        "?"@
    }
}

/// The name and the orbit at a place on the menu.
pub fn menu_orbital_elements(index: usize) -> (r: Option<(&'static str, OrbitPreset)>)
    ensures
        r is Some <==> index < PRESET_COUNT,
        r matches Some(p) ==> p.0@ == preset_name(index as int) && p.1 == preset(index as int),
{
    let named: (&'static str, OrbitShape, u32, u32) = match index {
        0 => ("LEO", OrbitShape::Circle { radius_m: EARTH_RADIUS_M + 400_000 }, 516, 0),
        1 => (
            "GTO",
            OrbitShape::Ellipse {
                periapsis_m: EARTH_RADIUS_M + 250_000,
                apoapsis_m: EARTH_RADIUS_M + 35_786_000,
            },
            285,
            1800,
        ),
        2 => (
            "Lunar Transfer",
            OrbitShape::Ellipse {
                periapsis_m: EARTH_RADIUS_M + 200_000,
                apoapsis_m: MOON_SEMI_MAJOR_AXIS_M * 95 / 100,
            },
            285,
            0,
        ),
        3 => ("LLO", OrbitShape::Circle { radius_m: MOON_RADIUS_M + 100_000 }, 900, 0),
        4 => (
            "EML1 Orbit",
            OrbitShape::ThroughPoint { point: LagrangeId::L1, eccentricity_hundredths: 2 },
            50,
            0,
        ),
        5 => (
            "EML2 Orbit",
            OrbitShape::ThroughPoint { point: LagrangeId::L2, eccentricity_hundredths: 2 },
            50,
            0,
        ),
        _ => {
            return None;
        },
    };
    let frame: ReferenceFrame = if index == 3 {
        ReferenceFrame::MoonJ2000
    } else {
        ReferenceFrame::EarthJ2000
    };
    Some(
        (
            named.0,
            OrbitPreset {
                shape: named.1,
                inclination_tenths: named.2,
                arg_periapsis_tenths: named.3,
                frame,
            },
        ),
    )
}

/// How the orbit at a place on the menu is called there.
pub fn orbit_label(index: usize) -> (r: &'static str)
    ensures
        r@ == preset_label(index as int),
{
    match index {
        0 => "LEO (400 km, 51.6°)",
        1 => "GTO (250 x 35786 km)",
        2 => "Lunar Transfer",
        3 => "Low Lunar Orbit (100 km)",
        4 => "EML1 Halo",
        5 => "EML2 Halo",
        _ => "?",
    }
}

/// Each orbit on the menu is closed and clears the surface of the body that it
/// goes round.
pub proof fn lemma_presets_clear_the_surface(index: int)
    requires
        0 <= index < PRESET_COUNT,
    ensures
        ({
            let p = preset(index);
            let surface = if p.frame is MoonJ2000 {
                MOON_RADIUS_M
            } else {
                EARTH_RADIUS_M
            };
            match p.shape {
                OrbitShape::Circle { radius_m } => surface < radius_m,
                OrbitShape::Ellipse { periapsis_m, apoapsis_m } => surface < periapsis_m
                    < apoapsis_m,
                OrbitShape::ThroughPoint { eccentricity_hundredths, .. } => eccentricity_hundredths
                    < 100,
            }
        }),
{
}

/// The body that an analysis refers to.
#[derive(Clone, Copy, PartialEq, Eq, Structural, Debug)]
pub enum AnalysisRef {
    Earth,
    Moon,
}

impl AnalysisRef {
    /// The radius of the body, in metres.
    pub fn radius_m(&self) -> (r: u64)
        ensures
            r == (match *self {
                AnalysisRef::Earth => EARTH_RADIUS_M,
                AnalysisRef::Moon => MOON_RADIUS_M,
            }),
    {
        match self {
            AnalysisRef::Earth => EARTH_RADIUS_M,
            AnalysisRef::Moon => MOON_RADIUS_M,
        }
    }

    /// The gravitational parameter of the body, in ten-thousandths of km^3/s^2.
    pub fn mu_e4(&self) -> (r: u64)
        ensures
            r == (match *self {
                AnalysisRef::Earth => EARTH_MU_E4,
                AnalysisRef::Moon => MOON_MU_E4,
            }),
    {
        match self {
            AnalysisRef::Earth => EARTH_MU_E4,
            AnalysisRef::Moon => MOON_MU_E4,
        }
    }

    /// The frame centred on the body.
    pub fn frame(&self) -> (r: ReferenceFrame)
        ensures
            r == (match *self {
                AnalysisRef::Earth => ReferenceFrame::EarthJ2000,
                AnalysisRef::Moon => ReferenceFrame::MoonJ2000,
            }),
    {
        match self {
            AnalysisRef::Earth => ReferenceFrame::EarthJ2000,
            AnalysisRef::Moon => ReferenceFrame::MoonJ2000,
        }
    }
}

/// How the period of an orbit is shown.
#[derive(Clone, Copy, PartialEq, Eq, Structural, Debug)]
pub enum PeriodUnit {
    Minutes,
    Days,
    /// The orbit is not closed and has no period.
    Hyperbolic,
}

/// How the period of an orbit is shown. The orbit is closed if its eccentricity
/// is less than one and its semi-major axis positive; periods from one day on
/// are shown in days.
pub fn period_unit(eccentricity: Scalar, semi_major_axis: Scalar, period_s: Scalar) -> (r:
    PeriodUnit)
    ensures
        r is Hyperbolic <==> !(eccentricity.under(1, 0) && !semi_major_axis.is_nan()
            && semi_major_axis.value() > 0),
        r is Minutes <==> !(r is Hyperbolic) && period_s.under(DAY as int, 0),
{
    let zero: Scalar = Scalar::of_parts(0, 0);
    proof {
        vstd::arithmetic::power2::lemma_pow2_pos(0);
        assert(zero.value() == 0) by (nonlinear_arith)
            requires
                zero.value() * vstd::arithmetic::power2::pow2(0) == 0
                    * vstd::arithmetic::power2::pow2(1074),
                vstd::arithmetic::power2::pow2(0) > 0,
        ;
    }
    if !(eccentricity.is_under(1, 0) && zero.less(&semi_major_axis)) {
        PeriodUnit::Hyperbolic
    } else if period_s.is_under(DAY, 0) {
        PeriodUnit::Minutes
    } else {
        PeriodUnit::Days
    }
}

/// An orbit of the menu is in the frame of the body that its shape is measured from:
/// the low lunar orbit goes round the Moon, and every other one round Earth, also
/// those out to a Lagrange point, whose distance is taken from Earth.
pub proof fn lemma_orbits_go_round_their_body(index: int)
    requires
        0 <= index < 6,
    ensures
        preset(index).frame is MoonJ2000 <==> index == 3,
        preset(index).shape is ThroughPoint ==> preset(index).frame is EarthJ2000,
{
}

/// The orbits of the menu in metres above the surface of the body that they go
/// round, and in tenths of a degree: two circles, two ellipses, and one orbit out to
/// each of the first two Lagrange points.
pub proof fn lemma_orbits_by_height(index: int)
    requires
        0 <= index < 6,
    ensures
        match preset(index).shape {
            OrbitShape::Circle { radius_m } => if index == 0 {
                radius_m - 6_378_137 == 400_000
            } else {
                index == 3 && radius_m - 1_737_400 == 100_000
            },
            OrbitShape::Ellipse { periapsis_m, apoapsis_m } => if index == 1 {
                periapsis_m - 6_378_137 == 250_000 && apoapsis_m - 6_378_137 == 35_786_000
            } else {
                index == 2 && periapsis_m - 6_378_137 == 200_000 && apoapsis_m * 100 == 384_400_000
                    * 95
            },
            OrbitShape::ThroughPoint { point, eccentricity_hundredths } => eccentricity_hundredths
                == 2 && if index == 4 {
                point is L1
            } else {
                index == 5 && point is L2
            },
        },
        index == 0 ==> preset(index).inclination_tenths == 516,
        index == 1 || index == 2 ==> preset(index).inclination_tenths == 285,
        index == 3 ==> preset(index).inclination_tenths == 900,
        index >= 4 ==> preset(index).inclination_tenths == 50,
        preset(index).arg_periapsis_tenths == (if index == 1 {
            1800int
        } else {
            0
        }),
{
}

/// The name that a body gets tells its orbit: no two orbits share one, and those
/// out to a Lagrange point start with the name of that point.
pub proof fn lemma_bodies_are_named_by_their_orbit(i: int, j: int)
    requires
        0 <= i < 6,
        0 <= j < 6,
    ensures
        i != j ==> preset_name(i) != preset_name(j) && preset_label(i) != preset_label(j),
        preset(i).shape matches OrbitShape::ThroughPoint { point, .. } ==> preset_name(i).take(4)
            == point.name() && preset_label(i).take(4) == point.name(),
{
    reveal_strlit("LEO");
    reveal_strlit("GTO");
    reveal_strlit("Lunar Transfer");
    reveal_strlit("LLO");
    reveal_strlit("EML1 Orbit");
    reveal_strlit("EML2 Orbit");
    reveal_strlit("LEO (400 km, 51.6°)");
    reveal_strlit("GTO (250 x 35786 km)");
    reveal_strlit("Low Lunar Orbit (100 km)");
    reveal_strlit("EML1 Halo");
    reveal_strlit("EML2 Halo");
    reveal_strlit("EML1");
    reveal_strlit("EML2");
    assert("EML1 Orbit"@.take(4) =~= "EML1"@);
    assert("EML2 Orbit"@.take(4) =~= "EML2"@);
    assert("EML1 Halo"@.take(4) =~= "EML1"@);
    assert("EML2 Halo"@.take(4) =~= "EML2"@);
    assert("LEO"@[1] == 'E' && "LLO"@[1] == 'L' && "Lunar Transfer"@[1] == 'u');
    assert("GTO"@[0] == 'G' && "LEO"@[0] == 'L');
    assert("EML1 Orbit"@[0] == 'E' && "EML2 Orbit"@[0] == 'E');
    assert("EML1 Orbit"@[3] == '1' && "EML2 Orbit"@[3] == '2');
    assert("LLO"@[0] == 'L' && "Lunar Transfer"@[0] == 'L');
    assert("LEO (400 km, 51.6°)"@[1] == 'E' && "Low Lunar Orbit (100 km)"@[1] == 'o');
    assert("LEO (400 km, 51.6°)"@[0] == 'L' && "Low Lunar Orbit (100 km)"@[0] == 'L');
    assert("GTO (250 x 35786 km)"@[0] == 'G');
    assert("EML1 Halo"@[0] == 'E' && "EML2 Halo"@[0] == 'E');
    assert("EML1 Halo"@[3] == '1' && "EML2 Halo"@[3] == '2');
}

} // verus!
