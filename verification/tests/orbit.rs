use solar_system_sim::lagrange::LagrangeId;
use solar_system_sim::orbit::{
    menu_orbital_elements, orbit_label, period_unit, AnalysisRef, OrbitShape, PeriodUnit,
    ReferenceFrame,
};
use solar_system_sim::scalar::Scalar;

fn s(x: f64) -> Scalar {
    Scalar { bits: x.to_bits() }
}

#[test]
fn the_orbits_of_the_menu() {
    let (name, leo) = menu_orbital_elements(0).unwrap();
    assert_eq!(name, "LEO");
    assert_eq!(leo.shape, OrbitShape::Circle { radius_m: 6_778_137 });
    assert_eq!((leo.inclination_tenths, leo.frame), (516, ReferenceFrame::EarthJ2000));
    let (name, gto) = menu_orbital_elements(1).unwrap();
    assert_eq!(name, "GTO");
    let shape = OrbitShape::Ellipse { periapsis_m: 6_628_137, apoapsis_m: 42_164_137 };
    assert_eq!((gto.shape, gto.arg_periapsis_tenths), (shape, 1800));
    let (name, transfer) = menu_orbital_elements(2).unwrap();
    assert_eq!(name, "Lunar Transfer");
    let shape = OrbitShape::Ellipse { periapsis_m: 6_578_137, apoapsis_m: 365_180_000 };
    assert_eq!((transfer.shape, transfer.arg_periapsis_tenths), (shape, 0));
    let (name, llo) = menu_orbital_elements(3).unwrap();
    assert_eq!(name, "LLO");
    assert_eq!(llo.shape, OrbitShape::Circle { radius_m: 1_837_400 });
    assert_eq!((llo.inclination_tenths, llo.frame), (900, ReferenceFrame::MoonJ2000));
    for (i, point) in [(4, LagrangeId::L1), (5, LagrangeId::L2)] {
        let (name, halo) = menu_orbital_elements(i).unwrap();
        assert_eq!(name, format!("{} Orbit", point.label()));
        assert_eq!(halo.shape, OrbitShape::ThroughPoint { point, eccentricity_hundredths: 2 });
    }
    assert!(menu_orbital_elements(6).is_none());
}

#[test]
fn orbits_clear_the_surface() {
    for i in 0..6 {
        let (_, p) = menu_orbital_elements(i).unwrap();
        let surface = match p.frame {
            ReferenceFrame::EarthJ2000 => AnalysisRef::Earth.radius_m(),
            ReferenceFrame::MoonJ2000 => AnalysisRef::Moon.radius_m(),
        };
        match p.shape {
            OrbitShape::Circle { radius_m } => assert!(radius_m > surface),
            OrbitShape::Ellipse { periapsis_m, .. } => assert!(periapsis_m > surface),
            OrbitShape::ThroughPoint { .. } => {}
        }
    }
}

#[test]
fn labels_beyond_the_menu() {
    assert_eq!(orbit_label(4), "EML1 Halo");
    assert_eq!(orbit_label(6), "?");
}

#[test]
fn references_have_their_constants() {
    assert_eq!(AnalysisRef::Earth.radius_m() as f64 / 1000.0, 6378.137);
    assert_eq!(AnalysisRef::Moon.radius_m() as f64 / 1000.0, 1737.4);
    assert_eq!(AnalysisRef::Earth.mu_e4() as f64 / 1e4, 398600.4418);
    assert_eq!(AnalysisRef::Moon.mu_e4() as f64 / 1e4, 4902.799);
    assert_eq!(AnalysisRef::Earth.frame(), ReferenceFrame::EarthJ2000);
    assert_eq!(AnalysisRef::Moon.frame(), ReferenceFrame::MoonJ2000);
}

#[test]
fn periods_have_units() {
    assert_eq!(period_unit(s(0.0), s(7000.0), s(5554.0)), PeriodUnit::Minutes);
    assert_eq!(period_unit(s(0.9), s(7000.0), s(86_400.0)), PeriodUnit::Days);
    assert_eq!(period_unit(s(1.0), s(7000.0), s(1.0)), PeriodUnit::Hyperbolic);
    assert_eq!(period_unit(s(0.5), s(-7000.0), s(1.0)), PeriodUnit::Hyperbolic);
    assert_eq!(period_unit(s(0.5), s(0.0), s(1.0)), PeriodUnit::Hyperbolic);
    assert_eq!(period_unit(s(0.5), s(1.0), s(f64::NAN)), PeriodUnit::Days);
    assert_eq!(period_unit(s(f64::NAN), s(1.0), s(1.0)), PeriodUnit::Hyperbolic);
}
