use solar_system_sim::stars::{stars_visible, SpectralClass};

#[test]
fn colors_by_class() {
    assert_eq!(SpectralClass::O.to_color(), (60, 70, 100));
    assert_eq!(SpectralClass::B.to_color(), (70, 80, 100));
    assert_eq!(SpectralClass::A.to_color(), (90, 92, 100));
    assert_eq!(SpectralClass::F.to_color(), (100, 98, 90));
    assert_eq!(SpectralClass::G.to_color(), (100, 95, 70));
    assert_eq!(SpectralClass::K.to_color(), (100, 80, 50));
    assert_eq!(SpectralClass::M.to_color(), (100, 60, 40));
}

#[test]
fn stars_need_perspective() {
    assert!(stars_visible(true, true));
    assert!(!stars_visible(true, false));
    assert!(!stars_visible(false, true));
}
