use solar_system_sim::lagrange::LagrangeId;
use solar_system_sim::menu::{grid_pushes, AddBodyEntry, AddBodyMenuState, Axis};

#[test]
fn the_menu_in_order() {
    let labels: Vec<String> = AddBodyEntry::all().iter().map(|e| e.label()).collect();
    assert_eq!(
        labels,
        vec![
            "LEO (400 km, 51.6°)",
            "GTO (250 x 35786 km)",
            "Lunar Transfer",
            "Low Lunar Orbit (100 km)",
            "EML1 Halo",
            "EML2 Halo",
            "EML1 Grid",
            "EML1 Fan",
            "EML2 Grid",
            "EML2 Fan",
            "EML3 Grid",
            "EML3 Fan",
            "EML4 Grid",
            "EML4 Fan",
            "EML5 Grid",
            "EML5 Fan",
            "Lunar Surface Fan",
        ]
    );
    assert_eq!(AddBodyEntry::Orbit(6).label(), "?");
}

#[test]
fn no_entry_comes_twice() {
    let all = AddBodyEntry::all();
    for (i, a) in all.iter().enumerate() {
        assert!(!all[i + 1..].contains(a));
    }
}

#[test]
fn fans_can_be_configured() {
    let fan = AddBodyEntry::LagrangeFan(LagrangeId::L2);
    let grid = AddBodyEntry::LagrangeGrid(LagrangeId::L2);
    assert!(fan.has_fan_config() && !fan.has_lunar_config());
    assert!(AddBodyEntry::LunarFan.has_fan_config() && AddBodyEntry::LunarFan.has_lunar_config());
    assert!(!grid.has_fan_config() && !AddBodyEntry::Orbit(0).has_fan_config());
    assert_eq!(fan.default_speed_m_s(), 100);
    assert_eq!(AddBodyEntry::LunarFan.default_speed_m_s(), 2335);
    assert_eq!(grid.default_speed_m_s(), 0);
}

#[test]
fn selecting_brings_the_speed_along() {
    let mut m = AddBodyMenuState::default();
    assert_eq!((m.selected, m.fan_count, m.fan_speed_m_s), (0, 36, 2335));
    assert_eq!((m.lunar_az_deg, m.lunar_el_deg), (150, 0));
    m.select(7);
    assert_eq!(m.entry(), AddBodyEntry::LagrangeFan(LagrangeId::L1));
    assert_eq!(m.fan_speed_m_s, 100);
    m.select(0);
    assert_eq!(m.fan_speed_m_s, 0);
    m.selected = 99;
    assert_eq!(m.entry(), AddBodyEntry::LunarFan);
}

#[test]
fn a_grid_pushes_along_each_axis() {
    let p = grid_pushes(LagrangeId::L3);
    let names: Vec<&str> = p.iter().map(|x| x.name.as_str()).collect();
    assert_eq!(names, vec!["EML3 +X", "EML3 -X", "EML3 +Y", "EML3 -Y", "EML3 +Z", "EML3 -Z"]);
    assert_eq!((p[3].axis, p[3].positive), (Axis::Y, false));
    assert_eq!((p[4].axis, p[4].positive), (Axis::Z, true));
}
