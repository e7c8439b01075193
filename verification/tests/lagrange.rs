use solar_system_sim::lagrange::{LagrangeId, Placement};

#[test]
fn labels_follow_the_numbers() {
    let labels: Vec<&str> = LagrangeId::all().iter().map(|id| id.label()).collect();
    assert_eq!(labels, vec!["EML1", "EML2", "EML3", "EML4", "EML5"]);
}

#[test]
fn triangular_points_lead_and_trail_the_moon() {
    assert_eq!(LagrangeId::L1.placement(), Placement::BeforeMoon);
    assert_eq!(LagrangeId::L2.placement(), Placement::BeyondMoon);
    assert_eq!(LagrangeId::L3.placement(), Placement::OppositeMoon);
    assert_eq!(LagrangeId::L4.placement(), Placement::Ahead(60));
    assert_eq!(LagrangeId::L5.placement(), Placement::Behind(60));
}
