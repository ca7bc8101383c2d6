use pc_monitoring::curve::ControlPoints;

fn curve(points: Vec<(u8, u8)>) -> ControlPoints {
    ControlPoints::from_pairs(points).expect("breakpoints must be sorted strictly ascending")
}

#[test]
fn get_pwm_from_temp() {
    let cp = curve(vec![(0, 100), (20, 150), (50, 200), (100, 200)]);

    assert_eq!(cp.get_pwm_from_temp(0), 100);
    assert_eq!(cp.get_pwm_from_temp(20), 150);
    assert_eq!(cp.get_pwm_from_temp(50), 200);

    assert_eq!(cp.get_pwm_from_temp(30), 166);
}

#[test]
fn out_of_range_temperatures_fail_to_maximum() {
    let cp = curve(vec![(0, 100), (20, 150), (50, 200), (100, 200)]);

    assert_eq!(cp.get_pwm_from_temp(-5), 255);
    assert_eq!(cp.get_pwm_from_temp(150), 255);
    assert_eq!(cp.get_pwm_from_temp(100), 255);
}

#[test]
fn interpolation_handles_descending_duty() {
    let cp = curve(vec![(0, 200), (10, 100)]);

    assert_eq!(cp.get_pwm_from_temp(0), 200);
    assert_eq!(cp.get_pwm_from_temp(5), 150);
    assert_eq!(cp.get_pwm_from_temp(1), 190);
}

#[test]
fn from_pairs_rejects_bad_tables() {
    assert!(ControlPoints::from_pairs(vec![]).is_none());
    assert!(ControlPoints::from_pairs(vec![(10, 100)]).is_none());
    assert!(ControlPoints::from_pairs(vec![(10, 100), (10, 150)]).is_none());
    assert!(ControlPoints::from_pairs(vec![(20, 100), (10, 150)]).is_none());
    assert!(ControlPoints::from_pairs(vec![(10, 100), (20, 150)]).is_some());
}
