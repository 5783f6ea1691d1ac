use impedance_net::complex::Cplx;
use impedance_net::network::{
    leaf, parallel, parallel_ref, parallel_ref_right, series, series_ref, series_ref_left,
    series_ref_right, NetError, Network,
};

fn z(re: i128, im: i128, den: i128) -> Cplx {
    Cplx::new(re, im, den).expect("representable impedance")
}

fn reduced_value(n: Network) -> Cplx {
    let m = n.reduce().expect("reduction succeeds");
    m.unwrap_impedance().expect("a reduced network is a leaf")
}

#[test]
fn series_of_leaves_adds() {
    // 0.41 + 0j in series with 0 + 0.76j reduces to 0.41 + 0.76j.
    let a = leaf(z(41, 0, 100));
    let b = leaf(z(0, 76, 100));
    let got = reduced_value(series(a, b));
    assert!(got.equiv(&z(41, 76, 100)));
    // The components are the textbook sum, in lowest terms.
    assert_eq!(got.parts(), (41, 76, 100));
}

#[test]
fn parallel_of_leaves_is_product_over_sum() {
    // 2 || 3 = 2*3/(2+3) = 1.2.
    let a = leaf(z(2, 0, 1));
    let b = leaf(z(3, 0, 1));
    let got = reduced_value(parallel(a, b));
    assert!(got.equiv(&z(6, 0, 5)));
    assert!(got.equiv(&z(12, 0, 10)));
    assert_eq!(got.parts(), (6, 0, 5));
    assert!(!got.equiv(&z(1, 0, 1)));
}

#[test]
fn parallel_with_imaginary_parts() {
    // (0+46j) || (200+0j) = 9200j / (200+46j).
    let a = leaf(z(0, 46, 1));
    let b = leaf(z(200, 0, 1));
    let got = reduced_value(parallel(a, b));
    // 9200j * (200-46j) / (200^2+46^2) = (423200 + 1840000j) / 42116.
    assert!(got.equiv(&z(423200, 1840000, 42116)));
}

#[test]
fn reduce_leaf_is_identity() {
    let n = leaf(z(7, -9, 4));
    let m = n.reduce().expect("a leaf reduces");
    let got = m.unwrap_impedance().expect("still a leaf");
    assert_eq!(got.parts(), (7, -9, 4));
}

#[test]
fn reduce_is_idempotent() {
    let n = series(leaf(z(1, 2, 3)), parallel(leaf(z(4, 0, 1)), leaf(z(0, 5, 2))));
    let once = n.reduce().expect("reduction succeeds");
    let first = once.unwrap_impedance().expect("leaf");
    let twice = once.reduce().expect("a reduced network reduces again");
    let second = twice.unwrap_impedance().expect("leaf");
    assert_eq!(first.parts(), second.parts());
}

#[test]
fn reduce_yields_exactly_one_leaf() {
    let n = parallel(
        series(leaf(z(1, 1, 2)), leaf(z(3, -1, 4))),
        series(leaf(z(0, 2, 1)), parallel(leaf(z(5, 0, 3)), leaf(z(2, 2, 7)))),
    );
    let m = n.reduce().expect("reduction succeeds");
    assert!(m.unwrap_impedance().is_ok());
}

#[test]
fn ohm_round_trip_current_first() {
    // current_from_voltage(voltage_from_current(i)) denotes i again.
    let net = leaf(z(3, 4, 1));
    let i = z(7, -2, 5);
    let v = net.voltage_from_current(i).expect("leaf derivation");
    let i_back = net.current_from_voltage(v).expect("leaf derivation");
    assert!(i_back.equiv(&i));
}

#[test]
fn ohm_round_trip_voltage_first() {
    // Scenario: z = 1.17 + 1.67j, v = 220 + 0j.
    let net = leaf(z(117, 167, 100));
    let v = z(220, 0, 1);
    let i = net.current_from_voltage(v).expect("leaf derivation");
    // v/z = 22000*(117-167j) / (117^2+167^2) = (2574000 - 3674000j)/41578.
    assert!(i.equiv(&z(2574000, -3674000, 41578)));
    let v_back = net.voltage_from_current(i).expect("leaf derivation");
    assert!(v_back.equiv(&v));
}

#[test]
fn derivations_fail_on_composite() {
    let n = series(leaf(z(1, 0, 1)), leaf(z(2, 0, 1)));
    assert_eq!(
        n.current_from_voltage(z(1, 0, 1)).unwrap_err(),
        NetError::UnsupportedOnComposite
    );
    assert_eq!(
        n.voltage_from_current(z(1, 0, 1)).unwrap_err(),
        NetError::UnsupportedOnComposite
    );
    assert_eq!(n.unwrap_impedance().unwrap_err(), NetError::InvalidExtraction);

    let p = parallel(leaf(z(1, 0, 1)), leaf(z(2, 0, 1)));
    assert_eq!(
        p.current_from_voltage(z(1, 0, 1)).unwrap_err(),
        NetError::UnsupportedOnComposite
    );
    assert_eq!(
        p.voltage_from_current(z(1, 0, 1)).unwrap_err(),
        NetError::UnsupportedOnComposite
    );
    assert_eq!(p.unwrap_impedance().unwrap_err(), NetError::InvalidExtraction);
}

#[test]
fn value_and_ref_composition_agree() {
    let a = leaf(z(1, 2, 5));
    let b = leaf(z(3, 0, 2));
    let c = leaf(z(0, 7, 3));

    let by_ref = parallel_ref(&series_ref(&a, &b), &c);
    let mixed = parallel_ref_right(series_ref_left(&a, b.duplicate()), &c);
    let by_value = parallel(series(a, b), c);

    let v_ref = reduced_value(by_ref);
    let v_mixed = reduced_value(mixed);
    let v_val = reduced_value(by_value);
    assert_eq!(v_ref.parts(), v_val.parts());
    assert_eq!(v_mixed.parts(), v_val.parts());
    assert!(v_ref.equiv(&v_val));
}

#[test]
fn zero_sum_parallel_fails_numeric() {
    // Two exact negatives in parallel: the formula divides by zero.
    let n = parallel(leaf(z(1, -2, 1)), leaf(z(-1, 2, 1)));
    assert_eq!(n.reduce().unwrap_err(), NetError::Numeric);
}

#[test]
fn overflowing_series_fails_numeric() {
    let big = z(i128::MAX, 0, 1);
    let n = series(leaf(big), leaf(big));
    assert_eq!(n.reduce().unwrap_err(), NetError::Numeric);
}

#[test]
fn division_by_zero_impedance_fails_numeric() {
    let n = leaf(z(0, 0, 1));
    assert_eq!(
        n.current_from_voltage(z(220, 0, 1)).unwrap_err(),
        NetError::Numeric
    );
}

#[test]
fn constructor_rejects_unrepresentable() {
    assert!(Cplx::new(1, 1, 0).is_none());
    assert!(Cplx::new(i128::MIN, 0, 1).is_none());
    assert!(Cplx::new(0, i128::MIN, 1).is_none());
    assert!(Cplx::new(0, 0, i128::MIN).is_none());
    assert!(Cplx::new(1, 1, 1).is_some());
}

#[test]
fn constructor_normalizes_denominator_sign() {
    let v = z(1, -2, -4);
    assert_eq!(v.parts(), (-1, 2, 4));
    assert!(v.equiv(&z(-1, 2, 4)));
}

#[test]
fn equiv_ignores_representation() {
    assert!(z(1, 0, 2).equiv(&z(2, 0, 4)));
    assert!(z(-3, 6, 9).equiv(&z(-1, 2, 3)));
    assert!(!z(1, 0, 2).equiv(&z(1, 0, 3)));
}

#[test]
fn motor_network_reduces_and_derives() {
    // The induction-motor equivalent circuit: exact reduction and both
    // Ohm derivations stay representable thanks to normalization.
    let r1 = leaf(z(41, 0, 100));
    let jx1 = leaf(z(0, 76, 100));
    let r2 = leaf(z(55, 0, 100));
    let jx2 = leaf(z(0, 92, 100));
    let rf = leaf(z(200, 0, 1));
    let jxm = leaf(z(0, 46, 1));
    let rc = leaf(z(55 * 1740, 0, 100 * 60));

    let rotor = series_ref_right(series_ref(&r2, &rc), &jx2);
    let magnet = parallel_ref(&jxm, &rf);
    let stator = series_ref(&r1, &jx1);
    let zmit = series_ref_right(parallel_ref(&rotor, &magnet), &stator);

    let zeq = reduced_value(zmit);
    assert_eq!(zeq.parts(), (97416656059549, 41663800079164, 7093307998900));

    let i1 = leaf(zeq).current_from_voltage(z(220, 0, 1)).expect("stator current");
    assert_eq!(
        i1.parts(),
        (2143166433310078000, -916603601741608000, 158260111031437973)
    );

    let branch = reduced_value(parallel_ref(&rotor, &magnet));
    let e0 = leaf(branch).voltage_from_current(i1).expect("air-gap voltage");
    assert_eq!(
        e0.parts(),
        (33241907451935600000, -1252999012601600000, 158260111031437973)
    );

    let rotor_eq = reduced_value(rotor);
    let i2 = e0.checked_div(rotor_eq).expect("rotor current");
    assert_eq!(
        i2.parts(),
        (2004196005020000000, -187688444680000000, 158260111031437973)
    );
}
