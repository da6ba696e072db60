use jones21cma::samples::{
    dipole_field_or_zero, jones_reciprocal, plane_peak, projected_cell_valid, MAGNITUDE_BITS,
    SIGN_BIT,
};

#[test]
fn reciprocal_jones_components_are_exact() {
    for (xt, xp) in [(0.7f64, -0.2f64), (0.0, 1.5), (-3.25, 0.0), (1e-300, -1e300)] {
        let j = jones_reciprocal(xt.to_bits(), xp.to_bits());
        assert_eq!(f64::from_bits(j.xt), xt);
        assert_eq!(f64::from_bits(j.xp), xp);
        // the copy keeps the very encoding
        assert_eq!(j.yt, j.xp);
        // the sign-bit flip is exact negation of an IEEE double
        assert_eq!(f64::from_bits(j.yp), -xt);
        assert_eq!(f64::from_bits(j.yp).to_bits(), xt.to_bits() ^ SIGN_BIT);
    }
}

#[test]
fn reciprocal_jones_negates_zero_to_negative_zero() {
    let j = jones_reciprocal(0.0f64.to_bits(), 1.0f64.to_bits());
    assert_eq!(f64::from_bits(j.yp), 0.0);
    assert!(f64::from_bits(j.yp).is_sign_negative());
}

#[test]
fn dipole_sentinel_is_exactly_zero_at_the_singularity() {
    // a zero angle, of either sign, forces exactly +0.0 whatever the ratio
    let r = dipole_field_or_zero(0.0f64.to_bits(), 0.0f64.to_bits(), f64::NAN.to_bits());
    assert_eq!(r, 0);
    assert_eq!(f64::from_bits(r), 0.0);
    assert!(f64::from_bits(r).is_sign_positive());
    let r = dipole_field_or_zero((-0.0f64).to_bits(), 1.0f64.to_bits(), 5.0f64.to_bits());
    assert_eq!(f64::from_bits(r), 0.0);
    // a zero sine alone forces it too
    let r = dipole_field_or_zero(1.0f64.to_bits(), (-0.0f64).to_bits(), 5.0f64.to_bits());
    assert_eq!(f64::from_bits(r), 0.0);
    // away from the singularity the ratio passes through unchanged
    let r = dipole_field_or_zero(1.5f64.to_bits(), 0.997f64.to_bits(), 2.25f64.to_bits());
    assert_eq!(f64::from_bits(r), 2.25);
}

#[test]
fn zero_encodings_have_only_the_sign_bit() {
    assert_eq!(0.0f64.to_bits() & MAGNITUDE_BITS, 0);
    assert_eq!((-0.0f64).to_bits() & MAGNITUDE_BITS, 0);
    assert_ne!(f64::MIN_POSITIVE.to_bits() & MAGNITUDE_BITS, 0);
    assert_ne!(5e-324f64.to_bits() & MAGNITUDE_BITS, 0); // least subnormal
}

#[test]
fn projected_cell_validity_follows_the_encoding() {
    assert!(projected_cell_valid(1.0f64.to_bits(), (-0.5f64).to_bits()));
    assert!(!projected_cell_valid(f64::NAN.to_bits(), 1.0f64.to_bits()));
    assert!(!projected_cell_valid(1.0f64.to_bits(), f64::INFINITY.to_bits()));
    assert!(!projected_cell_valid(f64::NEG_INFINITY.to_bits(), 1.0f64.to_bits()));
    // zero and subnormal components are not normal either, as the original
    // projection guard has it
    assert!(!projected_cell_valid(0.0f64.to_bits(), 1.0f64.to_bits()));
    assert!(!projected_cell_valid(1.0f64.to_bits(), 1.0e-310f64.to_bits()));
}

#[test]
fn plane_peak_finds_the_attained_maximum() {
    let v: Vec<u64> = [0.5f64, 2.0, 1.5, 0.0].iter().map(|x| x.to_bits()).collect();
    let p = plane_peak(&v, 0, 4);
    assert_eq!(f64::from_bits(p), 2.0);
    // nonnegative doubles order as their encodings, so dividing the region
    // by its peak leaves a maximum of exactly one
    let scaled: Vec<f64> = v.iter().map(|&b| f64::from_bits(b) / f64::from_bits(p)).collect();
    assert_eq!(scaled.iter().cloned().fold(0.0, f64::max), 1.0);
}

#[test]
fn plane_peak_of_an_all_zero_region_is_zero() {
    let v: Vec<u64> = vec![0, 0, 0];
    assert_eq!(plane_peak(&v, 0, 3), 0);
    assert_eq!(plane_peak(&v, 1, 1), 0);
    // only the region counts, not the rest of the buffer
    let v: Vec<u64> = vec![1.0f64.to_bits(), 0, 0];
    assert_eq!(plane_peak(&v, 1, 3), 0);
}
