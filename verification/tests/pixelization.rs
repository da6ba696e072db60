use jones21cma::healpix::{isqrt, npix2nside, nside2npix};

#[test]
fn pixel_count_of_small_resolutions() {
    assert_eq!(nside2npix(1), Some(12));
    assert_eq!(nside2npix(2), Some(48));
    assert_eq!(nside2npix(64), Some(49152));
    assert_eq!(nside2npix(1024), Some(12582912));
}

#[test]
fn pixel_count_rejects_zero_resolution() {
    assert_eq!(nside2npix(0), None);
}

#[test]
fn pixel_count_rejects_overflowing_resolution() {
    assert_eq!(nside2npix(usize::MAX), None);
    assert_eq!(nside2npix(1 << 31), None);
}

#[test]
fn resolution_of_valid_pixel_counts() {
    assert_eq!(npix2nside(12), Some(1));
    assert_eq!(npix2nside(48), Some(2));
    assert_eq!(npix2nside(49152), Some(64));
    assert_eq!(npix2nside(12582912), Some(1024));
}

#[test]
fn resolution_rejects_invalid_pixel_counts() {
    assert_eq!(npix2nside(0), None);
    assert_eq!(npix2nside(11), None);
    assert_eq!(npix2nside(13), None);
    assert_eq!(npix2nside(24), None); // divisible by 12 but 2 is no square
    assert_eq!(npix2nside(49), None);
    assert_eq!(npix2nside(usize::MAX), None);
}

#[test]
fn resolution_recovers_every_small_pixel_count() {
    for nside in 1..100usize {
        let npix = nside2npix(nside).unwrap();
        assert_eq!(npix2nside(npix), Some(nside));
    }
}

#[test]
fn integer_square_root_edges() {
    assert_eq!(isqrt(0), 0);
    assert_eq!(isqrt(1), 1);
    assert_eq!(isqrt(3), 1);
    assert_eq!(isqrt(4), 2);
    assert_eq!(isqrt(15), 3);
    assert_eq!(isqrt(16), 4);
    assert_eq!(isqrt(usize::MAX), 4294967295);
}
