use jones21cma::rings::{pixel_ring, ring_bounds, ring_z_num};

#[test]
fn ring_bounds_of_the_smallest_resolution() {
    // nside 1: no cap rings, three equatorial rings of four pixels
    assert_eq!(ring_bounds(1, 1), (0, 4, true));
    assert_eq!(ring_bounds(1, 2), (4, 4, false));
    assert_eq!(ring_bounds(1, 3), (8, 4, true));
}

#[test]
fn ring_bounds_tile_the_pixels() {
    for nside in [1usize, 2, 3, 4, 8] {
        let npix = 12 * nside * nside;
        let mut next = 0usize;
        for i in 1..=(4 * nside - 1) {
            let (start, size, _) = ring_bounds(nside, i);
            assert_eq!(start, next);
            assert!(size >= 4);
            next = start + size;
        }
        assert_eq!(next, npix);
    }
}

#[test]
fn ring_sizes_grow_through_the_cap_and_mirror() {
    // nside 4: cap rings of 4, 8, 12 pixels, belt rings of 16, mirrored south
    let sizes: Vec<usize> = (1..=15).map(|i| ring_bounds(4, i).1).collect();
    assert_eq!(
        sizes,
        vec![4, 8, 12, 16, 16, 16, 16, 16, 16, 16, 16, 16, 12, 8, 4]
    );
}

#[test]
fn belt_rings_alternate_their_azimuth_shift() {
    let shifts: Vec<bool> = (1..=15).map(|i| ring_bounds(4, i).2).collect();
    assert_eq!(
        shifts,
        vec![
            true, true, true, true, false, true, false, true, false, true, false, true, true,
            true, true
        ]
    );
}

#[test]
fn pixel_ring_decomposes_every_pixel() {
    for nside in [1usize, 2, 4, 8] {
        for ipix in 0..12 * nside * nside {
            let rp = pixel_ring(nside, ipix);
            let (start, size, _) = ring_bounds(nside, rp.ring);
            assert!(rp.ring >= 1 && rp.ring <= 4 * nside - 1);
            assert!(rp.index < size);
            assert_eq!(ipix, start + rp.index);
        }
    }
}

#[test]
fn pixel_ring_known_positions() {
    // nside 2: rings of 4, 8, 8, 8, 8, 8, 4 pixels
    let rp = pixel_ring(2, 0);
    assert_eq!((rp.ring, rp.index), (1, 0));
    let rp = pixel_ring(2, 3);
    assert_eq!((rp.ring, rp.index), (1, 3));
    let rp = pixel_ring(2, 4);
    assert_eq!((rp.ring, rp.index), (2, 0));
    let rp = pixel_ring(2, 12);
    assert_eq!((rp.ring, rp.index), (3, 0));
    let rp = pixel_ring(2, 44);
    assert_eq!((rp.ring, rp.index), (7, 0));
    let rp = pixel_ring(2, 47);
    assert_eq!((rp.ring, rp.index), (7, 3));
}

#[test]
fn ring_z_numerators_of_the_smallest_resolution() {
    // denominator 3: z values 2/3, 0, -2/3
    assert_eq!(ring_z_num(1, 1), 2);
    assert_eq!(ring_z_num(1, 2), 0);
    assert_eq!(ring_z_num(1, 3), -2);
}

#[test]
fn ring_z_numerators_decrease_strictly() {
    for nside in [1usize, 2, 4, 16] {
        let den = 3 * (nside * nside) as i64;
        let mut prev = den; // north pole
        for i in 1..=(4 * nside - 1) {
            let z = ring_z_num(nside, i);
            assert!(z < prev);
            assert!(-den < z && z < den);
            prev = z;
        }
        assert!(prev > -den); // south pole below every ring
    }
}

#[test]
fn ring_z_numerators_cross_the_regions() {
    // nside 2, denominator 12: cap ring 1 at 11, belt rings linear in steps
    // of 4, south cap mirror at -11
    let z: Vec<i64> = (1..=7).map(|i| ring_z_num(2, i)).collect();
    assert_eq!(z, vec![11, 8, 4, 0, -4, -8, -11]);
}
