//! Ring layout of the equal-area spherical pixelization, in ring ordering:
//! pixels are numbered north to south along `4 * nside - 1` rings of constant
//! polar angle. The north polar cap holds rings `1 .. nside` of `4 * i`
//! pixels, the equatorial belt rings `nside ..= 3 * nside` of `4 * nside`
//! pixels, and the south cap mirrors the north. The layout facts here are
//! exact: the rings tile the pixel range, and every pixel decomposes uniquely
//! into its ring and its position along it.

use vstd::prelude::*;
use vstd::arithmetic::div_mod::lemma_fundamental_div_mod;

use crate::healpix::isqrt;

verus! {

/// Number of rings of a pixelization at resolution `nside`.
pub open spec fn ring_count(nside: int) -> int {
    4 * nside - 1
}

/// Number of pixels on ring `i`.
pub open spec fn ring_size(nside: int, i: int) -> int {
    if i < nside {
        4 * i
    } else if i <= 3 * nside {
        4 * nside
    } else {
        4 * (4 * nside - i)
    }
}

/// First pixel of ring `i`; `ring_start(nside, 4 * nside)` is the pixel count,
/// one past the last ring.
pub open spec fn ring_start(nside: int, i: int) -> int {
    if i <= nside {
        2 * i * (i - 1)
    } else if i <= 3 * nside {
        2 * nside * (nside - 1) + (i - nside) * 4 * nside
    } else {
        12 * nside * nside - 2 * (4 * nside - i) * (4 * nside - i + 1)
    }
}

/// Rings whose pixel centres are offset by half a step in azimuth: every cap
/// ring, and every other ring of the equatorial belt.
pub open spec fn ring_shifted(nside: int, i: int) -> bool {
    i < nside || i > 3 * nside || (i - nside) % 2 == 0
}

/// The rings tile the pixel range: each ring ends where the next begins, the
/// first begins at pixel 0, the last ends at the pixel count, and no ring is
/// empty.
pub proof fn lemma_ring_partition(nside: int, i: int)
    requires
        1 <= nside,
        1 <= i <= ring_count(nside),
    ensures
        ring_start(nside, i) + ring_size(nside, i) == ring_start(nside, i + 1),
        ring_start(nside, 1) == 0,
        ring_start(nside, 4 * nside) == 12 * nside * nside,
        4 <= ring_size(nside, i),
        0 <= ring_start(nside, i),
{
    assert(ring_start(nside, i) + ring_size(nside, i) == ring_start(nside, i + 1)
            && ring_start(nside, 4 * nside) == 12 * nside * nside
            && 0 <= ring_start(nside, i)) by (nonlinear_arith)
        requires 1 <= nside, 1 <= i <= 4 * nside - 1;
}

/// Ring starts grow with the ring: the decomposition of a pixel into ring and
/// position along it is unique.
pub proof fn lemma_ring_start_monotone(nside: int, i: int, j: int)
    requires
        1 <= nside,
        1 <= i < j <= 4 * nside,
    ensures
        ring_start(nside, i) < ring_start(nside, j),
    decreases j - i,
{
    lemma_ring_partition(nside, i);
    if i + 1 < j {
        lemma_ring_start_monotone(nside, i + 1, j);
    }
}

/// Numerator of the z coordinate (cosine of the polar angle) of the centres
/// of ring `i`, over the common denominator `3 * nside * nside`: caps are
/// quadratic in the ring, the belt linear.
pub open spec fn ring_z_num_spec(nside: int, i: int) -> int {
    if i < nside {
        3 * nside * nside - i * i
    } else if i <= 3 * nside {
        (4 * nside - 2 * i) * nside
    } else {
        (4 * nside - i) * (4 * nside - i) - 3 * nside * nside
    }
}

/// Rings run strictly north to south: their z coordinates strictly decrease.
/// The bracketing search of an interpolating lookup rests on this order.
pub proof fn lemma_ring_z_decreasing(nside: int, i: int)
    requires
        1 <= nside,
        1 <= i < ring_count(nside),
    ensures
        ring_z_num_spec(nside, i) > ring_z_num_spec(nside, i + 1),
{
    assert(ring_z_num_spec(nside, i) > ring_z_num_spec(nside, i + 1)) by (nonlinear_arith)
        requires 1 <= nside, 1 <= i < 4 * nside - 1;
}

/// Every ring lies strictly between the poles (z of 1 and -1, numerators of
/// plus and minus the denominator).
pub proof fn lemma_ring_z_bounded(nside: int, i: int)
    requires
        1 <= nside,
        1 <= i <= ring_count(nside),
    ensures
        -3 * nside * nside < ring_z_num_spec(nside, i) < 3 * nside * nside,
{
    assert(-3 * nside * nside < ring_z_num_spec(nside, i) < 3 * nside * nside)
        by (nonlinear_arith)
        requires 1 <= nside, 1 <= i <= 4 * nside - 1;
}

/// Numerator of the z coordinate of ring `i`, over `3 * nside * nside`.
pub fn ring_z_num(nside: usize, i: usize) -> (r: i64)
    requires
        1 <= nside,
        12 * nside * nside <= usize::MAX,
        1 <= i <= ring_count(nside as int),
    ensures
        r == ring_z_num_spec(nside as int, i as int),
{
    proof {
        assert(nside * nside <= 0x1555_5555_5555_5555
                && 3 * (nside * nside) <= 0x4000_0000_0000_0000
                && nside <= 0x5000_0000 && 4 * nside <= 0x1_4000_0000)
            by (nonlinear_arith)
            requires
                nside >= 1,
                12 * nside * nside <= 0xFFFF_FFFF_FFFF_FFFF;
    }
    let n = nside as i64;
    let ii = i as i64;
    if i < nside {
        proof {
            assert(ii * ii < n * n && 3 * (n * n) - ii * ii == 3 * n * n - ii * ii)
                by (nonlinear_arith)
                requires 1 <= ii < n;
        }
        3 * (n * n) - ii * ii
    } else if i <= 3 * nside {
        proof {
            assert(-2 * (n * n) <= (4 * n - 2 * ii) * n <= 2 * (n * n)) by (nonlinear_arith)
                requires n <= ii <= 3 * n, n >= 1;
        }
        (4 * n - 2 * ii) * n
    } else {
        let i2 = 4 * n - ii;
        proof {
            assert(i2 * i2 < n * n
                    && i2 * i2 - 3 * (n * n)
                        == (4 * n - ii) * (4 * n - ii) - 3 * n * n) by (nonlinear_arith)
                requires 1 <= i2 < n, i2 == 4 * n - ii;
        }
        i2 * i2 - 3 * (n * n)
    }
}

/// A pixel's place in the ring layout: its ring (1-based from the north pole)
/// and its position along the ring (0-based, eastwards).
pub struct RingPos {
    pub ring: usize,
    pub index: usize,
}

/// Ring and in-ring position of pixel `ipix`: the unique decomposition of the
/// pixel number over the ring layout.
pub fn pixel_ring(nside: usize, ipix: usize) -> (r: RingPos)
    requires
        1 <= nside,
        12 * nside * nside <= usize::MAX,
        ipix < 12 * nside * nside,
    ensures
        1 <= r.ring <= ring_count(nside as int),
        r.index < ring_size(nside as int, r.ring as int),
        ipix == ring_start(nside as int, r.ring as int) + r.index,
{
    let n = nside;
    proof {
        assert(2 * n <= 12 * n * n && 4 * n <= 12 * n * n && 12 * n <= 12 * n * n
                && 2 * n * (n - 1) <= 12 * n * n && 2 <= 12 * n * n
                && 2 * n * (n - 1) + (2 * n + 1) * (4 * n) == 12 * n * n - 2 * n * (n - 1))
            by (nonlinear_arith)
            requires n >= 1;
    }
    let ncap = 2 * n * (n - 1);
    if ipix < ncap {
        let i = cap_ring(n, ipix);
        let start = 2 * i * (i - 1);
        proof {
            assert(2 * i * (i + 1) == 2 * i * (i - 1) + 4 * i) by (nonlinear_arith);
        }
        RingPos { ring: i, index: ipix - start }
    } else if ipix < 12 * n * n - ncap {
        let ip = ipix - ncap;
        let q = ip / (4 * n);
        let j = ip % (4 * n);
        proof {
            lemma_fundamental_div_mod(ip as int, (4 * n) as int);
            assert(q <= 2 * n) by (nonlinear_arith)
                requires
                    n >= 1,
                    ip < (2 * n + 1) * (4 * n),
                    ip == (4 * n) * q + j,
                    0 <= j < 4 * n,
                    0 <= q;
            assert(ring_start(n as int, (q + n) as int) == ncap + (4 * n) * q)
                by (nonlinear_arith)
                requires
                    n >= 1,
                    0 <= q <= 2 * n,
                    ncap == 2 * n * (n - 1);
        }
        RingPos { ring: q + n, index: j }
    } else {
        // mirror of the north cap, counting backwards from the south pole
        let ip = 12 * n * n - 1 - ipix;
        let i2 = cap_ring(n, ip);
        proof {
            assert(2 * i2 * (i2 + 1) <= 12 * n * n
                    && ring_start(n as int, (4 * n - i2) as int)
                        == 12 * n * n - 2 * i2 * (i2 + 1)
                    && ring_size(n as int, (4 * n - i2) as int) == 4 * i2
                    && (2 * i2 * (i2 - 1) <= ip
                        ==> (12 * n * n - 1 - ip) - (12 * n * n - 2 * i2 * (i2 + 1)) < 4 * i2))
                by (nonlinear_arith)
                requires
                    n >= 1,
                    1 <= i2 < n,
                    2 * i2 * (i2 - 1) <= ip < 2 * i2 * (i2 + 1);
        }
        let start = 12 * n * n - 2 * i2 * (i2 + 1);
        RingPos { ring: 4 * n - i2, index: ipix - start }
    }
}

/// Ring of a polar-cap pixel: the unique `i` with
/// `2 i (i - 1) <= p < 2 i (i + 1)`, found through the integer square root of
/// `2 p + 1`.
fn cap_ring(nside: usize, p: usize) -> (i: usize)
    requires
        1 <= nside,
        12 * nside * nside <= usize::MAX,
        p < 2 * nside * (nside - 1),
    ensures
        1 <= i < nside,
        2 * i * (i - 1) <= p < 2 * i * (i + 1),
{
    proof {
        assert(2 * p + 1 <= 4 * (nside * nside) && 4 * (nside * nside) <= 12 * nside * nside)
            by (nonlinear_arith)
            requires nside >= 1, p < 2 * nside * (nside - 1);
    }
    let s = isqrt(2 * p + 1);
    proof {
        assert(s <= 2 * nside && 2 * nside + 1 <= 12 * nside * nside) by (nonlinear_arith)
            requires
                s * s <= 4 * (nside * nside),
                nside >= 1,
                s >= 0;
    }
    let i = (1 + s) / 2;
    proof {
        // s lies between 2 i - 1 and 2 i, so the squares of 2 i - 1 and
        // 2 i + 1 bracket 2 p + 1
        assert(2 * i <= s + 1 && s <= 2 * i) by {
            lemma_fundamental_div_mod((1 + s) as int, 2);
        }
        assert((2 * i - 1) * (2 * i - 1) <= s * s) by (nonlinear_arith)
            requires s >= 2 * i - 1 >= 0;
        assert((s + 1) * (s + 1) <= (2 * i + 1) * (2 * i + 1)) by (nonlinear_arith)
            requires 0 <= s + 1 <= 2 * i + 1;
        assert((2 * i - 1) * (2 * i - 1) <= 2 * p + 1 ==> 2 * i * (i - 1) <= p)
            by (nonlinear_arith);
        assert(2 * p + 1 < (2 * i + 1) * (2 * i + 1) ==> p < 2 * i * (i + 1))
            by (nonlinear_arith);
        assert(i >= 1) by (nonlinear_arith)
            requires s * s <= 2 * p + 1 < (s + 1) * (s + 1), s <= 2 * i, p >= 0, i >= 0;
        assert(i < nside) by (nonlinear_arith)
            requires
                2 * i * (i - 1) <= p,
                p < 2 * nside * (nside - 1),
                i >= 1,
                nside >= 1;
    }
    i
}

/// First pixel, pixel count and azimuth shift of ring `i`.
pub fn ring_bounds(nside: usize, i: usize) -> (r: (usize, usize, bool))
    requires
        1 <= nside,
        12 * nside * nside <= usize::MAX,
        1 <= i <= ring_count(nside as int),
    ensures
        r.0 == ring_start(nside as int, i as int),
        r.1 == ring_size(nside as int, i as int),
        r.2 == ring_shifted(nside as int, i as int),
        r.0 + r.1 <= 12 * nside * nside,
{
    let n = nside;
    proof {
        assert(2 * n <= 12 * n * n && 4 * n <= 12 * n * n && 12 * n <= 12 * n * n
                && 2 * n * (n - 1) <= 12 * n * n) by (nonlinear_arith)
            requires n >= 1;
        lemma_ring_partition(n as int, i as int);
        if i as int + 1 < 4 * (n as int) {
            lemma_ring_start_monotone(n as int, i as int + 1, 4 * (n as int));
        }
    }
    if i < n {
        proof {
            assert(2 * i * (i - 1) <= 2 * n * (n - 1)) by (nonlinear_arith)
                requires 1 <= i < n;
        }
        (2 * i * (i - 1), 4 * i, true)
    } else if i <= 3 * n {
        proof {
            assert((i - n) * 4 <= 12 * n * n
                    && 2 * n * (n - 1) + (i - n) * 4 * n == ring_start(n as int, i as int)
                    && 2 * n * (n - 1) + (i - n) * 4 * n <= 12 * n * n) by (nonlinear_arith)
                requires n <= i <= 3 * n, n >= 1;
        }
        (2 * n * (n - 1) + (i - n) * 4 * n, 4 * n, (i - n) % 2 == 0)
    } else {
        let i2 = 4 * n - i;
        proof {
            assert(2 * i2 <= 12 * n * n && 2 * i2 * (i2 + 1) <= 12 * n * n
                    && 12 * n * n - 2 * i2 * (i2 + 1) == ring_start(n as int, i as int))
                by (nonlinear_arith)
                requires 3 * n < i <= 4 * n - 1, i2 == 4 * n - i, n >= 1;
        }
        (12 * n * n - 2 * i2 * (i2 + 1), 4 * i2, true)
    }
}

} // verus!
