//! Resolution arithmetic of the equal-area spherical pixelization that the
//! element power patterns are stored in: a map at resolution `nside` has
//! exactly `12 * nside * nside` pixels, and a pixel count determines its
//! resolution uniquely.

use vstd::prelude::*;
use vstd::arithmetic::div_mod::lemma_mod_multiples_basic;

verus! {

/// Pixel count of a spherical pixelization at resolution `nside`: twelve base
/// cells, each divided into `nside` by `nside` pixels.
pub open spec fn npix_of(nside: nat) -> nat {
    12 * nside * nside
}

/// `npix` is the pixel count of some pixelization (resolution at least 1).
pub open spec fn is_valid_npix(npix: nat) -> bool {
    exists|nside: nat| 1 <= nside && npix == npix_of(nside)
}

/// Two resolutions with the same pixel count are equal.
pub proof fn lemma_nside_unique(a: nat, b: nat) by (nonlinear_arith)
    requires
        npix_of(a) == npix_of(b),
    ensures
        a == b,
{
}

/// Squaring is monotone on naturals.
proof fn lemma_sq_monotone(a: nat, b: nat) by (nonlinear_arith)
    requires
        a <= b,
    ensures
        a * a <= b * b,
{
}

/// Pixel count of a map at resolution `nside`; `None` when there is no such
/// pixelization (`nside == 0`) or its pixel count does not fit in `usize`.
pub fn nside2npix(nside: usize) -> (r: Option<usize>)
    ensures
        match r {
            Some(n) => 1 <= nside && n == npix_of(nside as nat),
            None => nside == 0 || npix_of(nside as nat) > usize::MAX,
        },
{
    if nside == 0 {
        return None;
    }
    match nside.checked_mul(nside) {
        None => {
            proof {
                assert(nside * nside <= 12 * nside * nside) by (nonlinear_arith);
            }
            None
        },
        Some(sq) => {
            match sq.checked_mul(12) {
                None => {
                    proof {
                        assert(sq * 12 == 12 * (nside as nat) * (nside as nat))
                            by (nonlinear_arith)
                            requires sq == nside * nside;
                    }
                    None
                },
                Some(n) => {
                    proof {
                        assert(sq * 12 == 12 * (nside as nat) * (nside as nat))
                            by (nonlinear_arith)
                            requires sq == nside * nside;
                    }
                    Some(n)
                },
            }
        },
    }
}

/// Integer square root: the largest `r` with `r * r <= q`.
pub fn isqrt(q: usize) -> (r: usize)
    ensures
        r * r <= q < (r + 1) * (r + 1),
        r <= 0xFFFF_FFFF,
{
    let qw: u128 = q as u128;
    let mut lo: usize = 0;
    let mut hi: usize = 0xFFFF_FFFF;
    proof {
        assert((0xFFFF_FFFF + 1) * (0xFFFF_FFFF + 1) == 0x1_0000_0000_0000_0000int)
            by (nonlinear_arith);
    }
    while lo < hi
        invariant
            lo <= hi <= 0xFFFF_FFFF,
            lo * lo <= q,
            q < (hi + 1) * (hi + 1),
            qw == q,
        decreases hi - lo,
    {
        let mid = lo + (hi - lo) / 2 + 1;
        let mw: u128 = mid as u128;
        proof {
            assert(mw * mw <= 0xFFFF_FFFE_0000_0001u128) by (nonlinear_arith)
                requires mw <= 0xFFFF_FFFFu128;
        }
        if mw * mw <= qw {
            lo = mid;
        } else {
            hi = mid - 1;
        }
    }
    lo
}

/// Resolution of a map with `npix` pixels: the unique `nside >= 1` with
/// `npix == 12 * nside * nside`, or `None` when `npix` is no valid pixel count.
pub fn npix2nside(npix: usize) -> (r: Option<usize>)
    ensures
        match r {
            Some(nside) => 1 <= nside && npix == npix_of(nside as nat),
            None => !is_valid_npix(npix as nat),
        },
{
    if npix % 12 != 0 {
        proof {
            assert(!is_valid_npix(npix as nat)) by {
                if is_valid_npix(npix as nat) {
                    let ns = choose|ns: nat| 1 <= ns && npix == npix_of(ns);
                    assert(12 * ns * ns == (ns * ns) * 12) by (nonlinear_arith);
                    lemma_mod_multiples_basic((ns * ns) as int, 12);
                }
            }
        }
        return None;
    }
    let q = npix / 12;
    let s = isqrt(q);
    if s >= 1 && s * s == q {
        proof {
            assert(npix == 12 * (s as nat) * (s as nat)) by (nonlinear_arith)
                requires
                    npix % 12 == 0,
                    q == npix / 12,
                    s * s == q,
                    npix >= 0;
        }
        Some(s)
    } else {
        proof {
            assert(!is_valid_npix(npix as nat)) by {
                if is_valid_npix(npix as nat) {
                    let ns = choose|ns: nat| 1 <= ns && npix == npix_of(ns);
                    assert(ns * ns == npix / 12) by (nonlinear_arith)
                        requires npix == 12 * ns * ns;
                    if ns <= s {
                        lemma_sq_monotone(ns, s as nat);
                    } else {
                        lemma_sq_monotone((s + 1) as nat, ns);
                    }
                }
            }
        }
        None
    }
}

} // verus!
