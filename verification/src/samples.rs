//! Exact rules of the pipeline on encoded field samples. A sample is the bit
//! encoding of an IEEE double-precision number, carried as a plain 64-bit
//! word. Equality of encodings is equality of numbers; the top bit is the
//! sign, and negating a number flips exactly that bit; a number equals zero
//! exactly when every bit but the sign is clear; a number is normal exactly
//! when its exponent field is neither all clear nor all set; and on
//! nonnegative numbers the order of encodings is the order of the numbers.
//! Over this encoding the library states the pipeline's exactness rules as
//! proved contracts on plain words: the reciprocal relation of a Jones
//! matrix, the sentinel at the dipole's polar singularity, the validity flag
//! of a projected sample, and the peak a plane is normalized by.

use vstd::prelude::*;

verus! {

/// Sign bit of an encoded sample.
pub const SIGN_BIT: u64 = 0x8000_0000_0000_0000;

/// All bits of an encoded sample but the sign.
pub const MAGNITUDE_BITS: u64 = 0x7FFF_FFFF_FFFF_FFFF;

/// Encoding of the negated number: the sign bit alone flips.
pub open spec fn negated_bits(b: u64) -> u64 {
    b ^ SIGN_BIT
}

/// The encoding denotes zero (of either sign).
pub open spec fn is_zero_bits(b: u64) -> bool {
    b & MAGNITUDE_BITS == 0
}

/// The encoding denotes a normal number: its exponent field is neither all
/// clear (zero or subnormal) nor all set (infinite or not a number).
pub open spec fn is_normal_bits(b: u64) -> bool {
    &&& (b >> 52) & 0x7FF != 0
    &&& (b >> 52) & 0x7FF != 0x7FF
}

/// The four components of a polarimetric Jones matrix, as encoded samples,
/// in the fixed order (Jxt, Jxp, Jyt, Jyp).
pub struct JonesBits {
    pub xt: u64,
    pub xp: u64,
    pub yt: u64,
    pub yp: u64,
}

/// Jones matrix of a reciprocal antenna pair from the two field components
/// of its first feed: the second feed is the first rotated a quarter turn,
/// so its components are exactly `Jyt == Jxp` and `Jyp == -Jxt` — the copy
/// keeps the very encoding, and the negation flips the sign bit alone.
pub fn jones_reciprocal(xt: u64, xp: u64) -> (r: JonesBits)
    ensures
        r.xt == xt,
        r.xp == xp,
        r.yt == r.xp,
        r.yp == negated_bits(r.xt),
{
    JonesBits { xt, xp, yt: xp, yp: xt ^ SIGN_BIT }
}

/// Sentinel rule at the dipole's polar singularity: where the sine of the
/// polar angle encodes zero, or the angle itself does, the field is exactly
/// the zero sample — never the indeterminate ratio the closed form would
/// leave there.
pub fn dipole_field_or_zero(theta: u64, sin_theta: u64, ratio: u64) -> (r: u64)
    ensures
        is_zero_bits(sin_theta) || is_zero_bits(theta) ==> r == 0u64,
        !(is_zero_bits(sin_theta) || is_zero_bits(theta)) ==> r == ratio,
{
    if sin_theta & MAGNITUDE_BITS == 0 || theta & MAGNITUDE_BITS == 0 {
        0
    } else {
        ratio
    }
}

/// Validity flag of a projected sample: a cell whose direction's first two
/// components do not encode normal numbers lies outside the projection and
/// must be flagged invalid, its sample left at zero rather than fed a
/// propagated non-number.
pub fn projected_cell_valid(vx: u64, vy: u64) -> (r: bool)
    ensures
        r == (is_normal_bits(vx) && is_normal_bits(vy)),
{
    let ex = (vx >> 52) & 0x7FF;
    let ey = (vy >> 52) & 0x7FF;
    ex != 0 && ex != 0x7FF && ey != 0 && ey != 0x7FF
}

/// The sample a plane is normalized by: the greatest encoding over the
/// plane's region of the buffer, which on nonnegative samples is the plane's
/// peak value. It is zero only when every sample of the region is zero — the
/// plane that must not be divided — and otherwise it is attained by some
/// sample, so dividing the region by it leaves a sample of exactly one.
pub fn plane_peak(samples: &Vec<u64>, lo: usize, hi: usize) -> (r: u64)
    requires
        lo <= hi <= samples@.len(),
    ensures
        forall|k: int| lo <= k < hi ==> samples@[k] <= r,
        r != 0 ==> exists|k: int| lo <= k < hi && samples@[k] == r,
{
    let mut r: u64 = 0;
    let mut k: usize = lo;
    while k < hi
        invariant
            lo <= k <= hi <= samples@.len(),
            forall|j: int| lo <= j < k ==> samples@[j] <= r,
            r != 0 ==> exists|j: int| lo <= j < k && samples@[j] == r,
        decreases hi - k,
    {
        if samples[k] > r {
            r = samples[k];
        }
        k = k + 1;
    }
    r
}

} // verus!
