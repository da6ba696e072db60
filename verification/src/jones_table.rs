//! Row and column layout of the polarimetric Jones table: one row per sampled
//! (polar angle, azimuth) pair, ten entries per row — the two angles, then the
//! real and imaginary parts of the four Jones components in order. Rows are
//! laid out with the polar angle running fastest, as the sampling loop writes
//! them, and no Jones entry ever lands on the angle columns.

use vstd::prelude::*;
use vstd::arithmetic::div_mod::lemma_fundamental_div_mod_converse;

verus! {

/// Entries of one table row: polar angle, azimuth, four complex components.
pub const ROW_ENTRIES: usize = 10;

/// Number of Jones matrix components (Jxt, Jxp, Jyt, Jyp).
pub const JONES_COMPONENTS: usize = 4;

/// Column holding the row's polar angle.
pub const THETA_COL: usize = 0;

/// Column holding the row's azimuth.
pub const PHI_COL: usize = 1;

/// Column of the real (`imag == false`) or imaginary part of component `comp`.
pub open spec fn jones_col_spec(comp: int, imag: bool) -> int {
    2 + 2 * comp + if imag { 1int } else { 0int }
}

/// Column of one part of one Jones component.
pub fn jones_column(comp: usize, imag: bool) -> (r: usize)
    requires
        comp < JONES_COMPONENTS,
    ensures
        r == jones_col_spec(comp as int, imag),
        2 <= r < ROW_ENTRIES,
{
    2 + 2 * comp + if imag { 1 } else { 0 }
}

/// Distinct component parts land on distinct columns, and never on the two
/// angle columns: each entry of a row is written exactly once.
pub proof fn lemma_jones_columns_distinct(c1: int, i1: bool, c2: int, i2: bool)
    requires
        0 <= c1 < JONES_COMPONENTS,
        0 <= c2 < JONES_COMPONENTS,
        !(c1 == c2 && i1 == i2),
    ensures
        jones_col_spec(c1, i1) != jones_col_spec(c2, i2),
        jones_col_spec(c1, i1) != THETA_COL,
        jones_col_spec(c1, i1) != PHI_COL,
{
}

/// Shape of the angular sampling grid: `ntheta` polar angles by `nphi` azimuths.
pub struct AngleGrid {
    pub ntheta: usize,
    pub nphi: usize,
}

impl AngleGrid {
    /// The table of `ntheta * nphi` rows of `ROW_ENTRIES` entries fits in a
    /// machine-sized allocation.
    pub open spec fn wf(self) -> bool {
        &&& 1 <= self.ntheta
        &&& 1 <= self.nphi
        &&& self.ntheta * self.nphi * ROW_ENTRIES <= usize::MAX
    }

    /// Row of the sample at polar index `theta_idx` and azimuth index
    /// `phi_idx`: the polar angle runs fastest.
    pub open spec fn row_spec(self, theta_idx: int, phi_idx: int) -> int {
        theta_idx + phi_idx * self.ntheta
    }

    /// Number of rows of the table.
    pub fn rows(&self) -> (r: usize)
        requires
            self.wf(),
        ensures
            r == self.ntheta * self.nphi,
    {
        proof {
            assert(self.ntheta * self.nphi <= self.ntheta * self.nphi * ROW_ENTRIES)
                by (nonlinear_arith)
                requires self.ntheta >= 0, self.nphi >= 0;
        }
        self.ntheta * self.nphi
    }

    /// Row of one angular sample.
    pub fn row_index(&self, theta_idx: usize, phi_idx: usize) -> (r: usize)
        requires
            self.wf(),
            theta_idx < self.ntheta,
            phi_idx < self.nphi,
        ensures
            r == self.row_spec(theta_idx as int, phi_idx as int),
            r < self.ntheta * self.nphi,
    {
        proof {
            assert(theta_idx + phi_idx * self.ntheta < self.ntheta * self.nphi
                    && phi_idx * self.ntheta <= self.ntheta * self.nphi
                    && self.ntheta * self.nphi <= self.ntheta * self.nphi * ROW_ENTRIES)
                by (nonlinear_arith)
                requires
                    theta_idx < self.ntheta,
                    phi_idx < self.nphi;
        }
        theta_idx + phi_idx * self.ntheta
    }

    /// Flat position of one entry in the row-major table.
    pub fn entry_index(&self, row: usize, col: usize) -> (r: usize)
        requires
            self.wf(),
            row < self.ntheta * self.nphi,
            col < ROW_ENTRIES,
        ensures
            r == row * ROW_ENTRIES + col,
            r < self.ntheta * self.nphi * ROW_ENTRIES,
    {
        proof {
            assert(row * 10 + col < self.ntheta * self.nphi * 10) by (nonlinear_arith)
                requires
                    row < self.ntheta * self.nphi,
                    col < 10;
        }
        row * ROW_ENTRIES + col
    }
}

/// Distinct angular samples own distinct rows: each row of the table is
/// written exactly once per frequency plane.
pub proof fn lemma_row_index_injective(g: AngleGrid, t1: int, p1: int, t2: int, p2: int)
    requires
        g.wf(),
        0 <= t1 < g.ntheta,
        0 <= p1 < g.nphi,
        0 <= t2 < g.ntheta,
        0 <= p2 < g.nphi,
        g.row_spec(t1, p1) == g.row_spec(t2, p2),
    ensures
        t1 == t2 && p1 == p2,
{
    let n = g.ntheta as int;
    lemma_fundamental_div_mod_converse(t1 + p1 * n, n, p1, t1);
    lemma_fundamental_div_mod_converse(t2 + p2 * n, n, p2, t2);
}

/// One step of the angular sampling plan: the indices of the sampled angle
/// pair and the table row the sample is written to.
pub struct AngleCell {
    pub theta_idx: usize,
    pub phi_idx: usize,
    pub row: usize,
}

/// `c` is the cell at position `k` of the plan: azimuth outer, polar inner,
/// and the row equals the position.
pub open spec fn is_angle_cell(ntheta: int, k: int, c: AngleCell) -> bool {
    &&& c.phi_idx == k / ntheta
    &&& c.theta_idx == k % ntheta
    &&& c.row == k
}

/// The full angular sampling plan: every (polar, azimuth) index pair exactly
/// once, azimuth outer, polar inner, each with the row it writes.
pub fn angle_cells(g: &AngleGrid) -> (r: Vec<AngleCell>)
    requires
        g.wf(),
    ensures
        r@.len() == g.ntheta * g.nphi,
        forall|k: int|
            0 <= k < r@.len() ==> is_angle_cell(g.ntheta as int, k, #[trigger] r@[k]),
{
    let nt = g.ntheta;
    let mut r: Vec<AngleCell> = Vec::new();
    let mut phi_idx: usize = 0;
    proof {
        assert(g.ntheta * g.nphi <= g.ntheta * g.nphi * ROW_ENTRIES) by (nonlinear_arith)
            requires g.ntheta >= 0, g.nphi >= 0;
    }
    while phi_idx < g.nphi
        invariant
            g.wf(),
            nt == g.ntheta,
            phi_idx <= g.nphi,
            g.ntheta * g.nphi <= usize::MAX,
            r@.len() == phi_idx * nt,
            forall|k: int|
                0 <= k < r@.len() ==> is_angle_cell(g.ntheta as int, k, #[trigger] r@[k]),
        decreases g.nphi - phi_idx,
    {
        let mut theta_idx: usize = 0;
        proof {
            assert(phi_idx * nt + nt <= g.nphi * nt && g.nphi * nt == g.ntheta * g.nphi)
                by (nonlinear_arith)
                requires phi_idx < g.nphi, nt == g.ntheta, nt >= 1;
        }
        while theta_idx < nt
            invariant
                g.wf(),
                nt == g.ntheta,
                phi_idx < g.nphi,
                theta_idx <= nt,
                phi_idx * nt + nt <= g.ntheta * g.nphi,
                g.ntheta * g.nphi <= usize::MAX,
                r@.len() == phi_idx * nt + theta_idx,
                forall|k: int|
                    0 <= k < r@.len() ==> is_angle_cell(g.ntheta as int, k, #[trigger] r@[k]),
            decreases nt - theta_idx,
        {
            let row = theta_idx + phi_idx * nt;
            let c = AngleCell { theta_idx, phi_idx, row };
            proof {
                lemma_fundamental_div_mod_converse((phi_idx * nt + theta_idx) as int,
                    nt as int, phi_idx as int, theta_idx as int);
            }
            r.push(c);
            theta_idx = theta_idx + 1;
        }
        proof {
            assert((phi_idx + 1) * nt == phi_idx * nt + nt) by (nonlinear_arith);
        }
        phi_idx = phi_idx + 1;
    }
    proof {
        assert(g.nphi * nt == g.ntheta * g.nphi) by (nonlinear_arith)
            requires nt == g.ntheta;
    }
    r
}

} // verus!
