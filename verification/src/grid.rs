//! Cell layout of the planar field-of-view sampling grid: one square plane of
//! samples per frequency, stored row-major in a single flat buffer, each cell
//! carrying an integer pixel offset from the plane's centre. The layout is
//! exact: every (plane, row, column) triple owns one flat position, distinct
//! triples own distinct positions, and the per-plane regions that the peak
//! normalization pass works on are disjoint.

use vstd::prelude::*;
use vstd::arithmetic::div_mod::lemma_fundamental_div_mod_converse;

verus! {

/// Shape of a stack of square sample planes: one plane per frequency tag,
/// `width` by `width` cells each.
pub struct GridShape {
    pub nfreq: usize,
    pub width: usize,
}

impl GridShape {
    /// The whole sample buffer fits in a machine-sized allocation.
    pub open spec fn wf(self) -> bool {
        &&& 1 <= self.width <= 0xFFFF_FFFF
        &&& self.nfreq * self.width * self.width <= usize::MAX
    }

    /// Flat position of cell (`ifreq`, `iy`, `ix`): planes consecutive,
    /// rows consecutive inside a plane.
    pub open spec fn flat_spec(self, ifreq: int, iy: int, ix: int) -> int {
        (ifreq * self.width + iy) * self.width + ix
    }

    /// Number of samples over all planes; what the output buffer is allocated with.
    pub fn total_samples(&self) -> (r: usize)
        requires
            self.wf(),
        ensures
            r == self.nfreq * self.width * self.width,
    {
        proof {
            assert(self.nfreq * self.width <= self.nfreq * self.width * self.width
                && (self.nfreq * self.width) * self.width
                    == self.nfreq * self.width * self.width) by (nonlinear_arith)
                requires self.width >= 1, self.nfreq >= 0;
        }
        self.nfreq * self.width * self.width
    }

    /// Flat position of one cell.
    pub fn flat_index(&self, ifreq: usize, iy: usize, ix: usize) -> (r: usize)
        requires
            self.wf(),
            ifreq < self.nfreq,
            iy < self.width,
            ix < self.width,
        ensures
            r == self.flat_spec(ifreq as int, iy as int, ix as int),
            r < self.nfreq * self.width * self.width,
    {
        proof {
            assert(ifreq * self.width + iy < self.nfreq * self.width
                    && self.nfreq * self.width <= self.nfreq * self.width * self.width
                    && (ifreq * self.width + iy) * self.width + ix
                        < self.nfreq * self.width * self.width) by (nonlinear_arith)
                requires
                    ifreq < self.nfreq,
                    iy < self.width,
                    ix < self.width,
                    self.width >= 1;
        }
        (ifreq * self.width + iy) * self.width + ix
    }

    /// Half-open range of flat positions that plane `ifreq` occupies; the
    /// region one peak-normalization pass reads and rescales.
    pub fn plane_range(&self, ifreq: usize) -> (r: (usize, usize))
        requires
            self.wf(),
            ifreq < self.nfreq,
        ensures
            r.0 == ifreq * (self.width * self.width),
            r.1 == (ifreq + 1) * (self.width * self.width),
            r.0 < r.1 <= self.nfreq * self.width * self.width,
    {
        proof {
            assert((ifreq + 1) * (self.width * self.width)
                        <= self.nfreq * self.width * self.width
                    && ifreq * (self.width * self.width)
                        < (ifreq + 1) * (self.width * self.width)
                    && ifreq * (self.width * self.width) + self.width * self.width
                        == (ifreq + 1) * (self.width * self.width)) by (nonlinear_arith)
                requires
                    ifreq < self.nfreq,
                    self.width >= 1;
        }
        let plane = self.width * self.width;
        (ifreq * plane, ifreq * plane + plane)
    }
}

/// Distinct cells have distinct flat positions: each output sample is written
/// exactly once.
pub proof fn lemma_flat_index_injective(
    g: GridShape,
    f1: int,
    y1: int,
    x1: int,
    f2: int,
    y2: int,
    x2: int,
)
    requires
        g.wf(),
        0 <= f1 < g.nfreq,
        0 <= y1 < g.width,
        0 <= x1 < g.width,
        0 <= f2 < g.nfreq,
        0 <= y2 < g.width,
        0 <= x2 < g.width,
        g.flat_spec(f1, y1, x1) == g.flat_spec(f2, y2, x2),
    ensures
        f1 == f2 && y1 == y2 && x1 == x2,
{
    let w = g.width as int;
    let k = g.flat_spec(f1, y1, x1);
    lemma_fundamental_div_mod_converse(k, w, f1 * w + y1, x1);
    lemma_fundamental_div_mod_converse(k, w, f2 * w + y2, x2);
    lemma_fundamental_div_mod_converse(f1 * w + y1, w, f1, y1);
    lemma_fundamental_div_mod_converse(f2 * w + y2, w, f2, y2);
}

/// Planes of distinct frequencies occupy disjoint regions of the buffer: the
/// normalization accumulator of one plane never touches another plane's cells.
pub proof fn lemma_plane_ranges_disjoint(g: GridShape, f1: int, f2: int)
    requires
        g.wf(),
        0 <= f1 < f2 < g.nfreq,
    ensures
        (f1 + 1) * (g.width * g.width) <= f2 * (g.width * g.width),
{
    assert((f1 + 1) * (g.width * g.width) <= f2 * (g.width * g.width)) by (nonlinear_arith)
        requires f1 + 1 <= f2, g.width >= 0;
}

/// Signed offset of pixel `i` from the grid's central pixel, in pixels: the
/// grid is centred on the phase-centre direction at index `width / 2`.
pub fn pixel_offset(i: usize, width: usize) -> (r: i64)
    requires
        i < width,
        width <= 0xFFFF_FFFF,
    ensures
        r == i - (width as int) / 2,
{
    (i as i64) - ((width / 2) as i64)
}

/// One cell of the planar sampling plan: its row `iy` and column `ix` in the
/// plane, and its signed pixel offsets from the plane's centre, from which the
/// projected sky coordinates of the cell are scaled.
pub struct PatchCell {
    pub iy: usize,
    pub ix: usize,
    pub off_y: i64,
    pub off_x: i64,
}

/// `c` is the cell that position `k` of the row-major plan holds for a plane
/// of the given width.
pub open spec fn is_patch_cell(width: int, k: int, c: PatchCell) -> bool {
    &&& c.iy == k / width
    &&& c.ix == k % width
    &&& c.off_y == c.iy - width / 2
    &&& c.off_x == c.ix - width / 2
}

/// The full sampling plan of one plane: every cell of a `width` by `width`
/// grid exactly once, rows outer, columns inner, with its centre offsets.
pub fn patch_cells(width: usize) -> (r: Vec<PatchCell>)
    requires
        1 <= width <= 0xFFFF_FFFF,
        width * width <= usize::MAX,
    ensures
        r@.len() == width * width,
        forall|k: int| 0 <= k < r@.len() ==> is_patch_cell(width as int, k, #[trigger] r@[k]),
{
    let mut r: Vec<PatchCell> = Vec::new();
    let mut iy: usize = 0;
    while iy < width
        invariant
            1 <= width <= 0xFFFF_FFFF,
            width * width <= usize::MAX,
            iy <= width,
            r@.len() == iy * width,
            forall|k: int| 0 <= k < r@.len() ==> is_patch_cell(width as int, k, #[trigger] r@[k]),
        decreases width - iy,
    {
        let mut ix: usize = 0;
        proof {
            assert(iy * width + width <= width * width) by (nonlinear_arith)
                requires iy < width, width >= 1;
        }
        while ix < width
            invariant
                1 <= width <= 0xFFFF_FFFF,
                width * width <= usize::MAX,
                iy < width,
                ix <= width,
                iy * width + width <= width * width,
                r@.len() == iy * width + ix,
                forall|k: int| 0 <= k < r@.len() ==> is_patch_cell(width as int, k, #[trigger] r@[k]),
            decreases width - ix,
        {
            let off_y = pixel_offset(iy, width);
            let off_x = pixel_offset(ix, width);
            let c = PatchCell { iy, ix, off_y, off_x };
            proof {
                lemma_fundamental_div_mod_converse((iy * width + ix) as int, width as int,
                    iy as int, ix as int);
            }
            r.push(c);
            ix = ix + 1;
        }
        proof {
            assert((iy + 1) * width == iy * width + width) by (nonlinear_arith);
        }
        iy = iy + 1;
    }
    r
}

/// The cell at position `k` of the plan writes flat position
/// `plane start + k` of its plane: filling a plane in plan order fills its
/// region of the buffer in order, one sample per cell.
pub proof fn lemma_plan_position(g: GridShape, ifreq: int, k: int, c: PatchCell)
    requires
        g.wf(),
        0 <= ifreq < g.nfreq,
        0 <= k < g.width * g.width,
        is_patch_cell(g.width as int, k, c),
    ensures
        0 <= c.iy < g.width,
        0 <= c.ix < g.width,
        g.flat_spec(ifreq, c.iy as int, c.ix as int) == ifreq * (g.width * g.width) + k,
{
    let w = g.width as int;
    assert(0 <= k / w < w && 0 <= k % w < w && k == w * (k / w) + k % w
            && (ifreq * w + k / w) * w + k % w == ifreq * (w * w) + k) by (nonlinear_arith)
        requires 0 <= k < w * w, w >= 1;
}

/// In the plan of `patch_cells`, the cell of row `iy` and column `ix` stands
/// exactly at position `iy * width + ix`: the plan covers each cell once.
pub proof fn lemma_patch_cells_complete(width: int, cells: Seq<PatchCell>, iy: int, ix: int)
    requires
        1 <= width,
        cells.len() == width * width,
        forall|k: int| 0 <= k < cells.len() ==> is_patch_cell(width, k, #[trigger] cells[k]),
        0 <= iy < width,
        0 <= ix < width,
    ensures
        0 <= iy * width + ix < cells.len(),
        cells[iy * width + ix].iy == iy,
        cells[iy * width + ix].ix == ix,
{
    assert(0 <= iy * width + ix && iy * width + ix < width * width) by (nonlinear_arith)
        requires 0 <= iy < width, 0 <= ix < width;
    lemma_fundamental_div_mod_converse(iy * width + ix, width, iy, ix);
}

} // verus!
