//! The coarse importance grid: one probe per cell marks the cells whose
//! escape time falls in the accepted window, and every 2 by 2 block of
//! cells holding a mark becomes a pixel rectangle to sample from.
use vstd::prelude::*;
use crate::counts::{
    block_sum, covers, table_block_sums, table_cells, table_get, table_set, table_shape, table_zeros,
    window_span, Table,
};
use crate::orbit::{escape_accepted, escape_in_window};

verus! {

/// A rectangle of pixels `[lx, ux] x [ly, uy]`.
#[derive(Clone, Copy, Debug, PartialEq, Eq, Structural)]
pub struct PixelRect {
    pub lx: usize,
    pub ux: usize,
    pub ly: usize,
    pub uy: usize,
}

/// The 2 by 2 block of cells whose lower corner is cell `(wx, wy)` holds a
/// mark.
pub open spec fn window_live(wts: Map<(int, int), u32>, wx: int, wy: int) -> bool {
    block_sum(wts, wx, wy) > 0
}

/// The pixels covered by the block whose lower corner is cell `(wx, wy)`.
pub open spec fn window_rect(cw: int, ch: int, wx: int, wy: int) -> PixelRect {
    PixelRect {
        lx: (wx * cw) as usize,
        ux: ((wx + 2) * cw) as usize,
        ly: (wy * ch) as usize,
        uy: ((wy + 2) * ch) as usize,
    }
}

/// The rectangles of the live blocks `(wx, 0) .. (wx, n - 1)`, in order.
pub open spec fn row_regions(wts: Map<(int, int), u32>, cw: int, ch: int, wx: int, n: int) -> Seq<
    PixelRect,
>
    decreases n,
{
    if n <= 0 {
        Seq::empty()
    } else if window_live(wts, wx, n - 1) {
        row_regions(wts, cw, ch, wx, n - 1).push(window_rect(cw, ch, wx, n - 1))
    } else {
        row_regions(wts, cw, ch, wx, n - 1)
    }
}

/// The rectangles of the live blocks in the first `m` rows of blocks, each
/// row `span` blocks long, row after row.
pub open spec fn grid_regions(wts: Map<(int, int), u32>, cw: int, ch: int, m: int, span: int) -> Seq<
    PixelRect,
>
    decreases m,
{
    if m <= 0 {
        Seq::empty()
    } else {
        grid_regions(wts, cw, ch, m - 1, span) + row_regions(wts, cw, ch, m - 1, span)
    }
}

/// The weight a probe gives its cell: one when its escape time is kept.
pub open spec fn probe_weight(iters: u32, max_iters: u32) -> u32 {
    if escape_in_window(iters as int, max_iters as int) {
        1
    } else {
        0
    }
}

/// A `res` by `res` grid of cells, each `cell_width` by `cell_height`
/// pixels, with one weight per cell.
pub struct ImportanceGrid {
    res: usize,
    cell_width: usize,
    cell_height: usize,
    weights: Table,
}

impl ImportanceGrid {
    pub closed spec fn resolution(&self) -> usize {
        self.res
    }

    pub closed spec fn cell_w(&self) -> usize {
        self.cell_width
    }

    pub closed spec fn cell_h(&self) -> usize {
        self.cell_height
    }

    /// The cell weights, keyed by `(x, y)`.
    pub closed spec fn marks(&self) -> Map<(int, int), u32> {
        table_cells(self.weights)
    }

    /// The table has the grid's shape, every weight is zero or one, and
    /// every pixel corner of the grid fits in `usize`.
    pub closed spec fn wf(&self) -> bool {
        &&& table_shape(self.weights) == (self.res as nat, self.res as nat)
        &&& covers(table_cells(self.weights), self.res as nat, self.res as nat)
        &&& forall|x: int, y: int|
            0 <= x < self.res && 0 <= y < self.res ==> #[trigger] table_cells(self.weights)[(x, y)]
                <= 1
        &&& self.res * self.cell_width <= usize::MAX
        &&& self.res * self.cell_height <= usize::MAX
    }

    /// The rectangles of all live blocks, row of blocks after row of blocks.
    pub open spec fn live_regions(&self) -> Seq<PixelRect> {
        grid_regions(
            self.marks(),
            self.cell_w() as int,
            self.cell_h() as int,
            self.resolution() - 1,
            self.resolution() - 1,
        )
    }

    /// A grid with every weight zero.
    pub fn new(res: usize, cell_width: usize, cell_height: usize) -> (r: ImportanceGrid)
        requires
            res * res <= isize::MAX,
            res * cell_width <= usize::MAX,
            res * cell_height <= usize::MAX,
        ensures
            r.wf(),
            r.resolution() == res,
            r.cell_w() == cell_width,
            r.cell_h() == cell_height,
            forall|x: int, y: int| 0 <= x < res && 0 <= y < res ==> #[trigger] r.marks()[(x, y)] == 0,
    {
        assert(res <= res * res) by (nonlinear_arith);
        ImportanceGrid { res, cell_width, cell_height, weights: table_zeros(res, res) }
    }

    /// The pixel at the lower corner of cell `(x, y)`, where its probe
    /// starts.
    pub fn probe_pixel(&self, x: usize, y: usize) -> (r: (usize, usize))
        requires
            self.wf(),
            x < self.resolution(),
            y < self.resolution(),
        ensures
            r.0 == x * self.cell_w(),
            r.1 == y * self.cell_h(),
    {
        proof {
            assert(x * self.cell_width <= self.res * self.cell_width) by (nonlinear_arith)
                requires
                    x < self.res,
            ;
            assert(y * self.cell_height <= self.res * self.cell_height) by (nonlinear_arith)
                requires
                    y < self.res,
            ;
        }
        (x * self.cell_width, y * self.cell_height)
    }

    /// Records the escape time of the probe of cell `(x, y)`: its weight
    /// becomes one when the time lies in the accepted window, else zero.
    pub fn mark(&mut self, x: usize, y: usize, iters: u32, max_iters: u32)
        requires
            old(self).wf(),
            x < old(self).resolution(),
            y < old(self).resolution(),
        ensures
            final(self).wf(),
            final(self).resolution() == old(self).resolution(),
            final(self).cell_w() == old(self).cell_w(),
            final(self).cell_h() == old(self).cell_h(),
            final(self).marks() == old(self).marks().insert(
                (x as int, y as int),
                probe_weight(iters, max_iters),
            ),
    {
        let w: u32 = if escape_accepted(iters, max_iters) {
            1
        } else {
            0
        };
        table_set(&mut self.weights, x, y, w);
        assert forall|i: int, j: int|
            0 <= i < self.res && 0 <= j < self.res implies #[trigger] table_cells(self.weights)[(
            i,
            j,
        )] <= 1 by {
            if i != x || j != y {
                assert(table_cells(old(self).weights)[(i, j)] <= 1);
            }
        }
    }

    /// The weight of cell `(x, y)`.
    pub fn weight(&self, x: usize, y: usize) -> (r: u32)
        requires
            self.wf(),
            x < self.resolution(),
            y < self.resolution(),
        ensures
            r == self.marks()[(x as int, y as int)],
    {
        table_get(&self.weights, x, y)
    }

    /// The rectangles to sample from: for each 2 by 2 block of cells that
    /// holds a mark, taken with stride one, the pixels the block covers.
    pub fn regions(&self) -> (r: Vec<PixelRect>)
        requires
            self.wf(),
        ensures
            r@ == self.live_regions(),
    {
        let mut out: Vec<PixelRect> = Vec::new();
        if self.res < 2 {
            return out;
        }
        let span = self.res - 1;
        let ghost wts = self.marks();
        let ghost cw = self.cell_width as int;
        let ghost ch = self.cell_height as int;
        let sums = table_block_sums(&self.weights);
        assert(window_span(self.res as nat) == span);
        let mut k: usize = 0;
        let mut wx: usize = 0;
        while wx < span
            invariant
                self.wf(),
                span == self.res - 1,
                wts == self.marks(),
                cw == self.cell_width,
                ch == self.cell_height,
                sums@.len() == span * span,
                forall|x: int, y: int|
                    0 <= x < span && 0 <= y < span ==> #[trigger] block_sum(wts, x, y) == sums@[x
                        * span + y] as int,
                wx <= span,
                k == wx * span,
                out@ == grid_regions(wts, cw, ch, wx as int, span as int),
            decreases span - wx,
        {
            let mut wy: usize = 0;
            while wy < span
                invariant
                    self.wf(),
                    span == self.res - 1,
                    wts == self.marks(),
                    cw == self.cell_width,
                    ch == self.cell_height,
                    sums@.len() == span * span,
                    forall|x: int, y: int|
                        0 <= x < span && 0 <= y < span ==> #[trigger] block_sum(wts, x, y)
                            == sums@[x * span + y] as int,
                    wx < span,
                    wy <= span,
                    k == wx * span + wy,
                    out@ == grid_regions(wts, cw, ch, wx as int, span as int) + row_regions(
                        wts,
                        cw,
                        ch,
                        wx as int,
                        wy as int,
                    ),
                decreases span - wy,
            {
                assert(wx * span + wy < span * span) by (nonlinear_arith)
                    requires
                        wx < span,
                        wy < span,
                ;
                assert(block_sum(wts, wx as int, wy as int) == sums@[k as int] as int);
                if sums[k] > 0 {
                    proof {
                        assert((wx + 2) * self.cell_width <= self.res * self.cell_width)
                            by (nonlinear_arith)
                            requires
                                wx + 2 <= self.res,
                        ;
                        assert((wy + 2) * self.cell_height <= self.res * self.cell_height)
                            by (nonlinear_arith)
                            requires
                                wy + 2 <= self.res,
                        ;
                        assert(wx * self.cell_width <= (wx + 2) * self.cell_width)
                            by (nonlinear_arith);
                        assert(wy * self.cell_height <= (wy + 2) * self.cell_height)
                            by (nonlinear_arith);
                    }
                    let rect = PixelRect {
                        lx: wx * self.cell_width,
                        ux: (wx + 2) * self.cell_width,
                        ly: wy * self.cell_height,
                        uy: (wy + 2) * self.cell_height,
                    };
                    out.push(rect);
                    assert(out@ =~= grid_regions(wts, cw, ch, wx as int, span as int)
                        + row_regions(wts, cw, ch, wx as int, wy + 1));
                } else {
                    assert(out@ =~= grid_regions(wts, cw, ch, wx as int, span as int)
                        + row_regions(wts, cw, ch, wx as int, wy + 1));
                }
                k = k + 1;
                wy = wy + 1;
            }
            assert((wx + 1) * span == wx * span + span) by (nonlinear_arith);
            wx = wx + 1;
        }
        out
    }
}

/// When the probe of every cell escapes inside the accepted window, every
/// block is live and a `res` by `res` grid yields `(res - 1)^2` rectangles;
/// when no probe does, it yields none.
pub proof fn lemma_probes_region_count(
    g: ImportanceGrid,
    probes: Map<(int, int), u32>,
    max_iters: u32,
)
    requires
        g.wf(),
        g.resolution() >= 1,
        forall|x: int, y: int|
            0 <= x < g.resolution() && 0 <= y < g.resolution() ==> #[trigger] g.marks()[(x, y)]
                == probe_weight(probes[(x, y)], max_iters),
    ensures
        (forall|x: int, y: int|
            0 <= x < g.resolution() && 0 <= y < g.resolution() ==> escape_in_window(
                #[trigger] probes[(x, y)] as int,
                max_iters as int,
            )) ==> g.live_regions().len() == (g.resolution() - 1) * (g.resolution() - 1),
        (forall|x: int, y: int|
            0 <= x < g.resolution() && 0 <= y < g.resolution() ==> !escape_in_window(
                #[trigger] probes[(x, y)] as int,
                max_iters as int,
            )) ==> g.live_regions().len() == 0,
{
    let res = g.resolution() as int;
    let wts = g.marks();
    assert forall|x: int, y: int| 0 <= x < res && 0 <= y < res implies #[trigger] wts[(x, y)] == probe_weight(
        probes[(x, y)],
        max_iters,
    ) by {}
    lemma_region_count(wts, res, g.cell_w() as int, g.cell_h() as int);
}

/// When every cell carries a mark, a `res` by `res` grid yields
/// `(res - 1)^2` rectangles; when no cell does, it yields none.
proof fn lemma_region_count(wts: Map<(int, int), u32>, res: int, cw: int, ch: int)
    requires
        res >= 1,
    ensures
        (forall|x: int, y: int| 0 <= x < res && 0 <= y < res ==> #[trigger] wts[(x, y)] > 0)
            ==> grid_regions(wts, cw, ch, res - 1, res - 1).len() == (res - 1) * (res - 1),
        (forall|x: int, y: int| 0 <= x < res && 0 <= y < res ==> #[trigger] wts[(x, y)] == 0)
            ==> grid_regions(wts, cw, ch, res - 1, res - 1).len() == 0,
{
    let span = res - 1;
    if forall|x: int, y: int| 0 <= x < res && 0 <= y < res ==> #[trigger] wts[(x, y)] > 0 {
        lemma_all_live(wts, cw, ch, span, span);
    }
    if forall|x: int, y: int| 0 <= x < res && 0 <= y < res ==> #[trigger] wts[(x, y)] == 0 {
        lemma_none_live(wts, cw, ch, span, span);
    }
}

proof fn lemma_all_live(wts: Map<(int, int), u32>, cw: int, ch: int, m: int, span: int)
    requires
        0 <= m <= span,
        forall|x: int, y: int| 0 <= x <= span && 0 <= y <= span ==> #[trigger] wts[(x, y)] > 0,
    ensures
        grid_regions(wts, cw, ch, m, span).len() == m * span,
    decreases m,
{
    if m > 0 {
        lemma_all_live(wts, cw, ch, m - 1, span);
        lemma_row_all_live(wts, cw, ch, m - 1, span, span);
        assert(m * span == (m - 1) * span + span) by (nonlinear_arith);
    } else {
        assert(m * span == 0) by (nonlinear_arith)
            requires
                m == 0,
        ;
    }
}

proof fn lemma_row_all_live(wts: Map<(int, int), u32>, cw: int, ch: int, wx: int, n: int, span: int)
    requires
        0 <= wx < span,
        0 <= n <= span,
        forall|x: int, y: int| 0 <= x <= span && 0 <= y <= span ==> #[trigger] wts[(x, y)] > 0,
    ensures
        row_regions(wts, cw, ch, wx, n).len() == n,
    decreases n,
{
    if n > 0 {
        assert(wts[(wx, n - 1)] > 0);
        lemma_row_all_live(wts, cw, ch, wx, n - 1, span);
    }
}

proof fn lemma_none_live(wts: Map<(int, int), u32>, cw: int, ch: int, m: int, span: int)
    requires
        0 <= m <= span,
        forall|x: int, y: int| 0 <= x <= span && 0 <= y <= span ==> #[trigger] wts[(x, y)] == 0,
    ensures
        grid_regions(wts, cw, ch, m, span).len() == 0,
    decreases m,
{
    if m > 0 {
        lemma_none_live(wts, cw, ch, m - 1, span);
        lemma_row_none_live(wts, cw, ch, m - 1, span, span);
    }
}

proof fn lemma_row_none_live(wts: Map<(int, int), u32>, cw: int, ch: int, wx: int, n: int, span: int)
    requires
        0 <= wx < span,
        0 <= n <= span,
        forall|x: int, y: int| 0 <= x <= span && 0 <= y <= span ==> #[trigger] wts[(x, y)] == 0,
    ensures
        row_regions(wts, cw, ch, wx, n).len() == 0,
    decreases n,
{
    if n > 0 {
        assert(wts[(wx, n - 1)] == 0 && wts[(wx + 1, n - 1)] == 0 && wts[(wx, n)] == 0 && wts[(
        wx + 1,
        n,
        )] == 0);
        lemma_row_none_live(wts, cw, ch, wx, n - 1, span);
    }
}

} // verus!
