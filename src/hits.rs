//! The counter grid: per-pixel visit tallies of accepted orbits, with a
//! running maximum kept equal to the largest tally.
use vstd::prelude::*;
use crate::color::{cube_level, hits_to_col_sqrt};
use crate::counts::{covers, table_cells, table_get, table_set, table_shape, table_zeros, Table};
use crate::orbit::{on_canvas, Orbit};

verus! {

/// How often pixel `p` occurs in `s`.
pub open spec fn visits(s: Seq<(u32, u32)>, p: (int, int)) -> nat
    decreases s.len(),
{
    if s.len() == 0 {
        0
    } else {
        visits(s.drop_last(), p) + if s.last().0 as int == p.0 && s.last().1 as int == p.1 {
            1nat
        } else {
            0nat
        }
    }
}

/// A tally of `c` raised by `n`, held at `u32::MAX` once it gets there.
pub open spec fn bumped(c: u32, n: nat) -> u32 {
    if c + n > u32::MAX {
        u32::MAX
    } else {
        (c + n) as u32
    }
}

/// `m` is the largest tally on a `w` by `h` grid (zero counts as the largest
/// of an all-zero grid).
pub open spec fn is_max_of(cells: Map<(int, int), u32>, w: int, h: int, m: u32) -> bool {
    &&& forall|x: int, y: int| 0 <= x < w && 0 <= y < h ==> #[trigger] cells[(x, y)] <= m
    &&& (m == 0 || exists|x: int, y: int| 0 <= x < w && 0 <= y < h && #[trigger] cells[(x, y)] == m)
}

/// The tallies after committing an orbit: each pixel is raised by the number
/// of times it occurs in the orbit's path after its first entry.
pub open spec fn committed(
    cells: Map<(int, int), u32>,
    path: Seq<(u32, u32)>,
    p: (int, int),
) -> u32 {
    bumped(cells[p], visits(path.subrange(1, path.len() as int), p))
}

/// A `width` by `height` grid of visit tallies.
pub struct HitGrid {
    width: u32,
    height: u32,
    counts: Table,
    max_hits: u32,
}

impl HitGrid {
    pub closed spec fn grid_width(&self) -> u32 {
        self.width
    }

    pub closed spec fn grid_height(&self) -> u32 {
        self.height
    }

    /// The tallies, keyed by `(x, y)`.
    pub closed spec fn cells(&self) -> Map<(int, int), u32> {
        table_cells(self.counts)
    }

    pub closed spec fn running_max(&self) -> u32 {
        self.max_hits
    }

    /// The table has the grid's shape and the running maximum is the
    /// largest tally.
    pub closed spec fn wf(&self) -> bool {
        &&& table_shape(self.counts) == (self.width as nat, self.height as nat)
        &&& covers(table_cells(self.counts), self.width as nat, self.height as nat)
        &&& self.width * self.height <= isize::MAX
        &&& is_max_of(self.cells(), self.width as int, self.height as int, self.max_hits)
    }

    /// A grid of zero tallies.
    pub fn new(width: u32, height: u32) -> (r: HitGrid)
        requires
            width <= isize::MAX,
            height <= isize::MAX,
            width * height <= isize::MAX,
        ensures
            r.wf(),
            r.grid_width() == width,
            r.grid_height() == height,
            r.running_max() == 0,
            forall|x: int, y: int|
                0 <= x < width && 0 <= y < height ==> #[trigger] r.cells()[(x, y)] == 0,
    {
        HitGrid { width, height, counts: table_zeros(width as usize, height as usize), max_hits: 0 }
    }

    /// The tally of pixel `(x, y)`.
    pub fn get(&self, x: u32, y: u32) -> (r: u32)
        requires
            self.wf(),
            x < self.grid_width(),
            y < self.grid_height(),
        ensures
            r == self.cells()[(x as int, y as int)],
    {
        table_get(&self.counts, x as usize, y as usize)
    }

    /// The largest tally on the grid.
    pub fn max_hits(&self) -> (r: u32)
        requires
            self.wf(),
        ensures
            r == self.running_max(),
            is_max_of(self.cells(), self.grid_width() as int, self.grid_height() as int, r),
    {
        self.max_hits
    }

    /// Commits an orbit that is kept: every pixel of its path but the first
    /// is counted once more, and the running maximum follows. An orbit that
    /// is not kept leaves the grid unchanged. Returns whether it was kept.
    pub fn commit(&mut self, orbit: &Orbit) -> (r: bool)
        requires
            old(self).wf(),
            orbit.wf(),
            orbit.canvas_width() == old(self).grid_width(),
            orbit.canvas_height() == old(self).grid_height(),
        ensures
            final(self).wf(),
            r == orbit.is_accepted(),
            final(self).grid_width() == old(self).grid_width(),
            final(self).grid_height() == old(self).grid_height(),
            forall|x: int, y: int|
                0 <= x < old(self).grid_width() && 0 <= y < old(self).grid_height()
                    ==> #[trigger] final(self).cells()[(x, y)] == if r {
                    committed(old(self).cells(), orbit.path(), (x, y))
                } else {
                    old(self).cells()[(x, y)]
                },
            forall|x: int, y: int|
                0 <= x < old(self).grid_width() && 0 <= y < old(self).grid_height()
                    ==> old(self).cells()[(x, y)] <= #[trigger] final(self).cells()[(x, y)],
    {
        if !orbit.accepted() {
            return false;
        }
        let ghost start = self.cells();
        let ghost path = orbit.path();
        let n = orbit.path_len();
        let mut i: usize = 1;
        assert(path.subrange(1, 1) =~= Seq::<(u32, u32)>::empty());
        while i < n
            invariant
                1 <= i <= n,
                n == path.len(),
                path == orbit.path(),
                orbit.wf(),
                self.wf(),
                self.width == old(self).width,
                self.height == old(self).height,
                self.width == orbit.canvas_width(),
                self.height == orbit.canvas_height(),
                forall|x: int, y: int|
                    0 <= x < self.width && 0 <= y < self.height ==> #[trigger] self.cells()[(x, y)]
                        == bumped(start[(x, y)], visits(path.subrange(1, i as int), (x, y))),
            decreases n - i,
        {
            let (px, py) = orbit.point(i);
            assert(on_canvas(path[i as int], self.width, self.height));
            let c = table_get(&self.counts, px as usize, py as usize);
            let nc: u32 = if c < u32::MAX {
                c + 1
            } else {
                c
            };
            let ghost before = self.cells();
            let ghost m0 = self.max_hits;
            table_set(&mut self.counts, px as usize, py as usize, nc);
            if nc > self.max_hits {
                self.max_hits = nc;
            }
            assert(path.subrange(1, i + 1).drop_last() =~= path.subrange(1, i as int));
            assert forall|x: int, y: int|
                0 <= x < self.width && 0 <= y < self.height implies #[trigger] self.cells()[(x, y)]
                    == bumped(start[(x, y)], visits(path.subrange(1, i + 1), (x, y))) by {
                assert(path.subrange(1, i + 1).last() == path[i as int]);
            }
            assert forall|x: int, y: int|
                0 <= x < self.width && 0 <= y < self.height implies #[trigger] self.cells()[(x, y)]
                    <= self.max_hits by {
                if x != px || y != py {
                    assert(before[(x, y)] <= m0);
                }
            }
            proof {
                if self.max_hits != 0 {
                    if nc == self.max_hits {
                        assert(self.cells()[(px as int, py as int)] == self.max_hits);
                    } else {
                        let (wx, wy) = choose|x: int, y: int|
                            0 <= x < self.width && 0 <= y < self.height && #[trigger] before[(x, y)]
                                == m0;
                        assert(self.cells()[(wx, wy)] == self.max_hits);
                    }
                }
            }
            i = i + 1;
        }
        assert(path.subrange(1, n as int) == path.subrange(1, path.len() as int));
        assert forall|x: int, y: int|
            0 <= x < old(self).grid_width() && 0 <= y < old(self).grid_height()
                implies old(self).cells()[(x, y)] <= #[trigger] self.cells()[(x, y)] by {
            assert(self.cells()[(x, y)] == committed(start, path, (x, y)));
        }
        true
    }

    /// The grey level of every pixel on the cube-root scale, row by row:
    /// pixel `(x, y)` stands at `y * width + x`.
    pub fn intensities(&self) -> (r: Vec<u8>)
        requires
            self.wf(),
        ensures
            r@.len() == self.grid_width() * self.grid_height(),
            forall|x: int, y: int|
                0 <= x < self.grid_width() && 0 <= y < self.grid_height() ==> #[trigger] r@[y
                    * self.grid_width() + x] == cube_level(
                    self.cells()[(x, y)] as int,
                    self.running_max() as int,
                ),
    {
        let w = self.width;
        let h = self.height;
        let mut out: Vec<u8> = Vec::new();
        let mut y: u32 = 0;
        while y < h
            invariant
                self.wf(),
                w == self.width,
                h == self.height,
                y <= h,
                out@.len() == y * w,
                forall|xx: int, yy: int|
                    0 <= xx < w && 0 <= yy < y ==> #[trigger] out@[yy * w + xx] == cube_level(
                        self.cells()[(xx, yy)] as int,
                        self.max_hits as int,
                    ),
            decreases h - y,
        {
            let mut x: u32 = 0;
            while x < w
                invariant
                    self.wf(),
                    w == self.width,
                    h == self.height,
                    y < h,
                    x <= w,
                    out@.len() == y * w + x,
                    forall|xx: int, yy: int|
                        0 <= xx < w && 0 <= yy < y ==> #[trigger] out@[yy * w + xx] == cube_level(
                            self.cells()[(xx, yy)] as int,
                            self.max_hits as int,
                        ),
                    forall|xx: int| 0 <= xx < x ==> #[trigger] out@[y * w + xx] == cube_level(
                        self.cells()[(xx, y as int)] as int,
                        self.max_hits as int,
                    ),
                decreases w - x,
            {
                let c = self.get(x, y);
                let level = hits_to_col_sqrt(c, self.max_hits);
                let ghost prev = out@;
                out.push(level);
                assert forall|xx: int, yy: int|
                    0 <= xx < w && 0 <= yy < y implies #[trigger] out@[yy * w + xx] == cube_level(
                        self.cells()[(xx, yy)] as int,
                        self.max_hits as int,
                    ) by {
                    assert(yy * w + xx < y * w) by (nonlinear_arith)
                        requires
                            0 <= xx < w,
                            0 <= yy < y,
                    ;
                    assert(out@[yy * w + xx] == prev[yy * w + xx]);
                }
                assert forall|xx: int| 0 <= xx < x + 1 implies #[trigger] out@[y * w + xx]
                    == cube_level(self.cells()[(xx, y as int)] as int, self.max_hits as int) by {
                    if xx < x {
                        assert(out@[y * w + xx] == prev[y * w + xx]);
                    }
                }
                x = x + 1;
            }
            assert((y + 1) * w == y * w + w) by (nonlinear_arith);
            assert forall|xx: int, yy: int|
                0 <= xx < w && 0 <= yy < y + 1 implies #[trigger] out@[yy * w + xx] == cube_level(
                    self.cells()[(xx, yy)] as int,
                    self.max_hits as int,
                ) by {
                if yy == y {
                    assert(out@[y * w + xx] == cube_level(
                        self.cells()[(xx, y as int)] as int,
                        self.max_hits as int,
                    ));
                }
            }
            y = y + 1;
        }
        assert(h * w == w * h) by (nonlinear_arith);
        out
    }
}

} // verus!
