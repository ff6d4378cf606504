//! The escape-time window and the bookkeeping of one orbit: its iteration
//! count and the in-bounds pixels it visited.
use vstd::prelude::*;

verus! {

/// The smallest escape time that is kept: a third of the iteration cap.
pub open spec fn min_escape(max_iters: int) -> int {
    max_iters / 3
}

/// An escape time is kept when it lies in `[max_iters / 3, max_iters)`.
pub open spec fn escape_in_window(iters: int, max_iters: int) -> bool {
    min_escape(max_iters) <= iters < max_iters
}

/// A pixel lies on a `width` by `height` canvas.
pub open spec fn on_canvas(p: (u32, u32), width: u32, height: u32) -> bool {
    p.0 < width && p.1 < height
}

/// The smallest escape time kept for an iteration cap of `max_iters`.
pub fn min_iters(max_iters: u32) -> (r: u32)
    ensures
        r == min_escape(max_iters as int),
{
    max_iters / 3
}

/// Whether an orbit that ran for `iters` steps under a cap of `max_iters`
/// escaped inside the accepted window.
pub fn escape_accepted(iters: u32, max_iters: u32) -> (r: bool)
    ensures
        r == escape_in_window(iters as int, max_iters as int),
{
    min_iters(max_iters) <= iters && iters < max_iters
}

/// One orbit being traced on a `width` by `height` canvas, capped at
/// `max_iters` steps.
pub struct Orbit {
    width: u32,
    height: u32,
    max_iters: u32,
    iters: u32,
    points: Vec<(u32, u32)>,
}

impl Orbit {
    pub closed spec fn canvas_width(&self) -> u32 {
        self.width
    }

    pub closed spec fn canvas_height(&self) -> u32 {
        self.height
    }

    pub closed spec fn cap(&self) -> u32 {
        self.max_iters
    }

    pub closed spec fn steps(&self) -> u32 {
        self.iters
    }

    /// The pixels recorded so far, in the order they were visited.
    pub closed spec fn path(&self) -> Seq<(u32, u32)> {
        self.points@
    }

    /// The step count stays within the cap and every recorded pixel lies on
    /// the canvas.
    pub open spec fn wf(&self) -> bool {
        &&& self.steps() <= self.cap()
        &&& self.path().len() <= self.steps()
        &&& forall|i: int|
            0 <= i < self.path().len() ==> on_canvas(
                #[trigger] self.path()[i],
                self.canvas_width(),
                self.canvas_height(),
            )
    }

    /// Whether this orbit is kept: its escape time lies in the window and it
    /// recorded at least one pixel.
    pub open spec fn is_accepted(&self) -> bool {
        escape_in_window(self.steps() as int, self.cap() as int) && self.path().len() > 0
    }

    /// An orbit that has taken no step and recorded nothing.
    pub fn new(width: u32, height: u32, max_iters: u32) -> (r: Orbit)
        ensures
            r.wf(),
            r.canvas_width() == width,
            r.canvas_height() == height,
            r.cap() == max_iters,
            r.steps() == 0,
            r.path() == Seq::<(u32, u32)>::empty(),
    {
        Orbit { width, height, max_iters, iters: 0, points: Vec::new() }
    }

    /// Whether to take another step, given whether the current point is
    /// still inside the escape radius.
    pub fn continues(&self, inside: bool) -> (r: bool)
        ensures
            r == (inside && self.steps() < self.cap()),
    {
        inside && self.iters < self.max_iters
    }

    /// Counts one step without recording a pixel.
    pub fn tick(&mut self)
        requires
            old(self).wf(),
            old(self).steps() < old(self).cap(),
        ensures
            final(self).wf(),
            final(self).steps() == old(self).steps() + 1,
            final(self).path() == old(self).path(),
            final(self).canvas_width() == old(self).canvas_width(),
            final(self).canvas_height() == old(self).canvas_height(),
            final(self).cap() == old(self).cap(),
    {
        self.iters = self.iters + 1;
    }

    /// Counts one step that landed on pixel `(x, y)`, recording it when it
    /// lies on the canvas; a pixel off the canvas is skipped and the orbit
    /// goes on. Returns whether the pixel was recorded.
    pub fn visit(&mut self, x: u32, y: u32) -> (r: bool)
        requires
            old(self).wf(),
            old(self).steps() < old(self).cap(),
        ensures
            final(self).wf(),
            r == on_canvas((x, y), old(self).canvas_width(), old(self).canvas_height()),
            final(self).steps() == old(self).steps() + 1,
            final(self).path() == if r {
                old(self).path().push((x, y))
            } else {
                old(self).path()
            },
            final(self).canvas_width() == old(self).canvas_width(),
            final(self).canvas_height() == old(self).canvas_height(),
            final(self).cap() == old(self).cap(),
    {
        let ghost before = self.points@;
        self.iters = self.iters + 1;
        if x < self.width && y < self.height {
            self.points.push((x, y));
            assert forall|i: int| 0 <= i < self.points@.len() implies on_canvas(
                #[trigger] self.points@[i],
                self.width,
                self.height,
            ) by {
                if i < before.len() {
                    assert(on_canvas(before[i], self.width, self.height));
                }
            }
            true
        } else {
            false
        }
    }

    /// The number of steps taken.
    pub fn iters(&self) -> (r: u32)
        ensures
            r == self.steps(),
    {
        self.iters
    }

    /// The number of pixels recorded.
    pub fn path_len(&self) -> (r: usize)
        ensures
            r == self.path().len(),
    {
        self.points.len()
    }

    /// The recorded pixel at position `i`.
    pub fn point(&self, i: usize) -> (r: (u32, u32))
        requires
            i < self.path().len(),
        ensures
            r == self.path()[i as int],
    {
        self.points[i]
    }

    /// Whether this orbit is kept.
    pub fn accepted(&self) -> (r: bool)
        ensures
            r == self.is_accepted(),
    {
        escape_accepted(self.iters, self.max_iters) && self.points.len() > 0
    }
}

} // verus!
