//! A two-dimensional table of `u32` counters, held in an `ndarray` array.
use ndarray::ShapeBuilder;
use vstd::prelude::*;

verus! {

/// A `w` by `h` table of `u32` counters, stored as an `ndarray` array.
#[verifier::external_body]
pub struct Table {
    cells: ndarray::Array2<u32>,
}

/// The counters held by a table, keyed by `(x, y)`.
pub uninterp spec fn table_cells(a: Table) -> Map<(int, int), u32>;

/// The shape `(columns, rows)` a table was made with.
pub uninterp spec fn table_shape(a: Table) -> (nat, nat);

/// Every cell of a table of the given shape is present, and no other.
pub open spec fn covers(cells: Map<(int, int), u32>, w: nat, h: nat) -> bool {
    forall|x: int, y: int| #![trigger cells.dom().contains((x, y))]
        cells.dom().contains((x, y)) <==> (0 <= x < w && 0 <= y < h)
}

/// The sum of the 2 by 2 block of counters whose lower corner is `(x, y)`.
pub open spec fn block_sum(cells: Map<(int, int), u32>, x: int, y: int) -> int {
    cells[(x, y)] + cells[(x + 1, y)] + cells[(x, y + 1)] + cells[(x + 1, y + 1)]
}

/// How many windows of length 2 fit along an axis of length `n`.
pub open spec fn window_span(n: nat) -> int {
    if n >= 2 {
        n - 1
    } else {
        0
    }
}

/// Relies on ndarray's `Array2::zeros`: a `w` by `h` table of zeros; it
/// panics when the product of the non-zero axis lengths overflows `isize`.
#[verifier::external_body]
pub(crate) fn table_zeros(w: usize, h: usize) -> (r: Table)
    requires
        w <= isize::MAX,
        h <= isize::MAX,
        w * h <= isize::MAX,
    ensures
        table_shape(r) == (w as nat, h as nat),
        covers(table_cells(r), w as nat, h as nat),
        forall|x: int, y: int| 0 <= x < w && 0 <= y < h ==> table_cells(r)[(x, y)] == 0,
{
    Table { cells: ndarray::Array2::<u32>::zeros((w, h).f()) }
}

/// Relies on ndarray's `Index` for `[x, y]`: the counter at `(x, y)`; it
/// panics out of bounds.
#[verifier::external_body]
pub(crate) fn table_get(a: &Table, x: usize, y: usize) -> (r: u32)
    requires
        x < table_shape(*a).0,
        y < table_shape(*a).1,
    ensures
        r == table_cells(*a)[(x as int, y as int)],
{
    a.cells[[x, y]]
}

/// Relies on ndarray's `IndexMut` for `[x, y]`: overwrites the counter at
/// `(x, y)` and nothing else; it panics out of bounds.
#[verifier::external_body]
pub(crate) fn table_set(a: &mut Table, x: usize, y: usize, v: u32)
    requires
        x < table_shape(*old(a)).0,
        y < table_shape(*old(a)).1,
    ensures
        table_shape(*final(a)) == table_shape(*old(a)),
        table_cells(*final(a)) == table_cells(*old(a)).insert((x as int, y as int), v),
{
    a.cells[[x, y]] = v;
}

/// Relies on ndarray's `windows((2, 2))` and `sum`: one sum for each 2 by 2
/// window, windows taken with stride one, their lower corners in row-major
/// order; none when an axis is shorter than 2. The bound on the counters
/// keeps each sum from overflowing.
#[verifier::external_body]
pub(crate) fn table_block_sums(a: &Table) -> (r: Vec<u32>)
    requires
        forall|x: int, y: int|
            0 <= x < table_shape(*a).0 && 0 <= y < table_shape(*a).1 ==> #[trigger] table_cells(
                *a,
            )[(x, y)] <= u32::MAX / 4,
    ensures
        r@.len() == window_span(table_shape(*a).0) * window_span(table_shape(*a).1),
        forall|x: int, y: int|
            0 <= x < window_span(table_shape(*a).0) && 0 <= y < window_span(table_shape(*a).1)
                ==> #[trigger] block_sum(table_cells(*a), x, y) == r@[x * window_span(
                table_shape(*a).1,
            ) + y] as int,
{
    let mut r = Vec::new();
    for w in a.cells.windows((2, 2)) {
        r.push(w.sum());
    }
    r
}

} // verus!
