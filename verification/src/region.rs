//! Walking a rectangular region of a grid in row-major order.

use vstd::prelude::*;
use vstd::arithmetic::div_mod::lemma_fundamental_div_mod_converse;
use std::marker::PhantomData;
use crate::grid::{flat_index, in_bounds, lemma_get_after_set, Grid2D, GridView};
use crate::vector::{Vector2, Vector4};

verus! {

/// Number of coordinates that a walk over `region` visits in each row. A
/// region whose last column lies before its first still has its first column.
pub open spec fn region_cols(region: Vector4) -> int {
    if region.x <= region.z {
        region.z - region.x + 1
    } else {
        1
    }
}

/// Number of rows of `region`; none where its last row lies before its first.
pub open spec fn region_rows(region: Vector4) -> int {
    if region.y <= region.w {
        region.w - region.y + 1
    } else {
        0
    }
}

/// Number of coordinates of a whole walk over `region`.
pub open spec fn region_len(region: Vector4) -> int {
    region_cols(region) * region_rows(region)
}

/// The coordinate at position `k` of the walk over `region`: rows from top to
/// bottom, each row from left to right.
pub open spec fn region_coord(region: Vector4, k: int) -> Vector2 {
    Vector2 {
        x: (region.x + k % region_cols(region)) as u32,
        y: (region.y + k / region_cols(region)) as u32,
    }
}

/// The position of `coord` in the walk over `region`.
pub open spec fn region_position(region: Vector4, coord: Vector2) -> int {
    (coord.y - region.y) * region_cols(region) + (coord.x - region.x)
}

/// Whether `coord` lies within the inclusive bounds of `region`.
pub open spec fn region_contains(region: Vector4, coord: Vector2) -> bool {
    region.x <= coord.x <= region.z && region.y <= coord.y <= region.w
}

/// The position at which a walk over `region` ends that stands at position `k`
/// on a grid of the given dimensions: the first position from `k` on that is
/// the end of the region or whose coordinate lies outside the grid.
pub open spec fn walk_end(dimensions: Vector2, region: Vector4, k: int) -> int
    decreases region_len(region) - k,
{
    if 0 <= k < region_len(region) && in_bounds(dimensions, region_coord(region, k)) {
        walk_end(dimensions, region, k + 1)
    } else {
        k
    }
}

/// The region that covers a grid of the given dimensions.
pub open spec fn full_region(dimensions: Vector2) -> Vector4 {
    Vector4 {
        x: 0,
        y: 0,
        z: if dimensions.x > 0 { (dimensions.x - 1) as u32 } else { 0 },
        w: if dimensions.y > 0 { (dimensions.y - 1) as u32 } else { 0 },
    }
}

/// The cursor that follows `current` in a walk over `region`.
spec fn step(region: Vector4, current: Vector2, stride: u32) -> Vector2 {
    if current.x + stride > region.z {
        Vector2 { x: region.x, y: (current.y + stride) as u32 }
    } else {
        Vector2 { x: (current.x + stride) as u32, y: current.y }
    }
}

/// What holds of the cursor of every walk: it stands on a coordinate of the
/// region, or just behind its last row.
spec fn on_walk(region: Vector4, current: Vector2) -> bool {
    &&& region.x <= current.x
    &&& region.y <= current.y
    &&& current.x - region.x < region_cols(region)
    &&& current.y > region.w ==> current.x == region.x && (current.y == region.w + 1 || current.y
        == region.y)
}

proof fn lemma_mul_step(a: int, b: int)
    ensures
        (a + 1) * b == a * b + b,
{
    assert((a + 1) * b == a * b + b) by (nonlinear_arith);
}

/// The coordinate at position `q * cols + r` stands in column `r` of row `q`.
proof fn lemma_coord_at(region: Vector4, q: int, r: int)
    requires
        0 <= q,
        0 <= r < region_cols(region),
    ensures
        (q * region_cols(region) + r) / region_cols(region) == q,
        (q * region_cols(region) + r) % region_cols(region) == r,
        0 <= q * region_cols(region) + r,
        q < region_rows(region) ==> q * region_cols(region) + r < region_len(region),
        q >= region_rows(region) ==> q * region_cols(region) + r >= region_len(region),
{
    let cols = region_cols(region);
    let rows = region_rows(region);
    lemma_fundamental_div_mod_converse(q * cols + r, cols, q, r);
    assert(0 <= q * cols) by (nonlinear_arith)
        requires
            0 <= q,
            0 < cols,
    ;
    if q < rows {
        assert(q * cols + r < cols * rows) by (nonlinear_arith)
            requires
                0 <= q < rows,
                0 <= r < cols,
        ;
    } else {
        assert(q * cols + r >= cols * rows) by (nonlinear_arith)
            requires
                q >= rows,
                rows >= 0,
                0 <= r < cols,
        ;
    }
}

/// Row and column of a position of the walk.
proof fn lemma_position_split(region: Vector4, k: int)
    requires
        0 <= k < region_len(region),
    ensures
        0 <= k % region_cols(region) < region_cols(region),
        0 <= k / region_cols(region) < region_rows(region),
        k == (k / region_cols(region)) * region_cols(region) + k % region_cols(region),
        region_position(region, region_coord(region, k)) == k,
        region_coord(region, k).x == region.x + k % region_cols(region),
        region_coord(region, k).y == region.y + k / region_cols(region),
{
    let cols = region_cols(region);
    let rows = region_rows(region);
    let q = k / cols;
    let r = k % cols;
    vstd::arithmetic::div_mod::lemma_fundamental_div_mod(k, cols);
    vstd::arithmetic::div_mod::lemma_mod_bound(k, cols);
    assert(cols * q == q * cols) by (nonlinear_arith);
    assert(0 <= q) by (nonlinear_arith)
        requires
            k == q * cols + r,
            0 <= k,
            0 <= r < cols,
    ;
    if q >= rows {
        lemma_coord_at(region, q, r);
    }
}

/// A cursor within the rows of the region stands on the coordinate of its
/// position.
proof fn lemma_cursor_position(region: Vector4, current: Vector2)
    requires
        on_walk(region, current),
    ensures
        0 <= region_position(region, current) <= region_len(region),
        current.y <= region.w ==> region_position(region, current) < region_len(region)
            && region_coord(region, region_position(region, current)) == current,
        current.y > region.w ==> region_position(region, current) == region_len(region),
{
    let q = current.y - region.y;
    let r = current.x - region.x;
    lemma_coord_at(region, q, r);
    if current.y > region.w {
        if region.y <= region.w {
            assert(q == region_rows(region));
        } else {
            assert(q == 0);
            assert(0 * region_cols(region) == 0);
        }
        assert(r == 0);
        assert(q * region_cols(region) == region_cols(region) * region_rows(region))
            by (nonlinear_arith)
            requires
                q == region_rows(region),
        ;
    }
}

/// One step of the walk leads to the next position.
proof fn lemma_step_position(region: Vector4, current: Vector2)
    requires
        on_walk(region, current),
        current.y <= region.w,
        current.x < u32::MAX,
        current.y < u32::MAX,
    ensures
        on_walk(region, step(region, current, 1)),
        region_position(region, step(region, current, 1)) == region_position(region, current) + 1,
{
    lemma_mul_step(current.y - region.y, region_cols(region));
}

/// A walk starts in the first column of the first row of its region.
pub proof fn lemma_region_start(region: Vector4)
    ensures
        region_coord(region, 0) == (Vector2 { x: region.x, y: region.y }),
{
    lemma_coord_at(region, 0, 0);
    assert(0 * region_cols(region) + 0 == 0);
}

/// A walk ends at the end of the region or in front of the first coordinate
/// that the grid does not hold, and every coordinate before that lies in the
/// grid.
pub proof fn lemma_walk_end(dimensions: Vector2, region: Vector4, k: int)
    requires
        0 <= k <= region_len(region),
    ensures
        k <= walk_end(dimensions, region, k) <= region_len(region),
        forall|j: int|
            k <= j < walk_end(dimensions, region, k) ==> in_bounds(
                dimensions,
                #[trigger] region_coord(region, j),
            ),
        walk_end(dimensions, region, k) < region_len(region) ==> !in_bounds(
            dimensions,
            region_coord(region, walk_end(dimensions, region, k)),
        ),
    decreases region_len(region) - k,
{
    if k < region_len(region) && in_bounds(dimensions, region_coord(region, k)) {
        lemma_walk_end(dimensions, region, k + 1);
    }
}

/// A walk on which every coordinate lies in the grid visits the whole region.
pub proof fn lemma_walk_complete(dimensions: Vector2, region: Vector4)
    requires
        forall|k: int|
            0 <= k < region_len(region) ==> in_bounds(
                dimensions,
                #[trigger] region_coord(region, k),
            ),
    ensures
        walk_end(dimensions, region, 0) == region_len(region),
{
    assert(region_len(region) >= 0) by (nonlinear_arith)
        requires
            region_cols(region) > 0,
            region_rows(region) >= 0,
            region_len(region) == region_cols(region) * region_rows(region),
    ;
    lemma_walk_end(dimensions, region, 0);
}

/// The walk over a region visits each coordinate within its bounds exactly
/// once, and no other: the coordinate at position `k` lies in the region, the
/// position of a coordinate of the region is where the walk visits it, and no
/// two positions share a coordinate.
pub proof fn lemma_region_walk(region: Vector4)
    requires
        region.x <= region.z,
        region.y <= region.w,
    ensures
        region_len(region) == (region.z - region.x + 1) * (region.w - region.y + 1),
        forall|k: int|
            0 <= k < region_len(region) ==> region_contains(
                region,
                #[trigger] region_coord(region, k),
            ),
        forall|k: int|
            0 <= k < region_len(region) ==> region_position(
                region,
                #[trigger] region_coord(region, k),
            ) == k,
        forall|coord: Vector2|
            region_contains(region, coord) ==> 0 <= #[trigger] region_position(region, coord)
                < region_len(region) && region_coord(region, region_position(region, coord))
                == coord,
{
    assert forall|k: int| 0 <= k < region_len(region) implies region_contains(
        region,
        #[trigger] region_coord(region, k),
    ) && region_position(region, region_coord(region, k)) == k by {
        lemma_position_split(region, k);
    }
    assert forall|coord: Vector2| region_contains(region, coord) implies 0
        <= #[trigger] region_position(region, coord) < region_len(region) && region_coord(
        region,
        region_position(region, coord),
    ) == coord by {
        lemma_coord_at(region, coord.y - region.y, coord.x - region.x);
    }
}

/// A walk over a rectangle that lies within the grid visits exactly
/// `(max_x - min_x + 1) * (max_y - min_y + 1)` coordinates, all of them within
/// the rectangle.
pub proof fn lemma_region_within_grid(dimensions: Vector2, region: Vector4)
    requires
        region.x <= region.z < dimensions.x,
        region.y <= region.w < dimensions.y,
    ensures
        walk_end(dimensions, region, 0) == region_len(region),
        region_len(region) == (region.z - region.x + 1) * (region.w - region.y + 1),
        forall|k: int|
            0 <= k < region_len(region) ==> region_contains(
                region,
                #[trigger] region_coord(region, k),
            ) && in_bounds(dimensions, region_coord(region, k)),
{
    lemma_region_walk(region);
    lemma_walk_complete(dimensions, region);
}

/// The walk over the whole of a grid visits every cell exactly once, in the
/// order of the buffer: position `k` of the walk is the cell with flat index
/// `k`.
pub proof fn lemma_full_region_row_major(dimensions: Vector2)
    ensures
        walk_end(dimensions, full_region(dimensions), 0) == dimensions.x * dimensions.y,
        forall|k: int|
            0 <= k < dimensions.x * dimensions.y ==> in_bounds(
                dimensions,
                #[trigger] region_coord(full_region(dimensions), k),
            ) && flat_index(dimensions, region_coord(full_region(dimensions), k)) == k,
        forall|coord: Vector2|
            in_bounds(dimensions, coord) ==> 0 <= #[trigger] flat_index(dimensions, coord)
                < dimensions.x * dimensions.y && region_coord(
                full_region(dimensions),
                flat_index(dimensions, coord),
            ) == coord,
{
    let region = full_region(dimensions);
    if dimensions.x > 0 && dimensions.y > 0 {
        lemma_region_within_grid(dimensions, region);
        lemma_region_walk(region);
        assert(region_cols(region) == dimensions.x);
        assert(region_rows(region) == dimensions.y);
        assert forall|coord: Vector2| in_bounds(dimensions, coord) implies region_position(
            region,
            coord,
        ) == flat_index(dimensions, coord) && region_contains(region, coord) by {}
        assert forall|k: int| 0 <= k < dimensions.x * dimensions.y implies flat_index(
            dimensions,
            #[trigger] region_coord(region, k),
        ) == k by {
            let coord = region_coord(region, k);
            assert(region_contains(region, coord));
            assert(region_position(region, coord) == k);
        }
    } else {
        assert(dimensions.x * dimensions.y == 0) by (nonlinear_arith)
            requires
                dimensions.x == 0 || dimensions.y == 0,
        ;
        assert(region_cols(region) >= 1);
        assert(0int / region_cols(region) == 0 && 0int % region_cols(region) == 0) by {
            lemma_coord_at(region, 0, 0);
            assert(0 * region_cols(region) + 0 == 0);
        }
        assert(!in_bounds(dimensions, region_coord(region, 0)));
    }
}

/// The grid after `value` has been written to the first `n` coordinates of
/// the walk over `region`.
pub open spec fn region_filled<T>(grid: GridView<T>, region: Vector4, value: T, n: int) -> GridView<
    T,
>
    decreases n,
{
    if n <= 0 {
        grid
    } else {
        region_filled(grid, region, value, n - 1).set(region_coord(region, n - 1), value)
    }
}

/// Where a value has been written to each of the `n` coordinates of a
/// rectangle within the grid, the walk over that rectangle yields `n` cells,
/// and each of them holds that value.
pub proof fn lemma_region_round_trip<T>(grid: GridView<T>, region: Vector4, value: T)
    requires
        grid.wf(),
        region.x <= region.z < grid.dimensions.x,
        region.y <= region.w < grid.dimensions.y,
    ensures
        ({
            let n = region_len(region);
            let filled = region_filled(grid, region, value, n);
            &&& filled.wf()
            &&& filled.dimensions == grid.dimensions
            &&& walk_end(filled.dimensions, region, 0) == n
            &&& forall|k: int|
                0 <= k < n ==> filled.get(#[trigger] region_coord(region, k)) == Some(value)
        }),
{
    lemma_region_within_grid(grid.dimensions, region);
    lemma_region_walk(region);
    lemma_fill_prefix(grid, region, value, region_len(region));
}

proof fn lemma_fill_prefix<T>(grid: GridView<T>, region: Vector4, value: T, n: int)
    requires
        grid.wf(),
        0 <= n <= region_len(region),
        forall|k: int|
            0 <= k < region_len(region) ==> in_bounds(
                grid.dimensions,
                #[trigger] region_coord(region, k),
            ),
    ensures
        region_filled(grid, region, value, n).wf(),
        region_filled(grid, region, value, n).dimensions == grid.dimensions,
        forall|k: int|
            0 <= k < n ==> region_filled(grid, region, value, n).get(
                #[trigger] region_coord(region, k),
            ) == Some(value),
    decreases n,
{
    if n > 0 {
        lemma_fill_prefix(grid, region, value, n - 1);
        let before = region_filled(grid, region, value, n - 1);
        let last = region_coord(region, n - 1);
        assert forall|k: int| 0 <= k < n implies region_filled(grid, region, value, n).get(
            #[trigger] region_coord(region, k),
        ) == Some(value) by {
            lemma_get_after_set(before, last, value, region_coord(region, k));
        }
        lemma_get_after_set(before, last, value, last);
    }
}

/// The step of a walk, shared by the two iterators.
trait IncrementRegionHelper {
    /// Moves `current` one stride to the right, or to the first column of the
    /// row one stride further down where that leaves the region.
    fn increment(region: &Vector4, current: &mut Vector2, stride: u32)
        requires
            old(current).x + stride <= u32::MAX,
            old(current).x + stride > region.z ==> old(current).y + stride <= u32::MAX,
        ensures
            *final(current) == step(*region, *old(current), stride),
        no_unwind
    {
        current.x += stride;
        if current.x > region.z {
            current.x = region.x;
            current.y += stride;
        }
    }
}

/// The moving part of a walk: the region, the coordinate that comes next and
/// the distance of one step.
struct RegionCursor {
    region: Vector4,
    current: Vector2,
    stride: u32,
}

impl IncrementRegionHelper for RegionCursor {

}

impl RegionCursor {
    #[verifier::type_invariant]
    spec fn inv(self) -> bool {
        self.stride == 1 && on_walk(self.region, self.current)
    }

    spec fn position(self) -> int {
        region_position(self.region, self.current)
    }

    /// A cursor on the first coordinate of `region`.
    fn new(region: Vector4) -> (cursor: Self)
        ensures
            cursor.region == region,
            cursor.position() == 0,
    {
        assert(0 * region_cols(region) == 0);
        Self { region, current: Vector2::new(region.x, region.y), stride: 1 }
    }

    /// The coordinate under the cursor, or `None` behind the last row of the
    /// region.
    fn peek(&self) -> (r: Option<Vector2>)
        ensures
            0 <= self.position() <= region_len(self.region),
            match r {
                Some(coord) => self.position() < region_len(self.region) && coord == self.current
                    && coord == region_coord(self.region, self.position()),
                None => self.position() == region_len(self.region),
            },
    {
        proof {
            use_type_invariant(self);
            lemma_cursor_position(self.region, self.current);
        }
        if self.current.y > self.region.w {
            None
        } else {
            Some(self.current)
        }
    }

    /// Moves the cursor from a coordinate of some grid to the next position.
    fn advance(&mut self)
        requires
            old(self).position() < region_len(old(self).region),
            old(self).current.x < u32::MAX,
            old(self).current.y < u32::MAX,
        ensures
            final(self).region == old(self).region,
            final(self).position() == old(self).position() + 1,
            final(self).position() <= region_len(old(self).region),
    {
        proof {
            use_type_invariant(&*self);
            lemma_cursor_position(self.region, self.current);
            lemma_step_position(self.region, self.current);
            lemma_cursor_position(self.region, step(self.region, self.current, 1));
        }
        Self::increment(&self.region, &mut self.current, self.stride);
    }
}

/// A cursor that reads the cells of a region of a grid, one row after the
/// other and each row from left to right. It ends behind the last row of the
/// region, or at the first coordinate that the grid does not hold.
pub struct GridRegionIter<'a, T, G> {
    cursor: RegionCursor,
    data: &'a G,
    cell: PhantomData<T>,
}

impl<'a, T, G> GridRegionIter<'a, T, G> {
    /// The region that is walked.
    pub closed spec fn region(&self) -> Vector4 {
        self.cursor.region
    }

    /// The shared borrow of the grid that the cursor holds.
    pub closed spec fn source(&self) -> &'a G {
        self.data
    }

    /// How many coordinates of the walk lie behind the cursor.
    pub closed spec fn position(&self) -> int {
        self.cursor.position()
    }

    /// A walk over `region` of `data` that stands at its first coordinate.
    pub fn new(region: Vector4, data: &'a G) -> (it: Self)
        ensures
            it.region() == region,
            it.source() == data,
            it.position() == 0,
    {
        Self { cursor: RegionCursor::new(region), data, cell: PhantomData }
    }
}

impl<'a, T: Send + Sync + Default + Clone, G: Grid2D<T>> GridRegionIter<'a, T, G> {
    /// The grid that is read.
    pub open spec fn grid(&self) -> GridView<T> {
        self.source().model()
    }

    /// The coordinate under the cursor with its cell, after which the cursor
    /// moves on; `None`, with the cursor left where it is, at the end of the
    /// region and at a coordinate that the grid does not hold.
    pub fn next(&mut self) -> (r: Option<(Vector2, &'a T)>)
        ensures
            final(self).region() == old(self).region(),
            final(self).source() == old(self).source(),
            0 <= old(self).position() <= final(self).position() <= region_len(old(self).region()),
            match r {
                Some((coord, value)) => {
                    &&& old(self).position() < region_len(old(self).region())
                    &&& coord == region_coord(old(self).region(), old(self).position())
                    &&& old(self).grid().get(coord) == Some(*value)
                    &&& final(self).position() == old(self).position() + 1
                },
                None => {
                    &&& final(self).position() == old(self).position()
                    &&& old(self).position() < region_len(old(self).region())
                        ==> old(self).grid().get(
                        region_coord(old(self).region(), old(self).position()),
                    ) == None::<T>
                },
            },
    {
        let last = match self.cursor.peek() {
            Some(coord) => coord,
            None => {
                return None;
            },
        };
        match self.data.get(last) {
            Some(value) => {
                self.cursor.advance();
                Some((last, value))
            },
            None => None,
        }
    }

    /// Walks to the end and returns what `next` yields on the way, in order.
    pub fn collect(self) -> (items: Vec<(Vector2, &'a T)>)
        ensures
            items@.len() == walk_end(self.grid().dimensions, self.region(), self.position())
                - self.position(),
            forall|i: int|
                0 <= i < items@.len() ==> {
                    &&& (#[trigger] items@[i]).0 == region_coord(
                        self.region(),
                        self.position() + i,
                    )
                    &&& self.grid().get(items@[i].0) == Some(*items@[i].1)
                },
    {
        let ghost start = self.position();
        let ghost region = self.region();
        let ghost grid = self.grid();
        proof {
            use_type_invariant(&self.cursor);
            lemma_cursor_position(self.cursor.region, self.cursor.current);
        }
        let mut it = self;
        let mut items: Vec<(Vector2, &'a T)> = Vec::new();
        loop
            invariant
                it.region() == region,
                it.source() == self.source(),
                grid == self.grid(),
                0 <= start <= it.position() <= region_len(region),
                items@.len() == it.position() - start,
                walk_end(grid.dimensions, region, it.position()) == walk_end(
                    grid.dimensions,
                    region,
                    start,
                ),
                forall|i: int|
                    0 <= i < items@.len() ==> {
                        &&& (#[trigger] items@[i]).0 == region_coord(region, start + i)
                        &&& grid.get(items@[i].0) == Some(*items@[i].1)
                    },
            ensures
                items@.len() == walk_end(grid.dimensions, region, start) - start,
            decreases region_len(region) - it.position(),
        {
            match it.next() {
                Some(item) => {
                    items.push(item);
                },
                None => {
                    break ;
                },
            }
        }
        items
    }
}

/// A cursor that hands out the cells of a region of a grid for writing, one
/// at a time, in the order of [`GridRegionIter`]. It holds the grid
/// exclusively for as long as it lives.
pub struct GridRegionIterMut<'a, T, G> {
    cursor: RegionCursor,
    data: &'a mut G,
    cell: PhantomData<T>,
}

impl<'a, T, G> GridRegionIterMut<'a, T, G> {
    /// The region that is walked.
    pub closed spec fn region(&self) -> Vector4 {
        self.cursor.region
    }

    /// The exclusive borrow of the grid that the cursor holds.
    pub closed spec fn target(&self) -> &'a mut G {
        self.data
    }

    /// How many coordinates of the walk lie behind the cursor.
    pub closed spec fn position(&self) -> int {
        self.cursor.position()
    }

    /// A walk over `region` of `data` that stands at its first coordinate.
    pub fn new(region: Vector4, data: &'a mut G) -> (it: Self)
        ensures
            it.region() == region,
            *it.target() == *old(data),
            *final(it.target()) == *final(data),
            it.position() == 0,
    {
        Self { cursor: RegionCursor::new(region), data, cell: PhantomData }
    }
}

impl<'a, T: Send + Sync + Default + Clone, G: Grid2D<T>> GridRegionIterMut<'a, T, G> {
    /// The grid as it is now.
    pub open spec fn grid(&self) -> GridView<T> {
        self.target().model()
    }

    /// The coordinate under the cursor with exclusive access to its cell,
    /// after which the cursor moves on; `None`, with the cursor left where it
    /// is, at the end of the region and at a coordinate that the grid does not
    /// hold. What the caller leaves in the cell is the only change to the grid.
    pub fn next(&mut self) -> (r: Option<(Vector2, &mut T)>)
        ensures
            final(self).region() == old(self).region(),
            *final(final(self).target()) == *final(old(self).target()),
            0 <= old(self).position() <= final(self).position() <= region_len(old(self).region()),
            match r {
                Some((coord, value)) => {
                    &&& old(self).position() < region_len(old(self).region())
                    &&& coord == region_coord(old(self).region(), old(self).position())
                    &&& old(self).grid().get(coord) == Some(*value)
                    &&& final(self).grid() == old(self).grid().set(coord, *final(value))
                    &&& final(self).position() == old(self).position() + 1
                },
                None => {
                    &&& final(self).grid() == old(self).grid()
                    &&& final(self).position() == old(self).position()
                    &&& old(self).position() < region_len(old(self).region())
                        ==> old(self).grid().get(
                        region_coord(old(self).region(), old(self).position()),
                    ) == None::<T>
                },
            },
    {
        let last = match self.cursor.peek() {
            Some(coord) => coord,
            None => {
                return None;
            },
        };
        match self.data.get_mut(last) {
            Some(value) => {
                self.cursor.advance();
                Some((last, value))
            },
            None => None,
        }
    }
}

/// Once a mutable walk has been used for the last time, the grid that it
/// borrowed is what the walk left.
pub proof fn lemma_walk_resolved<T: Send + Sync + Default + Clone, G: Grid2D<T>>(
    it: GridRegionIterMut<'_, T, G>,
)
    requires
        has_resolved(it),
    ensures
        final(it.target()).model() == it.grid(),
{
}

} // verus!
