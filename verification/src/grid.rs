//! The grid itself: its mathematical model, the interface that every grid
//! offers, and the dense storage that implements it.

use vstd::prelude::*;
use crate::error::{Error, TilesResult};
use crate::region::{full_region, GridRegionIter, GridRegionIterMut};
use crate::vector::{Vector2, Vector4};

verus! {

/// Side length of the square grid that `Default` builds.
pub const DEFAULT_SIZE: u32 = 1024;

/// Whether `coord` names a cell of a grid of the given dimensions.
pub open spec fn in_bounds(dimensions: Vector2, coord: Vector2) -> bool {
    coord.x < dimensions.x && coord.y < dimensions.y
}

/// Position of the cell `coord` in the row-major buffer of a grid of the given
/// dimensions: whole rows first, then the column within the row.
pub open spec fn flat_index(dimensions: Vector2, coord: Vector2) -> int {
    coord.y * dimensions.x + coord.x
}

/// Whether `value` is a value that `T::default()` may return.
pub open spec fn is_default<T: Default>(value: T) -> bool {
    call_ensures(T::default, (), value)
}

/// What a grid is: its dimensions and its cells in row-major order.
pub struct GridView<T> {
    pub dimensions: Vector2,
    pub cells: Seq<T>,
}

impl<T> GridView<T> {
    /// There is exactly one cell for each coordinate within the dimensions.
    pub open spec fn wf(self) -> bool {
        self.cells.len() == self.dimensions.x * self.dimensions.y
    }

    pub open spec fn contains(self, coord: Vector2) -> bool {
        in_bounds(self.dimensions, coord)
    }

    pub open spec fn index_of(self, coord: Vector2) -> int {
        flat_index(self.dimensions, coord)
    }

    /// The value at `coord`; meaningful only where `contains(coord)`.
    pub open spec fn cell(self, coord: Vector2) -> T {
        self.cells[self.index_of(coord)]
    }

    /// What a bounds-checked read of `coord` yields.
    pub open spec fn get(self, coord: Vector2) -> Option<T> {
        if self.contains(coord) {
            Some(self.cell(coord))
        } else {
            None
        }
    }

    /// The grid after `value` has been written to `coord`.
    pub open spec fn set(self, coord: Vector2, value: T) -> GridView<T> {
        GridView {
            dimensions: self.dimensions,
            cells: self.cells.update(self.index_of(coord), value),
        }
    }
}

/// Within the dimensions, the flat index stays within the buffer.
pub proof fn lemma_flat_index_bounds(dimensions: Vector2, coord: Vector2)
    requires
        in_bounds(dimensions, coord),
    ensures
        0 <= coord.y * dimensions.x,
        0 <= flat_index(dimensions, coord) < dimensions.x * dimensions.y,
{
    assert(0 <= coord.y * dimensions.x) by (nonlinear_arith)
        requires
            0 <= coord.y,
            0 <= dimensions.x,
    ;
    assert(coord.y * dimensions.x + coord.x < dimensions.x * dimensions.y) by (nonlinear_arith)
        requires
            0 <= coord.x < dimensions.x,
            0 <= coord.y < dimensions.y,
    ;
}

/// Within the dimensions, distinct coordinates have distinct flat indices.
pub proof fn lemma_flat_index_injective(dimensions: Vector2, a: Vector2, b: Vector2)
    requires
        in_bounds(dimensions, a),
        in_bounds(dimensions, b),
        flat_index(dimensions, a) == flat_index(dimensions, b),
    ensures
        a == b,
{
    let w = dimensions.x as int;
    let (ax, ay, bx, by) = (a.x as int, a.y as int, b.x as int, b.y as int);
    assert(ay == by) by (nonlinear_arith)
        requires
            ay * w + ax == by * w + bx,
            0 <= ax < w,
            0 <= bx < w,
            0 <= ay,
            0 <= by,
    ;
}

/// A cell that has been written reads back as the value written, and every
/// other coordinate reads as it did before.
pub proof fn lemma_get_after_set<T>(grid: GridView<T>, coord: Vector2, value: T, other: Vector2)
    requires
        grid.wf(),
        grid.contains(coord),
    ensures
        grid.set(coord, value).wf(),
        grid.set(coord, value).get(coord) == Some(value),
        other != coord ==> grid.set(coord, value).get(other) == grid.get(other),
{
    lemma_flat_index_bounds(grid.dimensions, coord);
    if other != coord && grid.contains(other) {
        lemma_flat_index_bounds(grid.dimensions, other);
        if flat_index(grid.dimensions, other) == flat_index(grid.dimensions, coord) {
            lemma_flat_index_injective(grid.dimensions, other, coord);
        }
    }
}

/// The interface of a two-dimensional grid of `T`.
pub trait Grid2D<T: Send + Sync + Default + Clone> {
    /// The dimensions and cells that this grid stands for.
    spec fn model(&self) -> GridView<T>;

    fn dimensions(&self) -> (d: Vector2)
        ensures
            d == self.model().dimensions,
            self.model().wf(),
    ;

    /// The cell at `coord`, or `None` where `coord` lies outside the grid.
    fn get(&self, coord: Vector2) -> (r: Option<&T>)
        ensures
            match r {
                Some(v) => self.model().get(coord) == Some(*v),
                None => self.model().get(coord) == None::<T>,
            },
    ;

    /// Exclusive access to the cell at `coord`, or `None` where `coord` lies
    /// outside the grid. Whatever the caller leaves in the cell is the only
    /// change to the grid.
    fn get_mut(&mut self, coord: Vector2) -> (r: Option<&mut T>)
        ensures
            match r {
                Some(v) => old(self).model().get(coord) == Some(*v)
                    && final(self).model() == old(self).model().set(coord, *final(v)),
                None => old(self).model().get(coord) == None::<T>
                    && final(self).model() == old(self).model(),
            },
    ;

    /// Overwrites the cell at `coord`; fails, and changes nothing, exactly
    /// where `coord` lies outside the grid.
    fn set(&mut self, coord: Vector2, value: T) -> (r: TilesResult<()>)
        ensures
            match r {
                Ok(_) => old(self).model().contains(coord)
                    && final(self).model() == old(self).model().set(coord, value),
                Err(e) => !old(self).model().contains(coord)
                    && final(self).model() == old(self).model()
                    && e == (Error::OutOfBounds {
                        dimensions: old(self).model().dimensions,
                        coordinate: coord,
                    }),
            },
    ;

    /// A read-only walk over `region`, at its first coordinate.
    fn iter_region(&self, region: Vector4) -> (it: GridRegionIter<'_, T, Self>) where Self: Sized
        ensures
            it.region() == region,
            it.source() == self,
            it.position() == 0,
    ;

    /// A walk over `region` that hands out its cells for writing. The grid is
    /// in the end what the walk leaves.
    fn iter_region_mut(&mut self, region: Vector4) -> (it: GridRegionIterMut<'_, T, Self>) where
        Self: Sized,

        ensures
            it.region() == region,
            it.position() == 0,
            *it.target() == *old(self),
            *final(it.target()) == *final(self),
    ;

    /// A read-only walk over the whole grid.
    fn iter(&self) -> (it: GridRegionIter<'_, T, Self>) where Self: Sized
        ensures
            it.region() == full_region(self.model().dimensions),
            it.source() == self,
            it.position() == 0,
    ;

    /// A walk over the whole grid that hands out its cells for writing.
    fn iter_mut(&mut self) -> (it: GridRegionIterMut<'_, T, Self>) where Self: Sized
        ensures
            it.region() == full_region(old(self).model().dimensions),
            it.position() == 0,
            *it.target() == *old(self),
            *final(it.target()) == *final(self),
    ;
}

/// A grid held as one contiguous row-major buffer. Its size is fixed when it is
/// built.
pub struct GridStorage2D<T: Send + Sync + Default + Clone> {
    storage: Vec<T>,
    dimensions: Vector2,
}

impl<T: Send + Sync + Default + Clone> View for GridStorage2D<T> {
    type V = GridView<T>;

    closed spec fn view(&self) -> GridView<T> {
        GridView { dimensions: self.dimensions, cells: self.storage@ }
    }
}

impl<T: Send + Sync + Default + Clone> GridStorage2D<T> {
    #[verifier::type_invariant]
    spec fn inv(self) -> bool {
        self@.wf()
    }

    /// A grid of the given dimensions with every cell at `T`'s default.
    pub fn new(dimensions: Vector2) -> (grid: Self)
        requires
            dimensions.x * dimensions.y <= u32::MAX,
        ensures
            grid@.dimensions == dimensions,
            grid@.wf(),
            forall|i: int| 0 <= i < grid@.cells.len() ==> is_default(#[trigger] grid@.cells[i]),
            forall|coord: Vector2|
                grid@.contains(coord) ==> is_default(#[trigger] grid@.cell(coord)),
    {
        let capacity: u32 = dimensions.x * dimensions.y;
        let mut storage: Vec<T> = Vec::with_capacity(capacity as usize);
        let mut filled: u32 = 0;
        while filled < capacity
            invariant
                filled <= capacity,
                storage@.len() == filled,
                forall|i: int| 0 <= i < storage@.len() ==> is_default(#[trigger] storage@[i]),
            decreases capacity - filled,
        {
            storage.push(T::default());
            filled = filled + 1;
        }
        let grid = Self { storage, dimensions };
        proof {
            assert forall|coord: Vector2| grid@.contains(coord) implies is_default(
                #[trigger] grid@.cell(coord),
            ) by {
                lemma_flat_index_bounds(dimensions, coord);
            }
        }
        grid
    }

    /// A grid of the given dimensions over a buffer that already holds its
    /// cells in row-major order; `None` where the buffer does not hold exactly
    /// one cell for each coordinate.
    pub fn from_storage(dimensions: Vector2, storage: Vec<T>) -> (r: Option<Self>)
        ensures
            match r {
                Some(grid) => storage@.len() == dimensions.x * dimensions.y && grid@ == (GridView {
                    dimensions,
                    cells: storage@,
                }),
                None => storage@.len() != dimensions.x * dimensions.y,
            },
    {
        assert(dimensions.x * dimensions.y <= u64::MAX) by (nonlinear_arith)
            requires
                dimensions.x <= u32::MAX,
                dimensions.y <= u32::MAX,
        ;
        let capacity: u64 = (dimensions.x as u64) * (dimensions.y as u64);
        if storage.len() as u64 == capacity {
            Some(Self { storage, dimensions })
        } else {
            None
        }
    }

    /// The cells in row-major order.
    pub fn storage(&self) -> (cells: &Vec<T>)
        ensures
            cells@ == self@.cells,
            self@.wf(),
    {
        proof {
            use_type_invariant(self);
        }
        &self.storage
    }

    /// The cell at a coordinate that the caller has already found to lie
    /// within the grid: the access without the bounds check.
    pub fn get_unchecked(&self, coord: Vector2) -> (cell: &T)
        requires
            self@.contains(coord),
        ensures
            *cell == self@.cell(coord),
    {
        let i = self.flatten(coord);
        &self.storage[i]
    }

    /// Exclusive access to the cell at a coordinate that the caller has
    /// already found to lie within the grid.
    pub fn get_unchecked_mut(&mut self, coord: Vector2) -> (cell: &mut T)
        requires
            old(self)@.contains(coord),
        ensures
            *cell == old(self)@.cell(coord),
            final(self)@ == old(self)@.set(coord, *final(cell)),
    {
        proof {
            use_type_invariant(&*self);
        }
        let i = self.flatten(coord);
        &mut self.storage[i]
    }

    /// Position of `coord` in the backing buffer.
    fn flatten(&self, coord: Vector2) -> (i: usize)
        requires
            self@.contains(coord),
        ensures
            i == self@.index_of(coord),
            i < self@.cells.len(),
    {
        proof {
            use_type_invariant(self);
            lemma_flat_index_bounds(self.dimensions, coord);
            assert(self.storage.len() == self.dimensions.x * self.dimensions.y);
        }
        let width: usize = self.dimensions.x as usize;
        (coord.y as usize) * width + (coord.x as usize)
    }
}

impl<T: Send + Sync + Default + Clone> Default for GridStorage2D<T> {
    fn default() -> (grid: Self)
        ensures
            grid@.dimensions == (Vector2 { x: DEFAULT_SIZE, y: DEFAULT_SIZE }),
            grid@.wf(),
            forall|coord: Vector2|
                grid@.contains(coord) ==> is_default(#[trigger] grid@.cell(coord)),
    {
        assert(DEFAULT_SIZE * DEFAULT_SIZE == 1_048_576);
        Self::new(Vector2::new(DEFAULT_SIZE, DEFAULT_SIZE))
    }
}

impl<T: Send + Sync + Default + Clone> Grid2D<T> for GridStorage2D<T> {
    open spec fn model(&self) -> GridView<T> {
        self@
    }

    fn dimensions(&self) -> (d: Vector2) {
        proof {
            use_type_invariant(self);
        }
        self.dimensions
    }

    fn get(&self, coord: Vector2) -> (r: Option<&T>) {
        if coord.x < self.dimensions.x && coord.y < self.dimensions.y {
            let i = self.flatten(coord);
            Some(&self.storage[i])
        } else {
            None
        }
    }

    fn get_mut(&mut self, coord: Vector2) -> (r: Option<&mut T>) {
        proof {
            use_type_invariant(&*self);
        }
        if coord.x < self.dimensions.x && coord.y < self.dimensions.y {
            let i = self.flatten(coord);
            Some(&mut self.storage[i])
        } else {
            None
        }
    }

    fn set(&mut self, coord: Vector2, value: T) -> (r: TilesResult<()>) {
        proof {
            use_type_invariant(&*self);
        }
        if coord.x < self.dimensions.x && coord.y < self.dimensions.y {
            let i = self.flatten(coord);
            self.storage[i] = value;
            Ok(())
        } else {
            Err(Error::OutOfBounds { dimensions: self.dimensions, coordinate: coord })
        }
    }

    fn iter_region(&self, region: Vector4) -> (it: GridRegionIter<'_, T, Self>) {
        GridRegionIter::new(region, self)
    }

    fn iter_region_mut(&mut self, region: Vector4) -> (it: GridRegionIterMut<'_, T, Self>) {
        GridRegionIterMut::new(region, self)
    }

    fn iter(&self) -> (it: GridRegionIter<'_, T, Self>) {
        let last_x = self.dimensions.x.saturating_sub(1);
        let last_y = self.dimensions.y.saturating_sub(1);
        self.iter_region(Vector4::new(0, 0, last_x, last_y))
    }

    fn iter_mut(&mut self) -> (it: GridRegionIterMut<'_, T, Self>) {
        let last_x = self.dimensions.x.saturating_sub(1);
        let last_y = self.dimensions.y.saturating_sub(1);
        self.iter_region_mut(Vector4::new(0, 0, last_x, last_y))
    }
}

} // verus!
