//! The voxel domain model and the dense 3D grid container that stores
//! the world.

use crate::march::{is_occupancy_of, DenseBinaryCartesianSDF};
use crate::types::{Color, Dimension3, GPUFormat, OutOfBounds};
use vstd::arithmetic::div_mod::lemma_div_denominator;
use vstd::prelude::*;

verus! {

/// The material of one world cell. The canonical small-integer id of
/// each variant (its declaration ordinal) is the byte value uploaded
/// to the GPU voxel texture.
#[derive(Clone, Copy, PartialEq, Eq, Structural, Debug)]
pub enum Voxel {
    Empty,
    Red,
    Blue,
    Green,
}

impl Voxel {
    /// Canonical id of each material, as uploaded to the GPU.
    pub open spec fn id_spec(self) -> u8 {
        match self {
            Voxel::Empty => 0,
            Voxel::Red => 1,
            Voxel::Blue => 2,
            Voxel::Green => 3,
        }
    }

    /// The total, lossy mapping from an RGB triple to a material: the
    /// three pure primaries map to their material, everything else to
    /// `Empty`.
    pub open spec fn from_color_spec(color: Color) -> Voxel {
        if color == (0xffu8, 0x00u8, 0x00u8) {
            Voxel::Red
        } else if color == (0x00u8, 0xffu8, 0x00u8) {
            Voxel::Green
        } else if color == (0x00u8, 0x00u8, 0xffu8) {
            Voxel::Blue
        } else {
            Voxel::Empty
        }
    }

    /// Map an RGB triple to a material; never fails.
    pub fn from_color(color: Color) -> (v: Voxel)
        ensures
            v == Voxel::from_color_spec(color),
    {
        match color {
            (0xff, 0x00, 0x00) => Voxel::Red,
            (0x00, 0xff, 0x00) => Voxel::Green,
            (0x00, 0x00, 0xff) => Voxel::Blue,
            _ => Voxel::Empty,
        }
    }

    /// Whether this cell holds no material.
    pub fn is_empty(&self) -> (r: bool)
        ensures
            r == (*self is Empty),
    {
        *self == Voxel::Empty
    }

    /// The canonical id, as uploaded to the GPU.
    pub fn id(&self) -> (r: u8)
        ensures
            r == self.id_spec(),
    {
        match *self {
            Voxel::Empty => 0,
            Voxel::Red => 1,
            Voxel::Blue => 2,
            Voxel::Green => 3,
        }
    }
}

impl Default for Voxel {
    /// A fresh cell is `Empty`.
    fn default() -> (v: Self)
        ensures
            v == Voxel::Empty,
    {
        Voxel::Empty
    }
}

/// A fixed-shape 3D array stored as one flat buffer in row-major
/// order: cell `(x, y, z)` lives at linear index
/// `x + shape.x * (y + shape.y * z)`.
pub struct DenseGrid<T> {
    shape: Dimension3,
    grid: Vec<T>,
}

impl<T> View for DenseGrid<T> {
    type V = Seq<T>;

    closed spec fn view(&self) -> Seq<T> {
        self.grid@
    }
}

impl<T> DenseGrid<T> {
    /// The shape fixed at construction.
    pub closed spec fn spec_shape(&self) -> Dimension3 {
        self.shape
    }

    /// The buffer length always equals the product of the three shape
    /// dimensions.
    pub open spec fn wf(&self) -> bool {
        self@.len() == self.spec_shape().volume()
    }
}

impl<T: Copy> DenseGrid<T> {
    /// A grid of the given shape with every cell set to `val`.
    pub fn fill(shape: Dimension3, val: T) -> (r: DenseGrid<T>)
        requires
            shape.volume_fits(),
        ensures
            r.wf(),
            r.spec_shape() == shape,
            r@ == Seq::new(shape.volume() as nat, |i: int| val),
    {
        let n: usize = shape.x * shape.y * shape.z;
        let mut grid: Vec<T> = Vec::new();
        let mut i: usize = 0;
        while i < n
            invariant
                i <= n,
                grid@.len() == i,
                forall|j: int| 0 <= j < i ==> grid@[j] == val,
            decreases n - i,
        {
            grid.push(val);
            i = i + 1;
        }
        proof {
            assert(grid@ =~= Seq::new(shape.volume() as nat, |i: int| val));
        }
        DenseGrid { shape, grid }
    }

    /// Read accessor for the shape.
    pub fn shape(&self) -> (r: Dimension3)
        ensures
            r == self.spec_shape(),
    {
        self.shape
    }

    /// Read-only view over the backing buffer in linear order.
    pub fn grid(&self) -> (r: &Vec<T>)
        ensures
            r@ == self@,
    {
        &self.grid
    }

    /// The linear index of an in-bounds coordinate, computed without
    /// overflow.
    fn linear_index_of(&self, x: usize, y: usize, z: usize) -> (i: usize)
        requires
            self.wf(),
            self.spec_shape().in_bounds(x as int, y as int, z as int),
        ensures
            i == self.spec_shape().flat_index(x as int, y as int, z as int),
            i < self@.len(),
    {
        let n = self.grid.len();
        proof {
            let sh = self.spec_shape();
            sh.lemma_flat_index_coord_at(x as int, y as int, z as int);
            let w = sh.x as int;
            let h = sh.y as int;
            let fi = sh.flat_index(x as int, y as int, z as int);
            assert(h * z <= fi && y + h * z <= fi && w * (y + h * z) <= fi) by (nonlinear_arith)
                requires
                    fi == x + w * (y + h * z),
                    0 <= x,
                    1 <= w,
                    0 <= y,
                    0 <= z,
                    0 <= h,
            ;
        }
        x + self.shape.x * (y + self.shape.y * z)
    }

    /// The cell at an in-bounds coordinate.
    pub fn at(&self, x: usize, y: usize, z: usize) -> (r: T)
        requires
            self.wf(),
            self.spec_shape().in_bounds(x as int, y as int, z as int),
        ensures
            r == self@[self.spec_shape().flat_index(x as int, y as int, z as int)],
    {
        let i = self.linear_index_of(x, y, z);
        self.grid[i]
    }

    /// Overwrite the cell at an in-bounds coordinate.
    pub fn put(&mut self, x: usize, y: usize, z: usize, val: T)
        requires
            old(self).wf(),
            old(self).spec_shape().in_bounds(x as int, y as int, z as int),
        ensures
            final(self).wf(),
            final(self).spec_shape() == old(self).spec_shape(),
            final(self)@ == old(self)@.update(
                old(self).spec_shape().flat_index(x as int, y as int, z as int),
                val,
            ),
    {
        let i = self.linear_index_of(x, y, z);
        self.grid[i] = val;
    }

    /// Overwrite the cell at a linear index of the flat buffer.
    pub fn write_at(&mut self, i: usize, val: T)
        requires
            old(self).wf(),
            i < old(self)@.len(),
        ensures
            final(self).wf(),
            final(self).spec_shape() == old(self).spec_shape(),
            final(self)@ == old(self)@.update(i as int, val),
    {
        self.grid[i] = val;
    }

    /// Checked element access: fails with `OutOfBounds` when any
    /// coordinate reaches past the corresponding shape dimension.
    pub fn get(&self, x: usize, y: usize, z: usize) -> (r: Result<T, OutOfBounds>)
        requires
            self.wf(),
        ensures
            match r {
                Ok(v) => self.spec_shape().in_bounds(x as int, y as int, z as int)
                    && v == self@[self.spec_shape().flat_index(x as int, y as int, z as int)],
                Err(_) => !self.spec_shape().in_bounds(x as int, y as int, z as int),
            },
    {
        if x < self.shape.x && y < self.shape.y && z < self.shape.z {
            Ok(self.at(x, y, z))
        } else {
            Err(OutOfBounds)
        }
    }

    /// Checked element mutation: fails with `OutOfBounds`, leaving the
    /// grid unchanged, when any coordinate is outside the shape.
    pub fn set(&mut self, x: usize, y: usize, z: usize, val: T) -> (r: Result<(), OutOfBounds>)
        requires
            old(self).wf(),
        ensures
            final(self).wf(),
            final(self).spec_shape() == old(self).spec_shape(),
            match r {
                Ok(_) => old(self).spec_shape().in_bounds(x as int, y as int, z as int)
                    && final(self)@ == old(self)@.update(
                        old(self).spec_shape().flat_index(x as int, y as int, z as int),
                        val,
                    ),
                Err(_) => !old(self).spec_shape().in_bounds(x as int, y as int, z as int)
                    && final(self)@ == old(self)@,
            },
    {
        if x < self.shape.x && y < self.shape.y && z < self.shape.z {
            self.put(x, y, z, val);
            Ok(())
        } else {
            Err(OutOfBounds)
        }
    }
}

/// The voxel laid down by the procedural generator at cell
/// `(cx, cy, cz)`: a sparse lattice of red markers away from the grid
/// faces, everything else empty.
pub open spec fn generated_voxel(cx: int, cy: int, cz: int) -> Voxel {
    if cx >= 10 && cx % 3 == 0 && cy >= 1 && cy % 3 == 0 && cz >= 1 && cz % 5 == 0 {
        Voxel::Red
    } else {
        Voxel::Empty
    }
}

/// The world aggregate: the voxel grid and the occupancy field derived
/// from it. `wf` ties the two together: same shape, and the field is
/// cell by cell the occupancy of the voxels.
pub struct Space {
    /// Grid of voxel data for the world.
    pub voxels: DenseGrid<Voxel>,
    /// Binary field used to determine step sizes for ray marching.
    pub sdf: DenseBinaryCartesianSDF,
}

impl Space {
    /// The occupancy field is a pure function of the current voxel
    /// grid: same shape, and 1 exactly on empty cells.
    pub open spec fn wf(&self) -> bool {
        &&& self.voxels.wf()
        &&& self.sdf.wf()
        &&& self.sdf.spec_shape() == self.voxels.spec_shape()
        &&& is_occupancy_of(self.sdf@, self.voxels@)
    }

    /// A procedurally generated world: every cell holds
    /// [`generated_voxel`], and the occupancy field is derived from
    /// the result.
    pub fn new(shape: Dimension3) -> (r: Space)
        requires
            shape.volume_fits(),
        ensures
            r.wf(),
            r.voxels.spec_shape() == shape,
            forall|cx: int, cy: int, cz: int|
                shape.in_bounds(cx, cy, cz) ==> r.voxels@[#[trigger] shape.flat_index(cx, cy, cz)]
                    == generated_voxel(cx, cy, cz),
    {
        let mut voxels = DenseGrid::fill(shape, Voxel::Empty);
        let n: usize = shape.x * shape.y * shape.z;
        let mut i: usize = 0;
        while i < n
            invariant
                i <= n,
                n == shape.volume(),
                voxels.wf(),
                voxels.spec_shape() == shape,
                forall|j: int|
                    0 <= j < i ==> voxels@[j] == generated_voxel(
                        #[trigger] shape.coord_at(j).0,
                        shape.coord_at(j).1,
                        shape.coord_at(j).2,
                    ),
            decreases n - i,
        {
            proof {
                assert(shape.x >= 1 && shape.y >= 1 && shape.z >= 1) by (nonlinear_arith)
                    requires
                        i < n,
                        n == shape.x * shape.y * shape.z,
                ;
                lemma_div_denominator(i as int, shape.x as int, shape.y as int);
            }
            let cx: usize = i % shape.x;
            let t: usize = i / shape.x;
            let cy: usize = t % shape.y;
            let cz: usize = t / shape.y;
            let val: Voxel = if cx >= 10 && cx % 3 == 0 && cy >= 1 && cy % 3 == 0 && cz >= 1 && cz
                % 5 == 0 {
                Voxel::Red
            } else {
                Voxel::Empty
            };
            voxels.write_at(i, val);
            i = i + 1;
        }
        let mut sdf = DenseBinaryCartesianSDF::zeros(shape);
        sdf.update(&voxels);
        proof {
            assert forall|cx: int, cy: int, cz: int| shape.in_bounds(cx, cy, cz) implies voxels@[
                #[trigger] shape.flat_index(cx, cy, cz)
            ] == generated_voxel(cx, cy, cz) by {
                shape.lemma_flat_index_coord_at(cx, cy, cz);
                let fi = shape.flat_index(cx, cy, cz);
                assert(shape.coord_at(fi).0 == cx);
                assert(voxels@[fi] == generated_voxel(
                    shape.coord_at(fi).0,
                    shape.coord_at(fi).1,
                    shape.coord_at(fi).2,
                ));
            }
        }
        Space { voxels, sdf }
    }
}

impl GPUFormat for DenseGrid<Voxel> {
    open spec fn gpu_wf(&self) -> bool {
        self.wf()
    }

    open spec fn gpu_shape(&self) -> Dimension3 {
        self.spec_shape()
    }

    /// One byte per cell: the canonical id of the voxel at the same
    /// linear index.
    open spec fn gpu_bytes(&self) -> Seq<u8> {
        self@.map_values(|v: Voxel| v.id_spec())
    }

    fn gpu_format(&self) -> (r: Vec<u8>) {
        let n = self.grid.len();
        let mut out: Vec<u8> = Vec::new();
        let mut i: usize = 0;
        while i < n
            invariant
                i <= n,
                n == self@.len(),
                out@.len() == i,
                forall|j: int| 0 <= j < i ==> out@[j] == self@[j].id_spec(),
            decreases n - i,
        {
            out.push(self.grid[i].id());
            i = i + 1;
        }
        proof {
            assert(out@ =~= self.gpu_bytes());
        }
        out
    }

    fn gpu_dim(&self) -> (r: Dimension3) {
        self.shape
    }
}

/// Reading back byte `i` of a converted voxel grid gives the
/// canonical id of the voxel at the grid cell whose linear index is
/// `i` — in particular for a grid that came out of the world loader,
/// so a load followed by a GPU conversion round-trips cell by cell.
pub proof fn lemma_gpu_roundtrip(g: DenseGrid<Voxel>, i: int)
    requires
        0 <= i < g@.len(),
    ensures
        g.gpu_bytes()[i] == g@[i].id_spec(),
{
}

} // verus!
