//! The binary occupancy field that sizes ray-march steps: a grid the
//! same shape as the voxel world holding 1 where a cell is empty
//! (a ray may step far) and 0 where it holds material.

use crate::types::{Dimension3, GPUFormat, OutOfBounds};
use crate::world::{DenseGrid, Voxel};
use vstd::prelude::*;

verus! {

/// The occupancy byte of one voxel: 1 for an empty cell, 0 otherwise.
pub open spec fn occupancy_byte(v: Voxel) -> u8 {
    if v is Empty {
        1
    } else {
        0
    }
}

/// `field` is the occupancy field derived from the voxel contents
/// `world`: same length, and cell by cell `1` iff the voxel is
/// `Empty`.
pub open spec fn is_occupancy_of(field: Seq<u8>, world: Seq<Voxel>) -> bool {
    field.len() == world.len() && forall|i: int|
        0 <= i < world.len() ==> field[i] == occupancy_byte(#[trigger] world[i])
}

/// A same-shaped binary grid derived from the voxel world; the "far"
/// surrogate read by the shader.
pub struct DenseBinaryCartesianSDF(DenseGrid<u8>);

impl View for DenseBinaryCartesianSDF {
    type V = Seq<u8>;

    closed spec fn view(&self) -> Seq<u8> {
        self.0@
    }
}

impl DenseBinaryCartesianSDF {
    /// The shape fixed at construction.
    pub closed spec fn spec_shape(&self) -> Dimension3 {
        self.0.spec_shape()
    }

    /// The backing buffer length equals the shape's volume.
    pub open spec fn wf(&self) -> bool {
        self@.len() == self.spec_shape().volume()
    }

    /// An all-zero field of the given shape.
    pub fn zeros(shape: Dimension3) -> (r: DenseBinaryCartesianSDF)
        requires
            shape.volume_fits(),
        ensures
            r.wf(),
            r.spec_shape() == shape,
            forall|i: int| 0 <= i < r@.len() ==> r@[i] == 0u8,
    {
        DenseBinaryCartesianSDF(DenseGrid::fill(shape, 0))
    }

    /// Recompute every cell in place from the voxel grid: a full pass
    /// writing 1 where the voxel is `Empty`, 0 otherwise. After the
    /// call the field is exactly the occupancy derived from `level`.
    pub fn update(&mut self, level: &DenseGrid<Voxel>)
        requires
            old(self).wf(),
            level.wf(),
            level.spec_shape() == old(self).spec_shape(),
        ensures
            final(self).wf(),
            final(self).spec_shape() == old(self).spec_shape(),
            is_occupancy_of(final(self)@, level@),
    {
        let voxels = level.grid();
        let n = voxels.len();
        let mut i: usize = 0;
        while i < n
            invariant
                i <= n,
                voxels@ == level@,
                n == level@.len(),
                n == self@.len(),
                self.spec_shape() == old(self).spec_shape(),
                self.0.wf(),
                forall|j: int| 0 <= j < i ==> self@[j] == occupancy_byte(#[trigger] level@[j]),
            decreases n - i,
        {
            let b: u8 = if voxels[i].is_empty() {
                1
            } else {
                0
            };
            self.0.write_at(i, b);
            i = i + 1;
        }
    }

    /// Checked read of one occupancy cell.
    pub fn get(&self, x: usize, y: usize, z: usize) -> (r: Result<u8, OutOfBounds>)
        requires
            self.wf(),
        ensures
            match r {
                Ok(v) => self.spec_shape().in_bounds(x as int, y as int, z as int)
                    && v == self@[self.spec_shape().flat_index(x as int, y as int, z as int)],
                Err(_) => !self.spec_shape().in_bounds(x as int, y as int, z as int),
            },
    {
        self.0.get(x, y, z)
    }
}

impl GPUFormat for DenseBinaryCartesianSDF {
    open spec fn gpu_wf(&self) -> bool {
        self.wf()
    }

    open spec fn gpu_shape(&self) -> Dimension3 {
        self.spec_shape()
    }

    /// The occupancy bytes are uploaded as they are stored.
    open spec fn gpu_bytes(&self) -> Seq<u8> {
        self@
    }

    fn gpu_format(&self) -> (r: Vec<u8>) {
        let bytes = self.0.grid();
        let n = bytes.len();
        let mut out: Vec<u8> = Vec::new();
        let mut i: usize = 0;
        while i < n
            invariant
                i <= n,
                bytes@ == self@,
                n == self@.len(),
                out@.len() == i,
                forall|j: int| 0 <= j < i ==> out@[j] == self@[j],
            decreases n - i,
        {
            out.push(bytes[i]);
            i = i + 1;
        }
        proof {
            assert(out@ =~= self@);
        }
        out
    }

    fn gpu_dim(&self) -> (r: Dimension3) {
        self.0.shape()
    }
}

/// Right after an occupancy derivation, the field reads 1 at an
/// in-bounds cell exactly when the voxel at that cell is `Empty`.
pub proof fn lemma_occupancy_at(
    field: Seq<u8>,
    world: Seq<Voxel>,
    shape: Dimension3,
    cx: int,
    cy: int,
    cz: int,
)
    requires
        is_occupancy_of(field, world),
        world.len() == shape.volume(),
        shape.in_bounds(cx, cy, cz),
    ensures
        field[shape.flat_index(cx, cy, cz)] == 1u8 <==> world[shape.flat_index(cx, cy, cz)]
            is Empty,
{
    shape.lemma_flat_index_coord_at(cx, cy, cz);
}

} // verus!
