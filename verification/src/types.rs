//! Shared geometry types, the GPU conversion interface, and the error
//! taxonomy of the voxel-world subsystem.

use vstd::arithmetic::div_mod::{
    lemma_div_denominator, lemma_fundamental_div_mod, lemma_fundamental_div_mod_converse,
};
use vstd::prelude::*;

verus! {

/// An RGB triple as read from a world file.
pub type Color = (u8, u8, u8);

/// The fixed extent of a grid: `x` columns, `y` rows, `z` slices.
#[derive(Clone, Copy, PartialEq, Eq, Structural, Debug)]
pub struct Dimension3 {
    pub x: usize,
    pub y: usize,
    pub z: usize,
}

/// A 2D extent (for example a viewport); kept alongside `Dimension3`
/// for callers that deal with screen-space sizes.
#[derive(Clone, Copy, PartialEq, Eq, Structural, Debug)]
pub struct Dimension2 {
    pub x: usize,
    pub y: usize,
}

impl Dimension3 {
    /// Number of cells of a grid with this shape.
    pub open spec fn volume(self) -> int {
        self.x * self.y * self.z
    }

    /// The products computed when allocating or addressing a grid of
    /// this shape stay within `usize`.
    pub open spec fn volume_fits(self) -> bool {
        self.x * self.y <= usize::MAX && self.x * self.y * self.z <= usize::MAX
    }

    /// Whether the cell coordinate `(cx, cy, cz)` lies inside the shape.
    pub open spec fn in_bounds(self, cx: int, cy: int, cz: int) -> bool {
        0 <= cx < self.x && 0 <= cy < self.y && 0 <= cz < self.z
    }

    /// Row-major linear index of cell `(cx, cy, cz)`: the layout shared
    /// by the flat grid buffer and the uploaded texture bytes.
    pub open spec fn flat_index(self, cx: int, cy: int, cz: int) -> int {
        cx + self.x * (cy + self.y * cz)
    }

    /// The cell coordinate whose `flat_index` is `i`.
    pub open spec fn coord_at(self, i: int) -> (int, int, int) {
        (i % (self.x as int), (i / (self.x as int)) % (self.y as int), i / (self.x * self.y))
    }

    /// Every in-bounds coordinate maps into `[0, volume)`, and mapping
    /// back with `coord_at` recovers the same coordinate. Together with
    /// [`Self::lemma_coord_at_flat_index`] this makes `flat_index` a
    /// bijection between in-bounds coordinates and `[0, volume)`: in
    /// particular it is injective and its image is exactly `[0, volume)`.
    pub proof fn lemma_flat_index_coord_at(self, cx: int, cy: int, cz: int)
        requires
            self.in_bounds(cx, cy, cz),
        ensures
            0 <= self.flat_index(cx, cy, cz) < self.volume(),
            self.coord_at(self.flat_index(cx, cy, cz)) == (cx, cy, cz),
    {
        let w = self.x as int;
        let h = self.y as int;
        let d = self.z as int;
        let i = self.flat_index(cx, cy, cz);
        assert(0 <= i && i <= w * h * d - 1) by (nonlinear_arith)
            requires
                i == cx + w * (cy + h * cz),
                0 <= cx < w,
                0 <= cy < h,
                0 <= cz < d,
        ;
        // i == (cy + h * cz) * w + cx with 0 <= cx < w
        assert((cy + h * cz) * w + cx == i) by (nonlinear_arith)
            requires
                i == cx + w * (cy + h * cz),
        ;
        lemma_fundamental_div_mod_converse(i, w, cy + h * cz, cx);
        // so i % w == cx and i / w == cy + h * cz, with 0 <= cy < h
        assert(cz * h + cy == i / w) by (nonlinear_arith)
            requires
                i / w == cy + h * cz,
        ;
        lemma_fundamental_div_mod_converse(i / w, h, cz, cy);
        // and i / (w * h) == (i / w) / h == cz
        lemma_div_denominator(i, w, h);
    }

    /// Every linear index in `[0, volume)` is the `flat_index` of the
    /// in-bounds coordinate `coord_at(i)`.
    pub proof fn lemma_coord_at_flat_index(self, i: int)
        requires
            0 <= i < self.volume(),
        ensures
            self.in_bounds(self.coord_at(i).0, self.coord_at(i).1, self.coord_at(i).2),
            self.flat_index(self.coord_at(i).0, self.coord_at(i).1, self.coord_at(i).2) == i,
    {
        let w = self.x as int;
        let h = self.y as int;
        let d = self.z as int;
        assert(w >= 1 && h >= 1 && d >= 1) by (nonlinear_arith)
            requires
                0 <= i < w * h * d,
                w >= 0,
                h >= 0,
                d >= 0,
        ;
        let cx = i % w;
        let cy = (i / w) % h;
        let cz = i / (w * h);
        lemma_fundamental_div_mod(i, w);
        assert(0 <= cx < w) by (nonlinear_arith)
            requires
                w >= 1,
                cx == i % w,
                i >= 0,
        ;
        lemma_fundamental_div_mod(i / w, h);
        assert(0 <= cy < h) by (nonlinear_arith)
            requires
                h >= 1,
                cy == (i / w) % h,
                i / w >= 0,
                i >= 0,
                w >= 1,
        ;
        lemma_div_denominator(i, w, h);
        assert(cz == (i / w) / h);
        // cz in range: i < w * h * d, so i / w < h * d, so (i / w) / h < d
        assert(0 <= cz < d) by (nonlinear_arith)
            requires
                cz == (i / w) / h,
                i == w * (i / w) + i % w,
                i / w == h * ((i / w) / h) + (i / w) % h,
                0 <= i % w < w,
                0 <= (i / w) % h < h,
                0 <= i < w * h * d,
                w >= 1,
                h >= 1,
        ;
        // reconstruction: cx + w * (cy + h * cz) == i
        assert(cx + w * (cy + h * cz) == i) by (nonlinear_arith)
            requires
                i == w * (i / w) + cx,
                i / w == h * cz + cy,
                cz == (i / w) / h,
                cy == (i / w) % h,
                cx == i % w,
        ;
    }

    /// `flat_index` is injective on in-bounds coordinates.
    pub proof fn lemma_flat_index_injective(
        self,
        x1: int,
        y1: int,
        z1: int,
        x2: int,
        y2: int,
        z2: int,
    )
        requires
            self.in_bounds(x1, y1, z1),
            self.in_bounds(x2, y2, z2),
            self.flat_index(x1, y1, z1) == self.flat_index(x2, y2, z2),
        ensures
            x1 == x2 && y1 == y2 && z1 == z2,
    {
        self.lemma_flat_index_coord_at(x1, y1, z1);
        self.lemma_flat_index_coord_at(x2, y2, z2);
    }
}

/// Conversion of a grid into the exact byte layout uploaded as a 3D
/// single-channel texture: one byte per cell, in `flat_index` order.
pub trait GPUFormat {
    /// Well-formedness the conversion relies on.
    spec fn gpu_wf(&self) -> bool;

    /// The shape of the texture the bytes describe.
    spec fn gpu_shape(&self) -> Dimension3;

    /// The byte at linear index `i` describes the cell whose
    /// `flat_index` is `i`.
    spec fn gpu_bytes(&self) -> Seq<u8>;

    /// Produce the upload buffer.
    fn gpu_format(&self) -> (r: Vec<u8>)
        requires
            self.gpu_wf(),
        ensures
            r@ == self.gpu_bytes(),
            r@.len() == self.gpu_shape().volume(),
    ;

    /// The texture dimensions, for building the upload descriptor.
    fn gpu_dim(&self) -> (r: Dimension3)
        ensures
            r == self.gpu_shape(),
    ;
}

/// A grid access used a coordinate outside the grid's shape.
#[derive(Clone, Copy, PartialEq, Eq, Structural, Debug)]
pub struct OutOfBounds;

/// Why a world-file line was rejected.
#[derive(Clone, Copy, PartialEq, Eq, Structural, Debug)]
pub enum ParseReason {
    /// The line does not consist of exactly four tokens.
    WrongTokenCount,
    /// A coordinate token holds something other than decimal digits.
    NonNumericCoordinate,
    /// A coordinate token names a cell outside the grid shape.
    CoordinateOutOfRange,
    /// The color token is not exactly six hexadecimal digits.
    NonHexColor,
}

/// A rejected world-file line: its 1-based line number and the reason.
#[derive(Clone, Copy, PartialEq, Eq, Structural, Debug)]
pub struct ParseError {
    pub line: usize,
    pub reason: ParseReason,
}

} // verus!
