//! CPU-side staging for the two 3D textures the shader samples: the
//! upload bytes of one grid plus the dirty flag that gates redundant
//! re-derivation.

use crate::types::{Dimension3, GPUFormat};
use vstd::prelude::*;

verus! {

/// The bytes an adapter holds after one `refresh` against the given
/// source bytes: re-derived when the flag was set, untouched
/// otherwise.
pub open spec fn refreshed_bytes(bytes: Seq<u8>, dirty: bool, source: Seq<u8>) -> Seq<u8> {
    if dirty {
        source
    } else {
        bytes
    }
}

/// Refreshing clears the flag, and a refresh on a clean adapter keeps
/// the bytes: so two refreshes against the same source are
/// byte-identical, the second one a no-op.
pub proof fn lemma_refresh_idempotent(bytes: Seq<u8>, dirty: bool, source: Seq<u8>)
    ensures
        refreshed_bytes(refreshed_bytes(bytes, dirty, source), false, source) == refreshed_bytes(
            bytes,
            dirty,
            source,
        ),
{
}

/// The upload image of one grid: dimensions equal to the grid shape,
/// one byte per cell in linear order, and the dirty flag owned here,
/// not by the grid. `refresh` is the only clean-making transition.
pub struct TextureDescriptor {
    shape: Dimension3,
    bytes: Vec<u8>,
    dirty: bool,
}

impl TextureDescriptor {
    /// The texture dimensions, fixed at creation.
    pub closed spec fn spec_shape(&self) -> Dimension3 {
        self.shape
    }

    /// The staged upload bytes.
    pub closed spec fn spec_bytes(&self) -> Seq<u8> {
        self.bytes@
    }

    /// Whether the source grid was dirtied since the last refresh.
    pub closed spec fn spec_dirty(&self) -> bool {
        self.dirty
    }

    /// The byte buffer length always equals the shape's volume.
    pub open spec fn wf(&self) -> bool {
        self.spec_bytes().len() == self.spec_shape().volume()
    }

    /// Create the descriptor for one grid, clean, holding the grid's
    /// current upload bytes.
    pub fn new<G: GPUFormat>(source: &G) -> (r: TextureDescriptor)
        requires
            source.gpu_wf(),
        ensures
            r.wf(),
            r.spec_shape() == source.gpu_shape(),
            r.spec_bytes() == source.gpu_bytes(),
            !r.spec_dirty(),
    {
        TextureDescriptor { shape: source.gpu_dim(), bytes: source.gpu_format(), dirty: false }
    }

    /// Whether a refresh would re-derive the bytes.
    pub fn dirty(&self) -> (r: bool)
        ensures
            r == self.spec_dirty(),
    {
        self.dirty
    }

    /// Record that the source grid was mutated: the next refresh must
    /// re-derive the bytes.
    pub fn mark_dirty(&mut self)
        ensures
            final(self).spec_shape() == old(self).spec_shape(),
            final(self).spec_bytes() == old(self).spec_bytes(),
            final(self).spec_dirty(),
    {
        self.dirty = true;
    }

    /// Re-derive the byte buffer from the source and clear the flag —
    /// only when dirty; otherwise a no-op.
    pub fn refresh<G: GPUFormat>(&mut self, source: &G)
        requires
            old(self).wf(),
            source.gpu_wf(),
            source.gpu_shape() == old(self).spec_shape(),
        ensures
            final(self).wf(),
            final(self).spec_shape() == old(self).spec_shape(),
            !final(self).spec_dirty(),
            final(self).spec_bytes() == refreshed_bytes(
                old(self).spec_bytes(),
                old(self).spec_dirty(),
                source.gpu_bytes(),
            ),
    {
        if self.dirty {
            self.bytes = source.gpu_format();
            self.dirty = false;
        }
    }

    /// The staged bytes, in the grid's own linear order.
    pub fn bytes(&self) -> (r: &Vec<u8>)
        ensures
            r@ == self.spec_bytes(),
    {
        &self.bytes
    }

    /// The texture dimensions.
    pub fn shape(&self) -> (r: Dimension3)
        ensures
            r == self.spec_shape(),
    {
        self.shape
    }
}

} // verus!
