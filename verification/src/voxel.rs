//! Voxels: coloured cells with a texture, where texture zero is air.

use vstd::prelude::*;

verus! {

/// A cell with a colour and a texture. Texture zero marks air.
#[derive(Debug, Clone, Copy)]
pub struct Voxel {
    pub color: (u8, u8, u8),
    pub tex_id: u16,
}

impl Voxel {
    /// Whether this voxel is air.
    pub open spec fn is_air(self) -> bool {
        self.tex_id == 0
    }

    /// The voxel of the given colour and texture.
    pub fn new(color: (u8, u8, u8), tex_id: u16) -> (r: Self)
        ensures
            r.color == color,
            r.tex_id == tex_id,
    {
        Self { color, tex_id }
    }

    /// The air voxel: black, with texture zero.
    pub fn air() -> (r: Self)
        ensures
            r.color == (0u8, 0u8, 0u8),
            r.tex_id == 0,
            r.is_air(),
    {
        Self { color: (0, 0, 0), tex_id: 0 }
    }

    /// Whether light passes through this voxel, which only air allows.
    pub fn is_transpose(&self) -> (r: bool)
        ensures
            r == self.is_air(),
    {
        self.tex_id == 0
    }
}

} // verus!
