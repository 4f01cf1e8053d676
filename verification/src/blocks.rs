//! The closed set of block variants and their per-face appearance.

use vstd::prelude::*;

verus! {

/// One of the six faces of a unit voxel cube.
#[derive(Debug, Clone, Copy, PartialEq, Eq, Structural)]
pub enum BlockFace {
    Front,
    Back,
    Left,
    Right,
    Top,
    Bottom,
}

/// Behaviour every block variant exposes: per-face texture selection and
/// whether the block lets neighboring faces show through.
pub trait Block {
    spec fn spec_transparent(&self) -> bool;

    spec fn spec_texture_index(&self, face: BlockFace) -> u32;

    fn is_transparent(&self) -> (r: bool)
        ensures
            r == self.spec_transparent(),
    ;

    fn get_texture_index(&self, face: BlockFace) -> (r: u32)
        ensures
            r == self.spec_texture_index(face),
    ;
}

/// The empty block: transparent, emits no geometry.
#[derive(Default, Debug, Clone, Copy, PartialEq, Eq, Structural)]
pub struct AirBlock {}

impl Block for AirBlock {
    open spec fn spec_transparent(&self) -> bool {
        true
    }

    open spec fn spec_texture_index(&self, face: BlockFace) -> u32 {
        0
    }

    fn is_transparent(&self) -> bool {
        true
    }

    fn get_texture_index(&self, face: BlockFace) -> u32 {
        0
    }
}

/// A solid block with a grassy top, dirt bottom, and grass-and-dirt sides.
#[derive(Default, Debug, Clone, Copy, PartialEq, Eq, Structural)]
pub struct GrassBlock {}

impl Block for GrassBlock {
    open spec fn spec_transparent(&self) -> bool {
        false
    }

    open spec fn spec_texture_index(&self, face: BlockFace) -> u32 {
        match face {
            BlockFace::Top => 0,
            BlockFace::Bottom => 1,
            _ => 2,
        }
    }

    fn is_transparent(&self) -> bool {
        false
    }

    fn get_texture_index(&self, face: BlockFace) -> u32 {
        match face {
            BlockFace::Top => 0,
            BlockFace::Bottom => 1,
            _ => 2,
        }
    }
}

/// The closed set of voxel variants, dispatched by exhaustive matching.
#[derive(Debug, Clone, Copy, PartialEq, Eq, Structural)]
pub enum BlockType {
    Air(AirBlock),
    Grass(GrassBlock),
}

impl Block for BlockType {
    open spec fn spec_transparent(&self) -> bool {
        match self {
            BlockType::Air(b) => b.spec_transparent(),
            BlockType::Grass(b) => b.spec_transparent(),
        }
    }

    open spec fn spec_texture_index(&self, face: BlockFace) -> u32 {
        match self {
            BlockType::Air(b) => b.spec_texture_index(face),
            BlockType::Grass(b) => b.spec_texture_index(face),
        }
    }

    fn is_transparent(&self) -> (r: bool)
        ensures
            r == self.spec_transparent(),
    {
        match self {
            BlockType::Air(b) => b.is_transparent(),
            BlockType::Grass(b) => b.is_transparent(),
        }
    }

    fn get_texture_index(&self, face: BlockFace) -> (r: u32)
        ensures
            r == self.spec_texture_index(face),
    {
        match self {
            BlockType::Air(b) => b.get_texture_index(face),
            BlockType::Grass(b) => b.get_texture_index(face),
        }
    }
}

} // verus!
