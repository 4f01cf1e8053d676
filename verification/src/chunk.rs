//! Chunks: fixed-size 3D voxel grids keyed by an integer chunk position.

use vstd::prelude::*;

use crate::blocks::{AirBlock, BlockType};
use crate::mesh::MeshData;

verus! {

/// Chunk width and depth, in voxels.
pub const CHUNK_SIZE: usize = 16;

/// Chunk height, in voxels.
pub const CHUNK_HEIGHT: usize = 256;

/// Total number of voxels in one chunk.
pub const CHUNK_VOLUME: usize = 65536;

/// The (x, z) coordinate of a chunk in the grid of chunks.
#[derive(Debug, Clone, Copy, PartialEq, Eq, Hash, Structural)]
pub struct ChunkPosition {
    pub x: i32,
    pub z: i32,
}

impl ChunkPosition {
    pub fn new(x: i32, z: i32) -> (p: ChunkPosition)
        ensures
            p.x == x,
            p.z == z,
    {
        ChunkPosition { x, z }
    }
}

/// The value of a 32-bit two's-complement integer reinterpreted as unsigned.
pub open spec fn unsigned_32(x: int) -> int {
    if x < 0 {
        x + 0x1_0000_0000
    } else {
        x
    }
}

/// The unique 64-bit key of the chunk at grid coordinate (x, z): the two
/// coordinates packed as unsigned halves, x in the upper 32 bits.
pub open spec fn key_of_coords(x: int, z: int) -> u64 {
    (unsigned_32(x) * 0x1_0000_0000 + unsigned_32(z)) as u64
}

/// The unique 64-bit key of a chunk position.
pub open spec fn spec_pos_key(p: ChunkPosition) -> u64 {
    key_of_coords(p.x as int, p.z as int)
}

/// Whether a chunk position is far enough from the 32-bit extremes that
/// every cardinal neighbor coordinate still fits in an `i32`.
pub open spec fn pos_in_range(p: ChunkPosition) -> bool {
    &&& -0x7fff_ffff <= p.x <= 0x7fff_fffe
    &&& -0x7fff_ffff <= p.z <= 0x7fff_fffe
}

/// Packs a chunk position into its unique 64-bit map key.
pub fn pos_key(p: ChunkPosition) -> (k: u64)
    ensures
        k == spec_pos_key(p),
{
    let xu: u64 = if p.x < 0 {
        (p.x as i64 + 0x1_0000_0000) as u64
    } else {
        p.x as u64
    };
    let zu: u64 = if p.z < 0 {
        (p.z as i64 + 0x1_0000_0000) as u64
    } else {
        p.z as u64
    };
    xu * 0x1_0000_0000 + zu
}

/// Distinct chunk positions always pack to distinct keys.
pub proof fn lemma_pos_key_injective(a: ChunkPosition, b: ChunkPosition)
    requires
        spec_pos_key(a) == spec_pos_key(b),
    ensures
        a == b,
{
    assert(0 <= unsigned_32(a.x as int) < 0x1_0000_0000);
    assert(0 <= unsigned_32(a.z as int) < 0x1_0000_0000);
    assert(0 <= unsigned_32(b.x as int) < 0x1_0000_0000);
    assert(0 <= unsigned_32(b.z as int) < 0x1_0000_0000);
    assert(unsigned_32(a.x as int) * 0x1_0000_0000 + unsigned_32(a.z as int) < 0x1_0000_0000_0000_0000) by (nonlinear_arith)
        requires
            0 <= unsigned_32(a.x as int) < 0x1_0000_0000,
            0 <= unsigned_32(a.z as int) < 0x1_0000_0000,
    ;
    assert(unsigned_32(b.x as int) * 0x1_0000_0000 + unsigned_32(b.z as int) < 0x1_0000_0000_0000_0000) by (nonlinear_arith)
        requires
            0 <= unsigned_32(b.x as int) < 0x1_0000_0000,
            0 <= unsigned_32(b.z as int) < 0x1_0000_0000,
    ;
    assert(unsigned_32(a.x as int) == unsigned_32(b.x as int) && unsigned_32(a.z as int)
        == unsigned_32(b.z as int)) by (nonlinear_arith)
        requires
            0 <= unsigned_32(a.x as int) < 0x1_0000_0000,
            0 <= unsigned_32(a.z as int) < 0x1_0000_0000,
            0 <= unsigned_32(b.x as int) < 0x1_0000_0000,
            0 <= unsigned_32(b.z as int) < 0x1_0000_0000,
            unsigned_32(a.x as int) * 0x1_0000_0000 + unsigned_32(a.z as int) == unsigned_32(
                b.x as int,
            ) * 0x1_0000_0000 + unsigned_32(b.z as int),
    ;
}

/// The index into a chunk's flat voxel vector of local coordinate
/// (x, y, z), with x the slowest-varying axis and z the fastest.
pub open spec fn voxel_index(x: int, y: int, z: int) -> int {
    (x * 256 + y) * 16 + z
}

/// Whether (x, y, z) is a valid in-chunk local coordinate.
pub open spec fn in_chunk_bounds(x: int, y: int, z: int) -> bool {
    &&& 0 <= x < 16
    &&& 0 <= y < 256
    &&& 0 <= z < 16
}

/// Decomposing a flat voxel index recovers its coordinates; in particular
/// the flat index is injective on in-bounds coordinates.
pub proof fn lemma_voxel_index_invert(x: int, y: int, z: int)
    requires
        in_chunk_bounds(x, y, z),
    ensures
        0 <= voxel_index(x, y, z) < 65536,
        voxel_index(x, y, z) / 4096 == x,
        (voxel_index(x, y, z) / 16) % 256 == y,
        voxel_index(x, y, z) % 16 == z,
{
    let i = voxel_index(x, y, z);
    assert(i == x * 4096 + y * 16 + z);
    assert(0 <= i < 65536 && i / 4096 == x && (i / 16) % 256 == y && i % 16 == z)
        by (nonlinear_arith)
        requires
            i == x * 4096 + y * 16 + z,
            0 <= x < 16,
            0 <= y < 256,
            0 <= z < 16,
    ;
}

/// A fixed-size column of voxels, its optionally built mesh, and a flag
/// recording that the mesh no longer reflects the voxels or the neighbors.
pub struct Chunk {
    pub position: ChunkPosition,
    pub blocks: Vec<BlockType>,
    pub mesh: Option<MeshData>,
    pub need_rebuilt: bool,
}

/// The mathematical content of a chunk.
pub struct ChunkModel {
    pub position: ChunkPosition,
    pub blocks: Seq<BlockType>,
    pub mesh: Option<crate::mesh::MeshModel>,
    pub need_rebuilt: bool,
}

impl View for Chunk {
    type V = ChunkModel;

    open spec fn view(&self) -> ChunkModel {
        ChunkModel {
            position: self.position,
            blocks: self.blocks@,
            mesh: match self.mesh {
                Some(m) => Some(m@),
                None => None,
            },
            need_rebuilt: self.need_rebuilt,
        }
    }
}

impl Chunk {
    /// The voxel vector always holds exactly one entry per cell.
    pub open spec fn wf(self) -> bool {
        self.blocks@.len() == 65536
    }

    /// The block stored at local coordinate (x, y, z).
    pub open spec fn block_at(self, x: int, y: int, z: int) -> BlockType {
        self.blocks@[voxel_index(x, y, z)]
    }

    /// A fresh, all-Air chunk with no mesh, flagged for building.
    pub fn new(position: ChunkPosition) -> (c: Chunk)
        ensures
            c.wf(),
            c.position == position,
            forall|x: int, y: int, z: int|
                in_chunk_bounds(x, y, z) ==> c.block_at(x, y, z) == BlockType::Air(AirBlock {}),
            c.mesh is None,
            c.need_rebuilt,
    {
        let mut blocks: Vec<BlockType> = Vec::new();
        let mut i: usize = 0;
        while i < CHUNK_VOLUME
            invariant
                i <= 65536,
                blocks@.len() == i,
                forall|j: int| 0 <= j < i ==> blocks@[j] == BlockType::Air(AirBlock {}),
            decreases 65536 - i,
        {
            blocks.push(BlockType::Air(AirBlock {}));
            i = i + 1;
        }
        let c = Chunk { position, blocks, mesh: None, need_rebuilt: true };
        proof {
            assert forall|x: int, y: int, z: int| in_chunk_bounds(x, y, z)
                implies c.block_at(x, y, z) == BlockType::Air(AirBlock {}) by {
                assert(0 <= voxel_index(x, y, z) < 65536) by (nonlinear_arith)
                    requires in_chunk_bounds(x, y, z);
            }
        }
        c
    }

    /// Reads the block at (x, y, z); out-of-bounds coordinates yield `None`.
    pub fn get_block(&self, x: usize, y: usize, z: usize) -> (r: Option<&BlockType>)
        requires
            self.wf(),
        ensures
            in_chunk_bounds(x as int, y as int, z as int) ==> r == Some(
                &self.block_at(x as int, y as int, z as int),
            ),
            !in_chunk_bounds(x as int, y as int, z as int) ==> r is None,
    {
        if x < CHUNK_SIZE && y < CHUNK_HEIGHT && z < CHUNK_SIZE {
            let idx = (x * 256 + y) * 16 + z;
            proof {
                assert(idx == voxel_index(x as int, y as int, z as int));
                assert(0 <= voxel_index(x as int, y as int, z as int) < 65536) by (nonlinear_arith)
                    requires in_chunk_bounds(x as int, y as int, z as int);
            }
            Some(&self.blocks[idx])
        } else {
            None
        }
    }

    /// Overwrites the block at (x, y, z) and flags the mesh as stale;
    /// out-of-bounds coordinates leave the chunk unchanged.
    pub fn set_block(&mut self, x: usize, y: usize, z: usize, block: BlockType)
        requires
            old(self).wf(),
        ensures
            final(self).wf(),
            final(self).position == old(self).position,
            final(self).mesh == old(self).mesh,
            in_chunk_bounds(x as int, y as int, z as int) ==> {
                &&& final(self).blocks@ == old(self).blocks@.update(
                    voxel_index(x as int, y as int, z as int),
                    block,
                )
                &&& final(self).need_rebuilt
            },
            !in_chunk_bounds(x as int, y as int, z as int) ==> *final(self) == *old(self),
    {
        if x < CHUNK_SIZE && y < CHUNK_HEIGHT && z < CHUNK_SIZE {
            let idx = (x * 256 + y) * 16 + z;
            proof {
                assert(idx == voxel_index(x as int, y as int, z as int));
                assert(0 <= voxel_index(x as int, y as int, z as int) < 65536) by (nonlinear_arith)
                    requires in_chunk_bounds(x as int, y as int, z as int);
            }
            self.blocks.set(idx, block);
            self.need_rebuilt = true;
        }
    }
}

} // verus!
