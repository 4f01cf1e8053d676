//! Deterministic terrain filling: a pure function from per-column surface
//! heights to voxel contents.
//!
//! The coherent-noise sampling that proposes a raw surface level runs
//! outside this core on the driver side; everything from the clamp onward
//! is verified here. For a fixed height map the voxel contents are a
//! mathematical function, so identical seeds and positions always fill
//! identical chunks.

use vstd::prelude::*;

use crate::blocks::{AirBlock, BlockType, GrassBlock};
use crate::chunk::{in_chunk_bounds, voxel_index, Chunk, CHUNK_HEIGHT, CHUNK_SIZE};

verus! {

/// A surface level proposed by noise, clamped to the valid voxel range.
pub open spec fn spec_clamp_height(raw: int) -> int {
    if raw < 0 {
        0
    } else if raw > 255 {
        255
    } else {
        raw
    }
}

/// Clamps a raw noise-derived surface level into [0, CHUNK_HEIGHT - 1].
/// Whatever the input, the result is a valid in-chunk height.
pub fn clamp_height(raw: i64) -> (h: u8)
    ensures
        h as int == spec_clamp_height(raw as int),
        h < 256,
{
    if raw < 0 {
        0
    } else if raw > 255 {
        255
    } else {
        raw as u8
    }
}

/// The generated height is always within [0, CHUNK_HEIGHT - 1], whatever
/// raw level the noise proposed.
pub proof fn lemma_height_in_bounds(raw: int)
    ensures
        0 <= spec_clamp_height(raw) < 256,
{
}

/// The block terrain filling puts at local coordinate (x, y, z) for a
/// height map: Grass at and below the column's surface height, Air above.
pub open spec fn generated_block(heights: Seq<u8>, x: int, y: int, z: int) -> BlockType {
    if y <= heights[x * 16 + z] {
        BlockType::Grass(GrassBlock {})
    } else {
        BlockType::Air(AirBlock {})
    }
}

/// The full voxel vector terrain filling produces for a height map.
pub open spec fn generated_blocks(heights: Seq<u8>) -> Seq<BlockType> {
    Seq::new(65536nat, |i: int| generated_block(heights, i / 4096, (i / 16) % 256, i % 16))
}

/// The deterministic, seeded terrain generator. The seed is carried here;
/// sampling coherent noise with it happens on the driver side, which hands
/// the resulting per-column surface heights to `generate_chunk`.
pub struct WorldGenerator {
    pub seed: u32,
}

impl WorldGenerator {
    pub fn new(seed: u32) -> (g: WorldGenerator)
        ensures
            g.seed == seed,
    {
        WorldGenerator { seed }
    }

    pub fn get_seed(&self) -> (s: u32)
        ensures
            s == self.seed,
    {
        self.seed
    }

    /// Fills `chunk` from a height map of one surface level per column,
    /// indexed x * CHUNK_SIZE + z: Grass up to and including the surface,
    /// Air above it. The result is exactly `generated_blocks(heights)`,
    /// whatever the chunk held before, and the chunk is flagged for
    /// meshing.
    pub fn generate_chunk(&self, chunk: &mut Chunk, heights: &Vec<u8>)
        requires
            old(chunk).wf(),
            heights@.len() == 256,
        ensures
            final(chunk).wf(),
            final(chunk).position == old(chunk).position,
            final(chunk).mesh == old(chunk).mesh,
            final(chunk).need_rebuilt,
            final(chunk).blocks@ == generated_blocks(heights@),
    {
        let mut x: usize = 0;
        while x < CHUNK_SIZE
            invariant
                x <= 16,
                chunk.wf(),
                chunk.position == old(chunk).position,
                chunk.mesh == old(chunk).mesh,
                chunk.need_rebuilt == old(chunk).need_rebuilt,
                heights@.len() == 256,
                forall|xi: int, yi: int, zi: int|
                    in_chunk_bounds(xi, yi, zi) && xi < x ==> chunk.blocks@[voxel_index(
                        xi,
                        yi,
                        zi,
                    )] == generated_block(heights@, xi, yi, zi),
            decreases 16 - x,
        {
            let mut z: usize = 0;
            while z < CHUNK_SIZE
                invariant
                    x < 16,
                    z <= 16,
                    chunk.wf(),
                    chunk.position == old(chunk).position,
                    chunk.mesh == old(chunk).mesh,
                    chunk.need_rebuilt == old(chunk).need_rebuilt,
                    heights@.len() == 256,
                    forall|xi: int, yi: int, zi: int|
                        in_chunk_bounds(xi, yi, zi) && (xi < x || (xi == x && zi < z))
                            ==> chunk.blocks@[voxel_index(xi, yi, zi)] == generated_block(
                            heights@,
                            xi,
                            yi,
                            zi,
                        ),
                decreases 16 - z,
            {
                let column_height = heights[x * 16 + z];
                let mut y: usize = 0;
                while y < CHUNK_HEIGHT
                    invariant
                        x < 16,
                        z < 16,
                        y <= 256,
                        chunk.wf(),
                        chunk.position == old(chunk).position,
                        chunk.mesh == old(chunk).mesh,
                        chunk.need_rebuilt == old(chunk).need_rebuilt,
                        heights@.len() == 256,
                        column_height == heights@[x * 16 + z],
                        forall|xi: int, yi: int, zi: int|
                            in_chunk_bounds(xi, yi, zi) && (xi < x || (xi == x && zi < z) || (xi
                                == x && zi == z && yi < y)) ==> chunk.blocks@[voxel_index(
                                xi,
                                yi,
                                zi,
                            )] == generated_block(heights@, xi, yi, zi),
                    decreases 256 - y,
                {
                    let idx = (x * 256 + y) * 16 + z;
                    proof {
                        crate::chunk::lemma_voxel_index_invert(x as int, y as int, z as int);
                        assert(idx == voxel_index(x as int, y as int, z as int));
                    }
                    let block = if y <= column_height as usize {
                        BlockType::Grass(GrassBlock {})
                    } else {
                        BlockType::Air(AirBlock {})
                    };
                    chunk.blocks.set(idx, block);
                    proof {
                        assert forall|xi: int, yi: int, zi: int|
                            in_chunk_bounds(xi, yi, zi) && (xi < x || (xi == x && zi < z) || (xi
                                == x && zi == z && yi < y + 1))
                            implies chunk.blocks@[voxel_index(xi, yi, zi)] == generated_block(
                            heights@,
                            xi,
                            yi,
                            zi,
                        ) by {
                            crate::chunk::lemma_voxel_index_invert(xi, yi, zi);
                            crate::chunk::lemma_voxel_index_invert(x as int, y as int, z as int);
                        }
                    }
                    y = y + 1;
                }
                z = z + 1;
            }
            x = x + 1;
        }
        chunk.need_rebuilt = true;
        proof {
            assert forall|i: int| 0 <= i < 65536 implies chunk.blocks@[i] == generated_blocks(
                heights@,
            )[i] by {
                let xi = i / 4096;
                let yi = (i / 16) % 256;
                let zi = i % 16;
                assert(in_chunk_bounds(xi, yi, zi) && voxel_index(xi, yi, zi) == i)
                    by (nonlinear_arith)
                    requires
                        0 <= i < 65536,
                        xi == i / 4096,
                        yi == (i / 16) % 256,
                        zi == i % 16,
                ;
            }
            assert(chunk.blocks@ =~= generated_blocks(heights@));
        }
    }
}

/// Terrain generation is deterministic: two chunks filled from the same
/// height map hold identical voxel arrays, regardless of call order or
/// concurrency.
pub proof fn lemma_generation_deterministic(
    a: crate::chunk::ChunkModel,
    b: crate::chunk::ChunkModel,
    heights: Seq<u8>,
)
    requires
        a.blocks == generated_blocks(heights),
        b.blocks == generated_blocks(heights),
    ensures
        a.blocks == b.blocks,
{
}

} // verus!
