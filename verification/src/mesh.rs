//! Surface geometry derived from a chunk's voxels: per-voxel face culling
//! with cross-chunk neighbor queries, producing vertex and index lists as
//! plain values.
//!
//! The whole construction is pinned by spec functions: for a fixed voxel
//! content, chunk position and neighbor content, the emitted geometry is a
//! mathematical function, so identical inputs always produce identical
//! meshes.

use vstd::prelude::*;

use crate::blocks::{Block, BlockFace, BlockType};
use crate::chunk::{
    in_chunk_bounds, key_of_coords, pos_in_range, spec_pos_key, voxel_index, Chunk, ChunkPosition,
    CHUNK_HEIGHT, CHUNK_SIZE,
};
use crate::world::{blocks_of, World};

verus! {

/// One mesh vertex: a world-space corner position, a texture coordinate,
/// an outward face normal, and the texture layer the face samples.
/// All components are exact integers; a renderer widens them as it needs.
#[derive(Debug, Clone, Copy, PartialEq, Eq, Structural)]
pub struct Vertex {
    pub px: i64,
    pub py: i64,
    pub pz: i64,
    pub u: u32,
    pub v: u32,
    pub nx: i32,
    pub ny: i32,
    pub nz: i32,
    pub tex_index: u32,
}

/// A built mesh: an ordered vertex list and an index list forming
/// two triangles with consistent winding per visible face.
#[derive(Debug, Clone, PartialEq, Eq)]
pub struct MeshData {
    pub vertices: Vec<Vertex>,
    pub indices: Vec<u32>,
}

/// The mathematical content of a mesh.
pub struct MeshModel {
    pub vertices: Seq<Vertex>,
    pub indices: Seq<u32>,
}

impl View for MeshData {
    type V = MeshModel;

    open spec fn view(&self) -> MeshModel {
        MeshModel { vertices: self.vertices@, indices: self.indices@ }
    }
}

/// The unit offset from a voxel to the neighbor a face looks at; it is
/// also the face's outward normal.
pub open spec fn face_delta(f: BlockFace) -> (int, int, int) {
    match f {
        BlockFace::Front => (0, 0, 1),
        BlockFace::Back => (0, 0, -1),
        BlockFace::Left => (-1, 0, 0),
        BlockFace::Right => (1, 0, 0),
        BlockFace::Top => (0, 1, 0),
        BlockFace::Bottom => (0, -1, 0),
    }
}

/// The face meshed at step offset `i` within a voxel, in emission order.
pub open spec fn face_of_index(i: int) -> BlockFace {
    if i == 0 {
        BlockFace::Front
    } else if i == 1 {
        BlockFace::Back
    } else if i == 2 {
        BlockFace::Left
    } else if i == 3 {
        BlockFace::Right
    } else if i == 4 {
        BlockFace::Top
    } else {
        BlockFace::Bottom
    }
}

/// The corner of a face, as an offset from the voxel's minimum corner.
/// Corners are listed counter-clockwise seen from outside the cube.
pub open spec fn corner_offset(f: BlockFace, i: int) -> (int, int, int) {
    let corners = match f {
        BlockFace::Front => ((0, 0, 1), (1, 0, 1), (1, 1, 1), (0, 1, 1)),
        BlockFace::Back => ((1, 0, 0), (0, 0, 0), (0, 1, 0), (1, 1, 0)),
        BlockFace::Left => ((0, 0, 0), (0, 0, 1), (0, 1, 1), (0, 1, 0)),
        BlockFace::Right => ((1, 0, 1), (1, 0, 0), (1, 1, 0), (1, 1, 1)),
        BlockFace::Top => ((0, 1, 1), (1, 1, 1), (1, 1, 0), (0, 1, 0)),
        BlockFace::Bottom => ((0, 0, 0), (1, 0, 0), (1, 0, 1), (0, 0, 1)),
    };
    if i == 0 {
        corners.0
    } else if i == 1 {
        corners.1
    } else if i == 2 {
        corners.2
    } else {
        corners.3
    }
}

/// The texture coordinate shared by every face: corners map to
/// (0,1), (1,1), (1,0), (0,0) in corner order.
pub open spec fn tex_coord(i: int) -> (u32, u32) {
    if i == 0 {
        (0u32, 1u32)
    } else if i == 1 {
        (1u32, 1u32)
    } else if i == 2 {
        (1u32, 0u32)
    } else {
        (0u32, 0u32)
    }
}

/// The `i`-th vertex emitted for face `f` of the block `b` sitting at
/// local coordinate (x, y, z) of the chunk at grid position `pos`.
pub open spec fn face_vertex(
    pos: ChunkPosition,
    x: int,
    y: int,
    z: int,
    f: BlockFace,
    b: BlockType,
    i: int,
) -> Vertex {
    let off = corner_offset(f, i);
    let n = face_delta(f);
    let t = tex_coord(i);
    Vertex {
        px: (pos.x * 16 + x + off.0) as i64,
        py: (y + off.1) as i64,
        pz: (pos.z * 16 + z + off.2) as i64,
        u: t.0,
        v: t.1,
        nx: n.0 as i32,
        ny: n.1 as i32,
        nz: n.2 as i32,
        tex_index: b.spec_texture_index(f),
    }
}

/// Whether face `f` of the voxel at local coordinate (x, y, z) is culled.
/// Within the chunk a face hides behind a non-transparent neighbor; below
/// the world floor it is hidden, above the top it always shows; across an
/// x or z boundary the adjacent chunk decides, and an absent neighbor
/// chunk leaves the face visible.
pub open spec fn face_hidden(
    blocks: Seq<BlockType>,
    pos: ChunkPosition,
    nbrs: Map<u64, Seq<BlockType>>,
    x: int,
    y: int,
    z: int,
    f: BlockFace,
) -> bool {
    let d = face_delta(f);
    let nx = x + d.0;
    let ny = y + d.1;
    let nz = z + d.2;
    if in_chunk_bounds(nx, ny, nz) {
        !blocks[voxel_index(nx, ny, nz)].spec_transparent()
    } else {
        boundary_hidden(pos, nbrs, nx, ny, nz)
    }
}

/// Whether an out-of-chunk neighbor cell hides a face: below the world
/// floor it does, above the top it never does, and across an x or z
/// boundary the adjacent chunk's voxel decides, with an absent chunk
/// leaving the face visible.
pub open spec fn boundary_hidden(
    pos: ChunkPosition,
    nbrs: Map<u64, Seq<BlockType>>,
    nx: int,
    ny: int,
    nz: int,
) -> bool {
    if ny < 0 {
        true
    } else if ny >= 256 {
        false
    } else {
        let cx = pos.x + (if nx < 0 { -1int } else if nx >= 16 { 1int } else { 0int });
        let cz = pos.z + (if nz < 0 { -1int } else if nz >= 16 { 1int } else { 0int });
        let lx = if nx < 0 { 15int } else if nx >= 16 { 0int } else { nx };
        let lz = if nz < 0 { 15int } else if nz >= 16 { 0int } else { nz };
        let key = key_of_coords(cx, cz);
        if nbrs.contains_key(key) {
            !nbrs[key][voxel_index(lx, ny, lz)].spec_transparent()
        } else {
            false
        }
    }
}

/// Whether meshing emits face `f` of the voxel at (x, y, z): the voxel is
/// not Air and the face is not culled.
pub open spec fn face_emitted(
    blocks: Seq<BlockType>,
    pos: ChunkPosition,
    nbrs: Map<u64, Seq<BlockType>>,
    x: int,
    y: int,
    z: int,
    f: BlockFace,
) -> bool {
    &&& !(blocks[voxel_index(x, y, z)] is Air)
    &&& !face_hidden(blocks, pos, nbrs, x, y, z, f)
}

/// Total number of face-emission steps in one chunk: one per voxel face.
pub open spec fn total_steps() -> int {
    393216
}

/// The (x, y, z, face index) visited at meshing step `k`: faces vary
/// fastest, then z, then y, then x.
pub open spec fn step_coords(k: int) -> (int, int, int, int) {
    (k / 24576, (k / 96) % 256, (k / 6) % 16, k % 6)
}

/// The step index at which face `fi` of voxel (x, y, z) is considered.
pub open spec fn step_of(x: int, y: int, z: int, fi: int) -> int {
    ((x * 256 + y) * 16 + z) * 6 + fi
}

/// `step_coords` inverts `step_of` on every in-range input.
pub proof fn lemma_step_coords(x: int, y: int, z: int, fi: int)
    requires
        in_chunk_bounds(x, y, z),
        0 <= fi < 6,
    ensures
        step_coords(step_of(x, y, z, fi)) == (x, y, z, fi),
        0 <= step_of(x, y, z, fi) < total_steps(),
{
    let k = step_of(x, y, z, fi);
    assert(k == x * 24576 + y * 96 + z * 6 + fi);
    assert(k / 24576 == x && (k / 96) % 256 == y && (k / 6) % 16 == z && k % 6 == fi
        && 0 <= k < 393216) by (nonlinear_arith)
        requires
            k == x * 24576 + y * 96 + z * 6 + fi,
            0 <= x < 16,
            0 <= y < 256,
            0 <= z < 16,
            0 <= fi < 6,
    ;
}

/// The four vertices emitted for one face, in corner order.
pub open spec fn face_vertex_run(
    pos: ChunkPosition,
    x: int,
    y: int,
    z: int,
    f: BlockFace,
    b: BlockType,
) -> Seq<Vertex> {
    seq![
        face_vertex(pos, x, y, z, f, b, 0),
        face_vertex(pos, x, y, z, f, b, 1),
        face_vertex(pos, x, y, z, f, b, 2),
        face_vertex(pos, x, y, z, f, b, 3),
    ]
}

/// The six indices emitted for one face whose first vertex sits at
/// position `base` of the vertex list: two triangles over the quad.
pub open spec fn face_index_run(base: int) -> Seq<u32> {
    seq![
        base as u32,
        (base + 1) as u32,
        (base + 2) as u32,
        (base + 2) as u32,
        (base + 3) as u32,
        base as u32,
    ]
}

/// The vertex list after the first `n` meshing steps.
pub open spec fn mesh_vertices_prefix(
    blocks: Seq<BlockType>,
    pos: ChunkPosition,
    nbrs: Map<u64, Seq<BlockType>>,
    n: nat,
) -> Seq<Vertex>
    decreases n,
{
    if n == 0 {
        Seq::empty()
    } else {
        let k = n - 1;
        let c = step_coords(k as int);
        let f = face_of_index(c.3);
        let prev = mesh_vertices_prefix(blocks, pos, nbrs, (n - 1) as nat);
        if face_emitted(blocks, pos, nbrs, c.0, c.1, c.2, f) {
            prev + face_vertex_run(pos, c.0, c.1, c.2, f, blocks[voxel_index(c.0, c.1, c.2)])
        } else {
            prev
        }
    }
}

/// The index list after the first `n` meshing steps.
pub open spec fn mesh_indices_prefix(
    blocks: Seq<BlockType>,
    pos: ChunkPosition,
    nbrs: Map<u64, Seq<BlockType>>,
    n: nat,
) -> Seq<u32>
    decreases n,
{
    if n == 0 {
        Seq::empty()
    } else {
        let k = n - 1;
        let c = step_coords(k as int);
        let f = face_of_index(c.3);
        let prev = mesh_indices_prefix(blocks, pos, nbrs, (n - 1) as nat);
        if face_emitted(blocks, pos, nbrs, c.0, c.1, c.2, f) {
            prev + face_index_run(
                mesh_vertices_prefix(blocks, pos, nbrs, (n - 1) as nat).len() as int,
            )
        } else {
            prev
        }
    }
}

/// The complete vertex list of a chunk's mesh.
pub open spec fn mesh_vertices(
    blocks: Seq<BlockType>,
    pos: ChunkPosition,
    nbrs: Map<u64, Seq<BlockType>>,
) -> Seq<Vertex> {
    mesh_vertices_prefix(blocks, pos, nbrs, total_steps() as nat)
}

/// The complete index list of a chunk's mesh.
pub open spec fn mesh_indices(
    blocks: Seq<BlockType>,
    pos: ChunkPosition,
    nbrs: Map<u64, Seq<BlockType>>,
) -> Seq<u32> {
    mesh_indices_prefix(blocks, pos, nbrs, total_steps() as nat)
}

/// After `n` steps at most `4 n` vertices exist, and the index list stays
/// in lockstep: three indices for every two vertices.
pub proof fn lemma_mesh_prefix_len(
    blocks: Seq<BlockType>,
    pos: ChunkPosition,
    nbrs: Map<u64, Seq<BlockType>>,
    n: nat,
)
    ensures
        mesh_vertices_prefix(blocks, pos, nbrs, n).len() <= 4 * n,
        mesh_indices_prefix(blocks, pos, nbrs, n).len() * 2 == mesh_vertices_prefix(
            blocks,
            pos,
            nbrs,
            n,
        ).len() * 3,
    decreases n,
{
    if n > 0 {
        lemma_mesh_prefix_len(blocks, pos, nbrs, (n - 1) as nat);
    }
}


impl BlockFace {
    /// The outward unit normal of this face, as integer components.
    pub fn get_normal(&self) -> (n: (i32, i32, i32))
        ensures
            (n.0 as int, n.1 as int, n.2 as int) == face_delta(*self),
    {
        match self {
            BlockFace::Front => (0, 0, 1),
            BlockFace::Back => (0, 0, -1),
            BlockFace::Left => (-1, 0, 0),
            BlockFace::Right => (1, 0, 0),
            BlockFace::Top => (0, 1, 0),
            BlockFace::Bottom => (0, -1, 0),
        }
    }

    /// The four corner positions of this face of the unit voxel anchored
    /// at (x, y, z), in emission order.
    pub fn get_vertices(&self, x: i64, y: i64, z: i64) -> (r: [(i64, i64, i64); 4])
        requires
            -0x1000_0000_0000_0000 <= x < 0x1000_0000_0000_0000,
            -0x1000_0000_0000_0000 <= y < 0x1000_0000_0000_0000,
            -0x1000_0000_0000_0000 <= z < 0x1000_0000_0000_0000,
        ensures
            forall|i: int|
                0 <= i < 4 ==> {
                    let off = corner_offset(*self, i);
                    (#[trigger] r@[i]) == ((x + off.0) as i64, (y + off.1) as i64, (z
                        + off.2) as i64)
                },
    {
        let c0 = corner_xyz(*self, 0);
        let c1 = corner_xyz(*self, 1);
        let c2 = corner_xyz(*self, 2);
        let c3 = corner_xyz(*self, 3);
        let r = [
            (x + c0.0, y + c0.1, z + c0.2),
            (x + c1.0, y + c1.1, z + c1.2),
            (x + c2.0, y + c2.1, z + c2.2),
            (x + c3.0, y + c3.1, z + c3.2),
        ];
        r
    }

    /// The texture-coordinate quad every face shares, corner by corner.
    pub fn get_tex_coords() -> (r: [(u32, u32); 4])
        ensures
            forall|i: int| 0 <= i < 4 ==> (#[trigger] r@[i]) == tex_coord(i),
    {
        [(0, 1), (1, 1), (1, 0), (0, 0)]
    }
}

/// The face considered at step offset `fi` within a voxel.
fn face_at(fi: usize) -> (f: BlockFace)
    requires
        fi < 6,
    ensures
        f == face_of_index(fi as int),
{
    if fi == 0 {
        BlockFace::Front
    } else if fi == 1 {
        BlockFace::Back
    } else if fi == 2 {
        BlockFace::Left
    } else if fi == 3 {
        BlockFace::Right
    } else if fi == 4 {
        BlockFace::Top
    } else {
        BlockFace::Bottom
    }
}

/// The corner offset of corner `i` of face `face`.
fn corner_xyz(face: BlockFace, i: usize) -> (r: (i64, i64, i64))
    requires
        i < 4,
    ensures
        (r.0 as int, r.1 as int, r.2 as int) == corner_offset(face, i as int),
{
    match face {
        BlockFace::Front => {
            if i == 0 { (0, 0, 1) } else if i == 1 { (1, 0, 1) } else if i == 2 { (1, 1, 1) } else { (0, 1, 1) }
        },
        BlockFace::Back => {
            if i == 0 { (1, 0, 0) } else if i == 1 { (0, 0, 0) } else if i == 2 { (0, 1, 0) } else { (1, 1, 0) }
        },
        BlockFace::Left => {
            if i == 0 { (0, 0, 0) } else if i == 1 { (0, 0, 1) } else if i == 2 { (0, 1, 1) } else { (0, 1, 0) }
        },
        BlockFace::Right => {
            if i == 0 { (1, 0, 1) } else if i == 1 { (1, 0, 0) } else if i == 2 { (1, 1, 0) } else { (1, 1, 1) }
        },
        BlockFace::Top => {
            if i == 0 { (0, 1, 1) } else if i == 1 { (1, 1, 1) } else if i == 2 { (1, 1, 0) } else { (0, 1, 0) }
        },
        BlockFace::Bottom => {
            if i == 0 { (0, 0, 0) } else if i == 1 { (1, 0, 0) } else if i == 2 { (1, 0, 1) } else { (0, 0, 1) }
        },
    }
}

/// The texture coordinate of corner `i`.
fn tex_uv(i: usize) -> (t: (u32, u32))
    requires
        i < 4,
    ensures
        t == tex_coord(i as int),
{
    if i == 0 {
        (0, 1)
    } else if i == 1 {
        (1, 1)
    } else if i == 2 {
        (1, 0)
    } else {
        (0, 0)
    }
}

/// Appends the four vertices and six indices of one visible face.
fn emit_face(
    vertices: &mut Vec<Vertex>,
    indices: &mut Vec<u32>,
    pos: ChunkPosition,
    x: usize,
    y: usize,
    z: usize,
    face: BlockFace,
    block: BlockType,
)
    requires
        in_chunk_bounds(x as int, y as int, z as int),
        old(vertices)@.len() + 4 <= 1572864,
    ensures
        final(vertices)@ == old(vertices)@ + face_vertex_run(pos, x as int, y as int, z as int, face, block),
        final(indices)@ == old(indices)@ + face_index_run(old(vertices)@.len() as int),
{
    let base = vertices.len() as u32;
    let tex = block.get_texture_index(face);
    let n = face.get_normal();
    let wx: i64 = pos.x as i64 * 16 + x as i64;
    let wy: i64 = y as i64;
    let wz: i64 = pos.z as i64 * 16 + z as i64;
    let ghost run = face_vertex_run(pos, x as int, y as int, z as int, face, block);
    let mut i: usize = 0;
    while i < 4
        invariant
            i <= 4,
            vertices@ == old(vertices)@ + run.take(i as int),
            run == face_vertex_run(pos, x as int, y as int, z as int, face, block),
            in_chunk_bounds(x as int, y as int, z as int),
            wx == pos.x * 16 + x,
            wy == y,
            wz == pos.z * 16 + z,
            (n.0 as int, n.1 as int, n.2 as int) == face_delta(face),
            tex == block.spec_texture_index(face),
        decreases 4 - i,
    {
        let c = corner_xyz(face, i);
        let t = tex_uv(i);
        let vert = Vertex {
            px: wx + c.0,
            py: wy + c.1,
            pz: wz + c.2,
            u: t.0,
            v: t.1,
            nx: n.0,
            ny: n.1,
            nz: n.2,
            tex_index: tex,
        };
        proof {
            assert(vert == run[i as int]);
            assert(run.take(i as int + 1) =~= run.take(i as int).push(run[i as int]));
        }
        vertices.push(vert);
        i = i + 1;
    }
    proof {
        assert(run.take(4) =~= run);
    }
    indices.push(base);
    indices.push(base + 1);
    indices.push(base + 2);
    indices.push(base + 2);
    indices.push(base + 3);
    indices.push(base);
    proof {
        assert(indices@ =~= old(indices)@ + face_index_run(old(vertices)@.len() as int));
    }
}

impl Chunk {
    /// Whether the neighbor cell at out-of-chunk coordinate (x, y, z),
    /// relative to this chunk, hides a face: below the floor hides,
    /// above the top shows, and across an x or z boundary the adjacent
    /// loaded chunk's voxel decides (absent neighbors never hide).
    fn check_neighbor_chunk(&self, x: i32, y: i32, z: i32, world: &World) -> (r: bool)
        requires
            self.wf(),
            world.chunks_wf(),
            pos_in_range(self.position),
            -1 <= x <= 16,
            -1 <= y <= 256,
            -1 <= z <= 16,
        ensures
            r == boundary_hidden(
                self.position,
                blocks_of(world@.chunks),
                x as int,
                y as int,
                z as int,
            ),
    {
        if y < 0 {
            return true;
        }
        if y >= CHUNK_HEIGHT as i32 {
            return false;
        }

        let mut chunk_x = self.position.x;
        let mut chunk_z = self.position.z;
        let mut local_x = x;
        let mut local_z = z;

        if x < 0 {
            chunk_x = chunk_x - 1;
            local_x = CHUNK_SIZE as i32 - 1;
        } else if x >= CHUNK_SIZE as i32 {
            chunk_x = chunk_x + 1;
            local_x = 0;
        }

        if z < 0 {
            chunk_z = chunk_z - 1;
            local_z = CHUNK_SIZE as i32 - 1;
        } else if z >= CHUNK_SIZE as i32 {
            chunk_z = chunk_z + 1;
            local_z = 0;
        }

        let neighbor_pos = ChunkPosition::new(chunk_x, chunk_z);
        match world.get_chunk(&neighbor_pos) {
            Some(neighbor_chunk) => {
                let idx = (local_x as usize * 256 + y as usize) * 16 + local_z as usize;
                proof {
                    assert(idx == voxel_index(local_x as int, y as int, local_z as int));
                    assert(blocks_of(world@.chunks)[spec_pos_key(neighbor_pos)]
                        == neighbor_chunk.blocks@);
                }
                let neighbor_block = neighbor_chunk.blocks[idx];
                !neighbor_block.is_transparent()
            },
            None => {
                proof {
                    assert(!blocks_of(world@.chunks).contains_key(spec_pos_key(neighbor_pos)));
                }
                false
            },
        }
    }

    /// Whether face `face` of the voxel at in-chunk coordinate (x, y, z)
    /// is culled, consulting the adjacent chunk across a boundary.
    fn should_hide_face(
        &self,
        x: usize,
        y: usize,
        z: usize,
        face: BlockFace,
        world: &World,
    ) -> (r: bool)
        requires
            self.wf(),
            world.chunks_wf(),
            pos_in_range(self.position),
            in_chunk_bounds(x as int, y as int, z as int),
        ensures
            r == face_hidden(
                self.blocks@,
                self.position,
                blocks_of(world@.chunks),
                x as int,
                y as int,
                z as int,
                face,
            ),
    {
        let (nx, ny, nz): (i32, i32, i32) = match face {
            BlockFace::Front => (x as i32, y as i32, z as i32 + 1),
            BlockFace::Back => (x as i32, y as i32, z as i32 - 1),
            BlockFace::Left => (x as i32 - 1, y as i32, z as i32),
            BlockFace::Right => (x as i32 + 1, y as i32, z as i32),
            BlockFace::Top => (x as i32, y as i32 + 1, z as i32),
            BlockFace::Bottom => (x as i32, y as i32 - 1, z as i32),
        };

        if nx >= 0 && nx < CHUNK_SIZE as i32 && ny >= 0 && ny < CHUNK_HEIGHT as i32 && nz >= 0
            && nz < CHUNK_SIZE as i32 {
            let idx = (nx as usize * 256 + ny as usize) * 16 + nz as usize;
            proof {
                assert(idx == voxel_index(nx as int, ny as int, nz as int));
            }
            let neighbor = self.blocks[idx];
            !neighbor.is_transparent()
        } else {
            self.check_neighbor_chunk(nx, ny, nz, world)
        }
    }

    /// Builds this chunk's mesh against the chunks currently loaded in
    /// `world`: walks every voxel, culls faces per `face_hidden`, and
    /// stores the resulting vertex and index lists. The voxels, position
    /// and dirty flag are untouched; the mesh is exactly the one the spec
    /// functions `mesh_vertices` and `mesh_indices` describe.
    #[verifier::loop_isolation(false)]
    pub fn build_mesh(&mut self, world: &World)
        requires
            old(self).wf(),
            world.chunks_wf(),
            pos_in_range(old(self).position),
        ensures
            final(self).wf(),
            final(self).position == old(self).position,
            final(self).blocks == old(self).blocks,
            final(self).need_rebuilt == old(self).need_rebuilt,
            final(self).mesh matches Some(m) && m.vertices@ == mesh_vertices(
                old(self).blocks@,
                old(self).position,
                blocks_of(world@.chunks),
            ) && m.indices@ == mesh_indices(
                old(self).blocks@,
                old(self).position,
                blocks_of(world@.chunks),
            ),
    {
        let ghost bks = self.blocks@;
        let ghost pos0 = self.position;
        let ghost nbrs = blocks_of(world@.chunks);

        let mut vertices: Vec<Vertex> = Vec::new();
        let mut indices: Vec<u32> = Vec::new();

        let mut x: usize = 0;
        while x < CHUNK_SIZE
            invariant
                x <= 16,
                vertices@ == mesh_vertices_prefix(bks, pos0, nbrs, (x * 24576) as nat),
                indices@ == mesh_indices_prefix(bks, pos0, nbrs, (x * 24576) as nat),
            decreases 16 - x,
        {
            let mut y: usize = 0;
            while y < CHUNK_HEIGHT
                invariant
                    y <= 256,
                    vertices@ == mesh_vertices_prefix(bks, pos0, nbrs, (x * 24576 + y * 96) as nat),
                    indices@ == mesh_indices_prefix(bks, pos0, nbrs, (x * 24576 + y * 96) as nat),
                decreases 256 - y,
            {
                let mut z: usize = 0;
                while z < CHUNK_SIZE
                    invariant
                        z <= 16,
                        vertices@ == mesh_vertices_prefix(
                            bks,
                            pos0,
                            nbrs,
                            (x * 24576 + y * 96 + z * 6) as nat,
                        ),
                        indices@ == mesh_indices_prefix(
                            bks,
                            pos0,
                            nbrs,
                            (x * 24576 + y * 96 + z * 6) as nat,
                        ),
                    decreases 16 - z,
                {
                    let idx = (x * 256 + y) * 16 + z;
                    proof {
                        assert(idx == voxel_index(x as int, y as int, z as int));
                    }
                    let block = self.blocks[idx];
                    let mut fi: usize = 0;
                    while fi < 6
                        invariant
                            fi <= 6,
                            block == bks[voxel_index(x as int, y as int, z as int)],
                            vertices@ == mesh_vertices_prefix(
                                bks,
                                pos0,
                                nbrs,
                                (x * 24576 + y * 96 + z * 6 + fi) as nat,
                            ),
                            indices@ == mesh_indices_prefix(
                                bks,
                                pos0,
                                nbrs,
                                (x * 24576 + y * 96 + z * 6 + fi) as nat,
                            ),
                        decreases 6 - fi,
                    {
                        let ghost n0 = (x * 24576 + y * 96 + z * 6 + fi) as nat;
                        proof {
                            lemma_step_coords(x as int, y as int, z as int, fi as int);
                            assert(step_of(x as int, y as int, z as int, fi as int) == n0);
                            lemma_mesh_prefix_len(bks, pos0, nbrs, n0);
                        }
                        let face = face_at(fi);
                        if matches!(block, BlockType::Air(_)) {
                            proof {
                                assert(!face_emitted(bks, pos0, nbrs, x as int, y as int, z as int, face));
                                assert(mesh_vertices_prefix(bks, pos0, nbrs, (n0 + 1) as nat)
                                    == mesh_vertices_prefix(bks, pos0, nbrs, n0));
                                assert(mesh_indices_prefix(bks, pos0, nbrs, (n0 + 1) as nat)
                                    == mesh_indices_prefix(bks, pos0, nbrs, n0));
                            }
                        } else {
                            let hide = self.should_hide_face(x, y, z, face, world);
                            if !hide {
                                emit_face(&mut vertices, &mut indices, self.position, x, y, z, face, block);
                            }
                            proof {
                                assert(face_emitted(bks, pos0, nbrs, x as int, y as int, z as int, face)
                                    == !hide);
                            }
                        }
                        fi = fi + 1;
                    }
                    z = z + 1;
                }
                y = y + 1;
            }
            x = x + 1;
        }
        self.mesh = Some(MeshData { vertices, indices });
    }
}


/// Every step index decomposes to in-range coordinates, and those
/// coordinates reassemble to the step index.
pub proof fn lemma_step_coords_range(k: int)
    requires
        0 <= k < 393216,
    ensures
        ({
            let c = step_coords(k);
            &&& in_chunk_bounds(c.0, c.1, c.2)
            &&& 0 <= c.3 < 6
            &&& step_of(c.0, c.1, c.2, c.3) == k
        }),
{
    let c = step_coords(k);
    assert(0 <= c.0 < 16 && 0 <= c.1 < 256 && 0 <= c.2 < 16 && 0 <= c.3 < 6 && ((c.0 * 256 + c.1)
        * 16 + c.2) * 6 + c.3 == k) by (nonlinear_arith)
        requires
            0 <= k < 393216,
            c == step_coords(k),
    ;
}

/// Meshing an all-Air chunk emits nothing, whatever neighbors exist: the
/// vertex and index lists are both empty.
pub proof fn lemma_empty_chunk_mesh(
    blocks: Seq<BlockType>,
    pos: ChunkPosition,
    nbrs: Map<u64, Seq<BlockType>>,
)
    requires
        blocks.len() == 65536,
        forall|i: int| 0 <= i < 65536 ==> (#[trigger] blocks[i]) is Air,
    ensures
        mesh_vertices(blocks, pos, nbrs) == Seq::<Vertex>::empty(),
        mesh_indices(blocks, pos, nbrs) == Seq::<u32>::empty(),
{
    lemma_empty_prefix(blocks, pos, nbrs, total_steps() as nat);
}

proof fn lemma_empty_prefix(
    blocks: Seq<BlockType>,
    pos: ChunkPosition,
    nbrs: Map<u64, Seq<BlockType>>,
    n: nat,
)
    requires
        blocks.len() == 65536,
        forall|i: int| 0 <= i < 65536 ==> (#[trigger] blocks[i]) is Air,
        n <= 393216,
    ensures
        mesh_vertices_prefix(blocks, pos, nbrs, n) == Seq::<Vertex>::empty(),
        mesh_indices_prefix(blocks, pos, nbrs, n) == Seq::<u32>::empty(),
    decreases n,
{
    if n > 0 {
        lemma_empty_prefix(blocks, pos, nbrs, (n - 1) as nat);
        let k = n - 1;
        lemma_step_coords_range(k as int);
        let c = step_coords(k as int);
        crate::chunk::lemma_voxel_index_invert(c.0, c.1, c.2);
        assert(blocks[voxel_index(c.0, c.1, c.2)] is Air);
        assert(!face_emitted(blocks, pos, nbrs, c.0, c.1, c.2, face_of_index(c.3)));
    }
}

/// A single solid voxel with everything else Air, no loaded neighbor
/// chunks, and at least one cell of open space below it, shows all six
/// faces: exactly 24 vertices and 36 indices.
pub proof fn lemma_isolated_voxel_mesh(
    blocks: Seq<BlockType>,
    pos: ChunkPosition,
    sx: int,
    sy: int,
    sz: int,
)
    requires
        blocks.len() == 65536,
        in_chunk_bounds(sx, sy, sz),
        1 <= sy,
        !((blocks[voxel_index(sx, sy, sz)]) is Air),
        forall|i: int|
            0 <= i < 65536 && i != voxel_index(sx, sy, sz) ==> (#[trigger] blocks[i]) is Air,
    ensures
        mesh_vertices(blocks, pos, Map::<u64, Seq<BlockType>>::empty()).len() == 24,
        mesh_indices(blocks, pos, Map::<u64, Seq<BlockType>>::empty()).len() == 36,
{
    lemma_isolated_prefix(blocks, pos, sx, sy, sz, total_steps() as nat);
    lemma_mesh_prefix_len(blocks, pos, Map::<u64, Seq<BlockType>>::empty(), total_steps() as nat);
}

proof fn lemma_isolated_prefix(
    blocks: Seq<BlockType>,
    pos: ChunkPosition,
    sx: int,
    sy: int,
    sz: int,
    n: nat,
)
    requires
        blocks.len() == 65536,
        in_chunk_bounds(sx, sy, sz),
        1 <= sy,
        !((blocks[voxel_index(sx, sy, sz)]) is Air),
        forall|i: int|
            0 <= i < 65536 && i != voxel_index(sx, sy, sz) ==> (#[trigger] blocks[i]) is Air,
        n <= 393216,
    ensures
        ({
            let s0 = step_of(sx, sy, sz, 0);
            mesh_vertices_prefix(blocks, pos, Map::<u64, Seq<BlockType>>::empty(), n).len() == (
            if n <= s0 {
                0int
            } else if n < s0 + 6 {
                4 * (n - s0)
            } else {
                24int
            })
        }),
    decreases n,
{
    let nbrs = Map::<u64, Seq<BlockType>>::empty();
    let s0 = step_of(sx, sy, sz, 0);
    lemma_step_coords(sx, sy, sz, 0);
    if n > 0 {
        lemma_isolated_prefix(blocks, pos, sx, sy, sz, (n - 1) as nat);
        let k = n - 1;
        lemma_step_coords_range(k as int);
        let c = step_coords(k as int);
        let f = face_of_index(c.3);
        crate::chunk::lemma_voxel_index_invert(c.0, c.1, c.2);
        crate::chunk::lemma_voxel_index_invert(sx, sy, sz);
        if c.0 == sx && c.1 == sy && c.2 == sz {
            lemma_step_coords(sx, sy, sz, c.3);
            assert(k == s0 + c.3);
            assert(!face_hidden(blocks, pos, nbrs, sx, sy, sz, f)) by {
                let d = face_delta(f);
                let nx = sx + d.0;
                let ny = sy + d.1;
                let nz = sz + d.2;
                if in_chunk_bounds(nx, ny, nz) {
                    crate::chunk::lemma_voxel_index_invert(nx, ny, nz);
                    assert(voxel_index(nx, ny, nz) != voxel_index(sx, sy, sz));
                    assert(blocks[voxel_index(nx, ny, nz)] is Air);
                }
            }
            assert(face_emitted(blocks, pos, nbrs, c.0, c.1, c.2, f));
        } else {
            assert(voxel_index(c.0, c.1, c.2) != voxel_index(sx, sy, sz));
            assert(blocks[voxel_index(c.0, c.1, c.2)] is Air);
            assert(!face_emitted(blocks, pos, nbrs, c.0, c.1, c.2, f));
            assert(!(s0 <= k < s0 + 6)) by {
                if s0 <= k < s0 + 6 {
                    lemma_step_coords(sx, sy, sz, k - s0);
                    assert(step_of(sx, sy, sz, k - s0) == k);
                    assert(step_coords(k as int) == (sx, sy, sz, k - s0));
                }
            }
        }
    }
}

} // verus!

// === Executable meshing ===
