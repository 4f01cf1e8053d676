use voxel_terrain::blocks::{Block, BlockFace, BlockType, GrassBlock};
use voxel_terrain::chunk::{Chunk, ChunkPosition};
use voxel_terrain::mesh::Vertex;
use voxel_terrain::world::World;

fn grass() -> BlockType {
    BlockType::Grass(GrassBlock::default())
}

#[test]
fn empty_chunk_produces_empty_mesh() {
    let world = World::new(0);
    let mut chunk = Chunk::new(ChunkPosition::new(0, 0));
    chunk.build_mesh(&world);
    let mesh = chunk.mesh.as_ref().unwrap();
    assert_eq!(mesh.vertices.len(), 0);
    assert_eq!(mesh.indices.len(), 0);
}

#[test]
fn isolated_voxel_produces_24_vertices_36_indices() {
    let world = World::new(0);
    let mut chunk = Chunk::new(ChunkPosition::new(0, 0));
    chunk.set_block(8, 100, 8, grass());
    chunk.build_mesh(&world);
    let mesh = chunk.mesh.as_ref().unwrap();
    assert_eq!(mesh.vertices.len(), 24);
    assert_eq!(mesh.indices.len(), 36);
}

#[test]
fn floor_voxel_hides_its_bottom_face() {
    // Below y = 0 counts as solid, so a voxel on the floor shows 5 faces.
    let world = World::new(0);
    let mut chunk = Chunk::new(ChunkPosition::new(0, 0));
    chunk.set_block(8, 0, 8, grass());
    chunk.build_mesh(&world);
    let mesh = chunk.mesh.as_ref().unwrap();
    assert_eq!(mesh.vertices.len(), 20);
    assert_eq!(mesh.indices.len(), 30);
}

#[test]
fn top_voxel_shows_its_top_face() {
    // Above the top of the world counts as open.
    let world = World::new(0);
    let mut chunk = Chunk::new(ChunkPosition::new(0, 0));
    chunk.set_block(8, 255, 8, grass());
    chunk.build_mesh(&world);
    let mesh = chunk.mesh.as_ref().unwrap();
    assert_eq!(mesh.vertices.len(), 24);
    assert_eq!(mesh.indices.len(), 36);
}

#[test]
fn adjacent_solid_voxels_hide_shared_faces() {
    // Two touching voxels: 2 * 24 - 2 * 4 = 40 vertices.
    let world = World::new(0);
    let mut chunk = Chunk::new(ChunkPosition::new(0, 0));
    chunk.set_block(8, 100, 8, grass());
    chunk.set_block(9, 100, 8, grass());
    chunk.build_mesh(&world);
    let mesh = chunk.mesh.as_ref().unwrap();
    assert_eq!(mesh.vertices.len(), 40);
    assert_eq!(mesh.indices.len(), 60);
}

#[test]
fn chunk_boundary_face_shows_when_neighbor_missing() {
    // A voxel on the +x boundary: the Right face crosses into an unloaded
    // chunk and stays visible.
    let world = World::new(0);
    let mut chunk = Chunk::new(ChunkPosition::new(0, 0));
    chunk.set_block(15, 100, 8, grass());
    chunk.build_mesh(&world);
    let mesh = chunk.mesh.as_ref().unwrap();
    assert_eq!(mesh.vertices.len(), 24);
    assert_eq!(mesh.indices.len(), 36);
}

#[test]
fn mesh_is_deterministic() {
    let world = World::new(0);
    let mut a = Chunk::new(ChunkPosition::new(2, -7));
    a.set_block(3, 40, 5, grass());
    a.set_block(3, 41, 5, grass());
    let mut b = Chunk::new(ChunkPosition::new(2, -7));
    b.set_block(3, 40, 5, grass());
    b.set_block(3, 41, 5, grass());
    a.build_mesh(&world);
    b.build_mesh(&world);
    assert_eq!(a.mesh.as_ref().unwrap(), b.mesh.as_ref().unwrap());
}

#[test]
fn first_face_has_expected_vertices_and_indices() {
    // Single grass voxel at local (0, 1, 0) of the chunk at grid (0, 0):
    // the first emitted face is Front, with the shared texture quad, the
    // +z normal, and the grass side texture layer.
    let world = World::new(0);
    let mut chunk = Chunk::new(ChunkPosition::new(0, 0));
    chunk.set_block(0, 1, 0, grass());
    chunk.build_mesh(&world);
    let mesh = chunk.mesh.as_ref().unwrap();
    let v0 = Vertex { px: 0, py: 1, pz: 1, u: 0, v: 1, nx: 0, ny: 0, nz: 1, tex_index: 2 };
    let v1 = Vertex { px: 1, py: 1, pz: 1, u: 1, v: 1, nx: 0, ny: 0, nz: 1, tex_index: 2 };
    let v2 = Vertex { px: 1, py: 2, pz: 1, u: 1, v: 0, nx: 0, ny: 0, nz: 1, tex_index: 2 };
    let v3 = Vertex { px: 0, py: 2, pz: 1, u: 0, v: 0, nx: 0, ny: 0, nz: 1, tex_index: 2 };
    assert_eq!(mesh.vertices[0], v0);
    assert_eq!(mesh.vertices[1], v1);
    assert_eq!(mesh.vertices[2], v2);
    assert_eq!(mesh.vertices[3], v3);
    assert_eq!(&mesh.indices[0..6], &[0, 1, 2, 2, 3, 0]);
}

#[test]
fn vertices_use_world_coordinates() {
    // The chunk at grid (2, -1): local (0, 5, 0) sits at world x = 32,
    // z = -16.
    let world = World::new(0);
    let mut chunk = Chunk::new(ChunkPosition::new(2, -1));
    chunk.set_block(0, 5, 0, grass());
    chunk.build_mesh(&world);
    let mesh = chunk.mesh.as_ref().unwrap();
    assert!(mesh.vertices.iter().all(|v| v.px == 32 || v.px == 33));
    assert!(mesh.vertices.iter().all(|v| v.pz == -16 || v.pz == -15));
    assert!(mesh.vertices.iter().all(|v| v.py == 5 || v.py == 6));
}

#[test]
fn grass_texture_indices_per_face() {
    let g = GrassBlock::default();
    assert_eq!(g.get_texture_index(BlockFace::Top), 0);
    assert_eq!(g.get_texture_index(BlockFace::Bottom), 1);
    assert_eq!(g.get_texture_index(BlockFace::Front), 2);
    assert_eq!(g.get_texture_index(BlockFace::Back), 2);
    assert_eq!(g.get_texture_index(BlockFace::Left), 2);
    assert_eq!(g.get_texture_index(BlockFace::Right), 2);
}

#[test]
fn face_normals_are_unit_axis_vectors() {
    assert_eq!(BlockFace::Front.get_normal(), (0, 0, 1));
    assert_eq!(BlockFace::Back.get_normal(), (0, 0, -1));
    assert_eq!(BlockFace::Left.get_normal(), (-1, 0, 0));
    assert_eq!(BlockFace::Right.get_normal(), (1, 0, 0));
    assert_eq!(BlockFace::Top.get_normal(), (0, 1, 0));
    assert_eq!(BlockFace::Bottom.get_normal(), (0, -1, 0));
}

#[test]
fn index_count_is_six_per_four_vertices() {
    let world = World::new(0);
    let mut chunk = Chunk::new(ChunkPosition::new(0, 0));
    for y in 10..14 {
        chunk.set_block(5, y, 5, grass());
    }
    chunk.build_mesh(&world);
    let mesh = chunk.mesh.as_ref().unwrap();
    assert_eq!(mesh.vertices.len() % 4, 0);
    assert_eq!(mesh.indices.len() * 4, mesh.vertices.len() * 6);
}

#[test]
fn meshing_works_at_extreme_chunk_coordinates() {
    let world = World::new(0);
    let mut chunk = Chunk::new(ChunkPosition::new(i32::MAX - 1, i32::MIN + 1));
    chunk.set_block(0, 100, 0, grass());
    chunk.build_mesh(&world);
    let mesh = chunk.mesh.as_ref().unwrap();
    assert_eq!(mesh.vertices.len(), 24);
    let expected_x = (i32::MAX - 1) as i64 * 16;
    assert!(mesh.vertices.iter().all(|v| v.px == expected_x || v.px == expected_x + 1));
    let expected_z = (i32::MIN + 1) as i64 * 16;
    assert!(mesh.vertices.iter().all(|v| v.pz == expected_z || v.pz == expected_z + 1));
}

#[test]
fn face_corner_positions_span_the_unit_cube() {
    let top = BlockFace::Top.get_vertices(10, 20, 30);
    assert_eq!(top, [(10, 21, 31), (11, 21, 31), (11, 21, 30), (10, 21, 30)]);
    let bottom = BlockFace::Bottom.get_vertices(0, 0, 0);
    assert_eq!(bottom, [(0, 0, 0), (1, 0, 0), (1, 0, 1), (0, 0, 1)]);
}

#[test]
fn shared_texture_quad_corners() {
    assert_eq!(BlockFace::get_tex_coords(), [(0, 1), (1, 1), (1, 0), (0, 0)]);
}
