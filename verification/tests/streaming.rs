use voxel_terrain::blocks::{BlockType, GrassBlock};
use voxel_terrain::chunk::{pos_key, Chunk, ChunkPosition};
use voxel_terrain::world::World;
use voxel_terrain::world_gen::WorldGenerator;

fn generated_chunk(pos: ChunkPosition) -> Chunk {
    let gen = WorldGenerator::new(1);
    let mut chunk = Chunk::new(pos);
    let heights = vec![64u8; 256];
    gen.generate_chunk(&mut chunk, &heights);
    chunk
}

#[test]
fn evaluation_requests_every_desired_position_once() {
    let mut world = World::new(1);
    let (requests, evicted) = world.update_chunks_around_player(ChunkPosition::new(0, 0));
    // Radius 1 with the circular test: the center and its 4 cardinal
    // neighbors.
    assert_eq!(requests.len(), 5);
    assert!(requests.contains(&ChunkPosition::new(0, 0)));
    assert!(requests.contains(&ChunkPosition::new(-1, 0)));
    assert!(requests.contains(&ChunkPosition::new(1, 0)));
    assert!(requests.contains(&ChunkPosition::new(0, -1)));
    assert!(requests.contains(&ChunkPosition::new(0, 1)));
    assert!(evicted.is_empty());
    for p in &requests {
        assert!(world.is_requested(p));
        assert!(!world.is_loaded(p));
    }
}

#[test]
fn evaluation_is_idempotent_for_unchanged_viewpoint() {
    let mut world = World::new(2);
    let pc = ChunkPosition::new(3, -4);
    let (first, _) = world.update_chunks_around_player(pc);
    assert!(!first.is_empty());
    let (second, evicted) = world.update_chunks_around_player(pc);
    assert!(second.is_empty());
    assert!(evicted.is_empty());
}

#[test]
fn in_flight_positions_are_not_rerequested() {
    let mut world = World::new(0);
    let pc = ChunkPosition::new(0, 0);
    world.update_chunks_around_player(pc);
    assert!(!world.load_chunk(pc));
    // Moving away and back re-evaluates, but the position is still in
    // flight and must not be requested again.
    world.update_chunks_around_player(ChunkPosition::new(40, 40));
    let (requests, _) = world.update_chunks_around_player(pc);
    assert!(!requests.contains(&pc));
}

#[test]
fn render_distance_zero_desires_exactly_the_viewpoint_chunk() {
    let mut world = World::new(0);
    let pc = ChunkPosition::new(7, -3);
    let (requests, evicted) = world.update_chunks_around_player(pc);
    assert_eq!(requests, vec![pc]);
    assert!(evicted.is_empty());
}

#[test]
fn integration_loads_a_desired_completion() {
    let mut world = World::new(0);
    let pc = ChunkPosition::new(0, 0);
    world.update_chunks_around_player(pc);
    assert!(world.is_requested(&pc));
    let accepted = world.integrate_chunk(generated_chunk(pc));
    assert!(accepted);
    assert!(world.is_loaded(&pc));
    assert!(!world.is_requested(&pc));
    let chunk = world.get_chunk(&pc).unwrap();
    assert!(chunk.mesh.is_some());
    assert!(!chunk.need_rebuilt);
}

#[test]
fn integration_discards_an_undesired_completion() {
    let mut world = World::new(0);
    let pc = ChunkPosition::new(0, 0);
    world.update_chunks_around_player(pc);
    // The player moves far away before the completion arrives.
    world.update_chunks_around_player(ChunkPosition::new(100, 100));
    let accepted = world.integrate_chunk(generated_chunk(pc));
    assert!(!accepted);
    assert!(!world.is_loaded(&pc));
    assert!(!world.is_requested(&pc));
}

#[test]
fn integration_marks_loaded_cardinal_neighbors() {
    let mut world = World::new(2);
    let pc = ChunkPosition::new(0, 0);
    world.update_chunks_around_player(pc);
    world.integrate_chunk(generated_chunk(ChunkPosition::new(0, 0)));
    world.rebuild_chunk_meshes();
    assert!(!world.get_chunk(&ChunkPosition::new(0, 0)).unwrap().need_rebuilt);
    world.integrate_chunk(generated_chunk(ChunkPosition::new(1, 0)));
    assert!(world.get_chunk(&ChunkPosition::new(0, 0)).unwrap().need_rebuilt);
}

#[test]
fn rebuild_pass_clears_flags_and_reports_positions() {
    let mut world = World::new(2);
    let pc = ChunkPosition::new(0, 0);
    world.update_chunks_around_player(pc);
    world.integrate_chunk(generated_chunk(ChunkPosition::new(0, 0)));
    world.integrate_chunk(generated_chunk(ChunkPosition::new(1, 0)));
    let rebuilt = world.rebuild_chunk_meshes();
    assert_eq!(rebuilt, vec![ChunkPosition::new(0, 0)]);
    assert!(!world.get_chunk(&ChunkPosition::new(0, 0)).unwrap().need_rebuilt);
    assert!(!world.get_chunk(&ChunkPosition::new(1, 0)).unwrap().need_rebuilt);
    let again = world.rebuild_chunk_meshes();
    assert!(again.is_empty());
}

#[test]
fn eviction_marks_exactly_loaded_cardinal_neighbors() {
    let mut world = World::new(4);
    let pc = ChunkPosition::new(0, 0);
    world.update_chunks_around_player(pc);
    for p in [
        ChunkPosition::new(0, 0),
        ChunkPosition::new(1, 0),
        ChunkPosition::new(0, 1),
        ChunkPosition::new(2, 0),
        ChunkPosition::new(1, 1),
    ] {
        assert!(world.integrate_chunk(generated_chunk(p)));
    }
    world.rebuild_chunk_meshes();
    let removed = world.unload_chunk(ChunkPosition::new(0, 0));
    assert!(removed.is_some());
    assert!(!world.is_loaded(&ChunkPosition::new(0, 0)));
    // Cardinal neighbors are flagged.
    assert!(world.get_chunk(&ChunkPosition::new(1, 0)).unwrap().need_rebuilt);
    assert!(world.get_chunk(&ChunkPosition::new(0, 1)).unwrap().need_rebuilt);
    // A diagonal neighbor and a chunk two steps away are not.
    assert!(!world.get_chunk(&ChunkPosition::new(1, 1)).unwrap().need_rebuilt);
    assert!(!world.get_chunk(&ChunkPosition::new(2, 0)).unwrap().need_rebuilt);
}

#[test]
fn unloading_an_absent_position_is_a_no_op() {
    let mut world = World::new(1);
    assert!(world.unload_chunk(ChunkPosition::new(9, 9)).is_none());
}

#[test]
fn movement_evicts_chunks_outside_the_radius() {
    let mut world = World::new(0);
    let a = ChunkPosition::new(0, 0);
    let b = ChunkPosition::new(1, 0);
    world.update_chunks_around_player(a);
    world.integrate_chunk(generated_chunk(a));
    assert!(world.is_loaded(&a));
    let (requests, evicted) = world.update_chunks_around_player(b);
    assert_eq!(requests, vec![b]);
    assert_eq!(evicted.len(), 1);
    assert_eq!(evicted[0].position, a);
    assert!(!world.is_loaded(&a));
}

#[test]
fn no_position_is_both_loaded_and_in_flight() {
    let mut world = World::new(1);
    let pc = ChunkPosition::new(0, 0);
    world.update_chunks_around_player(pc);
    world.integrate_chunk(generated_chunk(pc));
    world.update_chunks_around_player(ChunkPosition::new(1, 0));
    for x in -3..3 {
        for z in -3..3 {
            let p = ChunkPosition::new(x, z);
            assert!(!(world.is_loaded(&p) && world.is_requested(&p)));
        }
    }
}

#[test]
fn flush_integrates_a_batch_in_order() {
    let mut world = World::new(2);
    let pc = ChunkPosition::new(0, 0);
    world.update_chunks_around_player(pc);
    let batch = vec![
        generated_chunk(ChunkPosition::new(0, 0)),
        generated_chunk(ChunkPosition::new(1, 0)),
        generated_chunk(ChunkPosition::new(50, 50)),
    ];
    let registered = world.flush_generated_chunks(batch);
    assert_eq!(
        registered,
        vec![ChunkPosition::new(0, 0), ChunkPosition::new(1, 0)]
    );
    assert!(world.is_loaded(&ChunkPosition::new(0, 0)));
    assert!(world.is_loaded(&ChunkPosition::new(1, 0)));
    assert!(!world.is_loaded(&ChunkPosition::new(50, 50)));
}

#[test]
fn cross_chunk_faces_cull_after_neighbor_rebuild() {
    // A voxel on the +x boundary of chunk (0,0) and one on the -x boundary
    // of chunk (1,0) share a face. Meshed alone, the first chunk shows all
    // 24 vertices; after its neighbor loads and the rebuild pass runs, the
    // shared face is culled on both sides.
    let mut world = World::new(4);
    world.update_chunks_around_player(ChunkPosition::new(0, 0));

    let mut a = Chunk::new(ChunkPosition::new(0, 0));
    a.set_block(15, 100, 8, BlockType::Grass(GrassBlock::default()));
    let mut b = Chunk::new(ChunkPosition::new(1, 0));
    b.set_block(0, 100, 8, BlockType::Grass(GrassBlock::default()));

    assert!(world.integrate_chunk(a));
    let a_alone = world
        .get_chunk(&ChunkPosition::new(0, 0))
        .unwrap()
        .mesh
        .as_ref()
        .unwrap()
        .vertices
        .len();
    assert_eq!(a_alone, 24);

    assert!(world.integrate_chunk(b));
    let b_mesh = world
        .get_chunk(&ChunkPosition::new(1, 0))
        .unwrap()
        .mesh
        .as_ref()
        .unwrap()
        .vertices
        .len();
    // b was meshed with a already loaded: its Left face is culled.
    assert_eq!(b_mesh, 20);

    let rebuilt = world.rebuild_chunk_meshes();
    assert_eq!(rebuilt, vec![ChunkPosition::new(0, 0)]);
    let a_after = world
        .get_chunk(&ChunkPosition::new(0, 0))
        .unwrap()
        .mesh
        .as_ref()
        .unwrap()
        .vertices
        .len();
    assert_eq!(a_after, 20);
}

#[test]
fn position_keys_are_injective_on_samples() {
    let samples = [
        ChunkPosition::new(0, 0),
        ChunkPosition::new(1, 0),
        ChunkPosition::new(0, 1),
        ChunkPosition::new(-1, 0),
        ChunkPosition::new(0, -1),
        ChunkPosition::new(1, -1),
        ChunkPosition::new(-1, 1),
        ChunkPosition::new(i32::MAX - 1, i32::MIN + 1),
        ChunkPosition::new(i32::MIN + 1, i32::MAX - 1),
    ];
    for (i, a) in samples.iter().enumerate() {
        for (j, b) in samples.iter().enumerate() {
            assert_eq!(pos_key(*a) == pos_key(*b), i == j);
        }
    }
}

#[test]
fn position_key_packs_coordinates_exactly() {
    assert_eq!(pos_key(ChunkPosition::new(0, 0)), 0);
    assert_eq!(pos_key(ChunkPosition::new(1, 2)), (1u64 << 32) + 2);
    assert_eq!(pos_key(ChunkPosition::new(-1, -1)), u64::MAX);
    assert_eq!(pos_key(ChunkPosition::new(0, -1)), 0xFFFF_FFFF);
    assert_eq!(pos_key(ChunkPosition::new(-1, 0)), 0xFFFF_FFFF_0000_0000);
}

#[test]
fn flushing_an_empty_batch_changes_nothing() {
    let mut world = World::new(1);
    let pc = ChunkPosition::new(0, 0);
    world.update_chunks_around_player(pc);
    let registered = world.flush_generated_chunks(Vec::new());
    assert!(registered.is_empty());
}
