//! The world: owns the loaded chunks, tracks in-flight generation
//! requests, and drives the streaming policy that decides which chunks
//! should exist around the viewpoint.
//!
//! Every position is in exactly one of three states at any observation
//! point: Absent, InFlight (requested, not yet completed) or Loaded.

use std::collections::{HashMap, HashSet};
use vstd::prelude::*;

use crate::chunk::{
    key_of_coords, lemma_pos_key_injective, pos_in_range, pos_key, spec_pos_key, Chunk, ChunkModel,
    ChunkPosition,
};

verus! {

broadcast use vstd::std_specs::hash::group_hash_axioms;

/// The mathematical content of a world: the loaded chunks keyed by their
/// packed position, the keys of in-flight requests, the streaming radius,
/// and the viewpoint chunk of the last streaming evaluation.
pub struct WorldModel {
    pub chunks: Map<u64, ChunkModel>,
    pub in_flight: Set<u64>,
    pub render_distance: u32,
    pub last_player_chunk: Option<ChunkPosition>,
}

impl WorldModel {
    /// Whether the chunk at `p` is loaded.
    pub open spec fn loaded(self, p: ChunkPosition) -> bool {
        self.chunks.contains_key(spec_pos_key(p))
    }

    /// Whether a generation request for `p` is in flight.
    pub open spec fn requested(self, p: ChunkPosition) -> bool {
        self.in_flight.contains(spec_pos_key(p))
    }
}

/// The voxel content of every loaded chunk, keyed by packed position;
/// what cross-chunk visibility queries read.
pub open spec fn blocks_of(chunks: Map<u64, ChunkModel>) -> Map<u64, Seq<crate::blocks::BlockType>> {
    chunks.map_values(|cm: ChunkModel| cm.blocks)
}

/// Owns all chunks and the streaming bookkeeping. Generation itself runs
/// outside: the world only decides which positions to request, accepts
/// completed chunks, and keeps meshes consistent under loading and
/// eviction.
pub struct World {
    pub chunks: HashMap<u64, Chunk>,
    pub loaded_keys: Vec<u64>,
    pub in_flight: HashSet<u64>,
    pub render_distance: u32,
    pub last_player_chunk: Option<ChunkPosition>,
}

impl View for World {
    type V = WorldModel;

    open spec fn view(&self) -> WorldModel {
        WorldModel {
            chunks: self.chunks@.map_values(|c: Chunk| c@),
            in_flight: self.in_flight@,
            render_distance: self.render_distance,
            last_player_chunk: self.last_player_chunk,
        }
    }
}

impl World {
    /// Structural invariant: every loaded chunk is well formed, sits under
    /// the key its position packs to, and lies safely inside the 32-bit
    /// coordinate range; the key list mirrors the map's domain exactly;
    /// and no position is both loaded and in flight.
    /// Every loaded chunk is well formed, sits under the key its position
    /// packs to, and lies safely inside the 32-bit coordinate range.
    pub open spec fn chunks_wf(self) -> bool {
        forall|k: u64| #[trigger]
            self.chunks@.contains_key(k) ==> self.chunks@[k].wf() && spec_pos_key(
                self.chunks@[k].position,
            ) == k && pos_in_range(self.chunks@[k].position)
    }

    pub open spec fn wf(self) -> bool {
        &&& self.chunks_wf()
        &&& self.loaded_keys@.no_duplicates()
        &&& forall|k: u64| #[trigger]
            self.loaded_keys@.contains(k) ==> self.chunks@.contains_key(k)
        &&& forall|k: u64| #[trigger]
            self.chunks@.contains_key(k) ==> self.loaded_keys@.contains(k)
        &&& forall|k: u64| #[trigger]
            self.in_flight@.contains(k) ==> !self.chunks@.contains_key(k)
    }

    /// An empty world around no viewpoint yet.
    pub fn new(render_distance: u32) -> (w: World)
        ensures
            w.wf(),
            w@.chunks == Map::<u64, ChunkModel>::empty(),
            w@.in_flight == Set::<u64>::empty(),
            w@.render_distance == render_distance,
            w@.last_player_chunk is None,
    {
        let w = World {
            chunks: HashMap::new(),
            loaded_keys: Vec::new(),
            in_flight: HashSet::new(),
            render_distance,
            last_player_chunk: None,
        };
        proof {
            assert(w@.chunks =~= Map::<u64, ChunkModel>::empty());
        }
        w
    }

    /// Looks up the loaded chunk at `position`, if any.
    pub fn get_chunk(&self, position: &ChunkPosition) -> (r: Option<&Chunk>)
        requires
            self.chunks_wf(),
        ensures
            match r {
                Some(c) => self@.loaded(*position) && c@ == self@.chunks[spec_pos_key(*position)]
                    && c.wf(),
                None => !self@.loaded(*position),
            },
    {
        let k = pos_key(*position);
        self.chunks.get(&k)
    }

    /// Whether the chunk at `position` is loaded.
    pub fn is_loaded(&self, position: &ChunkPosition) -> (r: bool)
        ensures
            r == self@.loaded(*position),
    {
        let k = pos_key(*position);
        self.chunks.contains_key(&k)
    }

    /// Whether a generation request for `position` is in flight.
    pub fn is_requested(&self, position: &ChunkPosition) -> (r: bool)
        ensures
            r == self@.requested(*position),
    {
        let k = pos_key(*position);
        self.in_flight.contains(&k)
    }

    /// Requests generation of the chunk at `position` unless that position
    /// is already loaded or already in flight; returns whether a new
    /// request must be submitted. A position never holds two states at
    /// once, and a pending or satisfied request is never re-issued.
    pub fn load_chunk(&mut self, position: ChunkPosition) -> (requested: bool)
        requires
            old(self).wf(),
        ensures
            final(self).wf(),
            final(self)@ == spec_request(old(self)@, position),
            final(self).loaded_keys == old(self).loaded_keys,
            requested == (!old(self)@.loaded(position) && !old(self)@.requested(position)),
    {
        let k = pos_key(position);
        if self.chunks.contains_key(&k) || self.in_flight.contains(&k) {
            return false;
        }
        self.in_flight.insert(k);
        proof {
            assert(self@.chunks =~= old(self)@.chunks);
            assert(self@ == spec_request(old(self)@, position));
        }
        true
    }
}

/// The streaming transition for one desired position: if it is neither
/// loaded nor in flight, it becomes in flight; otherwise nothing changes.
pub open spec fn spec_request(m: WorldModel, p: ChunkPosition) -> WorldModel {
    if m.loaded(p) || m.requested(p) {
        m
    } else {
        WorldModel { in_flight: m.in_flight.insert(spec_pos_key(p)), ..m }
    }
}


/// A chunk flagged as needing its mesh rebuilt.
pub open spec fn mark_rebuild(c: ChunkModel) -> ChunkModel {
    ChunkModel { need_rebuilt: true, ..c }
}

/// Whether `k` is the key of one of the four cardinal (x or z adjacent)
/// neighbors of position `p`.
pub open spec fn is_cardinal_key(p: ChunkPosition, k: u64) -> bool {
    ||| k == key_of_coords(p.x - 1, p.z as int)
    ||| k == key_of_coords(p.x + 1, p.z as int)
    ||| k == key_of_coords(p.x as int, p.z - 1)
    ||| k == key_of_coords(p.x as int, p.z + 1)
}

/// Every loaded cardinal neighbor of `p` flagged for rebuild; everything
/// else untouched.
pub open spec fn spec_mark_neighbors(
    chunks: Map<u64, ChunkModel>,
    p: ChunkPosition,
) -> Map<u64, ChunkModel> {
    Map::new(
        |k: u64| chunks.contains_key(k),
        |k: u64|
            if is_cardinal_key(p, k) {
                mark_rebuild(chunks[k])
            } else {
                chunks[k]
            },
    )
}

/// One loaded chunk flagged for rebuild; an absent key changes nothing.
pub open spec fn spec_mark_one(chunks: Map<u64, ChunkModel>, k: u64) -> Map<u64, ChunkModel> {
    if chunks.contains_key(k) {
        chunks.insert(k, mark_rebuild(chunks[k]))
    } else {
        chunks
    }
}

/// The eviction transition: a loaded chunk at `p` leaves the map and its
/// loaded cardinal neighbors are flagged for rebuild, because a face they
/// had culled against it may need to reappear; unloading an absent
/// position changes nothing.
pub open spec fn spec_unload(m: WorldModel, p: ChunkPosition) -> WorldModel {
    if m.loaded(p) {
        WorldModel { chunks: spec_mark_neighbors(m.chunks.remove(spec_pos_key(p)), p), ..m }
    } else {
        m
    }
}

/// Removes one occurrence of `k` from a duplicate-free key list.
fn remove_key(keys: &mut Vec<u64>, k: u64)
    requires
        old(keys)@.no_duplicates(),
    ensures
        final(keys)@.no_duplicates(),
        forall|j: u64| #[trigger]
            final(keys)@.contains(j) <==> (old(keys)@.contains(j) && j != k),
{
    let n = keys.len();
    let mut i: usize = 0;
    while i < n
        invariant
            n == keys@.len(),
            i <= n,
            *keys == *old(keys),
            old(keys)@.no_duplicates(),
            forall|t: int| 0 <= t < i ==> keys@[t] != k,
        decreases n - i,
    {
        if keys[i] == k {
            let ghost pre = keys@;
            keys.remove(i);
            proof {
                pre.remove_ensures(i as int);
                assert(keys@ == pre.remove(i as int));
                assert forall|a: int, b: int| 0 <= a < b < keys@.len() implies keys@[a]
                    != keys@[b] by {
                    if a < i {
                        assert(keys@[a] == pre[a]);
                    } else {
                        assert(keys@[a] == pre[a + 1]);
                    }
                    if b < i {
                        assert(keys@[b] == pre[b]);
                    } else {
                        assert(keys@[b] == pre[b + 1]);
                    }
                }
                assert(keys@.no_duplicates());
                assert forall|j: u64| #[trigger] keys@.contains(j) implies (pre.contains(j) && j
                    != k) by {
                    let t = choose|t: int| 0 <= t < keys@.len() && keys@[t] == j;
                    let t0 = if t < i { t } else { t + 1 };
                    assert(pre[t0] == j);
                    assert(t0 != i);
                    assert(pre[i as int] == k);
                }
                assert forall|j: u64| pre.contains(j) && j != k implies keys@.contains(j) by {
                    let t0 = choose|t0: int| 0 <= t0 < pre.len() && pre[t0] == j;
                    assert(t0 != i);
                    let t = if t0 < i { t0 } else { t0 - 1 };
                    assert(keys@[t] == j);
                }
            }
            return ;
        }
        i = i + 1;
    }
    proof {
        assert(!keys@.contains(k));
    }
}

impl World {
    /// Flags the loaded chunk at `np` for a mesh rebuild, if present.
    fn mark_chunk_for_rebuild(&mut self, np: ChunkPosition)
        requires
            old(self).wf(),
        ensures
            final(self).wf(),
            final(self)@.chunks == spec_mark_one(old(self)@.chunks, spec_pos_key(np)),
            final(self)@.in_flight == old(self)@.in_flight,
            final(self)@.render_distance == old(self)@.render_distance,
            final(self)@.last_player_chunk == old(self)@.last_player_chunk,
            final(self).loaded_keys == old(self).loaded_keys,
            final(self).render_distance == old(self).render_distance,
            final(self).last_player_chunk == old(self).last_player_chunk,
    {
        let k = pos_key(np);
        match self.chunks.remove(&k) {
            Some(mut c) => {
                c.need_rebuilt = true;
                self.chunks.insert(k, c);
                proof {
                    assert(self.chunks@ =~= old(self).chunks@.insert(
                        k,
                        self.chunks@[k],
                    ));
                    assert(self@.chunks =~= spec_mark_one(old(self)@.chunks, k));
                }
            },
            None => {
                proof {
                    assert(self@.chunks =~= spec_mark_one(old(self)@.chunks, k));
                }
            },
        }
    }

    /// Flags the loaded cardinal neighbors of `position` for rebuild.
    #[verifier::rlimit(40)]
    fn mark_neighbors_for_rebuild(&mut self, position: ChunkPosition)
        requires
            old(self).wf(),
            pos_in_range(position),
        ensures
            final(self).wf(),
            final(self)@.chunks == spec_mark_neighbors(old(self)@.chunks, position),
            final(self)@.in_flight == old(self)@.in_flight,
            final(self)@.render_distance == old(self)@.render_distance,
            final(self)@.last_player_chunk == old(self)@.last_player_chunk,
            final(self).loaded_keys == old(self).loaded_keys,
            final(self).render_distance == old(self).render_distance,
            final(self).last_player_chunk == old(self).last_player_chunk,
    {
        self.mark_chunk_for_rebuild(ChunkPosition::new(position.x - 1, position.z));
        self.mark_chunk_for_rebuild(ChunkPosition::new(position.x + 1, position.z));
        self.mark_chunk_for_rebuild(ChunkPosition::new(position.x, position.z - 1));
        self.mark_chunk_for_rebuild(ChunkPosition::new(position.x, position.z + 1));
        proof {
            assert(self@.chunks =~= spec_mark_neighbors(old(self)@.chunks, position));
        }
    }

    /// Unloads the chunk at `position`: removes it from the loaded map and
    /// flags its currently loaded cardinal neighbors for rebuild — exactly
    /// those, nothing further away. Returns the removed chunk so the
    /// caller can release its render registration.
    pub fn unload_chunk(&mut self, position: ChunkPosition) -> (removed: Option<Chunk>)
        requires
            old(self).wf(),
            pos_in_range(position),
        ensures
            final(self).wf(),
            final(self)@ == spec_unload(old(self)@, position),
            match removed {
                Some(c) => old(self)@.loaded(position) && c@ == old(self)@.chunks[spec_pos_key(
                    position,
                )],
                None => !old(self)@.loaded(position),
            },
    {
        let k = pos_key(position);
        match self.chunks.remove(&k) {
            Some(c) => {
                remove_key(&mut self.loaded_keys, k);
                proof {
                    assert(self@.chunks =~= old(self)@.chunks.remove(k));
                }
                self.mark_neighbors_for_rebuild(position);
                proof {
                    assert(self@ == spec_unload(old(self)@, position));
                }
                Some(c)
            },
            None => {
                proof {
                    assert(self@.chunks =~= old(self)@.chunks);
                    assert(self@ == spec_unload(old(self)@, position));
                }
                None
            },
        }
    }
}


/// Whether `p` lies within the circular (squared-distance) radius `rd`
/// around `pc`.
pub open spec fn within_distance(p: ChunkPosition, pc: ChunkPosition, rd: int) -> bool {
    (p.x - pc.x) * (p.x - pc.x) + (p.z - pc.z) * (p.z - pc.z) <= rd * rd
}

/// Whether `p` belongs to the world's current desired set: within render
/// distance of the last evaluated viewpoint chunk. Before any evaluation
/// there is no desired set.
pub open spec fn in_desired_set(m: WorldModel, p: ChunkPosition) -> bool {
    match m.last_player_chunk {
        Some(pc) => within_distance(p, pc, m.render_distance as int),
        None => false,
    }
}

/// Decides the circular render-distance test exactly.
pub fn within_render_distance(p: &ChunkPosition, pc: &ChunkPosition, rd: u32) -> (r: bool)
    ensures
        r == within_distance(*p, *pc, rd as int),
{
    let dx: i128 = p.x as i128 - pc.x as i128;
    let dz: i128 = p.z as i128 - pc.z as i128;
    let rdl: i128 = rd as i128;
    proof {
        assert(0 <= dx * dx <= 0x1_0000_0000_0000_0000) by (nonlinear_arith)
            requires
                -0x1_0000_0000 <= dx <= 0x1_0000_0000,
        ;
        assert(0 <= dz * dz <= 0x1_0000_0000_0000_0000) by (nonlinear_arith)
            requires
                -0x1_0000_0000 <= dz <= 0x1_0000_0000,
        ;
        assert(0 <= rdl * rdl <= 0x1_0000_0000_0000_0000) by (nonlinear_arith)
            requires
                0 <= rdl <= 0x1_0000_0000,
        ;
    }
    dx * dx + dz * dz <= rdl * rdl
}

/// A completed chunk as it enters the loaded map: its mesh built against
/// the chunks loaded at drain time, its dirty flag cleared.
pub open spec fn spec_integrated_chunk(
    c: ChunkModel,
    chunks: Map<u64, ChunkModel>,
) -> ChunkModel {
    ChunkModel {
        mesh: Some(
            crate::mesh::MeshModel {
                vertices: crate::mesh::mesh_vertices(c.blocks, c.position, blocks_of(chunks)),
                indices: crate::mesh::mesh_indices(c.blocks, c.position, blocks_of(chunks)),
            },
        ),
        need_rebuilt: false,
        ..c
    }
}

/// The drain transition for one completed chunk: its request always stops
/// being in flight; if its position is still desired, the chunk is meshed
/// against the currently loaded neighbors, inserted, and its loaded
/// cardinal neighbors are flagged for rebuild; otherwise it is discarded.
pub open spec fn spec_integrate(m: WorldModel, c: ChunkModel) -> WorldModel {
    let key = spec_pos_key(c.position);
    let m1 = WorldModel { in_flight: m.in_flight.remove(key), ..m };
    if in_desired_set(m, c.position) {
        WorldModel {
            chunks: spec_mark_neighbors(m1.chunks, c.position).insert(
                key,
                spec_integrated_chunk(c, m.chunks),
            ),
            ..m1
        }
    } else {
        m1
    }
}

/// The drain transition for a whole batch, completions applied in order.
pub open spec fn spec_integrate_all(m: WorldModel, cs: Seq<ChunkModel>) -> WorldModel
    decreases cs.len(),
{
    if cs.len() == 0 {
        m
    } else {
        spec_integrate_all(spec_integrate(m, cs[0]), cs.drop_first())
    }
}

/// The positions of the batch's chunks that are accepted, in drain order.
pub open spec fn spec_accepted_positions(m: WorldModel, cs: Seq<ChunkModel>) -> Seq<ChunkPosition>
    decreases cs.len(),
{
    if cs.len() == 0 {
        Seq::empty()
    } else {
        (if in_desired_set(m, cs[0].position) {
            seq![cs[0].position]
        } else {
            Seq::empty()
        }) + spec_accepted_positions(spec_integrate(m, cs[0]), cs.drop_first())
    }
}

impl World {
    /// Accepts one completed chunk from the generation pipeline: clears its
    /// in-flight mark, and, if its position is still desired, builds its
    /// mesh against the currently loaded neighbors, inserts it, and flags
    /// its loaded cardinal neighbors for rebuild. A completion whose
    /// position has left the desired set is discarded. Returns whether the
    /// chunk was accepted (and so must be registered for rendering).
    pub fn integrate_chunk(&mut self, chunk: Chunk) -> (accepted: bool)
        requires
            old(self).wf(),
            chunk.wf(),
            pos_in_range(chunk.position),
        ensures
            final(self).wf(),
            final(self)@ == spec_integrate(old(self)@, chunk@),
            accepted == in_desired_set(old(self)@, chunk@.position),
    {
        let k = pos_key(chunk.position);
        self.in_flight.remove(&k);
        proof {
            assert(self@.in_flight =~= old(self)@.in_flight.remove(k));
            assert(self@.chunks =~= old(self)@.chunks);
        }
        let accept = match &self.last_player_chunk {
            Some(pc) => within_render_distance(&chunk.position, pc, self.render_distance),
            None => false,
        };
        if !accept {
            proof {
                assert(self@ == spec_integrate(old(self)@, chunk@));
            }
            return false;
        }
        let ghost chunk0 = chunk@;
        let mut chunk = chunk;
        chunk.build_mesh(self);
        chunk.need_rebuilt = false;
        proof {
            assert(chunk@ == spec_integrated_chunk(chunk0, old(self)@.chunks));
        }
        self.mark_neighbors_for_rebuild(chunk.position);
        let ghost keys_pre = self.loaded_keys@;
        let newly = !self.chunks.contains_key(&k);
        if newly {
            proof {
                assert(!keys_pre.contains(k));
            }
            self.loaded_keys.push(k);
            proof {
                assert(self.loaded_keys@[keys_pre.len() as int] == k);
                assert(self.loaded_keys@.contains(k));
                assert forall|a: int, b: int|
                    0 <= a < b < self.loaded_keys@.len() implies self.loaded_keys@[a]
                    != self.loaded_keys@[b] by {
                    if b < keys_pre.len() {
                        assert(keys_pre[a] != keys_pre[b]);
                    } else {
                        assert(self.loaded_keys@[a] == keys_pre[a]);
                        assert(keys_pre.contains(keys_pre[a]));
                    }
                }
                assert(self.loaded_keys@.no_duplicates());
            }
        }
        let ghost keys_mid = self.loaded_keys@;
        let ghost chunks_mid = self.chunks@;
        self.chunks.insert(k, chunk);
        proof {
            assert(self@.chunks =~= spec_mark_neighbors(old(self)@.chunks, chunk0.position)
                .insert(k, spec_integrated_chunk(chunk0, old(self)@.chunks)));
            assert(self@ == spec_integrate(old(self)@, chunk0));
            assert(keys_mid.contains(k));
            assert forall|j: u64| #[trigger] self.chunks@.contains_key(j)
                implies self.loaded_keys@.contains(j) by {
                if j != k {
                    assert(chunks_mid.contains_key(j));
                    assert(keys_pre.contains(j));
                    let t = choose|t: int| 0 <= t < keys_pre.len() && keys_pre[t] == j;
                    assert(keys_mid[t] == j);
                    assert(keys_mid.contains(j));
                }
            }
            assert forall|j: u64| #[trigger] self.loaded_keys@.contains(j)
                implies self.chunks@.contains_key(j) by {
                if j != k {
                    if newly {
                        let t = choose|t: int|
                            0 <= t < keys_mid.len() && keys_mid[t] == j;
                        assert(keys_pre[t] == j);
                        assert(keys_pre.contains(j));
                    }
                    assert(chunks_mid.contains_key(j));
                }
            }
        }
        true
    }

    /// Drains a batch of completed chunks into the world, in order: each is
    /// integrated as `integrate_chunk` does. Returns the positions that
    /// were accepted, in drain order, so the caller can register their
    /// meshes for rendering.
    pub fn flush_generated_chunks(&mut self, completed: Vec<Chunk>) -> (registered: Vec<
        ChunkPosition,
    >)
        requires
            old(self).wf(),
            forall|i: int|
                0 <= i < completed@.len() ==> (#[trigger] completed@[i]).wf() && pos_in_range(
                    completed@[i].position,
                ),
        ensures
            final(self).wf(),
            final(self)@ == spec_integrate_all(
                old(self)@,
                completed@.map_values(|c: Chunk| c@),
            ),
            registered@ == spec_accepted_positions(
                old(self)@,
                completed@.map_values(|c: Chunk| c@),
            ),
    {
        let ghost all = completed@.map_values(|c: Chunk| c@);
        let mut registered: Vec<ChunkPosition> = Vec::new();
        let mut completed = completed;
        while completed.len() > 0
            invariant
                self.wf(),
                forall|i: int|
                    0 <= i < completed@.len() ==> (#[trigger] completed@[i]).wf() && pos_in_range(
                        completed@[i].position,
                    ),
                spec_integrate_all(self@, completed@.map_values(|c: Chunk| c@))
                    == spec_integrate_all(old(self)@, all),
                registered@ + spec_accepted_positions(self@, completed@.map_values(|c: Chunk| c@))
                    == spec_accepted_positions(old(self)@, all),
            decreases completed@.len(),
        {
            let ghost rem = completed@.map_values(|c: Chunk| c@);
            let chunk = completed.remove(0);
            proof {
                assert(completed@.map_values(|c: Chunk| c@) =~= rem.drop_first());
                assert(rem[0] == chunk@);
            }
            let ghost m_before = self@;
            let position = chunk.position;
            let accepted = self.integrate_chunk(chunk);
            if accepted {
                registered.push(position);
            }
            proof {
                assert(spec_accepted_positions(m_before, rem) == (if in_desired_set(
                    m_before,
                    chunk@.position,
                ) {
                    seq![chunk@.position]
                } else {
                    Seq::empty()
                }) + spec_accepted_positions(self@, rem.drop_first()));
                assert(registered@ + spec_accepted_positions(
                    self@,
                    completed@.map_values(|c: Chunk| c@),
                ) =~= spec_accepted_positions(old(self)@, all));
            }
        }
        proof {
            assert(completed@.map_values(|c: Chunk| c@) =~= Seq::<ChunkModel>::empty());
            assert(registered@ =~= spec_accepted_positions(old(self)@, all));
        }
        registered
    }
}


/// One row of the desired set: the positions at offset `dx` whose dz
/// offset lies in -rd .. -rd + m - 1 and which pass the circular test,
/// in ascending dz order.
pub open spec fn desired_row(pc: ChunkPosition, rd: int, dx: int, m: nat) -> Seq<ChunkPosition>
    decreases m,
{
    if m == 0 {
        Seq::empty()
    } else {
        let dz = -rd + m - 1;
        desired_row(pc, rd, dx, (m - 1) as nat) + (if dx * dx + dz * dz <= rd * rd {
            seq![ChunkPosition { x: (pc.x + dx) as i32, z: (pc.z + dz) as i32 }]
        } else {
            Seq::empty()
        })
    }
}

/// The first `n` rows of the desired set, dx ascending from -rd.
pub open spec fn desired_rows(pc: ChunkPosition, rd: int, n: nat) -> Seq<ChunkPosition>
    decreases n,
{
    if n == 0 {
        Seq::empty()
    } else {
        desired_rows(pc, rd, (n - 1) as nat) + desired_row(pc, rd, -rd + n - 1, (2 * rd + 1) as nat)
    }
}

/// All positions within render distance `rd` of `pc`, in the order the
/// evaluation enumerates them: dx ascending, then dz ascending.
pub open spec fn desired_list(pc: ChunkPosition, rd: int) -> Seq<ChunkPosition> {
    desired_rows(pc, rd, (2 * rd + 1) as nat)
}

/// The request transition for a whole list of desired positions, in order.
pub open spec fn spec_request_all(m: WorldModel, qs: Seq<ChunkPosition>) -> WorldModel
    decreases qs.len(),
{
    if qs.len() == 0 {
        m
    } else {
        spec_request_all(spec_request(m, qs[0]), qs.drop_first())
    }
}

/// The positions of `qs` for which a new generation request is issued:
/// those neither loaded nor already in flight when their turn comes.
pub open spec fn spec_new_requests(m: WorldModel, qs: Seq<ChunkPosition>) -> Seq<ChunkPosition>
    decreases qs.len(),
{
    if qs.len() == 0 {
        Seq::empty()
    } else {
        (if !m.loaded(qs[0]) && !m.requested(qs[0]) {
            seq![qs[0]]
        } else {
            Seq::empty()
        }) + spec_new_requests(spec_request(m, qs[0]), qs.drop_first())
    }
}

/// The positions of the loaded chunks listed by `ks` that fall outside the
/// desired radius around `pc`, in key-list order.
pub open spec fn undesired_positions(
    m: WorldModel,
    ks: Seq<u64>,
    pc: ChunkPosition,
) -> Seq<ChunkPosition>
    decreases ks.len(),
{
    if ks.len() == 0 {
        Seq::empty()
    } else {
        (if m.chunks.contains_key(ks[0]) && !within_distance(
            m.chunks[ks[0]].position,
            pc,
            m.render_distance as int,
        ) {
            seq![m.chunks[ks[0]].position]
        } else {
            Seq::empty()
        }) + undesired_positions(m, ks.drop_first(), pc)
    }
}

/// The eviction transition for a whole list of positions, in order.
pub open spec fn spec_unload_all(m: WorldModel, ps: Seq<ChunkPosition>) -> WorldModel
    decreases ps.len(),
{
    if ps.len() == 0 {
        m
    } else {
        spec_unload_all(spec_unload(m, ps[0]), ps.drop_first())
    }
}

/// The chunks the eviction list removes, in order.
pub open spec fn spec_evicted(m: WorldModel, ps: Seq<ChunkPosition>) -> Seq<ChunkModel>
    decreases ps.len(),
{
    if ps.len() == 0 {
        Seq::empty()
    } else {
        (if m.loaded(ps[0]) {
            seq![m.chunks[spec_pos_key(ps[0])]]
        } else {
            Seq::empty()
        }) + spec_evicted(spec_unload(m, ps[0]), ps.drop_first())
    }
}

/// The whole per-tick desired-set evaluation: skipped entirely when the
/// viewpoint chunk is unchanged; otherwise every desired position not yet
/// loaded or in flight is requested, and every loaded chunk outside the
/// desired set is unloaded, in the order `keys` lists them.
pub open spec fn spec_evaluate(m: WorldModel, pc: ChunkPosition, keys: Seq<u64>) -> WorldModel {
    if m.last_player_chunk == Some(pc) {
        m
    } else {
        let m1 = WorldModel { last_player_chunk: Some(pc), ..m };
        let m2 = spec_request_all(m1, desired_list(pc, m.render_distance as int));
        spec_unload_all(m2, undesired_positions(m2, keys, pc))
    }
}

/// The generation requests one evaluation issues.
pub open spec fn spec_eval_requests(m: WorldModel, pc: ChunkPosition) -> Seq<ChunkPosition> {
    if m.last_player_chunk == Some(pc) {
        Seq::empty()
    } else {
        let m1 = WorldModel { last_player_chunk: Some(pc), ..m };
        spec_new_requests(m1, desired_list(pc, m.render_distance as int))
    }
}

/// The chunks one evaluation evicts.
pub open spec fn spec_eval_evicted(
    m: WorldModel,
    pc: ChunkPosition,
    keys: Seq<u64>,
) -> Seq<ChunkModel> {
    if m.last_player_chunk == Some(pc) {
        Seq::empty()
    } else {
        let m1 = WorldModel { last_player_chunk: Some(pc), ..m };
        let m2 = spec_request_all(m1, desired_list(pc, m.render_distance as int));
        spec_evicted(m2, undesired_positions(m2, keys, pc))
    }
}

impl World {
    /// The per-tick streaming evaluation around the viewpoint chunk: a
    /// no-op when the viewpoint chunk is unchanged since the last
    /// evaluation; otherwise requests generation of every desired position
    /// neither loaded nor in flight, and unloads every loaded chunk
    /// outside the desired set, flagging its loaded cardinal neighbors for
    /// rebuild. Returns the newly requested positions, for the caller to
    /// submit to the generation pipeline, and the evicted chunks, for the
    /// caller to release their render registrations.
    pub fn update_chunks_around_player(&mut self, player_chunk: ChunkPosition) -> (r: (
        Vec<ChunkPosition>,
        Vec<Chunk>,
    ))
        requires
            old(self).wf(),
            player_chunk.x + old(self).render_distance <= 0x7fff_fffe,
            player_chunk.x - old(self).render_distance >= -0x7fff_ffff,
            player_chunk.z + old(self).render_distance <= 0x7fff_fffe,
            player_chunk.z - old(self).render_distance >= -0x7fff_ffff,
        ensures
            final(self).wf(),
            final(self)@ == spec_evaluate(old(self)@, player_chunk, old(self).loaded_keys@),
            r.0@ == spec_eval_requests(old(self)@, player_chunk),
            r.1@.map_values(|c: Chunk| c@) == spec_eval_evicted(
                old(self)@,
                player_chunk,
                old(self).loaded_keys@,
            ),
    {
        match &self.last_player_chunk {
            Some(last) => {
                if last.x == player_chunk.x && last.z == player_chunk.z {
                    proof {
                        assert(old(self).last_player_chunk == Some(player_chunk));
                        let empty_models = Seq::<Chunk>::empty().map_values(|c: Chunk| c@);
                        assert(empty_models =~= Seq::<ChunkModel>::empty());
                    }
                    return (Vec::new(), Vec::new());
                }
            },
            None => {},
        }
        self.last_player_chunk = Some(player_chunk);
        let ghost m1 = self@;
        proof {
            assert(self@.chunks =~= old(self)@.chunks);
        }

        let rd: u32 = self.render_distance;
        let side: u64 = 2 * (rd as u64) + 1;
        let mut desired: Vec<ChunkPosition> = Vec::new();
        let mut xi: u64 = 0;
        while xi < side
            invariant
                xi <= side,
                side == 2 * (rd as u64) + 1,
                player_chunk.x + rd <= 0x7fff_fffe,
                player_chunk.x - rd >= -0x7fff_ffff,
                player_chunk.z + rd <= 0x7fff_fffe,
                player_chunk.z - rd >= -0x7fff_ffff,
                desired@ == desired_rows(player_chunk, rd as int, xi as nat),
            decreases side - xi,
        {
            let dx: i64 = xi as i64 - rd as i64;
            let mut zi: u64 = 0;
            while zi < side
                invariant
                    xi < side,
                    zi <= side,
                    side == 2 * (rd as u64) + 1,
                    dx == xi - rd,
                    player_chunk.x + rd <= 0x7fff_fffe,
                    player_chunk.x - rd >= -0x7fff_ffff,
                    player_chunk.z + rd <= 0x7fff_fffe,
                    player_chunk.z - rd >= -0x7fff_ffff,
                    desired@ == desired_rows(player_chunk, rd as int, xi as nat) + desired_row(
                        player_chunk,
                        rd as int,
                        dx as int,
                        zi as nat,
                    ),
                decreases side - zi,
            {
                let dz: i64 = zi as i64 - rd as i64;
                let dxw: i128 = dx as i128;
                let dzw: i128 = dz as i128;
                let rdw: i128 = rd as i128;
                proof {
                    assert(0 <= dxw * dxw <= 0x1_0000_0000_0000_0000) by (nonlinear_arith)
                        requires
                            -0x1_0000_0000 <= dxw <= 0x1_0000_0000,
                    ;
                    assert(0 <= dzw * dzw <= 0x1_0000_0000_0000_0000) by (nonlinear_arith)
                        requires
                            -0x1_0000_0000 <= dzw <= 0x1_0000_0000,
                    ;
                    assert(0 <= rdw * rdw <= 0x1_0000_0000_0000_0000) by (nonlinear_arith)
                        requires
                            0 <= rdw <= 0x1_0000_0000,
                    ;
                }
                if dxw * dxw + dzw * dzw <= rdw * rdw {
                    let qx: i64 = player_chunk.x as i64 + dx;
                    let qz: i64 = player_chunk.z as i64 + dz;
                    desired.push(ChunkPosition::new(qx as i32, qz as i32));
                }
                proof {
                    assert(desired@ == desired_rows(player_chunk, rd as int, xi as nat)
                        + desired_row(player_chunk, rd as int, dx as int, (zi + 1) as nat));
                }
                zi = zi + 1;
            }
            proof {
                assert(desired@ == desired_rows(player_chunk, rd as int, (xi + 1) as nat));
            }
            xi = xi + 1;
        }
        proof {
            assert(desired@ == desired_list(player_chunk, rd as int));
        }

        let ghost dl = desired@;
        let mut requests: Vec<ChunkPosition> = Vec::new();
        proof {
            assert(dl.skip(0) =~= dl);
            assert(Seq::<ChunkPosition>::empty() + spec_new_requests(self@, dl)
                =~= spec_new_requests(self@, dl));
        }
        let mut i: usize = 0;
        while i < desired.len()
            invariant
                i <= desired@.len(),
                desired@ == dl,
                self.wf(),
                self.loaded_keys == old(self).loaded_keys,
                self@.chunks == m1.chunks,
                self@.render_distance == m1.render_distance,
                self@.last_player_chunk == m1.last_player_chunk,
                spec_request_all(self@, dl.skip(i as int)) == spec_request_all(m1, dl),
                requests@ + spec_new_requests(self@, dl.skip(i as int)) == spec_new_requests(
                    m1,
                    dl,
                ),
            decreases desired@.len() - i,
        {
            let q = desired[i];
            proof {
                assert(dl.skip(i as int)[0] == q);
                assert(dl.skip(i as int).drop_first() =~= dl.skip(i as int + 1));
            }
            let ghost m_before = self@;
            let issued = self.load_chunk(q);
            if issued {
                requests.push(q);
            }
            proof {
                assert(spec_new_requests(m_before, dl.skip(i as int)) == (if !m_before.loaded(q)
                    && !m_before.requested(q) {
                    seq![q]
                } else {
                    Seq::empty()
                }) + spec_new_requests(self@, dl.skip(i as int + 1)));
                assert(requests@ + spec_new_requests(self@, dl.skip(i as int + 1))
                    =~= spec_new_requests(m1, dl));
            }
            i = i + 1;
        }
        proof {
            assert(dl.skip(dl.len() as int) =~= Seq::<ChunkPosition>::empty());
            assert(requests@ =~= spec_new_requests(m1, dl));
            assert(self@ == spec_request_all(m1, dl));
        }

        let ghost m2 = self@;
        let ghost keys0 = self.loaded_keys@;
        let mut evict: Vec<ChunkPosition> = Vec::new();
        proof {
            assert(keys0.skip(0) =~= keys0);
            assert(Seq::<ChunkPosition>::empty() + undesired_positions(m2, keys0, player_chunk)
                =~= undesired_positions(m2, keys0, player_chunk));
        }
        let n = self.loaded_keys.len();
        let mut i: usize = 0;
        while i < n
            invariant
                i <= n,
                n == self.loaded_keys@.len(),
                self.wf(),
                self@ == m2,
                rd == self.render_distance,
                self.loaded_keys@ == keys0,
                evict@ + undesired_positions(m2, keys0.skip(i as int), player_chunk)
                    == undesired_positions(m2, keys0, player_chunk),
                forall|j: int| 0 <= j < evict@.len() ==> pos_in_range(#[trigger] evict@[j]),
            decreases n - i,
        {
            let k = self.loaded_keys[i];
            proof {
                assert(self.loaded_keys@.contains(k));
                assert(keys0.skip(i as int)[0] == k);
                assert(keys0.skip(i as int).drop_first() =~= keys0.skip(i as int + 1));
            }
            proof {
                assert(self.chunks@.contains_key(k));
                assert(m2.chunks.contains_key(k));
            }
            let c = self.chunks.get(&k);
            match c {
                Some(c) => {
                    let p = c.position;
                    proof {
                        assert(m2.chunks[k] == self.chunks@[k]@);
                        assert(m2.chunks[k].position == p);
                    }
                    let keep = within_render_distance(&p, &player_chunk, rd);
                    if !keep {
                        evict.push(p);
                    }
                    proof {
                        assert(evict@ + undesired_positions(
                            m2,
                            keys0.skip(i as int + 1),
                            player_chunk,
                        ) =~= undesired_positions(m2, keys0, player_chunk));
                    }
                },
                None => {
                    proof {
                        assert(false);
                    }
                },
            }
            i = i + 1;
        }
        proof {
            assert(keys0.skip(keys0.len() as int) =~= Seq::<u64>::empty());
            assert(evict@ =~= undesired_positions(m2, keys0, player_chunk));
        }

        let ghost el = evict@;
        let mut evicted: Vec<Chunk> = Vec::new();
        proof {
            assert(el.skip(0) =~= el);
            assert(Seq::<Chunk>::empty().map_values(|c: Chunk| c@) + spec_evicted(m2, el)
                =~= spec_evicted(m2, el));
        }
        let mut i: usize = 0;
        while i < evict.len()
            invariant
                i <= evict@.len(),
                evict@ == el,
                self.wf(),
                forall|j: int| 0 <= j < el.len() ==> pos_in_range(#[trigger] el[j]),
                spec_unload_all(self@, el.skip(i as int)) == spec_unload_all(m2, el),
                evicted@.map_values(|c: Chunk| c@) + spec_evicted(self@, el.skip(i as int))
                    == spec_evicted(m2, el),
            decreases evict@.len() - i,
        {
            let p = evict[i];
            proof {
                assert(el.skip(i as int)[0] == p);
                assert(el.skip(i as int).drop_first() =~= el.skip(i as int + 1));
            }
            let ghost m_before = self@;
            let removed = self.unload_chunk(p);
            match removed {
                Some(c) => {
                    evicted.push(c);
                    proof {
                        assert(evicted@.map_values(|c: Chunk| c@) + spec_evicted(
                            self@,
                            el.skip(i as int + 1),
                        ) =~= spec_evicted(m2, el));
                    }
                },
                None => {
                    proof {
                        assert(evicted@.map_values(|c: Chunk| c@) + spec_evicted(
                            self@,
                            el.skip(i as int + 1),
                        ) =~= spec_evicted(m2, el));
                    }
                },
            }
            i = i + 1;
        }
        proof {
            assert(el.skip(el.len() as int) =~= Seq::<ChunkPosition>::empty());
            assert(evicted@.map_values(|c: Chunk| c@) =~= spec_evicted(m2, el));
            assert(self@ == spec_evaluate(old(self)@, player_chunk, old(self).loaded_keys@));
        }
        (requests, evicted)
    }
}


/// One rebuild: the flagged chunk's mesh is rebuilt against the other
/// loaded chunks and its flag cleared; an absent key changes nothing.
pub open spec fn spec_rebuild_one(chunks: Map<u64, ChunkModel>, k: u64) -> Map<u64, ChunkModel> {
    if chunks.contains_key(k) {
        chunks.insert(k, spec_integrated_chunk(chunks[k], chunks.remove(k)))
    } else {
        chunks
    }
}

/// The rebuild pass over a list of keys, in order.
pub open spec fn spec_rebuild_all(chunks: Map<u64, ChunkModel>, ks: Seq<u64>) -> Map<
    u64,
    ChunkModel,
>
    decreases ks.len(),
{
    if ks.len() == 0 {
        chunks
    } else {
        spec_rebuild_all(spec_rebuild_one(chunks, ks[0]), ks.drop_first())
    }
}

/// The keys in `ks` whose chunks are flagged for rebuild.
pub open spec fn flagged_keys(chunks: Map<u64, ChunkModel>, ks: Seq<u64>) -> Seq<u64>
    decreases ks.len(),
{
    if ks.len() == 0 {
        Seq::empty()
    } else {
        (if chunks.contains_key(ks[0]) && chunks[ks[0]].need_rebuilt {
            seq![ks[0]]
        } else {
            Seq::empty()
        }) + flagged_keys(chunks, ks.drop_first(), )
    }
}

/// The positions of the chunks flagged for rebuild, in key-list order.
pub open spec fn flagged_positions(chunks: Map<u64, ChunkModel>, ks: Seq<u64>) -> Seq<
    ChunkPosition,
>
    decreases ks.len(),
{
    if ks.len() == 0 {
        Seq::empty()
    } else {
        (if chunks.contains_key(ks[0]) && chunks[ks[0]].need_rebuilt {
            seq![chunks[ks[0]].position]
        } else {
            Seq::empty()
        }) + flagged_positions(chunks, ks.drop_first())
    }
}

impl World {
    /// The rebuild pass: every chunk flagged for rebuild gets its mesh
    /// rebuilt against the current neighbor state and its flag cleared.
    /// Returns the rebuilt positions so the caller can swap their render
    /// registrations.
    pub fn rebuild_chunk_meshes(&mut self) -> (rebuilt: Vec<ChunkPosition>)
        requires
            old(self).wf(),
        ensures
            final(self).wf(),
            final(self)@.chunks == spec_rebuild_all(
                old(self)@.chunks,
                flagged_keys(old(self)@.chunks, old(self).loaded_keys@),
            ),
            final(self)@.in_flight == old(self)@.in_flight,
            final(self)@.render_distance == old(self)@.render_distance,
            final(self)@.last_player_chunk == old(self)@.last_player_chunk,
            final(self).loaded_keys@ == old(self).loaded_keys@,
            rebuilt@ == flagged_positions(old(self)@.chunks, old(self).loaded_keys@),
    {
        let ghost m0 = self@;
        let ghost keys0 = self.loaded_keys@;
        let mut flagged: Vec<u64> = Vec::new();
        let mut rebuilt: Vec<ChunkPosition> = Vec::new();
        proof {
            assert(keys0.skip(0) =~= keys0);
            assert(Seq::<u64>::empty() + flagged_keys(m0.chunks, keys0)
                =~= flagged_keys(m0.chunks, keys0));
            assert(Seq::<ChunkPosition>::empty() + flagged_positions(m0.chunks, keys0)
                =~= flagged_positions(m0.chunks, keys0));
        }
        let n = self.loaded_keys.len();
        let mut i: usize = 0;
        while i < n
            invariant
                i <= n,
                n == self.loaded_keys@.len(),
                self.wf(),
                self@ == m0,
                self.loaded_keys@ == keys0,
                flagged@ + flagged_keys(m0.chunks, keys0.skip(i as int)) == flagged_keys(
                    m0.chunks,
                    keys0,
                ),
                rebuilt@ + flagged_positions(m0.chunks, keys0.skip(i as int)) == flagged_positions(
                    m0.chunks,
                    keys0,
                ),
            decreases n - i,
        {
            let k = self.loaded_keys[i];
            proof {
                assert(self.loaded_keys@.contains(k));
                assert(self.chunks@.contains_key(k));
                assert(m0.chunks.contains_key(k));
                assert(keys0.skip(i as int)[0] == k);
                assert(keys0.skip(i as int).drop_first() =~= keys0.skip(i as int + 1));
            }
            match self.chunks.get(&k) {
                Some(c) => {
                    proof {
                        assert(m0.chunks[k] == self.chunks@[k]@);
                    }
                    if c.need_rebuilt {
                        flagged.push(k);
                        rebuilt.push(c.position);
                    }
                    proof {
                        assert(flagged@ + flagged_keys(m0.chunks, keys0.skip(i as int + 1))
                            =~= flagged_keys(m0.chunks, keys0));
                        assert(rebuilt@ + flagged_positions(m0.chunks, keys0.skip(i as int + 1))
                            =~= flagged_positions(m0.chunks, keys0));
                    }
                },
                None => {
                    proof {
                        assert(false);
                    }
                },
            }
            i = i + 1;
        }
        proof {
            assert(keys0.skip(keys0.len() as int) =~= Seq::<u64>::empty());
            assert(flagged@ =~= flagged_keys(m0.chunks, keys0));
            assert(rebuilt@ =~= flagged_positions(m0.chunks, keys0));
        }

        let ghost fl = flagged@;
        proof {
            assert(fl.skip(0) =~= fl);
        }
        let mut i: usize = 0;
        while i < flagged.len()
            invariant
                i <= flagged@.len(),
                flagged@ == fl,
                self.wf(),
                self@.in_flight == m0.in_flight,
                self@.render_distance == m0.render_distance,
                self@.last_player_chunk == m0.last_player_chunk,
                self.loaded_keys@ == keys0,
                spec_rebuild_all(self@.chunks, fl.skip(i as int)) == spec_rebuild_all(
                    m0.chunks,
                    fl,
                ),
            decreases flagged@.len() - i,
        {
            let k = flagged[i];
            proof {
                assert(fl.skip(i as int)[0] == k);
                assert(fl.skip(i as int).drop_first() =~= fl.skip(i as int + 1));
            }
            let ghost cur = self@.chunks;
            match self.chunks.remove(&k) {
                Some(mut c) => {
                    proof {
                        assert(cur.contains_key(k));
                        assert(cur[k] == c@);
                        assert(self@.chunks =~= cur.remove(k));
                        assert forall|j: u64| #[trigger] self.chunks@.contains_key(j)
                            implies self.chunks@[j].wf() && spec_pos_key(self.chunks@[j].position)
                            == j && pos_in_range(self.chunks@[j].position) by {}
                    }
                    c.build_mesh(self);
                    c.need_rebuilt = false;
                    proof {
                        assert(c@ == spec_integrated_chunk(cur[k], cur.remove(k)));
                    }
                    self.chunks.insert(k, c);
                    proof {
                        assert(self@.chunks =~= spec_rebuild_one(cur, k));
                        assert forall|j: u64| #[trigger] self.loaded_keys@.contains(j)
                            implies self.chunks@.contains_key(j) by {}
                    }
                },
                None => {
                    proof {
                        assert(self@.chunks =~= spec_rebuild_one(cur, k));
                    }
                },
            }
            i = i + 1;
        }
        proof {
            assert(fl.skip(fl.len() as int) =~= Seq::<u64>::empty());
            assert(self@.chunks == spec_rebuild_all(m0.chunks, fl));
        }
        rebuilt
    }
}


/// Requesting positions never changes the loaded chunks, the radius, or
/// the recorded viewpoint; it only grows the in-flight set.
pub proof fn lemma_request_all_frame(m: WorldModel, qs: Seq<ChunkPosition>)
    ensures
        spec_request_all(m, qs).chunks == m.chunks,
        spec_request_all(m, qs).render_distance == m.render_distance,
        spec_request_all(m, qs).last_player_chunk == m.last_player_chunk,
    decreases qs.len(),
{
    if qs.len() > 0 {
        lemma_request_all_frame(spec_request(m, qs[0]), qs.drop_first());
    }
}

/// Unloading positions never changes the in-flight set, the radius, or
/// the recorded viewpoint.
pub proof fn lemma_unload_all_frame(m: WorldModel, ps: Seq<ChunkPosition>)
    ensures
        spec_unload_all(m, ps).in_flight == m.in_flight,
        spec_unload_all(m, ps).render_distance == m.render_distance,
        spec_unload_all(m, ps).last_player_chunk == m.last_player_chunk,
    decreases ps.len(),
{
    if ps.len() > 0 {
        lemma_unload_all_frame(spec_unload(m, ps[0]), ps.drop_first());
    }
}

/// Streaming evaluation is idempotent: an evaluation records the viewpoint
/// chunk it ran for, and a second evaluation with the unchanged viewpoint
/// chunk issues zero generation requests and changes nothing at all.
pub proof fn lemma_streaming_idempotent(
    m: WorldModel,
    pc: ChunkPosition,
    keys: Seq<u64>,
    keys_again: Seq<u64>,
)
    ensures
        spec_evaluate(m, pc, keys).last_player_chunk == Some(pc),
        spec_eval_requests(spec_evaluate(m, pc, keys), pc) == Seq::<ChunkPosition>::empty(),
        spec_eval_evicted(spec_evaluate(m, pc, keys), pc, keys_again) == Seq::<
            ChunkModel,
        >::empty(),
        spec_evaluate(spec_evaluate(m, pc, keys), pc, keys_again) == spec_evaluate(m, pc, keys),
{
    if m.last_player_chunk != Some(pc) {
        let m1 = WorldModel { last_player_chunk: Some(pc), ..m };
        let m2 = spec_request_all(m1, desired_list(pc, m.render_distance as int));
        lemma_request_all_frame(m1, desired_list(pc, m.render_distance as int));
        lemma_unload_all_frame(m2, undesired_positions(m2, keys, pc));
    }
}

/// Unloading a loaded chunk removes exactly it from the loaded map and
/// flags exactly its currently loaded cardinal neighbors for rebuild:
/// every other chunk, in particular everything further away, is untouched.
pub proof fn lemma_eviction_marks_neighbors(m: WorldModel, p: ChunkPosition)
    requires
        m.loaded(p),
    ensures
        !spec_unload(m, p).chunks.contains_key(spec_pos_key(p)),
        forall|k: u64| #[trigger]
            spec_unload(m, p).chunks.contains_key(k) <==> (m.chunks.contains_key(k) && k
                != spec_pos_key(p)),
        forall|k: u64|
            spec_unload(m, p).chunks.contains_key(k) && is_cardinal_key(p, k) ==> (
            #[trigger] spec_unload(m, p).chunks[k]) == mark_rebuild(m.chunks[k]),
        forall|k: u64|
            spec_unload(m, p).chunks.contains_key(k) && !is_cardinal_key(p, k) ==> (
            #[trigger] spec_unload(m, p).chunks[k]) == m.chunks[k],
{
}

/// A key is a cardinal-neighbor key of `p` exactly when it packs a
/// position cardinally adjacent to `p`: flagging by key flags exactly the
/// four adjacent positions, nothing further away.
pub proof fn lemma_cardinal_key_is_cardinal_position(p: ChunkPosition, q: ChunkPosition)
    requires
        pos_in_range(p),
    ensures
        is_cardinal_key(p, spec_pos_key(q)) <==> ((q.x == p.x - 1 && q.z == p.z) || (q.x == p.x
            + 1 && q.z == p.z) || (q.x == p.x && q.z == p.z - 1) || (q.x == p.x && q.z == p.z
            + 1)),
{
    let west = ChunkPosition { x: (p.x - 1) as i32, z: p.z };
    let east = ChunkPosition { x: (p.x + 1) as i32, z: p.z };
    let north = ChunkPosition { x: p.x, z: (p.z - 1) as i32 };
    let south = ChunkPosition { x: p.x, z: (p.z + 1) as i32 };
    assert(spec_pos_key(west) == key_of_coords(p.x - 1, p.z as int));
    assert(spec_pos_key(east) == key_of_coords(p.x + 1, p.z as int));
    assert(spec_pos_key(north) == key_of_coords(p.x as int, p.z - 1));
    assert(spec_pos_key(south) == key_of_coords(p.x as int, p.z + 1));
    if is_cardinal_key(p, spec_pos_key(q)) {
        if spec_pos_key(q) == spec_pos_key(west) {
            lemma_pos_key_injective(q, west);
        } else if spec_pos_key(q) == spec_pos_key(east) {
            lemma_pos_key_injective(q, east);
        } else if spec_pos_key(q) == spec_pos_key(north) {
            lemma_pos_key_injective(q, north);
        } else {
            lemma_pos_key_injective(q, south);
        }
    }
}

/// State exclusivity: under the world invariant, no position is ever both
/// loaded and in flight.
pub proof fn lemma_state_exclusivity(w: World, p: ChunkPosition)
    requires
        w.wf(),
    ensures
        !(w@.loaded(p) && w@.requested(p)),
{
    let k = spec_pos_key(p);
    if w@.chunks.contains_key(k) {
        assert(w.chunks@.contains_key(k));
    }
}

/// With render distance zero, the desired set is exactly the viewpoint's
/// own chunk position.
pub proof fn lemma_render_distance_zero(pc: ChunkPosition)
    ensures
        desired_list(pc, 0) == seq![pc],
{
    assert(desired_row(pc, 0, 0, 0nat) =~= Seq::<ChunkPosition>::empty());
    assert((pc.x + 0) as i32 == pc.x);
    assert((pc.z + 0) as i32 == pc.z);
    assert(desired_row(pc, 0, 0, 1nat) =~= seq![pc]);
    assert(desired_rows(pc, 0, 0nat) =~= Seq::<ChunkPosition>::empty());
    assert(desired_rows(pc, 0, 1nat) =~= seq![pc]);
}


/// A number whose square is at most the square of a nonnegative bound
/// lies between the bound's negation and the bound.
proof fn lemma_square_bound(a: int, r: int)
    requires
        0 <= r,
        a * a <= r * r,
    ensures
        -r <= a <= r,
{
    assert(-r <= a <= r) by (nonlinear_arith)
        requires
            0 <= r,
            a * a <= r * r,
    ;
}

/// Membership in one desired-set row: exactly the positions at x offset
/// `dx` whose z offset lies in the enumerated range and passes the
/// circular test.
proof fn lemma_row_members(pc: ChunkPosition, rd: int, dx: int, m: nat, q: ChunkPosition)
    requires
        0 <= rd,
        m <= 2 * rd + 1,
        -rd <= dx <= rd,
        pc.x + rd <= 0x7fff_fffe,
        pc.x - rd >= -0x7fff_ffff,
        pc.z + rd <= 0x7fff_fffe,
        pc.z - rd >= -0x7fff_ffff,
    ensures
        desired_row(pc, rd, dx, m).contains(q) <==> (q.x == pc.x + dx && -rd <= q.z - pc.z < -rd
            + m && dx * dx + (q.z - pc.z) * (q.z - pc.z) <= rd * rd),
    decreases m,
{
    broadcast use vstd::seq_lib::lemma_seq_concat_contains_all_elements;

    if m > 0 {
        lemma_row_members(pc, rd, dx, (m - 1) as nat, q);
        let dz = -rd + m - 1;
        if dx * dx + dz * dz <= rd * rd {
            let e = ChunkPosition { x: (pc.x + dx) as i32, z: (pc.z + dz) as i32 };
            assert(e.x == pc.x + dx && e.z == pc.z + dz);
            assert(seq![e][0] == e);
            assert(seq![e].contains(q) <==> q == e);
        }
    }
}

/// Membership in the first `n` desired-set rows.
proof fn lemma_rows_members(pc: ChunkPosition, rd: int, n: nat, q: ChunkPosition)
    requires
        0 <= rd,
        n <= 2 * rd + 1,
        pc.x + rd <= 0x7fff_fffe,
        pc.x - rd >= -0x7fff_ffff,
        pc.z + rd <= 0x7fff_fffe,
        pc.z - rd >= -0x7fff_ffff,
    ensures
        desired_rows(pc, rd, n).contains(q) <==> (-rd <= q.x - pc.x < -rd + n && within_distance(
            q,
            pc,
            rd,
        )),
    decreases n,
{
    broadcast use vstd::seq_lib::lemma_seq_concat_contains_all_elements;

    if n > 0 {
        lemma_rows_members(pc, rd, (n - 1) as nat, q);
        let dx = -rd + n - 1;
        lemma_row_members(pc, rd, dx, (2 * rd + 1) as nat, q);
        if q.x == pc.x + dx && within_distance(q, pc, rd) {
            assert(0 <= (q.x - pc.x) * (q.x - pc.x)) by (nonlinear_arith);
            lemma_square_bound(q.z - pc.z, rd);
        }
        if desired_row(pc, rd, dx, (2 * rd + 1) as nat).contains(q) {
            assert(within_distance(q, pc, rd));
        }
    }
}

/// The desired set is exactly the circle: a position appears in the
/// evaluation's enumeration exactly when it lies within render distance of
/// the viewpoint chunk under the squared-distance test.
pub proof fn lemma_desired_set_is_the_circle(pc: ChunkPosition, rd: int, q: ChunkPosition)
    requires
        0 <= rd,
        pc.x + rd <= 0x7fff_fffe,
        pc.x - rd >= -0x7fff_ffff,
        pc.z + rd <= 0x7fff_fffe,
        pc.z - rd >= -0x7fff_ffff,
    ensures
        desired_list(pc, rd).contains(q) <==> within_distance(q, pc, rd),
{
    lemma_rows_members(pc, rd, (2 * rd + 1) as nat, q);
    if within_distance(q, pc, rd) {
        assert(0 <= (q.z - pc.z) * (q.z - pc.z)) by (nonlinear_arith);
        lemma_square_bound(q.x - pc.x, rd);
    }
}


/// A position loaded or in flight stays so while further requests are
/// issued.
proof fn lemma_request_all_monotone(m: WorldModel, qs: Seq<ChunkPosition>, q: ChunkPosition)
    requires
        m.loaded(q) || m.requested(q),
    ensures
        spec_request_all(m, qs).loaded(q) || spec_request_all(m, qs).requested(q),
    decreases qs.len(),
{
    if qs.len() > 0 {
        lemma_request_all_monotone(spec_request(m, qs[0]), qs.drop_first(), q);
    }
}

/// Every position in a request list is loaded or in flight afterwards.
proof fn lemma_request_all_requests(m: WorldModel, qs: Seq<ChunkPosition>, q: ChunkPosition)
    requires
        qs.contains(q),
    ensures
        spec_request_all(m, qs).loaded(q) || spec_request_all(m, qs).requested(q),
    decreases qs.len(),
{
    let i = choose|i: int| 0 <= i < qs.len() && qs[i] == q;
    if i == 0 {
        lemma_request_all_monotone(spec_request(m, q), qs.drop_first(), q);
    } else {
        assert(qs.drop_first()[i - 1] == q);
        lemma_request_all_requests(spec_request(m, qs[0]), qs.drop_first(), q);
    }
}

/// Unloading a list of positions that does not include `q` leaves `q`'s
/// loaded-or-in-flight state intact.
proof fn lemma_unload_all_keeps(m: WorldModel, ps: Seq<ChunkPosition>, q: ChunkPosition)
    requires
        m.loaded(q) || m.requested(q),
        !ps.contains(q),
    ensures
        spec_unload_all(m, ps).loaded(q) || spec_unload_all(m, ps).requested(q),
    decreases ps.len(),
{
    if ps.len() > 0 {
        assert(ps[0] != q);
        if m.loaded(q) && m.loaded(ps[0])
            && spec_pos_key(ps[0]) == spec_pos_key(q) {
            lemma_pos_key_injective(ps[0], q);
        }
        assert(!ps.drop_first().contains(q)) by {
            if ps.drop_first().contains(q) {
                let i = choose|i: int| 0 <= i < ps.drop_first().len() && ps.drop_first()[i] == q;
                assert(ps[i + 1] == q);
            }
        }
        lemma_unload_all_keeps(spec_unload(m, ps[0]), ps.drop_first(), q);
    }
}

/// Unloading never loads anything.
proof fn lemma_unload_all_no_add(m: WorldModel, ps: Seq<ChunkPosition>, q: ChunkPosition)
    requires
        !m.loaded(q),
    ensures
        !spec_unload_all(m, ps).loaded(q),
    decreases ps.len(),
{
    if ps.len() > 0 {
        lemma_unload_all_no_add(spec_unload(m, ps[0]), ps.drop_first(), q);
    }
}

/// Every position in an unload list is unloaded afterwards.
proof fn lemma_unload_all_removes(m: WorldModel, ps: Seq<ChunkPosition>, q: ChunkPosition)
    requires
        ps.contains(q),
    ensures
        !spec_unload_all(m, ps).loaded(q),
    decreases ps.len(),
{
    let i = choose|i: int| 0 <= i < ps.len() && ps[i] == q;
    if i == 0 {
        lemma_unload_all_no_add(spec_unload(m, q), ps.drop_first(), q);
    } else {
        assert(ps.drop_first()[i - 1] == q);
        lemma_unload_all_removes(spec_unload(m, ps[0]), ps.drop_first(), q);
    }
}

/// Everything the eviction scan lists fails the circular test.
proof fn lemma_undesired_not_within(
    m: WorldModel,
    ks: Seq<u64>,
    pc: ChunkPosition,
    q: ChunkPosition,
)
    requires
        undesired_positions(m, ks, pc).contains(q),
    ensures
        !within_distance(q, pc, m.render_distance as int),
    decreases ks.len(),
{
    broadcast use vstd::seq_lib::lemma_seq_concat_contains_all_elements;

    if ks.len() > 0 {
        let head = if m.chunks.contains_key(ks[0]) && !within_distance(
            m.chunks[ks[0]].position,
            pc,
            m.render_distance as int,
        ) {
            seq![m.chunks[ks[0]].position]
        } else {
            Seq::<ChunkPosition>::empty()
        };
        if head.contains(q) {
            assert(head[0] == q);
        } else {
            lemma_undesired_not_within(m, ks.drop_first(), pc, q);
        }
    }
}

/// The eviction scan lists every loaded, undesired position whose key the
/// key list holds.
proof fn lemma_undesired_covers(m: WorldModel, ks: Seq<u64>, pc: ChunkPosition, q: ChunkPosition)
    requires
        m.chunks.contains_key(spec_pos_key(q)),
        m.chunks[spec_pos_key(q)].position == q,
        ks.contains(spec_pos_key(q)),
        !within_distance(q, pc, m.render_distance as int),
    ensures
        undesired_positions(m, ks, pc).contains(q),
    decreases ks.len(),
{
    broadcast use vstd::seq_lib::lemma_seq_concat_contains_all_elements;

    let i = choose|i: int| 0 <= i < ks.len() && ks[i] == spec_pos_key(q);
    if i == 0 {
        assert(seq![q][0] == q);
        assert(seq![q].contains(q));
    } else {
        assert(ks.drop_first()[i - 1] == spec_pos_key(q));
        lemma_undesired_covers(m, ks.drop_first(), pc, q);
    }
}

/// A streaming evaluation around a fresh viewpoint chunk achieves the
/// desired set: afterwards every loaded chunk lies within the circle, and
/// every position within the circle is loaded or in flight.
pub proof fn lemma_evaluation_achieves_desired_set(
    m: WorldModel,
    pc: ChunkPosition,
    keys: Seq<u64>,
    q: ChunkPosition,
)
    requires
        m.last_player_chunk != Some(pc),
        forall|k: u64| #[trigger]
            m.chunks.contains_key(k) ==> keys.contains(k) && spec_pos_key(m.chunks[k].position)
                == k,
        pc.x + m.render_distance <= 0x7fff_fffe,
        pc.x - m.render_distance >= -0x7fff_ffff,
        pc.z + m.render_distance <= 0x7fff_fffe,
        pc.z - m.render_distance >= -0x7fff_ffff,
    ensures
        spec_evaluate(m, pc, keys).loaded(q) ==> within_distance(
            q,
            pc,
            m.render_distance as int,
        ),
        within_distance(q, pc, m.render_distance as int) ==> (spec_evaluate(m, pc, keys).loaded(q)
            || spec_evaluate(m, pc, keys).requested(q)),
{
    let rd = m.render_distance as int;
    let m1 = WorldModel { last_player_chunk: Some(pc), ..m };
    let dl = desired_list(pc, rd);
    let m2 = spec_request_all(m1, dl);
    lemma_request_all_frame(m1, dl);
    let ups = undesired_positions(m2, keys, pc);

    if within_distance(q, pc, rd) {
        lemma_desired_set_is_the_circle(pc, rd, q);
        lemma_request_all_requests(m1, dl, q);
        assert(!ups.contains(q)) by {
            if ups.contains(q) {
                lemma_undesired_not_within(m2, keys, pc, q);
            }
        }
        lemma_unload_all_keeps(m2, ups, q);
    } else {
        let k = spec_pos_key(q);
        if m2.chunks.contains_key(k) {
            lemma_pos_key_injective(m.chunks[k].position, q);
            lemma_undesired_covers(m2, keys, pc, q);
            lemma_unload_all_removes(m2, ups, q);
        } else {
            lemma_unload_all_no_add(m2, ups, q);
        }
        assert(!spec_evaluate(m, pc, keys).loaded(q));
    }
}

} // verus!
