//! The world store: the sparse map of loaded chunks, the three work queues,
//! and the remesh-invalidation cascade.

use vstd::prelude::*;
use crate::coords::{ChunkCoord, VoxelPos, cheb_dist, valid_chunk_size, lemma_axis_world_fits};
use crate::chunk::{ChunkData, vox_index};
use crate::voxel::Voxel;

verus! {

/// True when the chunk coordinates in `s` are pairwise distinct.
pub open spec fn coords_unique(s: Seq<ChunkData>) -> bool {
    forall|i: int, j: int| 0 <= i < j < s.len() ==> s[i].coord != s[j].coord
}

/// True when `s` holds a chunk with coordinate `c`.
pub open spec fn seq_has_chunk(s: Seq<ChunkData>, c: ChunkCoord) -> bool {
    exists|i: int| 0 <= i < s.len() && s[i].coord == c
}

/// The index of the chunk with coordinate `c`; meaningful only when present.
pub open spec fn seq_chunk_idx(s: Seq<ChunkData>, c: ChunkCoord) -> int {
    choose|i: int| 0 <= i < s.len() && s[i].coord == c
}

/// With unique coordinates, the index holding a coordinate is unique.
pub proof fn lemma_chunk_at(s: Seq<ChunkData>, i: int)
    requires
        coords_unique(s),
        0 <= i < s.len(),
    ensures
        seq_has_chunk(s, s[i].coord),
        seq_chunk_idx(s, s[i].coord) == i,
{
    assert(seq_has_chunk(s, s[i].coord));
    let j = seq_chunk_idx(s, s[i].coord);
    if i < j {
        assert(s[i].coord != s[j].coord);
    } else if j < i {
        assert(s[j].coord != s[i].coord);
    }
}

/// True when `q` holds coordinate `c`.
pub open spec fn queue_has(q: Seq<ChunkCoord>, c: ChunkCoord) -> bool {
    q.contains(c)
}

/// True when no coordinate appears twice in `q`.
pub open spec fn queue_nodup(q: Seq<ChunkCoord>) -> bool {
    forall|i: int, j: int| 0 <= i < j < q.len() ==> q[i] != q[j]
}

/// Membership test on a coordinate queue.
pub fn coord_in(q: &Vec<ChunkCoord>, c: ChunkCoord) -> (r: bool)
    ensures
        r == queue_has(q@, c),
{
    let n = q.len();
    let mut i: usize = 0;
    while i < n
        invariant
            n == q@.len(),
            i <= n,
            forall|j: int| 0 <= j < i ==> q@[j] != c,
        decreases n - i,
    {
        if q[i] == c {
            proof {
                assert(q@[i as int] == c);
            }
            return true;
        }
        i = i + 1;
    }
    proof {
        if q@.contains(c) {
            let j = choose|j: int| 0 <= j < q@.len() && q@[j] == c;
            assert(q@[j] != c);
        }
    }
    false
}

/// The sparse chunked world: loaded chunks keyed by coordinate, the load /
/// mesh / priority-mesh FIFO queues, and the observer's last known chunk.
#[derive(Debug)]
pub struct VoxelWorld {
    pub chunks: Vec<ChunkData>,
    pub loading_queue: Vec<ChunkCoord>,
    pub meshing_queue: Vec<ChunkCoord>,
    pub priority_meshing_queue: Vec<ChunkCoord>,
    pub player_chunk: Option<ChunkCoord>,
    pub chunk_size: usize,
}

impl VoxelWorld {
    /// Chunk keys are unique, every chunk is well formed at the world's
    /// chunk size, and the load and priority-mesh queues are duplicate-free.
    pub open spec fn wf(self) -> bool {
        &&& valid_chunk_size(self.chunk_size)
        &&& coords_unique(self.chunks@)
        &&& forall|i: int|
            0 <= i < self.chunks@.len() ==> (#[trigger] self.chunks@[i]).wf()
        &&& forall|i: int|
            0 <= i < self.chunks@.len() ==> (#[trigger] self.chunks@[i]).size == self.chunk_size
        &&& queue_nodup(self.loading_queue@)
        &&& queue_nodup(self.priority_meshing_queue@)
    }

    pub open spec fn has_chunk(self, c: ChunkCoord) -> bool {
        seq_has_chunk(self.chunks@, c)
    }

    /// The loaded chunk with coordinate `c`; meaningful only when present.
    pub open spec fn spec_chunk(self, c: ChunkCoord) -> ChunkData {
        self.chunks@[seq_chunk_idx(self.chunks@, c)]
    }

    /// An empty world with the given chunk size.
    pub fn new(chunk_size: usize) -> (w: VoxelWorld)
        requires
            valid_chunk_size(chunk_size),
        ensures
            w.wf(),
            w.chunks@.len() == 0,
            w.loading_queue@.len() == 0,
            w.meshing_queue@.len() == 0,
            w.priority_meshing_queue@.len() == 0,
            w.player_chunk is None,
            w.chunk_size == chunk_size,
    {
        VoxelWorld {
            chunks: Vec::new(),
            loading_queue: Vec::new(),
            meshing_queue: Vec::new(),
            priority_meshing_queue: Vec::new(),
            player_chunk: None,
            chunk_size,
        }
    }

    /// Reconfigures the chunk edge length; only an empty world can change
    /// it, since loaded chunks are sized at creation.
    pub fn set_chunk_size(&mut self, size: usize)
        requires
            old(self).wf(),
            valid_chunk_size(size),
            old(self).chunks@.len() == 0,
        ensures
            final(self).wf(),
            final(self).chunk_size == size,
            final(self).chunks == old(self).chunks,
            final(self).loading_queue == old(self).loading_queue,
            final(self).meshing_queue == old(self).meshing_queue,
            final(self).priority_meshing_queue == old(self).priority_meshing_queue,
            final(self).player_chunk == old(self).player_chunk,
    {
        self.chunk_size = size;
    }

    /// The position of chunk `c` in the chunk list, if loaded.
    pub(crate) fn find_chunk(&self, coord: ChunkCoord) -> (r: Option<usize>)
        requires
            self.wf(),
        ensures
            r is Some <==> self.has_chunk(coord),
            r is Some ==> r.unwrap() == seq_chunk_idx(self.chunks@, coord)
                && r.unwrap() < self.chunks@.len(),
    {
        let n = self.chunks.len();
        let mut i: usize = 0;
        while i < n
            invariant
                self.wf(),
                n == self.chunks@.len(),
                i <= n,
                forall|j: int| 0 <= j < i ==> self.chunks@[j].coord != coord,
            decreases n - i,
        {
            if self.chunks[i].coord == coord {
                proof {
                    lemma_chunk_at(self.chunks@, i as int);
                }
                return Some(i);
            }
            i = i + 1;
        }
        proof {
            if self.has_chunk(coord) {
                let j = seq_chunk_idx(self.chunks@, coord);
            }
        }
        None
    }

    /// The loaded chunk at `coord`, if any.
    pub fn get_chunk(&self, coord: ChunkCoord) -> (r: Option<&ChunkData>)
        requires
            self.wf(),
        ensures
            self.has_chunk(coord) ==> r == Some(&self.spec_chunk(coord)),
            !self.has_chunk(coord) ==> r is None,
    {
        match self.find_chunk(coord) {
            Some(i) => Some(&self.chunks[i]),
            None => None,
        }
    }

    /// The loaded chunk owning a world position, if any.
    pub fn get_chunk_at_world_pos(&self, world_pos: VoxelPos) -> (r: Option<&ChunkData>)
        requires
            self.wf(),
            world_pos.in_chunk_range(self.chunk_size),
        ensures
            ({
                let c = ChunkCoord::spec_from_world_pos(world_pos, self.chunk_size);
                if self.has_chunk(c) {
                    r == Some(&self.spec_chunk(c))
                } else {
                    r is None
                }
            }),
    {
        let coord = ChunkCoord::from_world_pos(world_pos, self.chunk_size);
        self.get_chunk(coord)
    }

    /// Creates an all-air chunk at `coord` and queues it for meshing, unless
    /// one is already loaded; then nothing changes.
    pub fn load_chunk(&mut self, coord: ChunkCoord)
        requires
            old(self).wf(),
        ensures
            final(self).wf(),
            final(self).has_chunk(coord),
            old(self).has_chunk(coord) ==> *final(self) == *old(self),
            !old(self).has_chunk(coord) ==> ({
                &&& final(self).chunks@ == old(self).chunks@.push(final(self).spec_chunk(coord))
                &&& final(self).spec_chunk(coord) == ChunkData {
                    coord,
                    size: old(self).chunk_size,
                    voxels: final(self).spec_chunk(coord).voxels,
                    modified: false,
                    material_palette: final(self).spec_chunk(coord).material_palette,
                }
                &&& !final(self).spec_chunk(coord).modified
                &&& final(self).spec_chunk(coord).material_palette@.len() == 1
                &&& forall|k: int|
                    0 <= k < final(self).spec_chunk(coord).voxels@.len() ==> (
                    #[trigger] final(self).spec_chunk(coord).voxels@[k]).material_id == 0
                &&& final(self).meshing_queue@ == old(self).meshing_queue@.push(coord)
            }),
            forall|c: ChunkCoord|
                c != coord ==> #[trigger] final(self).has_chunk(c) == old(self).has_chunk(c),
            forall|c: ChunkCoord|
                c != coord && old(self).has_chunk(c) ==> #[trigger] final(self).spec_chunk(c)
                    == old(self).spec_chunk(c),
            final(self).loading_queue == old(self).loading_queue,
            final(self).priority_meshing_queue == old(self).priority_meshing_queue,
            final(self).player_chunk == old(self).player_chunk,
            final(self).chunk_size == old(self).chunk_size,
            old(self).has_chunk(coord) ==> final(self).meshing_queue == old(self).meshing_queue,
    {
        let ghost pre = *self;
        if self.find_chunk(coord).is_none() {
            let chunk = ChunkData::new(coord, self.chunk_size);
            self.chunks.push(chunk);
            self.meshing_queue.push(coord);
            proof {
                let n = pre.chunks@.len();
                assert(self.chunks@[n as int].coord == coord);
                lemma_chunk_at(self.chunks@, n as int);
                assert forall|c: ChunkCoord| c != coord implies
                    #[trigger] self.has_chunk(c) == pre.has_chunk(c) by {
                    lemma_lookup_after_chunk_push(pre.chunks@, self.chunks@, c);
                }
                assert forall|c: ChunkCoord| c != coord && pre.has_chunk(c) implies
                    #[trigger] self.spec_chunk(c) == pre.spec_chunk(c) by {
                    lemma_lookup_after_chunk_push(pre.chunks@, self.chunks@, c);
                }
            }
        }
    }

    /// Evicts the chunk at `coord`. A modified chunk is returned so the
    /// caller can hand it to a persistence collaborator; an unmodified one
    /// is dropped. `None` when nothing was loaded there or nothing needs
    /// saving.
    pub fn unload_chunk(&mut self, coord: ChunkCoord) -> (saved: Option<ChunkData>)
        requires
            old(self).wf(),
        ensures
            final(self).wf(),
            !final(self).has_chunk(coord),
            forall|c: ChunkCoord|
                c != coord ==> #[trigger] final(self).has_chunk(c) == old(self).has_chunk(c),
            forall|c: ChunkCoord|
                c != coord && old(self).has_chunk(c) ==> #[trigger] final(self).spec_chunk(c)
                    == old(self).spec_chunk(c),
            saved is Some <==> old(self).has_chunk(coord) && old(self).spec_chunk(
                coord,
            ).modified,
            saved is Some ==> saved == Some(old(self).spec_chunk(coord)),
            !old(self).has_chunk(coord) ==> *final(self) == *old(self),
            final(self).loading_queue == old(self).loading_queue,
            final(self).meshing_queue == old(self).meshing_queue,
            final(self).priority_meshing_queue == old(self).priority_meshing_queue,
            final(self).player_chunk == old(self).player_chunk,
            final(self).chunk_size == old(self).chunk_size,
    {
        let ghost pre = *self;
        match self.find_chunk(coord) {
            Some(i) => {
                let chunk = self.chunks.remove(i);
                proof {
                    assert forall|c: ChunkCoord| c != coord implies
                        #[trigger] self.has_chunk(c) == pre.has_chunk(c) by {
                        lemma_lookup_after_chunk_remove(pre.chunks@, self.chunks@, i as int, c);
                    }
                    assert forall|c: ChunkCoord| c != coord && pre.has_chunk(c) implies
                        #[trigger] self.spec_chunk(c) == pre.spec_chunk(c) by {
                        lemma_lookup_after_chunk_remove(pre.chunks@, self.chunks@, i as int, c);
                    }
                    if self.has_chunk(coord) {
                        let j = seq_chunk_idx(self.chunks@, coord);
                        if j < i {
                            assert(pre.chunks@[j].coord == coord);
                            lemma_chunk_at(pre.chunks@, j);
                        } else {
                            assert(pre.chunks@[j + 1].coord == coord);
                            lemma_chunk_at(pre.chunks@, j + 1);
                        }
                    }
                }
                if chunk.modified {
                    Some(chunk)
                } else {
                    None
                }
            },
            None => None,
        }
    }

    /// The voxel at a world position; positions in unloaded chunks read as
    /// air.
    pub fn get_voxel_at_world_pos(&self, world_pos: VoxelPos) -> (r: Voxel)
        requires
            self.wf(),
            world_pos.in_chunk_range(self.chunk_size),
        ensures
            r == self.spec_voxel_at(world_pos),
    {
        match self.get_chunk_at_world_pos(world_pos) {
            Some(chunk) => {
                match chunk.get_voxel_world_pos(world_pos) {
                    Some(v) => v,
                    None => Voxel::air(),
                }
            },
            None => Voxel::air(),
        }
    }

    /// The voxel a world position reads as: the stored voxel of the owning
    /// loaded chunk, or air.
    pub open spec fn spec_voxel_at(self, pos: VoxelPos) -> Voxel {
        let c = ChunkCoord::spec_from_world_pos(pos, self.chunk_size);
        if self.has_chunk(c) {
            let ch = self.spec_chunk(c);
            let ox = pos.x - ch.coord.spec_to_world_pos(ch.size).x;
            let oy = pos.y - ch.coord.spec_to_world_pos(ch.size).y;
            let oz = pos.z - ch.coord.spec_to_world_pos(ch.size).z;
            if ch.in_bounds(ox, oy, oz) {
                ch.spec_voxel(ox, oy, oz)
            } else {
                Voxel { material_id: 0 }
            }
        } else {
            Voxel { material_id: 0 }
        }
    }

    /// Pushes `coord` and every loaded chunk at Chebyshev distance 1 onto
    /// the priority-mesh queue, skipping entries already queued: a voxel
    /// change near a chunk boundary can alter face culling and smooth
    /// normals in all 26 neighbors.
    pub fn mark_chunk_and_neighbors_for_remesh(&mut self, chunk_coord: ChunkCoord)
        requires
            old(self).wf(),
            chunk_coord.can_offset(1),
        ensures
            final(self).wf(),
            queue_has(final(self).priority_meshing_queue@, chunk_coord),
            forall|c: ChunkCoord|
                cheb_dist(chunk_coord, c) == 1 && old(self).has_chunk(c) ==> queue_has(
                    final(self).priority_meshing_queue@,
                    c,
                ),
            forall|c: ChunkCoord|
                queue_has(old(self).priority_meshing_queue@, c) ==> queue_has(
                    final(self).priority_meshing_queue@,
                    c,
                ),
            forall|c: ChunkCoord|
                queue_has(final(self).priority_meshing_queue@, c) ==> queue_has(
                    old(self).priority_meshing_queue@,
                    c,
                ) || c == chunk_coord || (cheb_dist(chunk_coord, c) == 1 && old(self).has_chunk(
                    c,
                )),
            final(self).chunks == old(self).chunks,
            final(self).loading_queue == old(self).loading_queue,
            final(self).meshing_queue == old(self).meshing_queue,
            final(self).player_chunk == old(self).player_chunk,
            final(self).chunk_size == old(self).chunk_size,
    {
        let ghost pre = *self;
        if !coord_in(&self.priority_meshing_queue, chunk_coord) {
            self.priority_meshing_queue.push(chunk_coord);
            proof {
                lemma_queue_push_nodup(pre.priority_meshing_queue@, chunk_coord);
            }
        }
        let neighbors = chunk_coord.all_neighbors();
        let ghost mid = *self;
        let n = neighbors.len();
        let mut i: usize = 0;
        while i < n
            invariant
                pre == *old(self),
                pre.wf(),
                self.chunks == pre.chunks,
                self.loading_queue == pre.loading_queue,
                self.meshing_queue == pre.meshing_queue,
                self.player_chunk == pre.player_chunk,
                self.chunk_size == pre.chunk_size,
                n == neighbors@.len(),
                n == 26,
                i <= n,
                forall|j: int, k: int| 0 <= j < k < n ==> neighbors@[j] != neighbors@[k],
                forall|j: int|
                    0 <= j < n ==> cheb_dist(chunk_coord, #[trigger] neighbors@[j]) == 1,
                forall|d: ChunkCoord| cheb_dist(chunk_coord, d) == 1 ==> neighbors@.contains(d),
                queue_nodup(self.priority_meshing_queue@),
                queue_has(self.priority_meshing_queue@, chunk_coord),
                forall|c: ChunkCoord|
                    queue_has(pre.priority_meshing_queue@, c) ==> queue_has(
                        self.priority_meshing_queue@,
                        c,
                    ),
                forall|j: int|
                    0 <= j < i && pre.has_chunk(#[trigger] neighbors@[j]) ==> queue_has(
                        self.priority_meshing_queue@,
                        neighbors@[j],
                    ),
                forall|c: ChunkCoord|
                    queue_has(self.priority_meshing_queue@, c) ==> queue_has(
                        pre.priority_meshing_queue@,
                        c,
                    ) || c == chunk_coord || (cheb_dist(chunk_coord, c) == 1 && pre.has_chunk(c)),
            decreases n - i,
        {
            let nb = neighbors[i];
            if self.find_chunk(nb).is_some() && !coord_in(&self.priority_meshing_queue, nb) {
                let ghost q = self.priority_meshing_queue@;
                self.priority_meshing_queue.push(nb);
                proof {
                    lemma_queue_push_nodup(q, nb);
                }
            }
            i = i + 1;
        }
        proof {
            assert forall|c: ChunkCoord|
                cheb_dist(chunk_coord, c) == 1 && pre.has_chunk(c) implies queue_has(
                self.priority_meshing_queue@,
                c,
            ) by {
                let j = choose|j: int| 0 <= j < 26 && neighbors@[j] == c;
                assert(queue_has(self.priority_meshing_queue@, neighbors@[j]));
            }
        }
    }

    /// Writes a voxel at a world position and, when the write landed inside
    /// a loaded chunk, cascades remesh invalidation to that chunk and its
    /// loaded neighbors. `false` when no loaded chunk owns the position or
    /// the cell is out of its bounds.
    pub fn set_voxel_at_world_pos(&mut self, world_pos: VoxelPos, voxel: Voxel) -> (ok: bool)
        requires
            old(self).wf(),
            world_pos.in_chunk_range(old(self).chunk_size),
            ChunkCoord::spec_from_world_pos(world_pos, old(self).chunk_size).can_offset(1),
            old(self).has_chunk(ChunkCoord::spec_from_world_pos(world_pos, old(self).chunk_size))
                ==> voxel.material_id < old(self).spec_chunk(
                ChunkCoord::spec_from_world_pos(world_pos, old(self).chunk_size),
            ).material_palette@.len(),
        ensures
            final(self).wf(),
            ({
                let c = ChunkCoord::spec_from_world_pos(world_pos, old(self).chunk_size);
                let ch = old(self).spec_chunk(c);
                let ox = world_pos.x - ch.coord.spec_to_world_pos(ch.size).x;
                let oy = world_pos.y - ch.coord.spec_to_world_pos(ch.size).y;
                let oz = world_pos.z - ch.coord.spec_to_world_pos(ch.size).z;
                &&& ok == (old(self).has_chunk(c) && ch.in_bounds(ox, oy, oz))
                &&& !ok ==> final(self).chunks@ == old(self).chunks@
                    && final(self).loading_queue == old(self).loading_queue
                    && final(self).meshing_queue == old(self).meshing_queue
                    && final(self).priority_meshing_queue == old(self).priority_meshing_queue
                    && final(self).player_chunk == old(self).player_chunk
                    && final(self).chunk_size == old(self).chunk_size
                &&& ok ==> ({
                    &&& final(self).has_chunk(c)
                    &&& final(self).spec_chunk(c).voxels@ == ch.voxels@.update(
                        vox_index(ch.size as int, ox, oy, oz),
                        voxel,
                    )
                    &&& final(self).spec_chunk(c).material_palette == ch.material_palette
                    &&& final(self).spec_chunk(c).modified == (ch.modified || ch.spec_voxel(
                        ox,
                        oy,
                        oz,
                    ) != voxel)
                    &&& forall|c2: ChunkCoord|
                        c2 != c ==> #[trigger] final(self).has_chunk(c2)
                            == old(self).has_chunk(c2)
                    &&& forall|c2: ChunkCoord|
                        c2 != c && old(self).has_chunk(c2)
                            ==> #[trigger] final(self).spec_chunk(c2) == old(self).spec_chunk(c2)
                    &&& queue_has(final(self).priority_meshing_queue@, c)
                    &&& forall|c2: ChunkCoord|
                        cheb_dist(c, c2) == 1 && old(self).has_chunk(c2) ==> queue_has(
                            final(self).priority_meshing_queue@,
                            c2,
                        )
                })
            }),
    {
        let ghost pre = *self;
        let chunk_coord = ChunkCoord::from_world_pos(world_pos, self.chunk_size);
        match self.find_chunk(chunk_coord) {
            Some(i) => {
                proof {
                    lemma_axis_world_fits(chunk_coord.x as int, self.chunk_size as int);
                    lemma_axis_world_fits(chunk_coord.y as int, self.chunk_size as int);
                    lemma_axis_world_fits(chunk_coord.z as int, self.chunk_size as int);
                }
                let chunk = &mut self.chunks[i];
                let result = chunk.set_voxel_world_pos(world_pos, voxel);
                proof {
                    assert(self.wf());
                }
                let ghost mid = *self;
                if result {
                    self.mark_chunk_and_neighbors_for_remesh(chunk_coord);
                }
                proof {
                    if result {
                        assert forall|c2: ChunkCoord|
                            cheb_dist(chunk_coord, c2) == 1 && pre.has_chunk(c2) implies
                            queue_has(self.priority_meshing_queue@, c2) by {
                            lemma_lookup_after_chunk_update(
                                pre.chunks@,
                                mid.chunks@,
                                i as int,
                                c2,
                            );
                            assert(mid.has_chunk(c2));
                        }
                    }
                    lemma_chunk_at(self.chunks@, i as int);
                    assert forall|c2: ChunkCoord| c2 != chunk_coord implies
                        #[trigger] self.has_chunk(c2) == pre.has_chunk(c2) by {
                        lemma_lookup_after_chunk_update(pre.chunks@, self.chunks@, i as int, c2);
                    }
                    assert forall|c2: ChunkCoord| c2 != chunk_coord && pre.has_chunk(c2) implies
                        #[trigger] self.spec_chunk(c2) == pre.spec_chunk(c2) by {
                        lemma_lookup_after_chunk_update(pre.chunks@, self.chunks@, i as int, c2);
                    }
                    if !result {
                        assert(self.chunks@ =~= pre.chunks@);
                    }
                }
                result
            },
            None => false,
        }
    }
}

/// Appending a chunk does not change lookups of other coordinates.
proof fn lemma_lookup_after_chunk_push(s: Seq<ChunkData>, s2: Seq<ChunkData>, c: ChunkCoord)
    requires
        coords_unique(s),
        coords_unique(s2),
        s2.len() == s.len() + 1,
        forall|j: int| 0 <= j < s.len() ==> s2[j] == s[j],
        c != s2[s2.len() - 1].coord,
    ensures
        seq_has_chunk(s2, c) == seq_has_chunk(s, c),
        seq_has_chunk(s, c) ==> s2[seq_chunk_idx(s2, c)] == s[seq_chunk_idx(s, c)],
{
    if seq_has_chunk(s, c) {
        let j = seq_chunk_idx(s, c);
        assert(s2[j].coord == c);
        lemma_chunk_at(s2, j);
        lemma_chunk_at(s, j);
    } else {
        if seq_has_chunk(s2, c) {
            let j = seq_chunk_idx(s2, c);
            assert(j < s.len() ==> s[j].coord == c);
        }
    }
}

/// Removing a chunk does not change lookups of other coordinates.
proof fn lemma_lookup_after_chunk_remove(
    s: Seq<ChunkData>,
    s2: Seq<ChunkData>,
    i: int,
    c: ChunkCoord,
)
    requires
        coords_unique(s),
        coords_unique(s2),
        0 <= i < s.len(),
        s2 == s.remove(i),
        c != s[i].coord,
    ensures
        seq_has_chunk(s2, c) == seq_has_chunk(s, c),
        seq_has_chunk(s, c) ==> s2[seq_chunk_idx(s2, c)] == s[seq_chunk_idx(s, c)],
{
    if seq_has_chunk(s, c) {
        let j = seq_chunk_idx(s, c);
        if j < i {
            assert(s2[j].coord == c);
            lemma_chunk_at(s2, j);
        } else {
            assert(s2[j - 1].coord == c);
            lemma_chunk_at(s2, j - 1);
        }
        lemma_chunk_at(s, j);
    } else {
        if seq_has_chunk(s2, c) {
            let j = seq_chunk_idx(s2, c);
            if j < i {
                assert(s[j].coord == c);
            } else {
                assert(s[j + 1].coord == c);
            }
        }
    }
}

/// Replacing a chunk in place (same coordinate) does not change lookups of
/// other coordinates.
pub(crate) proof fn lemma_lookup_after_chunk_update(
    s: Seq<ChunkData>,
    s2: Seq<ChunkData>,
    i: int,
    c: ChunkCoord,
)
    requires
        coords_unique(s),
        coords_unique(s2),
        0 <= i < s.len(),
        s2.len() == s.len(),
        forall|j: int| 0 <= j < s.len() && j != i ==> s2[j] == s[j],
        s2[i].coord == s[i].coord,
        c != s[i].coord,
    ensures
        seq_has_chunk(s2, c) == seq_has_chunk(s, c),
        seq_has_chunk(s, c) ==> s2[seq_chunk_idx(s2, c)] == s[seq_chunk_idx(s, c)],
{
    if seq_has_chunk(s, c) {
        let j = seq_chunk_idx(s, c);
        assert(s2[j].coord == c);
        lemma_chunk_at(s2, j);
        lemma_chunk_at(s, j);
    } else {
        if seq_has_chunk(s2, c) {
            let j = seq_chunk_idx(s2, c);
            assert(s[j].coord == c);
        }
    }
}

/// Pushing a coordinate not yet present keeps a queue duplicate-free.
proof fn lemma_queue_push_nodup(q: Seq<ChunkCoord>, c: ChunkCoord)
    requires
        queue_nodup(q),
        !queue_has(q, c),
    ensures
        queue_nodup(q.push(c)),
        queue_has(q.push(c), c),
        forall|d: ChunkCoord| queue_has(q, d) ==> queue_has(q.push(c), d),
        forall|d: ChunkCoord| queue_has(q.push(c), d) ==> queue_has(q, d) || d == c,
{
    let q2 = q.push(c);
    assert(q2[q.len() as int] == c);
    assert forall|i: int, j: int| 0 <= i < j < q2.len() implies q2[i] != q2[j] by {
        if j < q.len() {
            assert(q2[i] == q[i] && q2[j] == q[j]);
        } else {
            assert(q2[j] == c);
            assert(q2[i] == q[i]);
            assert(q.contains(q[i]));
        }
    }
    assert forall|d: ChunkCoord| queue_has(q, d) implies queue_has(q2, d) by {
        let i = choose|i: int| 0 <= i < q.len() && q[i] == d;
        assert(q2[i] == d);
    }
    assert forall|d: ChunkCoord| queue_has(q2, d) implies queue_has(q, d) || d == c by {
        let i = choose|i: int| 0 <= i < q2.len() && q2[i] == d;
        if i < q.len() {
            assert(q[i] == d);
        }
    }
}

} // verus!
