//! The streaming manager: which chunks to enqueue for loading and which to
//! evict, from the observer's position, and the bounded closest-first drain
//! of the load queue.
//!
//! Loading uses a spherical (squared Euclidean) radius while eviction uses a
//! cubic (Chebyshev) distance; with the unload distance above the render
//! radius this leaves a hysteresis band, so observer jitter at the boundary
//! does not evict and immediately reload a chunk.

use vstd::prelude::*;
use crate::coords::{ChunkCoord, VoxelPos, cheb_dist, eucl_dist_sq};
use crate::chunk::ChunkData;
use crate::world::{VoxelWorld, queue_has, queue_nodup, coord_in, lemma_chunk_at, seq_chunk_idx};

verus! {

/// Per-frame streaming budget and distances.
#[derive(Clone, Copy, Debug)]
pub struct GameConfig {
    pub render_distance: i32,
    pub unload_distance: i32,
    pub max_chunks_per_frame: usize,
    pub max_meshes_per_frame: usize,
}

impl GameConfig {
    /// The unload distance must exceed the render radius, and both stay
    /// small enough for distance arithmetic.
    pub open spec fn wf(self) -> bool {
        &&& 0 <= self.render_distance
        &&& self.render_distance < self.unload_distance
        &&& self.unload_distance <= 0x1000
    }

    pub fn new(
        render_distance: i32,
        unload_distance: i32,
        max_chunks_per_frame: usize,
        max_meshes_per_frame: usize,
    ) -> (c: GameConfig)
        requires
            0 <= render_distance,
            render_distance < unload_distance,
            unload_distance <= 0x1000,
        ensures
            c == (GameConfig {
                render_distance,
                unload_distance,
                max_chunks_per_frame,
                max_meshes_per_frame,
            }),
            c.wf(),
    {
        GameConfig { render_distance, unload_distance, max_chunks_per_frame, max_meshes_per_frame }
    }
}

impl Default for GameConfig {
    fn default() -> (c: GameConfig)
        ensures
            c == (GameConfig {
                render_distance: 8,
                unload_distance: 12,
                max_chunks_per_frame: 2,
                max_meshes_per_frame: 16,
            }),
            c.wf(),
    {
        GameConfig {
            render_distance: 8,
            unload_distance: 12,
            max_chunks_per_frame: 2,
            max_meshes_per_frame: 16,
        }
    }
}

/// Squared Euclidean distance from chunk `c`'s minimum-corner world position
/// to the world position `p`.
pub open spec fn world_dist_sq(c: ChunkCoord, size: usize, p: VoxelPos) -> int {
    let w = c.spec_to_world_pos(size);
    (w.x - p.x) * (w.x - p.x) + (w.y - p.y) * (w.y - p.y) + (w.z - p.z) * (w.z - p.z)
}

/// A point of a ball lies inside the bounding cube: each axis offset is at
/// most the radius in magnitude.
pub proof fn lemma_ball_axis_bound(a: ChunkCoord, c: ChunkCoord, rad: int)
    requires
        0 <= rad,
        eucl_dist_sq(a, c) <= rad * rad,
    ensures
        -rad <= c.x - a.x <= rad,
        -rad <= c.y - a.y <= rad,
        -rad <= c.z - a.z <= rad,
{
    let dx = a.x - c.x;
    let dy = a.y - c.y;
    let dz = a.z - c.z;
    assert(-rad <= dx <= rad && -rad <= dy <= rad && -rad <= dz <= rad) by (nonlinear_arith)
        requires
            0 <= rad,
            dx * dx + dy * dy + dz * dz <= rad * rad,
    ;
}

/// The squared distance of a point expressed by its axis offsets.
pub proof fn lemma_eucl_offsets(a: ChunkCoord, c: ChunkCoord, dx: int, dy: int, dz: int)
    requires
        c.x - a.x == dx,
        c.y - a.y == dy,
        c.z - a.z == dz,
    ensures
        eucl_dist_sq(a, c) == dx * dx + dy * dy + dz * dz,
{
    let ax = a.x - c.x;
    let ay = a.y - c.y;
    let az = a.z - c.z;
    assert(ax * ax == dx * dx && ay * ay == dy * dy && az * az == dz * dz) by (nonlinear_arith)
        requires
            ax == -dx,
            ay == -dy,
            az == -dz,
    ;
}

/// Squared world distance from a chunk's minimum corner to a position,
/// computed exactly in wide integers.
pub fn world_dist_to(c: ChunkCoord, size: usize, p: VoxelPos) -> (d: i128)
    requires
        crate::coords::valid_chunk_size(size),
        p.in_chunk_range(size),
    ensures
        d == world_dist_sq(c, size, p),
{
    proof {
        crate::coords::lemma_axis_world_fits(c.x as int, size as int);
        crate::coords::lemma_axis_world_fits(c.y as int, size as int);
        crate::coords::lemma_axis_world_fits(c.z as int, size as int);
    }
    let w = c.to_world_pos(size);
    let dx = (w.x - p.x) as i128;
    let dy = (w.y - p.y) as i128;
    let dz = (w.z - p.z) as i128;
    proof {
        assert(0 <= dx * dx <= 0x10_0000_0000_0000_0000_0000 && 0 <= dy * dy
            <= 0x10_0000_0000_0000_0000_0000 && 0 <= dz * dz
            <= 0x10_0000_0000_0000_0000_0000) by (nonlinear_arith)
            requires
                -0x400_0000_0000 <= dx <= 0x400_0000_0000,
                -0x400_0000_0000 <= dy <= 0x400_0000_0000,
                -0x400_0000_0000 <= dz <= 0x400_0000_0000,
        ;
    }
    dx * dx + dy * dy + dz * dz
}

/// True when `s` holds a chunk whose coordinate is `c`.
pub open spec fn saved_has(s: Seq<ChunkData>, c: ChunkCoord) -> bool {
    exists|l: int| 0 <= l < s.len() && s[l].coord == c
}

impl VoxelWorld {
    /// Appends to the load queue every chunk coordinate within squared
    /// Euclidean chunk-distance `render_distance²` of `center` that is
    /// neither loaded nor already queued.
    pub fn queue_chunks_for_loading(&mut self, center: ChunkCoord, config: &GameConfig)
        requires
            old(self).wf(),
            config.wf(),
            center.can_offset(config.render_distance as int),
        ensures
            final(self).wf(),
            forall|c: ChunkCoord|
                #[trigger] queue_has(final(self).loading_queue@, c) <==> queue_has(
                    old(self).loading_queue@,
                    c,
                ) || (eucl_dist_sq(center, c) <= config.render_distance * config.render_distance
                    && !old(self).has_chunk(c)),
            final(self).chunks == old(self).chunks,
            final(self).meshing_queue == old(self).meshing_queue,
            final(self).priority_meshing_queue == old(self).priority_meshing_queue,
            final(self).player_chunk == old(self).player_chunk,
            final(self).chunk_size == old(self).chunk_size,
    {
        let ghost pre = *self;
        let rad = config.render_distance as i64;
        proof {
            assert(rad * rad <= 0x100_0000) by (nonlinear_arith)
                requires
                    0 <= rad <= 0x1000,
            ;
            assert forall|c: ChunkCoord| eucl_dist_sq(center, c) <= rad * rad implies -rad <= c.x
                - center.x <= rad && -rad <= c.y - center.y <= rad && -rad <= c.z - center.z
                <= rad by {
                lemma_ball_axis_bound(center, c, rad as int);
            }
        }
        let rad_sq = rad * rad;
        let mut dx: i64 = -rad;
        while dx <= rad
            invariant
                pre == *old(self),
                pre.wf(),
                self.chunks == pre.chunks,
                self.meshing_queue == pre.meshing_queue,
                self.priority_meshing_queue == pre.priority_meshing_queue,
                self.player_chunk == pre.player_chunk,
                self.chunk_size == pre.chunk_size,
                rad == config.render_distance as int,
                rad_sq == rad * rad,
                0 <= rad <= 0x1000,
                rad_sq <= 0x100_0000,
                center.can_offset(rad as int),
                -rad <= dx <= rad + 1,
                queue_nodup(self.loading_queue@),
                forall|c: ChunkCoord|
                    #[trigger] eucl_dist_sq(center, c) <= rad_sq ==> -rad <= c.x - center.x <= rad
                        && -rad <= c.y - center.y <= rad && -rad <= c.z - center.z <= rad,
                forall|c: ChunkCoord|
                    #[trigger] queue_has(self.loading_queue@, c) <==> queue_has(
                        pre.loading_queue@,
                        c,
                    ) || (eucl_dist_sq(center, c) <= rad_sq && !pre.has_chunk(c) && c.x - center.x
                        < dx),
            decreases rad + 1 - dx,
        {
            let mut dy: i64 = -rad;
            while dy <= rad
                invariant
                    pre == *old(self),
                    pre.wf(),
                    self.chunks == pre.chunks,
                    self.meshing_queue == pre.meshing_queue,
                    self.priority_meshing_queue == pre.priority_meshing_queue,
                    self.player_chunk == pre.player_chunk,
                    self.chunk_size == pre.chunk_size,
                    rad == config.render_distance as int,
                    rad_sq == rad * rad,
                    0 <= rad <= 0x1000,
                    rad_sq <= 0x100_0000,
                    center.can_offset(rad as int),
                    -rad <= dx <= rad,
                    -rad <= dy <= rad + 1,
                    queue_nodup(self.loading_queue@),
                    forall|c: ChunkCoord|
                        #[trigger] eucl_dist_sq(center, c) <= rad_sq ==> -rad <= c.x - center.x
                            <= rad && -rad <= c.y - center.y <= rad && -rad <= c.z - center.z
                            <= rad,
                    forall|c: ChunkCoord|
                        #[trigger] queue_has(self.loading_queue@, c) <==> queue_has(
                            pre.loading_queue@,
                            c,
                        ) || (eucl_dist_sq(center, c) <= rad_sq && !pre.has_chunk(c) && (c.x
                            - center.x < dx || (c.x - center.x == dx && c.y - center.y < dy))),
                decreases rad + 1 - dy,
            {
                let mut dz: i64 = -rad;
                while dz <= rad
                    invariant
                        pre == *old(self),
                        pre.wf(),
                        self.chunks == pre.chunks,
                        self.meshing_queue == pre.meshing_queue,
                        self.priority_meshing_queue == pre.priority_meshing_queue,
                        self.player_chunk == pre.player_chunk,
                        self.chunk_size == pre.chunk_size,
                        rad == config.render_distance as int,
                        rad_sq == rad * rad,
                        0 <= rad <= 0x1000,
                        rad_sq <= 0x100_0000,
                        center.can_offset(rad as int),
                        -rad <= dx <= rad,
                        -rad <= dy <= rad,
                        -rad <= dz <= rad + 1,
                        queue_nodup(self.loading_queue@),
                        forall|c: ChunkCoord|
                            #[trigger] eucl_dist_sq(center, c) <= rad_sq ==> -rad <= c.x
                                - center.x <= rad && -rad <= c.y - center.y <= rad && -rad <= c.z
                                - center.z <= rad,
                        forall|c: ChunkCoord|
                            #[trigger] queue_has(self.loading_queue@, c) <==> queue_has(
                                pre.loading_queue@,
                                c,
                            ) || (eucl_dist_sq(center, c) <= rad_sq && !pre.has_chunk(c) && (c.x
                                - center.x < dx || (c.x - center.x == dx && (c.y - center.y < dy
                                || (c.y - center.y == dy && c.z - center.z < dz))))),
                    decreases rad + 1 - dz,
                {
                    proof {
                        assert(0 <= dx * dx <= 0x100_0000 && 0 <= dy * dy <= 0x100_0000 && 0
                            <= dz * dz <= 0x100_0000) by (nonlinear_arith)
                            requires
                                -0x1000 <= dx <= 0x1000,
                                -0x1000 <= dy <= 0x1000,
                                -0x1000 <= dz <= 0x1000,
                        ;
                    }
                    let dist_sq = dx * dx + dy * dy + dz * dz;
                    let coord = ChunkCoord {
                        x: (center.x as i64 + dx) as i32,
                        y: (center.y as i64 + dy) as i32,
                        z: (center.z as i64 + dz) as i32,
                    };
                    proof {
                        lemma_eucl_offsets(center, coord, dx as int, dy as int, dz as int);
                    }
                    let ghost q0 = self.loading_queue@;
                    let mut pushed = false;
                    if dist_sq <= rad_sq {
                        if self.get_chunk(coord).is_none() && !coord_in(
                            &self.loading_queue,
                            coord,
                        ) {
                            self.loading_queue.push(coord);
                            pushed = true;
                        }
                    }
                    proof {
                        if pushed {
                            assert(self.loading_queue@ == q0.push(coord));
                            assert(self.loading_queue@[q0.len() as int] == coord);
                        }
                        assert forall|c: ChunkCoord|
                            #[trigger] queue_has(self.loading_queue@, c) implies queue_has(
                            pre.loading_queue@,
                            c,
                        ) || (eucl_dist_sq(center, c) <= rad_sq && !pre.has_chunk(c) && (c.x
                            - center.x < dx || (c.x - center.x == dx && (c.y - center.y < dy || (
                        c.y - center.y == dy && c.z - center.z < dz + 1))))) by {
                            let i = choose|i: int|
                                0 <= i < self.loading_queue@.len() && self.loading_queue@[i] == c;
                            if i < q0.len() {
                                assert(q0[i] == c);
                                assert(queue_has(q0, c));
                            } else {
                                assert(c == coord);
                            }
                        }
                        assert forall|c: ChunkCoord|
                            queue_has(pre.loading_queue@, c) || (eucl_dist_sq(center, c) <= rad_sq
                                && !pre.has_chunk(c) && (c.x - center.x < dx || (c.x - center.x
                                == dx && (c.y - center.y < dy || (c.y - center.y == dy && c.z
                                - center.z < dz + 1))))) implies #[trigger] queue_has(
                            self.loading_queue@,
                            c,
                        ) by {
                            if queue_has(pre.loading_queue@, c) || (eucl_dist_sq(center, c)
                                <= rad_sq && !pre.has_chunk(c) && (c.x - center.x < dx || (c.x
                                - center.x == dx && (c.y - center.y < dy || (c.y - center.y == dy
                                && c.z - center.z < dz))))) {
                                assert(queue_has(q0, c));
                                let i = choose|i: int| 0 <= i < q0.len() && q0[i] == c;
                                assert(self.loading_queue@[i] == c);
                            } else {
                                assert(c.x - center.x == dx && c.y - center.y == dy && c.z
                                    - center.z == dz);
                                assert(c == coord);
                                if !pushed {
                                    assert(queue_has(q0, c));
                                    let i = choose|i: int| 0 <= i < q0.len() && q0[i] == c;
                                    assert(self.loading_queue@[i] == c);
                                }
                            }
                        }
                    }
                    dz = dz + 1;
                }
                dy = dy + 1;
            }
            dx = dx + 1;
        }
    }

    /// Evicts every loaded chunk whose Chebyshev distance to `center`
    /// exceeds the unload distance; chunks at or inside it stay untouched.
    /// Returns the evicted chunks that were modified, for the caller to hand
    /// to a persistence collaborator.
    pub fn unload_distant_chunks(&mut self, center: ChunkCoord, config: &GameConfig) -> (saved:
        Vec<ChunkData>)
        requires
            old(self).wf(),
            config.wf(),
        ensures
            final(self).wf(),
            forall|c: ChunkCoord|
                #[trigger] final(self).has_chunk(c) <==> old(self).has_chunk(c) && cheb_dist(
                    center,
                    c,
                ) <= config.unload_distance,
            forall|c: ChunkCoord|
                final(self).has_chunk(c) ==> #[trigger] final(self).spec_chunk(c) == old(
                    self,
                ).spec_chunk(c),
            forall|i: int|
                0 <= i < saved@.len() ==> (#[trigger] saved@[i]).modified && old(self).has_chunk(
                    saved@[i].coord,
                ) && saved@[i] == old(self).spec_chunk(saved@[i].coord) && cheb_dist(
                    center,
                    saved@[i].coord,
                ) > config.unload_distance,
            forall|c: ChunkCoord|
                old(self).has_chunk(c) && cheb_dist(center, c) > config.unload_distance && old(
                    self,
                ).spec_chunk(c).modified ==> saved_has(saved@, c),
            final(self).loading_queue == old(self).loading_queue,
            final(self).meshing_queue == old(self).meshing_queue,
            final(self).priority_meshing_queue == old(self).priority_meshing_queue,
            final(self).player_chunk == old(self).player_chunk,
            final(self).chunk_size == old(self).chunk_size,
    {
        let ghost pre = *self;
        let mut chunks_to_unload: Vec<ChunkCoord> = Vec::new();
        let n = self.chunks.len();
        let mut i: usize = 0;
        while i < n
            invariant
                pre == *old(self),
                pre.wf(),
                *self == pre,
                n == self.chunks@.len(),
                i <= n,
                forall|j: int|
                    0 <= j < chunks_to_unload@.len() ==> pre.has_chunk(
                        #[trigger] chunks_to_unload@[j],
                    ) && cheb_dist(center, chunks_to_unload@[j]) > config.unload_distance,
                forall|j: int|
                    0 <= j < i && cheb_dist(center, #[trigger] self.chunks@[j].coord)
                        > config.unload_distance ==> queue_has(
                        chunks_to_unload@,
                        self.chunks@[j].coord,
                    ),
                queue_nodup(chunks_to_unload@),
            decreases n - i,
        {
            let coord = self.chunks[i].coord;
            let dx = if coord.x >= center.x {
                coord.x as i64 - center.x as i64
            } else {
                center.x as i64 - coord.x as i64
            };
            let dy = if coord.y >= center.y {
                coord.y as i64 - center.y as i64
            } else {
                center.y as i64 - coord.y as i64
            };
            let dz = if coord.z >= center.z {
                coord.z as i64 - center.z as i64
            } else {
                center.z as i64 - coord.z as i64
            };
            let max_distance = if dx >= dy && dx >= dz {
                dx
            } else if dy >= dz {
                dy
            } else {
                dz
            };
            proof {
                assert(max_distance == cheb_dist(center, coord));
            }
            if max_distance > config.unload_distance as i64 {
                proof {
                    lemma_chunk_at(self.chunks@, i as int);
                    if queue_has(chunks_to_unload@, coord) {
                        let j = choose|j: int|
                            0 <= j < chunks_to_unload@.len() && chunks_to_unload@[j] == coord;
                    }
                    let ghost q = chunks_to_unload@;
                    assert forall|c: ChunkCoord| queue_has(q, c) implies queue_has(
                        q.push(coord),
                        c,
                    ) by {
                        let j = choose|j: int| 0 <= j < q.len() && q[j] == c;
                        assert(q.push(coord)[j] == c);
                    }
                    assert(q.push(coord)[q.len() as int] == coord);
                    if queue_has(q, coord) {
                        let j = choose|j: int| 0 <= j < q.len() && q[j] == coord;
                        assert(pre.has_chunk(q[j]));
                    }
                }
                if !coord_in(&chunks_to_unload, coord) {
                    chunks_to_unload.push(coord);
                }
            }
            i = i + 1;
        }
        let mut saved: Vec<ChunkData> = Vec::new();
        let m = chunks_to_unload.len();
        let mut k: usize = 0;
        while k < m
            invariant
                pre == *old(self),
                pre.wf(),
                self.wf(),
                m == chunks_to_unload@.len(),
                k <= m,
                self.loading_queue == pre.loading_queue,
                self.meshing_queue == pre.meshing_queue,
                self.priority_meshing_queue == pre.priority_meshing_queue,
                self.player_chunk == pre.player_chunk,
                self.chunk_size == pre.chunk_size,
                forall|j: int|
                    0 <= j < m ==> pre.has_chunk(#[trigger] chunks_to_unload@[j]) && cheb_dist(
                        center,
                        chunks_to_unload@[j],
                    ) > config.unload_distance,
                forall|j: int|
                    0 <= j < pre.chunks@.len() && cheb_dist(
                        center,
                        #[trigger] pre.chunks@[j].coord,
                    ) > config.unload_distance ==> queue_has(chunks_to_unload@, pre.chunks@[j].coord),
                queue_nodup(chunks_to_unload@),
                forall|c: ChunkCoord|
                    #[trigger] self.has_chunk(c) <==> pre.has_chunk(c) && !(exists|j: int|
                        0 <= j < k && chunks_to_unload@[j] == c),
                forall|c: ChunkCoord|
                    self.has_chunk(c) ==> #[trigger] self.spec_chunk(c) == pre.spec_chunk(c),
                forall|j: int|
                    0 <= j < saved@.len() ==> (#[trigger] saved@[j]).modified && pre.has_chunk(
                        saved@[j].coord,
                    ) && saved@[j] == pre.spec_chunk(saved@[j].coord) && cheb_dist(
                        center,
                        saved@[j].coord,
                    ) > config.unload_distance,
                forall|j: int|
                    0 <= j < k && pre.spec_chunk(#[trigger] chunks_to_unload@[j]).modified
                        ==> saved_has(saved@, chunks_to_unload@[j]),
            decreases m - k,
        {
            let coord = chunks_to_unload[k];
            proof {
                if exists|j: int| 0 <= j < k && chunks_to_unload@[j] == coord {
                    let j = choose|j: int| 0 <= j < k && chunks_to_unload@[j] == coord;
                    assert(chunks_to_unload@[j] != chunks_to_unload@[k as int]);
                }
            }
            let ghost saved_pre = saved@;
            match self.unload_chunk(coord) {
                Some(chunk) => {
                    saved.push(chunk);
                    proof {
                        assert(saved@[saved_pre.len() as int].coord == coord);
                        assert forall|c: ChunkCoord| saved_has(saved_pre, c) implies saved_has(
                            saved@,
                            c,
                        ) by {
                            let l = choose|l: int|
                                0 <= l < saved_pre.len() && saved_pre[l].coord == c;
                            assert(saved@[l].coord == c);
                        }
                    }
                },
                None => {},
            }
            proof {
                assert forall|c: ChunkCoord|
                    #[trigger] self.has_chunk(c) <==> pre.has_chunk(c) && !(exists|j: int|
                        0 <= j < k + 1 && chunks_to_unload@[j] == c) by {
                    if exists|j: int| 0 <= j < k + 1 && chunks_to_unload@[j] == c {
                        let j = choose|j: int| 0 <= j < k + 1 && chunks_to_unload@[j] == c;
                    }
                }
            }
            k = k + 1;
        }
        proof {
            assert forall|c: ChunkCoord|
                #[trigger] self.has_chunk(c) <==> (pre.has_chunk(c) && cheb_dist(center, c)
                    <= config.unload_distance) by {
                if pre.has_chunk(c) {
                    let j = seq_chunk_idx(pre.chunks@, c);
                    assert(pre.chunks@[j].coord == c);
                    if cheb_dist(center, c) > config.unload_distance {
                        assert(queue_has(chunks_to_unload@, c));
                        let l = choose|l: int|
                            0 <= l < chunks_to_unload@.len() && chunks_to_unload@[l] == c;
                        assert(!self.has_chunk(c));
                    } else {
                        if exists|l: int|
                            0 <= l < chunks_to_unload@.len() && chunks_to_unload@[l] == c {
                            let l = choose|l: int|
                                0 <= l < chunks_to_unload@.len() && chunks_to_unload@[l] == c;
                            assert(cheb_dist(center, chunks_to_unload@[l])
                                > config.unload_distance);
                        }
                    }
                }
            }
            assert forall|c: ChunkCoord|
                pre.has_chunk(c) && cheb_dist(center, c) > config.unload_distance
                    && pre.spec_chunk(c).modified implies saved_has(saved@, c) by {
                let j = seq_chunk_idx(pre.chunks@, c);
                assert(pre.chunks@[j].coord == c);
                assert(queue_has(chunks_to_unload@, c));
                let l = choose|l: int|
                    0 <= l < chunks_to_unload@.len() && chunks_to_unload@[l] == c;
                assert(pre.spec_chunk(chunks_to_unload@[l]).modified);
            }
        }
        saved
    }

    /// Drains up to `max_chunks_per_frame` entries from the load queue,
    /// always the closest first by squared world distance to the observer,
    /// and loads a chunk for each; the rest stay queued for a later frame.
    /// Returns the drained coordinates, closest first.
    pub fn process_loading_queue(&mut self, player_pos: VoxelPos, config: &GameConfig) -> (loaded:
        Vec<ChunkCoord>)
        requires
            old(self).wf(),
            player_pos.in_chunk_range(old(self).chunk_size),
        ensures
            final(self).wf(),
            loaded@.len() == vstd::math::min(
                config.max_chunks_per_frame as int,
                old(self).loading_queue@.len() as int,
            ),
            forall|i: int, j: int| 0 <= i < j < loaded@.len() ==> loaded@[i] != loaded@[j],
            forall|i: int|
                0 <= i < loaded@.len() ==> queue_has(
                    old(self).loading_queue@,
                    #[trigger] loaded@[i],
                ),
            forall|c: ChunkCoord|
                #[trigger] queue_has(final(self).loading_queue@, c) <==> queue_has(
                    old(self).loading_queue@,
                    c,
                ) && !loaded@.contains(c),
            forall|i: int, j: int|
                0 <= i < j < loaded@.len() ==> world_dist_sq(
                    #[trigger] loaded@[i],
                    old(self).chunk_size,
                    player_pos,
                ) <= world_dist_sq(#[trigger] loaded@[j], old(self).chunk_size, player_pos),
            forall|i: int, c: ChunkCoord|
                0 <= i < loaded@.len() && #[trigger] queue_has(final(self).loading_queue@, c)
                    ==> world_dist_sq(#[trigger] loaded@[i], old(self).chunk_size, player_pos)
                    <= world_dist_sq(c, old(self).chunk_size, player_pos),
            forall|c: ChunkCoord|
                #[trigger] final(self).has_chunk(c) <==> old(self).has_chunk(c)
                    || loaded@.contains(c),
            forall|c: ChunkCoord|
                old(self).has_chunk(c) ==> #[trigger] final(self).spec_chunk(c) == old(
                    self,
                ).spec_chunk(c),
            forall|c: ChunkCoord|
                loaded@.contains(c) && !old(self).has_chunk(c)
                    ==> (#[trigger] final(self).spec_chunk(c)).material_palette@.len() == 1
                    && !final(self).spec_chunk(c).modified,
            forall|c: ChunkCoord|
                #[trigger] queue_has(final(self).meshing_queue@, c) <==> queue_has(
                    old(self).meshing_queue@,
                    c,
                ) || (loaded@.contains(c) && !old(self).has_chunk(c)),
            final(self).priority_meshing_queue == old(self).priority_meshing_queue,
            final(self).player_chunk == old(self).player_chunk,
            final(self).chunk_size == old(self).chunk_size,
    {
        let ghost pre = *self;
        let mut loaded: Vec<ChunkCoord> = Vec::new();
        let mut count: usize = 0;
        let budget = config.max_chunks_per_frame;
        while count < budget && self.loading_queue.len() > 0
            invariant
                pre == *old(self),
                pre.wf(),
                self.wf(),
                player_pos.in_chunk_range(pre.chunk_size),
                count <= budget,
                budget == config.max_chunks_per_frame,
                loaded@.len() == count,
                count == vstd::math::min(count as int, pre.loading_queue@.len() as int),
                self.loading_queue@.len() == pre.loading_queue@.len() - count,
                forall|i: int, j: int| 0 <= i < j < loaded@.len() ==> loaded@[i] != loaded@[j],
                forall|i: int|
                    0 <= i < loaded@.len() ==> queue_has(
                        pre.loading_queue@,
                        #[trigger] loaded@[i],
                    ),
                forall|c: ChunkCoord|
                    #[trigger] queue_has(self.loading_queue@, c) <==> queue_has(
                        pre.loading_queue@,
                        c,
                    ) && !loaded@.contains(c),
                forall|i: int, j: int|
                    0 <= i < j < loaded@.len() ==> world_dist_sq(
                        #[trigger] loaded@[i],
                        pre.chunk_size,
                        player_pos,
                    ) <= world_dist_sq(#[trigger] loaded@[j], pre.chunk_size, player_pos),
                forall|i: int, c: ChunkCoord|
                    0 <= i < loaded@.len() && #[trigger] queue_has(self.loading_queue@, c)
                        ==> world_dist_sq(#[trigger] loaded@[i], pre.chunk_size, player_pos)
                        <= world_dist_sq(c, pre.chunk_size, player_pos),
                forall|c: ChunkCoord|
                    #[trigger] self.has_chunk(c) <==> pre.has_chunk(c) || loaded@.contains(c),
                forall|c: ChunkCoord|
                    pre.has_chunk(c) ==> #[trigger] self.spec_chunk(c) == pre.spec_chunk(c),
                forall|c: ChunkCoord|
                    loaded@.contains(c) && !pre.has_chunk(c) ==> (#[trigger] self.spec_chunk(
                        c,
                    )).material_palette@.len() == 1 && !self.spec_chunk(c).modified,
                forall|c: ChunkCoord|
                    #[trigger] queue_has(self.meshing_queue@, c) <==> queue_has(
                        pre.meshing_queue@,
                        c,
                    ) || (loaded@.contains(c) && !pre.has_chunk(c)),
                self.priority_meshing_queue == pre.priority_meshing_queue,
                self.player_chunk == pre.player_chunk,
                self.chunk_size == pre.chunk_size,
            decreases budget - count,
        {
            let ghost entry = *self;
            let qlen = self.loading_queue.len();
            let mut best: usize = 0;
            let mut best_d = world_dist_to(self.loading_queue[0], self.chunk_size, player_pos);
            let mut j: usize = 1;
            while j < qlen
                invariant
                    self.wf(),
                    player_pos.in_chunk_range(self.chunk_size),
                    qlen == self.loading_queue@.len(),
                    1 <= j <= qlen,
                    best < j,
                    best_d == world_dist_sq(
                        self.loading_queue@[best as int],
                        self.chunk_size,
                        player_pos,
                    ),
                    forall|l: int|
                        0 <= l < j ==> best_d as int <= world_dist_sq(
                            #[trigger] self.loading_queue@[l],
                            self.chunk_size,
                            player_pos,
                        ),
                decreases qlen - j,
            {
                let d = world_dist_to(self.loading_queue[j], self.chunk_size, player_pos);
                if d < best_d {
                    best = j;
                    best_d = d;
                }
                j = j + 1;
            }
            let ghost q0 = self.loading_queue@;
            let ghost loaded0 = loaded@;
            let coord = self.loading_queue.remove(best);
            proof {
                assert(q0[best as int] == coord);
                assert forall|c: ChunkCoord|
                    #[trigger] queue_has(self.loading_queue@, c) <==> (queue_has(q0, c) && c
                        != coord) by {
                    if queue_has(self.loading_queue@, c) {
                        let i = choose|i: int|
                            0 <= i < self.loading_queue@.len() && self.loading_queue@[i] == c;
                        if i < best {
                            assert(q0[i] == c);
                        } else {
                            assert(q0[i + 1] == c);
                        }
                        assert(queue_has(q0, c));
                        if c == coord {
                            if i < best {
                                assert(q0[i] == q0[best as int]);
                            } else {
                                assert(q0[i + 1] == q0[best as int]);
                            }
                            assert(false);
                        }
                    }
                    if queue_has(q0, c) && c != coord {
                        let i = choose|i: int| 0 <= i < q0.len() && q0[i] == c;
                        if i < best {
                            assert(self.loading_queue@[i] == c);
                        } else {
                            assert(i > best);
                            assert(self.loading_queue@[i - 1] == c);
                        }
                    }
                }
                assert(!loaded0.contains(coord) && queue_has(pre.loading_queue@, coord)) by {
                    assert(queue_has(q0, coord));
                }
            }
            let ghost mid = *self;
            self.load_chunk(coord);
            loaded.push(coord);
            count = count + 1;
            proof {
                assert(loaded@ == loaded0.push(coord));
                assert(loaded@[loaded0.len() as int] == coord);
                assert forall|c: ChunkCoord| #[trigger] loaded@.contains(c) <==> (
                    loaded0.contains(c) || c == coord) by {
                    if loaded@.contains(c) {
                        let i = choose|i: int| 0 <= i < loaded@.len() && loaded@[i] == c;
                        if i < loaded0.len() {
                            assert(loaded0[i] == c);
                        }
                    } else {
                        if loaded0.contains(c) {
                            let i = choose|i: int| 0 <= i < loaded0.len() && loaded0[i] == c;
                            assert(loaded@[i] == c);
                        }
                    }
                }
                assert forall|c: ChunkCoord|
                    #[trigger] queue_has(self.meshing_queue@, c) <==> queue_has(
                        pre.meshing_queue@,
                        c,
                    ) || (loaded@.contains(c) && !pre.has_chunk(c)) by {
                    if !mid.has_chunk(coord) {
                        assert(mid.meshing_queue == entry.meshing_queue);
                        assert(mid.chunks == entry.chunks);
                        assert(!entry.has_chunk(coord));
                        assert(entry.has_chunk(coord) <==> (pre.has_chunk(coord)
                            || loaded0.contains(coord)));
                        assert(!pre.has_chunk(coord));
                        assert(queue_has(entry.meshing_queue@, c) <==> (queue_has(
                            pre.meshing_queue@,
                            c,
                        ) || (loaded0.contains(c) && !pre.has_chunk(c))));
                        assert(self.meshing_queue@ == mid.meshing_queue@.push(coord));
                        assert(self.meshing_queue@[mid.meshing_queue@.len() as int] == coord);
                        if queue_has(self.meshing_queue@, c) {
                            let i = choose|i: int|
                                0 <= i < self.meshing_queue@.len() && self.meshing_queue@[i]
                                    == c;
                            if i < mid.meshing_queue@.len() {
                                assert(queue_has(mid.meshing_queue@, c));
                            }
                        }
                        if queue_has(mid.meshing_queue@, c) {
                            let i = choose|i: int|
                                0 <= i < mid.meshing_queue@.len() && mid.meshing_queue@[i] == c;
                            assert(self.meshing_queue@[i] == c);
                        }
                    } else {
                        assert(mid.has_chunk(coord));
                        assert(mid.chunks == entry.chunks);
                        assert(entry.has_chunk(coord));
                        assert(entry.has_chunk(coord) <==> (pre.has_chunk(coord)
                            || loaded0.contains(coord)));
                        assert(pre.has_chunk(coord));
                        assert(self.meshing_queue == entry.meshing_queue);
                        assert(queue_has(entry.meshing_queue@, c) <==> (queue_has(
                            pre.meshing_queue@,
                            c,
                        ) || (loaded0.contains(c) && !pre.has_chunk(c))));
                    }
                }
                assert forall|c: ChunkCoord|
                    #[trigger] self.has_chunk(c) <==> pre.has_chunk(c) || loaded@.contains(
                    c,
                ) by {
                    if c == coord {
                        assert(self.has_chunk(coord));
                        assert(loaded@.contains(coord));
                    } else {
                        assert(self.has_chunk(c) == mid.has_chunk(c));
                        assert(mid.chunks == entry.chunks);
                        assert(mid.has_chunk(c) == entry.has_chunk(c));
                        assert(entry.has_chunk(c) <==> (pre.has_chunk(c) || loaded0.contains(
                            c,
                        )));
                    }
                }
                assert forall|c: ChunkCoord| pre.has_chunk(c) implies #[trigger] self.spec_chunk(
                    c,
                ) == pre.spec_chunk(c) by {
                    assert(mid.chunks == entry.chunks);
                    assert(entry.has_chunk(c) <==> (pre.has_chunk(c) || loaded0.contains(c)));
                    assert(mid.has_chunk(c) == entry.has_chunk(c));
                    if c == coord {
                        assert(mid.has_chunk(coord));
                        assert(*self == mid);
                        assert(self.spec_chunk(c) == entry.spec_chunk(c));
                        assert(entry.spec_chunk(c) == pre.spec_chunk(c));
                    } else {
                        assert(self.spec_chunk(c) == mid.spec_chunk(c));
                        assert(mid.spec_chunk(c) == entry.spec_chunk(c));
                        assert(entry.spec_chunk(c) == pre.spec_chunk(c));
                    }
                }
                assert forall|c: ChunkCoord|
                    loaded@.contains(c) && !pre.has_chunk(c) implies (#[trigger] self.spec_chunk(
                    c,
                )).material_palette@.len() == 1 && !self.spec_chunk(c).modified by {
                    assert(mid.chunks == entry.chunks);
                    assert(entry.has_chunk(c) <==> (pre.has_chunk(c) || loaded0.contains(c)));
                    assert(mid.has_chunk(c) == entry.has_chunk(c));
                    if c == coord {
                        assert(!loaded0.contains(coord));
                        assert(!mid.has_chunk(coord));
                    } else {
                        assert(loaded0.contains(c));
                        assert(entry.spec_chunk(c).material_palette@.len() == 1
                            && !entry.spec_chunk(c).modified);
                        assert(mid.spec_chunk(c) == entry.spec_chunk(c));
                        assert(self.spec_chunk(c) == mid.spec_chunk(c));
                    }
                }
                assert forall|c: ChunkCoord|
                    #[trigger] queue_has(self.loading_queue@, c) <==> queue_has(
                    pre.loading_queue@,
                    c,
                ) && !loaded@.contains(c) by {
                    assert(queue_has(mid.loading_queue@, c) <==> (queue_has(q0, c) && c
                        != coord));
                    assert(q0 == entry.loading_queue@);
                    assert(queue_has(entry.loading_queue@, c) <==> (queue_has(
                        pre.loading_queue@,
                        c,
                    ) && !loaded0.contains(c)));
                    assert(self.loading_queue == mid.loading_queue);
                }
                assert forall|i: int, j: int|
                    0 <= i < j < loaded@.len() implies world_dist_sq(
                    #[trigger] loaded@[i],
                    pre.chunk_size,
                    player_pos,
                ) <= world_dist_sq(#[trigger] loaded@[j], pre.chunk_size, player_pos) by {
                    assert(loaded@[i] == loaded0[i]);
                    if j < loaded0.len() {
                        assert(loaded@[j] == loaded0[j]);
                    } else {
                        assert(loaded@[j] == coord);
                        assert(queue_has(q0, coord));
                        assert(world_dist_sq(loaded0[i], pre.chunk_size, player_pos)
                            <= world_dist_sq(coord, pre.chunk_size, player_pos));
                    }
                }
                assert forall|i: int, c: ChunkCoord|
                    0 <= i < loaded@.len() && #[trigger] queue_has(self.loading_queue@, c)
                        implies world_dist_sq(#[trigger] loaded@[i], pre.chunk_size, player_pos)
                        <= world_dist_sq(c, pre.chunk_size, player_pos) by {
                    assert(queue_has(q0, c));
                    if i < loaded0.len() {
                        assert(loaded@[i] == loaded0[i]);
                    } else {
                        assert(loaded@[i] == coord);
                        let l = choose|l: int|
                            0 <= l < self.loading_queue@.len() && self.loading_queue@[l] == c;
                        if l < best {
                            assert(q0[l] == c);
                            assert(world_dist_sq(q0[best as int], pre.chunk_size, player_pos)
                                <= world_dist_sq(q0[l], pre.chunk_size, player_pos));
                        } else {
                            assert(q0[l + 1] == c);
                            assert(world_dist_sq(q0[best as int], pre.chunk_size, player_pos)
                                <= world_dist_sq(q0[l + 1], pre.chunk_size, player_pos));
                        }
                    }
                }
            }
        }
        proof {
            if count < budget {
                assert(self.loading_queue@.len() == 0);
            }
        }
        loaded
    }

    /// Recomputes the observer's chunk; on a change, enqueues every chunk
    /// within the render radius and evicts every chunk beyond the unload
    /// distance. A no-op while the observer stays in the same chunk.
    /// Returns the modified chunks that were evicted.
    pub fn update_player_position(&mut self, player_pos: VoxelPos, config: &GameConfig) -> (saved:
        Vec<ChunkData>)
        requires
            old(self).wf(),
            config.wf(),
            player_pos.in_chunk_range(old(self).chunk_size),
            ChunkCoord::spec_from_world_pos(player_pos, old(self).chunk_size).can_offset(
                config.render_distance as int,
            ),
        ensures
            final(self).wf(),
            ({
                let new_chunk = ChunkCoord::spec_from_world_pos(player_pos, old(self).chunk_size);
                if old(self).player_chunk == Some(new_chunk) {
                    *final(self) == *old(self) && saved@.len() == 0
                } else {
                    &&& final(self).player_chunk == Some(new_chunk)
                    &&& forall|c: ChunkCoord|
                        #[trigger] final(self).has_chunk(c) <==> old(self).has_chunk(c)
                            && cheb_dist(new_chunk, c) <= config.unload_distance
                    &&& forall|c: ChunkCoord|
                        final(self).has_chunk(c) ==> #[trigger] final(self).spec_chunk(c) == old(
                            self,
                        ).spec_chunk(c)
                    &&& forall|c: ChunkCoord|
                        #[trigger] queue_has(final(self).loading_queue@, c) <==> queue_has(
                            old(self).loading_queue@,
                            c,
                        ) || (eucl_dist_sq(new_chunk, c) <= config.render_distance
                            * config.render_distance && !old(self).has_chunk(c))
                    &&& forall|i: int|
                        0 <= i < saved@.len() ==> (#[trigger] saved@[i]).modified && old(
                            self,
                        ).has_chunk(saved@[i].coord) && saved@[i] == old(self).spec_chunk(
                            saved@[i].coord,
                        )
                    &&& final(self).meshing_queue == old(self).meshing_queue
                    &&& final(self).priority_meshing_queue == old(self).priority_meshing_queue
                    &&& final(self).chunk_size == old(self).chunk_size
                }
            }),
    {
        let new_chunk = ChunkCoord::from_world_pos(player_pos, self.chunk_size);
        let same = match self.player_chunk {
            Some(c) => c == new_chunk,
            None => false,
        };
        if same {
            return Vec::new();
        }
        self.player_chunk = Some(new_chunk);
        self.queue_chunks_for_loading(new_chunk, config);
        self.unload_distant_chunks(new_chunk, config)
    }
}

} // verus!
