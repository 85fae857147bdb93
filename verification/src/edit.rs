//! The edit engine: brush-shaped voxel mutations and the remesh
//! invalidation cascade.
//!
//! Brush centers and radii are carried in half-voxel units, so a brush can
//! sit on a voxel center (odd coordinates) or a corner (even coordinates)
//! and radii can step by half a voxel.

use vstd::prelude::*;
use crate::coords::{ChunkCoord, VoxelPos, cheb_dist, lemma_axis_world_fits};
use crate::voxel::{Voxel, MaterialRegistry};
use crate::chunk::{ChunkData, PALETTE_CAP, vox_index};
use crate::world::{VoxelWorld, queue_has, coord_in, lemma_chunk_at, lemma_lookup_after_chunk_update};
use crate::normals::{HalfVec, spec_world_name};
use crate::inventory::{Inventory, total_of};

verus! {

/// The two brush shapes.
#[derive(Clone, Copy, Debug, PartialEq, Eq, Structural)]
pub enum BrushShape {
    Ball,
    Cube,
}

/// Brush configuration: reach (for an external picking ray), radius and
/// shape. Distances in half-voxel units.
#[derive(Clone, Copy, Debug)]
pub struct VoxelEditingConfig {
    pub reach_distance: i64,
    pub brush_radius: i64,
    pub brush_shape: BrushShape,
}

impl VoxelEditingConfig {
    pub open spec fn wf(self) -> bool {
        0 <= self.brush_radius <= 0x1000
    }
}

impl Default for VoxelEditingConfig {
    fn default() -> (c: VoxelEditingConfig)
        ensures
            c == (VoxelEditingConfig {
                reach_distance: 16,
                brush_radius: 4,
                brush_shape: BrushShape::Ball,
            }),
            c.wf(),
    {
        VoxelEditingConfig { reach_distance: 16, brush_radius: 4, brush_shape: BrushShape::Ball }
    }
}

/// Lowest cell index a brush along one axis can touch.
pub open spec fn brush_lo(c: int, radius: int) -> int {
    (c - radius) / 2
}

/// Highest cell index a brush along one axis can touch.
pub open spec fn brush_hi(c: int, radius: int) -> int {
    (c + radius + 1) / 2
}

/// Whether the voxel cell `(cx, cy, cz)` lies inside the brush: a ball
/// takes cells whose centers lie within squared distance `radius²` of the
/// brush center (boundary inclusive); a cube takes every cell of the
/// axis-aligned box of half-width `radius`.
pub open spec fn spec_in_brush(
    shape: BrushShape,
    center: HalfVec,
    radius: int,
    cx: int,
    cy: int,
    cz: int,
) -> bool {
    match shape {
        BrushShape::Ball => {
            let dx = 2 * cx + 1 - center.x;
            let dy = 2 * cy + 1 - center.y;
            let dz = 2 * cz + 1 - center.z;
            dx * dx + dy * dy + dz * dz <= radius * radius
        },
        BrushShape::Cube => {
            let dx = 2 * cx + 1 - center.x;
            let dy = 2 * cy + 1 - center.y;
            let dz = 2 * cz + 1 - center.z;
            &&& -radius <= dx <= radius
            &&& -radius <= dy <= radius
            &&& -radius <= dz <= radius
        },
    }
}

/// A cell inside a brush lies inside the brush's bounding box.
pub proof fn lemma_ball_in_box(
    shape: BrushShape,
    center: HalfVec,
    radius: int,
    cx: int,
    cy: int,
    cz: int,
)
    requires
        0 <= radius,
        spec_in_brush(shape, center, radius, cx, cy, cz),
    ensures
        brush_lo(center.x as int, radius) <= cx <= brush_hi(center.x as int, radius),
        brush_lo(center.y as int, radius) <= cy <= brush_hi(center.y as int, radius),
        brush_lo(center.z as int, radius) <= cz <= brush_hi(center.z as int, radius),
{
    let dx = 2 * cx + 1 - center.x;
    let dy = 2 * cy + 1 - center.y;
    let dz = 2 * cz + 1 - center.z;
    match shape {
        BrushShape::Ball => {
            assert(-radius <= dx <= radius && -radius <= dy <= radius && -radius <= dz
                <= radius) by (nonlinear_arith)
                requires
                    0 <= radius,
                    dx * dx + dy * dy + dz * dz <= radius * radius,
            ;
        },
        BrushShape::Cube => {},
    }
    lemma_axis_in_box(center.x as int, radius, cx);
    lemma_axis_in_box(center.y as int, radius, cy);
    lemma_axis_in_box(center.z as int, radius, cz);
}

/// One axis of the box bound: a cell center within `radius` of the brush
/// center lies between the box's cell bounds.
proof fn lemma_axis_in_box(c: int, radius: int, cell: int)
    requires
        0 <= radius,
        c - radius <= 2 * cell + 1 <= c + radius,
    ensures
        brush_lo(c, radius) <= cell <= brush_hi(c, radius),
{
    vstd::arithmetic::div_mod::lemma_fundamental_div_mod(c - radius, 2);
    vstd::arithmetic::div_mod::lemma_mod_division_less_than_divisor(c - radius, 2);
    vstd::arithmetic::div_mod::lemma_fundamental_div_mod(c + radius + 1, 2);
    vstd::arithmetic::div_mod::lemma_mod_division_less_than_divisor(c + radius + 1, 2);
}

/// The whole brush stays inside the world band addressable at the world's
/// chunk size, with one chunk of slack for the remesh cascade.
pub open spec fn brush_in_range(w: VoxelWorld, center: HalfVec, radius: int) -> bool {
    &&& -0x2000_0000_0000 <= center.x <= 0x2000_0000_0000
    &&& -0x2000_0000_0000 <= center.y <= 0x2000_0000_0000
    &&& -0x2000_0000_0000 <= center.z <= 0x2000_0000_0000
    &&& (i32::MIN + 2) * w.chunk_size + 0x1002 <= center.x / 2
    &&& center.x / 2 < (i32::MAX - 1) * w.chunk_size - 0x1002
    &&& (i32::MIN + 2) * w.chunk_size + 0x1002 <= center.y / 2
    &&& center.y / 2 < (i32::MAX - 1) * w.chunk_size - 0x1002
    &&& (i32::MIN + 2) * w.chunk_size + 0x1002 <= center.z / 2
    &&& center.z / 2 < (i32::MAX - 1) * w.chunk_size - 0x1002
}

/// Writes one cell: interns `name` in the owning loaded chunk's palette
/// and stores the resulting voxel. Reports the owning chunk and whether
/// the stored voxel actually changed; positions in unloaded chunks are
/// left alone. The terrain generator fills fresh chunks through this;
/// brushes add the remesh cascade on top.
pub fn set_material_at_world_pos(w: &mut VoxelWorld, pos: VoxelPos, name: &str) -> (r: Option<(
    ChunkCoord,
    bool,
)>)
    requires
        old(w).wf(),
        pos.in_chunk_range(old(w).chunk_size),
        forall|c: ChunkCoord|
            old(w).has_chunk(c) ==> (#[trigger] old(w).spec_chunk(c)).palette_contains(name@)
                || old(w).spec_chunk(c).material_palette@.len() < PALETTE_CAP,
    ensures
        final(w).wf(),
        final(w).chunk_size == old(w).chunk_size,
        final(w).loading_queue == old(w).loading_queue,
        final(w).meshing_queue == old(w).meshing_queue,
        final(w).priority_meshing_queue == old(w).priority_meshing_queue,
        final(w).player_chunk == old(w).player_chunk,
        forall|c: ChunkCoord| #[trigger] final(w).has_chunk(c) == old(w).has_chunk(c),
        ({
            let owner = ChunkCoord::spec_from_world_pos(pos, old(w).chunk_size);
            if old(w).has_chunk(owner) {
                &&& r is Some
                &&& r.unwrap().0 == owner
                &&& r.unwrap().1 == (spec_world_name(*old(w), pos) != name@)
                &&& spec_world_name(*final(w), pos) == name@
                &&& forall|p2: VoxelPos|
                    p2 != pos ==> spec_world_name(*final(w), p2) == spec_world_name(
                        *old(w),
                        p2,
                    )
                &&& forall|c: ChunkCoord|
                    c != owner && old(w).has_chunk(c) ==> #[trigger] final(w).spec_chunk(c)
                        == old(w).spec_chunk(c)
                &&& final(w).spec_chunk(owner).modified == (old(w).spec_chunk(owner).modified
                    || r.unwrap().1)
                &&& final(w).spec_chunk(owner).coord == owner
                &&& final(w).spec_chunk(owner).size == old(w).spec_chunk(owner).size
                &&& palette_extended(
                    old(w).spec_chunk(owner).material_palette@,
                    final(w).spec_chunk(owner).material_palette@,
                    name@,
                )
                &&& forall|c: ChunkCoord|
                    old(w).has_chunk(c) && (#[trigger] old(w).spec_chunk(c)).palette_contains(
                        name@,
                    ) ==> final(w).spec_chunk(c).palette_contains(name@)
                &&& forall|c: ChunkCoord|
                    old(w).has_chunk(c) ==> (#[trigger] final(w).spec_chunk(
                        c,
                    )).material_palette@.len() >= old(w).spec_chunk(c).material_palette@.len()
            } else {
                r is None && *final(w) == *old(w)
            }
        }),
{
    let ghost pre = *w;
    let coord = ChunkCoord::from_world_pos(pos, w.chunk_size);
    let idx = match w.find_chunk(coord) {
        Some(i) => i,
        None => {
            return None;
        },
    };
    proof {
        lemma_axis_world_fits(coord.x as int, w.chunk_size as int);
        lemma_axis_world_fits(coord.y as int, w.chunk_size as int);
        lemma_axis_world_fits(coord.z as int, w.chunk_size as int);
        crate::coords::lemma_owner_bounds(pos, w.chunk_size);
    }
    proof {
        lemma_chunk_at(w.chunks@, idx as int);
        assert(pre.spec_chunk(coord).palette_contains(name@) || pre.spec_chunk(
            coord,
        ).material_palette@.len() < PALETTE_CAP);
    }
    let chunk = &mut w.chunks[idx];
    let ghost chunk0 = *chunk;
    proof {
        assert(chunk0 == pre.spec_chunk(coord));
        assert(chunk0.wf());
    }
    let origin = chunk.coord.to_world_pos(chunk.size);
    let lx = (pos.x - origin.x) as usize;
    let ly = (pos.y - origin.y) as usize;
    let lz = (pos.z - origin.z) as usize;
    let old_voxel = chunk.get_voxel(lx, ly, lz).unwrap();
    let id = chunk.get_material_id(name);
    let changed = old_voxel.material_id != id;
    let ok = chunk.set_voxel(lx, ly, lz, Voxel::new(id));
    proof {
        assert(ok);
        assert(w.wf());
        lemma_chunk_at(w.chunks@, idx as int);
        assert forall|c: ChunkCoord| #[trigger] w.has_chunk(c) == pre.has_chunk(c) by {
            if c != coord {
                lemma_lookup_after_chunk_update(pre.chunks@, w.chunks@, idx as int, c);
            } else {
                lemma_chunk_at(pre.chunks@, idx as int);
            }
        }
        assert forall|c: ChunkCoord| c != coord && pre.has_chunk(c) implies
            #[trigger] w.spec_chunk(c) == pre.spec_chunk(c) by {
            lemma_lookup_after_chunk_update(pre.chunks@, w.chunks@, idx as int, c);
        }
        lemma_cell_name_after_write(pre, *w, coord, pos, chunk0, name@, id);
        let o = coord.spec_to_world_pos(pre.chunk_size);
        let ox = pos.x - o.x;
        let oy = pos.y - o.y;
        let oz = pos.z - o.z;
        crate::chunk::lemma_vox_index_bounds(pre.chunk_size as int, ox, oy, oz);
        assert(old_voxel == chunk0.spec_voxel(ox, oy, oz));
        assert(old_voxel.material_id < chunk0.material_palette@.len());
        assert(spec_world_name(pre, pos) == chunk0.material_palette@[
            old_voxel.material_id as int
        ]@);
        chunk0.lemma_palette_index_at(old_voxel.material_id as int);
        if chunk0.palette_contains(name@) {
            assert(id == chunk0.palette_index_of(name@));
            assert(chunk0.material_palette@[chunk0.palette_index_of(name@)]@ == name@);
            if old_voxel.material_id == id {
                assert(spec_world_name(pre, pos) == name@);
            } else {
                if spec_world_name(pre, pos) == name@ {
                    assert(chunk0.palette_index_of(name@) == old_voxel.material_id as int);
                    assert(false);
                }
            }
        } else {
            assert(id == chunk0.material_palette@.len());
            assert(old_voxel.material_id != id);
            if spec_world_name(pre, pos) == name@ {
                assert(chunk0.palette_contains(name@));
                assert(false);
            }
        }
    }
    Some((coord, changed))
}

/// The new palette is the old one, or the old one with `name` appended.
pub open spec fn palette_extended(
    old_p: Seq<String>,
    new_p: Seq<String>,
    name: Seq<char>,
) -> bool {
    new_p == old_p || (new_p.len() == old_p.len() + 1 && (forall|i: int|
        0 <= i < old_p.len() ==> new_p[i] == old_p[i]) && new_p[old_p.len() as int]@ == name)
}

/// After writing the interned voxel at `pos`, that position reads as
/// `name` and every other position reads as before.
proof fn lemma_cell_name_after_write(
    pre: VoxelWorld,
    post: VoxelWorld,
    coord: ChunkCoord,
    pos: VoxelPos,
    chunk0: ChunkData,
    name: Seq<char>,
    id: u8,
)
    requires
        pre.wf(),
        post.wf(),
        pre.has_chunk(coord),
        post.has_chunk(coord),
        post.chunk_size == pre.chunk_size,
        coord == ChunkCoord::spec_from_world_pos(pos, pre.chunk_size),
        chunk0 == pre.spec_chunk(coord),
        forall|c: ChunkCoord| #[trigger] post.has_chunk(c) == pre.has_chunk(c),
        forall|c: ChunkCoord|
            c != coord && pre.has_chunk(c) ==> #[trigger] post.spec_chunk(c) == pre.spec_chunk(
                c,
            ),
        post.spec_chunk(coord).coord == chunk0.coord,
        post.spec_chunk(coord).size == chunk0.size,
        chunk0.coord == coord,
        chunk0.size == pre.chunk_size,
        palette_extended(
            chunk0.material_palette@,
            post.spec_chunk(coord).material_palette@,
            name,
        ),
        post.spec_chunk(coord).palette_contains(name),
        post.spec_chunk(coord).palette_index_of(name) == id,
        chunk0.in_bounds(
            pos.x - coord.spec_to_world_pos(pre.chunk_size).x,
            pos.y - coord.spec_to_world_pos(pre.chunk_size).y,
            pos.z - coord.spec_to_world_pos(pre.chunk_size).z,
        ),
        post.spec_chunk(coord).voxels@ == chunk0.voxels@.update(
            vox_index(
                chunk0.size as int,
                pos.x - coord.spec_to_world_pos(pre.chunk_size).x,
                pos.y - coord.spec_to_world_pos(pre.chunk_size).y,
                pos.z - coord.spec_to_world_pos(pre.chunk_size).z,
            ),
            Voxel { material_id: id },
        ),
    ensures
        spec_world_name(post, pos) == name,
        forall|p2: VoxelPos|
            p2 != pos ==> spec_world_name(post, p2) == spec_world_name(pre, p2),
{
    let size = pre.chunk_size;
    let o = coord.spec_to_world_pos(size);
    let ox = pos.x - o.x;
    let oy = pos.y - o.y;
    let oz = pos.z - o.z;
    let ch = post.spec_chunk(coord);
    crate::chunk::lemma_vox_index_bounds(size as int, ox, oy, oz);
    assert(ch.spec_voxel(ox, oy, oz) == Voxel { material_id: id });
    ch.lemma_palette_index_at(id as int);
    assert(ch.material_palette@[id as int]@ == name);
    assert(spec_world_name(post, pos) == name);
    assert forall|p2: VoxelPos| p2 != pos implies spec_world_name(post, p2)
        == spec_world_name(pre, p2) by {
        let c2 = ChunkCoord::spec_from_world_pos(p2, size);
        if pre.has_chunk(c2) {
            if c2 != coord {
            } else {
                let ox2 = p2.x - o.x;
                let oy2 = p2.y - o.y;
                let oz2 = p2.z - o.z;
                if chunk0.in_bounds(ox2, oy2, oz2) {
                    crate::chunk::lemma_vox_index_bounds(size as int, ox2, oy2, oz2);
                    if !(ox2 == ox && oy2 == oy && oz2 == oz) {
                        crate::chunk::lemma_vox_index_injective(
                            size as int,
                            ox2,
                            oy2,
                            oz2,
                            ox,
                            oy,
                            oz,
                        );
                        assert(ch.spec_voxel(ox2, oy2, oz2) == chunk0.spec_voxel(ox2, oy2, oz2));
                        assert(chunk0.spec_voxel(ox2, oy2, oz2).material_id
                            < chunk0.material_palette@.len());
                    } else {
                        assert(p2 == pos);
                    }
                }
            }
        }
    }
}


/// The chunk that owns a world cell.
pub open spec fn owner_of(w: VoxelWorld, pos: VoxelPos) -> ChunkCoord {
    ChunkCoord::spec_from_world_pos(pos, w.chunk_size)
}

/// Whether applying the brush changes at least one voxel of chunk `c`:
/// some in-brush cell it owns reads as a different material.
pub open spec fn spec_chunk_changed(
    w: VoxelWorld,
    shape: BrushShape,
    center: HalfVec,
    radius: int,
    name: Seq<char>,
    c: ChunkCoord,
) -> bool {
    exists|pos: VoxelPos|
        #[trigger] spec_in_brush(shape, center, radius, pos.x as int, pos.y as int, pos.z as int)
            && owner_of(w, pos) == c && w.has_chunk(c) && spec_world_name(w, pos) != name
}

/// The chunks a brush may mark for remeshing: a chunk in which a voxel
/// actually changed, or a loaded neighbor of one. Nothing else may join
/// the priority-mesh queue.
pub open spec fn brush_marks(
    w: VoxelWorld,
    shape: BrushShape,
    center: HalfVec,
    radius: int,
    name: Seq<char>,
    c: ChunkCoord,
) -> bool {
    spec_chunk_changed(w, shape, center, radius, name, c) || (w.has_chunk(c) && exists|k: ChunkCoord|
        #[trigger] cheb_dist(k, c) == 1 && spec_chunk_changed(w, shape, center, radius, name, k))
}

/// The chunks marked by the first `k` entries of the recorded changed-chunk
/// list: the entries themselves and loaded chunks adjacent to them.
spec fn marked_by(mods: Seq<ChunkCoord>, k: int, w: VoxelWorld, c: ChunkCoord) -> bool {
    exists|j: int|
        0 <= j < k && ((#[trigger] mods[j]) == c || (cheb_dist(mods[j], c) == 1 && w.has_chunk(
            c,
        )))
}

/// Quotients by the chunk size stay between the chunk coordinates whose
/// spans bound the value.
proof fn lemma_quotient_range(v: int, size: int, lo_c: int, hi_c: int)
    requires
        1 <= size,
        lo_c * size <= v,
        v < hi_c * size,
        lo_c <= hi_c,
    ensures
        lo_c <= v / size < hi_c,
{
    vstd::arithmetic::div_mod::lemma_fundamental_div_mod(v, size);
    vstd::arithmetic::div_mod::lemma_mod_division_less_than_divisor(v, size);
    let q = v / size;
    let r = v % size;
    if q < lo_c {
        assert(false) by (nonlinear_arith)
            requires
                1 <= size,
                v == size * q + r,
                0 <= r < size,
                q <= lo_c - 1,
                lo_c * size <= v,
        ;
    }
    if q >= hi_c {
        assert(false) by (nonlinear_arith)
            requires
                1 <= size,
                v == size * q + r,
                0 <= r < size,
                q >= hi_c,
                v < hi_c * size,
        ;
    }
}

/// Cells of an in-range brush lie in the addressable world with two chunks
/// of slack, and their owners have a chunk of slack on every axis.
proof fn lemma_brush_cell_range(w: VoxelWorld, center: HalfVec, radius: int, pos: VoxelPos)
    requires
        w.wf(),
        0 <= radius <= 0x1000,
        brush_in_range(w, center, radius),
        brush_lo(center.x as int, radius) <= pos.x <= brush_hi(center.x as int, radius),
        brush_lo(center.y as int, radius) <= pos.y <= brush_hi(center.y as int, radius),
        brush_lo(center.z as int, radius) <= pos.z <= brush_hi(center.z as int, radius),
    ensures
        pos.in_chunk_range(w.chunk_size),
        owner_of(w, pos).can_offset(1),
{
    let size = w.chunk_size as int;
    lemma_brush_axis_range(center.x as int, radius, size, pos.x as int);
    lemma_brush_axis_range(center.y as int, radius, size, pos.y as int);
    lemma_brush_axis_range(center.z as int, radius, size, pos.z as int);
    lemma_quotient_range(pos.x as int, size, i32::MIN as int + 1, i32::MAX as int);
    lemma_quotient_range(pos.y as int, size, i32::MIN as int + 1, i32::MAX as int);
    lemma_quotient_range(pos.z as int, size, i32::MIN as int + 1, i32::MAX as int);
}

/// One axis of the brushed-cell range facts.
proof fn lemma_brush_axis_range(c: int, radius: int, size: int, v: int)
    requires
        1 <= size <= 256,
        0 <= radius <= 0x1000,
        (i32::MIN + 2) * size + 0x1002 <= c / 2,
        c / 2 < (i32::MAX - 1) * size - 0x1002,
        brush_lo(c, radius) <= v <= brush_hi(c, radius),
    ensures
        (i32::MIN + 1) * size <= v,
        v < i32::MAX * size,
        i32::MIN * size <= v < (i32::MAX + 1) * size,
{
    vstd::arithmetic::div_mod::lemma_fundamental_div_mod(c, 2);
    vstd::arithmetic::div_mod::lemma_mod_division_less_than_divisor(c, 2);
    vstd::arithmetic::div_mod::lemma_fundamental_div_mod(c - radius, 2);
    vstd::arithmetic::div_mod::lemma_mod_division_less_than_divisor(c - radius, 2);
    vstd::arithmetic::div_mod::lemma_fundamental_div_mod(c + radius + 1, 2);
    vstd::arithmetic::div_mod::lemma_mod_division_less_than_divisor(c + radius + 1, 2);
    assert((i32::MIN + 2) * size + size <= (i32::MIN + 2) * size + 0x1002 + 0x1002) by (
        nonlinear_arith)
        requires
            1 <= size <= 256,
    ;
    assert((i32::MIN + 1) * size + size == (i32::MIN + 2) * size && (i32::MAX - 1) * size + size
        == i32::MAX * size && i32::MIN * size <= (i32::MIN + 1) * size && i32::MAX * size < (
    i32::MAX + 1) * size) by (nonlinear_arith)
        requires
            1 <= size <= 256,
    ;
}

/// Mutates every in-brush voxel of every loaded chunk to `name`, then
/// cascades remesh invalidation: each chunk that actually changed, and
/// every loaded neighbor of it, joins the priority-mesh queue exactly once.
pub fn apply_brush_with_material(
    world: &mut VoxelWorld,
    center: HalfVec,
    shape: BrushShape,
    radius: i64,
    name: &str,
)
    requires
        old(world).wf(),
        0 <= radius <= 0x1000,
        brush_in_range(*old(world), center, radius as int),
        forall|c: ChunkCoord|
            old(world).has_chunk(c) ==> (#[trigger] old(world).spec_chunk(c)).palette_contains(
                name@,
            ) || old(world).spec_chunk(c).material_palette@.len() < PALETTE_CAP,
    ensures
        final(world).wf(),
        final(world).chunk_size == old(world).chunk_size,
        final(world).loading_queue == old(world).loading_queue,
        final(world).meshing_queue == old(world).meshing_queue,
        final(world).player_chunk == old(world).player_chunk,
        forall|c: ChunkCoord| #[trigger] final(world).has_chunk(c) == old(world).has_chunk(c),
        forall|pos: VoxelPos|
            #[trigger] spec_in_brush(
                shape,
                center,
                radius as int,
                pos.x as int,
                pos.y as int,
                pos.z as int,
            ) && old(world).has_chunk(owner_of(*old(world), pos)) ==> spec_world_name(
                *final(world),
                pos,
            ) == name@,
        forall|pos: VoxelPos|
            !spec_in_brush(
                shape,
                center,
                radius as int,
                pos.x as int,
                pos.y as int,
                pos.z as int,
            ) ==> #[trigger] spec_world_name(*final(world), pos) == spec_world_name(
                *old(world),
                pos,
            ),
        forall|c: ChunkCoord|
            queue_has(old(world).priority_meshing_queue@, c) ==> queue_has(
                final(world).priority_meshing_queue@,
                c,
            ),
        forall|c: ChunkCoord|
            spec_chunk_changed(*old(world), shape, center, radius as int, name@, c)
                ==> queue_has(final(world).priority_meshing_queue@, c),
        forall|c: ChunkCoord, n: ChunkCoord|
            spec_chunk_changed(*old(world), shape, center, radius as int, name@, c) && cheb_dist(
                c,
                n,
            ) == 1 && old(world).has_chunk(n) ==> queue_has(
                final(world).priority_meshing_queue@,
                n,
            ),
        forall|c: ChunkCoord|
            #[trigger] queue_has(final(world).priority_meshing_queue@, c) ==> queue_has(
                old(world).priority_meshing_queue@,
                c,
            ) || brush_marks(*old(world), shape, center, radius as int, name@, c),
{
    let ghost pre = *world;
    let ghost radi = radius as int;
    proof {
        lemma_div2_facts(center.x as int, radius as int);
        lemma_div2_facts(center.y as int, radius as int);
        lemma_div2_facts(center.z as int, radius as int);
    }
    let lo_x = (center.x - radius).checked_div_euclid(2).unwrap();
    let hi_x = (center.x + radius + 1).checked_div_euclid(2).unwrap();
    let lo_y = (center.y - radius).checked_div_euclid(2).unwrap();
    let hi_y = (center.y + radius + 1).checked_div_euclid(2).unwrap();
    let lo_z = (center.z - radius).checked_div_euclid(2).unwrap();
    let hi_z = (center.z + radius + 1).checked_div_euclid(2).unwrap();
    proof {
        assert forall|px: int, py: int, pz: int|
            #[trigger] spec_in_brush(shape, center, radi, px, py, pz) implies brush_lo(
            center.x as int,
            radi,
        ) <= px <= brush_hi(center.x as int, radi) && brush_lo(center.y as int, radi) <= py
            <= brush_hi(center.y as int, radi) && brush_lo(center.z as int, radi) <= pz
            <= brush_hi(center.z as int, radi) by {
            lemma_ball_in_box(shape, center, radi, px, py, pz);
        }
    }
    let mut modified: Vec<ChunkCoord> = Vec::new();
    let mut cx = lo_x;
    while cx <= hi_x
        invariant
            pre == *old(world),
            pre.wf(),
            world.wf(),
            0 <= radius <= 0x1000,
            radi == radius as int,
            brush_in_range(pre, center, radi),
            world.chunk_size == pre.chunk_size,
            world.loading_queue == pre.loading_queue,
            world.meshing_queue == pre.meshing_queue,
            world.priority_meshing_queue == pre.priority_meshing_queue,
            world.player_chunk == pre.player_chunk,
            lo_x == brush_lo(center.x as int, radi),
            hi_x == brush_hi(center.x as int, radi),
            lo_y == brush_lo(center.y as int, radi),
            hi_y == brush_hi(center.y as int, radi),
            lo_z == brush_lo(center.z as int, radi),
            hi_z == brush_hi(center.z as int, radi),
            lo_x <= cx <= hi_x + 1,
            lo_x <= hi_x,
            lo_y <= hi_y,
            lo_z <= hi_z,
            forall|px: int, py: int, pz: int|
                #[trigger] spec_in_brush(shape, center, radi, px, py, pz) ==> lo_x <= px <= hi_x
                    && lo_y <= py <= hi_y && lo_z <= pz <= hi_z,
            forall|c: ChunkCoord| #[trigger] world.has_chunk(c) == pre.has_chunk(c),
            forall|c: ChunkCoord|
                world.has_chunk(c) ==> (#[trigger] world.spec_chunk(c)).palette_contains(name@)
                    || world.spec_chunk(c).material_palette@.len() < PALETTE_CAP,
            forall|pos: VoxelPos|
                #[trigger] spec_in_brush(
                    shape,
                    center,
                    radi,
                    pos.x as int,
                    pos.y as int,
                    pos.z as int,
                ) && pre.has_chunk(owner_of(pre, pos)) && pos.x < cx ==> spec_world_name(
                    *world,
                    pos,
                ) == name@,
            forall|pos: VoxelPos|
                !(spec_in_brush(shape, center, radi, pos.x as int, pos.y as int, pos.z as int)
                    && pos.x < cx) ==> #[trigger] spec_world_name(*world, pos)
                    == spec_world_name(pre, pos),
            forall|j: int|
                0 <= j < modified@.len() ==> pre.has_chunk(#[trigger] modified@[j])
                    && spec_chunk_changed(pre, shape, center, radi, name@, modified@[j])
                    && modified@[j].can_offset(1),
            forall|pos: VoxelPos|
                #[trigger] spec_in_brush(
                    shape,
                    center,
                    radi,
                    pos.x as int,
                    pos.y as int,
                    pos.z as int,
                ) && pre.has_chunk(owner_of(pre, pos)) && spec_world_name(pre, pos) != name@
                    && pos.x < cx ==> modified@.contains(owner_of(pre, pos)),
            forall|j: int, k: int| 0 <= j < k < modified@.len() ==> modified@[j] != modified@[k],
        decreases hi_x + 1 - cx,
    {
        let mut cy = lo_y;
        while cy <= hi_y
            invariant
                pre == *old(world),
                pre.wf(),
                world.wf(),
                0 <= radius <= 0x1000,
                radi == radius as int,
                brush_in_range(pre, center, radi),
                world.chunk_size == pre.chunk_size,
                world.loading_queue == pre.loading_queue,
                world.meshing_queue == pre.meshing_queue,
                world.priority_meshing_queue == pre.priority_meshing_queue,
                world.player_chunk == pre.player_chunk,
                lo_x == brush_lo(center.x as int, radi),
                hi_x == brush_hi(center.x as int, radi),
                lo_y == brush_lo(center.y as int, radi),
                hi_y == brush_hi(center.y as int, radi),
                lo_z == brush_lo(center.z as int, radi),
                hi_z == brush_hi(center.z as int, radi),
                lo_x <= cx <= hi_x,
                lo_y <= cy <= hi_y + 1,
                lo_z <= hi_z,
                forall|px: int, py: int, pz: int|
                    #[trigger] spec_in_brush(shape, center, radi, px, py, pz) ==> lo_x <= px <= hi_x
                        && lo_y <= py <= hi_y && lo_z <= pz <= hi_z,
                forall|c: ChunkCoord| #[trigger] world.has_chunk(c) == pre.has_chunk(c),
                forall|c: ChunkCoord|
                    world.has_chunk(c) ==> (#[trigger] world.spec_chunk(c)).palette_contains(
                        name@,
                    ) || world.spec_chunk(c).material_palette@.len() < PALETTE_CAP,
                forall|pos: VoxelPos|
                    #[trigger] spec_in_brush(
                        shape,
                        center,
                        radi,
                        pos.x as int,
                        pos.y as int,
                        pos.z as int,
                    ) && pre.has_chunk(owner_of(pre, pos)) && (pos.x < cx || (pos.x == cx && pos.y
                        < cy)) ==> spec_world_name(*world, pos) == name@,
                forall|pos: VoxelPos|
                    !(spec_in_brush(shape, center, radi, pos.x as int, pos.y as int, pos.z as int)
                        && (pos.x < cx || (pos.x == cx && pos.y < cy)))
                        ==> #[trigger] spec_world_name(*world, pos) == spec_world_name(pre, pos),
                forall|j: int|
                    0 <= j < modified@.len() ==> pre.has_chunk(#[trigger] modified@[j])
                        && spec_chunk_changed(pre, shape, center, radi, name@, modified@[j])
                        && modified@[j].can_offset(1),
                forall|pos: VoxelPos|
                    #[trigger] spec_in_brush(
                        shape,
                        center,
                        radi,
                        pos.x as int,
                        pos.y as int,
                        pos.z as int,
                    ) && pre.has_chunk(owner_of(pre, pos)) && spec_world_name(pre, pos) != name@
                        && (pos.x < cx || (pos.x == cx && pos.y < cy)) ==> modified@.contains(
                        owner_of(pre, pos),
                    ),
                forall|j: int, k: int|
                    0 <= j < k < modified@.len() ==> modified@[j] != modified@[k],
            decreases hi_y + 1 - cy,
        {
            let mut cz = lo_z;
            while cz <= hi_z
                invariant
                    pre == *old(world),
                    pre.wf(),
                    world.wf(),
                    0 <= radius <= 0x1000,
                    radi == radius as int,
                    brush_in_range(pre, center, radi),
                    world.chunk_size == pre.chunk_size,
                    world.loading_queue == pre.loading_queue,
                    world.meshing_queue == pre.meshing_queue,
                    world.priority_meshing_queue == pre.priority_meshing_queue,
                    world.player_chunk == pre.player_chunk,
                    lo_x == brush_lo(center.x as int, radi),
                    hi_x == brush_hi(center.x as int, radi),
                    lo_y == brush_lo(center.y as int, radi),
                    hi_y == brush_hi(center.y as int, radi),
                    lo_z == brush_lo(center.z as int, radi),
                    hi_z == brush_hi(center.z as int, radi),
                    lo_x <= cx <= hi_x,
                    lo_y <= cy <= hi_y,
                    lo_z <= cz <= hi_z + 1,
                    forall|px: int, py: int, pz: int|
                        #[trigger] spec_in_brush(shape, center, radi, px, py, pz) ==> lo_x <= px
                            <= hi_x && lo_y <= py <= hi_y && lo_z <= pz <= hi_z,
                    forall|c: ChunkCoord| #[trigger] world.has_chunk(c) == pre.has_chunk(c),
                    forall|c: ChunkCoord|
                        world.has_chunk(c) ==> (#[trigger] world.spec_chunk(
                            c,
                        )).palette_contains(name@) || world.spec_chunk(
                            c,
                        ).material_palette@.len() < PALETTE_CAP,
                    forall|pos: VoxelPos|
                        #[trigger] spec_in_brush(
                            shape,
                            center,
                            radi,
                            pos.x as int,
                            pos.y as int,
                            pos.z as int,
                        ) && pre.has_chunk(owner_of(pre, pos)) && (pos.x < cx || (pos.x == cx && (
                        pos.y < cy || (pos.y == cy && pos.z < cz)))) ==> spec_world_name(
                            *world,
                            pos,
                        ) == name@,
                    forall|pos: VoxelPos|
                        !(spec_in_brush(
                            shape,
                            center,
                            radi,
                            pos.x as int,
                            pos.y as int,
                            pos.z as int,
                        ) && (pos.x < cx || (pos.x == cx && (pos.y < cy || (pos.y == cy && pos.z
                            < cz))))) ==> #[trigger] spec_world_name(*world, pos)
                            == spec_world_name(pre, pos),
                    forall|j: int|
                        0 <= j < modified@.len() ==> pre.has_chunk(#[trigger] modified@[j])
                            && spec_chunk_changed(pre, shape, center, radi, name@, modified@[j])
                            && modified@[j].can_offset(1),
                    forall|pos: VoxelPos|
                        #[trigger] spec_in_brush(
                            shape,
                            center,
                            radi,
                            pos.x as int,
                            pos.y as int,
                            pos.z as int,
                        ) && pre.has_chunk(owner_of(pre, pos)) && spec_world_name(pre, pos)
                            != name@ && (pos.x < cx || (pos.x == cx && (pos.y < cy || (pos.y == cy
                            && pos.z < cz)))) ==> modified@.contains(owner_of(pre, pos)),
                    forall|j: int, k: int|
                        0 <= j < k < modified@.len() ==> modified@[j] != modified@[k],
                decreases hi_z + 1 - cz,
            {
                let pos = VoxelPos { x: cx, y: cy, z: cz };
                let inside = match shape {
                    BrushShape::Ball => {
                        let dx = (2 * cx + 1 - center.x) as i128;
                        let dy = (2 * cy + 1 - center.y) as i128;
                        let dz = (2 * cz + 1 - center.z) as i128;
                        proof {
                            assert(0 <= dx * dx <= 0x1_0000_0000_0000_0000_0000_0000 && 0 <= dy
                                * dy <= 0x1_0000_0000_0000_0000_0000_0000 && 0 <= dz * dz
                                <= 0x1_0000_0000_0000_0000_0000_0000) by (nonlinear_arith)
                                requires
                                    -0x1_0000_0000_0000 <= dx <= 0x1_0000_0000_0000,
                                    -0x1_0000_0000_0000 <= dy <= 0x1_0000_0000_0000,
                                    -0x1_0000_0000_0000 <= dz <= 0x1_0000_0000_0000,
                            ;
                            assert(0 <= (radius as i128) * (radius as i128) <= 0x100_0000) by (
                                nonlinear_arith)
                                requires
                                    0 <= radius <= 0x1000,
                            ;
                        }
                        dx * dx + dy * dy + dz * dz <= (radius as i128) * (radius as i128)
                    },
                    BrushShape::Cube => {
                        let dx = 2 * cx + 1 - center.x;
                        let dy = 2 * cy + 1 - center.y;
                        let dz = 2 * cz + 1 - center.z;
                        -radius <= dx && dx <= radius && -radius <= dy && dy <= radius && -radius
                            <= dz && dz <= radius
                    },
                };
                proof {
                    assert(inside == spec_in_brush(
                        shape,
                        center,
                        radi,
                        cx as int,
                        cy as int,
                        cz as int,
                    ));
                }
                let ghost w_mid = *world;
                let ghost mod0 = modified@;
                let ghost did_write = inside && pre.has_chunk(owner_of(pre, pos));
                if inside {
                    proof {
                        lemma_brush_cell_range(pre, center, radi, pos);
                    }
                    let r = set_material_at_world_pos(world, pos, name);
                    match r {
                        Some((owner, changed)) => {
                            if changed {
                                if !coord_in(&modified, owner) {
                                    modified.push(owner);
                                    proof {
                                        assert(modified@[mod0.len() as int] == owner);
                                        assert(spec_world_name(pre, pos) == spec_world_name(
                                            w_mid,
                                            pos,
                                        ));
                                        assert(spec_in_brush(
                                            shape,
                                            center,
                                            radi,
                                            pos.x as int,
                                            pos.y as int,
                                            pos.z as int,
                                        ) && owner_of(pre, pos) == owner && pre.has_chunk(owner)
                                            && spec_world_name(pre, pos) != name@);
                                        assert(spec_chunk_changed(
                                            pre,
                                            shape,
                                            center,
                                            radi,
                                            name@,
                                            owner,
                                        ));
                                        assert forall|j: int, k2: int|
                                            0 <= j < k2 < modified@.len() implies modified@[j]
                                            != modified@[k2] by {
                                            if k2 < mod0.len() {
                                            } else {
                                                assert(modified@[j] == mod0[j]);
                                                if mod0.contains(modified@[k2]) {
                                                    let l = choose|l: int|
                                                        0 <= l < mod0.len() && mod0[l]
                                                            == modified@[k2];
                                                    assert(false);
                                                }
                                            }
                                        }
                                    }
                                }
                            }
                        },
                        None => {},
                    }
                }
                proof {
                    // names at processed cells
                    assert forall|pos2: VoxelPos|
                        #[trigger] spec_in_brush(
                            shape,
                            center,
                            radi,
                            pos2.x as int,
                            pos2.y as int,
                            pos2.z as int,
                        ) && pre.has_chunk(owner_of(pre, pos2)) && (pos2.x < cx || (pos2.x == cx
                            && (pos2.y < cy || (pos2.y == cy && pos2.z < cz + 1)))) implies
                        spec_world_name(*world, pos2) == name@ by {
                        if pos2.x < cx || (pos2.x == cx && (pos2.y < cy || (pos2.y == cy
                            && pos2.z < cz))) {
                            assert(spec_world_name(w_mid, pos2) == name@);
                            if pos2 != pos {
                            } else {
                                assert(spec_world_name(*world, pos2) == name@);
                            }
                        } else {
                            assert(pos2 == pos);
                            assert(spec_world_name(*world, pos) == name@);
                        }
                    }
                    // names at untouched cells
                    assert forall|pos2: VoxelPos|
                        !(spec_in_brush(
                            shape,
                            center,
                            radi,
                            pos2.x as int,
                            pos2.y as int,
                            pos2.z as int,
                        ) && (pos2.x < cx || (pos2.x == cx && (pos2.y < cy || (pos2.y == cy
                            && pos2.z < cz + 1))))) implies #[trigger] spec_world_name(
                        *world,
                        pos2,
                    ) == spec_world_name(pre, pos2) by {
                        assert(spec_world_name(w_mid, pos2) == spec_world_name(pre, pos2));
                        if did_write {
                            assert(pos2 != pos);
                            assert(spec_world_name(*world, pos2) == spec_world_name(
                                w_mid,
                                pos2,
                            ));
                        } else {
                            assert(*world == w_mid);
                        }
                    }
                    // palette room is kept
                    assert forall|c: ChunkCoord| world.has_chunk(c) implies (
                    #[trigger] world.spec_chunk(c)).palette_contains(name@) || world.spec_chunk(
                        c,
                    ).material_palette@.len() < PALETTE_CAP by {
                        assert(w_mid.spec_chunk(c).palette_contains(name@) || w_mid.spec_chunk(
                            c,
                        ).material_palette@.len() < PALETTE_CAP);
                        if did_write {
                            let owner = owner_of(pre, pos);
                            if c == owner {
                                let chm = world.spec_chunk(owner);
                                if chm.material_palette@ == w_mid.spec_chunk(
                                    owner,
                                ).material_palette@ {
                                } else {
                                    assert(chm.material_palette@[chm.material_palette@.len()
                                        - 1]@ == name@);
                                    assert(chm.palette_contains(name@));
                                }
                            } else {
                                assert(world.spec_chunk(c) == w_mid.spec_chunk(c));
                            }
                        } else {
                            assert(*world == w_mid);
                        }
                    }
                    // recorded chunks still cover every changed processed cell
                    assert forall|pos2: VoxelPos|
                        #[trigger] spec_in_brush(
                            shape,
                            center,
                            radi,
                            pos2.x as int,
                            pos2.y as int,
                            pos2.z as int,
                        ) && pre.has_chunk(owner_of(pre, pos2)) && spec_world_name(pre, pos2)
                            != name@ && (pos2.x < cx || (pos2.x == cx && (pos2.y < cy || (pos2.y
                            == cy && pos2.z < cz + 1)))) implies modified@.contains(
                        owner_of(pre, pos2),
                    ) by {
                        if pos2.x < cx || (pos2.x == cx && (pos2.y < cy || (pos2.y == cy
                            && pos2.z < cz))) {
                            assert(mod0.contains(owner_of(pre, pos2)));
                            let l = choose|l: int|
                                0 <= l < mod0.len() && mod0[l] == owner_of(pre, pos2);
                            assert(modified@[l] == owner_of(pre, pos2));
                        } else {
                            assert(pos2 == pos);
                            assert(spec_world_name(w_mid, pos) == spec_world_name(pre, pos));
                            assert(modified@.contains(owner_of(pre, pos)));
                        }
                    }
                }
                cz = cz + 1;
            }
            cy = cy + 1;
        }
        cx = cx + 1;
    }
    proof {
        assert forall|pos: VoxelPos|
            #[trigger] spec_in_brush(
                shape,
                center,
                radi,
                pos.x as int,
                pos.y as int,
                pos.z as int,
            ) && pre.has_chunk(owner_of(pre, pos)) implies spec_world_name(*world, pos)
            == name@ by {
            if pos.x > hi_x || pos.x < lo_x || pos.y > hi_y || pos.y < lo_y || pos.z > hi_z
                || pos.z < lo_z {
                lemma_ball_in_box(shape, center, radi, pos.x as int, pos.y as int, pos.z as int);
            }
        }
        assert forall|c: ChunkCoord|
            spec_chunk_changed(pre, shape, center, radi, name@, c) implies modified@.contains(
            c,
        ) by {
            let pos = choose|pos: VoxelPos|
                #[trigger] spec_in_brush(
                    shape,
                    center,
                    radi,
                    pos.x as int,
                    pos.y as int,
                    pos.z as int,
                ) && owner_of(pre, pos) == c && pre.has_chunk(c) && spec_world_name(pre, pos)
                    != name@;
            if pos.x > hi_x || pos.x < lo_x || pos.y > hi_y || pos.y < lo_y || pos.z > hi_z
                || pos.z < lo_z {
                lemma_ball_in_box(shape, center, radi, pos.x as int, pos.y as int, pos.z as int);
            }
        }
    }
    let ghost w_phase1 = *world;
    let m = modified.len();
    let mut k: usize = 0;
    while k < m
        invariant
            pre == *old(world),
            pre.wf(),
            world.wf(),
            m == modified@.len(),
            k <= m,
            world.chunks == w_phase1.chunks,
            world.chunk_size == pre.chunk_size,
            world.loading_queue == pre.loading_queue,
            world.meshing_queue == pre.meshing_queue,
            world.player_chunk == pre.player_chunk,
            forall|c: ChunkCoord| #[trigger] w_phase1.has_chunk(c) == pre.has_chunk(c),
            forall|c: ChunkCoord| #[trigger] world.has_chunk(c) == w_phase1.has_chunk(c),
            forall|j: int|
                0 <= j < m ==> pre.has_chunk(#[trigger] modified@[j]) && modified@[j].can_offset(
                    1,
                ),
            forall|c: ChunkCoord|
                queue_has(pre.priority_meshing_queue@, c) ==> queue_has(
                    world.priority_meshing_queue@,
                    c,
                ),
            forall|j: int|
                0 <= j < k ==> queue_has(
                    world.priority_meshing_queue@,
                    #[trigger] modified@[j],
                ),
            forall|j: int, n: ChunkCoord|
                0 <= j < k && #[trigger] cheb_dist(modified@[j], n) == 1 && pre.has_chunk(n)
                    ==> queue_has(world.priority_meshing_queue@, n),
            forall|c: ChunkCoord|
                #[trigger] queue_has(world.priority_meshing_queue@, c) ==> queue_has(
                    pre.priority_meshing_queue@,
                    c,
                ) || marked_by(modified@, k as int, pre, c),
        decreases m - k,
    {
        let c = modified[k];
        let ghost w_before = *world;
        world.mark_chunk_and_neighbors_for_remesh(c);
        proof {
            assert forall|c2: ChunkCoord|
                #[trigger] queue_has(world.priority_meshing_queue@, c2) implies queue_has(
                pre.priority_meshing_queue@,
                c2,
            ) || marked_by(modified@, k as int + 1, pre, c2) by {
                if queue_has(w_before.priority_meshing_queue@, c2) {
                    if !queue_has(pre.priority_meshing_queue@, c2) {
                        assert(marked_by(modified@, k as int, pre, c2));
                        let j = choose|j: int|
                            0 <= j < k && ((#[trigger] modified@[j]) == c2 || (cheb_dist(
                                modified@[j],
                                c2,
                            ) == 1 && pre.has_chunk(c2)));
                        assert(0 <= j < k + 1 && (modified@[j] == c2 || (cheb_dist(
                            modified@[j],
                            c2,
                        ) == 1 && pre.has_chunk(c2))));
                    }
                } else {
                    if c2 == c {
                        assert(modified@[k as int] == c2);
                    } else {
                        assert(cheb_dist(c, c2) == 1 && w_before.has_chunk(c2));
                        assert(w_before.has_chunk(c2) == pre.has_chunk(c2));
                        assert(cheb_dist(modified@[k as int], c2) == 1 && pre.has_chunk(c2));
                    }
                }
            }
            assert forall|j: int| 0 <= j < k + 1 implies queue_has(
                world.priority_meshing_queue@,
                #[trigger] modified@[j],
            ) by {
                if j < k {
                    assert(queue_has(w_before.priority_meshing_queue@, modified@[j]));
                }
            }
            assert forall|j: int, n: ChunkCoord|
                0 <= j < k + 1 && #[trigger] cheb_dist(modified@[j], n) == 1 && pre.has_chunk(
                    n,
                ) implies queue_has(world.priority_meshing_queue@, n) by {
                if j < k {
                    assert(queue_has(w_before.priority_meshing_queue@, n));
                } else {
                    assert(w_before.has_chunk(n));
                }
            }
        }
        k = k + 1;
    }
    proof {
        assert forall|c: ChunkCoord|
            #[trigger] queue_has(world.priority_meshing_queue@, c) implies queue_has(
            pre.priority_meshing_queue@,
            c,
        ) || brush_marks(pre, shape, center, radi, name@, c) by {
            if !queue_has(pre.priority_meshing_queue@, c) {
                assert(marked_by(modified@, m as int, pre, c));
                let j = choose|j: int|
                    0 <= j < m && ((#[trigger] modified@[j]) == c || (cheb_dist(modified@[j], c)
                        == 1 && pre.has_chunk(c)));
                assert(spec_chunk_changed(pre, shape, center, radi, name@, modified@[j]));
                if modified@[j] == c {
                } else {
                    assert(cheb_dist(modified@[j], c) == 1 && pre.has_chunk(c));
                }
            }
        }
        assert forall|c: ChunkCoord|
            spec_chunk_changed(pre, shape, center, radi, name@, c) implies queue_has(
            world.priority_meshing_queue@,
            c,
        ) by {
            assert(modified@.contains(c));
            let j = choose|j: int| 0 <= j < modified@.len() && modified@[j] == c;
            assert(queue_has(world.priority_meshing_queue@, modified@[j]));
        }
        assert forall|c: ChunkCoord, n: ChunkCoord|
            spec_chunk_changed(pre, shape, center, radi, name@, c) && cheb_dist(c, n) == 1
                && pre.has_chunk(n) implies queue_has(world.priority_meshing_queue@, n) by {
            assert(modified@.contains(c));
            let j = choose|j: int| 0 <= j < modified@.len() && modified@[j] == c;
            assert(cheb_dist(modified@[j], n) == 1);
        }
        assert forall|pos: VoxelPos|
            !spec_in_brush(shape, center, radi, pos.x as int, pos.y as int, pos.z as int)
            implies #[trigger] spec_world_name(*world, pos) == spec_world_name(pre, pos) by {
            assert(spec_world_name(w_phase1, pos) == spec_world_name(pre, pos));
            assert(spec_world_name(*world, pos) == spec_world_name(w_phase1, pos));
        }
        assert forall|pos: VoxelPos|
            #[trigger] spec_in_brush(
                shape,
                center,
                radi,
                pos.x as int,
                pos.y as int,
                pos.z as int,
            ) && pre.has_chunk(owner_of(pre, pos)) implies spec_world_name(*world, pos)
            == name@ by {
            assert(spec_world_name(w_phase1, pos) == name@);
            assert(spec_world_name(*world, pos) == spec_world_name(w_phase1, pos));
        }
    }
}

/// Division-by-two facts for the brush box bounds.
proof fn lemma_div2_facts(c: int, radius: int)
    requires
        0 <= radius,
    ensures
        brush_lo(c, radius) <= brush_hi(c, radius),
        2 * brush_lo(c, radius) >= c - radius - 1,
        2 * brush_hi(c, radius) <= c + radius + 1,
{
    vstd::arithmetic::div_mod::lemma_fundamental_div_mod(c - radius, 2);
    vstd::arithmetic::div_mod::lemma_mod_division_less_than_divisor(c - radius, 2);
    vstd::arithmetic::div_mod::lemma_fundamental_div_mod(c + radius + 1, 2);
    vstd::arithmetic::div_mod::lemma_mod_division_less_than_divisor(c + radius + 1, 2);
    vstd::arithmetic::div_mod::lemma_div_is_ordered(c - radius, c + radius + 1, 2);
}


/// Ball brush: every voxel whose center lies within `radius` of `center`.
pub fn apply_ball_brush_with_material(
    world: &mut VoxelWorld,
    center: HalfVec,
    radius: i64,
    name: &str,
)
    requires
        old(world).wf(),
        0 <= radius <= 0x1000,
        brush_in_range(*old(world), center, radius as int),
        forall|c: ChunkCoord|
            old(world).has_chunk(c) ==> (#[trigger] old(world).spec_chunk(c)).palette_contains(
                name@,
            ) || old(world).spec_chunk(c).material_palette@.len() < PALETTE_CAP,
    ensures
        final(world).wf(),
        forall|pos: VoxelPos|
            #[trigger] spec_in_brush(
                BrushShape::Ball,
                center,
                radius as int,
                pos.x as int,
                pos.y as int,
                pos.z as int,
            ) && old(world).has_chunk(owner_of(*old(world), pos)) ==> spec_world_name(
                *final(world),
                pos,
            ) == name@,
        forall|pos: VoxelPos|
            !spec_in_brush(
                BrushShape::Ball,
                center,
                radius as int,
                pos.x as int,
                pos.y as int,
                pos.z as int,
            ) ==> #[trigger] spec_world_name(*final(world), pos) == spec_world_name(
                *old(world),
                pos,
            ),
        forall|c: ChunkCoord| #[trigger] final(world).has_chunk(c) == old(world).has_chunk(c),
        forall|c: ChunkCoord|
            spec_chunk_changed(*old(world), BrushShape::Ball, center, radius as int, name@, c)
                ==> queue_has(final(world).priority_meshing_queue@, c),
        forall|c: ChunkCoord, n: ChunkCoord|
            spec_chunk_changed(*old(world), BrushShape::Ball, center, radius as int, name@, c)
                && cheb_dist(c, n) == 1 && old(world).has_chunk(n) ==> queue_has(
                final(world).priority_meshing_queue@,
                n,
            ),
        forall|c: ChunkCoord|
            queue_has(old(world).priority_meshing_queue@, c) ==> queue_has(
                final(world).priority_meshing_queue@,
                c,
            ),
        forall|c: ChunkCoord|
            #[trigger] queue_has(final(world).priority_meshing_queue@, c) ==> queue_has(
                old(world).priority_meshing_queue@,
                c,
            ) || brush_marks(*old(world), BrushShape::Ball, center, radius as int, name@, c),
        final(world).chunk_size == old(world).chunk_size,
        final(world).loading_queue == old(world).loading_queue,
        final(world).meshing_queue == old(world).meshing_queue,
        final(world).player_chunk == old(world).player_chunk,
{
    apply_brush_with_material(world, center, BrushShape::Ball, radius, name);
}

/// Cube brush: every voxel of the axis-aligned box of half-width `radius`.
pub fn apply_cube_brush_with_material(
    world: &mut VoxelWorld,
    center: HalfVec,
    radius: i64,
    name: &str,
)
    requires
        old(world).wf(),
        0 <= radius <= 0x1000,
        brush_in_range(*old(world), center, radius as int),
        forall|c: ChunkCoord|
            old(world).has_chunk(c) ==> (#[trigger] old(world).spec_chunk(c)).palette_contains(
                name@,
            ) || old(world).spec_chunk(c).material_palette@.len() < PALETTE_CAP,
    ensures
        final(world).wf(),
        forall|pos: VoxelPos|
            #[trigger] spec_in_brush(
                BrushShape::Cube,
                center,
                radius as int,
                pos.x as int,
                pos.y as int,
                pos.z as int,
            ) && old(world).has_chunk(owner_of(*old(world), pos)) ==> spec_world_name(
                *final(world),
                pos,
            ) == name@,
        forall|pos: VoxelPos|
            !spec_in_brush(
                BrushShape::Cube,
                center,
                radius as int,
                pos.x as int,
                pos.y as int,
                pos.z as int,
            ) ==> #[trigger] spec_world_name(*final(world), pos) == spec_world_name(
                *old(world),
                pos,
            ),
        forall|c: ChunkCoord| #[trigger] final(world).has_chunk(c) == old(world).has_chunk(c),
        forall|c: ChunkCoord|
            spec_chunk_changed(*old(world), BrushShape::Cube, center, radius as int, name@, c)
                ==> queue_has(final(world).priority_meshing_queue@, c),
        forall|c: ChunkCoord, n: ChunkCoord|
            spec_chunk_changed(*old(world), BrushShape::Cube, center, radius as int, name@, c)
                && cheb_dist(c, n) == 1 && old(world).has_chunk(n) ==> queue_has(
                final(world).priority_meshing_queue@,
                n,
            ),
        forall|c: ChunkCoord|
            queue_has(old(world).priority_meshing_queue@, c) ==> queue_has(
                final(world).priority_meshing_queue@,
                c,
            ),
        forall|c: ChunkCoord|
            #[trigger] queue_has(final(world).priority_meshing_queue@, c) ==> queue_has(
                old(world).priority_meshing_queue@,
                c,
            ) || brush_marks(*old(world), BrushShape::Cube, center, radius as int, name@, c),
        final(world).chunk_size == old(world).chunk_size,
        final(world).loading_queue == old(world).loading_queue,
        final(world).meshing_queue == old(world).meshing_queue,
        final(world).player_chunk == old(world).player_chunk,
{
    apply_brush_with_material(world, center, BrushShape::Cube, radius, name);
}

/// A removal brush clears the brushed region to air; a non-removal call is
/// a no-op.
pub fn apply_brush(
    world: &mut VoxelWorld,
    center: HalfVec,
    config: &VoxelEditingConfig,
    remove: bool,
)
    requires
        old(world).wf(),
        config.wf(),
        brush_in_range(*old(world), center, config.brush_radius as int),
        forall|c: ChunkCoord|
            old(world).has_chunk(c) ==> (#[trigger] old(world).spec_chunk(c)).palette_contains(
                crate::voxel::air_name(),
            ) || old(world).spec_chunk(c).material_palette@.len() < PALETTE_CAP,
    ensures
        final(world).wf(),
        !remove ==> *final(world) == *old(world),
        remove ==> forall|pos: VoxelPos|
            #[trigger] spec_in_brush(
                config.brush_shape,
                center,
                config.brush_radius as int,
                pos.x as int,
                pos.y as int,
                pos.z as int,
            ) && old(world).has_chunk(owner_of(*old(world), pos)) ==> spec_world_name(
                *final(world),
                pos,
            ) == crate::voxel::air_name(),
{
    if remove {
        apply_brush_with_material(world, center, config.brush_shape, config.brush_radius, "air");
    }
}

/// Number of in-brush cells along `dz` below `z_upto` at fixed `(dx, dy)`,
/// for a brush at the origin.
pub open spec fn count_z(shape: BrushShape, radius: int, dx: int, dy: int, z0: int, z_upto: int) -> int
    decreases z_upto - z0,
{
    if z_upto <= z0 {
        0
    } else {
        count_z(shape, radius, dx, dy, z0, z_upto - 1) + (
        if spec_in_brush(shape, HalfVec { x: 0, y: 0, z: 0 }, radius, dx, dy, z_upto - 1) {
            1int
        } else {
            0int
        })
    }
}

pub open spec fn count_y(shape: BrushShape, radius: int, dx: int, y0: int, y_upto: int, z0: int, z1: int) -> int
    decreases y_upto - y0,
{
    if y_upto <= y0 {
        0
    } else {
        count_y(shape, radius, dx, y0, y_upto - 1, z0, z1) + count_z(
            shape,
            radius,
            dx,
            y_upto - 1,
            z0,
            z1,
        )
    }
}

pub open spec fn count_x(shape: BrushShape, radius: int, x0: int, x_upto: int, y0: int, y1: int, z0: int, z1: int) -> int
    decreases x_upto - x0,
{
    if x_upto <= x0 {
        0
    } else {
        count_x(shape, radius, x0, x_upto - 1, y0, y1, z0, z1) + count_y(
            shape,
            radius,
            x_upto - 1,
            y0,
            y1,
            z0,
            z1,
        )
    }
}

/// The number of voxels a brush at the origin affects.
pub open spec fn spec_brush_voxel_count(shape: BrushShape, radius: int) -> int {
    count_x(
        shape,
        radius,
        brush_lo(0, radius),
        brush_hi(0, radius) + 1,
        brush_lo(0, radius),
        brush_hi(0, radius) + 1,
        brush_lo(0, radius),
        brush_hi(0, radius) + 1,
    )
}

/// Counts per-level sums are bounded by the range sizes.
proof fn lemma_count_z_bounds(shape: BrushShape, radius: int, dx: int, dy: int, z0: int, z_upto: int)
    requires
        z0 <= z_upto,
    ensures
        0 <= count_z(shape, radius, dx, dy, z0, z_upto) <= z_upto - z0,
    decreases z_upto - z0,
{
    if z_upto > z0 {
        lemma_count_z_bounds(shape, radius, dx, dy, z0, z_upto - 1);
    }
}

proof fn lemma_count_y_bounds(shape: BrushShape, radius: int, dx: int, y0: int, y_upto: int, z0: int, z1: int)
    requires
        y0 <= y_upto,
        z0 <= z1,
        z1 - z0 <= 0x2000,
    ensures
        0 <= count_y(shape, radius, dx, y0, y_upto, z0, z1) <= 0x2000 * (y_upto - y0),
    decreases y_upto - y0,
{
    if y_upto > y0 {
        lemma_count_y_bounds(shape, radius, dx, y0, y_upto - 1, z0, z1);
        lemma_count_z_bounds(shape, radius, dx, y_upto - 1, z0, z1);
    }
}

proof fn lemma_count_x_bounds(shape: BrushShape, radius: int, x0: int, x_upto: int, y0: int, y1: int, z0: int, z1: int)
    requires
        x0 <= x_upto,
        y0 <= y1,
        z0 <= z1,
        y1 - y0 <= 0x2000,
        z1 - z0 <= 0x2000,
    ensures
        0 <= count_x(shape, radius, x0, x_upto, y0, y1, z0, z1) <= 0x400_0000 * (x_upto - x0),
    decreases x_upto - x0,
{
    if x_upto > x0 {
        lemma_count_x_bounds(shape, radius, x0, x_upto - 1, y0, y1, z0, z1);
        lemma_count_y_bounds(shape, radius, x_upto - 1, y0, y1, z0, z1);
    }
}

/// How many voxels the configured brush will touch, for an origin-centered
/// brush: the caller checks this against an inventory before placing.
pub fn calculate_brush_voxel_count(config: &VoxelEditingConfig) -> (count: u64)
    requires
        config.wf(),
    ensures
        count == spec_brush_voxel_count(config.brush_shape, config.brush_radius as int),
{
    let radius = config.brush_radius;
    let ghost radi = radius as int;
    proof {
        lemma_div2_facts(0, radi);
    }
    let lo = (0i64 - radius).checked_div_euclid(2).unwrap();
    let hi = (radius + 1).checked_div_euclid(2).unwrap() + 1;
    let mut count: u64 = 0;
    let mut dx = lo;
    while dx < hi
        invariant
            0 <= radi <= 0x1000,
            radi == radius as int,
            lo == brush_lo(0, radi),
            hi == brush_hi(0, radi) + 1,
            lo <= dx <= hi,
            lo <= hi,
            hi - lo <= 0x2000,
            count == count_x(config.brush_shape, radi, lo as int, dx as int, lo as int, hi as int, lo as int, hi as int),
            count <= 0x4000_0000_0000,
        decreases hi - dx,
    {
        proof {
            lemma_count_x_bounds(
                config.brush_shape,
                radi,
                lo as int,
                dx as int,
                lo as int,
                hi as int,
                lo as int,
                hi as int,
            );
        }
        let mut dy = lo;
        while dy < hi
            invariant
                0 <= radi <= 0x1000,
                radi == radius as int,
                lo == brush_lo(0, radi),
                hi == brush_hi(0, radi) + 1,
                lo <= dx < hi,
                lo <= dy <= hi,
                hi - lo <= 0x2000,
                count == count_x(config.brush_shape, radi, lo as int, dx as int, lo as int, hi as int, lo as int, hi as int)
                    + count_y(config.brush_shape, radi, dx as int, lo as int, dy as int, lo as int, hi as int),
                count <= 0x4000_8000_0000,
            decreases hi - dy,
        {
            proof {
                lemma_count_x_bounds(
                    config.brush_shape,
                    radi,
                    lo as int,
                    dx as int,
                    lo as int,
                    hi as int,
                    lo as int,
                    hi as int,
                );
                lemma_count_y_bounds(
                    config.brush_shape,
                    radi,
                    dx as int,
                    lo as int,
                    dy as int,
                    lo as int,
                    hi as int,
                );
            }
            let mut dz = lo;
            while dz < hi
                invariant
                    0 <= radi <= 0x1000,
                    radi == radius as int,
                    lo == brush_lo(0, radi),
                    hi == brush_hi(0, radi) + 1,
                    lo <= dx < hi,
                    lo <= dy < hi,
                    lo <= dz <= hi,
                    hi - lo <= 0x2000,
                    count == count_x(config.brush_shape, radi, lo as int, dx as int, lo as int, hi as int, lo as int, hi as int)
                        + count_y(config.brush_shape, radi, dx as int, lo as int, dy as int, lo as int, hi as int)
                        + count_z(config.brush_shape, radi, dx as int, dy as int, lo as int, dz as int),
                    count <= 0x4000_8000_2000,
                decreases hi - dz,
            {
                proof {
                    lemma_count_x_bounds(
                        config.brush_shape,
                        radi,
                        lo as int,
                        dx as int,
                        lo as int,
                        hi as int,
                        lo as int,
                        hi as int,
                    );
                    lemma_count_y_bounds(
                        config.brush_shape,
                        radi,
                        dx as int,
                        lo as int,
                        dy as int,
                        lo as int,
                        hi as int,
                    );
                    lemma_count_z_bounds(
                        config.brush_shape,
                        radi,
                        dx as int,
                        dy as int,
                        lo as int,
                        dz as int,
                    );
                }
                let inside = match config.brush_shape {
                    BrushShape::Ball => {
                        let ddx = (2 * dx + 1) as i128;
                        let ddy = (2 * dy + 1) as i128;
                        let ddz = (2 * dz + 1) as i128;
                        proof {
                            assert(0 <= ddx * ddx <= 0x1_0000_0000 && 0 <= ddy * ddy
                                <= 0x1_0000_0000 && 0 <= ddz * ddz <= 0x1_0000_0000 && 0 <= (
                            radius as i128) * (radius as i128) <= 0x100_0000) by (
                                nonlinear_arith)
                                requires
                                    -0x8000 <= ddx <= 0x8000,
                                    -0x8000 <= ddy <= 0x8000,
                                    -0x8000 <= ddz <= 0x8000,
                                    0 <= radius <= 0x1000,
                            ;
                        }
                        ddx * ddx + ddy * ddy + ddz * ddz <= (radius as i128) * (radius as i128)
                    },
                    BrushShape::Cube => {
                        let ddx = 2 * dx + 1;
                        let ddy = 2 * dy + 1;
                        let ddz = 2 * dz + 1;
                        -radius <= ddx && ddx <= radius && -radius <= ddy && ddy <= radius
                            && -radius <= ddz && ddz <= radius
                    },
                };
                proof {
                    assert(inside == spec_in_brush(
                        config.brush_shape,
                        HalfVec { x: 0, y: 0, z: 0 },
                        radi,
                        dx as int,
                        dy as int,
                        dz as int,
                    ));
                }
                if inside {
                    count = count + 1;
                }
                dz = dz + 1;
                proof {
                    lemma_count_z_bounds(
                        config.brush_shape,
                        radi,
                        dx as int,
                        dy as int,
                        lo as int,
                        dz as int,
                    );
                }
            }
            dy = dy + 1;
            proof {
                lemma_count_y_bounds(
                    config.brush_shape,
                    radi,
                    dx as int,
                    lo as int,
                    dy as int,
                    lo as int,
                    hi as int,
                );
            }
        }
        dx = dx + 1;
        proof {
            lemma_count_x_bounds(
                config.brush_shape,
                radi,
                lo as int,
                dx as int,
                lo as int,
                hi as int,
                lo as int,
                hi as int,
            );
        }
    }
    count
}


/// The material names of the collectable cells along `dz` below `z_upto`
/// at fixed `(cx, cy)`: in-brush cells whose material is solid and not
/// air, in cell order. Unloaded positions read as air and are skipped.
pub open spec fn collected_z(
    w: VoxelWorld,
    reg: MaterialRegistry,
    shape: BrushShape,
    center: HalfVec,
    radius: int,
    cx: int,
    cy: int,
    z0: int,
    z_upto: int,
) -> Seq<Seq<char>>
    decreases z_upto - z0,
{
    if z_upto <= z0 {
        Seq::empty()
    } else {
        let prev = collected_z(w, reg, shape, center, radius, cx, cy, z0, z_upto - 1);
        let pos = VoxelPos { x: cx as i64, y: cy as i64, z: (z_upto - 1) as i64 };
        let name = spec_world_name(w, pos);
        if spec_in_brush(shape, center, radius, cx, cy, z_upto - 1) && reg.spec_get(name).solid
            && name != crate::voxel::air_name() {
            prev + seq![name]
        } else {
            prev
        }
    }
}

pub open spec fn collected_y(
    w: VoxelWorld,
    reg: MaterialRegistry,
    shape: BrushShape,
    center: HalfVec,
    radius: int,
    cx: int,
    y0: int,
    y_upto: int,
    z0: int,
    z1: int,
) -> Seq<Seq<char>>
    decreases y_upto - y0,
{
    if y_upto <= y0 {
        Seq::empty()
    } else {
        collected_y(w, reg, shape, center, radius, cx, y0, y_upto - 1, z0, z1) + collected_z(
            w,
            reg,
            shape,
            center,
            radius,
            cx,
            y_upto - 1,
            z0,
            z1,
        )
    }
}

pub open spec fn collected_x(
    w: VoxelWorld,
    reg: MaterialRegistry,
    shape: BrushShape,
    center: HalfVec,
    radius: int,
    x0: int,
    x_upto: int,
    y0: int,
    y1: int,
    z0: int,
    z1: int,
) -> Seq<Seq<char>>
    decreases x_upto - x0,
{
    if x_upto <= x0 {
        Seq::empty()
    } else {
        collected_x(w, reg, shape, center, radius, x0, x_upto - 1, y0, y1, z0, z1) + collected_y(
            w,
            reg,
            shape,
            center,
            radius,
            x_upto - 1,
            y0,
            y1,
            z0,
            z1,
        )
    }
}

/// Everything a removal brush would collect, in cell order over the
/// brush's bounding box.
pub open spec fn spec_collected_names(
    w: VoxelWorld,
    reg: MaterialRegistry,
    shape: BrushShape,
    center: HalfVec,
    radius: int,
) -> Seq<Seq<char>> {
    collected_x(
        w,
        reg,
        shape,
        center,
        radius,
        brush_lo(center.x as int, radius),
        brush_hi(center.x as int, radius) + 1,
        brush_lo(center.y as int, radius),
        brush_hi(center.y as int, radius) + 1,
        brush_lo(center.z as int, radius),
        brush_hi(center.z as int, radius) + 1,
    )
}

/// The character views of a list of owned names.
pub open spec fn name_views(names: Seq<String>) -> Seq<Seq<char>> {
    names.map_values(|s: String| s@)
}

/// True when the tally holds an entry for `n`.
pub open spec fn tally_has(t: Seq<(String, u64)>, n: Seq<char>) -> bool {
    exists|k: int| 0 <= k < t.len() && (#[trigger] t[k]).0@ == n
}

/// How many times `name` occurs in a name list.
pub open spec fn occurrences(names: Seq<Seq<char>>, name: Seq<char>) -> int
    decreases names.len(),
{
    if names.len() == 0 {
        0
    } else {
        occurrences(names.drop_last(), name) + if names.last() == name {
            1int
        } else {
            0int
        }
    }
}

/// Occurrence counts are bounded by the list length.
pub proof fn lemma_occurrences_bounds(names: Seq<Seq<char>>, name: Seq<char>)
    ensures
        0 <= occurrences(names, name) <= names.len(),
    decreases names.len(),
{
    if names.len() > 0 {
        lemma_occurrences_bounds(names.drop_last(), name);
    }
}

/// Reads the material names a removal brush would collect: every in-brush
/// cell of a loaded chunk holding a solid, non-air material, in cell
/// order.
pub fn collect_brush_materials(
    world: &VoxelWorld,
    reg: &MaterialRegistry,
    shape: BrushShape,
    center: HalfVec,
    radius: i64,
) -> (names: Vec<String>)
    requires
        world.wf(),
        reg.wf(),
        0 <= radius <= 0x1000,
        brush_in_range(*world, center, radius as int),
    ensures
        names@.len() == spec_collected_names(*world, *reg, shape, center, radius as int).len(),
        forall|j: int|
            0 <= j < names@.len() ==> (#[trigger] names@[j])@ == spec_collected_names(
                *world,
                *reg,
                shape,
                center,
                radius as int,
            )[j],
{
    let ghost radi = radius as int;
    proof {
        lemma_div2_facts(center.x as int, radi);
        lemma_div2_facts(center.y as int, radi);
        lemma_div2_facts(center.z as int, radi);
    }
    let lo_x = (center.x - radius).checked_div_euclid(2).unwrap();
    let hi_x = (center.x + radius + 1).checked_div_euclid(2).unwrap();
    let lo_y = (center.y - radius).checked_div_euclid(2).unwrap();
    let hi_y = (center.y + radius + 1).checked_div_euclid(2).unwrap();
    let lo_z = (center.z - radius).checked_div_euclid(2).unwrap();
    let hi_z = (center.z + radius + 1).checked_div_euclid(2).unwrap();
    let mut names: Vec<String> = Vec::new();
    let mut cx = lo_x;
    while cx <= hi_x + 1 - 1
        invariant
            world.wf(),
            reg.wf(),
            0 <= radius <= 0x1000,
            radi == radius as int,
            brush_in_range(*world, center, radi),
            lo_x == brush_lo(center.x as int, radi),
            hi_x == brush_hi(center.x as int, radi),
            lo_y == brush_lo(center.y as int, radi),
            hi_y == brush_hi(center.y as int, radi),
            lo_z == brush_lo(center.z as int, radi),
            hi_z == brush_hi(center.z as int, radi),
            lo_x <= cx <= hi_x + 1,
            lo_x <= hi_x,
            lo_y <= hi_y,
            lo_z <= hi_z,
            names@.len() == collected_x(
                *world,
                *reg,
                shape,
                center,
                radi,
                lo_x as int,
                cx as int,
                lo_y as int,
                hi_y as int + 1,
                lo_z as int,
                hi_z as int + 1,
            ).len(),
            forall|j: int|
                0 <= j < names@.len() ==> (#[trigger] names@[j])@ == collected_x(
                    *world,
                    *reg,
                    shape,
                    center,
                    radi,
                    lo_x as int,
                    cx as int,
                    lo_y as int,
                    hi_y as int + 1,
                    lo_z as int,
                    hi_z as int + 1,
                )[j],
        decreases hi_x + 1 - cx,
    {
        let mut cy = lo_y;
        while cy <= hi_y
            invariant
                world.wf(),
                reg.wf(),
                0 <= radius <= 0x1000,
                radi == radius as int,
                brush_in_range(*world, center, radi),
                lo_x == brush_lo(center.x as int, radi),
                hi_x == brush_hi(center.x as int, radi),
                lo_y == brush_lo(center.y as int, radi),
                hi_y == brush_hi(center.y as int, radi),
                lo_z == brush_lo(center.z as int, radi),
                hi_z == brush_hi(center.z as int, radi),
                lo_x <= cx <= hi_x,
                lo_y <= cy <= hi_y + 1,
                lo_z <= hi_z,
                names@.len() == (collected_x(
                    *world,
                    *reg,
                    shape,
                    center,
                    radi,
                    lo_x as int,
                    cx as int,
                    lo_y as int,
                    hi_y as int + 1,
                    lo_z as int,
                    hi_z as int + 1,
                ) + collected_y(
                    *world,
                    *reg,
                    shape,
                    center,
                    radi,
                    cx as int,
                    lo_y as int,
                    cy as int,
                    lo_z as int,
                    hi_z as int + 1,
                )).len(),
                forall|j: int|
                    0 <= j < names@.len() ==> (#[trigger] names@[j])@ == (collected_x(
                        *world,
                        *reg,
                        shape,
                        center,
                        radi,
                        lo_x as int,
                        cx as int,
                        lo_y as int,
                        hi_y as int + 1,
                        lo_z as int,
                        hi_z as int + 1,
                    ) + collected_y(
                        *world,
                        *reg,
                        shape,
                        center,
                        radi,
                        cx as int,
                        lo_y as int,
                        cy as int,
                        lo_z as int,
                        hi_z as int + 1,
                    ))[j],
            decreases hi_y + 1 - cy,
        {
            let mut cz = lo_z;
            while cz <= hi_z
                invariant
                    world.wf(),
                    reg.wf(),
                    0 <= radius <= 0x1000,
                    radi == radius as int,
                    brush_in_range(*world, center, radi),
                    lo_x == brush_lo(center.x as int, radi),
                    hi_x == brush_hi(center.x as int, radi),
                    lo_y == brush_lo(center.y as int, radi),
                    hi_y == brush_hi(center.y as int, radi),
                    lo_z == brush_lo(center.z as int, radi),
                    hi_z == brush_hi(center.z as int, radi),
                    lo_x <= cx <= hi_x,
                    lo_y <= cy <= hi_y,
                    lo_z <= cz <= hi_z + 1,
                    names@.len() == (collected_x(
                        *world,
                        *reg,
                        shape,
                        center,
                        radi,
                        lo_x as int,
                        cx as int,
                        lo_y as int,
                        hi_y as int + 1,
                        lo_z as int,
                        hi_z as int + 1,
                    ) + collected_y(
                        *world,
                        *reg,
                        shape,
                        center,
                        radi,
                        cx as int,
                        lo_y as int,
                        cy as int,
                        lo_z as int,
                        hi_z as int + 1,
                    ) + collected_z(
                        *world,
                        *reg,
                        shape,
                        center,
                        radi,
                        cx as int,
                        cy as int,
                        lo_z as int,
                        cz as int,
                    )).len(),
                    forall|j: int|
                        0 <= j < names@.len() ==> (#[trigger] names@[j])@ == (collected_x(
                            *world,
                            *reg,
                            shape,
                            center,
                            radi,
                            lo_x as int,
                            cx as int,
                            lo_y as int,
                            hi_y as int + 1,
                            lo_z as int,
                            hi_z as int + 1,
                        ) + collected_y(
                            *world,
                            *reg,
                            shape,
                            center,
                            radi,
                            cx as int,
                            lo_y as int,
                            cy as int,
                            lo_z as int,
                            hi_z as int + 1,
                        ) + collected_z(
                            *world,
                            *reg,
                            shape,
                            center,
                            radi,
                            cx as int,
                            cy as int,
                            lo_z as int,
                            cz as int,
                        ))[j],
                decreases hi_z + 1 - cz,
            {
                let pos = VoxelPos { x: cx, y: cy, z: cz };
                let inside = match shape {
                    BrushShape::Ball => {
                        let dx = (2 * cx + 1 - center.x) as i128;
                        let dy = (2 * cy + 1 - center.y) as i128;
                        let dz = (2 * cz + 1 - center.z) as i128;
                        proof {
                            assert(0 <= dx * dx <= 0x1_0000_0000_0000_0000_0000_0000 && 0 <= dy
                                * dy <= 0x1_0000_0000_0000_0000_0000_0000 && 0 <= dz * dz
                                <= 0x1_0000_0000_0000_0000_0000_0000 && 0 <= (radius as i128) * (
                            radius as i128) <= 0x100_0000) by (nonlinear_arith)
                                requires
                                    -0x1_0000_0000_0000 <= dx <= 0x1_0000_0000_0000,
                                    -0x1_0000_0000_0000 <= dy <= 0x1_0000_0000_0000,
                                    -0x1_0000_0000_0000 <= dz <= 0x1_0000_0000_0000,
                                    0 <= radius <= 0x1000,
                            ;
                        }
                        dx * dx + dy * dy + dz * dz <= (radius as i128) * (radius as i128)
                    },
                    BrushShape::Cube => {
                        let dx = 2 * cx + 1 - center.x;
                        let dy = 2 * cy + 1 - center.y;
                        let dz = 2 * cz + 1 - center.z;
                        -radius <= dx && dx <= radius && -radius <= dy && dy <= radius && -radius
                            <= dz && dz <= radius
                    },
                };
                proof {
                    assert(inside == spec_in_brush(
                        shape,
                        center,
                        radi,
                        cx as int,
                        cy as int,
                        cz as int,
                    ));
                }
                if inside {
                    proof {
                        lemma_brush_cell_range(*world, center, radi, pos);
                    }
                    match crate::normals::world_material_name(world, pos) {
                        Some(n) => {
                            let m = reg.get(n.as_str());
                            let is_air = crate::voxel::str_eq(n.as_str(), "air");
                            if m.is_solid() && !is_air {
                                names.push(n.as_str().to_owned());
                            }
                        },
                        None => {},
                    }
                }
                cz = cz + 1;
            }
            cy = cy + 1;
        }
        cx = cx + 1;
    }
    names
}

/// Folds a name list into per-name tallies: each distinct name appears
/// once, carrying how many times it occurred.
pub fn tally_names(names: &Vec<String>) -> (tally: Vec<(String, u64)>)
    requires
        names@.len() <= 0x1_0000_0000,
    ensures
        forall|k: int, l: int|
            0 <= k < l < tally@.len() ==> (#[trigger] tally@[k]).0@ != (
            #[trigger] tally@[l]).0@,
        forall|k: int|
            0 <= k < tally@.len() ==> (#[trigger] tally@[k]).1 == occurrences(
                name_views(names@),
                tally@[k].0@,
            ) && tally@[k].1 > 0,
        forall|n: Seq<char>|
            #[trigger] occurrences(name_views(names@), n) > 0 ==> tally_has(tally@, n),
{
    let ghost views = name_views(names@);
    let mut tally: Vec<(String, u64)> = Vec::new();
    let nn = names.len();
    let mut i: usize = 0;
    while i < nn
        invariant
            nn == names@.len(),
            nn <= 0x1_0000_0000,
            i <= nn,
            views == name_views(names@),
            forall|k: int, l: int|
                0 <= k < l < tally@.len() ==> (#[trigger] tally@[k]).0@ != (
                #[trigger] tally@[l]).0@,
            forall|k: int|
                0 <= k < tally@.len() ==> (#[trigger] tally@[k]).1 == occurrences(
                    views.take(i as int),
                    tally@[k].0@,
                ) && tally@[k].1 > 0 && tally@[k].1 <= i,
            forall|n: Seq<char>|
                #[trigger] occurrences(views.take(i as int), n) > 0 ==> tally_has(tally@, n),
        decreases nn - i,
    {
        let name = &names[i];
        proof {
            assert(views.take(i as int + 1).drop_last() =~= views.take(i as int));
            assert(views.take(i as int + 1).last() == names@[i as int]@);
        }
        let tn = tally.len();
        let mut k: usize = 0;
        let mut found = false;
        while k < tn && !found
            invariant
                tn == tally@.len(),
                k <= tn,
                !found ==> forall|l: int| 0 <= l < k ==> (#[trigger] tally@[l]).0@ != name@,
                found ==> k < tn && tally@[k as int].0@ == name@,
            decreases (if found {
                0int
            } else {
                tn - k + 1
            }),
        {
            if crate::voxel::str_eq(tally[k].0.as_str(), name.as_str()) {
                found = true;
            } else {
                k = k + 1;
            }
        }
        let ghost t0 = tally@;
        if found {
            let old_count = tally[k].1;
            let owned = tally[k].0.as_str().to_owned();
            tally.set(k, (owned, old_count + 1));
            proof {
                assert(tally@[k as int].0@ == name@ && tally@[k as int].1 == old_count + 1);
                assert forall|l: int|
                    0 <= l < tally@.len() && l != k implies #[trigger] tally@[l] == t0[l] by {}
                assert forall|n: Seq<char>|
                    #[trigger] occurrences(views.take(i as int + 1), n) > 0 implies tally_has(
                    tally@,
                    n,
                ) by {
                    if occurrences(views.take(i as int), n) > 0 {
                        assert(tally_has(t0, n));
                        let l = choose|l: int| 0 <= l < t0.len() && (#[trigger] t0[l]).0@ == n;
                        assert(tally@[l].0@ == n);
                    } else {
                        assert(n == name@);
                        assert(tally@[k as int].0@ == n);
                    }
                }
            }
        } else {
            let pushed_name = name.as_str().to_owned();
            proof {
                assert(pushed_name@ == name@);
            }
            tally.push((pushed_name, 1));
            proof {
                assert(tally@.len() == t0.len() + 1);
                assert(tally@[t0.len() as int].0@ == name@);
                assert(occurrences(views.take(i as int), name@) == 0) by {
                    lemma_occurrences_bounds(views.take(i as int), name@);
                    if occurrences(views.take(i as int), name@) > 0 {
                        assert(tally_has(t0, name@));
                        let l = choose|l: int| 0 <= l < t0.len() && (#[trigger] t0[l]).0@
                            == name@;
                        assert(t0[l].0@ == name@);
                        assert(t0[l].0@ != name@);
                    }
                }
                assert forall|n: Seq<char>|
                    #[trigger] occurrences(views.take(i as int + 1), n) > 0 implies tally_has(
                    tally@,
                    n,
                ) by {
                    if occurrences(views.take(i as int), n) > 0 {
                        assert(tally_has(t0, n));
                        let l = choose|l: int| 0 <= l < t0.len() && (#[trigger] t0[l]).0@ == n;
                        assert(tally@[l].0@ == n);
                    } else {
                        assert(n == name@);
                        assert(tally@[t0.len() as int].0@ == n);
                    }
                }
            }
        }
        i = i + 1;
    }
    proof {
        assert(views.take(nn as int) =~= views);
    }
    tally
}


/// Collected name lists are bounded by the cell count and never name air.
proof fn lemma_collected_z_props(
    w: VoxelWorld,
    reg: MaterialRegistry,
    shape: BrushShape,
    center: HalfVec,
    radius: int,
    cx: int,
    cy: int,
    z0: int,
    z_upto: int,
)
    requires
        z0 <= z_upto,
    ensures
        collected_z(w, reg, shape, center, radius, cx, cy, z0, z_upto).len() <= z_upto - z0,
        forall|j: int|
            0 <= j < collected_z(w, reg, shape, center, radius, cx, cy, z0, z_upto).len()
                ==> #[trigger] collected_z(w, reg, shape, center, radius, cx, cy, z0, z_upto)[j]
                != crate::voxel::air_name(),
    decreases z_upto - z0,
{
    if z_upto > z0 {
        lemma_collected_z_props(w, reg, shape, center, radius, cx, cy, z0, z_upto - 1);
    }
}

proof fn lemma_collected_y_props(
    w: VoxelWorld,
    reg: MaterialRegistry,
    shape: BrushShape,
    center: HalfVec,
    radius: int,
    cx: int,
    y0: int,
    y_upto: int,
    z0: int,
    z1: int,
)
    requires
        y0 <= y_upto,
        z0 <= z1,
        z1 - z0 <= 0x202,
    ensures
        collected_y(w, reg, shape, center, radius, cx, y0, y_upto, z0, z1).len() <= 0x202 * (
        y_upto - y0),
        forall|j: int|
            0 <= j < collected_y(w, reg, shape, center, radius, cx, y0, y_upto, z0, z1).len()
                ==> #[trigger] collected_y(w, reg, shape, center, radius, cx, y0, y_upto, z0, z1)[j]
                != crate::voxel::air_name(),
    decreases y_upto - y0,
{
    if y_upto > y0 {
        lemma_collected_y_props(w, reg, shape, center, radius, cx, y0, y_upto - 1, z0, z1);
        lemma_collected_z_props(w, reg, shape, center, radius, cx, y_upto - 1, z0, z1);
    }
}

proof fn lemma_collected_x_props(
    w: VoxelWorld,
    reg: MaterialRegistry,
    shape: BrushShape,
    center: HalfVec,
    radius: int,
    x0: int,
    x_upto: int,
    y0: int,
    y1: int,
    z0: int,
    z1: int,
)
    requires
        x0 <= x_upto,
        y0 <= y1,
        z0 <= z1,
        y1 - y0 <= 0x202,
        z1 - z0 <= 0x202,
    ensures
        collected_x(w, reg, shape, center, radius, x0, x_upto, y0, y1, z0, z1).len() <= 0x40804
            * (x_upto - x0),
        forall|j: int|
            0 <= j < collected_x(w, reg, shape, center, radius, x0, x_upto, y0, y1, z0, z1).len()
                ==> #[trigger] collected_x(
                w,
                reg,
                shape,
                center,
                radius,
                x0,
                x_upto,
                y0,
                y1,
                z0,
                z1,
            )[j] != crate::voxel::air_name(),
    decreases x_upto - x0,
{
    if x_upto > x0 {
        lemma_collected_x_props(w, reg, shape, center, radius, x0, x_upto - 1, y0, y1, z0, z1);
        lemma_collected_y_props(w, reg, shape, center, radius, x_upto - 1, y0, y1, z0, z1);
    }
}

/// A name that occurs in a list is one of its elements.
proof fn lemma_occurrence_is_element(names: Seq<Seq<char>>, n: Seq<char>)
    requires
        occurrences(names, n) > 0,
    ensures
        exists|j: int| 0 <= j < names.len() && #[trigger] names[j] == n,
    decreases names.len(),
{
    if names.len() > 0 {
        if names.last() == n {
            assert(names[names.len() - 1] == n);
        } else {
            lemma_occurrence_is_element(names.drop_last(), n);
            let j = choose|j: int|
                0 <= j < names.drop_last().len() && #[trigger] names.drop_last()[j] == n;
            assert(names[j] == n);
        }
    }
}

/// The material-collecting removal brush: tallies the solid, non-air
/// materials inside the brush, clears the region to air, and deposits the
/// tally into the inventory. Each report entry carries the material name,
/// how many voxels of it were collected, and how many units the inventory
/// accepted; a partial-capacity inventory accepting fewer is reported,
/// never retried, and never undoes the edit.
pub fn apply_brush_with_inventory(
    world: &mut VoxelWorld,
    center: HalfVec,
    config: &VoxelEditingConfig,
    inventory: &mut Inventory,
    reg: &MaterialRegistry,
    remove: bool,
) -> (report: Vec<(String, u64, u32)>)
    requires
        old(world).wf(),
        old(inventory).wf(),
        reg.wf(),
        0 <= config.brush_radius <= 0x200,
        brush_in_range(*old(world), center, config.brush_radius as int),
        forall|c: ChunkCoord|
            old(world).has_chunk(c) ==> (#[trigger] old(world).spec_chunk(c)).palette_contains(
                crate::voxel::air_name(),
            ) || old(world).spec_chunk(c).material_palette@.len() < PALETTE_CAP,
    ensures
        final(world).wf(),
        final(inventory).wf(),
        !remove ==> *final(world) == *old(world) && *final(inventory) == *old(inventory)
            && report@.len() == 0,
        remove ==> ({
            let collected = spec_collected_names(
                *old(world),
                *reg,
                config.brush_shape,
                center,
                config.brush_radius as int,
            );
            &&& forall|pos: VoxelPos|
                #[trigger] spec_in_brush(
                    config.brush_shape,
                    center,
                    config.brush_radius as int,
                    pos.x as int,
                    pos.y as int,
                    pos.z as int,
                ) && old(world).has_chunk(owner_of(*old(world), pos)) ==> spec_world_name(
                    *final(world),
                    pos,
                ) == crate::voxel::air_name()
            &&& forall|pos: VoxelPos|
                !spec_in_brush(
                    config.brush_shape,
                    center,
                    config.brush_radius as int,
                    pos.x as int,
                    pos.y as int,
                    pos.z as int,
                ) ==> #[trigger] spec_world_name(*final(world), pos) == spec_world_name(
                    *old(world),
                    pos,
                )
            &&& forall|k: int, l: int|
                0 <= k < l < report@.len() ==> (#[trigger] report@[k]).0@ != (
                #[trigger] report@[l]).0@
            &&& forall|k: int|
                0 <= k < report@.len() ==> (#[trigger] report@[k]).1 == occurrences(
                    collected,
                    report@[k].0@,
                ) && report@[k].1 > 0 && report@[k].2 <= report@[k].1
            &&& forall|n: Seq<char>|
                #[trigger] occurrences(collected, n) > 0 ==> tally_has_report(report@, n)
            &&& forall|k: int|
                0 <= k < report@.len() ==> total_of(
                    final(inventory).slots@,
                    (#[trigger] report@[k]).0@,
                ) == total_of(old(inventory).slots@, report@[k].0@) + report@[k].2
            &&& forall|c: ChunkCoord|
                #[trigger] final(world).has_chunk(c) == old(world).has_chunk(c)
            &&& final(world).chunk_size == old(world).chunk_size
            &&& final(world).loading_queue == old(world).loading_queue
            &&& final(world).meshing_queue == old(world).meshing_queue
            &&& final(world).player_chunk == old(world).player_chunk
            &&& forall|c: ChunkCoord|
                queue_has(old(world).priority_meshing_queue@, c) ==> queue_has(
                    final(world).priority_meshing_queue@,
                    c,
                )
            &&& forall|c: ChunkCoord|
                spec_chunk_changed(
                    *old(world),
                    config.brush_shape,
                    center,
                    config.brush_radius as int,
                    crate::voxel::air_name(),
                    c,
                ) ==> queue_has(final(world).priority_meshing_queue@, c)
            &&& forall|c: ChunkCoord, n: ChunkCoord|
                spec_chunk_changed(
                    *old(world),
                    config.brush_shape,
                    center,
                    config.brush_radius as int,
                    crate::voxel::air_name(),
                    c,
                ) && cheb_dist(c, n) == 1 && old(world).has_chunk(n) ==> queue_has(
                    final(world).priority_meshing_queue@,
                    n,
                )
            &&& forall|c: ChunkCoord|
                #[trigger] queue_has(final(world).priority_meshing_queue@, c) ==> queue_has(
                    old(world).priority_meshing_queue@,
                    c,
                ) || brush_marks(
                    *old(world),
                    config.brush_shape,
                    center,
                    config.brush_radius as int,
                    crate::voxel::air_name(),
                    c,
                )
        }),
{
    if !remove {
        return Vec::new();
    }
    let ghost pre = *world;
    let names = collect_brush_materials(
        world,
        reg,
        config.brush_shape,
        center,
        config.brush_radius,
    );
    proof {
        assert forall|j: int| 0 <= j < names@.len() implies #[trigger] name_views(names@)[j]
            == spec_collected_names(
            pre,
            *reg,
            config.brush_shape,
            center,
            config.brush_radius as int,
        )[j] by {
            assert(name_views(names@)[j] == names@[j]@);
        }
        assert(name_views(names@) =~= spec_collected_names(
            pre,
            *reg,
            config.brush_shape,
            center,
            config.brush_radius as int,
        ));
        lemma_div2_facts(center.x as int, config.brush_radius as int);
        lemma_div2_facts(center.y as int, config.brush_radius as int);
        lemma_div2_facts(center.z as int, config.brush_radius as int);
        lemma_collected_x_props(
            pre,
            *reg,
            config.brush_shape,
            center,
            config.brush_radius as int,
            brush_lo(center.x as int, config.brush_radius as int),
            brush_hi(center.x as int, config.brush_radius as int) + 1,
            brush_lo(center.y as int, config.brush_radius as int),
            brush_hi(center.y as int, config.brush_radius as int) + 1,
            brush_lo(center.z as int, config.brush_radius as int),
            brush_hi(center.z as int, config.brush_radius as int) + 1,
        );
    }
    let tally = tally_names(&names);
    apply_brush_with_material(world, center, config.brush_shape, config.brush_radius, "air");
    let ghost inv0 = *inventory;
    let ghost collected = name_views(names@);
    proof {
        assert(collected.len() <= 0x1000_0000);
        assert forall|k2: int| 0 <= k2 < tally@.len() implies (#[trigger] tally@[k2]).1
            <= collected.len() by {
            lemma_occurrences_bounds(collected, tally@[k2].0@);
        }
    }
    let mut report: Vec<(String, u64, u32)> = Vec::new();
    let tn = tally.len();
    let mut k: usize = 0;
    while k < tn
        invariant
            inv0 == *old(inventory),
            inv0.wf(),
            inventory.wf(),
            tn == tally@.len(),
            k <= tn,
            report@.len() == k,
            collected == name_views(names@),
            collected.len() <= 0x1000_0000,
            forall|k2: int, l: int|
                0 <= k2 < l < tally@.len() ==> (#[trigger] tally@[k2]).0@ != (
                #[trigger] tally@[l]).0@,
            forall|k2: int|
                0 <= k2 < tally@.len() ==> (#[trigger] tally@[k2]).1 == occurrences(
                    collected,
                    tally@[k2].0@,
                ) && tally@[k2].1 > 0 && tally@[k2].1 <= collected.len(),
            forall|j: int|
                0 <= j < collected.len() ==> #[trigger] collected[j]
                    != crate::voxel::air_name(),
            forall|k2: int|
                0 <= k2 < k ==> (#[trigger] report@[k2]).0@ == tally@[k2].0@ && report@[k2].1
                    == tally@[k2].1 && report@[k2].2 <= report@[k2].1,
            forall|k2: int|
                0 <= k2 < k ==> total_of(inventory.slots@, (#[trigger] report@[k2]).0@)
                    == total_of(inv0.slots@, report@[k2].0@) + report@[k2].2,
            forall|n: Seq<char>|
                (forall|k2: int| 0 <= k2 < k ==> (#[trigger] tally@[k2]).0@ != n) && n
                    != crate::voxel::air_name() ==> #[trigger] total_of(inventory.slots@, n)
                    == total_of(inv0.slots@, n),
            inventory.rows == inv0.rows,
            inventory.columns == inv0.columns,
            inventory.selected_slot == inv0.selected_slot,
            inventory.slots@.len() == inv0.slots@.len(),
        decreases tn - k,
    {
        let entry_name = tally[k].0.as_str().to_owned();
        let count = tally[k].1;
        proof {
            assert(tally@[k as int].1 <= collected.len());
        }
        let accepted = inventory.add_material(entry_name.as_str(), count as u32);
        let ghost rep0 = report@;
        report.push((entry_name, count, accepted));
        proof {
            assert(report@[k as int].0@ == tally@[k as int].0@);
            assert(occurrences(collected, tally@[k as int].0@) > 0);
            lemma_occurrence_is_element(collected, tally@[k as int].0@);
            assert(tally@[k as int].0@ != crate::voxel::air_name());
            assert forall|k2: int|
                0 <= k2 < k + 1 implies total_of(
                inventory.slots@,
                (#[trigger] report@[k2]).0@,
            ) == total_of(inv0.slots@, report@[k2].0@) + report@[k2].2 by {
                if k2 < k {
                    assert(report@[k2] == rep0[k2]);
                    assert(report@[k2].0@ != tally@[k as int].0@);
                    assert(report@[k2].0@ != crate::voxel::air_name()) by {
                        assert(occurrences(collected, tally@[k2].0@) > 0);
                        lemma_occurrence_is_element(collected, tally@[k2].0@);
                    }
                }
            }
        }
        k = k + 1;
    }
    proof {
        assert forall|n: Seq<char>|
            #[trigger] occurrences(collected, n) > 0 implies tally_has_report(report@, n) by {
            assert(tally_has(tally@, n));
            let l = choose|l: int| 0 <= l < tally@.len() && (#[trigger] tally@[l]).0@ == n;
            assert(report@[l].0@ == n);
        }
    }
    report
}

/// True when the report holds an entry for `n`.
pub open spec fn tally_has_report(r: Seq<(String, u64, u32)>, n: Seq<char>) -> bool {
    exists|k: int| 0 <= k < r.len() && (#[trigger] r[k]).0@ == n
}

} // verus!
