//! Density sampling and the two normal-calculation strategies.
//!
//! Geometry here is carried in half-voxel units: a voxel cell `(x, y, z)`
//! has its center at `(2x+1, 2y+1, 2z+1)` and its face centers one half
//! step further along one axis. Normal vectors are emitted unnormalized; a
//! renderer scales them to unit length.

use vstd::prelude::*;
use crate::coords::{ChunkCoord, VoxelPos};
use crate::voxel::{Material, MaterialRegistry, air_name};
use crate::world::VoxelWorld;

verus! {

/// A position or direction in half-voxel units.
#[derive(Clone, Copy, Debug, PartialEq, Eq, Structural)]
pub struct HalfVec {
    pub x: i64,
    pub y: i64,
    pub z: i64,
}

impl HalfVec {
    pub fn new(x: i64, y: i64, z: i64) -> (r: HalfVec)
        ensures
            r == (HalfVec { x, y, z }),
    {
        HalfVec { x, y, z }
    }
}

/// The world-up direction, used as the fallback normal.
pub open spec fn up_vec() -> HalfVec {
    HalfVec { x: 0, y: 1, z: 0 }
}

/// Offset of face direction `d` (order +X, -X, +Y, -Y, +Z, -Z) on the x axis.
pub open spec fn dir_dx(d: int) -> int {
    if d == 0 {
        1
    } else if d == 1 {
        -1
    } else {
        0
    }
}

pub open spec fn dir_dy(d: int) -> int {
    if d == 2 {
        1
    } else if d == 3 {
        -1
    } else {
        0
    }
}

pub open spec fn dir_dz(d: int) -> int {
    if d == 4 {
        1
    } else if d == 5 {
        -1
    } else {
        0
    }
}

/// The unit vector of face direction `d`.
pub open spec fn dir_vec(d: int) -> HalfVec {
    HalfVec { x: dir_dx(d) as i64, y: dir_dy(d) as i64, z: dir_dz(d) as i64 }
}

/// Offsets of face direction `d` as executable values.
pub fn dir_delta(d: usize) -> (r: (i64, i64, i64))
    requires
        d < 6,
    ensures
        r.0 == dir_dx(d as int),
        r.1 == dir_dy(d as int),
        r.2 == dir_dz(d as int),
{
    match d {
        0 => (1, 0, 0),
        1 => (-1, 0, 0),
        2 => (0, 1, 0),
        3 => (0, -1, 0),
        4 => (0, 0, 1),
        _ => (0, 0, -1),
    }
}

/// True when a loaded chunk owns the world voxel.
pub open spec fn spec_world_loaded(w: VoxelWorld, pos: VoxelPos) -> bool {
    let c = ChunkCoord::spec_from_world_pos(pos, w.chunk_size);
    &&& w.has_chunk(c)
    &&& ({
        let ch = w.spec_chunk(c);
        ch.in_bounds(
            pos.x - ch.coord.spec_to_world_pos(ch.size).x,
            pos.y - ch.coord.spec_to_world_pos(ch.size).y,
            pos.z - ch.coord.spec_to_world_pos(ch.size).z,
        )
    })
}

/// The material name a world voxel reads as: the owning loaded chunk's
/// palette entry, or air where no chunk is loaded or the cell lies outside
/// it.
pub open spec fn spec_world_name(w: VoxelWorld, pos: VoxelPos) -> Seq<char> {
    let c = ChunkCoord::spec_from_world_pos(pos, w.chunk_size);
    if w.has_chunk(c) {
        let ch = w.spec_chunk(c);
        let ox = pos.x - ch.coord.spec_to_world_pos(ch.size).x;
        let oy = pos.y - ch.coord.spec_to_world_pos(ch.size).y;
        let oz = pos.z - ch.coord.spec_to_world_pos(ch.size).z;
        if ch.in_bounds(ox, oy, oz) {
            ch.material_palette@[ch.spec_voxel(ox, oy, oz).material_id as int]@
        } else {
            air_name()
        }
    } else {
        air_name()
    }
}

/// The material a world voxel reads as, through the registry.
pub open spec fn spec_world_material(w: VoxelWorld, reg: MaterialRegistry, pos: VoxelPos) -> Material {
    reg.spec_get(spec_world_name(w, pos))
}

/// The palette name owning a world position, or `None` where the position
/// reads as air because no loaded chunk holds it.
pub fn world_material_name<'a>(w: &'a VoxelWorld, pos: VoxelPos) -> (r: Option<&'a String>)
    requires
        w.wf(),
        pos.in_chunk_range(w.chunk_size),
    ensures
        r is Some <==> spec_world_loaded(*w, pos),
        r is Some ==> r.unwrap()@ == spec_world_name(*w, pos),
        r is None ==> spec_world_name(*w, pos) == air_name(),
{
    match w.get_chunk_at_world_pos(pos) {
        Some(chunk) => {
            proof {
                crate::coords::lemma_axis_world_fits(chunk.coord.x as int, chunk.size as int);
                crate::coords::lemma_axis_world_fits(chunk.coord.y as int, chunk.size as int);
                crate::coords::lemma_axis_world_fits(chunk.coord.z as int, chunk.size as int);
            }
            let origin = chunk.coord.to_world_pos(chunk.size);
            let lx = pos.x - origin.x;
            let ly = pos.y - origin.y;
            let lz = pos.z - origin.z;
            if lx < 0 || ly < 0 || lz < 0 || lx >= chunk.size as i64 || ly >= chunk.size as i64
                || lz >= chunk.size as i64 {
                return None;
            }
            proof {
                let c = ChunkCoord::spec_from_world_pos(pos, w.chunk_size);
                assert(w.chunks@[crate::world::seq_chunk_idx(w.chunks@, c)].wf());
                assert(chunk.wf());
            }
            match chunk.get_voxel(lx as usize, ly as usize, lz as usize) {
                Some(v) => {
                    proof {
                        crate::chunk::lemma_vox_index_bounds(
                            chunk.size as int,
                            lx as int,
                            ly as int,
                            lz as int,
                        );
                        assert(chunk.voxels@[crate::chunk::vox_index(
                            chunk.size as int,
                            lx as int,
                            ly as int,
                            lz as int,
                        )].material_id < chunk.material_palette@.len());
                    }
                    chunk.get_material_name(v.material_id)
                },
                None => None,
            }
        },
        None => None,
    }
}

/// True when the world voxel owning the half-unit position `p` is solid
/// under the registry. A position no loaded chunk owns samples as air
/// outright, whatever the registry would say of the name air.
pub open spec fn spec_sample_solid(w: VoxelWorld, reg: MaterialRegistry, px: int, py: int, pz: int) -> bool {
    let pos = VoxelPos {
        x: (px / 2) as i64,
        y: (py / 2) as i64,
        z: (pz / 2) as i64,
    };
    spec_world_loaded(w, pos) && spec_world_material(w, reg, pos).solid
}

/// Density lookup: 1 for a solid world voxel, 0 for anything else.
pub fn sample_density(w: &VoxelWorld, reg: &MaterialRegistry, px: i64, py: i64, pz: i64) -> (solid:
    bool)
    requires
        w.wf(),
        reg.wf(),
        -0x2000_0000_0000 <= px <= 0x2000_0000_0000,
        -0x2000_0000_0000 <= py <= 0x2000_0000_0000,
        -0x2000_0000_0000 <= pz <= 0x2000_0000_0000,
        (VoxelPos { x: (px / 2) as i64, y: (py / 2) as i64, z: (pz / 2) as i64 }).in_chunk_range(
            w.chunk_size,
        ),
    ensures
        solid == spec_sample_solid(*w, *reg, px as int, py as int, pz as int),
{
    let cx = px.checked_div_euclid(2).unwrap();
    let cy = py.checked_div_euclid(2).unwrap();
    let cz = pz.checked_div_euclid(2).unwrap();
    let pos = VoxelPos { x: cx, y: cy, z: cz };
    match world_material_name(w, pos) {
        Some(name) => reg.get(name.as_str()).is_solid(),
        None => false,
    }
}


// (appended below; real content in next step)

/// Ghost accumulator for the air-centroid sample pass: componentwise sums
/// of the air samples' offsets from the face center (in half units) and the
/// number of air samples seen.
pub struct AirAcc {
    pub sx: int,
    pub sy: int,
    pub sz: int,
    pub count: int,
}

pub open spec fn acc_zero() -> AirAcc {
    AirAcc { sx: 0, sy: 0, sz: 0, count: 0 }
}

pub open spec fn acc_add(a: AirAcc, b: AirAcc) -> AirAcc {
    AirAcc { sx: a.sx + b.sx, sy: a.sy + b.sy, sz: a.sz + b.sz, count: a.count + b.count }
}

/// Contribution of the sample at voxel offset `(dx, dy, dz)` from the
/// center: its offset in half units if the sampled world voxel is air,
/// nothing if it is solid.
pub open spec fn air_cell(
    w: VoxelWorld,
    reg: MaterialRegistry,
    cx: int,
    cy: int,
    cz: int,
    dx: int,
    dy: int,
    dz: int,
) -> AirAcc {
    if !spec_sample_solid(w, reg, cx + 2 * dx, cy + 2 * dy, cz + 2 * dz) {
        AirAcc { sx: 2 * dx, sy: 2 * dy, sz: 2 * dz, count: 1 }
    } else {
        acc_zero()
    }
}

/// Sum of the contributions at fixed `(dx, dy)` over `dz` in `[-rad, z_upto)`.
pub open spec fn air_row(
    w: VoxelWorld,
    reg: MaterialRegistry,
    cx: int,
    cy: int,
    cz: int,
    rad: int,
    dx: int,
    dy: int,
    z_upto: int,
) -> AirAcc
    decreases z_upto + rad,
{
    if z_upto + rad <= 0 {
        acc_zero()
    } else {
        acc_add(
            air_row(w, reg, cx, cy, cz, rad, dx, dy, z_upto - 1),
            air_cell(w, reg, cx, cy, cz, dx, dy, z_upto - 1),
        )
    }
}

/// Sum of full rows at fixed `dx` over `dy` in `[-rad, y_upto)`.
pub open spec fn air_plane(
    w: VoxelWorld,
    reg: MaterialRegistry,
    cx: int,
    cy: int,
    cz: int,
    rad: int,
    dx: int,
    y_upto: int,
) -> AirAcc
    decreases y_upto + rad,
{
    if y_upto + rad <= 0 {
        acc_zero()
    } else {
        acc_add(
            air_plane(w, reg, cx, cy, cz, rad, dx, y_upto - 1),
            air_row(w, reg, cx, cy, cz, rad, dx, y_upto - 1, rad + 1),
        )
    }
}

/// Sum of full planes over `dx` in `[-rad, x_upto)`.
pub open spec fn air_cube(
    w: VoxelWorld,
    reg: MaterialRegistry,
    cx: int,
    cy: int,
    cz: int,
    rad: int,
    x_upto: int,
) -> AirAcc
    decreases x_upto + rad,
{
    if x_upto + rad <= 0 {
        acc_zero()
    } else {
        acc_add(
            air_cube(w, reg, cx, cy, cz, rad, x_upto - 1),
            air_plane(w, reg, cx, cy, cz, rad, x_upto - 1, rad + 1),
        )
    }
}

/// The whole sampling cube of side `2 * rad + 1` around the center.
pub open spec fn spec_air_acc(w: VoxelWorld, reg: MaterialRegistry, center: HalfVec, rad: int) -> AirAcc {
    air_cube(w, reg, center.x as int, center.y as int, center.z as int, rad, rad + 1)
}

/// The smooth normal at a face center: the unnormalized direction from the
/// center toward the centroid of the air samples; world-up when no sample
/// is air or the centroid coincides with the center.
pub open spec fn spec_smooth_normal(
    w: VoxelWorld,
    reg: MaterialRegistry,
    center: HalfVec,
    rad: int,
) -> HalfVec {
    let a = spec_air_acc(w, reg, center, rad);
    if a.count == 0 {
        up_vec()
    } else if a.sx == 0 && a.sy == 0 && a.sz == 0 {
        up_vec()
    } else {
        HalfVec { x: a.sx as i64, y: a.sy as i64, z: a.sz as i64 }
    }
}

/// Row sums stay linearly bounded by the number of samples.
proof fn lemma_air_row_bounds(
    w: VoxelWorld,
    reg: MaterialRegistry,
    cx: int,
    cy: int,
    cz: int,
    rad: int,
    dx: int,
    dy: int,
    z_upto: int,
)
    requires
        0 <= rad <= 64,
        -rad <= dx <= rad,
        -rad <= dy <= rad,
        -rad <= z_upto <= rad + 1,
    ensures
        0 <= air_row(w, reg, cx, cy, cz, rad, dx, dy, z_upto).count <= z_upto + rad,
        -128 * (z_upto + rad) <= air_row(w, reg, cx, cy, cz, rad, dx, dy, z_upto).sx <= 128 * (
        z_upto + rad),
        -128 * (z_upto + rad) <= air_row(w, reg, cx, cy, cz, rad, dx, dy, z_upto).sy <= 128 * (
        z_upto + rad),
        -128 * (z_upto + rad) <= air_row(w, reg, cx, cy, cz, rad, dx, dy, z_upto).sz <= 128 * (
        z_upto + rad),
    decreases z_upto + rad,
{
    if z_upto + rad > 0 {
        lemma_air_row_bounds(w, reg, cx, cy, cz, rad, dx, dy, z_upto - 1);
    }
}

/// Plane sums stay linearly bounded by the number of rows.
proof fn lemma_air_plane_bounds(
    w: VoxelWorld,
    reg: MaterialRegistry,
    cx: int,
    cy: int,
    cz: int,
    rad: int,
    dx: int,
    y_upto: int,
)
    requires
        0 <= rad <= 64,
        -rad <= dx <= rad,
        -rad <= y_upto <= rad + 1,
    ensures
        0 <= air_plane(w, reg, cx, cy, cz, rad, dx, y_upto).count <= 129 * (y_upto + rad),
        -16512 * (y_upto + rad) <= air_plane(w, reg, cx, cy, cz, rad, dx, y_upto).sx <= 16512 * (
        y_upto + rad),
        -16512 * (y_upto + rad) <= air_plane(w, reg, cx, cy, cz, rad, dx, y_upto).sy <= 16512 * (
        y_upto + rad),
        -16512 * (y_upto + rad) <= air_plane(w, reg, cx, cy, cz, rad, dx, y_upto).sz <= 16512 * (
        y_upto + rad),
    decreases y_upto + rad,
{
    if y_upto + rad > 0 {
        lemma_air_plane_bounds(w, reg, cx, cy, cz, rad, dx, y_upto - 1);
        lemma_air_row_bounds(w, reg, cx, cy, cz, rad, dx, y_upto - 1, rad + 1);
    }
}

/// Cube sums stay linearly bounded by the number of planes.
proof fn lemma_air_cube_bounds(
    w: VoxelWorld,
    reg: MaterialRegistry,
    cx: int,
    cy: int,
    cz: int,
    rad: int,
    x_upto: int,
)
    requires
        0 <= rad <= 64,
        -rad <= x_upto <= rad + 1,
    ensures
        0 <= air_cube(w, reg, cx, cy, cz, rad, x_upto).count <= 16641 * (x_upto + rad),
        -2130048 * (x_upto + rad) <= air_cube(w, reg, cx, cy, cz, rad, x_upto).sx <= 2130048 * (
        x_upto + rad),
        -2130048 * (x_upto + rad) <= air_cube(w, reg, cx, cy, cz, rad, x_upto).sy <= 2130048 * (
        x_upto + rad),
        -2130048 * (x_upto + rad) <= air_cube(w, reg, cx, cy, cz, rad, x_upto).sz <= 2130048 * (
        x_upto + rad),
    decreases x_upto + rad,
{
    if x_upto + rad > 0 {
        lemma_air_cube_bounds(w, reg, cx, cy, cz, rad, x_upto - 1);
        lemma_air_plane_bounds(w, reg, cx, cy, cz, rad, x_upto - 1, rad + 1);
    }
}

/// Halving a shifted even offset: `(a + 2 d) / 2 == a / 2 + d`.
pub proof fn lemma_half_shift(a: int, d: int)
    ensures
        (a + 2 * d) / 2 == a / 2 + d,
{
    let q = a / 2;
    let r = a % 2;
    vstd::arithmetic::div_mod::lemma_fundamental_div_mod(a, 2);
    vstd::arithmetic::div_mod::lemma_mod_division_less_than_divisor(a, 2);
    vstd::arithmetic::div_mod::lemma_fundamental_div_mod_converse_div(a + 2 * d, 2, q + d, r);
}

/// With sampling radius 0 the single sample sits on the face center itself,
/// so its offset is zero and the normal degenerates to world-up; no
/// division by zero or empty average arises.
pub proof fn lemma_smooth_normal_radius_zero(
    w: VoxelWorld,
    reg: MaterialRegistry,
    center: HalfVec,
)
    ensures
        spec_smooth_normal(w, reg, center, 0) == up_vec(),
{
    let cx = center.x as int;
    let cy = center.y as int;
    let cz = center.z as int;
    assert(air_row(w, reg, cx, cy, cz, 0, 0, 0, 0) == acc_zero());
    assert(air_row(w, reg, cx, cy, cz, 0, 0, 0, 1) == acc_add(
        acc_zero(),
        air_cell(w, reg, cx, cy, cz, 0, 0, 0),
    ));
    assert(air_plane(w, reg, cx, cy, cz, 0, 0, 0) == acc_zero());
    assert(air_plane(w, reg, cx, cy, cz, 0, 0, 1) == acc_add(
        acc_zero(),
        air_row(w, reg, cx, cy, cz, 0, 0, 0, 1),
    ));
    assert(air_cube(w, reg, cx, cy, cz, 0, 0) == acc_zero());
    assert(air_cube(w, reg, cx, cy, cz, 0, 1) == acc_add(
        acc_zero(),
        air_plane(w, reg, cx, cy, cz, 0, 0, 1),
    ));
    let a = spec_air_acc(w, reg, center, 0);
    assert(a.sx == 0 && a.sy == 0 && a.sz == 0);
}

/// The smooth normal at a world-space face center (half units): direction
/// from the center toward the centroid of air samples in the cube of side
/// `2 * rad + 1`, or world-up as the fallback.
pub fn calculate_smooth_normal(
    w: &VoxelWorld,
    reg: &MaterialRegistry,
    center: HalfVec,
    rad: i32,
) -> (n: HalfVec)
    requires
        w.wf(),
        reg.wf(),
        0 <= rad <= 64,
        -0x2000_0000_0000 + 200 <= center.x <= 0x2000_0000_0000 - 200,
        -0x2000_0000_0000 + 200 <= center.y <= 0x2000_0000_0000 - 200,
        -0x2000_0000_0000 + 200 <= center.z <= 0x2000_0000_0000 - 200,
        i32::MIN * w.chunk_size + 65 <= center.x / 2,
        center.x / 2 < (i32::MAX + 1) * w.chunk_size - 65,
        i32::MIN * w.chunk_size + 65 <= center.y / 2,
        center.y / 2 < (i32::MAX + 1) * w.chunk_size - 65,
        i32::MIN * w.chunk_size + 65 <= center.z / 2,
        center.z / 2 < (i32::MAX + 1) * w.chunk_size - 65,
    ensures
        n == spec_smooth_normal(*w, *reg, center, rad as int),
        -0x2000_0000 <= n.x <= 0x2000_0000,
        -0x2000_0000 <= n.y <= 0x2000_0000,
        -0x2000_0000 <= n.z <= 0x2000_0000,
{
    let ghost cx = center.x as int;
    let ghost cy = center.y as int;
    let ghost cz = center.z as int;
    let ghost radi = rad as int;
    let r64 = rad as i64;
    let mut sx: i64 = 0;
    let mut sy: i64 = 0;
    let mut sz: i64 = 0;
    let mut cnt: i64 = 0;
    let mut dx: i64 = -r64;
    while dx <= r64
        invariant
            w.wf(),
            reg.wf(),
            radi == rad as int,
            r64 == radi,
            0 <= radi <= 64,
            -0x2000_0000_0000 + 200 <= center.x <= 0x2000_0000_0000 - 200,
            -0x2000_0000_0000 + 200 <= center.y <= 0x2000_0000_0000 - 200,
            -0x2000_0000_0000 + 200 <= center.z <= 0x2000_0000_0000 - 200,
            i32::MIN * w.chunk_size + 65 <= center.x / 2,
            center.x / 2 < (i32::MAX + 1) * w.chunk_size - 65,
            i32::MIN * w.chunk_size + 65 <= center.y / 2,
            center.y / 2 < (i32::MAX + 1) * w.chunk_size - 65,
            i32::MIN * w.chunk_size + 65 <= center.z / 2,
            center.z / 2 < (i32::MAX + 1) * w.chunk_size - 65,
            cx == center.x as int,
            cy == center.y as int,
            cz == center.z as int,
            -radi <= dx <= radi + 1,
            sx == air_cube(*w, *reg, cx, cy, cz, radi, dx as int).sx,
            sy == air_cube(*w, *reg, cx, cy, cz, radi, dx as int).sy,
            sz == air_cube(*w, *reg, cx, cy, cz, radi, dx as int).sz,
            cnt == air_cube(*w, *reg, cx, cy, cz, radi, dx as int).count,
        decreases r64 + 1 - dx,
    {
        proof {
            lemma_air_cube_bounds(*w, *reg, cx, cy, cz, radi, dx as int);
        }
        let mut dy: i64 = -r64;
        while dy <= r64
            invariant
                w.wf(),
                reg.wf(),
                radi == rad as int,
                r64 == radi,
                0 <= radi <= 64,
                -0x2000_0000_0000 + 200 <= center.x <= 0x2000_0000_0000 - 200,
                -0x2000_0000_0000 + 200 <= center.y <= 0x2000_0000_0000 - 200,
                -0x2000_0000_0000 + 200 <= center.z <= 0x2000_0000_0000 - 200,
                i32::MIN * w.chunk_size + 65 <= center.x / 2,
                center.x / 2 < (i32::MAX + 1) * w.chunk_size - 65,
                i32::MIN * w.chunk_size + 65 <= center.y / 2,
                center.y / 2 < (i32::MAX + 1) * w.chunk_size - 65,
                i32::MIN * w.chunk_size + 65 <= center.z / 2,
                center.z / 2 < (i32::MAX + 1) * w.chunk_size - 65,
                cx == center.x as int,
                cy == center.y as int,
                cz == center.z as int,
                -radi <= dx <= radi,
                -radi <= dy <= radi + 1,
                sx == acc_add(
                    air_cube(*w, *reg, cx, cy, cz, radi, dx as int),
                    air_plane(*w, *reg, cx, cy, cz, radi, dx as int, dy as int),
                ).sx,
                sy == acc_add(
                    air_cube(*w, *reg, cx, cy, cz, radi, dx as int),
                    air_plane(*w, *reg, cx, cy, cz, radi, dx as int, dy as int),
                ).sy,
                sz == acc_add(
                    air_cube(*w, *reg, cx, cy, cz, radi, dx as int),
                    air_plane(*w, *reg, cx, cy, cz, radi, dx as int, dy as int),
                ).sz,
                cnt == acc_add(
                    air_cube(*w, *reg, cx, cy, cz, radi, dx as int),
                    air_plane(*w, *reg, cx, cy, cz, radi, dx as int, dy as int),
                ).count,
            decreases r64 + 1 - dy,
        {
            proof {
                lemma_air_cube_bounds(*w, *reg, cx, cy, cz, radi, dx as int);
                lemma_air_plane_bounds(*w, *reg, cx, cy, cz, radi, dx as int, dy as int);
            }
            let mut dz: i64 = -r64;
            while dz <= r64
                invariant
                    w.wf(),
                    reg.wf(),
                    radi == rad as int,
                    r64 == radi,
                    0 <= radi <= 64,
                    -0x2000_0000_0000 + 200 <= center.x <= 0x2000_0000_0000 - 200,
                    -0x2000_0000_0000 + 200 <= center.y <= 0x2000_0000_0000 - 200,
                    -0x2000_0000_0000 + 200 <= center.z <= 0x2000_0000_0000 - 200,
                    i32::MIN * w.chunk_size + 65 <= center.x / 2,
                    center.x / 2 < (i32::MAX + 1) * w.chunk_size - 65,
                    i32::MIN * w.chunk_size + 65 <= center.y / 2,
                    center.y / 2 < (i32::MAX + 1) * w.chunk_size - 65,
                    i32::MIN * w.chunk_size + 65 <= center.z / 2,
                    center.z / 2 < (i32::MAX + 1) * w.chunk_size - 65,
                    cx == center.x as int,
                    cy == center.y as int,
                    cz == center.z as int,
                    -radi <= dx <= radi,
                    -radi <= dy <= radi,
                    -radi <= dz <= radi + 1,
                    sx == acc_add(
                        acc_add(
                            air_cube(*w, *reg, cx, cy, cz, radi, dx as int),
                            air_plane(*w, *reg, cx, cy, cz, radi, dx as int, dy as int),
                        ),
                        air_row(*w, *reg, cx, cy, cz, radi, dx as int, dy as int, dz as int),
                    ).sx,
                    sy == acc_add(
                        acc_add(
                            air_cube(*w, *reg, cx, cy, cz, radi, dx as int),
                            air_plane(*w, *reg, cx, cy, cz, radi, dx as int, dy as int),
                        ),
                        air_row(*w, *reg, cx, cy, cz, radi, dx as int, dy as int, dz as int),
                    ).sy,
                    sz == acc_add(
                        acc_add(
                            air_cube(*w, *reg, cx, cy, cz, radi, dx as int),
                            air_plane(*w, *reg, cx, cy, cz, radi, dx as int, dy as int),
                        ),
                        air_row(*w, *reg, cx, cy, cz, radi, dx as int, dy as int, dz as int),
                    ).sz,
                    cnt == acc_add(
                        acc_add(
                            air_cube(*w, *reg, cx, cy, cz, radi, dx as int),
                            air_plane(*w, *reg, cx, cy, cz, radi, dx as int, dy as int),
                        ),
                        air_row(*w, *reg, cx, cy, cz, radi, dx as int, dy as int, dz as int),
                    ).count,
                decreases r64 + 1 - dz,
            {
                proof {
                    lemma_air_cube_bounds(*w, *reg, cx, cy, cz, radi, dx as int);
                    lemma_air_plane_bounds(*w, *reg, cx, cy, cz, radi, dx as int, dy as int);
                    lemma_air_row_bounds(
                        *w,
                        *reg,
                        cx,
                        cy,
                        cz,
                        radi,
                        dx as int,
                        dy as int,
                        dz as int,
                    );
                    lemma_half_shift(cx, dx as int);
                    lemma_half_shift(cy, dy as int);
                    lemma_half_shift(cz, dz as int);
                }
                let px = center.x + 2 * dx;
                let py = center.y + 2 * dy;
                let pz = center.z + 2 * dz;
                let solid = sample_density(w, reg, px, py, pz);
                if !solid {
                    sx = sx + 2 * dx;
                    sy = sy + 2 * dy;
                    sz = sz + 2 * dz;
                    cnt = cnt + 1;
                }
                dz = dz + 1;
            }
            dy = dy + 1;
        }
        dx = dx + 1;
    }
    proof {
        lemma_air_cube_bounds(*w, *reg, cx, cy, cz, radi, radi + 1);
    }
    if cnt == 0 {
        HalfVec { x: 0, y: 1, z: 0 }
    } else if sx == 0 && sy == 0 && sz == 0 {
        HalfVec { x: 0, y: 1, z: 0 }
    } else {
        HalfVec { x: sx, y: sy, z: sz }
    }
}

/// The basic normal: the geometric face direction, except that transparent
/// non-solid materials report world-up on the two vertical faces.
pub open spec fn spec_basic_normal(m: Material, d: int) -> HalfVec {
    if m.spec_is_transparent() && !m.solid && (d == 2 || d == 3) {
        up_vec()
    } else {
        dir_vec(d)
    }
}

pub fn calculate_basic_normal(face_dir: usize, m: &Material) -> (n: HalfVec)
    requires
        face_dir < 6,
    ensures
        n == spec_basic_normal(*m, face_dir as int),
        -1 <= n.x <= 1,
        -1 <= n.y <= 1,
        -1 <= n.z <= 1,
{
    if m.is_transparent() && !m.is_solid() && (face_dir == 2 || face_dir == 3) {
        HalfVec { x: 0, y: 1, z: 0 }
    } else {
        let (dx, dy, dz) = dir_delta(face_dir);
        HalfVec { x: dx, y: dy, z: dz }
    }
}

} // verus!
