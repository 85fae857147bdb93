//! The meshing engine: face culling, double-sided transparency, per-voxel
//! deterministic color seeds, and triangle-buffer assembly.
//!
//! Vertex positions and normals are emitted in half-voxel units relative to
//! a buffer origin; a renderer halves them to voxel units and normalizes
//! the normals.

use vstd::prelude::*;
use crate::coords::{ChunkCoord, VoxelPos, valid_chunk_size, cheb_dist};
use crate::voxel::{Material, MaterialRegistry, Rgba, air_name};
use crate::chunk::{ChunkData, vox_index, lemma_vox_index_bounds};
use crate::world::VoxelWorld;
use crate::normals::{
    HalfVec, up_vec, dir_dx, dir_dy, dir_dz, dir_vec, dir_delta, spec_world_name,
    world_material_name, spec_basic_normal, calculate_basic_normal, spec_smooth_normal,
    calculate_smooth_normal,
};

verus! {

/// Meshing configuration: the normal strategy and its sampling radius, and
/// the side length of the transparency sub-regions.
#[derive(Clone, Copy, Debug)]
pub struct RenderingConfig {
    pub normal_sampling_radius: i32,
    pub transparency_chunk_size: usize,
    pub chunk_size: usize,
    pub use_basic_normals: bool,
}

impl RenderingConfig {
    pub open spec fn wf(self) -> bool {
        &&& 0 <= self.normal_sampling_radius <= 64
        &&& 1 <= self.transparency_chunk_size <= crate::coords::MAX_CHUNK_SIZE
        &&& valid_chunk_size(self.chunk_size)
    }

    pub fn new(
        normal_sampling_radius: i32,
        transparency_chunk_size: usize,
        chunk_size: usize,
        use_basic_normals: bool,
    ) -> (c: RenderingConfig)
        requires
            0 <= normal_sampling_radius <= 64,
            1 <= transparency_chunk_size <= crate::coords::MAX_CHUNK_SIZE,
            valid_chunk_size(chunk_size),
        ensures
            c == (RenderingConfig {
                normal_sampling_radius,
                transparency_chunk_size,
                chunk_size,
                use_basic_normals,
            }),
            c.wf(),
    {
        RenderingConfig {
            normal_sampling_radius,
            transparency_chunk_size,
            chunk_size,
            use_basic_normals,
        }
    }
}

impl Default for RenderingConfig {
    fn default() -> (c: RenderingConfig)
        ensures
            c == (RenderingConfig {
                normal_sampling_radius: 2,
                transparency_chunk_size: 8,
                chunk_size: crate::coords::DEFAULT_CHUNK_SIZE,
                use_basic_normals: false,
            }),
            c.wf(),
    {
        RenderingConfig {
            normal_sampling_radius: 2,
            transparency_chunk_size: 8,
            chunk_size: crate::coords::DEFAULT_CHUNK_SIZE,
            use_basic_normals: false,
        }
    }
}

/// A vertex color recipe: the material's base color and jitter width, and
/// the voxel's deterministic seed. `sample` counts draws from the seeded
/// stream (the back face of a double-sided quad takes the second draw), so
/// the same voxel renders the same jittered color in every mesh pass.
#[derive(Clone, Copy, Debug, PartialEq, Eq, Structural)]
pub struct VoxelColor {
    pub rgba: Rgba,
    pub variance: u16,
    pub seed: u64,
    pub sample: u8,
}

/// One face quad to emit: the cell, the face direction, whether it is the
/// back-facing copy, its normal and its color recipe.
#[derive(Clone, Copy, Debug, PartialEq, Eq, Structural)]
pub struct FaceData {
    pub x: usize,
    pub y: usize,
    pub z: usize,
    pub dir: usize,
    pub back: bool,
    pub normal: HalfVec,
    pub color: VoxelColor,
}

/// The fixed bit-mixing hash seeding per-voxel color jitter from the
/// voxel's integer world coordinate: a golden-ratio multiplicative hash on
/// x, folded with shifted y and z, a second multiplicative avalanche, then
/// a high/low fold.
pub open spec fn spec_voxel_seed(x: u32, y: u32, z: u32) -> u64 {
    let s1 = vstd::wrapping::u64_specs::wrapping_mul(x as u64, 0x9e3779b97f4a7c15);
    let s2 = s1 ^ ((y as u64) << 16);
    let s3 = vstd::wrapping::u64_specs::wrapping_mul(s2, 0x9e3779b97f4a7c15);
    let s4 = s3 ^ ((z as u64) << 32);
    let s5 = vstd::wrapping::u64_specs::wrapping_mul(s4, 0xc6a4a7935bd1e995);
    s5 ^ (s5 >> 32)
}

pub fn voxel_seed(x: u32, y: u32, z: u32) -> (r: u64)
    ensures
        r == spec_voxel_seed(x, y, z),
{
    let mut seed: u64 = x as u64;
    seed = seed.wrapping_mul(0x9e3779b97f4a7c15u64);
    seed = seed ^ ((y as u64) << 16u32);
    seed = seed.wrapping_mul(0x9e3779b97f4a7c15u64);
    seed = seed ^ ((z as u64) << 32u32);
    seed = seed.wrapping_mul(0xc6a4a7935bd1e995u64);
    seed ^ (seed >> 32u32)
}

/// The seed of the voxel whose world cell is `(wx, wy, wz)`.
pub open spec fn spec_seed_at(wx: int, wy: int, wz: int) -> u64 {
    spec_voxel_seed(wx as u32, wy as u32, wz as u32)
}

/// The material a chunk's own cell carries, through the registry.
pub open spec fn spec_cell_name(chunk: ChunkData, x: int, y: int, z: int) -> Seq<char> {
    chunk.material_palette@[chunk.spec_voxel(x, y, z).material_id as int]@
}

pub open spec fn spec_cell_material(
    chunk: ChunkData,
    reg: MaterialRegistry,
    x: int,
    y: int,
    z: int,
) -> Material {
    reg.spec_get(spec_cell_name(chunk, x, y, z))
}

/// World position of the neighbor of cell `(x, y, z)` in direction `d`.
pub open spec fn spec_neighbor_pos(chunk: ChunkData, x: int, y: int, z: int, d: int) -> VoxelPos {
    let o = chunk.coord.spec_to_world_pos(chunk.size);
    VoxelPos {
        x: (o.x + x + dir_dx(d)) as i64,
        y: (o.y + y + dir_dy(d)) as i64,
        z: (o.z + z + dir_dz(d)) as i64,
    }
}

/// Whether the face of cell `(x, y, z)` in direction `d` is emitted: the
/// neighbor is air; or an opaque material borders a genuinely transparent
/// one; or a non-opaque material borders any different material.
pub open spec fn spec_face_visible(
    w: VoxelWorld,
    reg: MaterialRegistry,
    chunk: ChunkData,
    x: int,
    y: int,
    z: int,
    d: int,
) -> bool {
    let m = spec_cell_material(chunk, reg, x, y, z);
    let nname = spec_world_name(w, spec_neighbor_pos(chunk, x, y, z, d));
    let nm = reg.spec_get(nname);
    let has_air = nname == air_name();
    let mats_differ = !crate::voxel::same_material(m, nm);
    let m_opaque = m.solid && !m.spec_is_transparent();
    let n_truly = !nm.solid && nm.spec_is_transparent() && nname != air_name();
    has_air || (m_opaque && n_truly) || (!m_opaque && mats_differ)
}

/// Whether a back-facing copy of the quad is also emitted: at a boundary
/// between two genuinely transparent materials, or between a genuinely
/// transparent material and air.
pub open spec fn spec_back_emitted(
    w: VoxelWorld,
    reg: MaterialRegistry,
    chunk: ChunkData,
    x: int,
    y: int,
    z: int,
    d: int,
) -> bool {
    let m = spec_cell_material(chunk, reg, x, y, z);
    let nname = spec_world_name(w, spec_neighbor_pos(chunk, x, y, z, d));
    let nm = reg.spec_get(nname);
    let has_air = nname == air_name();
    let mats_differ = !crate::voxel::same_material(m, nm);
    let m_truly = !m.solid && m.spec_is_transparent();
    let n_truly = !nm.solid && nm.spec_is_transparent();
    mats_differ && ((m_truly && n_truly) || (m_truly && has_air))
}

/// The face's world-space center, in half units.
pub open spec fn spec_face_center(chunk: ChunkData, x: int, y: int, z: int, d: int) -> HalfVec {
    let o = chunk.coord.spec_to_world_pos(chunk.size);
    HalfVec {
        x: (2 * (o.x + x) + 1 + dir_dx(d)) as i64,
        y: (2 * (o.y + y) + 1 + dir_dy(d)) as i64,
        z: (2 * (o.z + z) + 1 + dir_dz(d)) as i64,
    }
}

/// The front face's normal under the configured strategy.
pub open spec fn spec_front_normal(
    w: VoxelWorld,
    reg: MaterialRegistry,
    cfg: RenderingConfig,
    chunk: ChunkData,
    x: int,
    y: int,
    z: int,
    d: int,
) -> HalfVec {
    if cfg.use_basic_normals {
        spec_basic_normal(spec_cell_material(chunk, reg, x, y, z), d)
    } else {
        spec_smooth_normal(
            w,
            reg,
            spec_face_center(chunk, x, y, z, d),
            cfg.normal_sampling_radius as int,
        )
    }
}

/// The back face's normal: forced to world-up on the two vertical faces of
/// a transparent/air boundary, otherwise the negated front normal.
pub open spec fn spec_back_normal(
    w: VoxelWorld,
    reg: MaterialRegistry,
    cfg: RenderingConfig,
    chunk: ChunkData,
    x: int,
    y: int,
    z: int,
    d: int,
) -> HalfVec {
    let m = spec_cell_material(chunk, reg, x, y, z);
    let nname = spec_world_name(w, spec_neighbor_pos(chunk, x, y, z, d));
    let trans_air = (!m.solid && m.spec_is_transparent()) && nname == air_name();
    let f = spec_front_normal(w, reg, cfg, chunk, x, y, z, d);
    if trans_air && (d == 2 || d == 3) {
        up_vec()
    } else {
        HalfVec { x: (-f.x) as i64, y: (-f.y) as i64, z: (-f.z) as i64 }
    }
}

/// The front face's color recipe: the cell's own material and the cell's
/// deterministic seed, first draw.
pub open spec fn spec_front_color(
    reg: MaterialRegistry,
    chunk: ChunkData,
    x: int,
    y: int,
    z: int,
) -> VoxelColor {
    let m = spec_cell_material(chunk, reg, x, y, z);
    let o = chunk.coord.spec_to_world_pos(chunk.size);
    VoxelColor {
        rgba: m.color,
        variance: m.color_variance,
        seed: spec_seed_at(o.x + x, o.y + y, o.z + z),
        sample: 0,
    }
}

/// The back face's color recipe: the same material at a transparent/air
/// boundary, the neighbor's material at a transparent/transparent one;
/// either way the second draw from the same seed.
pub open spec fn spec_back_color(
    w: VoxelWorld,
    reg: MaterialRegistry,
    chunk: ChunkData,
    x: int,
    y: int,
    z: int,
    d: int,
) -> VoxelColor {
    let m = spec_cell_material(chunk, reg, x, y, z);
    let nname = spec_world_name(w, spec_neighbor_pos(chunk, x, y, z, d));
    let nm = reg.spec_get(nname);
    let trans_air = (!m.solid && m.spec_is_transparent()) && nname == air_name();
    let o = chunk.coord.spec_to_world_pos(chunk.size);
    let seed = spec_seed_at(o.x + x, o.y + y, o.z + z);
    if trans_air {
        VoxelColor { rgba: m.color, variance: m.color_variance, seed, sample: 1 }
    } else {
        VoxelColor { rgba: nm.color, variance: nm.color_variance, seed, sample: 1 }
    }
}

pub open spec fn spec_front_face(
    w: VoxelWorld,
    reg: MaterialRegistry,
    cfg: RenderingConfig,
    chunk: ChunkData,
    x: int,
    y: int,
    z: int,
    d: int,
) -> FaceData {
    FaceData {
        x: x as usize,
        y: y as usize,
        z: z as usize,
        dir: d as usize,
        back: false,
        normal: spec_front_normal(w, reg, cfg, chunk, x, y, z, d),
        color: spec_front_color(reg, chunk, x, y, z),
    }
}

pub open spec fn spec_back_face(
    w: VoxelWorld,
    reg: MaterialRegistry,
    cfg: RenderingConfig,
    chunk: ChunkData,
    x: int,
    y: int,
    z: int,
    d: int,
) -> FaceData {
    FaceData {
        x: x as usize,
        y: y as usize,
        z: z as usize,
        dir: d as usize,
        back: true,
        normal: spec_back_normal(w, reg, cfg, chunk, x, y, z, d),
        color: spec_back_color(w, reg, chunk, x, y, z, d),
    }
}

/// At a boundary between a genuinely transparent voxel and air on a
/// vertical face, both a front and a back quad are emitted, the back
/// quad's normal is forced to world-up regardless of the true face
/// orientation, and the back face takes the same material's color recipe
/// (second draw from the voxel's seed). The reversed winding of a back
/// quad is fixed by `spec_index` for every face marked `back`. The one
/// hypothesis beyond the boundary itself: the cell's material must resolve
/// differently from air's resolution, else the culling rule sees no
/// boundary at all.
pub proof fn lemma_transparent_air_boundary(
    w: VoxelWorld,
    reg: MaterialRegistry,
    cfg: RenderingConfig,
    chunk: ChunkData,
    x: int,
    y: int,
    z: int,
    d: int,
)
    requires
        d == 2 || d == 3,
        ({
            let m = spec_cell_material(chunk, reg, x, y, z);
            !m.solid && m.spec_is_transparent()
        }),
        spec_world_name(w, spec_neighbor_pos(chunk, x, y, z, d)) == air_name(),
        !crate::voxel::same_material(
            spec_cell_material(chunk, reg, x, y, z),
            reg.spec_get(air_name()),
        ),
    ensures
        spec_face_visible(w, reg, chunk, x, y, z, d),
        spec_back_emitted(w, reg, chunk, x, y, z, d),
        spec_back_normal(w, reg, cfg, chunk, x, y, z, d) == up_vec(),
        ({
            let m = spec_cell_material(chunk, reg, x, y, z);
            let back = spec_back_color(w, reg, chunk, x, y, z, d);
            back.rgba == m.color && back.variance == m.color_variance && back.sample == 1
        }),
{
}

/// The faces one cell emits for directions below `d_upto`, in direction
/// order, front before back.
pub open spec fn spec_dir_faces(
    w: VoxelWorld,
    reg: MaterialRegistry,
    cfg: RenderingConfig,
    chunk: ChunkData,
    x: int,
    y: int,
    z: int,
    d_upto: int,
) -> Seq<FaceData>
    decreases d_upto,
{
    if d_upto <= 0 {
        Seq::empty()
    } else {
        let d = d_upto - 1;
        let prev = spec_dir_faces(w, reg, cfg, chunk, x, y, z, d);
        if spec_face_visible(w, reg, chunk, x, y, z, d) {
            if spec_back_emitted(w, reg, chunk, x, y, z, d) {
                prev + seq![
                    spec_front_face(w, reg, cfg, chunk, x, y, z, d),
                    spec_back_face(w, reg, cfg, chunk, x, y, z, d),
                ]
            } else {
                prev + seq![spec_front_face(w, reg, cfg, chunk, x, y, z, d)]
            }
        } else {
            prev
        }
    }
}

/// Whether a cell's material belongs in the requested pass: the
/// transparent pass takes genuinely transparent materials, the opaque pass
/// takes solid ones (semi-transparent solids included).
pub open spec fn spec_cell_emits(
    chunk: ChunkData,
    reg: MaterialRegistry,
    x: int,
    y: int,
    z: int,
    transparent_pass: bool,
) -> bool {
    let name = spec_cell_name(chunk, x, y, z);
    let m = reg.spec_get(name);
    let truly = !m.solid && m.spec_is_transparent() && name != air_name();
    if transparent_pass {
        truly
    } else {
        !truly && m.solid
    }
}

pub open spec fn spec_cell_faces(
    w: VoxelWorld,
    reg: MaterialRegistry,
    cfg: RenderingConfig,
    chunk: ChunkData,
    pass: bool,
    x: int,
    y: int,
    z: int,
) -> Seq<FaceData> {
    if spec_cell_emits(chunk, reg, x, y, z, pass) {
        spec_dir_faces(w, reg, cfg, chunk, x, y, z, 6)
    } else {
        Seq::empty()
    }
}

/// Faces of the cells `(x, y, z')` with `z0 <= z' < z_upto`.
pub open spec fn spec_faces_z(
    w: VoxelWorld,
    reg: MaterialRegistry,
    cfg: RenderingConfig,
    chunk: ChunkData,
    pass: bool,
    x: int,
    y: int,
    z0: int,
    z_upto: int,
) -> Seq<FaceData>
    decreases z_upto - z0,
{
    if z_upto <= z0 {
        Seq::empty()
    } else {
        spec_faces_z(w, reg, cfg, chunk, pass, x, y, z0, z_upto - 1) + spec_cell_faces(
            w,
            reg,
            cfg,
            chunk,
            pass,
            x,
            y,
            z_upto - 1,
        )
    }
}

/// Faces of the rows `(x, y', [z0, z1))` with `y0 <= y' < y_upto`.
pub open spec fn spec_faces_y(
    w: VoxelWorld,
    reg: MaterialRegistry,
    cfg: RenderingConfig,
    chunk: ChunkData,
    pass: bool,
    x: int,
    y0: int,
    y_upto: int,
    z0: int,
    z1: int,
) -> Seq<FaceData>
    decreases y_upto - y0,
{
    if y_upto <= y0 {
        Seq::empty()
    } else {
        spec_faces_y(w, reg, cfg, chunk, pass, x, y0, y_upto - 1, z0, z1) + spec_faces_z(
            w,
            reg,
            cfg,
            chunk,
            pass,
            x,
            y_upto - 1,
            z0,
            z1,
        )
    }
}

/// Faces of the planes `(x', [y0, y1), [z0, z1))` with `x0 <= x' < x_upto`.
pub open spec fn spec_faces_x(
    w: VoxelWorld,
    reg: MaterialRegistry,
    cfg: RenderingConfig,
    chunk: ChunkData,
    pass: bool,
    x0: int,
    x_upto: int,
    y0: int,
    y1: int,
    z0: int,
    z1: int,
) -> Seq<FaceData>
    decreases x_upto - x0,
{
    if x_upto <= x0 {
        Seq::empty()
    } else {
        spec_faces_x(w, reg, cfg, chunk, pass, x0, x_upto - 1, y0, y1, z0, z1) + spec_faces_y(
            w,
            reg,
            cfg,
            chunk,
            pass,
            x_upto - 1,
            y0,
            y1,
            z0,
            z1,
        )
    }
}

/// All faces the region `[x0, x1) x [y0, y1) x [z0, z1)` of the chunk
/// emits for the given pass, in cell order x, then y, then z, direction
/// order within a cell.
pub open spec fn spec_region_faces(
    w: VoxelWorld,
    reg: MaterialRegistry,
    cfg: RenderingConfig,
    chunk: ChunkData,
    pass: bool,
    x0: int,
    x1: int,
    y0: int,
    y1: int,
    z0: int,
    z1: int,
) -> Seq<FaceData> {
    spec_faces_x(w, reg, cfg, chunk, pass, x0, x1, y0, y1, z0, z1)
}

/// All faces the whole chunk emits for the given pass.
pub open spec fn spec_chunk_faces(
    w: VoxelWorld,
    reg: MaterialRegistry,
    cfg: RenderingConfig,
    chunk: ChunkData,
    pass: bool,
) -> Seq<FaceData> {
    spec_region_faces(
        w,
        reg,
        cfg,
        chunk,
        pass,
        0,
        chunk.size as int,
        0,
        chunk.size as int,
        0,
        chunk.size as int,
    )
}


/// Scaling a coordinate margin by the chunk size keeps it inside the
/// addressable world band.
pub proof fn lemma_coord_margin(c: int, size: int, m: int)
    requires
        1 <= size,
        0 <= m,
        i32::MIN + m <= c <= i32::MAX - m,
    ensures
        i32::MIN * size + m * size <= c * size,
        c * size + m * size <= i32::MAX * size,
        m <= m * size,
{
    assert(i32::MIN * size + m * size <= c * size && c * size + m * size <= i32::MAX * size && m
        <= m * size) by (nonlinear_arith)
        requires
            1 <= size,
            0 <= m,
            i32::MIN + m <= c <= i32::MAX - m,
    ;
}

/// Halving `2 a + r` with a remainder below two yields `a`.
pub proof fn lemma_half_of(a: int, r: int)
    requires
        0 <= r < 2,
    ensures
        (2 * a + r) / 2 == a,
{
    vstd::arithmetic::div_mod::lemma_fundamental_div_mod_converse_div(2 * a + r, 2, a, r);
}

/// Builds the face list of one region of a chunk for one pass, in cell
/// order x, then y, then z.
pub fn build_face_list(
    w: &VoxelWorld,
    reg: &MaterialRegistry,
    cfg: &RenderingConfig,
    chunk: &ChunkData,
    transparent_pass: bool,
    x0: usize,
    x1: usize,
    y0: usize,
    y1: usize,
    z0: usize,
    z1: usize,
) -> (faces: Vec<FaceData>)
    requires
        w.wf(),
        reg.wf(),
        cfg.wf(),
        chunk.wf(),
        chunk.size == w.chunk_size,
        chunk.coord.can_offset(80),
        x0 <= x1 <= chunk.size,
        y0 <= y1 <= chunk.size,
        z0 <= z1 <= chunk.size,
    ensures
        faces@ == spec_region_faces(
            *w,
            *reg,
            *cfg,
            *chunk,
            transparent_pass,
            x0 as int,
            x1 as int,
            y0 as int,
            y1 as int,
            z0 as int,
            z1 as int,
        ),
{
    proof {
        crate::coords::lemma_axis_world_fits(chunk.coord.x as int, chunk.size as int);
        crate::coords::lemma_axis_world_fits(chunk.coord.y as int, chunk.size as int);
        crate::coords::lemma_axis_world_fits(chunk.coord.z as int, chunk.size as int);
        lemma_coord_margin(chunk.coord.x as int, chunk.size as int, 80);
        lemma_coord_margin(chunk.coord.y as int, chunk.size as int, 80);
        lemma_coord_margin(chunk.coord.z as int, chunk.size as int, 80);
    }
    let origin = chunk.coord.to_world_pos(chunk.size);
    let mut faces: Vec<FaceData> = Vec::new();
    let mut x = x0;
    while x < x1
        invariant
            w.wf(),
            reg.wf(),
            cfg.wf(),
            chunk.wf(),
            chunk.size == w.chunk_size,
            chunk.coord.can_offset(80),
            x0 <= x1 <= chunk.size,
            y0 <= y1 <= chunk.size,
            z0 <= z1 <= chunk.size,
            x0 <= x <= x1,
            origin == chunk.coord.spec_to_world_pos(chunk.size),
            faces@ == spec_faces_x(
                *w,
                *reg,
                *cfg,
                *chunk,
                transparent_pass,
                x0 as int,
                x as int,
                y0 as int,
                y1 as int,
                z0 as int,
                z1 as int,
            ),
        decreases x1 - x,
    {
        let mut y = y0;
        while y < y1
            invariant
                w.wf(),
                reg.wf(),
                cfg.wf(),
                chunk.wf(),
                chunk.size == w.chunk_size,
                chunk.coord.can_offset(80),
                x0 <= x1 <= chunk.size,
                y0 <= y1 <= chunk.size,
                z0 <= z1 <= chunk.size,
                x0 <= x < x1,
                y0 <= y <= y1,
                origin == chunk.coord.spec_to_world_pos(chunk.size),
                faces@ == spec_faces_x(
                    *w,
                    *reg,
                    *cfg,
                    *chunk,
                    transparent_pass,
                    x0 as int,
                    x as int,
                    y0 as int,
                    y1 as int,
                    z0 as int,
                    z1 as int,
                ) + spec_faces_y(
                    *w,
                    *reg,
                    *cfg,
                    *chunk,
                    transparent_pass,
                    x as int,
                    y0 as int,
                    y as int,
                    z0 as int,
                    z1 as int,
                ),
            decreases y1 - y,
        {
            let mut z = z0;
            while z < z1
                invariant
                    w.wf(),
                    reg.wf(),
                    cfg.wf(),
                    chunk.wf(),
                    chunk.size == w.chunk_size,
                    chunk.coord.can_offset(80),
                    x0 <= x1 <= chunk.size,
                    y0 <= y1 <= chunk.size,
                    z0 <= z1 <= chunk.size,
                    x0 <= x < x1,
                    y0 <= y < y1,
                    z0 <= z <= z1,
                    origin == chunk.coord.spec_to_world_pos(chunk.size),
                    faces@ == spec_faces_x(
                        *w,
                        *reg,
                        *cfg,
                        *chunk,
                        transparent_pass,
                        x0 as int,
                        x as int,
                        y0 as int,
                        y1 as int,
                        z0 as int,
                        z1 as int,
                    ) + spec_faces_y(
                        *w,
                        *reg,
                        *cfg,
                        *chunk,
                        transparent_pass,
                        x as int,
                        y0 as int,
                        y as int,
                        z0 as int,
                        z1 as int,
                    ) + spec_faces_z(
                        *w,
                        *reg,
                        *cfg,
                        *chunk,
                        transparent_pass,
                        x as int,
                        y as int,
                        z0 as int,
                        z as int,
                    ),
                decreases z1 - z,
            {
                add_voxel_faces(w, reg, cfg, chunk, origin, transparent_pass, x, y, z, &mut faces);
                proof {
                    assert(faces@ =~= spec_faces_x(
                        *w,
                        *reg,
                        *cfg,
                        *chunk,
                        transparent_pass,
                        x0 as int,
                        x as int,
                        y0 as int,
                        y1 as int,
                        z0 as int,
                        z1 as int,
                    ) + spec_faces_y(
                        *w,
                        *reg,
                        *cfg,
                        *chunk,
                        transparent_pass,
                        x as int,
                        y0 as int,
                        y as int,
                        z0 as int,
                        z1 as int,
                    ) + spec_faces_z(
                        *w,
                        *reg,
                        *cfg,
                        *chunk,
                        transparent_pass,
                        x as int,
                        y as int,
                        z0 as int,
                        z as int + 1,
                    ));
                }
                z = z + 1;
            }
            proof {
                assert(faces@ =~= spec_faces_x(
                    *w,
                    *reg,
                    *cfg,
                    *chunk,
                    transparent_pass,
                    x0 as int,
                    x as int,
                    y0 as int,
                    y1 as int,
                    z0 as int,
                    z1 as int,
                ) + spec_faces_y(
                    *w,
                    *reg,
                    *cfg,
                    *chunk,
                    transparent_pass,
                    x as int,
                    y0 as int,
                    y as int + 1,
                    z0 as int,
                    z1 as int,
                ));
            }
            y = y + 1;
        }
        proof {
            assert(faces@ =~= spec_faces_x(
                *w,
                *reg,
                *cfg,
                *chunk,
                transparent_pass,
                x0 as int,
                x as int + 1,
                y0 as int,
                y1 as int,
                z0 as int,
                z1 as int,
            ));
        }
        x = x + 1;
    }
    faces
}

/// Appends the faces one cell emits for the pass, checking each of the six
/// directions against the facing world voxel.
#[verifier::rlimit(80)]
fn add_voxel_faces(
    w: &VoxelWorld,
    reg: &MaterialRegistry,
    cfg: &RenderingConfig,
    chunk: &ChunkData,
    origin: VoxelPos,
    transparent_pass: bool,
    x: usize,
    y: usize,
    z: usize,
    faces: &mut Vec<FaceData>,
)
    requires
        w.wf(),
        reg.wf(),
        cfg.wf(),
        chunk.wf(),
        chunk.size == w.chunk_size,
        chunk.coord.can_offset(80),
        x < chunk.size,
        y < chunk.size,
        z < chunk.size,
        origin == chunk.coord.spec_to_world_pos(chunk.size),
    ensures
        final(faces)@ == old(faces)@ + spec_cell_faces(
            *w,
            *reg,
            *cfg,
            *chunk,
            transparent_pass,
            x as int,
            y as int,
            z as int,
        ),
{
    proof {
        crate::coords::lemma_axis_world_fits(chunk.coord.x as int, chunk.size as int);
        crate::coords::lemma_axis_world_fits(chunk.coord.y as int, chunk.size as int);
        crate::coords::lemma_axis_world_fits(chunk.coord.z as int, chunk.size as int);
        lemma_coord_margin(chunk.coord.x as int, chunk.size as int, 80);
        lemma_coord_margin(chunk.coord.y as int, chunk.size as int, 80);
        lemma_coord_margin(chunk.coord.z as int, chunk.size as int, 80);
        lemma_vox_index_bounds(chunk.size as int, x as int, y as int, z as int);
    }
    let ghost pre = faces@;
    let voxel = chunk.get_voxel(x, y, z).unwrap();
    proof {
        assert(chunk.voxels@[vox_index(chunk.size as int, x as int, y as int, z as int)].material_id
            < chunk.material_palette@.len());
    }
    let name = chunk.get_material_name(voxel.material_id).unwrap();
    let m = reg.get(name.as_str());
    let truly = !m.is_solid() && m.is_transparent() && !crate::voxel::str_eq(name.as_str(), "air");
    let emits = if transparent_pass {
        truly
    } else {
        !truly && m.is_solid()
    };
    if !emits {
        proof {
            assert(faces@ =~= pre + spec_cell_faces(
                *w,
                *reg,
                *cfg,
                *chunk,
                transparent_pass,
                x as int,
                y as int,
                z as int,
            ));
        }
        return ;
    }
    let wx = origin.x + x as i64;
    let wy = origin.y + y as i64;
    let wz = origin.z + z as i64;
    let seed = voxel_seed(
        #[verifier::truncate] (wx as u32),
        #[verifier::truncate] (wy as u32),
        #[verifier::truncate] (wz as u32),
    );
    let front_color = VoxelColor {
        rgba: m.get_color(),
        variance: m.color_variance,
        seed,
        sample: 0,
    };
    let mut d: usize = 0;
    while d < 6
        invariant
            w.wf(),
            reg.wf(),
            cfg.wf(),
            chunk.wf(),
            chunk.size == w.chunk_size,
            chunk.coord.can_offset(80),
            x < chunk.size,
            y < chunk.size,
            z < chunk.size,
            origin == chunk.coord.spec_to_world_pos(chunk.size),
            d <= 6,
            wx == origin.x + x,
            wy == origin.y + y,
            wz == origin.z + z,
            seed == spec_seed_at(origin.x + x, origin.y + y, origin.z + z),
            *m == spec_cell_material(*chunk, *reg, x as int, y as int, z as int),
            m.wf(),
            front_color == spec_front_color(*reg, *chunk, x as int, y as int, z as int),
            faces@ == pre + spec_dir_faces(
                *w,
                *reg,
                *cfg,
                *chunk,
                x as int,
                y as int,
                z as int,
                d as int,
            ),
        decreases 6 - d,
    {
        proof {
            crate::coords::lemma_axis_world_fits(chunk.coord.x as int, chunk.size as int);
            crate::coords::lemma_axis_world_fits(chunk.coord.y as int, chunk.size as int);
            crate::coords::lemma_axis_world_fits(chunk.coord.z as int, chunk.size as int);
            lemma_coord_margin(chunk.coord.x as int, chunk.size as int, 80);
            lemma_coord_margin(chunk.coord.y as int, chunk.size as int, 80);
            lemma_coord_margin(chunk.coord.z as int, chunk.size as int, 80);
        }
        let (ddx, ddy, ddz) = dir_delta(d);
        let npos = VoxelPos { x: wx + ddx, y: wy + ddy, z: wz + ddz };
        proof {
            assert(npos == spec_neighbor_pos(*chunk, x as int, y as int, z as int, d as int));
            assert(npos.in_chunk_range(w.chunk_size));
        }
        let nname_opt = world_material_name(w, npos);
        let has_air = match nname_opt {
            None => true,
            Some(s) => crate::voxel::str_eq(s.as_str(), "air"),
        };
        let nm = match nname_opt {
            Some(s) => reg.get(s.as_str()),
            None => reg.get("air"),
        };
        let mats_differ = !crate::voxel::material_eq(m, nm);
        let m_opaque = m.is_solid() && !m.is_transparent();
        proof {
            assert(has_air == (spec_world_name(*w, npos) == air_name()));
        }
        let n_truly2 = !nm.is_solid() && nm.is_transparent() && !has_air;
        let visible = has_air || (m_opaque && n_truly2) || (!m_opaque && mats_differ);
        proof {
            assert(visible == spec_face_visible(
                *w,
                *reg,
                *chunk,
                x as int,
                y as int,
                z as int,
                d as int,
            ));
        }
        if visible {
            let front_normal = if cfg.use_basic_normals {
                calculate_basic_normal(d, m)
            } else {
                proof {
                    if dir_dx(d as int) == 1 {
                        lemma_half_of(origin.x + x as int + 1, 0);
                    } else {
                        lemma_half_of(origin.x + x as int, 1 + dir_dx(d as int));
                    }
                    if dir_dy(d as int) == 1 {
                        lemma_half_of(origin.y + y as int + 1, 0);
                    } else {
                        lemma_half_of(origin.y + y as int, 1 + dir_dy(d as int));
                    }
                    if dir_dz(d as int) == 1 {
                        lemma_half_of(origin.z + z as int + 1, 0);
                    } else {
                        lemma_half_of(origin.z + z as int, 1 + dir_dz(d as int));
                    }
                }
                let center = HalfVec {
                    x: 2 * wx + 1 + ddx,
                    y: 2 * wy + 1 + ddy,
                    z: 2 * wz + 1 + ddz,
                };
                calculate_smooth_normal(w, reg, center, cfg.normal_sampling_radius)
            };
            proof {
                assert(front_normal == spec_front_normal(
                    *w,
                    *reg,
                    *cfg,
                    *chunk,
                    x as int,
                    y as int,
                    z as int,
                    d as int,
                ));
            }
            let ghost before = faces@;
            faces.push(
                FaceData {
                    x,
                    y,
                    z,
                    dir: d,
                    back: false,
                    normal: front_normal,
                    color: front_color,
                },
            );
            let m_truly = !m.is_solid() && m.is_transparent();
            let n_truly_b = !nm.is_solid() && nm.is_transparent();
            let trans_air = m_truly && has_air;
            if mats_differ && ((m_truly && n_truly_b) || trans_air) {
                let back_normal = if trans_air && (d == 2 || d == 3) {
                    HalfVec { x: 0, y: 1, z: 0 }
                } else {
                    HalfVec { x: -front_normal.x, y: -front_normal.y, z: -front_normal.z }
                };
                let back_color = if trans_air {
                    VoxelColor { rgba: m.get_color(), variance: m.color_variance, seed, sample: 1 }
                } else {
                    VoxelColor {
                        rgba: nm.get_color(),
                        variance: nm.color_variance,
                        seed,
                        sample: 1,
                    }
                };
                proof {
                    assert(back_normal == spec_back_normal(
                        *w,
                        *reg,
                        *cfg,
                        *chunk,
                        x as int,
                        y as int,
                        z as int,
                        d as int,
                    ));
                    assert(back_color == spec_back_color(
                        *w,
                        *reg,
                        *chunk,
                        x as int,
                        y as int,
                        z as int,
                        d as int,
                    ));
                }
                faces.push(
                    FaceData {
                        x,
                        y,
                        z,
                        dir: d,
                        back: true,
                        normal: back_normal,
                        color: back_color,
                    },
                );
                proof {
                    assert(faces@ =~= pre + spec_dir_faces(
                        *w,
                        *reg,
                        *cfg,
                        *chunk,
                        x as int,
                        y as int,
                        z as int,
                        d as int + 1,
                    ));
                }
            } else {
                proof {
                    assert(faces@ =~= pre + spec_dir_faces(
                        *w,
                        *reg,
                        *cfg,
                        *chunk,
                        x as int,
                        y as int,
                        z as int,
                        d as int + 1,
                    ));
                }
            }
        } else {
            proof {
                assert(faces@ =~= pre + spec_dir_faces(
                    *w,
                    *reg,
                    *cfg,
                    *chunk,
                    x as int,
                    y as int,
                    z as int,
                    d as int + 1,
                ));
            }
        }
        d = d + 1;
    }
    proof {
        assert(faces@ =~= pre + spec_cell_faces(
            *w,
            *reg,
            *cfg,
            *chunk,
            transparent_pass,
            x as int,
            y as int,
            z as int,
        ));
    }
}


/// A triangle buffer: parallel per-vertex arrays (position, normal, color
/// recipe) and a triangle index list. Positions and normals are in half
/// units relative to the buffer's origin.
#[derive(Debug)]
pub struct MeshBuffer {
    pub positions: Vec<HalfVec>,
    pub normals: Vec<HalfVec>,
    pub colors: Vec<VoxelColor>,
    pub indices: Vec<u32>,
}

/// Corner offsets (in voxel units) of corner `k` of the quad facing
/// direction `d`, in the fixed winding the renderer expects.
pub open spec fn corner_dx(d: int, k: int) -> int {
    if d == 0 {
        1
    } else if d == 1 {
        0
    } else if d == 2 || d == 3 {
        if k == 0 || k == 1 {
            0
        } else {
            1
        }
    } else if d == 4 {
        if k == 1 || k == 2 {
            1
        } else {
            0
        }
    } else {
        if k == 0 || k == 3 {
            1
        } else {
            0
        }
    }
}

pub open spec fn corner_dy(d: int, k: int) -> int {
    if d == 2 {
        1
    } else if d == 3 {
        0
    } else if d == 0 || d == 1 {
        if k == 1 || k == 2 {
            1
        } else {
            0
        }
    } else {
        if k == 2 || k == 3 {
            1
        } else {
            0
        }
    }
}

pub open spec fn corner_dz(d: int, k: int) -> int {
    if d == 4 {
        1
    } else if d == 5 {
        0
    } else if d == 0 {
        if k == 2 || k == 3 {
            1
        } else {
            0
        }
    } else if d == 1 {
        if k == 0 || k == 1 {
            1
        } else {
            0
        }
    } else if d == 2 {
        if k == 1 || k == 2 {
            1
        } else {
            0
        }
    } else {
        if k == 0 || k == 3 {
            1
        } else {
            0
        }
    }
}

/// Corner offsets of corner `k` of the quad facing direction `d`.
pub fn corner_delta(d: usize, k: usize) -> (r: (i64, i64, i64))
    requires
        d < 6,
        k < 4,
    ensures
        r.0 == corner_dx(d as int, k as int),
        r.1 == corner_dy(d as int, k as int),
        r.2 == corner_dz(d as int, k as int),
{
    match d {
        0 => match k {
            0 => (1, 0, 0),
            1 => (1, 1, 0),
            2 => (1, 1, 1),
            _ => (1, 0, 1),
        },
        1 => match k {
            0 => (0, 0, 1),
            1 => (0, 1, 1),
            2 => (0, 1, 0),
            _ => (0, 0, 0),
        },
        2 => match k {
            0 => (0, 1, 0),
            1 => (0, 1, 1),
            2 => (1, 1, 1),
            _ => (1, 1, 0),
        },
        3 => match k {
            0 => (0, 0, 1),
            1 => (0, 0, 0),
            2 => (1, 0, 0),
            _ => (1, 0, 1),
        },
        4 => match k {
            0 => (0, 0, 1),
            1 => (1, 0, 1),
            2 => (1, 1, 1),
            _ => (0, 1, 1),
        },
        _ => match k {
            0 => (1, 0, 0),
            1 => (0, 0, 0),
            2 => (0, 1, 0),
            _ => (1, 1, 0),
        },
    }
}

/// Position of corner `k` of a face, in half units relative to the buffer
/// origin `off` (itself in half units, chunk-relative).
pub open spec fn spec_vertex(f: FaceData, k: int, off: HalfVec) -> HalfVec {
    HalfVec {
        x: (2 * (f.x + corner_dx(f.dir as int, k)) - off.x) as i64,
        y: (2 * (f.y + corner_dy(f.dir as int, k)) - off.y) as i64,
        z: (2 * (f.z + corner_dz(f.dir as int, k)) - off.z) as i64,
    }
}

/// Index entry `j` of face `i`: two front-facing triangles, or the same
/// quad with reversed winding for a back face.
pub open spec fn spec_index(f: FaceData, i: int, j: int) -> int {
    let b = 4 * i;
    if j == 0 || j == 3 {
        b
    } else if j == 1 {
        b + (if f.back {
            2int
        } else {
            1int
        })
    } else if j == 2 {
        b + (if f.back {
            1int
        } else {
            2int
        })
    } else if j == 4 {
        b + (if f.back {
            3int
        } else {
            2int
        })
    } else {
        b + (if f.back {
            2int
        } else {
            3int
        })
    }
}

/// The buffer lays out exactly the given face list: four vertices per face
/// carrying its normal and color, six indices per face in the face's
/// winding.
pub open spec fn buffer_matches(b: MeshBuffer, faces: Seq<FaceData>, off: HalfVec) -> bool {
    &&& b.positions@.len() == 4 * faces.len()
    &&& b.normals@.len() == 4 * faces.len()
    &&& b.colors@.len() == 4 * faces.len()
    &&& b.indices@.len() == 6 * faces.len()
    &&& forall|i: int, k: int|
        0 <= i < faces.len() && 0 <= k < 4 ==> #[trigger] b.positions@[4 * i + k] == spec_vertex(
            faces[i],
            k,
            off,
        ) && b.normals@[4 * i + k] == faces[i].normal && b.colors@[4 * i + k] == faces[i].color
    &&& forall|i: int, j: int|
        0 <= i < faces.len() && 0 <= j < 6 ==> #[trigger] b.indices@[6 * i + j] == spec_index(
            faces[i],
            i,
            j,
        )
}

/// Every face of a region names an in-bounds cell and a valid direction,
/// and a region emits a bounded number of faces.
#[verifier::rlimit(80)]
pub proof fn lemma_dir_faces_props(
    w: VoxelWorld,
    reg: MaterialRegistry,
    cfg: RenderingConfig,
    chunk: ChunkData,
    x: int,
    y: int,
    z: int,
    d_upto: int,
)
    requires
        0 <= d_upto <= 6,
        0 <= x <= 0x1000,
        0 <= y <= 0x1000,
        0 <= z <= 0x1000,
    ensures
        spec_dir_faces(w, reg, cfg, chunk, x, y, z, d_upto).len() <= 2 * d_upto,
        forall|i: int|
            0 <= i < spec_dir_faces(w, reg, cfg, chunk, x, y, z, d_upto).len() ==> (
            #[trigger] spec_dir_faces(w, reg, cfg, chunk, x, y, z, d_upto)[i]).x == x
                && spec_dir_faces(w, reg, cfg, chunk, x, y, z, d_upto)[i].y == y && spec_dir_faces(
                w,
                reg,
                cfg,
                chunk,
                x,
                y,
                z,
                d_upto,
            )[i].z == z && spec_dir_faces(w, reg, cfg, chunk, x, y, z, d_upto)[i].dir < 6,
    decreases d_upto,
{
    if d_upto > 0 {
        lemma_dir_faces_props(w, reg, cfg, chunk, x, y, z, d_upto - 1);
    }
}

pub proof fn lemma_faces_z_props(
    w: VoxelWorld,
    reg: MaterialRegistry,
    cfg: RenderingConfig,
    chunk: ChunkData,
    pass: bool,
    x: int,
    y: int,
    z0: int,
    z_upto: int,
)
    requires
        0 <= x <= 0x1000,
        0 <= y <= 0x1000,
        0 <= z0 <= z_upto,
        z_upto <= 0x1000,
    ensures
        spec_faces_z(w, reg, cfg, chunk, pass, x, y, z0, z_upto).len() <= 12 * (z_upto - z0),
        forall|i: int|
            0 <= i < spec_faces_z(w, reg, cfg, chunk, pass, x, y, z0, z_upto).len() ==> (
            #[trigger] spec_faces_z(w, reg, cfg, chunk, pass, x, y, z0, z_upto)[i]).x == x
                && spec_faces_z(w, reg, cfg, chunk, pass, x, y, z0, z_upto)[i].y == y && z0
                <= spec_faces_z(w, reg, cfg, chunk, pass, x, y, z0, z_upto)[i].z < z_upto
                && spec_faces_z(w, reg, cfg, chunk, pass, x, y, z0, z_upto)[i].dir < 6,
    decreases z_upto - z0,
{
    if z_upto > z0 {
        lemma_faces_z_props(w, reg, cfg, chunk, pass, x, y, z0, z_upto - 1);
        lemma_dir_faces_props(w, reg, cfg, chunk, x, y, z_upto - 1, 6);
    }
}

pub proof fn lemma_faces_y_props(
    w: VoxelWorld,
    reg: MaterialRegistry,
    cfg: RenderingConfig,
    chunk: ChunkData,
    pass: bool,
    x: int,
    y0: int,
    y_upto: int,
    z0: int,
    z1: int,
)
    requires
        0 <= x <= 0x1000,
        0 <= y0 <= y_upto,
        y_upto <= 0x1000,
        0 <= z0 <= z1,
        z1 <= 0x1000,
        z1 - z0 <= 256,
    ensures
        spec_faces_y(w, reg, cfg, chunk, pass, x, y0, y_upto, z0, z1).len() <= 3072 * (y_upto
            - y0),
        forall|i: int|
            0 <= i < spec_faces_y(w, reg, cfg, chunk, pass, x, y0, y_upto, z0, z1).len() ==> (
            #[trigger] spec_faces_y(w, reg, cfg, chunk, pass, x, y0, y_upto, z0, z1)[i]).x == x
                && y0 <= spec_faces_y(w, reg, cfg, chunk, pass, x, y0, y_upto, z0, z1)[i].y
                < y_upto && z0 <= spec_faces_y(w, reg, cfg, chunk, pass, x, y0, y_upto, z0, z1)[
            i].z < z1 && spec_faces_y(w, reg, cfg, chunk, pass, x, y0, y_upto, z0, z1)[i].dir < 6,
    decreases y_upto - y0,
{
    if y_upto > y0 {
        lemma_faces_y_props(w, reg, cfg, chunk, pass, x, y0, y_upto - 1, z0, z1);
        lemma_faces_z_props(w, reg, cfg, chunk, pass, x, y_upto - 1, z0, z1);
    }
}

pub proof fn lemma_faces_x_props(
    w: VoxelWorld,
    reg: MaterialRegistry,
    cfg: RenderingConfig,
    chunk: ChunkData,
    pass: bool,
    x0: int,
    x_upto: int,
    y0: int,
    y1: int,
    z0: int,
    z1: int,
)
    requires
        0 <= x0 <= x_upto,
        x_upto <= 0x1000,
        0 <= y0 <= y1,
        y1 <= 0x1000,
        0 <= z0 <= z1,
        z1 <= 0x1000,
        y1 - y0 <= 256,
        z1 - z0 <= 256,
    ensures
        spec_faces_x(w, reg, cfg, chunk, pass, x0, x_upto, y0, y1, z0, z1).len() <= 786432 * (
        x_upto - x0),
        forall|i: int|
            0 <= i < spec_faces_x(w, reg, cfg, chunk, pass, x0, x_upto, y0, y1, z0, z1).len()
                ==> x0 <= (#[trigger] spec_faces_x(w, reg, cfg, chunk, pass, x0, x_upto, y0, y1, z0, z1)[i]).x
                < x_upto && y0 <= spec_faces_x(w, reg, cfg, chunk, pass, x0, x_upto, y0, y1, z0, z1)[i].y
                < y1 && z0 <= spec_faces_x(w, reg, cfg, chunk, pass, x0, x_upto, y0, y1, z0, z1)[i].z
                < z1 && spec_faces_x(w, reg, cfg, chunk, pass, x0, x_upto, y0, y1, z0, z1)[i].dir
                < 6,
    decreases x_upto - x0,
{
    if x_upto > x0 {
        lemma_faces_x_props(w, reg, cfg, chunk, pass, x0, x_upto - 1, y0, y1, z0, z1);
        lemma_faces_y_props(w, reg, cfg, chunk, pass, x_upto - 1, y0, y1, z0, z1);
    }
}

/// Assembles a triangle buffer from a face list, with vertex positions
/// relative to `off`.
pub fn emit_buffers(faces: &Vec<FaceData>, off: HalfVec) -> (b: MeshBuffer)
    requires
        faces@.len() <= 0x1000_0000,
        forall|i: int|
            0 <= i < faces@.len() ==> (#[trigger] faces@[i]).x <= 0x1000 && faces@[i].y <= 0x1000
                && faces@[i].z <= 0x1000 && faces@[i].dir < 6,
        -0x1_0000_0000 <= off.x <= 0x1_0000_0000,
        -0x1_0000_0000 <= off.y <= 0x1_0000_0000,
        -0x1_0000_0000 <= off.z <= 0x1_0000_0000,
    ensures
        buffer_matches(b, faces@, off),
{
    let n = faces.len();
    let mut positions: Vec<HalfVec> = Vec::new();
    let mut normals: Vec<HalfVec> = Vec::new();
    let mut colors: Vec<VoxelColor> = Vec::new();
    let mut indices: Vec<u32> = Vec::new();
    let mut i: usize = 0;
    while i < n
        invariant
            n == faces@.len(),
            n <= 0x1000_0000,
            i <= n,
            forall|l: int|
                0 <= l < faces@.len() ==> (#[trigger] faces@[l]).x <= 0x1000 && faces@[l].y
                    <= 0x1000 && faces@[l].z <= 0x1000 && faces@[l].dir < 6,
            -0x1_0000_0000 <= off.x <= 0x1_0000_0000,
            -0x1_0000_0000 <= off.y <= 0x1_0000_0000,
            -0x1_0000_0000 <= off.z <= 0x1_0000_0000,
            positions@.len() == 4 * i,
            normals@.len() == 4 * i,
            colors@.len() == 4 * i,
            indices@.len() == 6 * i,
            forall|l: int, k: int|
                0 <= l < i && 0 <= k < 4 ==> #[trigger] positions@[4 * l + k] == spec_vertex(
                    faces@[l],
                    k,
                    off,
                ) && normals@[4 * l + k] == faces@[l].normal && colors@[4 * l + k]
                    == faces@[l].color,
            forall|l: int, j: int|
                0 <= l < i && 0 <= j < 6 ==> #[trigger] indices@[6 * l + j] == spec_index(
                    faces@[l],
                    l,
                    j,
                ),
        decreases n - i,
    {
        let f = faces[i];
        let ghost p0 = positions@;
        let ghost n0 = normals@;
        let ghost c0 = colors@;
        let (cdx0, cdy0, cdz0) = corner_delta(f.dir, 0);
        let (cdx1, cdy1, cdz1) = corner_delta(f.dir, 1);
        let (cdx2, cdy2, cdz2) = corner_delta(f.dir, 2);
        let (cdx3, cdy3, cdz3) = corner_delta(f.dir, 3);
        positions.push(
            HalfVec {
                x: 2 * (f.x as i64 + cdx0) - off.x,
                y: 2 * (f.y as i64 + cdy0) - off.y,
                z: 2 * (f.z as i64 + cdz0) - off.z,
            },
        );
        positions.push(
            HalfVec {
                x: 2 * (f.x as i64 + cdx1) - off.x,
                y: 2 * (f.y as i64 + cdy1) - off.y,
                z: 2 * (f.z as i64 + cdz1) - off.z,
            },
        );
        positions.push(
            HalfVec {
                x: 2 * (f.x as i64 + cdx2) - off.x,
                y: 2 * (f.y as i64 + cdy2) - off.y,
                z: 2 * (f.z as i64 + cdz2) - off.z,
            },
        );
        positions.push(
            HalfVec {
                x: 2 * (f.x as i64 + cdx3) - off.x,
                y: 2 * (f.y as i64 + cdy3) - off.y,
                z: 2 * (f.z as i64 + cdz3) - off.z,
            },
        );
        normals.push(f.normal);
        normals.push(f.normal);
        normals.push(f.normal);
        normals.push(f.normal);
        colors.push(f.color);
        colors.push(f.color);
        colors.push(f.color);
        colors.push(f.color);
        proof {
            assert(positions@[4 * (i as int) + 0] == spec_vertex(faces@[i as int], 0, off));
            assert(positions@[4 * (i as int) + 1] == spec_vertex(faces@[i as int], 1, off));
            assert(positions@[4 * (i as int) + 2] == spec_vertex(faces@[i as int], 2, off));
            assert(positions@[4 * (i as int) + 3] == spec_vertex(faces@[i as int], 3, off));
            assert forall|l: int, k: int|
                0 <= l < i + 1 && 0 <= k < 4 implies #[trigger] positions@[4 * l + k]
                == spec_vertex(faces@[l], k, off) && normals@[4 * l + k] == faces@[l].normal
                && colors@[4 * l + k] == faces@[l].color by {
                if l < i {
                    assert(positions@[4 * l + k] == p0[4 * l + k]);
                    assert(normals@[4 * l + k] == n0[4 * l + k]);
                    assert(colors@[4 * l + k] == c0[4 * l + k]);
                } else {
                    assert(0 <= 4 * l + k - 4 * (i as int) < 4);
                }
            }
        }
        let ghost idx0 = indices@;
        let base: u32 = (4 * i) as u32;
        if f.back {
            indices.push(base);
            indices.push(base + 2);
            indices.push(base + 1);
            indices.push(base);
            indices.push(base + 3);
            indices.push(base + 2);
        } else {
            indices.push(base);
            indices.push(base + 1);
            indices.push(base + 2);
            indices.push(base);
            indices.push(base + 2);
            indices.push(base + 3);
        }
        proof {
            assert forall|l: int, j: int|
                0 <= l < i && 0 <= j < 6 implies #[trigger] indices@[6 * l + j] == spec_index(
                faces@[l],
                l,
                j,
            ) by {
                assert(indices@[6 * l + j] == idx0[6 * l + j]);
            }
            assert forall|j: int| 0 <= j < 6 implies #[trigger] indices@[6 * (i as int) + j]
                == spec_index(faces@[i as int], i as int, j) by {
                assert(indices@[6 * (i as int) + 0] == base);
                assert(indices@[6 * (i as int) + 1] == base + (if f.back {
                    2u32
                } else {
                    1u32
                }));
                assert(indices@[6 * (i as int) + 2] == base + (if f.back {
                    1u32
                } else {
                    2u32
                }));
                assert(indices@[6 * (i as int) + 3] == base);
                assert(indices@[6 * (i as int) + 4] == base + (if f.back {
                    3u32
                } else {
                    2u32
                }));
                assert(indices@[6 * (i as int) + 5] == base + (if f.back {
                    2u32
                } else {
                    3u32
                }));
            }
        }
        i = i + 1;
    }
    MeshBuffer { positions, normals, colors, indices }
}

/// Generates the opaque triangle buffer of one chunk, or `None` when no
/// solid material emits a face.
pub fn generate_chunk_mesh(
    chunk: &ChunkData,
    world: &VoxelWorld,
    reg: &MaterialRegistry,
    cfg: &RenderingConfig,
) -> (r: Option<MeshBuffer>)
    requires
        world.wf(),
        reg.wf(),
        cfg.wf(),
        chunk.wf(),
        chunk.size == world.chunk_size,
        chunk.coord.can_offset(80),
    ensures
        ({
            let fs = spec_chunk_faces(*world, *reg, *cfg, *chunk, false);
            &&& r is None <==> fs.len() == 0
            &&& r is Some ==> buffer_matches(r.unwrap(), fs, HalfVec { x: 0, y: 0, z: 0 })
        }),
{
    let size = chunk.size;
    let faces = build_face_list(world, reg, cfg, chunk, false, 0, size, 0, size, 0, size);
    proof {
        lemma_faces_x_props(
            *world,
            *reg,
            *cfg,
            *chunk,
            false,
            0,
            size as int,
            0,
            size as int,
            0,
            size as int,
        );
    }
    if faces.len() == 0 {
        None
    } else {
        Some(emit_buffers(&faces, HalfVec { x: 0, y: 0, z: 0 }))
    }
}

/// Generates the transparent triangle buffer of one whole chunk, or `None`
/// when no genuinely transparent material emits a face.
pub fn generate_transparent_chunk_mesh(
    chunk: &ChunkData,
    world: &VoxelWorld,
    reg: &MaterialRegistry,
    cfg: &RenderingConfig,
) -> (r: Option<MeshBuffer>)
    requires
        world.wf(),
        reg.wf(),
        cfg.wf(),
        chunk.wf(),
        chunk.size == world.chunk_size,
        chunk.coord.can_offset(80),
    ensures
        ({
            let fs = spec_chunk_faces(*world, *reg, *cfg, *chunk, true);
            &&& r is None <==> fs.len() == 0
            &&& r is Some ==> buffer_matches(r.unwrap(), fs, HalfVec { x: 0, y: 0, z: 0 })
        }),
{
    let size = chunk.size;
    let faces = build_face_list(world, reg, cfg, chunk, true, 0, size, 0, size, 0, size);
    proof {
        lemma_faces_x_props(
            *world,
            *reg,
            *cfg,
            *chunk,
            true,
            0,
            size as int,
            0,
            size as int,
            0,
            size as int,
        );
    }
    if faces.len() == 0 {
        None
    } else {
        Some(emit_buffers(&faces, HalfVec { x: 0, y: 0, z: 0 }))
    }
}


/// Lower cell bound of transparency sub-region index `s`.
pub open spec fn sub_lo(tcs: int, s: int) -> int {
    s * tcs
}

/// Upper cell bound of transparency sub-region index `s`, clipped to the
/// chunk.
pub open spec fn sub_hi(tcs: int, size: int, s: int) -> int {
    vstd::math::min((s + 1) * tcs, size)
}

/// The transparent faces one sub-region emits.
pub open spec fn spec_sub_faces(
    w: VoxelWorld,
    reg: MaterialRegistry,
    cfg: RenderingConfig,
    chunk: ChunkData,
    sx: int,
    sy: int,
    sz: int,
) -> Seq<FaceData> {
    let tcs = cfg.transparency_chunk_size as int;
    let size = chunk.size as int;
    spec_region_faces(
        w,
        reg,
        cfg,
        chunk,
        true,
        sub_lo(tcs, sx),
        sub_hi(tcs, size, sx),
        sub_lo(tcs, sy),
        sub_hi(tcs, size, sy),
        sub_lo(tcs, sz),
        sub_hi(tcs, size, sz),
    )
}

/// A sub-region's centroid in half units, chunk-relative: the midpoint of
/// its bounds.
pub open spec fn spec_sub_center(cfg: RenderingConfig, size: int, sx: int, sy: int, sz: int) -> HalfVec {
    let tcs = cfg.transparency_chunk_size as int;
    HalfVec {
        x: (sub_lo(tcs, sx) + sub_hi(tcs, size, sx)) as i64,
        y: (sub_lo(tcs, sy) + sub_hi(tcs, size, sy)) as i64,
        z: (sub_lo(tcs, sz) + sub_hi(tcs, size, sz)) as i64,
    }
}

/// The sub-region indices `(sx, sy, sz')` with `sz' < sz_upto` whose
/// transparent faces are nonempty, in ascending order.
pub open spec fn subs_z(
    w: VoxelWorld,
    reg: MaterialRegistry,
    cfg: RenderingConfig,
    chunk: ChunkData,
    sx: int,
    sy: int,
    sz_upto: int,
) -> Seq<(int, int, int)>
    decreases sz_upto,
{
    if sz_upto <= 0 {
        Seq::empty()
    } else {
        subs_z(w, reg, cfg, chunk, sx, sy, sz_upto - 1) + (
        if spec_sub_faces(w, reg, cfg, chunk, sx, sy, sz_upto - 1).len() == 0 {
            Seq::empty()
        } else {
            seq![(sx, sy, sz_upto - 1)]
        })
    }
}

pub open spec fn subs_y(
    w: VoxelWorld,
    reg: MaterialRegistry,
    cfg: RenderingConfig,
    chunk: ChunkData,
    nsub: int,
    sx: int,
    sy_upto: int,
) -> Seq<(int, int, int)>
    decreases sy_upto,
{
    if sy_upto <= 0 {
        Seq::empty()
    } else {
        subs_y(w, reg, cfg, chunk, nsub, sx, sy_upto - 1) + subs_z(
            w,
            reg,
            cfg,
            chunk,
            sx,
            sy_upto - 1,
            nsub,
        )
    }
}

pub open spec fn subs_x(
    w: VoxelWorld,
    reg: MaterialRegistry,
    cfg: RenderingConfig,
    chunk: ChunkData,
    nsub: int,
    sx_upto: int,
) -> Seq<(int, int, int)>
    decreases sx_upto,
{
    if sx_upto <= 0 {
        Seq::empty()
    } else {
        subs_x(w, reg, cfg, chunk, nsub, sx_upto - 1) + subs_y(
            w,
            reg,
            cfg,
            chunk,
            nsub,
            sx_upto - 1,
            nsub,
        )
    }
}

/// The number of sub-regions per axis.
pub open spec fn spec_nsub(cfg: RenderingConfig, size: int) -> int {
    (size + cfg.transparency_chunk_size - 1) / (cfg.transparency_chunk_size as int)
}

/// All nonempty transparent sub-regions of a chunk, in ascending x, y, z
/// order of their indices.
pub open spec fn spec_nonempty_subs(
    w: VoxelWorld,
    reg: MaterialRegistry,
    cfg: RenderingConfig,
    chunk: ChunkData,
) -> Seq<(int, int, int)> {
    let nsub = spec_nsub(cfg, chunk.size as int);
    subs_x(w, reg, cfg, chunk, nsub, nsub)
}

/// The produced buffer list lines up with the nonempty sub-region list:
/// entry `k` carries sub-region `subs[k]`'s centroid and lays out exactly
/// its faces relative to that centroid.
pub open spec fn layers_match(
    r: Seq<(HalfVec, MeshBuffer)>,
    subs: Seq<(int, int, int)>,
    w: VoxelWorld,
    reg: MaterialRegistry,
    cfg: RenderingConfig,
    chunk: ChunkData,
) -> bool {
    &&& r.len() == subs.len()
    &&& forall|k: int|
        0 <= k < subs.len() ==> (#[trigger] r[k]).0 == spec_sub_center(
            cfg,
            chunk.size as int,
            subs[k].0,
            subs[k].1,
            subs[k].2,
        ) && buffer_matches(
            r[k].1,
            spec_sub_faces(w, reg, cfg, chunk, subs[k].0, subs[k].1, subs[k].2),
            spec_sub_center(cfg, chunk.size as int, subs[k].0, subs[k].1, subs[k].2),
        )
}

/// Partitions a chunk's transparent geometry into cubic sub-regions of
/// side `transparency_chunk_size`, one independent buffer per nonempty
/// sub-region, each positioned at its own centroid so transparent draws
/// can be depth-sorted at sub-chunk granularity.
pub fn generate_transparent_chunk_meshes_by_layer(
    chunk: &ChunkData,
    world: &VoxelWorld,
    reg: &MaterialRegistry,
    cfg: &RenderingConfig,
) -> (r: Vec<(HalfVec, MeshBuffer)>)
    requires
        world.wf(),
        reg.wf(),
        cfg.wf(),
        chunk.wf(),
        chunk.size == world.chunk_size,
        chunk.coord.can_offset(80),
    ensures
        layers_match(r@, spec_nonempty_subs(*world, *reg, *cfg, *chunk), *world, *reg, *cfg, *chunk),
{
    let size = chunk.size;
    let tcs = cfg.transparency_chunk_size;
    proof {
        lemma_nsub_bound(tcs as int, size as int);
    }
    let nsub = (size + tcs - 1) / tcs;
    proof {
        assert(nsub == spec_nsub(*cfg, chunk.size as int));
    }
    let mut out: Vec<(HalfVec, MeshBuffer)> = Vec::new();
    let mut sx: usize = 0;
    while sx < nsub
        invariant
            world.wf(),
            reg.wf(),
            cfg.wf(),
            chunk.wf(),
            chunk.size == world.chunk_size,
            chunk.coord.can_offset(80),
            size == chunk.size,
            tcs == cfg.transparency_chunk_size,
            nsub == spec_nsub(*cfg, chunk.size as int),
            nsub <= size,
            sx <= nsub,
            layers_match(
                out@,
                subs_x(*world, *reg, *cfg, *chunk, nsub as int, sx as int),
                *world,
                *reg,
                *cfg,
                *chunk,
            ),
        decreases nsub - sx,
    {
        let mut sy: usize = 0;
        while sy < nsub
            invariant
                world.wf(),
                reg.wf(),
                cfg.wf(),
                chunk.wf(),
                chunk.size == world.chunk_size,
                chunk.coord.can_offset(80),
                size == chunk.size,
                tcs == cfg.transparency_chunk_size,
                nsub == spec_nsub(*cfg, chunk.size as int),
                nsub <= size,
                sx < nsub,
                sy <= nsub,
                layers_match(
                    out@,
                    subs_x(*world, *reg, *cfg, *chunk, nsub as int, sx as int) + subs_y(
                        *world,
                        *reg,
                        *cfg,
                        *chunk,
                        nsub as int,
                        sx as int,
                        sy as int,
                    ),
                    *world,
                    *reg,
                    *cfg,
                    *chunk,
                ),
            decreases nsub - sy,
        {
            let mut sz: usize = 0;
            while sz < nsub
                invariant
                    world.wf(),
                    reg.wf(),
                    cfg.wf(),
                    chunk.wf(),
                    chunk.size == world.chunk_size,
                    chunk.coord.can_offset(80),
                    size == chunk.size,
                    tcs == cfg.transparency_chunk_size,
                    nsub == spec_nsub(*cfg, chunk.size as int),
                    nsub <= size,
                    sx < nsub,
                    sy < nsub,
                    sz <= nsub,
                    layers_match(
                        out@,
                        subs_x(*world, *reg, *cfg, *chunk, nsub as int, sx as int) + subs_y(
                            *world,
                            *reg,
                            *cfg,
                            *chunk,
                            nsub as int,
                            sx as int,
                            sy as int,
                        ) + subs_z(*world, *reg, *cfg, *chunk, sx as int, sy as int, sz as int),
                        *world,
                        *reg,
                        *cfg,
                        *chunk,
                    ),
                decreases nsub - sz,
            {
                proof {
                    lemma_sub_bounds(tcs as int, size as int, sx as int);
                    lemma_sub_bounds(tcs as int, size as int, sy as int);
                    lemma_sub_bounds(tcs as int, size as int, sz as int);
                }
                let x0 = sx * tcs;
                let x1 = if (sx + 1) * tcs < size {
                    (sx + 1) * tcs
                } else {
                    size
                };
                let y0 = sy * tcs;
                let y1 = if (sy + 1) * tcs < size {
                    (sy + 1) * tcs
                } else {
                    size
                };
                let z0 = sz * tcs;
                let z1 = if (sz + 1) * tcs < size {
                    (sz + 1) * tcs
                } else {
                    size
                };
                let faces = build_face_list(world, reg, cfg, chunk, true, x0, x1, y0, y1, z0, z1);
                proof {
                    lemma_faces_x_props(
                        *world,
                        *reg,
                        *cfg,
                        *chunk,
                        true,
                        x0 as int,
                        x1 as int,
                        y0 as int,
                        y1 as int,
                        z0 as int,
                        z1 as int,
                    );
                }
                let ghost out0 = out@;
                if faces.len() > 0 {
                    let center = HalfVec {
                        x: (x0 + x1) as i64,
                        y: (y0 + y1) as i64,
                        z: (z0 + z1) as i64,
                    };
                    let buffer = emit_buffers(&faces, center);
                    out.push((center, buffer));
                    proof {
                        assert(out@[out0.len() as int].0 == spec_sub_center(
                            *cfg,
                            chunk.size as int,
                            sx as int,
                            sy as int,
                            sz as int,
                        ));
                    }
                }
                proof {
                    let ghost subs0 = subs_x(*world, *reg, *cfg, *chunk, nsub as int, sx as int)
                        + subs_y(*world, *reg, *cfg, *chunk, nsub as int, sx as int, sy as int)
                        + subs_z(*world, *reg, *cfg, *chunk, sx as int, sy as int, sz as int);
                    let ghost subs1 = subs_x(*world, *reg, *cfg, *chunk, nsub as int, sx as int)
                        + subs_y(*world, *reg, *cfg, *chunk, nsub as int, sx as int, sy as int)
                        + subs_z(
                        *world,
                        *reg,
                        *cfg,
                        *chunk,
                        sx as int,
                        sy as int,
                        sz as int + 1,
                    );
                    assert forall|k: int| 0 <= k < subs1.len() implies (#[trigger] out@[k]).0
                        == spec_sub_center(
                        *cfg,
                        chunk.size as int,
                        subs1[k].0,
                        subs1[k].1,
                        subs1[k].2,
                    ) && buffer_matches(
                        out@[k].1,
                        spec_sub_faces(*world, *reg, *cfg, *chunk, subs1[k].0, subs1[k].1, subs1[k].2),
                        spec_sub_center(*cfg, chunk.size as int, subs1[k].0, subs1[k].1, subs1[k].2),
                    ) by {
                        if k < subs0.len() {
                            assert(out@[k] == out0[k]);
                            assert(subs1[k] == subs0[k]);
                        } else {
                            assert(subs1[k] == (sx as int, sy as int, sz as int));
                        }
                    }
                    assert(out@.len() == subs1.len());
                }
                sz = sz + 1;
            }
            sy = sy + 1;
        }
        sx = sx + 1;
    }
    out
}

/// Bounds of a sub-region stay inside the chunk and in range for index
/// arithmetic.
pub proof fn lemma_sub_bounds(tcs: int, size: int, s: int)
    requires
        1 <= tcs <= 256,
        1 <= size <= 256,
        0 <= s < (size + tcs - 1) / tcs,
    ensures
        0 <= s * tcs <= size - 1,
        (s + 1) * tcs == s * tcs + tcs,
        sub_lo(tcs, s) == s * tcs,
        sub_lo(tcs, s) <= sub_hi(tcs, size, s) <= size,
        sub_hi(tcs, size, s) <= s * tcs + tcs,
{
    let nsub = (size + tcs - 1) / tcs;
    vstd::arithmetic::div_mod::lemma_fundamental_div_mod(size + tcs - 1, tcs);
    vstd::arithmetic::div_mod::lemma_mod_division_less_than_divisor(size + tcs - 1, tcs);
    let r = (size + tcs - 1) % tcs;
    assert(size + tcs - 1 == tcs * nsub + r);
    assert(0 <= s * tcs && s * tcs <= size - 1 && (s + 1) * tcs == s * tcs + tcs) by (
        nonlinear_arith)
        requires
            1 <= tcs,
            0 <= s <= nsub - 1,
            size + tcs - 1 == tcs * nsub + r,
            0 <= r < tcs,
    ;
}

/// The sub-region count per axis never exceeds the chunk size.
pub proof fn lemma_nsub_bound(tcs: int, size: int)
    requires
        1 <= tcs <= 256,
        1 <= size <= 256,
    ensures
        1 <= (size + tcs - 1) / tcs <= size,
{
    let nsub = (size + tcs - 1) / tcs;
    vstd::arithmetic::div_mod::lemma_fundamental_div_mod(size + tcs - 1, tcs);
    vstd::arithmetic::div_mod::lemma_mod_division_less_than_divisor(size + tcs - 1, tcs);
    let r = (size + tcs - 1) % tcs;
    assert(1 <= nsub <= size) by (nonlinear_arith)
        requires
            1 <= tcs,
            1 <= size,
            size + tcs - 1 == tcs * nsub + r,
            0 <= r < tcs,
    ;
}


/// The first `p` returned coordinates came from the priority queue and
/// the rest from the regular queue: edits are meshed before newly
/// streamed-in terrain.
pub open spec fn priority_split(
    ready: Seq<ChunkCoord>,
    pri: Seq<ChunkCoord>,
    mesh: Seq<ChunkCoord>,
    p: int,
) -> bool {
    &&& 0 <= p <= ready.len()
    &&& forall|i: int| 0 <= i < p ==> crate::world::queue_has(pri, #[trigger] ready[i])
    &&& forall|i: int| p <= i < ready.len() ==> crate::world::queue_has(mesh, #[trigger] ready[i])
}

/// A chunk is ready to mesh when every chunk its normal sampling could
/// read is loaded: all 26 neighbors present.
pub open spec fn ready_for_mesh(w: VoxelWorld, coord: ChunkCoord) -> bool {
    &&& coord.can_offset(1)
    &&& forall|c: ChunkCoord| cheb_dist(coord, c) == 1 ==> w.has_chunk(c)
}

/// True when a coordinate has one chunk of slack on every axis.
pub fn coord_interior(c: ChunkCoord) -> (r: bool)
    ensures
        r == c.can_offset(1),
{
    c.x > i32::MIN && c.x < i32::MAX && c.y > i32::MIN && c.y < i32::MAX && c.z > i32::MIN
        && c.z < i32::MAX
}

/// Whether all 26 neighbors of `coord` are loaded.
pub fn neighbors_ready(world: &VoxelWorld, coord: ChunkCoord) -> (r: bool)
    requires
        world.wf(),
        coord.can_offset(1),
    ensures
        r == forall|c: ChunkCoord| cheb_dist(coord, c) == 1 ==> world.has_chunk(c),
{
    let nbrs = coord.all_neighbors();
    let n = nbrs.len();
    let mut i: usize = 0;
    while i < n
        invariant
            world.wf(),
            coord.can_offset(1),
            n == nbrs@.len(),
            n == 26,
            i <= n,
            forall|j: int| 0 <= j < n ==> cheb_dist(coord, #[trigger] nbrs@[j]) == 1,
            forall|c: ChunkCoord| cheb_dist(coord, c) == 1 ==> nbrs@.contains(c),
            forall|j: int| 0 <= j < i ==> world.has_chunk(#[trigger] nbrs@[j]),
        decreases n - i,
    {
        if world.get_chunk(nbrs[i]).is_none() {
            proof {
                assert(cheb_dist(coord, nbrs@[i as int]) == 1 && !world.has_chunk(
                    nbrs@[i as int],
                ));
            }
            return false;
        }
        i = i + 1;
    }
    proof {
        assert forall|c: ChunkCoord| cheb_dist(coord, c) == 1 implies world.has_chunk(c) by {
            assert(nbrs@.contains(c));
            let j = choose|j: int| 0 <= j < nbrs@.len() && nbrs@[j] == c;
            assert(world.has_chunk(nbrs@[j]));
        }
    }
    true
}

impl VoxelWorld {
    /// Drains both mesh queues for one frame, the priority queue fully
    /// preferred over the regular queue: up to `max_meshes_per_frame`
    /// ready coordinates are returned for meshing; coordinates whose
    /// neighbor set is incomplete, and any past the budget, are re-queued
    /// on the regular mesh queue for a later frame.
    pub fn take_meshing_jobs(&mut self, config: &crate::stream::GameConfig) -> (ready: Vec<
        ChunkCoord,
    >)
        requires
            old(self).wf(),
        ensures
            final(self).wf(),
            final(self).chunks == old(self).chunks,
            final(self).loading_queue == old(self).loading_queue,
            final(self).player_chunk == old(self).player_chunk,
            final(self).chunk_size == old(self).chunk_size,
            final(self).priority_meshing_queue@.len() == 0,
            ready@.len() <= config.max_meshes_per_frame,
            forall|i: int|
                0 <= i < ready@.len() ==> ready_for_mesh(*old(self), #[trigger] ready@[i]) && (
                crate::world::queue_has(old(self).priority_meshing_queue@, ready@[i])
                    || crate::world::queue_has(old(self).meshing_queue@, ready@[i])),
            forall|c: ChunkCoord|
                #[trigger] crate::world::queue_has(final(self).meshing_queue@, c)
                    ==> crate::world::queue_has(old(self).priority_meshing_queue@, c)
                    || crate::world::queue_has(old(self).meshing_queue@, c),
            forall|c: ChunkCoord|
                crate::world::queue_has(old(self).priority_meshing_queue@, c)
                    || crate::world::queue_has(old(self).meshing_queue@, c)
                    ==> #[trigger] crate::world::queue_has(final(self).meshing_queue@, c)
                    || ready@.contains(c),
            exists|p: int|
                #[trigger] priority_split(
                    ready@,
                    old(self).priority_meshing_queue@,
                    old(self).meshing_queue@,
                    p,
                ),
            ready@.len() < config.max_meshes_per_frame ==> forall|c: ChunkCoord|
                #[trigger] crate::world::queue_has(final(self).meshing_queue@, c)
                    ==> !ready_for_mesh(*old(self), c),
    {
        let ghost pre = *self;
        let budget = config.max_meshes_per_frame;
        let mut ready: Vec<ChunkCoord> = Vec::new();
        let mut deferred: Vec<ChunkCoord> = Vec::new();
        let n1 = self.priority_meshing_queue.len();
        let mut i: usize = 0;
        while i < n1
            invariant
                pre == *old(self),
                pre.wf(),
                *self == pre,
                n1 == self.priority_meshing_queue@.len(),
                i <= n1,
                ready@.len() <= budget,
                budget == config.max_meshes_per_frame,
                forall|k: int|
                    0 <= k < ready@.len() ==> ready_for_mesh(pre, #[trigger] ready@[k])
                        && crate::world::queue_has(pre.priority_meshing_queue@, ready@[k]),
                forall|k: int|
                    0 <= k < deferred@.len() ==> crate::world::queue_has(
                        pre.priority_meshing_queue@,
                        #[trigger] deferred@[k],
                    ),
                forall|k: int|
                    ready@.len() < budget && 0 <= k < deferred@.len() ==> !ready_for_mesh(
                        pre,
                        #[trigger] deferred@[k],
                    ),
                forall|j: int|
                    0 <= j < i ==> ready@.contains(#[trigger] pre.priority_meshing_queue@[j])
                        || deferred@.contains(pre.priority_meshing_queue@[j]),
            decreases n1 - i,
        {
            let c = self.priority_meshing_queue[i];
            let ghost r0 = ready@;
            let ghost d0 = deferred@;
            let under_budget = ready.len() < budget;
            if under_budget && coord_interior(c) && neighbors_ready(self, c) {
                ready.push(c);
            } else {
                deferred.push(c);
                proof {
                    if under_budget {
                        assert(!ready_for_mesh(pre, c));
                    }
                    assert(deferred@[d0.len() as int] == c);
                    assert forall|k: int|
                        ready@.len() < budget && 0 <= k < deferred@.len() implies
                        !ready_for_mesh(pre, #[trigger] deferred@[k]) by {
                        if k < d0.len() {
                            assert(deferred@[k] == d0[k]);
                        }
                    }
                }
            }
            proof {
                assert(crate::world::queue_has(
                    pre.priority_meshing_queue@,
                    pre.priority_meshing_queue@[i as int],
                ));
                assert forall|j: int|
                    0 <= j < i + 1 implies ready@.contains(
                    #[trigger] pre.priority_meshing_queue@[j],
                ) || deferred@.contains(pre.priority_meshing_queue@[j]) by {
                    if j < i {
                        if r0.contains(pre.priority_meshing_queue@[j]) {
                            let k = choose|k: int|
                                0 <= k < r0.len() && r0[k] == pre.priority_meshing_queue@[j];
                            assert(ready@[k] == pre.priority_meshing_queue@[j]);
                        } else {
                            let k = choose|k: int|
                                0 <= k < d0.len() && d0[k] == pre.priority_meshing_queue@[j];
                            assert(deferred@[k] == pre.priority_meshing_queue@[j]);
                        }
                    } else {
                        assert(ready@[ready@.len() - 1] == c || deferred@[deferred@.len() - 1]
                            == c);
                    }
                }
            }
            i = i + 1;
        }
        let ghost p_split = ready@.len();
        let ghost ready_p = ready@;
        let n2 = self.meshing_queue.len();
        let mut j: usize = 0;
        while j < n2
            invariant
                pre == *old(self),
                pre.wf(),
                *self == pre,
                n2 == self.meshing_queue@.len(),
                j <= n2,
                ready@.len() <= budget,
                budget == config.max_meshes_per_frame,
                p_split <= ready@.len(),
                ready_p == ready@.subrange(0, p_split as int),
                forall|k: int|
                    0 <= k < p_split ==> crate::world::queue_has(
                        pre.priority_meshing_queue@,
                        #[trigger] ready@[k],
                    ),
                forall|k: int|
                    p_split <= k < ready@.len() ==> crate::world::queue_has(
                        pre.meshing_queue@,
                        #[trigger] ready@[k],
                    ),
                forall|k: int|
                    0 <= k < ready@.len() ==> ready_for_mesh(pre, #[trigger] ready@[k]) && (
                    crate::world::queue_has(pre.priority_meshing_queue@, ready@[k])
                        || crate::world::queue_has(pre.meshing_queue@, ready@[k])),
                forall|k: int|
                    0 <= k < deferred@.len() ==> crate::world::queue_has(
                        pre.priority_meshing_queue@,
                        #[trigger] deferred@[k],
                    ) || crate::world::queue_has(pre.meshing_queue@, deferred@[k]),
                forall|k: int|
                    ready@.len() < budget && 0 <= k < deferred@.len() ==> !ready_for_mesh(
                        pre,
                        #[trigger] deferred@[k],
                    ),
                forall|l: int|
                    0 <= l < pre.priority_meshing_queue@.len() ==> ready@.contains(
                        #[trigger] pre.priority_meshing_queue@[l],
                    ) || deferred@.contains(pre.priority_meshing_queue@[l]),
                forall|l: int|
                    0 <= l < j ==> ready@.contains(#[trigger] pre.meshing_queue@[l])
                        || deferred@.contains(pre.meshing_queue@[l]),
            decreases n2 - j,
        {
            let c = self.meshing_queue[j];
            let ghost r0 = ready@;
            let ghost d0 = deferred@;
            let under_budget = ready.len() < budget;
            if under_budget && coord_interior(c) && neighbors_ready(self, c) {
                ready.push(c);
            } else {
                deferred.push(c);
                proof {
                    if under_budget {
                        assert(!ready_for_mesh(pre, c));
                    }
                    assert(deferred@[d0.len() as int] == c);
                    assert forall|k: int|
                        ready@.len() < budget && 0 <= k < deferred@.len() implies
                        !ready_for_mesh(pre, #[trigger] deferred@[k]) by {
                        if k < d0.len() {
                            assert(deferred@[k] == d0[k]);
                        }
                    }
                }
            }
            proof {
                assert(crate::world::queue_has(pre.meshing_queue@, pre.meshing_queue@[j as int]));
                assert(ready@.subrange(0, p_split as int) =~= ready_p);
                assert forall|l: int|
                    0 <= l < pre.priority_meshing_queue@.len() implies ready@.contains(
                    #[trigger] pre.priority_meshing_queue@[l],
                ) || deferred@.contains(pre.priority_meshing_queue@[l]) by {
                    if r0.contains(pre.priority_meshing_queue@[l]) {
                        let k = choose|k: int|
                            0 <= k < r0.len() && r0[k] == pre.priority_meshing_queue@[l];
                        assert(ready@[k] == pre.priority_meshing_queue@[l]);
                    } else {
                        let k = choose|k: int|
                            0 <= k < d0.len() && d0[k] == pre.priority_meshing_queue@[l];
                        assert(deferred@[k] == pre.priority_meshing_queue@[l]);
                    }
                }
                assert forall|l: int|
                    0 <= l < j + 1 implies ready@.contains(#[trigger] pre.meshing_queue@[l])
                    || deferred@.contains(pre.meshing_queue@[l]) by {
                    if l < j {
                        if r0.contains(pre.meshing_queue@[l]) {
                            let k = choose|k: int|
                                0 <= k < r0.len() && r0[k] == pre.meshing_queue@[l];
                            assert(ready@[k] == pre.meshing_queue@[l]);
                        } else {
                            let k = choose|k: int|
                                0 <= k < d0.len() && d0[k] == pre.meshing_queue@[l];
                            assert(deferred@[k] == pre.meshing_queue@[l]);
                        }
                    } else {
                        assert(ready@[ready@.len() - 1] == c || deferred@[deferred@.len() - 1]
                            == c);
                    }
                }
            }
            j = j + 1;
        }
        self.priority_meshing_queue.clear();
        self.meshing_queue = deferred;
        proof {
            if ready@.len() < budget {
                assert forall|c: ChunkCoord|
                    #[trigger] crate::world::queue_has(self.meshing_queue@, c) implies
                    !ready_for_mesh(pre, c) by {
                    let k = choose|k: int|
                        0 <= k < self.meshing_queue@.len() && self.meshing_queue@[k] == c;
                    assert(!ready_for_mesh(pre, self.meshing_queue@[k]));
                }
            }
            assert forall|c: ChunkCoord|
                crate::world::queue_has(pre.priority_meshing_queue@, c)
                    || crate::world::queue_has(pre.meshing_queue@, c) implies
                #[trigger] crate::world::queue_has(self.meshing_queue@, c) || ready@.contains(
                c,
            ) by {
                if crate::world::queue_has(pre.priority_meshing_queue@, c) {
                    let l = choose|l: int|
                        0 <= l < pre.priority_meshing_queue@.len()
                            && pre.priority_meshing_queue@[l] == c;
                    assert(ready@.contains(pre.priority_meshing_queue@[l])
                        || self.meshing_queue@.contains(pre.priority_meshing_queue@[l]));
                } else {
                    let l = choose|l: int|
                        0 <= l < pre.meshing_queue@.len() && pre.meshing_queue@[l] == c;
                    assert(ready@.contains(pre.meshing_queue@[l])
                        || self.meshing_queue@.contains(pre.meshing_queue@[l]));
                }
            }
            assert(priority_split(
                ready@,
                pre.priority_meshing_queue@,
                pre.meshing_queue@,
                p_split as int,
            ));
        }
        ready
    }
}

} // verus!
