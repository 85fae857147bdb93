use bevoxel::coords::ChunkCoord;
use bevoxel::edit::apply_ball_brush_with_material;
use bevoxel::mesh::{
    build_face_list, generate_chunk_mesh, generate_transparent_chunk_mesh,
    generate_transparent_chunk_meshes_by_layer, voxel_seed, RenderingConfig,
};
use bevoxel::normals::{sample_density, HalfVec};
use bevoxel::stream::GameConfig;
use bevoxel::voxel::{Material, MaterialRegistry, Rgba};
use bevoxel::world::VoxelWorld;

fn registry() -> MaterialRegistry {
    let mut reg = MaterialRegistry::new();
    reg.register(Material::new("air", Rgba::new(0, 0, 0, 0), false));
    reg.register(Material::with_variance("stone", Rgba::new(500, 500, 500, 1000), true, 80));
    reg.register(Material::with_buoyancy("water", Rgba::new(200, 400, 800, 700), false, 300, 600));
    reg
}

/// A 3x3x3 grid of all-air chunks of edge 4 around the origin chunk.
fn grid_world() -> VoxelWorld {
    let mut w = VoxelWorld::new(4);
    for dx in -1..=1 {
        for dy in -1..=1 {
            for dz in -1..=1 {
                w.load_chunk(ChunkCoord::new(dx, dy, dz));
            }
        }
    }
    w
}

fn voxel_center(x: i64, y: i64, z: i64) -> HalfVec {
    HalfVec::new(2 * x + 1, 2 * y + 1, 2 * z + 1)
}

#[test]
fn single_solid_voxel_meshes_six_opaque_faces() {
    let reg = registry();
    let mut w = grid_world();
    apply_ball_brush_with_material(&mut w, voxel_center(1, 1, 1), 1, "stone");
    let cfg = RenderingConfig::new(2, 8, 4, true);
    let chunk = w.get_chunk(ChunkCoord::new(0, 0, 0)).unwrap();
    let mesh = generate_chunk_mesh(chunk, &w, &reg, &cfg).unwrap();
    assert_eq!(mesh.positions.len(), 24);
    assert_eq!(mesh.normals.len(), 24);
    assert_eq!(mesh.colors.len(), 24);
    assert_eq!(mesh.indices.len(), 36);
    for &i in mesh.indices.iter() {
        assert!((i as usize) < mesh.positions.len());
    }
    // No transparent geometry anywhere.
    let layers = generate_transparent_chunk_meshes_by_layer(chunk, &w, &reg, &cfg);
    assert!(layers.is_empty());
}

#[test]
fn air_world_meshes_nothing() {
    let reg = registry();
    let w = grid_world();
    let cfg = RenderingConfig::new(2, 8, 4, true);
    let chunk = w.get_chunk(ChunkCoord::new(0, 0, 0)).unwrap();
    assert!(generate_chunk_mesh(chunk, &w, &reg, &cfg).is_none());
}

#[test]
fn transparent_air_boundary_emits_front_and_back_with_up_normal() {
    let reg = registry();
    let mut w = grid_world();
    apply_ball_brush_with_material(&mut w, voxel_center(1, 1, 1), 1, "water");
    let cfg = RenderingConfig::new(2, 8, 4, true);
    let chunk = w.get_chunk(ChunkCoord::new(0, 0, 0)).unwrap();
    let faces = build_face_list(&w, &reg, &cfg, chunk, true, 0, 4, 0, 4, 0, 4);
    // Six visible faces, each doubled with a back-facing copy.
    assert_eq!(faces.len(), 12);
    let up = HalfVec::new(0, 1, 0);
    // The top face: both the front and the forced-up back face.
    let top: Vec<_> = faces.iter().filter(|f| f.dir == 2).collect();
    assert_eq!(top.len(), 2);
    assert!(top.iter().any(|f| !f.back));
    assert!(top.iter().any(|f| f.back));
    for f in &top {
        assert_eq!(f.normal, up);
    }
    // The bottom face is vertical too: the back normal is forced to
    // world-up regardless of the true face orientation.
    let bottom: Vec<_> = faces.iter().filter(|f| f.dir == 3).collect();
    assert_eq!(bottom.len(), 2);
    for f in &bottom {
        assert_eq!(f.normal, up);
    }
    // A horizontal face keeps the axis normal, negated on the back side.
    let px: Vec<_> = faces.iter().filter(|f| f.dir == 0).collect();
    assert_eq!(px.len(), 2);
    for f in &px {
        if f.back {
            assert_eq!(f.normal, HalfVec::new(-1, 0, 0));
        } else {
            assert_eq!(f.normal, HalfVec::new(1, 0, 0));
        }
    }
    // The whole chunk's water sits in one sub-region buffer, and the
    // single-buffer variant agrees.
    let layers = generate_transparent_chunk_meshes_by_layer(chunk, &w, &reg, &cfg);
    assert_eq!(layers.len(), 1);
    assert_eq!(layers[0].1.positions.len(), 12 * 4);
    assert_eq!(layers[0].1.indices.len(), 12 * 6);
    let whole = generate_transparent_chunk_mesh(chunk, &w, &reg, &cfg).unwrap();
    assert_eq!(whole.positions.len(), 12 * 4);
    assert_eq!(whole.colors.len(), 12 * 4);
    // Opaque pass ignores the water voxel.
    assert!(generate_chunk_mesh(chunk, &w, &reg, &cfg).is_none());
}

#[test]
fn smooth_mode_radius_zero_degenerates_to_up() {
    let reg = registry();
    let mut w = grid_world();
    apply_ball_brush_with_material(&mut w, voxel_center(2, 2, 2), 1, "stone");
    let cfg = RenderingConfig::new(0, 8, 4, false);
    let chunk = w.get_chunk(ChunkCoord::new(0, 0, 0)).unwrap();
    let faces = build_face_list(&w, &reg, &cfg, chunk, false, 0, 4, 0, 4, 0, 4);
    assert_eq!(faces.len(), 6);
    for f in &faces {
        assert_eq!(f.normal, HalfVec::new(0, 1, 0));
    }
}

#[test]
fn smooth_mode_radius_one_points_into_open_air() {
    let reg = registry();
    let mut w = grid_world();
    // A lone solid voxel: the air centroid above the top face lies upward.
    apply_ball_brush_with_material(&mut w, voxel_center(2, 2, 2), 1, "stone");
    let cfg = RenderingConfig::new(1, 8, 4, false);
    let chunk = w.get_chunk(ChunkCoord::new(0, 0, 0)).unwrap();
    let faces = build_face_list(&w, &reg, &cfg, chunk, false, 0, 4, 0, 4, 0, 4);
    let top = faces.iter().find(|f| f.dir == 2).unwrap();
    assert!(top.normal.y > 0);
}

#[test]
fn unloaded_positions_sample_as_air() {
    // An empty registry resolves every name, including air, to the solid
    // magenta fallback; an unloaded position must still sample as air.
    let reg = MaterialRegistry::new();
    let w = VoxelWorld::new(4);
    assert!(!sample_density(&w, &reg, 9, 9, 9));
    // A loaded cell, in contrast, goes through the registry: its air
    // palette entry resolves to the solid fallback here.
    let mut w2 = VoxelWorld::new(4);
    w2.load_chunk(ChunkCoord::new(0, 0, 0));
    assert!(sample_density(&w2, &reg, 3, 3, 3));
}

#[test]
fn per_voxel_seed_is_deterministic_and_spreads() {
    assert_eq!(voxel_seed(1, 2, 3), voxel_seed(1, 2, 3));
    assert_ne!(voxel_seed(0, 0, 0), voxel_seed(1, 0, 0));
    assert_ne!(voxel_seed(0, 0, 0), voxel_seed(0, 1, 0));
    assert_ne!(voxel_seed(0, 0, 0), voxel_seed(0, 0, 1));
    assert_ne!(voxel_seed(7, 8, 9), voxel_seed(9, 8, 7));
}

#[test]
fn vertex_colors_carry_material_and_seed() {
    let reg = registry();
    let mut w = grid_world();
    apply_ball_brush_with_material(&mut w, voxel_center(1, 1, 1), 1, "stone");
    let cfg = RenderingConfig::new(2, 8, 4, true);
    let chunk = w.get_chunk(ChunkCoord::new(0, 0, 0)).unwrap();
    let faces = build_face_list(&w, &reg, &cfg, chunk, false, 0, 4, 0, 4, 0, 4);
    let expected_seed = voxel_seed(1, 1, 1);
    for f in &faces {
        assert_eq!(f.color.rgba, Rgba::new(500, 500, 500, 1000));
        assert_eq!(f.color.variance, 80);
        assert_eq!(f.color.seed, expected_seed);
        assert_eq!(f.color.sample, 0);
    }
}

#[test]
fn meshing_jobs_require_all_neighbors_and_prefer_priority() {
    let mut w = grid_world();
    // Only the center chunk of the 3x3x3 grid has all 26 neighbors loaded.
    let center = ChunkCoord::new(0, 0, 0);
    let config = GameConfig::new(2, 4, 2, 16);
    let ready = w.take_meshing_jobs(&config);
    assert_eq!(ready, vec![center]);
    assert!(w.priority_meshing_queue.is_empty());
    // The not-ready chunks were re-queued on the regular queue.
    assert_eq!(w.meshing_queue.len(), 26);
    // An edit re-queues the center with priority: it is handed out first.
    w.mark_chunk_and_neighbors_for_remesh(center);
    let ready2 = w.take_meshing_jobs(&config);
    assert!(!ready2.is_empty());
    assert_eq!(ready2[0], center);
}
