use bevoxel::chunk::ChunkData;
use bevoxel::coords::{ChunkCoord, VoxelPos};
use bevoxel::edit::{
    apply_ball_brush_with_material, apply_brush, apply_brush_with_inventory,
    apply_cube_brush_with_material, calculate_brush_voxel_count, BrushShape, VoxelEditingConfig,
};
use bevoxel::inventory::Inventory;
use bevoxel::voxel::{Material, MaterialRegistry, Rgba};
use bevoxel::normals::HalfVec;
use bevoxel::world::VoxelWorld;

fn voxel_center(x: i64, y: i64, z: i64) -> HalfVec {
    HalfVec::new(2 * x + 1, 2 * y + 1, 2 * z + 1)
}

fn material_at(w: &VoxelWorld, x: i64, y: i64, z: i64) -> String {
    let pos = VoxelPos::new(x, y, z);
    let chunk: &ChunkData = w.get_chunk_at_world_pos(pos).expect("chunk loaded");
    let v = chunk.get_voxel_world_pos(pos).expect("in bounds");
    chunk.get_material_name(v.material_id).expect("palette entry").clone()
}

fn one_chunk_world() -> VoxelWorld {
    let mut w = VoxelWorld::new(8);
    w.load_chunk(ChunkCoord::new(0, 0, 0));
    w
}

#[test]
fn ball_radius_half_voxel_affects_exactly_its_voxel() {
    let mut w = one_chunk_world();
    // Radius one half-unit, centered on the center of voxel (3, 3, 3).
    apply_ball_brush_with_material(&mut w, voxel_center(3, 3, 3), 1, "stone");
    assert_eq!(material_at(&w, 3, 3, 3), "stone");
    for (x, y, z) in [(2, 3, 3), (4, 3, 3), (3, 2, 3), (3, 4, 3), (3, 3, 2), (3, 3, 4)] {
        assert_eq!(material_at(&w, x, y, z), "air", "({}, {}, {})", x, y, z);
    }
}

#[test]
fn ball_brush_boundary_is_inclusive() {
    let mut w = one_chunk_world();
    // Radius 2 halves reaches the six face neighbors exactly (squared
    // distance 4 == radius squared) but no diagonal (squared distance 8).
    apply_ball_brush_with_material(&mut w, voxel_center(3, 3, 3), 2, "stone");
    assert_eq!(material_at(&w, 3, 3, 3), "stone");
    for (x, y, z) in [(2, 3, 3), (4, 3, 3), (3, 2, 3), (3, 4, 3), (3, 3, 2), (3, 3, 4)] {
        assert_eq!(material_at(&w, x, y, z), "stone");
    }
    assert_eq!(material_at(&w, 2, 2, 3), "air");
    assert_eq!(material_at(&w, 4, 4, 4), "air");
}

#[test]
fn cube_brush_takes_centers_inside_the_box() {
    let mut w = one_chunk_world();
    apply_cube_brush_with_material(&mut w, voxel_center(3, 3, 3), 2, "stone");
    // Half-width 2 halves = one voxel in every direction: a 3x3x3 block.
    for x in 2..=4 {
        for y in 2..=4 {
            for z in 2..=4 {
                assert_eq!(material_at(&w, x, y, z), "stone");
            }
        }
    }
    assert_eq!(material_at(&w, 1, 3, 3), "air");
    assert_eq!(material_at(&w, 5, 3, 3), "air");
}

#[test]
fn brush_voxel_counts_match_the_shapes() {
    // The count samples a brush at the origin, which is a voxel corner:
    // the eight surrounding voxel centers sit at squared distance 3 in
    // half units.
    let ball_small = VoxelEditingConfig {
        reach_distance: 16,
        brush_radius: 1,
        brush_shape: BrushShape::Ball,
    };
    assert_eq!(calculate_brush_voxel_count(&ball_small), 0);
    let ball_one = VoxelEditingConfig { brush_radius: 2, ..ball_small };
    assert_eq!(calculate_brush_voxel_count(&ball_one), 8);
    let ball_two = VoxelEditingConfig { brush_radius: 4, ..ball_small };
    // Radius 4 halves adds the 24 cells at squared distance 9 + 1 + 1 = 11.
    assert_eq!(calculate_brush_voxel_count(&ball_two), 32);
    let cube_one = VoxelEditingConfig {
        brush_shape: BrushShape::Cube,
        brush_radius: 2,
        ..ball_small
    };
    assert_eq!(calculate_brush_voxel_count(&cube_one), 8);
    let cube_two = VoxelEditingConfig {
        brush_shape: BrushShape::Cube,
        brush_radius: 3,
        ..ball_small
    };
    // Half-width 3 halves reaches centers at offset 3: four per axis.
    assert_eq!(calculate_brush_voxel_count(&cube_two), 64);
}

#[test]
fn brush_change_marks_chunk_and_loaded_neighbors_once() {
    let mut w = VoxelWorld::new(4);
    let k = ChunkCoord::new(0, 0, 0);
    let n1 = ChunkCoord::new(1, 0, 0);
    let n2 = ChunkCoord::new(0, -1, 1);
    let far = ChunkCoord::new(2, 2, 2);
    for c in [k, n1, n2, far] {
        w.load_chunk(c);
    }
    apply_ball_brush_with_material(&mut w, voxel_center(1, 1, 1), 1, "stone");
    for c in [k, n1, n2] {
        let count = w.priority_meshing_queue.iter().filter(|&&x| x == c).count();
        assert_eq!(count, 1, "{:?}", c);
    }
    assert!(!w.priority_meshing_queue.contains(&far));
}

#[test]
fn no_op_brush_marks_nothing() {
    let mut w = one_chunk_world();
    // Painting air over air changes no voxel, so nothing needs remeshing.
    apply_ball_brush_with_material(&mut w, voxel_center(3, 3, 3), 2, "air");
    assert!(w.priority_meshing_queue.is_empty());
}

#[test]
fn removal_brush_clears_to_air() {
    let mut w = one_chunk_world();
    apply_ball_brush_with_material(&mut w, voxel_center(3, 3, 3), 2, "stone");
    let config = VoxelEditingConfig {
        reach_distance: 16,
        brush_radius: 2,
        brush_shape: BrushShape::Ball,
    };
    // A non-removing call is a no-op.
    apply_brush(&mut w, voxel_center(3, 3, 3), &config, false);
    assert_eq!(material_at(&w, 3, 3, 3), "stone");
    apply_brush(&mut w, voxel_center(3, 3, 3), &config, true);
    assert_eq!(material_at(&w, 3, 3, 3), "air");
    assert_eq!(material_at(&w, 2, 3, 3), "air");
}

#[test]
fn brush_spanning_chunks_edits_both() {
    let mut w = VoxelWorld::new(4);
    w.load_chunk(ChunkCoord::new(0, 0, 0));
    w.load_chunk(ChunkCoord::new(1, 0, 0));
    // A ball across the x = 4 chunk boundary.
    apply_ball_brush_with_material(&mut w, HalfVec::new(8, 3, 3), 2, "stone");
    assert_eq!(material_at(&w, 3, 1, 1), "stone");
    assert_eq!(material_at(&w, 4, 1, 1), "stone");
    assert_eq!(material_at(&w, 2, 1, 1), "air");
    assert_eq!(material_at(&w, 5, 1, 1), "air");
}

#[test]
fn collecting_brush_tallies_clears_and_deposits() {
    let mut reg = MaterialRegistry::new();
    reg.register(Material::new("air", Rgba::new(0, 0, 0, 0), false));
    reg.register(Material::new("stone", Rgba::new(500, 500, 500, 1000), true));
    reg.register(Material::new("dirt", Rgba::new(400, 200, 100, 1000), true));
    reg.register(Material::new("water", Rgba::new(200, 400, 800, 700), false));

    let mut w = one_chunk_world();
    // Solid stone at the center and one dirt neighbor; water is non-solid
    // and must not be collected.
    apply_ball_brush_with_material(&mut w, voxel_center(3, 3, 3), 1, "stone");
    apply_ball_brush_with_material(&mut w, voxel_center(4, 3, 3), 1, "dirt");
    apply_ball_brush_with_material(&mut w, voxel_center(2, 3, 3), 1, "water");

    let mut inv = Inventory::new(2, 2);
    let config = VoxelEditingConfig {
        reach_distance: 16,
        brush_radius: 2,
        brush_shape: BrushShape::Ball,
    };
    // A non-removing call is a no-op.
    let empty = apply_brush_with_inventory(&mut w, voxel_center(3, 3, 3), &config, &mut inv, &reg, false);
    assert!(empty.is_empty());
    assert_eq!(material_at(&w, 3, 3, 3), "stone");

    let report = apply_brush_with_inventory(&mut w, voxel_center(3, 3, 3), &config, &mut inv, &reg, true);
    // Everything in the ball is air afterwards.
    for (x, y, z) in [(3, 3, 3), (2, 3, 3), (4, 3, 3), (3, 2, 3), (3, 4, 3)] {
        assert_eq!(material_at(&w, x, y, z), "air");
    }
    // One stone and one dirt voxel were collected; the water voxel was not.
    assert_eq!(report.len(), 2);
    for entry in &report {
        assert_eq!(entry.1, 1);
        assert_eq!(entry.2, 1);
        assert!(entry.0 == "stone" || entry.0 == "dirt");
    }
    assert_eq!(inv.get_material_count("stone"), 1);
    assert_eq!(inv.get_material_count("dirt"), 1);
    assert_eq!(inv.get_material_count("water"), 0);
}
