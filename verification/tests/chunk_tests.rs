use bevoxel::chunk::ChunkData;
use bevoxel::coords::{ChunkCoord, VoxelPos};
use bevoxel::voxel::Voxel;

#[test]
fn new_chunk_is_all_air() {
    let c = ChunkData::new(ChunkCoord::new(0, 0, 0), 4);
    assert!(!c.modified);
    assert_eq!(c.material_palette.len(), 1);
    assert_eq!(c.material_palette[0], "air");
    for x in 0..4 {
        for y in 0..4 {
            for z in 0..4 {
                assert_eq!(c.get_voxel(x, y, z), Some(Voxel::new(0)));
            }
        }
    }
    assert!(c.needs_generation());
}

#[test]
fn palette_intern_same_name_same_index() {
    let mut c = ChunkData::new(ChunkCoord::new(0, 0, 0), 4);
    let a = c.get_material_id("stone");
    let b = c.get_material_id("stone");
    assert_eq!(a, b);
    assert_eq!(a, 1);
    assert_eq!(c.material_palette.len(), 2);
    let d = c.get_material_id("dirt");
    assert_eq!(d, 2);
    assert_eq!(c.get_material_id("stone"), 1);
}

#[test]
fn palette_overflow_at_257th_name() {
    let mut c = ChunkData::new(ChunkCoord::new(0, 0, 0), 4);
    // "air" occupies index 0; 255 more distinct names fill the palette.
    for i in 0..255u32 {
        let name = format!("material_{}", i);
        assert!(c.try_get_material_id(&name).is_some());
    }
    assert_eq!(c.material_palette.len(), 256);
    // Present names still intern fine.
    assert!(c.try_get_material_id("material_7").is_some());
    // A 257th distinct name is refused and changes nothing.
    assert!(c.try_get_material_id("one_too_many").is_none());
    assert_eq!(c.material_palette.len(), 256);
}

#[test]
fn set_voxel_tracks_modified() {
    let mut c = ChunkData::new(ChunkCoord::new(0, 0, 0), 4);
    // Writing the value already stored leaves `modified` untouched.
    assert!(c.set_voxel(1, 1, 1, Voxel::new(0)));
    assert!(!c.modified);
    let id = c.get_material_id("stone");
    assert!(c.set_voxel(1, 1, 1, Voxel::new(id)));
    assert!(c.modified);
    assert_eq!(c.get_voxel(1, 1, 1), Some(Voxel::new(id)));
    // Once set, `modified` stays set, even for no-op writes.
    assert!(c.set_voxel(1, 1, 1, Voxel::new(id)));
    assert!(c.modified);
    assert!(c.set_voxel(2, 2, 2, Voxel::new(0)));
    assert!(c.modified);
}

#[test]
fn set_voxel_out_of_bounds_is_refused() {
    let mut c = ChunkData::new(ChunkCoord::new(0, 0, 0), 4);
    assert!(!c.set_voxel(4, 0, 0, Voxel::new(0)));
    assert!(!c.set_voxel(0, 9, 0, Voxel::new(0)));
    assert!(!c.modified);
    assert_eq!(c.get_voxel(4, 0, 0), None);
}

#[test]
fn world_pos_accessors_use_chunk_origin() {
    let coord = ChunkCoord::new(-1, 0, 2);
    let mut c = ChunkData::new(coord, 4);
    let id = c.get_material_id("stone");
    let origin = coord.to_world_pos(4);
    let inside = VoxelPos::new(origin.x + 3, origin.y, origin.z + 1);
    assert!(c.set_voxel_world_pos(inside, Voxel::new(id)));
    assert_eq!(c.get_voxel_world_pos(inside), Some(Voxel::new(id)));
    let outside = VoxelPos::new(origin.x + 4, origin.y, origin.z);
    assert_eq!(c.get_voxel_world_pos(outside), None);
    assert!(!c.set_voxel_world_pos(outside, Voxel::new(id)));
}

#[test]
fn set_voxel_by_material_interns_and_writes() {
    let mut c = ChunkData::new(ChunkCoord::new(0, 0, 0), 4);
    assert!(c.set_voxel_by_material(0, 1, 2, "grass"));
    let v = c.get_voxel(0, 1, 2).unwrap();
    assert_eq!(c.get_material_name(v.material_id), Some(&"grass".to_string()));
    assert!(c.modified);
    assert!(!c.needs_generation());
}

#[test]
fn get_material_name_rejects_unassigned_index() {
    let c = ChunkData::new(ChunkCoord::new(0, 0, 0), 4);
    assert_eq!(c.get_material_name(0), Some(&"air".to_string()));
    assert_eq!(c.get_material_name(1), None);
}
