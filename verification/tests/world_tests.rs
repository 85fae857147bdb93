use bevoxel::coords::{ChunkCoord, VoxelPos};
use bevoxel::voxel::Voxel;
use bevoxel::world::VoxelWorld;

#[test]
fn load_creates_once_and_queues_meshing() {
    let mut w = VoxelWorld::new(4);
    let c = ChunkCoord::new(1, 2, 3);
    assert!(w.get_chunk(c).is_none());
    w.load_chunk(c);
    assert!(w.get_chunk(c).is_some());
    assert_eq!(w.meshing_queue.len(), 1);
    assert_eq!(w.meshing_queue[0], c);
    // Loading again is a no-op: no duplicate chunk, no duplicate queue entry.
    w.load_chunk(c);
    assert_eq!(w.chunks.len(), 1);
    assert_eq!(w.meshing_queue.len(), 1);
}

#[test]
fn unload_returns_modified_chunks_for_saving() {
    let mut w = VoxelWorld::new(4);
    let a = ChunkCoord::new(0, 0, 0);
    let b = ChunkCoord::new(1, 0, 0);
    w.load_chunk(a);
    w.load_chunk(b);
    // Mutate chunk `a` through the world.
    let origin = a.to_world_pos(4);
    let pos = VoxelPos::new(origin.x + 1, origin.y + 1, origin.z + 1);
    assert!(w.set_voxel_at_world_pos(pos, Voxel::new(0)));
    // A no-op write does not set `modified`, so nothing needs saving.
    assert!(w.unload_chunk(a).is_none());
    assert!(w.get_chunk(a).is_none());
    // An unloaded coordinate yields nothing.
    assert!(w.unload_chunk(a).is_none());
    assert!(w.get_chunk(b).is_some());
}

#[test]
fn voxel_reads_default_to_air() {
    let w = VoxelWorld::new(4);
    let v = w.get_voxel_at_world_pos(VoxelPos::new(10, 20, 30));
    assert_eq!(v, Voxel::new(0));
}

#[test]
fn remesh_cascade_marks_chunk_and_loaded_neighbors_once() {
    let mut w = VoxelWorld::new(4);
    let k = ChunkCoord::new(0, 0, 0);
    let n1 = ChunkCoord::new(1, 0, 0);
    let n2 = ChunkCoord::new(-1, 1, 0);
    let far = ChunkCoord::new(3, 3, 3);
    w.load_chunk(k);
    w.load_chunk(n1);
    w.load_chunk(n2);
    w.load_chunk(far);
    w.mark_chunk_and_neighbors_for_remesh(k);
    let q = &w.priority_meshing_queue;
    for c in [k, n1, n2] {
        assert_eq!(q.iter().filter(|&&x| x == c).count(), 1, "{:?}", c);
    }
    assert_eq!(q.iter().filter(|&&x| x == far).count(), 0);
    // Marking again adds no duplicates.
    w.mark_chunk_and_neighbors_for_remesh(k);
    for c in [k, n1, n2] {
        assert_eq!(w.priority_meshing_queue.iter().filter(|&&x| x == c).count(), 1);
    }
}

#[test]
fn set_voxel_at_world_pos_cascades() {
    let mut w = VoxelWorld::new(4);
    let k = ChunkCoord::new(0, 0, 0);
    let nb = ChunkCoord::new(0, 0, 1);
    w.load_chunk(k);
    w.load_chunk(nb);
    let ok = w.set_voxel_at_world_pos(VoxelPos::new(1, 1, 1), Voxel::new(0));
    assert!(ok);
    assert!(w.priority_meshing_queue.contains(&k));
    assert!(w.priority_meshing_queue.contains(&nb));
    // Positions in unloaded chunks are refused.
    assert!(!w.set_voxel_at_world_pos(VoxelPos::new(100, 100, 100), Voxel::new(0)));
}
