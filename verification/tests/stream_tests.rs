use bevoxel::coords::{ChunkCoord, VoxelPos};
use bevoxel::stream::{world_dist_to, GameConfig};
use bevoxel::world::VoxelWorld;

fn dist_sq(c: ChunkCoord) -> i32 {
    c.x * c.x + c.y * c.y + c.z * c.z
}

#[test]
fn observer_at_origin_queues_exactly_the_render_ball() {
    let mut w = VoxelWorld::new(4);
    let config = GameConfig::new(2, 4, 2, 16);
    let saved = w.update_player_position(VoxelPos::new(0, 0, 0), &config);
    assert!(saved.is_empty());
    // Every coordinate with squared chunk-distance at most 4 is queued;
    // none beyond.
    for dx in -3..=3 {
        for dy in -3..=3 {
            for dz in -3..=3 {
                let c = ChunkCoord::new(dx, dy, dz);
                let queued = w.loading_queue.contains(&c);
                assert_eq!(queued, dist_sq(c) <= 4, "{:?}", c);
            }
        }
    }
    // No duplicates.
    for i in 0..w.loading_queue.len() {
        for j in 0..i {
            assert_ne!(w.loading_queue[i], w.loading_queue[j]);
        }
    }
}

#[test]
fn unload_uses_chebyshev_hysteresis() {
    let mut w = VoxelWorld::new(4);
    let config = GameConfig::new(2, 4, 2, 16);
    // Preload chunks at Chebyshev distances 4 and 5 from the origin chunk.
    let keep = ChunkCoord::new(4, 4, 4);
    let evict = ChunkCoord::new(5, 0, 0);
    w.load_chunk(keep);
    w.load_chunk(evict);
    w.update_player_position(VoxelPos::new(0, 0, 0), &config);
    // Within the unload distance nothing is evicted, beyond it everything.
    assert!(w.get_chunk(keep).is_some());
    assert!(w.get_chunk(evict).is_none());
}

#[test]
fn observer_in_same_chunk_is_a_no_op() {
    let mut w = VoxelWorld::new(4);
    let config = GameConfig::new(2, 4, 2, 16);
    w.update_player_position(VoxelPos::new(0, 0, 0), &config);
    let queued = w.loading_queue.len();
    // Moving within the same chunk changes nothing.
    w.update_player_position(VoxelPos::new(3, 3, 3), &config);
    assert_eq!(w.loading_queue.len(), queued);
    // Moving to another chunk queues more.
    w.update_player_position(VoxelPos::new(40, 0, 0), &config);
    assert!(w.loading_queue.len() > queued);
}

#[test]
fn loading_queue_drains_closest_first() {
    let mut w = VoxelWorld::new(4);
    let config = GameConfig::new(2, 4, 3, 16);
    let observer = VoxelPos::new(0, 0, 0);
    w.update_player_position(observer, &config);
    let before = w.loading_queue.len();
    let loaded = w.process_loading_queue(observer, &config);
    assert_eq!(loaded.len(), 3);
    assert_eq!(w.loading_queue.len(), before - 3);
    // Distances never decrease along the drained list, and every drained
    // chunk is at least as close as everything left in the queue.
    for i in 1..loaded.len() {
        assert!(
            world_dist_to(loaded[i - 1], 4, observer) <= world_dist_to(loaded[i], 4, observer)
        );
    }
    let last = loaded[loaded.len() - 1];
    for &c in w.loading_queue.iter() {
        assert!(world_dist_to(last, 4, observer) <= world_dist_to(c, 4, observer));
    }
    // The drained chunks are now loaded and queued for meshing.
    for &c in loaded.iter() {
        assert!(w.get_chunk(c).is_some());
        assert!(w.meshing_queue.contains(&c));
    }
}

#[test]
fn default_config_matches_documented_values() {
    let c: GameConfig = Default::default();
    assert_eq!(c.render_distance, 8);
    assert_eq!(c.unload_distance, 12);
    assert_eq!(c.max_chunks_per_frame, 2);
    assert_eq!(c.max_meshes_per_frame, 16);
}
